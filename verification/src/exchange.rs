//! Exchange rates between currencies, and a registry of them.

use vstd::prelude::*;
use crate::currency::FormattableCurrency;
use crate::decimal::{Decimal, decimal_mul, decimal_div, pow10, lemma_pow10_pos, MAX_MANTISSA, iabs};
use crate::error::MoneyError;
use crate::money::Money;

verus! {

/// A rate of conversion between two distinct currencies.  A zero or
/// negative rate is accepted: it is mathematically valid and produces a
/// zero or sign-flipped result.
#[derive(Debug, Clone, Copy, PartialEq)]
pub struct ExchangeRate<'a, T: FormattableCurrency> {
    /// The currency converted from.
    pub from: &'a T,
    /// The currency converted to.
    pub to: &'a T,
    rate: Decimal,
}

impl<'a, T: FormattableCurrency> ExchangeRate<'a, T> {
    pub closed spec fn spec_from(self) -> T {
        *self.from
    }

    pub closed spec fn spec_to(self) -> T {
        *self.to
    }

    pub closed spec fn spec_rate(self) -> Decimal {
        self.rate
    }

    /// The two currencies of a rate always differ: `new`, the only way to
    /// build one, refuses a rate from a currency to itself.
    pub open spec fn wf(self) -> bool {
        self.spec_from().spec_code() != self.spec_to().spec_code()
    }

    /// Builds a rate between two currencies; fails with `InvalidCurrency`
    /// exactly when the two are the same currency.
    pub fn new(from: &'a T, to: &'a T, rate: Decimal) -> (r: Result<
        ExchangeRate<'a, T>,
        MoneyError,
    >)
        ensures
            from.spec_code() == to.spec_code() ==> r == Err::<ExchangeRate<'a, T>, MoneyError>(
                MoneyError::InvalidCurrency,
            ),
            from.spec_code() != to.spec_code() ==> (r matches Ok(er) && er.spec_from() == *from
                && er.spec_to() == *to && er.spec_rate() == rate && er.wf()),
    {
        if crate::money::same_currency(from, to) {
            return Err(MoneyError::InvalidCurrency);
        }
        Ok(ExchangeRate { from, to, rate })
    }

    /// The currency the rate converts from.
    pub fn from_currency(&self) -> (r: &'a T)
        ensures
            *r == self.spec_from(),
    {
        self.from
    }

    /// The currency the rate converts to.
    pub fn to_currency(&self) -> (r: &'a T)
        ensures
            *r == self.spec_to(),
    {
        self.to
    }

    /// The decimal rate of conversion.
    pub fn rate(&self) -> (r: Decimal)
        ensures
            r == self.spec_rate(),
    {
        self.rate
    }

    /// Converts an amount of the `from` currency into the `to` currency by
    /// multiplying with the rate; nothing is rounded implicitly.  Fails with
    /// `InvalidCurrency` exactly when the amount is not of the `from`
    /// currency, and with `Overflow` when the underlying multiplication
    /// overflows.  The product is exact whenever its mantissa fits in 96
    /// bits at the sum of the scales.
    pub fn convert(&self, amount: Money<'a, T>) -> (r: Result<Money<'a, T>, MoneyError>)
        ensures
            amount.currency_code() != self.spec_from().spec_code() ==> r == Err::<
                Money<'a, T>,
                MoneyError,
            >(MoneyError::InvalidCurrency),
            amount.currency_code() == self.spec_from().spec_code() ==> ({
                let p = decimal_mul(
                    amount.spec_amount().spec_mantissa() as i128,
                    amount.spec_amount().spec_scale() as u32,
                    self.spec_rate().spec_mantissa() as i128,
                    self.spec_rate().spec_scale() as u32,
                );
                match r {
                    Ok(m) => p matches Some(pp) && m.spec_amount().spec_mantissa() == pp.0 as int
                        && m.spec_amount().spec_scale() == pp.1 as nat && m.spec_currency()
                        == self.spec_to(),
                    Err(e) => p is None && e == MoneyError::Overflow,
                }
            }),
            (amount.currency_code() == self.spec_from().spec_code() && amount.spec_amount(
            ).mul_is_exact(self.spec_rate())) ==> (r matches Ok(m) && m.amount_value() * pow10(28)
                == amount.amount_value() * self.spec_rate().value()),
    {
        if !crate::money::same_currency(amount.currency(), self.from) {
            return Err(MoneyError::InvalidCurrency);
        }
        match amount.amount().checked_mul(&self.rate) {
            Some(d) => Ok(Money::from_decimal(d, self.to)),
            None => Err(MoneyError::Overflow),
        }
    }
}

/// The most recently set rate for the ordered pair of currency codes, if
/// any was set.
pub open spec fn spec_lookup<'a, T: FormattableCurrency>(
    rates: Seq<ExchangeRate<'a, T>>,
    from: Seq<char>,
    to: Seq<char>,
) -> Option<ExchangeRate<'a, T>>
    decreases rates.len(),
{
    if rates.len() == 0 {
        None
    } else if rates.last().spec_from().spec_code() == from && rates.last().spec_to().spec_code()
        == to {
        Some(rates.last())
    } else {
        spec_lookup(rates.drop_last(), from, to)
    }
}

/// A registry of exchange rates, keyed by the ordered pair of currency
/// codes.  Setting a rate for a pair shadows any earlier rate for it; the
/// registry is not internally synchronized.
#[derive(Debug)]
pub struct Exchange<'a, T: FormattableCurrency> {
    rates: Vec<ExchangeRate<'a, T>>,
}

impl<'a, T: FormattableCurrency> Exchange<'a, T> {
    pub closed spec fn spec_rates(self) -> Seq<ExchangeRate<'a, T>> {
        self.rates@
    }

    /// The rate the registry holds for the pair of codes, if any.
    pub open spec fn spec_get(self, from: Seq<char>, to: Seq<char>) -> Option<
        ExchangeRate<'a, T>,
    > {
        spec_lookup(self.spec_rates(), from, to)
    }

    /// An empty registry.
    pub fn new() -> (r: Exchange<'a, T>)
        ensures
            forall|f: Seq<char>, t: Seq<char>| #[trigger] r.spec_get(f, t) is None,
    {
        let e = Exchange { rates: Vec::new() };
        proof {
            assert(e.spec_rates() =~= Seq::<ExchangeRate<'a, T>>::empty());
        }
        e
    }

    /// Sets the rate for its pair of currencies, overwriting any rate the
    /// pair had; every other pair keeps its rate.
    pub fn set_rate(&mut self, rate: &ExchangeRate<'a, T>)
        ensures
            final(self).spec_get(
                rate.spec_from().spec_code(),
                rate.spec_to().spec_code(),
            ) == Some(*rate),
            forall|f: Seq<char>, t: Seq<char>|
                !(f == rate.spec_from().spec_code() && t == rate.spec_to().spec_code())
                    ==> #[trigger] final(self).spec_get(f, t) == old(self).spec_get(f, t),
    {
        self.rates.push(*rate);
        proof {
            assert(self.spec_rates().drop_last() =~= old(self).spec_rates());
        }
    }

    /// Sets the rate and also the reciprocal rate for the reverse pair;
    /// fails with `DivideByZero`, changing nothing, when the rate is
    /// exactly zero (a zero rate has no finite inverse).  The returned
    /// inverse carries what the underlying decimal division makes of
    /// `1 / rate`, exact whenever an exact reciprocal is representable.
    pub fn set_rate_and_inverse(&mut self, rate: &ExchangeRate<'a, T>) -> (r: Result<
        ExchangeRate<'a, T>,
        MoneyError,
    >)
        requires
            rate.wf(),
        ensures
            rate.spec_rate().value() == 0 ==> r == Err::<ExchangeRate<'a, T>, MoneyError>(
                MoneyError::DivideByZero,
            ) && final(self).spec_rates() == old(self).spec_rates(),
            rate.spec_rate().value() != 0 ==> (r matches Ok(inv) && {
                &&& inv.spec_from() == rate.spec_to()
                &&& inv.spec_to() == rate.spec_from()
                &&& ({
                    let p = decimal_div(
                        1i128,
                        0u32,
                        rate.spec_rate().spec_mantissa() as i128,
                        rate.spec_rate().spec_scale() as u32,
                    );
                    p matches Some(pp) && inv.spec_rate().spec_mantissa() == pp.0 as int
                        && inv.spec_rate().spec_scale() == pp.1 as nat
                })
                &&& final(self).spec_get(
                    rate.spec_from().spec_code(),
                    rate.spec_to().spec_code(),
                ) == Some(*rate)
                &&& final(self).spec_get(
                    rate.spec_to().spec_code(),
                    rate.spec_from().spec_code(),
                ) == Some(inv)
                &&& forall|f: Seq<char>, t: Seq<char>|
                    (!(f == rate.spec_from().spec_code() && t == rate.spec_to().spec_code()) && !(f
                        == rate.spec_to().spec_code() && t == rate.spec_from().spec_code()))
                        ==> #[trigger] final(self).spec_get(f, t) == old(self).spec_get(f, t)
            }),
    {
        let one = Decimal::new(1, 0);
        let rate_dec = rate.rate();
        if rate_dec.is_zero() {
            return Err(MoneyError::DivideByZero);
        }
        proof {
            lemma_pow10_pos(28);
            lemma_inverse_in_range(rate.spec_rate().value());
        }
        let inv_dec = match one.checked_div(&rate_dec) {
            Some(d) => d,
            None => {
                proof {
                    assert(false);
                }
                Decimal::new(0, 0)
            },
        };
        self.set_rate(rate);
        let inverse = match ExchangeRate::new(rate.to, rate.from, inv_dec) {
            Ok(er) => er,
            Err(_) => {
                proof {
                    assert(false);
                }
                return Err(MoneyError::InvalidCurrency);
            },
        };
        self.set_rate(&inverse);
        Ok(inverse)
    }

    /// Returns the rate the registry holds for the pair of currencies, the
    /// most recently set one, or `None` when the pair has none.
    pub fn get_rate(&self, from: &T, to: &T) -> (r: Option<ExchangeRate<'a, T>>)
        ensures
            r == self.spec_get(from.spec_code(), to.spec_code()),
    {
        let n = self.rates.len();
        proof {
            assert(self.spec_rates().subrange(0, n as int) =~= self.spec_rates());
        }
        let mut i: usize = n;
        while i > 0
            invariant
                i <= n,
                n == self.spec_rates().len(),
                spec_lookup(
                    self.spec_rates().subrange(0, i as int),
                    from.spec_code(),
                    to.spec_code(),
                ) == self.spec_get(from.spec_code(), to.spec_code()),
            decreases i,
        {
            i = i - 1;
            let er = &self.rates[i];
            proof {
                assert(self.spec_rates().subrange(0, i as int + 1).last() == self.spec_rates()[i as int]);
                assert(self.spec_rates().subrange(0, i as int + 1).drop_last() =~= self.spec_rates().subrange(0, i as int));
            }
            if crate::money::same_currency(er.from, from) && crate::money::same_currency(
                er.to,
                to,
            ) {
                return Some(*er);
            }
        }
        proof {
            assert(self.spec_rates().subrange(0, 0) =~= Seq::<ExchangeRate<'a, T>>::empty());
        }
        None
    }
}

/// The reciprocal of any non-zero representable decimal stays within the
/// success bound of the division wrapper: the smallest non-zero magnitude
/// is one unit of `10^-28`, whose reciprocal is far below the mantissa cap.
proof fn lemma_inverse_in_range(rv: int)
    requires
        rv != 0,
    ensures
        -iabs(rv) * (MAX_MANTISSA - 1) <= 1 * pow10(28) <= iabs(rv) * (MAX_MANTISSA - 1),
{
    lemma_pow10_pos(28);
    crate::decimal::lemma_pow10_28();
    assert(iabs(rv) >= 1);
    assert(-iabs(rv) * (MAX_MANTISSA - 1) <= pow10(28) <= iabs(rv) * (MAX_MANTISSA - 1))
        by (nonlinear_arith)
        requires
            iabs(rv) >= 1,
            pow10(28) == 10_000_000_000_000_000_000_000_000_000,
    ;
}

} // verus!
