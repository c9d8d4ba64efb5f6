//! `Money`: an exact decimal amount tied to a currency.
//!
//! All binary operations demand equal currency identity (equal codes) and
//! report `CurrencyMismatch` otherwise; nothing is coerced silently.  Every
//! operation returns a new value.

use vstd::prelude::*;
use vstd::arithmetic::div_mod::{lemma_fundamental_div_mod, lemma_mod_division_less_than_divisor};
use crate::currency::FormattableCurrency;
use crate::decimal::{
    Decimal, pow10, MAX_MANTISSA, lemma_pow10_pos, lemma_pow10_add, lemma_pow10_mono,
    decimal_mul, decimal_div, exact_quotient_eq, rounded_mantissa, rounded_scale, aval, iabs,
    pow10_i128, trunc_div, trunc_div_i128,
};
use crate::error::MoneyError;

verus! {

/// The sum of a list of allocation weights.
pub open spec fn sum_weights(ws: Seq<i32>) -> int
    decreases ws.len(),
{
    if ws.len() == 0 {
        0
    } else {
        sum_weights(ws.drop_last()) + ws.last()
    }
}

/// Weights an allocation accepts: a non-empty list of non-negative weights,
/// at least one of them positive.
pub open spec fn valid_weights(ws: Seq<i32>) -> bool {
    &&& ws.len() > 0
    &&& forall|i: int| 0 <= i < ws.len() ==> ws[i] >= 0
    &&& exists|i: int| 0 <= i < ws.len() && ws[i] > 0
}

/// The provisional share of weight `w`: the total times the weight, divided
/// by the weight sum, truncated.  All arguments are non-negative here.
pub open spec fn base_share(tm: int, w: int, wsum: int) -> int {
    (tm * w) / wsum
}

/// The sum of the provisional shares of the first `k` weights.
pub open spec fn base_sum(tm: int, ws: Seq<i32>, wsum: int) -> int
    decreases ws.len(),
{
    if ws.len() == 0 {
        0
    } else {
        base_sum(tm, ws.drop_last(), wsum) + base_share(tm, ws.last() as int, wsum)
    }
}

/// The final share of index `i` in magnitude: its provisional share, plus one
/// left-over minor unit when `i` lies before the remainder.  Earlier shares
/// receive any extra unit first.
pub open spec fn spec_share(tm: int, ws: Seq<i32>, wsum: int, i: int) -> int {
    base_share(tm, ws[i] as int, wsum) + if i < tm - base_sum(tm, ws, wsum) {
        1int
    } else {
        0int
    }
}

/// The sum of the first `k` final shares.
pub open spec fn sum_spec_shares(tm: int, ws: Seq<i32>, wsum: int, k: int) -> int
    decreases k,
{
    if k <= 0 {
        0
    } else {
        sum_spec_shares(tm, ws, wsum, k - 1) + spec_share(tm, ws, wsum, k - 1)
    }
}

/// The amount of `m / 10^s` in whole minor units of a currency with exponent
/// `e`, truncated toward zero.
pub open spec fn spec_minor_total(m: int, s: nat, e: nat) -> int {
    if s >= e {
        trunc_div(m, pow10((s - e) as nat))
    } else {
        m * pow10((e - s) as nat)
    }
}

/// Whether the minor-unit total `t` and the weights stay inside the machine
/// range an allocation computes in.
pub open spec fn allocate_fits(t: int, ws: Seq<i32>) -> bool {
    &&& iabs(t) <= MAX_MANTISSA
    &&& forall|i: int| 0 <= i < ws.len() ==> iabs(t) * ws[i] <= i128::MAX
}

/// A strategy for resolving a value that lies exactly halfway between two
/// representable results.  Values that are not on the midpoint always round
/// to the nearer result, whatever the strategy.
#[derive(Debug, Clone, Copy, PartialEq, Eq, Structural)]
pub enum Round {
    /// Ties round away from zero: 2.5 -> 3, -2.5 -> -3.
    HalfUp,
    /// Ties round toward zero: 2.5 -> 2, -2.5 -> -2.
    HalfDown,
    /// Ties round to the nearest even digit: 2.5 -> 2, 3.5 -> 4.
    HalfEven,
}

/// An amount of a specific currency.
///
/// The amount is an exact decimal; the currency is held by reference and its
/// code is the identity that all arithmetic checks.
#[derive(Debug, Clone, Copy, PartialEq)]
pub struct Money<'a, T: FormattableCurrency> {
    amount: Decimal,
    currency: &'a T,
}

/// Whether `e` is the `CurrencyMismatch` error reporting `expected` and `actual`.
pub open spec fn is_mismatch(e: MoneyError, expected: Seq<char>, actual: Seq<char>) -> bool {
    match e {
        MoneyError::CurrencyMismatch { expected: ee, actual: aa } => ee@ == expected && aa@
            == actual,
        _ => false,
    }
}

/// Compares two currencies by their codes, the identity that governs
/// arithmetic compatibility.
pub(crate) fn same_currency<T: FormattableCurrency>(a: &T, b: &T) -> (r: bool)
    ensures
        r == (a.spec_code() == b.spec_code()),
{
    let sa = a.to_string();
    let sb = b.to_string();
    sa == sb
}

/// Builds the `CurrencyMismatch` error naming the two codes.
pub(crate) fn mismatch<T: FormattableCurrency>(expected: &T, actual: &T) -> (r: MoneyError)
    ensures
        is_mismatch(r, expected.spec_code(), actual.spec_code()),
{
    MoneyError::CurrencyMismatch { expected: expected.to_string(), actual: actual.to_string() }
}

impl<'a, T: FormattableCurrency> Money<'a, T> {
    pub closed spec fn spec_amount(self) -> Decimal {
        self.amount
    }

    pub closed spec fn spec_currency(self) -> T {
        *self.currency
    }

    /// The amount as a mathematical integer in units of `10^-28`.
    pub open spec fn amount_value(self) -> int {
        self.spec_amount().value()
    }

    /// The code of the currency of this amount.
    pub open spec fn currency_code(self) -> Seq<char> {
        self.spec_currency().spec_code()
    }

    /// Creates a Money from an integer number of minor units of the currency
    /// (e.g. 1000 -> 10.00 in USD).  Exact: no rounding takes place.
    pub fn from_minor(amount: i64, currency: &'a T) -> (r: Money<'a, T>)
        requires
            currency.spec_exponent() <= 28,
        ensures
            r.amount_value() == amount * pow10((28 - currency.spec_exponent()) as nat),
            r.spec_currency() == *currency,
            r.spec_amount().spec_mantissa() == amount as int,
            r.spec_amount().spec_scale() == currency.spec_exponent(),
    {
        let exp = currency.exponent();
        Money { amount: Decimal::new(amount, exp), currency }
    }

    /// Creates a Money from an integer number of major units of the currency
    /// (e.g. 1000 -> 1,000 in USD).
    pub fn from_major(amount: i64, currency: &'a T) -> (r: Money<'a, T>)
        ensures
            r.amount_value() == amount * pow10(28),
            r.spec_currency() == *currency,
            r.spec_amount().spec_mantissa() == amount as int,
            r.spec_amount().spec_scale() == 0,
    {
        Money { amount: Decimal::new(amount, 0), currency }
    }

    /// Creates a Money from a decimal amount, stored as given: an amount with
    /// more fractional digits than the currency's exponent is not rounded
    /// here (callers who need that call `round`).
    pub fn from_decimal(amount: Decimal, currency: &'a T) -> (r: Money<'a, T>)
        ensures
            r.spec_amount() == amount,
            r.spec_currency() == *currency,
    {
        Money { amount, currency }
    }

    /// The decimal amount.
    pub fn amount(&self) -> (r: &Decimal)
        ensures
            *r == self.spec_amount(),
    {
        &self.amount
    }

    /// The currency.
    pub fn currency(&self) -> (r: &'a T)
        ensures
            *r == self.spec_currency(),
    {
        self.currency
    }

    /// True if the amount is zero; a negatively signed zero is still zero.
    pub fn is_zero(&self) -> (r: bool)
        ensures
            r == (self.amount_value() == 0),
    {
        self.amount.is_zero()
    }

    /// True if the amount is strictly positive.
    pub fn is_positive(&self) -> (r: bool)
        ensures
            r == (self.amount_value() > 0),
    {
        self.amount.is_positive()
    }

    /// True if the amount is strictly negative.
    pub fn is_negative(&self) -> (r: bool)
        ensures
            r == (self.amount_value() < 0),
    {
        self.amount.is_negative()
    }

    /// The sum of two amounts of the same currency.  Fails with
    /// `CurrencyMismatch` when the currencies differ, and with `Overflow`
    /// when the exact sum has no 96-bit representation at the operands'
    /// common scale; nothing is rounded.
    pub fn add(&self, other: &Money<'a, T>) -> (r: Result<Money<'a, T>, MoneyError>)
        ensures
            self.currency_code() != other.currency_code() ==> (r matches Err(e) && is_mismatch(
                e,
                self.currency_code(),
                other.currency_code(),
            )),
            (self.currency_code() == other.currency_code() && Decimal::representable_at(
                self.amount_value() + other.amount_value(),
                self.spec_amount().common_scale(other.spec_amount()),
            )) ==> (r matches Ok(m) && m.amount_value() == self.amount_value()
                + other.amount_value() && m.spec_amount().spec_scale() == self.spec_amount(
            ).common_scale(other.spec_amount()) && m.spec_currency() == self.spec_currency()),
            (self.currency_code() == other.currency_code() && !Decimal::representable_at(
                self.amount_value() + other.amount_value(),
                self.spec_amount().common_scale(other.spec_amount()),
            )) ==> r == Err::<Money<'a, T>, MoneyError>(MoneyError::Overflow),
    {
        if !same_currency(self.currency, other.currency) {
            return Err(mismatch(self.currency, other.currency));
        }
        match self.amount.checked_add(&other.amount) {
            Some(sum) => Ok(Money { amount: sum, currency: self.currency }),
            None => Err(MoneyError::Overflow),
        }
    }

    /// The difference of two amounts of the same currency; errors as `add`.
    pub fn sub(&self, other: &Money<'a, T>) -> (r: Result<Money<'a, T>, MoneyError>)
        ensures
            self.currency_code() != other.currency_code() ==> (r matches Err(e) && is_mismatch(
                e,
                self.currency_code(),
                other.currency_code(),
            )),
            (self.currency_code() == other.currency_code() && Decimal::representable_at(
                self.amount_value() - other.amount_value(),
                self.spec_amount().common_scale(other.spec_amount()),
            )) ==> (r matches Ok(m) && m.amount_value() == self.amount_value()
                - other.amount_value() && m.spec_amount().spec_scale() == self.spec_amount(
            ).common_scale(other.spec_amount()) && m.spec_currency() == self.spec_currency()),
            (self.currency_code() == other.currency_code() && !Decimal::representable_at(
                self.amount_value() - other.amount_value(),
                self.spec_amount().common_scale(other.spec_amount()),
            )) ==> r == Err::<Money<'a, T>, MoneyError>(MoneyError::Overflow),
    {
        if !same_currency(self.currency, other.currency) {
            return Err(mismatch(self.currency, other.currency));
        }
        match self.amount.checked_sub(&other.amount) {
            Some(diff) => Ok(Money { amount: diff, currency: self.currency }),
            None => Err(MoneyError::Overflow),
        }
    }

    /// The same amount with the opposite sign.  Always succeeds.
    pub fn neg(&self) -> (r: Money<'a, T>)
        ensures
            r.amount_value() == -self.amount_value(),
            r.spec_currency() == self.spec_currency(),
    {
        Money { amount: self.amount.neg(), currency: self.currency }
    }

    /// The magnitude of the amount.  Always succeeds.
    pub fn abs(&self) -> (r: Money<'a, T>)
        ensures
            r.amount_value() == iabs(self.amount_value()),
            r.spec_currency() == self.spec_currency(),
    {
        Money { amount: self.amount.abs(), currency: self.currency }
    }

    /// Orders two amounts of the same currency by value; fails with
    /// `CurrencyMismatch` when the currencies differ.
    pub fn compare(&self, other: &Money<'a, T>) -> (r: Result<core::cmp::Ordering, MoneyError>)
        ensures
            self.currency_code() != other.currency_code() ==> (r matches Err(e) && is_mismatch(
                e,
                self.currency_code(),
                other.currency_code(),
            )),
            self.currency_code() == other.currency_code() ==> (r matches Ok(o) && (o
                == core::cmp::Ordering::Equal <==> self.amount_value() == other.amount_value()) && (
            o == core::cmp::Ordering::Less <==> self.amount_value() < other.amount_value()) && (o
                == core::cmp::Ordering::Greater <==> self.amount_value() > other.amount_value())),
    {
        if !same_currency(self.currency, other.currency) {
            return Err(mismatch(self.currency, other.currency));
        }
        Ok(self.amount.cmp_value(&other.amount))
    }

    /// True if `self > other`; fails with `CurrencyMismatch` as `compare` does.
    pub fn gt(&self, other: &Money<'a, T>) -> (r: Result<bool, MoneyError>)
        ensures
            self.currency_code() != other.currency_code() ==> r is Err,
            self.currency_code() == other.currency_code() ==> r == Ok::<bool, MoneyError>(
                self.amount_value() > other.amount_value(),
            ),
    {
        match self.compare(other) {
            Ok(o) => Ok(matches!(o, core::cmp::Ordering::Greater)),
            Err(e) => Err(e),
        }
    }

    /// True if `self >= other`; fails with `CurrencyMismatch` as `compare` does.
    pub fn gte(&self, other: &Money<'a, T>) -> (r: Result<bool, MoneyError>)
        ensures
            self.currency_code() != other.currency_code() ==> r is Err,
            self.currency_code() == other.currency_code() ==> r == Ok::<bool, MoneyError>(
                self.amount_value() >= other.amount_value(),
            ),
    {
        match self.compare(other) {
            Ok(o) => Ok(!matches!(o, core::cmp::Ordering::Less)),
            Err(e) => Err(e),
        }
    }

    /// True if `self < other`; fails with `CurrencyMismatch` as `compare` does.
    pub fn lt(&self, other: &Money<'a, T>) -> (r: Result<bool, MoneyError>)
        ensures
            self.currency_code() != other.currency_code() ==> r is Err,
            self.currency_code() == other.currency_code() ==> r == Ok::<bool, MoneyError>(
                self.amount_value() < other.amount_value(),
            ),
    {
        match self.compare(other) {
            Ok(o) => Ok(matches!(o, core::cmp::Ordering::Less)),
            Err(e) => Err(e),
        }
    }

    /// True if `self <= other`; fails with `CurrencyMismatch` as `compare` does.
    pub fn lte(&self, other: &Money<'a, T>) -> (r: Result<bool, MoneyError>)
        ensures
            self.currency_code() != other.currency_code() ==> r is Err,
            self.currency_code() == other.currency_code() ==> r == Ok::<bool, MoneyError>(
                self.amount_value() <= other.amount_value(),
            ),
    {
        match self.compare(other) {
            Ok(o) => Ok(!matches!(o, core::cmp::Ordering::Greater)),
            Err(e) => Err(e),
        }
    }

    /// True if the two amounts are equal; fails with `CurrencyMismatch` as
    /// `compare` does.
    pub fn eq_value(&self, other: &Money<'a, T>) -> (r: Result<bool, MoneyError>)
        ensures
            self.currency_code() != other.currency_code() ==> r is Err,
            self.currency_code() == other.currency_code() ==> r == Ok::<bool, MoneyError>(
                self.amount_value() == other.amount_value(),
            ),
    {
        match self.compare(other) {
            Ok(o) => Ok(matches!(o, core::cmp::Ordering::Equal)),
            Err(e) => Err(e),
        }
    }

    /// The amount multiplied by an integer scalar, through the underlying
    /// decimal multiplication.  Exact whenever the product's mantissa fits in
    /// 96 bits; fails with `Overflow` exactly when the underlying
    /// multiplication overflows.
    pub fn mul(&self, scalar: i64) -> (r: Result<Money<'a, T>, MoneyError>)
        ensures
            ({
                let p = decimal_mul(
                    self.spec_amount().spec_mantissa() as i128,
                    self.spec_amount().spec_scale() as u32,
                    scalar as i128,
                    0u32,
                );
                match r {
                    Ok(m) => p matches Some(pp) && m.spec_amount().spec_mantissa() == pp.0 as int
                        && m.spec_amount().spec_scale() == pp.1 as nat && m.spec_currency()
                        == self.spec_currency(),
                    Err(e) => p is None && e == MoneyError::Overflow,
                }
            }),
            -MAX_MANTISSA <= self.spec_amount().spec_mantissa() * scalar <= MAX_MANTISSA ==> (
            r matches Ok(m) && m.amount_value() == self.amount_value() * scalar),
    {
        proof {
            use_type_invariant(&self.amount);
        }
        let s = Decimal::new(scalar, 0);
        let ghost a = self.amount;
        match self.amount.checked_mul(&s) {
            Some(d) => {
                proof {
                    if -MAX_MANTISSA <= a.spec_mantissa() * scalar <= MAX_MANTISSA {
                        lemma_mul_value_cancel(
                            d.value(),
                            a.value(),
                            scalar as int,
                        );
                    }
                }
                Ok(Money { amount: d, currency: self.currency })
            },
            None => Err(MoneyError::Overflow),
        }
    }

    /// The amount divided by an integer scalar, through the underlying
    /// decimal division.  Fails with `DivisionByZero` exactly when the scalar
    /// is zero (an exact check, not an epsilon comparison); a non-zero scalar
    /// always divides.  The quotient is exact whenever an exact quotient is
    /// representable; otherwise it carries the underlying division's 28-digit
    /// result.
    pub fn div(&self, scalar: i64) -> (r: Result<Money<'a, T>, MoneyError>)
        ensures
            scalar == 0 ==> r == Err::<Money<'a, T>, MoneyError>(MoneyError::DivisionByZero),
            scalar != 0 ==> (r matches Ok(m) && m.spec_currency() == self.spec_currency() && ({
                let p = decimal_div(
                    self.spec_amount().spec_mantissa() as i128,
                    self.spec_amount().spec_scale() as u32,
                    scalar as i128,
                    0u32,
                );
                p matches Some(pp) && m.spec_amount().spec_mantissa() == pp.0 as int
                    && m.spec_amount().spec_scale() == pp.1 as nat
            })),
            (scalar != 0 && (exists|qm: int, qs: nat|
                qs <= 28 && -MAX_MANTISSA <= qm <= MAX_MANTISSA && #[trigger] exact_quotient_eq(
                    qm,
                    qs,
                    self.spec_amount().spec_mantissa(),
                    self.spec_amount().spec_scale(),
                    scalar as int,
                    0,
                ))) ==> (r matches Ok(m) && m.amount_value() * scalar == self.amount_value()),
    {
        proof {
            use_type_invariant(&self.amount);
        }
        if scalar == 0 {
            return Err(MoneyError::DivisionByZero);
        }
        let s = Decimal::new(scalar, 0);
        let ghost a = self.amount;
        proof {
            lemma_pow10_pos(28);
            lemma_pow10_pos((28 - a.spec_scale()) as nat);
            lemma_div_scalar_in_range(a.spec_mantissa(), a.spec_scale(), scalar as int);
            assert(s.value() != 0) by (nonlinear_arith)
                requires
                    s.value() == scalar * pow10(28),
                    scalar != 0,
                    pow10(28) >= 1,
            ;
        }
        match self.amount.checked_div(&s) {
            Some(d) => {
                proof {
                    if exists|qm: int, qs: nat|
                        qs <= 28 && -MAX_MANTISSA <= qm <= MAX_MANTISSA
                            && #[trigger] exact_quotient_eq(
                            qm,
                            qs,
                            a.spec_mantissa(),
                            a.spec_scale(),
                            scalar as int,
                            0,
                        ) {
                        lemma_div_value_cancel(d.value(), a.value(), scalar as int);
                    }
                }
                Ok(Money { amount: d, currency: self.currency })
            },
            None => {
                proof {
                    assert(false);
                }
                Err(MoneyError::Overflow)
            },
        }
    }

    /// The amount multiplied by a decimal scalar, through the underlying
    /// decimal multiplication.  Exact whenever the product's mantissa fits
    /// in 96 bits at the summed scales; fails with `Overflow` exactly when
    /// the underlying multiplication overflows.
    pub fn mul_decimal(&self, scalar: Decimal) -> (r: Result<Money<'a, T>, MoneyError>)
        ensures
            ({
                let p = decimal_mul(
                    self.spec_amount().spec_mantissa() as i128,
                    self.spec_amount().spec_scale() as u32,
                    scalar.spec_mantissa() as i128,
                    scalar.spec_scale() as u32,
                );
                match r {
                    Ok(m) => p matches Some(pp) && m.spec_amount().spec_mantissa() == pp.0 as int
                        && m.spec_amount().spec_scale() == pp.1 as nat && m.spec_currency()
                        == self.spec_currency(),
                    Err(e) => p is None && e == MoneyError::Overflow,
                }
            }),
            self.spec_amount().mul_is_exact(scalar) ==> (r matches Ok(m) && m.amount_value()
                * pow10(28) == self.amount_value() * scalar.value()),
    {
        match self.amount.checked_mul(&scalar) {
            Some(d) => Ok(Money { amount: d, currency: self.currency }),
            None => Err(MoneyError::Overflow),
        }
    }

    /// The amount divided by a decimal scalar, through the underlying
    /// decimal division.  Fails with `DivisionByZero` exactly when the
    /// scalar is zero (an exact check, not an epsilon comparison), and with
    /// `Overflow` when the quotient leaves the representable range.  The
    /// quotient is exact whenever an exact quotient is representable, and
    /// division succeeds whenever the amount is within the scalar's
    /// magnitude times the mantissa bound.
    pub fn div_decimal(&self, scalar: Decimal) -> (r: Result<Money<'a, T>, MoneyError>)
        ensures
            scalar.value() == 0 ==> r == Err::<Money<'a, T>, MoneyError>(
                MoneyError::DivisionByZero,
            ),
            scalar.value() != 0 ==> ({
                let p = decimal_div(
                    self.spec_amount().spec_mantissa() as i128,
                    self.spec_amount().spec_scale() as u32,
                    scalar.spec_mantissa() as i128,
                    scalar.spec_scale() as u32,
                );
                match r {
                    Ok(m) => p matches Some(pp) && m.spec_amount().spec_mantissa() == pp.0 as int
                        && m.spec_amount().spec_scale() == pp.1 as nat && m.spec_currency()
                        == self.spec_currency(),
                    Err(e) => p is None && e == MoneyError::Overflow,
                }
            }),
            (scalar.value() != 0 && self.spec_amount().div_is_exact(scalar)) ==> (r matches Ok(m)
                && m.amount_value() * scalar.value() == self.amount_value() * pow10(28)),
            (scalar.value() != 0 && -iabs(scalar.value()) * (MAX_MANTISSA - 1)
                <= self.amount_value() <= iabs(scalar.value()) * (MAX_MANTISSA - 1)) ==> r is Ok,
    {
        if scalar.is_zero() {
            return Err(MoneyError::DivisionByZero);
        }
        match self.amount.checked_div(&scalar) {
            Some(d) => Ok(Money { amount: d, currency: self.currency }),
            None => Err(MoneyError::Overflow),
        }
    }

    /// The amount in whole minor units of its currency, truncated toward
    /// zero, saturating to 0 when the result does not fit a 64-bit integer.
    /// A documented lossy convenience, not an error path.
    pub fn to_minor_units(&self) -> (r: i64)
        requires
            self.spec_currency().spec_exponent() <= 28,
        ensures
            ({
                let t = spec_minor_total(
                    self.spec_amount().spec_mantissa(),
                    self.spec_amount().spec_scale(),
                    self.spec_currency().spec_exponent(),
                );
                r == if i64::MIN <= t <= i64::MAX {
                    t
                } else {
                    0
                }
            }),
    {
        proof {
            use_type_invariant(&self.amount);
        }
        let am = self.amount.mantissa();
        let sc = self.amount.scale();
        let e = self.currency.exponent();
        if sc >= e {
            let p = pow10_i128(sc - e);
            let t = trunc_div_i128(am, p);
            if t >= i64::MIN as i128 && t <= i64::MAX as i128 {
                t as i64
            } else {
                0
            }
        } else {
            let p = pow10_i128(e - sc);
            match am.checked_mul(p) {
                Some(t) => {
                    if t >= i64::MIN as i128 && t <= i64::MAX as i128 {
                        t as i64
                    } else {
                        0
                    }
                },
                None => 0,
            }
        }
    }

    /// Divides the amount into one share per weight, in proportion to the
    /// weights, so that the shares sum back to the amount's minor units
    /// exactly.  The amount is first taken in whole minor units, truncated
    /// toward zero — for a negative amount the truncation is toward zero,
    /// not downward, so the remainder carries the amount's sign and the
    /// shares mirror a positive allocation.  Each provisional share is the
    /// truncated proportional part;
    /// the left-over minor units go one each to the earliest shares.  Fails
    /// with `InvalidRatio` when the weights are empty, any is negative, or
    /// all are zero, and with `Overflow` when the amount leaves the 96-bit
    /// range the computation works in.
    pub fn allocate(&self, ratios: Vec<i32>) -> (r: Result<Vec<Money<'a, T>>, MoneyError>)
        requires
            self.spec_currency().spec_exponent() <= 28,
        ensures
            !valid_weights(ratios@) ==> r == Err::<Vec<Money<'a, T>>, MoneyError>(
                MoneyError::InvalidRatio,
            ),
            ({
                let t = spec_minor_total(
                    self.spec_amount().spec_mantissa(),
                    self.spec_amount().spec_scale(),
                    self.spec_currency().spec_exponent(),
                );
                &&& (valid_weights(ratios@) && !allocate_fits(t, ratios@)) ==> r == Err::<
                    Vec<Money<'a, T>>,
                    MoneyError,
                >(MoneyError::Overflow)
                &&& (valid_weights(ratios@) && allocate_fits(t, ratios@)) ==> (r matches Ok(out)
                    && out@.len() == ratios@.len() && (forall|i: int|
                    0 <= i < ratios@.len() ==> {
                        &&& (#[trigger] out@[i]).spec_currency() == self.spec_currency()
                        &&& out@[i].spec_amount().spec_scale()
                            == self.spec_currency().spec_exponent()
                        &&& out@[i].spec_amount().spec_mantissa() == if t >= 0 {
                            spec_share(t, ratios@, sum_weights(ratios@), i)
                        } else {
                            -spec_share(-t, ratios@, sum_weights(ratios@), i)
                        }
                    }))
            }),
    {
        let ghost ws = ratios@;
        let n = ratios.len();
        if n == 0 {
            return Err(MoneyError::InvalidRatio);
        }
        // Validate the weights and take their sum.
        let mut wsum: i128 = 0;
        let mut k: usize = 0;
        while k < n
            invariant
                k <= n,
                n == ws.len(),
                ratios@ == ws,
                forall|i: int| 0 <= i < k ==> ws[i] >= 0,
                wsum == sum_weights(ws.subrange(0, k as int)),
                0 <= wsum <= (k as int) * 2_147_483_647,
            decreases n - k,
        {
            let w = ratios[k];
            if w < 0 {
                return Err(MoneyError::InvalidRatio);
            }
            proof {
                lemma_subrange_push(ws, k as int);
            }
            wsum = wsum + (w as i128);
            k = k + 1;
        }
        proof {
            assert(ws.subrange(0, n as int) =~= ws);
            lemma_sum_weights_bounds(ws);
        }
        if wsum == 0 {
            return Err(MoneyError::InvalidRatio);
        }
        assert(valid_weights(ws));
        // The whole amount in minor units, truncated toward zero.
        proof {
            use_type_invariant(&self.amount);
        }
        let am = self.amount.mantissa();
        let sc = self.amount.scale();
        let e = self.currency.exponent();
        let ghost t_spec = spec_minor_total(
            self.spec_amount().spec_mantissa(),
            self.spec_amount().spec_scale(),
            self.spec_currency().spec_exponent(),
        );
        let t: i128 = if sc >= e {
            let p = pow10_i128(sc - e);
            trunc_div_i128(am, p)
        } else {
            let p = pow10_i128(e - sc);
            match am.checked_mul(p) {
                Some(v) => v,
                None => {
                    proof {
                        assert((am as int) * (p as int) > MAX_MANTISSA || (am as int) * (p as int)
                            < -MAX_MANTISSA) by (nonlinear_arith)
                            requires
                                (am as int) * (p as int) > i128::MAX || (am as int) * (p as int)
                                    < i128::MIN,
                        ;
                    }
                    return Err(MoneyError::Overflow);
                },
            }
        };
        if t > MAX_MANTISSA || t < -MAX_MANTISSA {
            return Err(MoneyError::Overflow);
        }
        let neg = t < 0;
        let tm: i128 = if neg {
            -t
        } else {
            t
        };
        assert(tm == iabs(t_spec));
        // Provisional shares: check the products stay in range and take the
        // sum of the truncated shares.
        let mut acc: i128 = 0;
        let mut k: usize = 0;
        while k < n
            invariant
                k <= n,
                n == ws.len(),
                ratios@ == ws,
                forall|i: int| 0 <= i < ws.len() ==> ws[i] >= 0,
                wsum == sum_weights(ws),
                1 <= wsum,
                0 <= tm <= MAX_MANTISSA,
                valid_weights(ws),
                tm == iabs(t_spec),
                t_spec == spec_minor_total(
                    self.spec_amount().spec_mantissa(),
                    self.spec_amount().spec_scale(),
                    self.spec_currency().spec_exponent(),
                ),
                acc == base_sum(tm as int, ws.subrange(0, k as int), wsum as int),
                0 <= acc <= tm,
                forall|i: int| 0 <= i < k ==> (tm as int) * (ws[i] as int) <= i128::MAX,
            decreases n - k,
        {
            let w = ratios[k];
            let num = match tm.checked_mul(w as i128) {
                Some(v) => v,
                None => {
                    proof {
                        assert((tm as int) * (ws[k as int] as int) > i128::MAX) by (nonlinear_arith)
                            requires
                                tm >= 0,
                                ws[k as int] >= 0,
                                ratios@ == ws,
                                (tm as int) * (ws[k as int] as int) > i128::MAX || (tm as int) * (
                                ws[k as int] as int) < i128::MIN,
                        ;
                        assert(!allocate_fits(t_spec, ws)) by {
                            if allocate_fits(t_spec, ws) {
                                assert(iabs(t_spec) * ws[k as int] <= i128::MAX);
                                assert(false);
                            }
                        }
                    }
                    return Err(MoneyError::Overflow);
                },
            };
            proof {
                lemma_subrange_push(ws, k as int);
                lemma_sum_weights_bounds(ws);
                lemma_share_step(tm as int, ws[k as int] as int, wsum as int);
                lemma_sum_weights_prefix_mono(ws, k as int + 1);
                lemma_base_sum_prefix(tm as int, ws, wsum as int, k as int + 1);
            }
            let q = match num.checked_div(wsum) {
                Some(v) => v,
                None => {
                    proof {
                        assert(false);
                    }
                    0
                },
            };
            proof {
                assert(q == base_share(tm as int, ws[k as int] as int, wsum as int));
            }
            acc = acc + q;
            k = k + 1;
        }
        proof {
            assert(ws.subrange(0, n as int) =~= ws);
        }
        let rem128: i128 = tm - acc;
        proof {
            lemma_rem_bounds(tm as int, ws, wsum as int);
        }
        let rem: usize = rem128 as usize;
        // Build the shares: the provisional share of each weight, plus one
        // left-over unit for the earliest `rem` shares, with the sign of the
        // amount restored.
        let mut out: Vec<Money<'a, T>> = Vec::new();
        let mut k: usize = 0;
        while k < n
            invariant
                k <= n,
                n == ws.len(),
                ratios@ == ws,
                forall|i: int| 0 <= i < ws.len() ==> ws[i] >= 0,
                wsum == sum_weights(ws),
                1 <= wsum,
                0 <= tm <= MAX_MANTISSA,
                valid_weights(ws),
                tm == iabs(t_spec),
                neg == (t_spec < 0),
                t_spec == spec_minor_total(
                    self.spec_amount().spec_mantissa(),
                    self.spec_amount().spec_scale(),
                    self.spec_currency().spec_exponent(),
                ),
                acc == base_sum(tm as int, ws, wsum as int),
                0 <= acc <= tm,
                rem as int == tm - acc,
                rem as int <= n as int,
                forall|i: int| 0 <= i < ws.len() ==> (tm as int) * (ws[i] as int) <= i128::MAX,
                self.spec_currency().spec_exponent() <= 28,
                e as nat == self.spec_currency().spec_exponent(),
                out@.len() == k,
                forall|i: int|
                    0 <= i < k ==> {
                        &&& (#[trigger] out@[i]).spec_currency() == self.spec_currency()
                        &&& out@[i].spec_amount().spec_scale()
                            == self.spec_currency().spec_exponent()
                        &&& out@[i].spec_amount().spec_mantissa() == if neg {
                            -spec_share(tm as int, ws, wsum as int, i)
                        } else {
                            spec_share(tm as int, ws, wsum as int, i)
                        }
                    },
            decreases n - k,
        {
            let w = ratios[k];
            let num = match tm.checked_mul(w as i128) {
                Some(v) => v,
                None => {
                    proof {
                        assert(false) by {
                            assert((tm as int) * (ws[k as int] as int) <= i128::MAX);
                            assert((tm as int) * (ws[k as int] as int) >= 0) by (nonlinear_arith)
                                requires
                                    tm >= 0,
                                    ws[k as int] >= 0,
                                    ratios@ == ws,
                            ;
                        }
                    }
                    return Err(MoneyError::Overflow);
                },
            };
            proof {
                lemma_sum_weights_bounds(ws);
                lemma_share_step(tm as int, ws[k as int] as int, wsum as int);
                lemma_base_sum_ge_component(tm as int, ws, wsum as int, k as int);
            }
            let q = match num.checked_div(wsum) {
                Some(v) => v,
                None => {
                    proof {
                        assert(false);
                    }
                    0
                },
            };
            proof {
                assert(q == base_share(tm as int, ws[k as int] as int, wsum as int));
                assert(q <= base_sum(tm as int, ws, wsum as int));
            }
            let extra: i128 = if k < rem {
                1
            } else {
                0
            };
            let mag = q + extra;
            let m_i: i128 = if neg {
                -mag
            } else {
                mag
            };
            let d = Decimal::from_i128_with_scale(m_i, e);
            out.push(Money { amount: d, currency: self.currency });
            k = k + 1;
        }
        Ok(out)
    }

    /// Divides the amount equally into `number` shares, the remainder going
    /// one minor unit at a time to the earliest shares.  Fails with
    /// `InvalidRatio` when `number` is not positive.
    pub fn allocate_to(&self, number: i32) -> (r: Result<Vec<Money<'a, T>>, MoneyError>)
        requires
            self.spec_currency().spec_exponent() <= 28,
        ensures
            number <= 0 ==> r == Err::<Vec<Money<'a, T>>, MoneyError>(MoneyError::InvalidRatio),
            ({
                let ws = Seq::new(if number >= 0 {
                    number as nat
                } else {
                    0
                }, |i: int| 1i32);
                let t = spec_minor_total(
                    self.spec_amount().spec_mantissa(),
                    self.spec_amount().spec_scale(),
                    self.spec_currency().spec_exponent(),
                );
                &&& (number > 0 && !allocate_fits(t, ws)) ==> r == Err::<
                    Vec<Money<'a, T>>,
                    MoneyError,
                >(MoneyError::Overflow)
                &&& (number > 0 && allocate_fits(t, ws)) ==> (r matches Ok(out) && out@.len()
                    == number as int && (forall|i: int|
                    0 <= i < number as int ==> {
                        &&& (#[trigger] out@[i]).spec_currency() == self.spec_currency()
                        &&& out@[i].spec_amount().spec_scale()
                            == self.spec_currency().spec_exponent()
                        &&& out@[i].spec_amount().spec_mantissa() == if t >= 0 {
                            spec_share(t, ws, sum_weights(ws), i)
                        } else {
                            -spec_share(-t, ws, sum_weights(ws), i)
                        }
                    }))
            }),
    {
        let ghost ones = Seq::new(if number >= 0 {
            number as nat
        } else {
            0
        }, |i: int| 1i32);
        if number <= 0 {
            let empty: Vec<i32> = Vec::new();
            proof {
                if number == 0 {
                    assert(!valid_weights(ones));
                }
                assert(empty@ =~= Seq::<i32>::empty());
                assert(!valid_weights(empty@));
            }
            return self.allocate(empty);
        }
        let mut ratios: Vec<i32> = Vec::new();
        let mut k: i32 = 0;
        while k < number
            invariant
                0 <= k <= number,
                ratios@.len() == k as int,
                forall|i: int| 0 <= i < k as int ==> ratios@[i] == 1i32,
            decreases number - k,
        {
            ratios.push(1);
            k = k + 1;
        }
        proof {
            assert(ratios@ =~= ones);
            assert(ones[0] == 1i32);
            assert(valid_weights(ones));
        }
        self.allocate(ratios)
    }

    /// Divides the amount equally into `n` shares: shorthand for `allocate`
    /// with `n` weights of one.
    pub fn split(&self, n: i32) -> (r: Result<Vec<Money<'a, T>>, MoneyError>)
        requires
            self.spec_currency().spec_exponent() <= 28,
        ensures
            n <= 0 ==> r == Err::<Vec<Money<'a, T>>, MoneyError>(MoneyError::InvalidRatio),
            ({
                let ws = Seq::new(if n >= 0 {
                    n as nat
                } else {
                    0
                }, |i: int| 1i32);
                let t = spec_minor_total(
                    self.spec_amount().spec_mantissa(),
                    self.spec_amount().spec_scale(),
                    self.spec_currency().spec_exponent(),
                );
                &&& (n > 0 && !allocate_fits(t, ws)) ==> r == Err::<
                    Vec<Money<'a, T>>,
                    MoneyError,
                >(MoneyError::Overflow)
                &&& (n > 0 && allocate_fits(t, ws)) ==> (r matches Ok(out) && out@.len()
                    == n as int && (forall|i: int|
                    0 <= i < n as int ==> {
                        &&& (#[trigger] out@[i]).spec_currency() == self.spec_currency()
                        &&& out@[i].spec_amount().spec_scale()
                            == self.spec_currency().spec_exponent()
                        &&& out@[i].spec_amount().spec_mantissa() == if t >= 0 {
                            spec_share(t, ws, sum_weights(ws), i)
                        } else {
                            -spec_share(-t, ws, sum_weights(ws), i)
                        }
                    }))
            }),
    {
        self.allocate_to(n)
    }

    /// Parses a locale-formatted amount string into a Money of the given
    /// currency.  The string may group its integer digits with the locale's
    /// digit separator — the groups must then agree with the locale's
    /// grouping pattern — and may carry one fractional part after the
    /// locale's fractional separator; with none, the amount gets the
    /// currency's exponent as its scale.  Fails with `InvalidAmount` on any
    /// malformed input, including an empty string.
    pub fn from_string(amount: String, currency: &'a T) -> (r: Result<Money<'a, T>, MoneyError>)
        requires
            currency.spec_exponent() <= 28,
        ensures
            ({
                let dsep = crate::locale::spec_digit_separator(currency.spec_locale());
                let esep = crate::locale::spec_exponent_separator(currency.spec_locale());
                let pattern = crate::locale::spec_separator_pattern(currency.spec_locale());
                let e = currency.spec_exponent();
                let valid = amount_valid(amount@, dsep, esep, pattern, e);
                match r {
                    Ok(m) => valid && m.spec_currency() == *currency
                        && m.spec_amount().spec_scale() == parse_scale(amount@, esep, e)
                        && m.spec_amount().spec_mantissa() == (if sign_negative(
                        concat_groups(split_on(split_on(amount@, esep)[0], dsep)),
                    ) {
                        -parse_magnitude(amount@, dsep, esep, e)
                    } else {
                        parse_magnitude(amount@, dsep, esep, e)
                    }),
                    Err(err) => err == MoneyError::InvalidAmount && !valid,
                }
            }),
    {
        let fmt = crate::locale::LocalFormat::from_locale(currency.locale());
        let ghost dsep = crate::locale::spec_digit_separator(currency.spec_locale());
        let ghost esep = crate::locale::spec_exponent_separator(currency.spec_locale());
        let ghost pattern = crate::locale::spec_separator_pattern(currency.spec_locale());
        let ghost e = currency.spec_exponent();
        let parts = split_string(amount.as_str(), fmt.exponent_separator);
        proof {
            lemma_split_on_len(amount@, esep);
        }
        if parts.len() > 2 {
            return Err(MoneyError::InvalidAmount);
        }
        let groups = split_string(parts[0].as_str(), fmt.digit_separator);
        let intdigits = concat_strings(&groups);
        proof {
            assert(groups@.map_values(|x: String| x@) =~~= split_on(
                split_on(amount@, esep)[0],
                dsep,
            ));
        }
        let ghost body_spec = signed_body(concat_groups(split_on(split_on(amount@, esep)[0], dsep)));
        let n0 = intdigits.as_str().unicode_len();
        let (neg, body): (bool, String) = if n0 == 0 {
            (false, intdigits)
        } else {
            let c0 = intdigits.as_str().get_char(0);
            if c0 == '-' || c0 == '+' {
                proof {
                    assert(intdigits@.subrange(1, intdigits@.len() as int) =~= intdigits@.drop_first());
                }
                (c0 == '-', intdigits.as_str().substring_char(1, n0).to_owned())
            } else {
                (false, intdigits)
            }
        };
        if body.as_str().unicode_len() == 0 {
            return Err(MoneyError::InvalidAmount);
        }
        proof {
            assert(body@ == body_spec);
        }
        let int_mag: u128 = match parse_digits(body.as_str()) {
            Some(v) => v,
            None => {
                proof {
                    assert(!amount_valid(amount@, dsep, esep, pattern, e)) by {
                        if amount_valid(amount@, dsep, esep, pattern, e) {
                            lemma_magnitude_bounds(amount@, dsep, esep, pattern, e);
                        }
                    }
                }
                return Err(MoneyError::InvalidAmount);
            },
        };
        if !check_grouping(&groups, &fmt.digit_separator_pattern()) {
            return Err(MoneyError::InvalidAmount);
        }
        let (scale, frac_val): (u32, u128) = if parts.len() == 2 {
            let flen = parts[1].as_str().unicode_len();
            if flen == 0 {
                return Err(MoneyError::InvalidAmount);
            }
            if flen > 28 {
                return Err(MoneyError::InvalidAmount);
            }
            let fv: u128 = match parse_digits(parts[1].as_str()) {
                Some(v) => v,
                None => {
                    proof {
                        assert(!amount_valid(amount@, dsep, esep, pattern, e)) by {
                            if amount_valid(amount@, dsep, esep, pattern, e) {
                                lemma_magnitude_bounds(amount@, dsep, esep, pattern, e);
                            }
                        }
                    }
                    return Err(MoneyError::InvalidAmount);
                },
            };
            (flen as u32, fv)
        } else {
            (currency.exponent(), 0)
        };
        let p: u128 = pow10_i128(scale) as u128;
        proof {
            lemma_pow10_pos(scale as nat);
            lemma_digits_val_nonneg(body_spec);
            if parts@.len() == 2 {
                if all_digit_seq(split_on(amount@, esep)[1]) {
                    lemma_digits_val_nonneg(split_on(amount@, esep)[1]);
                }
            }
        }
        let mag: u128 = match int_mag.checked_mul(p) {
            Some(v) => v,
            None => {
                proof {
                    assert((int_mag as int) * (p as int) > MAX_MANTISSA) by (nonlinear_arith)
                        requires
                            (int_mag as int) * (p as int) > u128::MAX,
                            u128::MAX > MAX_MANTISSA,
                    ;
                    assert(!amount_valid(amount@, dsep, esep, pattern, e)) by {
                        if amount_valid(amount@, dsep, esep, pattern, e) {
                            lemma_magnitude_bounds(amount@, dsep, esep, pattern, e);
                        }
                    }
                }
                return Err(MoneyError::InvalidAmount);
            },
        };
        let mag2: u128 = match mag.checked_add(frac_val) {
            Some(v) => v,
            None => {
                proof {
                    assert(!amount_valid(amount@, dsep, esep, pattern, e)) by {
                        if amount_valid(amount@, dsep, esep, pattern, e) {
                            lemma_magnitude_bounds(amount@, dsep, esep, pattern, e);
                        }
                    }
                }
                return Err(MoneyError::InvalidAmount);
            },
        };
        if mag2 > MAX_MANTISSA as u128 {
            proof {
                assert(!amount_valid(amount@, dsep, esep, pattern, e)) by {
                    if amount_valid(amount@, dsep, esep, pattern, e) {
                        lemma_magnitude_bounds(amount@, dsep, esep, pattern, e);
                    }
                }
            }
            return Err(MoneyError::InvalidAmount);
        }
        let m_i: i128 = if neg {
            -(mag2 as i128)
        } else {
            mag2 as i128
        };
        let d = Decimal::from_i128_with_scale(m_i, scale);
        Ok(Money { amount: d, currency })
    }

    /// The display string of the amount: rounded half-even to the
    /// currency's exponent, digits grouped by the currency's locale, the
    /// sign first (only for a strictly negative amount) and the symbol
    /// placed before or after the amount as the currency directs.
    pub fn to_string(&self) -> (r: String)
        requires
            self.spec_currency().spec_exponent() <= 28,
        ensures
            r@ == crate::format::spec_money_display(
                self.spec_amount().spec_mantissa(),
                self.spec_amount().spec_scale(),
                self.spec_currency().spec_exponent() as u32,
                self.spec_currency().spec_locale(),
                self.spec_currency().spec_symbol(),
                self.spec_currency().spec_code(),
                self.spec_currency().spec_symbol_first(),
            ),
    {
        proof {
            use_type_invariant(&self.amount);
            lemma_pow10_pos((28 - self.spec_amount().spec_scale()) as nat);
            let p = pow10((28 - self.spec_amount().spec_scale()) as nat);
            assert(self.spec_amount().spec_mantissa() * p < 0 <==> self.spec_amount(
            ).spec_mantissa() < 0) by (nonlinear_arith)
                requires
                    p >= 1,
            ;
        }
        let fmt = crate::locale::LocalFormat::from_locale(self.currency.locale());
        let mut positions: Vec<crate::format::Position> = Vec::new();
        if self.currency.symbol_first() {
            positions.push(crate::format::Position::Sign);
            positions.push(crate::format::Position::Symbol);
            positions.push(crate::format::Position::Amount);
            proof {
                assert(positions@ =~= seq![
                    crate::format::Position::Sign,
                    crate::format::Position::Symbol,
                    crate::format::Position::Amount,
                ]);
            }
        } else {
            positions.push(crate::format::Position::Sign);
            positions.push(crate::format::Position::Amount);
            positions.push(crate::format::Position::Symbol);
            proof {
                assert(positions@ =~= seq![
                    crate::format::Position::Sign,
                    crate::format::Position::Amount,
                    crate::format::Position::Symbol,
                ]);
            }
        }
        let params = crate::format::Params {
            digit_separator: fmt.digit_separator,
            exponent_separator: fmt.exponent_separator,
            separator_pattern: fmt.digit_separator_pattern(),
            positions,
            rounding: Some(self.currency.exponent()),
            symbol: Some(self.currency.symbol()),
            code: Some(self.currency.code()),
        };
        crate::format::Formatter::money(self, params)
    }

    /// The amount rounded to `digits` fractional places with the given
    /// midpoint strategy.  Rounding an amount that already has no more than
    /// `digits` fractional places returns it unchanged, so rounding is
    /// idempotent.
    pub fn round(&self, digits: u32, strategy: Round) -> (r: Money<'a, T>)
        ensures
            r.spec_currency() == self.spec_currency(),
            r.spec_amount().spec_mantissa() == rounded_mantissa(
                self.spec_amount().spec_mantissa(),
                self.spec_amount().spec_scale(),
                digits as nat,
                strategy,
            ),
            r.spec_amount().spec_scale() == rounded_scale(
                self.spec_amount().spec_scale(),
                digits as nat,
            ),
    {
        Money {
            amount: self.amount.round_dp_with_strategy(digits, strategy),
            currency: self.currency,
        }
    }
}

/// Whether a character is an ASCII digit.
pub open spec fn is_digit_char(ch: char) -> bool {
    48 <= ch as u32 <= 57
}

/// Whether every character of `s` is an ASCII digit.
pub open spec fn all_digit_seq(s: Seq<char>) -> bool {
    forall|j: int| 0 <= j < s.len() ==> is_digit_char(#[trigger] s[j])
}

/// The number the digit characters of `s` denote, most significant first.
pub open spec fn digits_val(s: Seq<char>) -> int
    decreases s.len(),
{
    if s.len() == 0 {
        0
    } else {
        digits_val(s.drop_last()) * 10 + (s.last() as u32 - 48)
    }
}

/// `s` split on every occurrence of `c`; always at least one part.
pub open spec fn split_on(s: Seq<char>, c: char) -> Seq<Seq<char>>
    decreases s.len(),
{
    if s.len() == 0 {
        seq![Seq::<char>::empty()]
    } else if s[0] == c {
        seq![Seq::<char>::empty()] + split_on(s.drop_first(), c)
    } else {
        let r = split_on(s.drop_first(), c);
        seq![seq![s[0]] + r[0]] + r.drop_first()
    }
}

/// The concatenation of all the parts.
pub open spec fn concat_groups(gs: Seq<Seq<char>>) -> Seq<char>
    decreases gs.len(),
{
    if gs.len() == 0 {
        Seq::<char>::empty()
    } else {
        concat_groups(gs.drop_last()) + gs.last()
    }
}

/// The digit part of an optionally signed number.
pub open spec fn signed_body(s: Seq<char>) -> Seq<char> {
    if s.len() > 0 && (s[0] == '-' || s[0] == '+') {
        s.drop_first()
    } else {
        s
    }
}

/// Whether the optionally signed number is negative.
pub open spec fn sign_negative(s: Seq<char>) -> bool {
    s.len() > 0 && s[0] == '-'
}

/// Whether the digit groups agree with the locale's grouping pattern,
/// checked from the least significant group outward; the leading group is
/// not checked, and a lone group always passes.
pub open spec fn grouping_ok(gs: Seq<Seq<char>>, pattern: Seq<usize>, k: int) -> bool
    decreases pattern.len() - k,
{
    if k < 0 || k >= pattern.len() || gs.len() <= 1 {
        true
    } else {
        gs.last().len() == pattern[k] && grouping_ok(gs.drop_last(), pattern, k + 1)
    }
}

/// The scale a parsed amount carries: the length of its fractional part,
/// or the currency's exponent when none was written.
pub open spec fn parse_scale(s: Seq<char>, esep: char, exponent: nat) -> nat {
    let parts = split_on(s, esep);
    if parts.len() == 2 {
        parts[1].len()
    } else {
        exponent
    }
}

/// The magnitude of a parsed amount, in units of its parsed scale.
pub open spec fn parse_magnitude(
    s: Seq<char>,
    dsep: char,
    esep: char,
    exponent: nat,
) -> int {
    let parts = split_on(s, esep);
    let body = signed_body(concat_groups(split_on(parts[0], dsep)));
    let frac = if parts.len() == 2 {
        parts[1]
    } else {
        Seq::<char>::empty()
    };
    digits_val(body) * pow10(parse_scale(s, esep, exponent)) + digits_val(frac)
}

/// Whether `s` is a well-formed amount string under the locale: at most one
/// fractional separator, a non-empty optionally signed run of digits whose
/// groups agree with the grouping pattern, digits only in the fraction, and
/// a value the decimal range can hold.
pub open spec fn amount_valid(
    s: Seq<char>,
    dsep: char,
    esep: char,
    pattern: Seq<usize>,
    exponent: nat,
) -> bool {
    let parts = split_on(s, esep);
    let groups = split_on(parts[0], dsep);
    let body = signed_body(concat_groups(groups));
    &&& parts.len() <= 2
    &&& body.len() > 0
    &&& all_digit_seq(body)
    &&& grouping_ok(groups, pattern, 0)
    &&& (parts.len() == 2 ==> parts[1].len() > 0 && all_digit_seq(parts[1]))
    &&& parse_scale(s, esep, exponent) <= 28
    &&& parse_magnitude(s, dsep, esep, exponent) <= MAX_MANTISSA
}

/// A split always yields at least one part.
proof fn lemma_split_on_len(s: Seq<char>, c: char)
    ensures
        split_on(s, c).len() >= 1,
    decreases s.len(),
{
    if s.len() > 0 {
        lemma_split_on_len(s.drop_first(), c);
    }
}

/// Splits a string on every occurrence of a character.
fn split_string(s: &str, c: char) -> (r: Vec<String>)
    ensures
        r@.len() == split_on(s@, c).len(),
        forall|i: int| 0 <= i < r@.len() ==> (#[trigger] r@[i])@ == split_on(s@, c)[i],
    decreases s@.len(),
{
    let n = s.unicode_len();
    if n == 0 {
        let mut v: Vec<String> = Vec::new();
        v.push(String::new());
        v
    } else {
        let ch = s.get_char(0);
        proof {
            assert(s@.subrange(1, s@.len() as int) =~= s@.drop_first());
            lemma_split_on_len(s@.drop_first(), c);
        }
        let rest = split_string(s.substring_char(1, n), c);
        if ch == c {
            let mut out: Vec<String> = Vec::new();
            out.push(String::new());
            let mut i: usize = 0;
            while i < rest.len()
                invariant
                    i <= rest@.len(),
                    out@.len() == 1 + i,
                    out@[0]@ == Seq::<char>::empty(),
                    forall|j: int| 1 <= j < out@.len() ==> (#[trigger] out@[j])@ == rest@[j - 1]@,
                decreases rest@.len() - i,
            {
                out.push(rest[i].clone());
                i = i + 1;
            }
            out
        } else {
            let mut first = String::new();
            crate::format::push_char(&mut first, ch);
            first.append(rest[0].as_str());
            let mut out: Vec<String> = Vec::new();
            proof {
                assert(first@ =~= seq![s@[0]] + split_on(s@.drop_first(), c)[0]);
            }
            out.push(first);
            let mut i: usize = 1;
            while i < rest.len()
                invariant
                    1 <= i <= rest@.len(),
                    out@.len() == i,
                    out@[0]@ == seq![s@[0]] + split_on(s@.drop_first(), c)[0],
                    s@.len() > 0,
                    rest@.len() == split_on(s@.drop_first(), c).len(),
                    forall|j: int|
                        0 <= j < rest@.len() ==> (#[trigger] rest@[j])@ == split_on(
                            s@.drop_first(),
                            c,
                        )[j],
                    forall|j: int| 1 <= j < out@.len() ==> (#[trigger] out@[j])@ == rest@[j]@,
                decreases rest@.len() - i,
            {
                out.push(rest[i].clone());
                i = i + 1;
            }
            out
        }
    }
}

/// Concatenates all parts of a split.
fn concat_strings(v: &Vec<String>) -> (r: String)
    ensures
        r@ == concat_groups(v@.map_values(|x: String| x@)),
{
    let ghost gs = v@.map_values(|x: String| x@);
    let mut out = String::new();
    let mut i: usize = 0;
    proof {
        assert(gs.subrange(0, 0) =~= Seq::<Seq<char>>::empty());
    }
    while i < v.len()
        invariant
            i <= v@.len(),
            gs == v@.map_values(|x: String| x@),
            out@ == concat_groups(gs.subrange(0, i as int)),
        decreases v@.len() - i,
    {
        proof {
            assert(gs.subrange(0, i as int + 1).drop_last() =~= gs.subrange(0, i as int));
            assert(gs.subrange(0, i as int + 1).last() == gs[i as int]);
        }
        out.append(v[i].as_str());
        i = i + 1;
    }
    proof {
        assert(gs.subrange(0, v@.len() as int) =~= gs);
    }
    out
}

/// Reads a run of decimal digits as a number, refusing any other character
/// and any value beyond the 96-bit mantissa range.
fn parse_digits(s: &str) -> (r: Option<u128>)
    ensures
        match r {
            Some(v) => all_digit_seq(s@) && v as int == digits_val(s@) && v
                <= MAX_MANTISSA as u128,
            None => !all_digit_seq(s@) || digits_val(s@) > MAX_MANTISSA,
        },
{
    let n = s.unicode_len();
    let mut acc: u128 = 0;
    let mut i: usize = 0;
    proof {
        assert(s@.subrange(0, 0) =~= Seq::<char>::empty());
    }
    while i < n
        invariant
            i <= n,
            n == s@.len(),
            acc as int == digits_val(s@.subrange(0, i as int)),
            acc <= MAX_MANTISSA as u128,
            all_digit_seq(s@.subrange(0, i as int)),
        decreases n - i,
    {
        let c = s.get_char(i);
        let u = c as u32;
        if !(48 <= u && u <= 57) {
            return None;
        }
        proof {
            assert(s@.subrange(0, i as int + 1).drop_last() =~= s@.subrange(0, i as int));
            assert(s@.subrange(0, i as int + 1).last() == s@[i as int]);
        }
        acc = acc * 10 + ((u - 48) as u128);
        i = i + 1;
        if acc > MAX_MANTISSA as u128 {
            proof {
                if all_digit_seq(s@) {
                    lemma_digits_val_mono(s@, i as int);
                }
            }
            return None;
        }
    }
    proof {
        assert(s@.subrange(0, n as int) =~= s@);
    }
    Some(acc)
}

/// Checks the digit groups against the locale's grouping pattern, from the
/// least significant group outward.
fn check_grouping(groups: &Vec<String>, pattern: &Vec<usize>) -> (r: bool)
    ensures
        r == grouping_ok(groups@.map_values(|x: String| x@), pattern@, 0),
{
    let ghost gs = groups@.map_values(|x: String| x@);
    let mut glen: usize = groups.len();
    let mut k: usize = 0;
    let plen = pattern.len();
    proof {
        assert(gs.subrange(0, glen as int) =~= gs);
    }
    while k < plen && glen > 1
        invariant
            k <= plen,
            plen == pattern@.len(),
            glen <= gs.len(),
            gs == groups@.map_values(|x: String| x@),
            grouping_ok(gs.subrange(0, glen as int), pattern@, k as int) == grouping_ok(
                gs,
                pattern@,
                0,
            ),
        decreases plen - k,
    {
        glen = glen - 1;
        proof {
            assert(gs.subrange(0, glen as int + 1).drop_last() =~= gs.subrange(0, glen as int));
            assert(gs.subrange(0, glen as int + 1).last() == gs[glen as int]);
        }
        let group_len = groups[glen].as_str().unicode_len();
        if group_len != pattern[k] {
            return false;
        }
        k = k + 1;
    }
    true
}

/// The digit values of an all-digit run are non-negative.
proof fn lemma_digits_val_nonneg(s: Seq<char>)
    requires
        all_digit_seq(s),
    ensures
        digits_val(s) >= 0,
    decreases s.len(),
{
    if s.len() > 0 {
        let pre = s.drop_last();
        assert(forall|j: int| 0 <= j < pre.len() ==> pre[j] == s[j]);
        lemma_digits_val_nonneg(pre);
    }
}

/// Reading further digits never shrinks the value.
proof fn lemma_digits_val_mono(s: Seq<char>, k: int)
    requires
        all_digit_seq(s),
        0 <= k <= s.len(),
    ensures
        digits_val(s) >= digits_val(s.subrange(0, k)),
        digits_val(s.subrange(0, k)) >= 0,
    decreases s.len() - k,
{
    let pre = s.subrange(0, k);
    assert(forall|j: int| 0 <= j < pre.len() ==> pre[j] == s[j]);
    lemma_digits_val_nonneg(pre);
    if k == s.len() {
        assert(s.subrange(0, k) =~= s);
    } else {
        lemma_digits_val_mono(s, k + 1);
        assert(s.subrange(0, k + 1).drop_last() =~= s.subrange(0, k));
        assert(s.subrange(0, k + 1).last() == s[k]);
    }
}

/// Bounds a well-formed amount's magnitude gives: it dominates both its
/// integer digits' value and its fractional digits' value, and both are
/// non-negative.
proof fn lemma_magnitude_bounds(s: Seq<char>, dsep: char, esep: char, pattern: Seq<usize>, e: nat)
    requires
        amount_valid(s, dsep, esep, pattern, e),
    ensures
        ({
            let body = signed_body(concat_groups(split_on(split_on(s, esep)[0], dsep)));
            let fv = if split_on(s, esep).len() == 2 {
                digits_val(split_on(s, esep)[1])
            } else {
                0int
            };
            &&& digits_val(body) >= 0
            &&& fv >= 0
            &&& parse_magnitude(s, dsep, esep, e) >= digits_val(body) * pow10(
                parse_scale(s, esep, e),
            )
            &&& parse_magnitude(s, dsep, esep, e) >= digits_val(body)
            &&& parse_magnitude(s, dsep, esep, e) >= fv
        }),
{
    let body = signed_body(concat_groups(split_on(split_on(s, esep)[0], dsep)));
    let parts = split_on(s, esep);
    let fv: int = if parts.len() == 2 {
        digits_val(parts[1])
    } else {
        0
    };
    let sc = parse_scale(s, esep, e);
    lemma_digits_val_nonneg(body);
    if parts.len() == 2 {
        lemma_digits_val_nonneg(parts[1]);
    }
    lemma_pow10_pos(sc);
    assert(digits_val(body) * pow10(sc) >= digits_val(body)) by (nonlinear_arith)
        requires
            digits_val(body) >= 0,
            pow10(sc) >= 1,
    ;
    assert(digits_val(body) * pow10(sc) >= 0) by (nonlinear_arith)
        requires
            digits_val(body) >= 0,
            pow10(sc) >= 1,
    ;
}

/// Grouping inserts nothing into a digit run that already fits before the
/// first remaining group boundary.
proof fn lemma_grouped_identity(s: Seq<char>, sep: char, pattern: Seq<usize>, k: int, cur: int)
    requires
        0 <= k,
        k < pattern.len() ==> s.len() <= cur + pattern[k],
    ensures
        crate::format::spec_grouped(s, sep, pattern, k, cur) == s,
    decreases pattern.len() - k,
{
    if k < pattern.len() {
        lemma_grouped_identity(s, sep, pattern, k + 1, cur + pattern[k]);
    }
}

/// The zero-padded fractional digits are all digits and exactly `w` long.
proof fn lemma_padded_shape(n: nat, w: nat)
    ensures
        crate::format::spec_padded(n, w).len() == w,
        all_digit_seq(crate::format::spec_padded(n, w)),
    decreases w,
{
    if w > 0 {
        lemma_padded_shape(n / 10, (w - 1) as nat);
        let s = crate::format::spec_padded(n, w);
        let pre = crate::format::spec_padded(n / 10, (w - 1) as nat);
        assert(forall|j: int| 0 <= j < pre.len() ==> s[j] == pre[j]);
        assert(48 <= crate::format::spec_digit((n % 10) as int) as u32 <= 57);
    }
}

/// The rendered integer digits are all digits and non-empty.
proof fn lemma_digits_shape(n: nat)
    ensures
        crate::format::spec_digits(n).len() >= 1,
        all_digit_seq(crate::format::spec_digits(n)),
    decreases n,
{
    if n < 10 {
        assert(48 <= crate::format::spec_digit(n as int) as u32 <= 57);
    } else {
        lemma_digits_shape(n / 10);
        let s = crate::format::spec_digits(n);
        let pre = crate::format::spec_digits(n / 10);
        assert(forall|j: int| 0 <= j < pre.len() ==> s[j] == pre[j]);
        assert(48 <= crate::format::spec_digit((n % 10) as int) as u32 <= 57);
    }
}

/// Splitting a run that holds no separator yields the run alone.
proof fn lemma_split_no_sep(d: Seq<char>, c: char)
    requires
        forall|j: int| 0 <= j < d.len() ==> (#[trigger] d[j]) != c,
    ensures
        split_on(d, c) == seq![d],
    decreases d.len(),
{
    if d.len() == 0 {
        assert(split_on(d, c) =~~= seq![d]);
    } else {
        let rest = d.drop_first();
        assert(forall|j: int| 0 <= j < rest.len() ==> (#[trigger] rest[j]) != c);
        lemma_split_no_sep(rest, c);
        assert(seq![d[0]] + rest =~= d);
        assert(split_on(d, c) =~~= seq![d]);
    }
}

/// Splitting around one separator cuts exactly there when the prefix holds
/// no separator.
proof fn lemma_split_concat(a: Seq<char>, b: Seq<char>, c: char)
    requires
        forall|j: int| 0 <= j < a.len() ==> (#[trigger] a[j]) != c,
    ensures
        split_on(a + seq![c] + b, c) == seq![a] + split_on(b, c),
    decreases a.len(),
{
    let s = a + seq![c] + b;
    if a.len() == 0 {
        assert(s[0] == c);
        assert(s.drop_first() =~= b);
        assert(split_on(s, c) =~~= seq![a] + split_on(b, c));
    } else {
        let a2 = a.drop_first();
        assert(forall|j: int| 0 <= j < a2.len() ==> (#[trigger] a2[j]) != c);
        lemma_split_concat(a2, b, c);
        assert(s[0] == a[0]);
        assert(s.drop_first() =~= a2 + seq![c] + b);
        let r = split_on(s.drop_first(), c);
        assert(r == seq![a2] + split_on(b, c));
        assert(r[0] == a2);
        assert(seq![s[0]] + r[0] =~= a);
        assert(r.drop_first() =~= split_on(b, c));
        assert(split_on(s, c) =~~= seq![a] + split_on(b, c));
    }
}

/// The renderer's dot splits its output exactly into integer and
/// fractional digits when the integer run holds no dot.
proof fn lemma_intfrac_concat(a: Seq<char>, b: Seq<char>)
    requires
        forall|j: int| 0 <= j < a.len() ==> (#[trigger] a[j]) != '.',
    ensures
        crate::format::int_chars(a + seq!['.'] + b) == a,
        crate::format::frac_chars(a + seq!['.'] + b) == Some(b),
    decreases a.len(),
{
    let s = a + seq!['.'] + b;
    if a.len() == 0 {
        assert(s[0] == '.');
        assert(s.drop_first() =~= b);
    } else {
        let a2 = a.drop_first();
        assert(forall|j: int| 0 <= j < a2.len() ==> (#[trigger] a2[j]) != '.');
        lemma_intfrac_concat(a2, b);
        assert(s[0] == a[0]);
        assert(s.drop_first() =~= a2 + seq!['.'] + b);
        assert(seq![s[0]] + crate::format::int_chars(a2 + seq!['.'] + b) =~= a);
    }
}

/// A dot-free run is all integer digits with no fraction.
proof fn lemma_intfrac_none(a: Seq<char>)
    requires
        forall|j: int| 0 <= j < a.len() ==> (#[trigger] a[j]) != '.',
    ensures
        crate::format::int_chars(a) == a,
        crate::format::frac_chars(a) is None,
    decreases a.len(),
{
    if a.len() > 0 {
        let a2 = a.drop_first();
        assert(forall|j: int| 0 <= j < a2.len() ==> (#[trigger] a2[j]) != '.');
        lemma_intfrac_none(a2);
        assert(seq![a[0]] + a2 =~= a);
    }
}

/// Stripping minus signs from a run without any leaves it unchanged.
proof fn lemma_strip_identity(a: Seq<char>)
    requires
        forall|j: int| 0 <= j < a.len() ==> (#[trigger] a[j]) != '-',
    ensures
        crate::format::strip_minus_chars(a) == a,
    decreases a.len(),
{
    if a.len() > 0 {
        let a2 = a.drop_first();
        assert(forall|j: int| 0 <= j < a2.len() ==> (#[trigger] a2[j]) != '-');
        lemma_strip_identity(a2);
        assert(seq![a[0]] + a2 =~= a);
    }
}

/// Locale round trip: a non-negative amount carried at the currency's
/// exponent, with integer digits that fit the locale's first digit group,
/// parses back from its formatted amount text to exactly itself — so
/// formatting what was parsed reproduces the text.  The separators must not
/// be digits, as in every locale.
pub proof fn lemma_locale_round_trip(
    m: int,
    e: nat,
    dsep: char,
    esep: char,
    pattern: Seq<usize>,
)
    requires
        0 <= m <= MAX_MANTISSA,
        e <= 28,
        !is_digit_char(dsep),
        !is_digit_char(esep),
        pattern.len() > 0 ==> crate::format::spec_digits((m / pow10(e)) as nat).len()
            <= pattern[0],
    ensures
        ({
            let txt = crate::format::spec_amount_fmt(
                crate::format::spec_render(m, e),
                dsep,
                esep,
                pattern,
            );
            &&& amount_valid(txt, dsep, esep, pattern, e)
            &&& parse_scale(txt, esep, e) == e
            &&& parse_magnitude(txt, dsep, esep, e) == m
            &&& !sign_negative(concat_groups(split_on(split_on(txt, esep)[0], dsep)))
        }),
{
    lemma_pow10_pos(e);
    let p = pow10(e);
    let ip = (m / p) as nat;
    let fp = (m % p) as nat;
    vstd::arithmetic::div_mod::lemma_fundamental_div_mod(m, p);
    vstd::arithmetic::div_mod::lemma_mod_division_less_than_divisor(m, p);
    let d = crate::format::spec_digits(ip);
    let f = crate::format::spec_padded(fp, e);
    lemma_digits_shape(ip);
    lemma_padded_shape(fp, e);
    let render = crate::format::spec_render(m, e);
    lemma_grouped_identity(d, dsep, pattern, 0, 0);
    lemma_strip_identity(d);
    crate::format::lemma_digits_round_trip(ip);
    crate::format::lemma_padded_round_trip(fp, e);
    if e > 0 {
        assert(render =~= d + seq!['.'] + f);
        lemma_intfrac_concat(d, f);
        let txt = crate::format::spec_amount_fmt(render, dsep, esep, pattern);
        assert(txt =~= d + seq![esep] + f);
        lemma_split_concat(d, f, esep);
        lemma_split_no_sep(f, esep);
        let parts = split_on(txt, esep);
        assert(parts =~~= seq![d, f]);
        lemma_split_no_sep(d, dsep);
        let groups = split_on(parts[0], dsep);
        assert(groups == seq![d]);
        assert(concat_groups(seq![d]) == d) by {
            assert(seq![d].drop_last() =~= Seq::<Seq<char>>::empty());
            assert(concat_groups(Seq::<Seq<char>>::empty()) == Seq::<char>::empty());
            assert(Seq::<char>::empty() + d =~= d);
        }
        assert(signed_body(d) == d);
        assert(parse_scale(txt, esep, e) == e);
        assert(parse_magnitude(txt, dsep, esep, e) == m);
        assert(amount_valid(txt, dsep, esep, pattern, e));
    } else {
        assert(p == 1);
        assert(m % 1 == 0 && m / 1 == m) by (nonlinear_arith);
        assert(render =~= d);
        lemma_intfrac_none(d);
        let txt = crate::format::spec_amount_fmt(render, dsep, esep, pattern);
        assert(txt =~= d);
        lemma_split_no_sep(d, esep);
        let parts = split_on(txt, esep);
        assert(parts == seq![d]);
        lemma_split_no_sep(d, dsep);
        assert(concat_groups(seq![d]) == d) by {
            assert(seq![d].drop_last() =~= Seq::<Seq<char>>::empty());
            assert(concat_groups(Seq::<Seq<char>>::empty()) == Seq::<char>::empty());
            assert(Seq::<char>::empty() + d =~= d);
        }
        assert(signed_body(d) == d);
        assert(parse_scale(txt, esep, e) == e);
        assert(parse_magnitude(txt, dsep, esep, e) == m);
        assert(amount_valid(txt, dsep, esep, pattern, e));
    }
}

/// Addition of amounts is commutative: `a.add(b)` and `b.add(a)` face the
/// same representability condition and, by `add`'s contract, return the same
/// sum in the same currency.
pub proof fn lemma_add_commutative<T: FormattableCurrency>(a: Money<'_, T>, b: Money<'_, T>)
    requires
        a.currency_code() == b.currency_code(),
    ensures
        a.amount_value() + b.amount_value() == b.amount_value() + a.amount_value(),
        a.spec_amount().common_scale(b.spec_amount()) == b.spec_amount().common_scale(
            a.spec_amount(),
        ),
        Decimal::representable_at(
            a.amount_value() + b.amount_value(),
            a.spec_amount().common_scale(b.spec_amount()),
        ) == Decimal::representable_at(
            b.amount_value() + a.amount_value(),
            b.spec_amount().common_scale(a.spec_amount()),
        ),
{
}

/// Addition of amounts is associative: when every partial sum is
/// representable at the largest of the three scales, both bracketings
/// satisfy `add`'s success condition and, by its contract, yield the sum of
/// the three amounts.
pub proof fn lemma_add_associative<T: FormattableCurrency>(
    a: Money<'_, T>,
    b: Money<'_, T>,
    c: Money<'_, T>,
    ab_scale: nat,
    bc_scale: nat,
)
    requires
        a.currency_code() == b.currency_code(),
        b.currency_code() == c.currency_code(),
        // the scales `add`'s contract gives the two intermediate sums
        ab_scale == a.spec_amount().common_scale(b.spec_amount()),
        bc_scale == b.spec_amount().common_scale(c.spec_amount()),
        Decimal::representable_at(a.amount_value() + b.amount_value(), ab_scale),
        Decimal::representable_at(b.amount_value() + c.amount_value(), bc_scale),
        Decimal::representable_at(
            a.amount_value() + b.amount_value() + c.amount_value(),
            if ab_scale >= c.spec_amount().spec_scale() {
                ab_scale
            } else {
                c.spec_amount().spec_scale()
            },
        ),
    ensures
        (a.amount_value() + b.amount_value()) + c.amount_value() == a.amount_value() + (
        b.amount_value() + c.amount_value()),
        // both second steps share one scale and one representability condition
        (if ab_scale >= c.spec_amount().spec_scale() {
            ab_scale
        } else {
            c.spec_amount().spec_scale()
        }) == (if a.spec_amount().spec_scale() >= bc_scale {
            a.spec_amount().spec_scale()
        } else {
            bc_scale
        }),
        Decimal::representable_at(
            a.amount_value() + (b.amount_value() + c.amount_value()),
            if a.spec_amount().spec_scale() >= bc_scale {
                a.spec_amount().spec_scale()
            } else {
                bc_scale
            },
        ),
{
}

/// A zero amount is the additive identity: adding a zero whose scale is no
/// finer than the amount's leaves the amount unchanged, and the sum is
/// always representable.
pub proof fn lemma_add_zero_identity<T: FormattableCurrency>(m: Money<'_, T>, z: Money<'_, T>)
    requires
        m.currency_code() == z.currency_code(),
        z.amount_value() == 0,
        z.spec_amount().spec_scale() <= m.spec_amount().spec_scale(),
        m.spec_amount().inv(),
    ensures
        m.amount_value() + z.amount_value() == m.amount_value(),
        Decimal::representable_at(
            m.amount_value() + z.amount_value(),
            m.spec_amount().common_scale(z.spec_amount()),
        ),
{
    let s = m.spec_amount().spec_scale();
    let p = pow10((28 - s) as nat);
    lemma_pow10_pos((28 - s) as nat);
    assert(-MAX_MANTISSA * p <= m.spec_amount().spec_mantissa() * p <= MAX_MANTISSA * p)
        by (nonlinear_arith)
        requires
            p >= 1,
            -MAX_MANTISSA <= m.spec_amount().spec_mantissa() <= MAX_MANTISSA,
    ;
}

/// Subtracting an amount from itself always succeeds and gives zero.
pub proof fn lemma_sub_self_is_zero<T: FormattableCurrency>(a: Money<'_, T>)
    ensures
        a.amount_value() - a.amount_value() == 0,
        Decimal::representable_at(0, a.spec_amount().common_scale(a.spec_amount())),
{
    let s = a.spec_amount().common_scale(a.spec_amount());
    lemma_pow10_pos((28 - s) as nat);
    assert(MAX_MANTISSA * pow10((28 - s) as nat) >= 0) by (nonlinear_arith)
        requires
            pow10((28 - s) as nat) >= 1,
    ;
}

/// Negation is its own inverse: by `neg`'s contract, negating twice returns
/// the original amount.
pub proof fn lemma_neg_involution<T: FormattableCurrency>(a: Money<'_, T>)
    ensures
        -(-a.amount_value()) == a.amount_value(),
{
}

/// Multiplying an amount by a non-zero integer and dividing the product by
/// the same integer returns the original amount exactly.  `mul`'s contract
/// gives the product's value; this lemma supplies the representable exact
/// quotient that `div`'s contract then returns, and the cancellation that
/// identifies it with the original amount.
pub proof fn lemma_mul_div_roundtrip(am: int, asc: nat, n: int, pm: int, ps: nat)
    requires
        n != 0,
        asc <= 28,
        -MAX_MANTISSA <= am <= MAX_MANTISSA,
        aval(pm, ps) == aval(am, asc) * n,
    ensures
        exists|qm: int, qs: nat|
            qs <= 28 && -MAX_MANTISSA <= qm <= MAX_MANTISSA && #[trigger] exact_quotient_eq(
                qm,
                qs,
                pm,
                ps,
                n,
                0,
            ),
        forall|x: int| #[trigger] (x * n) == aval(am, asc) * n ==> x == aval(am, asc),
{
    assert(exact_quotient_eq(am, asc, pm, ps, n, 0)) by {
        assert(aval(am, asc) * (n * pow10(28)) == (aval(am, asc) * n) * pow10(28))
            by (nonlinear_arith);
        assert(aval(n, 0) == n * pow10(28));
    }
    assert forall|x: int| #[trigger] (x * n) == aval(am, asc) * n implies x == aval(am, asc) by {
        assert(x * n == aval(am, asc) * n && n != 0 ==> x == aval(am, asc)) by (nonlinear_arith);
    }
}

/// Rounding is idempotent: rounding a rounded amount to the same digit
/// count changes nothing.  Rounding also never flips the sign: a
/// non-negative amount rounds to a non-negative amount and a non-positive
/// one to a non-positive one (it may collapse to exact zero).
pub proof fn lemma_round_idempotent_and_sign(m: int, s: nat, d: nat, strategy: Round)
    requires
        s <= 28,
    ensures
        rounded_scale(rounded_scale(s, d), d) == rounded_scale(s, d),
        rounded_mantissa(
            rounded_mantissa(m, s, d, strategy),
            rounded_scale(s, d),
            d,
            strategy,
        ) == rounded_mantissa(m, s, d, strategy),
        m >= 0 ==> rounded_mantissa(m, s, d, strategy) >= 0,
        m <= 0 ==> rounded_mantissa(m, s, d, strategy) <= 0,
{
    if d < s {
        let p = pow10((s - d) as nat);
        lemma_pow10_pos((s - d) as nat);
        let a = if m >= 0 {
            m
        } else {
            -m
        };
        assert(a / p >= 0) by (nonlinear_arith)
            requires
                a >= 0,
                p >= 1,
        ;
        if m == 0 {
            assert(a / p == 0 && a % p == 0) by (nonlinear_arith)
                requires
                    a == 0,
                    p >= 1,
            ;
        }
    }
}

/// The shares of an allocation sum back to the allocated total exactly: no
/// minor unit is created or destroyed.  With `allocate`'s contract, which
/// gives each returned share, the values of the returned monies therefore
/// sum to the minor-unit total of the original amount.
pub proof fn lemma_allocation_preserves_total(tm: int, ws: Seq<i32>)
    requires
        tm >= 0,
        valid_weights(ws),
    ensures
        0 <= tm - base_sum(tm, ws, sum_weights(ws)) < ws.len(),
        sum_spec_shares(tm, ws, sum_weights(ws), ws.len() as int) == tm,
{
    let wsum = sum_weights(ws);
    lemma_sum_weights_bounds(ws);
    lemma_rem_bounds(tm, ws, wsum);
    lemma_sum_spec_shares_prefix(tm, ws, wsum, ws.len() as int);
    assert(ws.subrange(0, ws.len() as int) =~= ws);
}

/// The sum of the first `k` final shares: the provisional prefix sum plus
/// one unit for each index before the remainder.
proof fn lemma_sum_spec_shares_prefix(tm: int, ws: Seq<i32>, wsum: int, k: int)
    requires
        tm >= 0,
        wsum >= 1,
        wsum == sum_weights(ws),
        forall|i: int| 0 <= i < ws.len() ==> ws[i] >= 0,
        ws.len() > 0,
        0 <= k <= ws.len(),
    ensures
        sum_spec_shares(tm, ws, wsum, k) == base_sum(tm, ws.subrange(0, k), wsum) + (if k <= tm
            - base_sum(tm, ws, wsum) {
            k
        } else {
            tm - base_sum(tm, ws, wsum)
        }),
    decreases k,
{
    lemma_rem_bounds(tm, ws, wsum);
    if k == 0 {
        assert(ws.subrange(0, 0) =~= Seq::<i32>::empty());
    } else {
        lemma_sum_spec_shares_prefix(tm, ws, wsum, k - 1);
        lemma_subrange_push(ws, k - 1);
    }
}

/// Converting to minor units and back loses nothing when the amount's scale
/// is no finer than the currency's exponent.
pub proof fn lemma_minor_total_exact(m: int, s: nat, e: nat)
    requires
        s <= e <= 28,
    ensures
        spec_minor_total(m, s, e) * pow10((28 - e) as nat) == m * pow10((28 - s) as nat),
{
    if s < e {
        lemma_pow10_add((e - s) as nat, (28 - e) as nat);
        assert((m * pow10((e - s) as nat)) * pow10((28 - e) as nat) == m * (pow10((e - s) as nat)
            * pow10((28 - e) as nat))) by (nonlinear_arith);
    } else {
        // s == e: the total is the mantissa itself
        assert(spec_minor_total(m, s, e) == trunc_div(m, pow10(0)));
        assert(trunc_div(m, 1) == m) by {
            if m >= 0 {
                assert(m / 1 == m) by (nonlinear_arith);
            } else {
                assert((-m) / 1 == -m) by (nonlinear_arith);
            }
        }
    }
}

/// Taking one more element extends a prefix sum by that element.
proof fn lemma_subrange_push(ws: Seq<i32>, k: int)
    requires
        0 <= k < ws.len(),
    ensures
        ws.subrange(0, k + 1).drop_last() == ws.subrange(0, k),
        ws.subrange(0, k + 1).last() == ws[k],
{
    assert(ws.subrange(0, k + 1).drop_last() =~= ws.subrange(0, k));
}

/// A list of non-negative weights has a non-negative sum, positive exactly
/// when some weight is positive, and no weight exceeds the sum.
proof fn lemma_sum_weights_bounds(ws: Seq<i32>)
    requires
        forall|i: int| 0 <= i < ws.len() ==> ws[i] >= 0,
    ensures
        sum_weights(ws) >= 0,
        sum_weights(ws) > 0 <==> exists|i: int| 0 <= i < ws.len() && ws[i] > 0,
        forall|i: int| 0 <= i < ws.len() ==> ws[i] <= sum_weights(ws),
    decreases ws.len(),
{
    if ws.len() > 0 {
        let pre = ws.drop_last();
        assert(forall|i: int| 0 <= i < pre.len() ==> pre[i] == ws[i]);
        lemma_sum_weights_bounds(pre);
        if sum_weights(ws) > 0 {
            if sum_weights(pre) > 0 {
                let i = choose|i: int| 0 <= i < pre.len() && pre[i] > 0;
                assert(0 <= i < ws.len() && ws[i] > 0);
            } else {
                assert(ws[ws.len() - 1] > 0);
            }
        }
        if exists|i: int| 0 <= i < ws.len() && ws[i] > 0 {
            let i = choose|i: int| 0 <= i < ws.len() && ws[i] > 0;
            if i < ws.len() - 1 {
                assert(pre[i] > 0);
            }
        }
    }
}

/// A prefix of non-negative weights sums to no more than the whole list.
proof fn lemma_sum_weights_prefix_mono(ws: Seq<i32>, k: int)
    requires
        forall|i: int| 0 <= i < ws.len() ==> ws[i] >= 0,
        0 <= k <= ws.len(),
    ensures
        0 <= sum_weights(ws.subrange(0, k)) <= sum_weights(ws),
    decreases ws.len() - k,
{
    let pre = ws.subrange(0, k);
    assert(forall|i: int| 0 <= i < pre.len() ==> pre[i] == ws[i]);
    lemma_sum_weights_bounds(pre);
    if k == ws.len() {
        assert(ws.subrange(0, k) =~= ws);
    } else {
        lemma_subrange_push(ws, k);
        lemma_sum_weights_prefix_mono(ws, k + 1);
    }
}

/// Division facts for one provisional share `(tm * w) / wsum`.
proof fn lemma_share_step(tm: int, w: int, wsum: int)
    requires
        tm >= 0,
        0 <= w <= wsum,
        wsum >= 1,
    ensures
        0 <= (tm * w) / wsum <= tm,
        ((tm * w) / wsum) * wsum <= tm * w,
        tm * w <= ((tm * w) / wsum) * wsum + (wsum - 1),
        tm * w == 0 ==> (tm * w) / wsum == 0,
        tm * w >= 0,
{
    let num = tm * w;
    let q = num / wsum;
    assert(tm * w >= 0) by (nonlinear_arith)
        requires
            tm >= 0,
            w >= 0,
    ;
    lemma_fundamental_div_mod(num, wsum);
    lemma_mod_division_less_than_divisor(num, wsum);
    assert(q * wsum == wsum * q) by (nonlinear_arith);
    assert(0 <= q) by (nonlinear_arith)
        requires
            q * wsum >= num - (wsum - 1),
            num >= 0,
            wsum >= 1,
    ;
    assert(num <= tm * wsum) by (nonlinear_arith)
        requires
            tm >= 0,
            0 <= w <= wsum,
            num == tm * w,
    ;
    assert(q <= tm) by (nonlinear_arith)
        requires
            q * wsum <= num,
            num <= tm * wsum,
            wsum >= 1,
    ;
    if num == 0 {
        assert(q == 0) by (nonlinear_arith)
            requires
                q * wsum <= num,
                num == 0,
                q >= 0,
                wsum >= 1,
        ;
    }
}

/// Bounds for the sum of the first `k` provisional shares: non-negative,
/// below the total, and missing less than one unit per weight.
proof fn lemma_base_sum_prefix(tm: int, ws: Seq<i32>, wsum: int, k: int)
    requires
        tm >= 0,
        wsum >= 1,
        wsum == sum_weights(ws),
        forall|i: int| 0 <= i < ws.len() ==> ws[i] >= 0,
        0 <= k <= ws.len(),
    ensures
        0 <= base_sum(tm, ws.subrange(0, k), wsum),
        base_sum(tm, ws.subrange(0, k), wsum) * wsum <= tm * sum_weights(ws.subrange(0, k)),
        tm * sum_weights(ws.subrange(0, k)) <= base_sum(tm, ws.subrange(0, k), wsum) * wsum + k * (
        wsum - 1),
        base_sum(tm, ws.subrange(0, k), wsum) <= tm,
    decreases k,
{
    lemma_sum_weights_bounds(ws);
    if k == 0 {
        assert(ws.subrange(0, 0) =~= Seq::<i32>::empty());
    } else {
        lemma_base_sum_prefix(tm, ws, wsum, k - 1);
        lemma_subrange_push(ws, k - 1);
        let w = ws[k - 1] as int;
        lemma_share_step(tm, w, wsum);
        let q = base_share(tm, w, wsum);
        let pre = base_sum(tm, ws.subrange(0, k - 1), wsum);
        let spre = sum_weights(ws.subrange(0, k - 1));
        assert(base_sum(tm, ws.subrange(0, k), wsum) == pre + q);
        assert(sum_weights(ws.subrange(0, k)) == spre + w);
        assert((pre + q) * wsum == pre * wsum + q * wsum) by (nonlinear_arith);
        assert(tm * (spre + w) == tm * spre + tm * w) by (nonlinear_arith);
        assert((k - 1) * (wsum - 1) + (wsum - 1) == k * (wsum - 1)) by (nonlinear_arith);
        lemma_sum_weights_prefix_mono(ws, k);
        assert(tm * sum_weights(ws.subrange(0, k)) <= tm * wsum) by (nonlinear_arith)
            requires
                tm >= 0,
                sum_weights(ws.subrange(0, k)) <= wsum,
        ;
        assert(base_sum(tm, ws.subrange(0, k), wsum) <= tm) by (nonlinear_arith)
            requires
                base_sum(tm, ws.subrange(0, k), wsum) * wsum <= tm * wsum,
                wsum >= 1,
        ;
    }
}

/// The remainder after the provisional shares: at least zero and strictly
/// fewer minor units than there are weights.
proof fn lemma_rem_bounds(tm: int, ws: Seq<i32>, wsum: int)
    requires
        tm >= 0,
        wsum >= 1,
        wsum == sum_weights(ws),
        forall|i: int| 0 <= i < ws.len() ==> ws[i] >= 0,
        ws.len() > 0,
    ensures
        0 <= tm - base_sum(tm, ws, wsum) < ws.len(),
{
    let n = ws.len() as int;
    lemma_base_sum_prefix(tm, ws, wsum, n);
    assert(ws.subrange(0, n) =~= ws);
    let b = base_sum(tm, ws, wsum);
    assert((tm - b) * wsum == tm * wsum - b * wsum) by (nonlinear_arith);
    assert(tm - b < n) by (nonlinear_arith)
        requires
            (tm - b) * wsum <= n * (wsum - 1),
            wsum >= 1,
            n > 0,
    ;
}

/// Every single provisional share is at most the sum of them all.
proof fn lemma_base_sum_ge_component(tm: int, ws: Seq<i32>, wsum: int, k: int)
    requires
        tm >= 0,
        wsum >= 1,
        forall|i: int| 0 <= i < ws.len() ==> 0 <= ws[i] && ws[i] <= wsum,
        0 <= k < ws.len(),
    ensures
        base_share(tm, ws[k] as int, wsum) <= base_sum(tm, ws, wsum),
        0 <= base_sum(tm, ws, wsum),
    decreases ws.len(),
{
    let pre = ws.drop_last();
    assert(forall|i: int| 0 <= i < pre.len() ==> pre[i] == ws[i]);
    lemma_share_step(tm, ws[ws.len() - 1] as int, wsum);
    assert(base_sum(tm, ws, wsum) == base_sum(tm, pre, wsum) + base_share(
        tm,
        ws[ws.len() - 1] as int,
        wsum,
    ));
    lemma_base_sum_nonneg(tm, pre, wsum);
    if k < ws.len() - 1 {
        lemma_base_sum_ge_component(tm, pre, wsum, k);
    }
}

/// The sum of provisional shares of non-negative weights is non-negative.
proof fn lemma_base_sum_nonneg(tm: int, ws: Seq<i32>, wsum: int)
    requires
        tm >= 0,
        wsum >= 1,
        forall|i: int| 0 <= i < ws.len() ==> 0 <= ws[i] && ws[i] <= wsum,
    ensures
        0 <= base_sum(tm, ws, wsum),
    decreases ws.len(),
{
    if ws.len() > 0 {
        let pre = ws.drop_last();
        assert(forall|i: int| 0 <= i < pre.len() ==> pre[i] == ws[i]);
        lemma_base_sum_nonneg(tm, pre, wsum);
        lemma_share_step(tm, ws[ws.len() - 1] as int, wsum);
    }
}

/// From `d * 10^28 == a * (n * 10^28)` conclude `d == a * n`.
proof fn lemma_mul_value_cancel(dv: int, av: int, n: int)
    requires
        dv * pow10(28) == av * (n * pow10(28)),
    ensures
        dv == av * n,
{
    lemma_pow10_pos(28);
    assert(av * (n * pow10(28)) == (av * n) * pow10(28)) by (nonlinear_arith);
    assert(dv * pow10(28) == (av * n) * pow10(28) && pow10(28) >= 1 ==> dv == av * n)
        by (nonlinear_arith);
}

/// From `d * (n * 10^28) == a * 10^28` conclude `d * n == a`.
proof fn lemma_div_value_cancel(dv: int, av: int, n: int)
    requires
        dv * (n * pow10(28)) == av * pow10(28),
    ensures
        dv * n == av,
{
    lemma_pow10_pos(28);
    assert(dv * (n * pow10(28)) == (dv * n) * pow10(28)) by (nonlinear_arith);
    assert((dv * n) * pow10(28) == av * pow10(28) && pow10(28) >= 1 ==> dv * n == av)
        by (nonlinear_arith);
}

/// Dividing any representable amount by a non-zero integer cannot overflow:
/// either the scalar is `1` or `-1` and the exact quotient is the amount
/// itself, or the magnitude bound of the division wrapper applies.
proof fn lemma_div_scalar_in_range(am: int, asc: nat, n: int)
    requires
        n != 0,
        asc <= 28,
        -MAX_MANTISSA <= am <= MAX_MANTISSA,
    ensures
        (exists|qm: int, qs: nat|
            qs <= 28 && -MAX_MANTISSA <= qm <= MAX_MANTISSA && #[trigger] exact_quotient_eq(
                qm,
                qs,
                am,
                asc,
                n,
                0,
            )) || (-iabs(aval(n, 0)) * (MAX_MANTISSA - 1) <= aval(am, asc) <= iabs(aval(n, 0)) * (
        MAX_MANTISSA - 1)),
{
    lemma_pow10_pos(28);
    lemma_pow10_pos((28 - asc) as nat);
    lemma_pow10_mono((28 - asc) as nat, 28);
    if n == 1 || n == -1 {
        let qm = if n == 1 { am } else { -am };
        assert(exact_quotient_eq(qm, asc, am, asc, n, 0)) by {
            assert(aval(qm, asc) * aval(n, 0) == aval(am, asc) * pow10(28)) by (nonlinear_arith)
                requires
                    qm == if n == 1 { am } else { -am as int },
                    aval(qm, asc) == qm * pow10((28 - asc) as nat),
                    aval(am, asc) == am * pow10((28 - asc) as nat),
                    aval(n, 0) == n * pow10(28),
                    n == 1 || n == -1,
            ;
        }
    } else {
        // |n| >= 2, so |n * 10^28| * (MAX - 1) >= 2 * (MAX - 1) * 10^28
        // while |am * 10^(28-asc)| <= MAX * 10^28.
        assert(-iabs(n * pow10(28)) * (MAX_MANTISSA - 1) <= am * pow10((28 - asc) as nat) <= iabs(
            n * pow10(28),
        ) * (MAX_MANTISSA - 1)) by (nonlinear_arith)
            requires
                n <= -2 || n >= 2,
                pow10(28) >= 1,
                1 <= pow10((28 - asc) as nat) <= pow10(28),
                -MAX_MANTISSA <= am <= MAX_MANTISSA,
        ;
    }
}

} // verus!
