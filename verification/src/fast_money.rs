//! `FastMoney`: a fixed-point mirror of `Money` for latency-sensitive paths.
//!
//! The amount is a signed 64-bit count of minor units.  All arithmetic is
//! overflow-checked and fails with `Overflow` rather than wrapping; currency
//! identity is enforced exactly as `Money` does.  The bridges to `Money` are
//! lossless upward and explicitly checked or lossy downward.

use vstd::prelude::*;
use crate::currency::FormattableCurrency;
use crate::decimal::{pow10, lemma_pow10_pos, lemma_pow10_mono, lemma_pow10_28, pow10_i128, trunc_div, trunc_div_i128, iabs};
use crate::error::MoneyError;
use crate::money::{Money, is_mismatch, same_currency, mismatch, spec_minor_total};

verus! {

/// Whether the amount `m / 10^s` is a whole number of minor units of a
/// currency with exponent `e` — that is, carries no sub-minor precision.
pub open spec fn minor_units_exact(m: int, s: nat, e: nat) -> bool {
    if s <= e {
        true
    } else {
        trunc_div(m, pow10((s - e) as nat)) * pow10((s - e) as nat) == m
    }
}

/// An amount of a specific currency held as a signed 64-bit count of its
/// minor units (e.g. cents for USD).
#[derive(Debug, Clone, Copy, PartialEq)]
pub struct FastMoney<'a, T: FormattableCurrency> {
    minor_units: i64,
    currency: &'a T,
}

impl<'a, T: FormattableCurrency> FastMoney<'a, T> {
    pub closed spec fn spec_minor(self) -> int {
        self.minor_units as int
    }

    pub closed spec fn spec_currency(self) -> T {
        *self.currency
    }

    /// The code of the currency of this amount.
    pub open spec fn currency_code(self) -> Seq<char> {
        self.spec_currency().spec_code()
    }

    /// Creates a FastMoney from minor units (e.g. cents for USD).  The most
    /// efficient constructor: no conversion happens.
    pub fn from_minor(minor_units: i64, currency: &'a T) -> (r: FastMoney<'a, T>)
        ensures
            r.spec_minor() == minor_units as int,
            r.spec_currency() == *currency,
    {
        FastMoney { minor_units, currency }
    }

    /// Creates a FastMoney from major units (e.g. dollars for USD), scaling
    /// by the currency's exponent; fails with `Overflow` exactly when the
    /// scaled amount leaves the 64-bit range.
    pub fn from_major(amount: i64, currency: &'a T) -> (r: Result<FastMoney<'a, T>, MoneyError>)
        ensures
            ({
                let p = pow10(currency.spec_exponent());
                if p <= i64::MAX && i64::MIN <= amount * p <= i64::MAX {
                    r matches Ok(f) && f.spec_minor() == amount * p && f.spec_currency()
                        == *currency
                } else {
                    r == Err::<FastMoney<'a, T>, MoneyError>(MoneyError::Overflow)
                }
            }),
    {
        let e = currency.exponent();
        match pow10_i64(e) {
            Some(p) => match amount.checked_mul(p) {
                Some(m) => Ok(FastMoney { minor_units: m, currency }),
                None => Err(MoneyError::Overflow),
            },
            None => Err(MoneyError::Overflow),
        }
    }

    /// The amount in minor units.
    pub fn minor_units(&self) -> (r: i64)
        ensures
            r as int == self.spec_minor(),
    {
        self.minor_units
    }

    /// The currency.
    pub fn currency(&self) -> (r: &'a T)
        ensures
            *r == self.spec_currency(),
    {
        self.currency
    }

    /// The sum of two amounts of the same currency; fails with
    /// `CurrencyMismatch` when the currencies differ and with `Overflow`
    /// when the sum leaves the 64-bit range.
    pub fn add(&self, other: FastMoney<'a, T>) -> (r: Result<FastMoney<'a, T>, MoneyError>)
        ensures
            self.currency_code() != other.currency_code() ==> (r matches Err(e) && is_mismatch(
                e,
                self.currency_code(),
                other.currency_code(),
            )),
            (self.currency_code() == other.currency_code() && i64::MIN <= self.spec_minor()
                + other.spec_minor() <= i64::MAX) ==> (r matches Ok(f) && f.spec_minor()
                == self.spec_minor() + other.spec_minor() && f.spec_currency()
                == self.spec_currency()),
            (self.currency_code() == other.currency_code() && !(i64::MIN <= self.spec_minor()
                + other.spec_minor() <= i64::MAX)) ==> r == Err::<FastMoney<'a, T>, MoneyError>(
                MoneyError::Overflow,
            ),
    {
        if !same_currency(self.currency, other.currency) {
            return Err(mismatch(self.currency, other.currency));
        }
        match self.minor_units.checked_add(other.minor_units) {
            Some(m) => Ok(FastMoney { minor_units: m, currency: self.currency }),
            None => Err(MoneyError::Overflow),
        }
    }

    /// The difference of two amounts of the same currency; errors as `add`.
    pub fn sub(&self, other: FastMoney<'a, T>) -> (r: Result<FastMoney<'a, T>, MoneyError>)
        ensures
            self.currency_code() != other.currency_code() ==> (r matches Err(e) && is_mismatch(
                e,
                self.currency_code(),
                other.currency_code(),
            )),
            (self.currency_code() == other.currency_code() && i64::MIN <= self.spec_minor()
                - other.spec_minor() <= i64::MAX) ==> (r matches Ok(f) && f.spec_minor()
                == self.spec_minor() - other.spec_minor() && f.spec_currency()
                == self.spec_currency()),
            (self.currency_code() == other.currency_code() && !(i64::MIN <= self.spec_minor()
                - other.spec_minor() <= i64::MAX)) ==> r == Err::<FastMoney<'a, T>, MoneyError>(
                MoneyError::Overflow,
            ),
    {
        if !same_currency(self.currency, other.currency) {
            return Err(mismatch(self.currency, other.currency));
        }
        match self.minor_units.checked_sub(other.minor_units) {
            Some(m) => Ok(FastMoney { minor_units: m, currency: self.currency }),
            None => Err(MoneyError::Overflow),
        }
    }

    /// The amount multiplied by an integer scalar; fails with `Overflow`
    /// exactly when the product leaves the 64-bit range.
    pub fn mul(&self, n: i64) -> (r: Result<FastMoney<'a, T>, MoneyError>)
        ensures
            (i64::MIN <= self.spec_minor() * n <= i64::MAX) ==> (r matches Ok(f) && f.spec_minor()
                == self.spec_minor() * n && f.spec_currency() == self.spec_currency()),
            !(i64::MIN <= self.spec_minor() * n <= i64::MAX) ==> r == Err::<
                FastMoney<'a, T>,
                MoneyError,
            >(MoneyError::Overflow),
    {
        match self.minor_units.checked_mul(n) {
            Some(m) => Ok(FastMoney { minor_units: m, currency: self.currency }),
            None => Err(MoneyError::Overflow),
        }
    }

    /// The amount divided by an integer scalar, truncating toward zero;
    /// fails with `DivisionByZero` exactly when the scalar is zero.
    pub fn div(&self, n: i64) -> (r: Result<FastMoney<'a, T>, MoneyError>)
        requires
            !(self.spec_minor() == i64::MIN && n == -1),
        ensures
            n == 0 ==> r == Err::<FastMoney<'a, T>, MoneyError>(MoneyError::DivisionByZero),
            n != 0 ==> (r matches Ok(f) && f.spec_minor() == trunc_div(self.spec_minor(), n as int)
                && f.spec_currency() == self.spec_currency()),
    {
        if n == 0 {
            return Err(MoneyError::DivisionByZero);
        }
        proof {
            lemma_trunc_div_matches(self.spec_minor(), n as int);
            lemma_trunc_div_in_i64(self.spec_minor(), n as int);
        }
        match self.minor_units.checked_div(n) {
            Some(m) => Ok(FastMoney { minor_units: m, currency: self.currency }),
            None => {
                proof {
                    assert(false);
                }
                Err(MoneyError::Overflow)
            },
        }
    }

    /// True if the amount is zero.
    pub fn is_zero(&self) -> (r: bool)
        ensures
            r == (self.spec_minor() == 0),
    {
        self.minor_units == 0
    }

    /// True if the amount is strictly positive.
    pub fn is_positive(&self) -> (r: bool)
        ensures
            r == (self.spec_minor() > 0),
    {
        self.minor_units > 0
    }

    /// True if the amount is strictly negative.
    pub fn is_negative(&self) -> (r: bool)
        ensures
            r == (self.spec_minor() < 0),
    {
        self.minor_units < 0
    }

    /// The magnitude of the amount.
    pub fn abs(&self) -> (r: FastMoney<'a, T>)
        requires
            self.spec_minor() != i64::MIN,
        ensures
            r.spec_minor() == iabs(self.spec_minor()),
            r.spec_currency() == self.spec_currency(),
    {
        if self.minor_units < 0 {
            FastMoney { minor_units: -self.minor_units, currency: self.currency }
        } else {
            FastMoney { minor_units: self.minor_units, currency: self.currency }
        }
    }

    /// The same amount with the opposite sign.
    pub fn neg(&self) -> (r: FastMoney<'a, T>)
        requires
            self.spec_minor() != i64::MIN,
        ensures
            r.spec_minor() == -self.spec_minor(),
            r.spec_currency() == self.spec_currency(),
    {
        FastMoney { minor_units: -self.minor_units, currency: self.currency }
    }

    /// Orders two amounts of the same currency; fails with
    /// `CurrencyMismatch` when the currencies differ.
    pub fn compare(&self, other: &FastMoney<'a, T>) -> (r: Result<
        core::cmp::Ordering,
        MoneyError,
    >)
        ensures
            self.currency_code() != other.currency_code() ==> (r matches Err(e) && is_mismatch(
                e,
                self.currency_code(),
                other.currency_code(),
            )),
            self.currency_code() == other.currency_code() ==> (r matches Ok(o) && (o
                == core::cmp::Ordering::Equal <==> self.spec_minor() == other.spec_minor()) && (o
                == core::cmp::Ordering::Less <==> self.spec_minor() < other.spec_minor()) && (o
                == core::cmp::Ordering::Greater <==> self.spec_minor() > other.spec_minor())),
    {
        if !same_currency(self.currency, other.currency) {
            return Err(mismatch(self.currency, other.currency));
        }
        if self.minor_units < other.minor_units {
            Ok(core::cmp::Ordering::Less)
        } else if self.minor_units == other.minor_units {
            Ok(core::cmp::Ordering::Equal)
        } else {
            Ok(core::cmp::Ordering::Greater)
        }
    }

    /// Widens this fixed-point amount into a `Money` with the same value.
    /// Always lossless: a bounded integer of minor units loses nothing in an
    /// exact decimal.
    pub fn to_money(&self) -> (r: Money<'a, T>)
        requires
            self.spec_currency().spec_exponent() <= 28,
        ensures
            r.spec_amount().spec_mantissa() == self.spec_minor(),
            r.spec_amount().spec_scale() == self.spec_currency().spec_exponent(),
            r.spec_currency() == self.spec_currency(),
    {
        Money::from_minor(self.minor_units, self.currency)
    }

    /// The display string of the amount: the same text the equivalent
    /// `Money` displays.
    pub fn to_string(&self) -> (r: String)
        requires
            self.spec_currency().spec_exponent() <= 28,
        ensures
            r@ == crate::format::spec_money_display(
                self.spec_minor(),
                self.spec_currency().spec_exponent(),
                self.spec_currency().spec_exponent() as u32,
                self.spec_currency().spec_locale(),
                self.spec_currency().spec_symbol(),
                self.spec_currency().spec_code(),
                self.spec_currency().spec_symbol_first(),
            ),
    {
        self.to_money().to_string()
    }

    /// Narrows a `Money` into a FastMoney, strictly: fails with
    /// `PrecisionLoss` when the amount carries precision finer than the
    /// currency's exponent, and with `Overflow` when the minor-unit count
    /// leaves the 64-bit range.
    pub fn from_money(money: Money<'a, T>) -> (r: Result<FastMoney<'a, T>, MoneyError>)
        requires
            money.spec_currency().spec_exponent() <= 28,
        ensures
            ({
                let m = money.spec_amount().spec_mantissa();
                let s = money.spec_amount().spec_scale();
                let e = money.spec_currency().spec_exponent();
                let t = spec_minor_total(m, s, e);
                if !minor_units_exact(m, s, e) {
                    r == Err::<FastMoney<'a, T>, MoneyError>(MoneyError::PrecisionLoss)
                } else if i64::MIN <= t <= i64::MAX {
                    r matches Ok(f) && f.spec_minor() == t && f.spec_currency()
                        == money.spec_currency()
                } else {
                    r == Err::<FastMoney<'a, T>, MoneyError>(MoneyError::Overflow)
                }
            }),
    {
        let (exact, t) = match minor_units_of(&money) {
            Some(pair) => pair,
            None => {
                return Err(MoneyError::Overflow);
            },
        };
        if !exact {
            return Err(MoneyError::PrecisionLoss);
        }
        if t >= i64::MIN as i128 && t <= i64::MAX as i128 {
            Ok(FastMoney { minor_units: t as i64, currency: money.currency() })
        } else {
            Err(MoneyError::Overflow)
        }
    }

    /// Narrows a `Money` into a FastMoney, truncating any precision finer
    /// than the currency's exponent toward zero; fails only with `Overflow`.
    pub fn from_money_lossy(money: Money<'a, T>) -> (r: Result<FastMoney<'a, T>, MoneyError>)
        requires
            money.spec_currency().spec_exponent() <= 28,
        ensures
            ({
                let t = spec_minor_total(
                    money.spec_amount().spec_mantissa(),
                    money.spec_amount().spec_scale(),
                    money.spec_currency().spec_exponent(),
                );
                if i64::MIN <= t <= i64::MAX {
                    r matches Ok(f) && f.spec_minor() == t && f.spec_currency()
                        == money.spec_currency()
                } else {
                    r == Err::<FastMoney<'a, T>, MoneyError>(MoneyError::Overflow)
                }
            }),
    {
        let (_, t) = match minor_units_of(&money) {
            Some(pair) => pair,
            None => {
                return Err(MoneyError::Overflow);
            },
        };
        if t >= i64::MIN as i128 && t <= i64::MAX as i128 {
            Ok(FastMoney { minor_units: t as i64, currency: money.currency() })
        } else {
            Err(MoneyError::Overflow)
        }
    }
}

/// The minor-unit count of a `Money` amount, truncated toward zero, with a
/// flag saying whether the truncation was exact.  `None` when the count
/// overflows an `i128` (and so certainly a 64-bit integer).
fn minor_units_of<'a, T: FormattableCurrency>(money: &Money<'a, T>) -> (r: Option<(bool, i128)>)
    requires
        money.spec_currency().spec_exponent() <= 28,
    ensures
        ({
            let m = money.spec_amount().spec_mantissa();
            let s = money.spec_amount().spec_scale();
            let e = money.spec_currency().spec_exponent();
            match r {
                Some(pair) => pair.1 == spec_minor_total(m, s, e) && pair.0 == minor_units_exact(
                    m,
                    s,
                    e,
                ),
                None => !(i64::MIN <= spec_minor_total(m, s, e) <= i64::MAX)
                    && minor_units_exact(m, s, e),
            }
        }),
{
    let d = money.amount();
    let am = d.mantissa();
    let sc = d.scale();
    let e = money.currency().exponent();
    proof {
        use_type_invariant(d);
    }
    if sc <= e {
        let p = pow10_i128(e - sc);
        proof {
            if sc == e {
                lemma_trunc_div_one(am as int);
            }
        }
        match am.checked_mul(p) {
            Some(v) => Some((true, v)),
            None => {
                proof {
                    assert((am as int) * (p as int) > i64::MAX || (am as int) * (p as int)
                        < i64::MIN) by (nonlinear_arith)
                        requires
                            (am as int) * (p as int) > i128::MAX || (am as int) * (p as int)
                                < i128::MIN,
                    ;
                }
                None
            },
        }
    } else {
        let p = pow10_i128(sc - e);
        let q = trunc_div_i128(am, p);
        let back = match q.checked_mul(p) {
            Some(v) => v,
            None => {
                proof {
                    lemma_trunc_back_in_range(am as int, p as int);
                    assert(false);
                }
                0
            },
        };
        Some((back == am, q))
    }
}

/// Truncated division stays within the dividend's magnitude, so undoing it
/// by multiplication stays in range.
proof fn lemma_trunc_back_in_range(a: int, p: int)
    requires
        p >= 1,
    ensures
        -iabs(a) <= trunc_div(a, p) * p <= iabs(a),
{
    if a >= 0 {
        vstd::arithmetic::div_mod::lemma_fundamental_div_mod(a, p);
        vstd::arithmetic::div_mod::lemma_mod_division_less_than_divisor(a, p);
        assert(0 <= (a / p) * p <= a) by (nonlinear_arith)
            requires
                a == p * (a / p) + a % p,
                0 <= a % p < p,
                a >= 0,
                p >= 1,
        ;
    } else {
        vstd::arithmetic::div_mod::lemma_fundamental_div_mod(-a, p);
        vstd::arithmetic::div_mod::lemma_mod_division_less_than_divisor(-a, p);
        assert(0 <= ((-a) / p) * p <= -a) by (nonlinear_arith)
            requires
                -a == p * ((-a) / p) + (-a) % p,
                0 <= (-a) % p < p,
                a < 0,
                p >= 1,
        ;
        assert((-((-a) / p)) * p == -(((-a) / p) * p)) by (nonlinear_arith);
    }
}

/// The magnitude of a truncated quotient is the quotient of the magnitudes.
proof fn lemma_trunc_div_mag(a: int, n: int)
    requires
        n != 0,
    ensures
        iabs(trunc_div(a, n)) == iabs(a) / iabs(n),
{
    if a >= 0 {
        if n > 0 {
            assert(a / n >= 0) by (nonlinear_arith)
                requires
                    a >= 0,
                    n >= 1,
            ;
        } else {
            lemma_euclid_neg_divisor(a, n);
            assert(a / (-n) >= 0) by (nonlinear_arith)
                requires
                    a >= 0,
                    -n >= 1,
            ;
        }
    } else {
        if n > 0 {
            assert((-a) / n >= 0) by (nonlinear_arith)
                requires
                    -a >= 0,
                    n >= 1,
            ;
        } else {
            lemma_euclid_neg_divisor(-a, n);
            assert((-a) / (-n) >= 0) by (nonlinear_arith)
                requires
                    -a >= 0,
                    -n >= 1,
            ;
        }
    }
}

/// A truncated quotient of a 64-bit dividend stays in the 64-bit range, the
/// one exception (the smallest value divided by minus one) excluded.
proof fn lemma_trunc_div_in_i64(a: int, n: int)
    requires
        i64::MIN <= a <= i64::MAX,
        n != 0,
        !(a == i64::MIN && n == -1),
    ensures
        i64::MIN <= trunc_div(a, n) <= i64::MAX,
{
    lemma_trunc_div_mag(a, n);
    let ma = iabs(a);
    let mn = iabs(n);
    let mq = ma / mn;
    if mn == 1 {
        assert(ma / 1int == ma) by (nonlinear_arith);
        if n == 1 {
            lemma_trunc_div_one(a);
        } else {
            // n == -1 and a != i64::MIN, so |a| <= i64::MAX
        }
    } else {
        vstd::arithmetic::div_mod::lemma_fundamental_div_mod(ma, mn);
        vstd::arithmetic::div_mod::lemma_mod_division_less_than_divisor(ma, mn);
        assert(mq >= 0 && 2 * mq <= ma) by (nonlinear_arith)
            requires
                ma == mn * mq + ma % mn,
                0 <= ma % mn < mn,
                mn >= 2,
                ma >= 0,
        ;
    }
}

/// Rust's truncating division agrees with `trunc_div` for any non-zero
/// divisor.
proof fn lemma_trunc_div_matches(a: int, n: int)
    requires
        n != 0,
    ensures
        trunc_div(a, n) == if a == 0 {
            0
        } else if a > 0 && n > 0 {
            a / n
        } else if a < 0 && n < 0 {
            (a * -1) / (n * -1)
        } else if a < 0 {
            ((a * -1) / n) * -1
        } else {
            (a / (n * -1)) * -1
        },
{
    if a == 0 {
        if n > 0 {
            assert(0int / n == 0) by (nonlinear_arith)
                requires
                    n >= 1,
            ;
        } else {
            lemma_euclid_neg_divisor(0, n);
            assert(0int / (-n) == 0) by (nonlinear_arith)
                requires
                    -n >= 1,
            ;
        }
    } else if a > 0 && n < 0 {
        // Euclidean a / n equals -(a / -n) for positive a and negative n
        lemma_euclid_neg_divisor(a, n);
        assert(n * -1 == -n);
    } else if a < 0 && n < 0 {
        lemma_euclid_neg_divisor(-a, n);
        assert(a * -1 == -a && n * -1 == -n);
    } else if a < 0 {
        assert(a * -1 == -a);
    }
}

/// For `a >= 0` and `n < 0`, Euclidean division gives `a / n == -(a / -n)`.
proof fn lemma_euclid_neg_divisor(a: int, n: int)
    requires
        a >= 0,
        n < 0,
    ensures
        a / n == -(a / (-n)),
{
    vstd::arithmetic::div_mod::lemma_fundamental_div_mod(a, n);
    vstd::arithmetic::div_mod::lemma_fundamental_div_mod(a, -n);
    vstd::arithmetic::div_mod::lemma_mod_division_less_than_divisor(a, -n);
    assert(a % n == a % (-n)) by (nonlinear_arith)
        requires
            n < 0,
    ;
    assert(a / n == -(a / (-n))) by (nonlinear_arith)
        requires
            a == n * (a / n) + a % n,
            a == (-n) * (a / (-n)) + a % (-n),
            a % n == a % (-n),
            n < 0,
    ;
}

/// Computes `10^e` when it fits a 64-bit integer, `None` otherwise.
fn pow10_i64(e: u32) -> (r: Option<i64>)
    ensures
        match r {
            Some(v) => v == pow10(e as nat) && pow10(e as nat) <= i64::MAX,
            None => pow10(e as nat) > i64::MAX,
        },
{
    if e > 18 {
        proof {
            lemma_pow10_19();
            lemma_pow10_mono(19, e as nat);
        }
        None
    } else {
        let v = pow10_i128(e);
        proof {
            lemma_pow10_19();
            lemma_pow10_mono(e as nat, 18);
        }
        Some(v as i64)
    }
}

/// The concrete values of `10^18` and `10^19`, around the 64-bit boundary.
proof fn lemma_pow10_19()
    ensures
        pow10(18) == 1_000_000_000_000_000_000,
        pow10(19) == 10_000_000_000_000_000_000,
{
    reveal_with_fuel(pow10, 20);
}

/// A `FastMoney` always survives the round trip through `Money`: widening
/// with `to_money` and narrowing strictly with `from_money` returns the
/// same minor-unit count, for every representable value.
pub proof fn lemma_fast_money_roundtrip(minor: int, e: nat)
    requires
        e <= 28,
    ensures
        minor_units_exact(minor, e, e),
        spec_minor_total(minor, e, e) == minor,
{
    assert(spec_minor_total(minor, e, e) == trunc_div(minor, pow10(0)));
    lemma_trunc_div_one(minor);
}

/// Truncated division by one changes nothing.
proof fn lemma_trunc_div_one(a: int)
    ensures
        trunc_div(a, 1) == a,
{
    if a >= 0 {
        assert(a / 1int == a) by (nonlinear_arith);
    } else {
        assert((-a) / 1int == -a) by (nonlinear_arith);
    }
}

} // verus!
