//! The exact decimal amount carried by every `Money`.
//!
//! A `Decimal` is a signed 96-bit integer mantissa together with a scale
//! between 0 and 28: it denotes `mantissa / 10^scale`.  This is the same
//! representation as `rust_decimal::Decimal`, so values move between the two
//! without loss.  Addition, subtraction, negation and comparison are verified
//! here; multiplication, division and rounding call into `rust_decimal`
//! through trusted wrappers whose contracts are stated over the mathematical
//! value of the operands.

use vstd::prelude::*;
use crate::money::Round;

verus! {

/// The largest mantissa a decimal can carry: `2^96 - 1`.
pub const MAX_MANTISSA: i128 = 79_228_162_514_264_337_593_543_950_335;

/// `10^e` as a mathematical integer.
pub open spec fn pow10(e: nat) -> int
    decreases e,
{
    if e == 0 {
        1
    } else {
        10 * pow10((e - 1) as nat)
    }
}

pub proof fn lemma_pow10_pos(e: nat)
    ensures
        pow10(e) >= 1,
    decreases e,
{
    if e > 0 {
        lemma_pow10_pos((e - 1) as nat);
    }
}

pub proof fn lemma_pow10_add(a: nat, b: nat)
    ensures
        pow10(a + b) == pow10(a) * pow10(b),
    decreases a,
{
    if a == 0 {
        assert(pow10(0 + b) == 1 * pow10(b));
    } else {
        lemma_pow10_add((a - 1) as nat, b);
        assert(pow10(a + b) == 10 * pow10((a + b - 1) as nat));
        assert(pow10((a - 1) as nat + b) == pow10((a - 1) as nat) * pow10(b));
        assert(10 * (pow10((a - 1) as nat) * pow10(b)) == (10 * pow10((a - 1) as nat)) * pow10(b))
            by (nonlinear_arith);
    }
}

pub proof fn lemma_pow10_mono(a: nat, b: nat)
    requires
        a <= b,
    ensures
        pow10(a) <= pow10(b),
    decreases b,
{
    if a < b {
        lemma_pow10_mono(a, (b - 1) as nat);
        lemma_pow10_pos((b - 1) as nat);
    }
}

/// The concrete value of `10^28`, the largest power a scale can ask for.
pub proof fn lemma_pow10_28()
    ensures
        pow10(28) == 10_000_000_000_000_000_000_000_000_000,
{
    reveal_with_fuel(pow10, 29);
}

/// Computes `10^e` for `e <= 28`.
pub fn pow10_i128(e: u32) -> (r: i128)
    requires
        e <= 28,
    ensures
        r == pow10(e as nat),
        1 <= r <= pow10(28),
{
    let mut acc: i128 = 1;
    let mut i: u32 = 0;
    proof {
        lemma_pow10_28();
    }
    while i < e
        invariant
            i <= e <= 28,
            acc == pow10(i as nat),
            pow10(28) == 10_000_000_000_000_000_000_000_000_000,
        decreases e - i,
    {
        proof {
            lemma_pow10_mono((i + 1) as nat, 28);
            lemma_pow10_pos(i as nat);
        }
        acc = acc * 10;
        i = i + 1;
    }
    proof {
        lemma_pow10_mono(e as nat, 28);
        lemma_pow10_pos(e as nat);
    }
    acc
}

/// An exact decimal number: `mantissa / 10^scale`.
#[derive(Debug, Clone, Copy)]
pub struct Decimal {
    mantissa: i128,
    scale: u32,
}

impl Decimal {
    pub closed spec fn spec_mantissa(self) -> int {
        self.mantissa as int
    }

    pub closed spec fn spec_scale(self) -> nat {
        self.scale as nat
    }

    /// Every decimal keeps its scale at most 28 and its mantissa within 96 bits,
    /// the range `rust_decimal` can represent.
    #[verifier::type_invariant]
    pub open spec fn inv(self) -> bool {
        &&& self.spec_scale() <= 28
        &&& -MAX_MANTISSA <= self.spec_mantissa() <= MAX_MANTISSA
    }

    /// The number this decimal denotes, expressed in units of `10^-28`.
    /// Two decimals are the same number exactly when their `value`s are equal.
    pub open spec fn value(self) -> int {
        self.spec_mantissa() * pow10((28 - self.spec_scale()) as nat)
    }

    /// Builds the decimal `num / 10^scale`, as `rust_decimal::Decimal::new` does.
    pub fn new(num: i64, scale: u32) -> (r: Decimal)
        requires
            scale <= 28,
        ensures
            r.spec_mantissa() == num as int,
            r.spec_scale() == scale as nat,
    {
        Decimal { mantissa: num as i128, scale }
    }

    /// Builds a decimal from a 96-bit mantissa and a scale.
    pub fn from_i128_with_scale(num: i128, scale: u32) -> (r: Decimal)
        requires
            scale <= 28,
            -MAX_MANTISSA <= num <= MAX_MANTISSA,
        ensures
            r.spec_mantissa() == num as int,
            r.spec_scale() == scale as nat,
    {
        Decimal { mantissa: num, scale }
    }

    /// The mantissa, with the sign of the number.
    pub fn mantissa(&self) -> (r: i128)
        ensures
            r == self.spec_mantissa(),
    {
        proof {
            use_type_invariant(self);
        }
        self.mantissa
    }

    /// The number of fractional digits.
    pub fn scale(&self) -> (r: u32)
        ensures
            r == self.spec_scale(),
    {
        self.scale
    }

    pub fn is_zero(&self) -> (r: bool)
        ensures
            r == (self.value() == 0),
    {
        proof {
            use_type_invariant(self);
            lemma_pow10_pos((28 - self.spec_scale()) as nat);
            let p = pow10((28 - self.spec_scale()) as nat);
            assert(self.spec_mantissa() * p == 0 <==> self.spec_mantissa() == 0)
                by (nonlinear_arith)
                requires
                    p >= 1,
            ;
        }
        self.mantissa == 0
    }

    pub fn is_positive(&self) -> (r: bool)
        ensures
            r == (self.value() > 0),
    {
        proof {
            use_type_invariant(self);
            lemma_pow10_pos((28 - self.spec_scale()) as nat);
            let p = pow10((28 - self.spec_scale()) as nat);
            assert(self.spec_mantissa() * p > 0 <==> self.spec_mantissa() > 0)
                by (nonlinear_arith)
                requires
                    p >= 1,
            ;
        }
        self.mantissa > 0
    }

    pub fn is_negative(&self) -> (r: bool)
        ensures
            r == (self.value() < 0),
    {
        proof {
            use_type_invariant(self);
            lemma_pow10_pos((28 - self.spec_scale()) as nat);
            let p = pow10((28 - self.spec_scale()) as nat);
            assert(self.spec_mantissa() * p < 0 <==> self.spec_mantissa() < 0)
                by (nonlinear_arith)
                requires
                    p >= 1,
            ;
        }
        self.mantissa < 0
    }

    /// The canonical decimal string: sign, integer digits, and for a
    /// positive scale a dot followed by the full scale of fractional digits.
    pub fn to_string(&self) -> (r: String)
        ensures
            r@ == crate::format::spec_render(self.spec_mantissa(), self.spec_scale()),
    {
        crate::format::render_decimal(self)
    }

    /// The same number with the opposite sign.
    pub fn neg(&self) -> (r: Decimal)
        ensures
            r.value() == -self.value(),
            r.spec_scale() == self.spec_scale(),
    {
        proof {
            use_type_invariant(self);
            let p = pow10((28 - self.spec_scale()) as nat);
            assert((-self.spec_mantissa()) * p == -(self.spec_mantissa() * p))
                by (nonlinear_arith);
        }
        Decimal { mantissa: -self.mantissa, scale: self.scale }
    }

    /// The magnitude of the number.
    pub fn abs(&self) -> (r: Decimal)
        ensures
            r.value() == if self.value() >= 0 {
                self.value()
            } else {
                -self.value()
            },
            r.spec_scale() == self.spec_scale(),
    {
        proof {
            use_type_invariant(self);
            lemma_pow10_pos((28 - self.spec_scale()) as nat);
            let p = pow10((28 - self.spec_scale()) as nat);
            assert(self.spec_mantissa() * p >= 0 <==> self.spec_mantissa() >= 0)
                by (nonlinear_arith)
                requires
                    p >= 1,
            ;
            assert((-self.spec_mantissa()) * p == -(self.spec_mantissa() * p))
                by (nonlinear_arith);
        }
        if self.mantissa < 0 {
            Decimal { mantissa: -self.mantissa, scale: self.scale }
        } else {
            Decimal { mantissa: self.mantissa, scale: self.scale }
        }
    }

    /// The common scale the operands of an exact sum are brought to.
    pub open spec fn common_scale(self, other: Decimal) -> nat {
        if self.spec_scale() >= other.spec_scale() {
            self.spec_scale()
        } else {
            other.spec_scale()
        }
    }

    /// Whether `v`, a value in units of `10^-28`, has an exact representation
    /// at scale `s`: its mantissa there stays within 96 bits.
    pub open spec fn representable_at(v: int, s: nat) -> bool {
        -MAX_MANTISSA * pow10((28 - s) as nat) <= v <= MAX_MANTISSA * pow10((28 - s) as nat)
    }

    /// The exact sum, at the larger of the two scales; `None` when the sum's
    /// mantissa there would not fit in 96 bits.
    pub fn checked_add(&self, other: &Decimal) -> (r: Option<Decimal>)
        ensures
            match r {
                Some(d) => d.value() == self.value() + other.value() && d.spec_scale()
                    == self.common_scale(*other) && Decimal::representable_at(
                    self.value() + other.value(),
                    self.common_scale(*other),
                ),
                None => !Decimal::representable_at(
                    self.value() + other.value(),
                    self.common_scale(*other),
                ),
            },
    {
        proof {
            use_type_invariant(self);
            use_type_invariant(other);
        }
        let flip: bool = self.scale < other.scale;
        let (m_hi, m_lo, s_hi, s_lo): (i128, i128, u32, u32) = if !flip {
            (self.mantissa, other.mantissa, self.scale, other.scale)
        } else {
            (other.mantissa, self.mantissa, other.scale, self.scale)
        };
        let p = pow10_i128(s_hi - s_lo);
        let ghost q = pow10((28 - s_hi) as nat);
        proof {
            lemma_pow10_pos((28 - s_hi) as nat);
            lemma_pow10_add(((s_hi - s_lo)) as nat, (28 - s_hi) as nat);
            assert((28 - s_lo) as nat == ((s_hi - s_lo) as nat + (28 - s_hi) as nat));
        }
        match m_lo.checked_mul(p) {
            None => {
                proof {
                    lemma_add_unrepresentable_when_scaled_overflows(
                        m_lo as int,
                        m_hi as int,
                        p as int,
                        q,
                    );
                    assert((m_lo * p) * q == m_lo * (p * q)) by (nonlinear_arith);
                }
                None
            },
            Some(scaled) => {
                proof {
                    assert((m_lo * p) * q == m_lo * (p * q)) by (nonlinear_arith);
                    assert((m_hi + scaled) * q == m_hi * q + scaled * q) by (nonlinear_arith);
                }
                match m_hi.checked_add(scaled) {
                    None => {
                        proof {
                            lemma_abs_mul_ge(m_hi as int + scaled as int, q, MAX_MANTISSA as int);
                        }
                        None
                    },
                    Some(sum) => {
                        if sum > MAX_MANTISSA || sum < -MAX_MANTISSA {
                            proof {
                                lemma_abs_mul_ge(sum as int, q, MAX_MANTISSA as int);
                            }
                            None
                        } else {
                            proof {
                                lemma_mul_le_mono(sum as int, MAX_MANTISSA as int, q);
                            }
                            Some(Decimal { mantissa: sum, scale: s_hi })
                        }
                    },
                }
            },
        }
    }

    /// The exact difference, at the larger of the two scales; `None` when its
    /// mantissa there would not fit in 96 bits.
    pub fn checked_sub(&self, other: &Decimal) -> (r: Option<Decimal>)
        ensures
            match r {
                Some(d) => d.value() == self.value() - other.value() && d.spec_scale()
                    == self.common_scale(*other) && Decimal::representable_at(
                    self.value() - other.value(),
                    self.common_scale(*other),
                ),
                None => !Decimal::representable_at(
                    self.value() - other.value(),
                    self.common_scale(*other),
                ),
            },
    {
        let n = other.neg();
        proof {
            use_type_invariant(other);
            use_type_invariant(&n);
        }
        self.checked_add(&n)
    }

    /// Orders two decimals by the numbers they denote.
    pub fn cmp_value(&self, other: &Decimal) -> (r: core::cmp::Ordering)
        ensures
            r == core::cmp::Ordering::Equal <==> self.value() == other.value(),
            r == core::cmp::Ordering::Less <==> self.value() < other.value(),
            r == core::cmp::Ordering::Greater <==> self.value() > other.value(),
    {
        proof {
            use_type_invariant(self);
            use_type_invariant(other);
        }
        let flip: bool = self.scale < other.scale;
        let (m_hi, m_lo, s_hi, s_lo): (i128, i128, u32, u32) = if !flip {
            (self.mantissa, other.mantissa, self.scale, other.scale)
        } else {
            (other.mantissa, self.mantissa, other.scale, self.scale)
        };
        let p = pow10_i128(s_hi - s_lo);
        let ghost q = pow10((28 - s_hi) as nat);
        proof {
            lemma_pow10_pos((28 - s_hi) as nat);
            lemma_pow10_add(((s_hi - s_lo)) as nat, (28 - s_hi) as nat);
            assert((28 - s_lo) as nat == ((s_hi - s_lo) as nat + (28 - s_hi) as nat));
        }
        let ord_result: core::cmp::Ordering = match m_lo.checked_mul(p) {
            None => {
                // The rescaled side is so large in magnitude that its sign decides.
                proof {
                    lemma_overflow_sign(m_lo as int, p as int, m_hi as int);
                    lemma_cmp_scaled(m_hi as int, m_lo as int * p as int, q);
                    assert((m_lo * p) * q == m_lo * (p * q)) by (nonlinear_arith);
                }
                if m_lo > 0 {
                    // the low-scale operand is the larger number
                    if flip {
                        core::cmp::Ordering::Greater
                    } else {
                        core::cmp::Ordering::Less
                    }
                } else {
                    if flip {
                        core::cmp::Ordering::Less
                    } else {
                        core::cmp::Ordering::Greater
                    }
                }
            },
            Some(scaled) => {
                proof {
                    assert((m_lo * p) * q == m_lo * (p * q)) by (nonlinear_arith);
                    lemma_cmp_scaled(m_hi as int, scaled as int, q);
                }
                let o: core::cmp::Ordering = if m_hi < scaled {
                    core::cmp::Ordering::Less
                } else if m_hi == scaled {
                    core::cmp::Ordering::Equal
                } else {
                    core::cmp::Ordering::Greater
                };
                if flip {
                    reverse_ordering(o)
                } else {
                    o
                }
            },
        };
        ord_result
    }

    /// The spec-level pair `rust_decimal` multiplication produces for these
    /// operands, through the name `decimal_mul`.
    pub open spec fn spec_mul(self, other: Decimal) -> Option<(i128, u32)> {
        decimal_mul(
            self.spec_mantissa() as i128,
            self.spec_scale() as u32,
            other.spec_mantissa() as i128,
            other.spec_scale() as u32,
        )
    }

    /// Whether the exact product of the two values fits in 96 bits at the sum
    /// of the scales, the case in which multiplication is exact.
    pub open spec fn mul_is_exact(self, other: Decimal) -> bool {
        &&& self.spec_scale() + other.spec_scale() <= 28
        &&& -MAX_MANTISSA <= self.spec_mantissa() * other.spec_mantissa() <= MAX_MANTISSA
    }

    /// The product, computed by `rust_decimal`; exact whenever
    /// `mul_is_exact`, and `None` only on overflow.
    pub fn checked_mul(&self, other: &Decimal) -> (r: Option<Decimal>)
        ensures
            match r {
                Some(d) => self.spec_mul(*other) matches Some(p) && d.spec_mantissa() == p.0 as int
                    && d.spec_scale() == p.1 as nat,
                None => self.spec_mul(*other) is None,
            },
            self.mul_is_exact(*other) ==> (r matches Some(d) && d.value() * pow10(28)
                == self.value() * other.value()),
    {
        proof {
            use_type_invariant(self);
            use_type_invariant(other);
        }
        let r = dec_mul_raw(self.mantissa, self.scale, other.mantissa, other.scale);
        proof {
            if self.mul_is_exact(*other) {
                lemma_aval_mul(
                    self.spec_mantissa(),
                    (28 - self.spec_scale()) as nat,
                    other.spec_mantissa(),
                    (28 - other.spec_scale()) as nat,
                );
                lemma_pow10_add(
                    (28 - (self.spec_scale() + other.spec_scale())) as nat,
                    28,
                );
                let p = r.unwrap();
                assert((p.0 as int) * pow10((28 - p.1) as nat) * pow10(28) == (p.0 as int) * (
                pow10((28 - p.1) as nat) * pow10(28))) by (nonlinear_arith);
                assert((self.spec_mantissa() * other.spec_mantissa()) * pow10(
                    (28 - (self.spec_scale() + other.spec_scale())) as nat,
                ) * pow10(28) == (self.spec_mantissa() * other.spec_mantissa()) * (pow10(
                    (28 - (self.spec_scale() + other.spec_scale())) as nat,
                ) * pow10(28))) by (nonlinear_arith);
            }
        }
        match r {
            Some(p) => Some(Decimal { mantissa: p.0, scale: p.1 }),
            None => None,
        }
    }

    /// The spec-level pair `rust_decimal` division produces for these
    /// operands, through the name `decimal_div`.
    pub open spec fn spec_div(self, other: Decimal) -> Option<(i128, u32)> {
        decimal_div(
            self.spec_mantissa() as i128,
            self.spec_scale() as u32,
            other.spec_mantissa() as i128,
            other.spec_scale() as u32,
        )
    }

    /// Whether some representable decimal is exactly `self / other`.
    pub open spec fn div_is_exact(self, other: Decimal) -> bool {
        exists|qm: int, qs: nat|
            qs <= 28 && -MAX_MANTISSA <= qm <= MAX_MANTISSA && #[trigger] exact_quotient_eq(
                qm,
                qs,
                self.spec_mantissa(),
                self.spec_scale(),
                other.spec_mantissa(),
                other.spec_scale(),
            )
    }

    /// The quotient, computed by `rust_decimal`.  `None` for a zero divisor
    /// or an overflowing quotient; exact whenever an exact quotient is
    /// representable.
    pub fn checked_div(&self, other: &Decimal) -> (r: Option<Decimal>)
        ensures
            match r {
                Some(d) => self.spec_div(*other) matches Some(p) && d.spec_mantissa() == p.0 as int
                    && d.spec_scale() == p.1 as nat,
                None => self.spec_div(*other) is None,
            },
            other.value() == 0 ==> r is None,
            self.value() == 0 && other.value() != 0 ==> (r matches Some(d) && d.value() == 0),
            (other.value() != 0 && self.div_is_exact(*other)) ==> (r matches Some(d) && d.value()
                * other.value() == self.value() * pow10(28)),
            (other.value() != 0 && -iabs(other.value()) * (MAX_MANTISSA - 1) <= self.value()
                <= iabs(other.value()) * (MAX_MANTISSA - 1)) ==> r is Some,
    {
        proof {
            use_type_invariant(self);
            use_type_invariant(other);
            lemma_pow10_pos((28 - other.spec_scale()) as nat);
            lemma_pow10_pos((28 - self.spec_scale()) as nat);
            lemma_val_zero(other.spec_mantissa(), pow10((28 - other.spec_scale()) as nat));
            lemma_val_zero(self.spec_mantissa(), pow10((28 - self.spec_scale()) as nat));
        }
        let r = dec_div_raw(self.mantissa, self.scale, other.mantissa, other.scale);
        proof {
            if self.value() == 0 && other.value() != 0 {
                let p = r.unwrap();
                lemma_pow10_pos((28 - p.1) as nat);
                lemma_val_zero(p.0 as int, pow10((28 - p.1) as nat));
            }
        }
        match r {
            Some(p) => Some(Decimal { mantissa: p.0, scale: p.1 }),
            None => None,
        }
    }

    /// Rounds to `dp` fractional digits with the given midpoint strategy; a
    /// value that already has no more than `dp` fractional digits comes back
    /// unchanged.
    pub fn round_dp_with_strategy(&self, dp: u32, strategy: Round) -> (r: Decimal)
        ensures
            r.spec_mantissa() == rounded_mantissa(
                self.spec_mantissa(),
                self.spec_scale(),
                dp as nat,
                strategy,
            ),
            r.spec_scale() == rounded_scale(self.spec_scale(), dp as nat),
    {
        proof {
            use_type_invariant(self);
        }
        let p = dec_round_raw(self.mantissa, self.scale, dp, &strategy);
        Decimal { mantissa: p.0, scale: p.1 }
    }
}

/// `m * p == 0` exactly when `m == 0`, for positive `p`.
proof fn lemma_val_zero(m: int, p: int)
    requires
        p >= 1,
    ensures
        m * p == 0 <==> m == 0,
        m * p > 0 <==> m > 0,
        m * p < 0 <==> m < 0,
{
    assert((m * p == 0 <==> m == 0) && (m * p > 0 <==> m > 0) && (m * p < 0 <==> m < 0))
        by (nonlinear_arith)
        requires
            p >= 1,
    ;
}

/// `(x * 10^a) * (y * 10^b) == (x * y) * 10^(a + b)`.
proof fn lemma_aval_mul(x: int, a: nat, y: int, b: nat)
    ensures
        (x * pow10(a)) * (y * pow10(b)) == (x * y) * pow10(a + b),
{
    lemma_pow10_add(a, b);
    assert((x * pow10(a)) * (y * pow10(b)) == (x * y) * (pow10(a) * pow10(b)))
        by (nonlinear_arith);
}

impl PartialEq for Decimal {
    /// Two decimals are equal when they denote the same number, whatever
    /// their scales: `1.0` equals `1.00`.
    fn eq(&self, other: &Decimal) -> (r: bool) {
        matches!(self.cmp_value(other), core::cmp::Ordering::Equal)
    }
}

impl vstd::std_specs::cmp::PartialEqSpecImpl for Decimal {
    open spec fn obeys_eq_spec() -> bool {
        true
    }

    open spec fn eq_spec(&self, other: &Decimal) -> bool {
        self.value() == other.value()
    }
}

/// What `rust_decimal` returns for the product of two decimals, as a
/// mantissa-and-scale pair; `None` where the product overflows.  The result
/// depends on the operands alone.
pub uninterp spec fn decimal_mul(am: i128, asc: u32, bm: i128, bsc: u32) -> Option<(i128, u32)>;

/// What `rust_decimal` returns for the quotient of two decimals; `None` for a
/// zero divisor or an overflow.  The result depends on the operands alone.
pub uninterp spec fn decimal_div(am: i128, asc: u32, bm: i128, bsc: u32) -> Option<(i128, u32)>;

/// Relies on `rust_decimal::Decimal::checked_mul`: the product is exact
/// whenever its mantissa fits in 96 bits at the sum of the scales (its source
/// only rescales and rounds beyond that), any result stays within the
/// representable range, and `None` comes only from overflow.
#[verifier::external_body]
fn dec_mul_raw(am: i128, asc: u32, bm: i128, bsc: u32) -> (r: Option<(i128, u32)>)
    requires
        asc <= 28,
        bsc <= 28,
        -MAX_MANTISSA <= am <= MAX_MANTISSA,
        -MAX_MANTISSA <= bm <= MAX_MANTISSA,
    ensures
        r == decimal_mul(am, asc, bm, bsc),
        r matches Some(p) ==> p.1 <= 28 && -MAX_MANTISSA <= p.0 <= MAX_MANTISSA,
        r is None ==> !(asc + bsc <= 28 && -MAX_MANTISSA <= am * bm <= MAX_MANTISSA),
        r matches Some(p) ==> ((asc + bsc <= 28 && -MAX_MANTISSA <= am * bm <= MAX_MANTISSA)
            ==> p.0 * pow10((28 - p.1) as nat) == (am * bm) * pow10((28 - (asc + bsc)) as nat)),
{
    let a = rust_decimal::Decimal::from_i128_with_scale(am, asc);
    let b = rust_decimal::Decimal::from_i128_with_scale(bm, bsc);
    match a.checked_mul(b) {
        Some(p) => Some((p.mantissa(), p.scale())),
        None => None,
    }
}

/// Relies on `rust_decimal::Decimal::checked_div`: `None` exactly for a zero
/// divisor or a quotient too large to represent; when an exact quotient is
/// representable the division finds it (its source scales the remainder up
/// until it is zero); a quotient no larger in magnitude than the dividend's
/// bound always fits.
#[verifier::external_body]
fn dec_div_raw(am: i128, asc: u32, bm: i128, bsc: u32) -> (r: Option<(i128, u32)>)
    requires
        asc <= 28,
        bsc <= 28,
        -MAX_MANTISSA <= am <= MAX_MANTISSA,
        -MAX_MANTISSA <= bm <= MAX_MANTISSA,
    ensures
        r == decimal_div(am, asc, bm, bsc),
        r matches Some(p) ==> p.1 <= 28 && -MAX_MANTISSA <= p.0 <= MAX_MANTISSA,
        r matches Some(p) ==> bm != 0,
        r matches Some(p) ==> (am == 0 ==> p.0 == 0),
        r is None ==> !(am == 0 && bm != 0),
        r is None ==> !(bm != 0 && (exists|qm: int, qs: nat|
            qs <= 28 && -MAX_MANTISSA <= qm <= MAX_MANTISSA && #[trigger] exact_quotient_eq(
                qm,
                qs,
                am as int,
                asc as nat,
                bm as int,
                bsc as nat,
            ))),
        r matches Some(p) ==> ((exists|qm: int, qs: nat|
            qs <= 28 && -MAX_MANTISSA <= qm <= MAX_MANTISSA && #[trigger] exact_quotient_eq(
                qm,
                qs,
                am as int,
                asc as nat,
                bm as int,
                bsc as nat,
            )) ==> exact_quotient_eq(
            p.0 as int,
            p.1 as nat,
            am as int,
            asc as nat,
            bm as int,
            bsc as nat,
        )),
        r is None ==> !(bm != 0 && -iabs(aval(bm as int, bsc as nat)) * (MAX_MANTISSA - 1) <= aval(
            am as int,
            asc as nat,
        ) <= iabs(aval(bm as int, bsc as nat)) * (MAX_MANTISSA - 1)),
{
    let a = rust_decimal::Decimal::from_i128_with_scale(am, asc);
    let b = rust_decimal::Decimal::from_i128_with_scale(bm, bsc);
    match a.checked_div(b) {
        Some(p) => Some((p.mantissa(), p.scale())),
        None => None,
    }
}

/// The value `m / 10^s` denotes, in units of `10^-28`.
pub open spec fn aval(m: int, s: nat) -> int {
    m * pow10((28 - s) as nat)
}

/// Division truncating toward zero, the way Rust's `/` divides integers.
pub open spec fn trunc_div(a: int, b: int) -> int {
    if a >= 0 {
        a / b
    } else {
        -((-a) / b)
    }
}

/// Computes `a / b` truncating toward zero.
pub fn trunc_div_i128(a: i128, b: i128) -> (r: i128)
    requires
        b > 0,
        a > i128::MIN,
    ensures
        r == trunc_div(a as int, b as int),
{
    proof {
        if a >= 0 {
            assert(0 <= (a as int) / (b as int) <= a as int) by (nonlinear_arith)
                requires
                    a >= 0,
                    b > 0,
            ;
        } else {
            assert(0 <= (-(a as int)) / (b as int) <= -(a as int)) by (nonlinear_arith)
                requires
                    a < 0,
                    b > 0,
            ;
        }
    }
    match a.checked_div(b) {
        Some(q) => q,
        None => {
            proof {
                assert(false);
            }
            0
        },
    }
}

/// The magnitude of an integer.
pub open spec fn iabs(x: int) -> int {
    if x >= 0 {
        x
    } else {
        -x
    }
}

/// Whether `q / 10^qs` is exactly the quotient of `a / 10^as` by `b / 10^bs`.
pub open spec fn exact_quotient_eq(qm: int, qs: nat, am: int, asc: nat, bm: int, bsc: nat) -> bool {
    aval(qm, qs) * aval(bm, bsc) == aval(am, asc) * pow10(28)
}

/// The mantissa after rounding `m / 10^s` to `dp` fractional digits with the
/// given strategy; unchanged when the value already has no more than `dp`.
pub open spec fn rounded_mantissa(m: int, s: nat, dp: nat, strategy: Round) -> int {
    if dp >= s {
        m
    } else {
        let p = pow10((s - dp) as nat);
        let a = if m >= 0 {
            m
        } else {
            -m
        };
        let q = a / p;
        let rem = a % p;
        let up = match strategy {
            Round::HalfUp => 2 * rem >= p,
            Round::HalfDown => 2 * rem > p,
            Round::HalfEven => 2 * rem > p || (2 * rem == p && q % 2 == 1),
        };
        let mag = if up {
            q + 1
        } else {
            q
        };
        if m >= 0 {
            mag
        } else {
            -mag
        }
    }
}

/// The scale after rounding to `dp` fractional digits.
pub open spec fn rounded_scale(s: nat, dp: nat) -> nat {
    if dp >= s {
        s
    } else {
        dp
    }
}

/// Relies on `rust_decimal::Decimal::round_dp_with_strategy`: it returns the
/// value unchanged when the scale is already at most `dp`, and otherwise
/// drops `scale - dp` digits from the magnitude, adding one when the dropped
/// digits lie above the midpoint, or on it as the strategy directs, with the
/// sign reapplied.
#[verifier::external_body]
fn dec_round_raw(m: i128, s: u32, dp: u32, strategy: &Round) -> (r: (i128, u32))
    requires
        s <= 28,
        -MAX_MANTISSA <= m <= MAX_MANTISSA,
    ensures
        r.0 == rounded_mantissa(m as int, s as nat, dp as nat, *strategy),
        r.1 == rounded_scale(s as nat, dp as nat),
        -MAX_MANTISSA <= r.0 <= MAX_MANTISSA,
        r.1 <= 28,
{
    let d = rust_decimal::Decimal::from_i128_with_scale(m, s);
    let st = match strategy {
        Round::HalfUp => rust_decimal::RoundingStrategy::MidpointAwayFromZero,
        Round::HalfDown => rust_decimal::RoundingStrategy::MidpointTowardZero,
        Round::HalfEven => rust_decimal::RoundingStrategy::MidpointNearestEven,
    };
    let rounded = d.round_dp_with_strategy(dp, st);
    (rounded.mantissa(), rounded.scale())
}

/// Flips `Less` and `Greater`.
fn reverse_ordering(o: core::cmp::Ordering) -> (r: core::cmp::Ordering)
    ensures
        r == core::cmp::Ordering::Equal <==> o == core::cmp::Ordering::Equal,
        r == core::cmp::Ordering::Less <==> o == core::cmp::Ordering::Greater,
        r == core::cmp::Ordering::Greater <==> o == core::cmp::Ordering::Less,
{
    match o {
        core::cmp::Ordering::Less => core::cmp::Ordering::Greater,
        core::cmp::Ordering::Equal => core::cmp::Ordering::Equal,
        core::cmp::Ordering::Greater => core::cmp::Ordering::Less,
    }
}

/// Multiplying both sides of a comparison by a positive factor keeps it.
proof fn lemma_cmp_scaled(a: int, b: int, q: int)
    requires
        q >= 1,
    ensures
        a * q < b * q <==> a < b,
        a * q == b * q <==> a == b,
{
    assert(a * q < b * q <==> a < b) by (nonlinear_arith)
        requires
            q >= 1,
    ;
    assert(a * q == b * q <==> a == b) by (nonlinear_arith)
        requires
            q >= 1,
    ;
}

/// If `x * q` lies beyond `m * q` in magnitude because `|x| > m >= |y|`,
/// then `x` decides the comparison against `y`.
proof fn lemma_overflow_sign(m_lo: int, p: int, m_hi: int)
    requires
        p >= 1,
        -MAX_MANTISSA <= m_lo <= MAX_MANTISSA,
        -MAX_MANTISSA <= m_hi <= MAX_MANTISSA,
        m_lo * p > i128::MAX || m_lo * p < i128::MIN,
    ensures
        m_lo > 0 ==> m_lo * p > m_hi,
        m_lo < 0 ==> m_lo * p < m_hi,
        m_lo != 0,
{
    assert(m_lo != 0 && (m_lo > 0 ==> m_lo * p > m_hi) && (m_lo < 0 ==> m_lo * p < m_hi))
        by (nonlinear_arith)
        requires
            p >= 1,
            -MAX_MANTISSA <= m_lo <= MAX_MANTISSA,
            -MAX_MANTISSA <= m_hi <= MAX_MANTISSA,
            m_lo * p > i128::MAX || m_lo * p < i128::MIN,
    ;
}

/// When rescaling one operand of a sum overflows `i128`, the exact sum
/// cannot fit in 96 bits at the common scale.
proof fn lemma_add_unrepresentable_when_scaled_overflows(m_lo: int, m_hi: int, p: int, q: int)
    requires
        q >= 1,
        p >= 1,
        -MAX_MANTISSA <= m_lo <= MAX_MANTISSA,
        -MAX_MANTISSA <= m_hi <= MAX_MANTISSA,
        m_lo * p > i128::MAX || m_lo * p < i128::MIN,
    ensures
        m_hi * q + (m_lo * p) * q > MAX_MANTISSA * q || m_hi * q + (m_lo * p) * q < -MAX_MANTISSA
            * q,
{
    assert(m_hi * q + (m_lo * p) * q > MAX_MANTISSA * q || m_hi * q + (m_lo * p) * q
        < -MAX_MANTISSA * q) by (nonlinear_arith)
        requires
            q >= 1,
            p >= 1,
            -MAX_MANTISSA <= m_lo <= MAX_MANTISSA,
            -MAX_MANTISSA <= m_hi <= MAX_MANTISSA,
            m_lo * p > i128::MAX || m_lo * p < i128::MIN,
    ;
}

/// A mantissa within a bound stays within the scaled bound.
proof fn lemma_mul_le_mono(m: int, bound: int, q: int)
    requires
        q >= 1,
        -bound <= m <= bound,
    ensures
        -(bound * q) <= m * q <= bound * q,
{
    assert(-(bound * q) <= m * q <= bound * q) by (nonlinear_arith)
        requires
            q >= 1,
            -bound <= m <= bound,
    ;
}

/// A mantissa beyond 96 bits stays beyond 96 bits after scaling by `q >= 1`.
proof fn lemma_abs_mul_ge(s: int, q: int, m: int)
    requires
        q >= 1,
        m >= 0,
        s > m || s < -m,
    ensures
        s * q > m * q || s * q < -(m * q),
{
    assert(s * q > m * q || s * q < -(m * q)) by (nonlinear_arith)
        requires
            q >= 1,
            m >= 0,
            s > m || s < -m,
    ;
}

} // verus!
