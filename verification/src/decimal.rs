//! Decimal numbers: the values of floating literals and floating fields.
//!
//! A decimal is a sign, a mantissa and a power of ten. Its order and its
//! equality are those of the numbers it stands for, so `15e1` and `150` are
//! the same value.

use vstd::prelude::*;
use crate::helpers::{Literal, Numeric};

verus! {

/// Ten to the power `n`.
pub open spec fn pow10(n: nat) -> nat
    decreases n,
{
    if n == 0 {
        1
    } else {
        10 * pow10((n - 1) as nat)
    }
}

/// The largest power of ten that a mantissa can be scaled by in 128 bits.
pub const MAX_SHIFT: u32 = 19;

/// Powers of ten grow with the exponent.
pub proof fn lemma_pow10_grows(a: nat, b: nat)
    requires
        a <= b,
    ensures
        1 <= pow10(a) <= pow10(b),
    decreases b,
{
    if b == 0 {
    } else if a == b {
        lemma_pow10_grows((a - 1) as nat, (b - 1) as nat);
    } else {
        lemma_pow10_grows(a, (b - 1) as nat);
    }
}

/// Ten to the power 19, and ten to the power 20 is beyond 64 bits.
pub proof fn lemma_pow10_limits()
    ensures
        pow10(19) == 10_000_000_000_000_000_000nat,
        pow10(20) > u64::MAX,
{
    assert(pow10(0) == 1);
    assert(pow10(1) == 10);
    assert(pow10(2) == 100);
    assert(pow10(3) == 1_000);
    assert(pow10(4) == 10_000);
    assert(pow10(5) == 100_000);
    assert(pow10(6) == 1_000_000);
    assert(pow10(7) == 10_000_000);
    assert(pow10(8) == 100_000_000);
    assert(pow10(9) == 1_000_000_000);
    assert(pow10(10) == 10_000_000_000nat);
    assert(pow10(11) == 100_000_000_000nat);
    assert(pow10(12) == 1_000_000_000_000nat);
    assert(pow10(13) == 10_000_000_000_000nat);
    assert(pow10(14) == 100_000_000_000_000nat);
    assert(pow10(15) == 1_000_000_000_000_000nat);
    assert(pow10(16) == 10_000_000_000_000_000nat);
    assert(pow10(17) == 100_000_000_000_000_000nat);
    assert(pow10(18) == 1_000_000_000_000_000_000nat);
    assert(pow10(19) == 10_000_000_000_000_000_000nat);
    assert(pow10(20) == 100_000_000_000_000_000_000nat);
}

/// Ten to the power `n`, for an `n` of at most 19.
pub fn power_of_ten(n: u32) -> (r: u128)
    requires
        n <= MAX_SHIFT,
    ensures
        r == pow10(n as nat),
        1 <= r <= 10_000_000_000_000_000_000u128,
{
    let mut r: u128 = 1;
    let mut i: u32 = 0;
    proof {
        lemma_pow10_limits();
    }
    while i < n
        invariant
            i <= n <= MAX_SHIFT,
            r == pow10(i as nat),
            pow10(19) == 10_000_000_000_000_000_000nat,
        decreases n - i,
    {
        proof {
            lemma_pow10_grows(i as nat + 1, 19);
        }
        r = r * 10;
        i = i + 1;
    }
    proof {
        lemma_pow10_grows(n as nat, 19);
    }
    r
}

/// A decimal number: `mantissa` times ten to the power `exponent`, below
/// zero where `negative` is set.
#[derive(Clone, Copy, Debug, PartialEq, Eq, Structural)]
pub struct Decimal {
    pub negative: bool,
    pub mantissa: u64,
    pub exponent: i64,
}

impl Decimal {
    /// The mantissa with the sign.
    pub open spec fn signed_mantissa(self) -> int {
        if self.negative {
            -(self.mantissa as int)
        } else {
            self.mantissa as int
        }
    }

    /// The size of the number in units of ten to the power `unit`, for a
    /// `unit` that is not above the exponent.
    pub open spec fn magnitude(self, unit: int) -> int
        recommends
            unit <= self.exponent,
    {
        self.mantissa * pow10((self.exponent - unit) as nat)
    }

    /// The number in units of ten to the power `unit`, for a `unit` that is
    /// not above the exponent.
    pub open spec fn scaled(self, unit: int) -> int
        recommends
            unit <= self.exponent,
    {
        if self.negative {
            -self.magnitude(unit)
        } else {
            self.magnitude(unit)
        }
    }

    /// The size of a number is zero for the mantissa zero and above zero for
    /// any other.
    pub proof fn lemma_magnitude(self, unit: int)
        ensures
            self.mantissa == 0 ==> self.magnitude(unit) == 0,
            self.mantissa > 0 ==> self.magnitude(unit) > 0,
    {
        let p = pow10((self.exponent - unit) as nat) as int;
        lemma_pow10_grows(0, (self.exponent - unit) as nat);
        lemma_scale_sign(self.mantissa as int, p);
    }

    /// The smaller of the two exponents: a unit in which both numbers are
    /// whole.
    pub open spec fn common_unit(self, other: Decimal) -> int {
        if self.exponent <= other.exponent {
            self.exponent as int
        } else {
            other.exponent as int
        }
    }

    /// The order of the numbers.
    pub open spec fn value_le(self, other: Decimal) -> bool {
        self.scaled(self.common_unit(other)) <= other.scaled(self.common_unit(other))
    }

    /// Equality of the numbers.
    pub open spec fn value_eq(self, other: Decimal) -> bool {
        self.scaled(self.common_unit(other)) == other.scaled(self.common_unit(other))
    }

    /// The decimal of the whole number `val`.
    pub open spec fn of_integer(val: i64) -> Decimal {
        Decimal {
            negative: val < 0,
            mantissa: (if val < 0 {
                -val
            } else {
                val as int
            }) as u64,
            exponent: 0,
        }
    }

    /// The number with the opposite sign.
    pub open spec fn opposite(self) -> Decimal {
        Decimal { negative: !self.negative, ..self }
    }

    /// The decimal of the whole number `val`.
    pub fn from_integer(val: i64) -> (r: Decimal)
        ensures
            r == Decimal::of_integer(val),
            r.signed_mantissa() == val,
            r.exponent == 0,
            r.negative == (val < 0),
    {
        let mantissa: u64 = if val < 0 {
            (-(val as i128)) as u64
        } else {
            val as u64
        };
        Decimal { negative: val < 0, mantissa, exponent: 0 }
    }

    /// The number with the opposite sign.
    pub fn negated(&self) -> (r: Decimal)
        ensures
            r == self.opposite(),
            r.signed_mantissa() == -self.signed_mantissa(),
    {
        Decimal { negative: !self.negative, mantissa: self.mantissa, exponent: self.exponent }
    }

    /// Whether the number is zero.
    pub fn is_zero(&self) -> (r: bool)
        ensures
            r == (self.mantissa == 0),
            r == self.value_eq(Decimal { negative: false, mantissa: 0, exponent: 0 }),
    {
        proof {
            let zero = Decimal { negative: false, mantissa: 0, exponent: 0 };
            let unit = self.common_unit(zero);
            self.lemma_magnitude(unit);
            zero.lemma_magnitude(unit);
        }
        self.mantissa == 0
    }

    /// The whole part of the number, cut off towards zero, without bounds.
    pub open spec fn whole_part(self) -> int {
        let magnitude: int = if self.exponent >= 0 {
            self.mantissa * pow10(self.exponent as nat)
        } else {
            self.mantissa as int / (pow10((-self.exponent) as nat) as int)
        };
        if self.negative {
            -magnitude
        } else {
            magnitude
        }
    }

    /// The whole part of the number, cut off towards zero; the nearest
    /// 64-bit number where it does not fit.
    pub fn truncate(&self) -> (r: i64)
        ensures
            r == (if self.whole_part() > i64::MAX {
                i64::MAX
            } else if self.whole_part() < i64::MIN {
                i64::MIN
            } else {
                self.whole_part() as i64
            }),
    {
        proof {
            lemma_pow10_limits();
        }
        let magnitude: u128 = if self.exponent >= 0 {
            if self.mantissa == 0 {
                assert(self.mantissa * pow10(self.exponent as nat) == 0) by (nonlinear_arith)
                    requires
                        self.mantissa == 0,
                ;
                0
            } else if self.exponent > MAX_SHIFT as i64 {
                proof {
                    let p = pow10(self.exponent as nat);
                    lemma_pow10_grows(20, self.exponent as nat);
                    assert(self.mantissa * p >= p) by (nonlinear_arith)
                        requires
                            self.mantissa >= 1,
                            p >= 0,
                    ;
                }
                0xffff_ffff_ffff_ffff_ffff
            } else {
                let scale = power_of_ten(self.exponent as u32);
                assert(self.mantissa * scale <= 0xffff_ffff_ffff_ffff * 10_000_000_000_000_000_000u128)
                    by (nonlinear_arith)
                    requires
                        self.mantissa <= 0xffff_ffff_ffff_ffff,
                        0 <= scale <= 10_000_000_000_000_000_000u128,
                ;
                (self.mantissa as u128) * scale
            }
        } else {
            if self.exponent < -(MAX_SHIFT as i64) {
                proof {
                    let p = pow10((-self.exponent) as nat) as int;
                    lemma_pow10_grows(20, (-self.exponent) as nat);
                    assert(self.mantissa as int / p == 0) by (nonlinear_arith)
                        requires
                            0 <= self.mantissa < p,
                    ;
                }
                0
            } else {
                let scale = power_of_ten((-self.exponent) as u32);
                (self.mantissa as u128) / scale
            }
        };
        if self.negative {
            if magnitude > 0x8000_0000_0000_0000 {
                i64::MIN
            } else {
                (-(magnitude as i128)) as i64
            }
        } else {
            if magnitude > 0x7fff_ffff_ffff_ffff {
                i64::MAX
            } else {
                magnitude as i64
            }
        }
    }

    /// Whether the magnitude of `self` is not above that of `other`.
    fn magnitude_le(&self, other: &Decimal) -> (r: bool)
        ensures
            r == (self.magnitude(self.common_unit(*other)) <= other.magnitude(
                self.common_unit(*other),
            )),
    {
        let ghost unit = self.common_unit(*other);
        let ghost pa = pow10((self.exponent - unit) as nat);
        let ghost pb = pow10((other.exponent - unit) as nat);
        proof {
            lemma_pow10_limits();
            lemma_pow10_grows(0, (self.exponent - unit) as nat);
            lemma_pow10_grows(0, (other.exponent - unit) as nat);
            assert(pow10(0) == 1);
        }
        if self.exponent >= other.exponent {
            let gap: i128 = self.exponent as i128 - other.exponent as i128;
            assert(pb == 1);
            assert(other.mantissa * pb == other.mantissa) by (nonlinear_arith)
                requires
                    pb == 1,
            ;
            if self.mantissa == 0 {
                assert(self.mantissa * pa == 0) by (nonlinear_arith)
                    requires
                        self.mantissa == 0,
                ;
                true
            } else if gap > MAX_SHIFT as i128 {
                proof {
                    lemma_pow10_grows(20, gap as nat);
                    assert(self.mantissa * pa >= pa) by (nonlinear_arith)
                        requires
                            self.mantissa >= 1,
                            pa >= 0,
                    ;
                }
                false
            } else {
                let scale = power_of_ten(gap as u32);
                assert(self.mantissa * scale <= 0xffff_ffff_ffff_ffff * 10_000_000_000_000_000_000u128)
                    by (nonlinear_arith)
                    requires
                        self.mantissa <= 0xffff_ffff_ffff_ffff,
                        0 <= scale <= 10_000_000_000_000_000_000u128,
                ;
                (self.mantissa as u128) * scale <= other.mantissa as u128
            }
        } else {
            let gap: i128 = other.exponent as i128 - self.exponent as i128;
            assert(pa == 1);
            assert(self.mantissa * pa == self.mantissa) by (nonlinear_arith)
                requires
                    pa == 1,
            ;
            if other.mantissa == 0 {
                assert(other.mantissa * pb == 0) by (nonlinear_arith)
                    requires
                        other.mantissa == 0,
                ;
                self.mantissa == 0
            } else if gap > MAX_SHIFT as i128 {
                proof {
                    lemma_pow10_grows(20, gap as nat);
                    assert(other.mantissa * pb >= pb) by (nonlinear_arith)
                        requires
                            other.mantissa >= 1,
                            pb >= 0,
                    ;
                }
                true
            } else {
                let scale = power_of_ten(gap as u32);
                assert(other.mantissa * scale <= 0xffff_ffff_ffff_ffff * 10_000_000_000_000_000_000u128)
                    by (nonlinear_arith)
                    requires
                        other.mantissa <= 0xffff_ffff_ffff_ffff,
                        0 <= scale <= 10_000_000_000_000_000_000u128,
                ;
                self.mantissa as u128 <= (other.mantissa as u128) * scale
            }
        }
    }
}

/// The sign of a product with a positive factor is that of the other factor.
pub proof fn lemma_scale_sign(m: int, p: int)
    by (nonlinear_arith)
    requires
        p >= 1,
    ensures
        (m == 0) == (m * p == 0),
        (m > 0) == (m * p > 0),
        (-m) * p == -(m * p),
{
}

impl Literal for Decimal {
    open spec fn spec_same(&self, other: &Self) -> bool {
        self.value_eq(*other)
    }

    fn same(&self, other: &Self) -> (r: bool) {
        proof {
            assert(other.common_unit(*self) == self.common_unit(*other));
        }
        self.le(other) && other.le(self)
    }
}

impl Numeric for Decimal {
    open spec fn spec_zero() -> Self {
        Decimal { negative: false, mantissa: 0, exponent: 0 }
    }

    fn zero() -> (r: Self) {
        Decimal { negative: false, mantissa: 0, exponent: 0 }
    }

    open spec fn spec_name() -> Seq<char> {
        "floating"@
    }

    fn name() -> (r: &'static str) {
        "floating"
    }

    open spec fn spec_le(&self, other: &Self) -> bool {
        self.value_le(*other)
    }

    fn le(&self, other: &Self) -> (r: bool) {
        let ghost unit = self.common_unit(*other);
        proof {
            self.lemma_magnitude(unit);
            other.lemma_magnitude(unit);
            assert(other.common_unit(*self) == unit);
        }
        let self_below = self.negative && self.mantissa != 0;
        let other_below = other.negative && other.mantissa != 0;
        if self_below {
            if other_below {
                other.magnitude_le(self)
            } else {
                true
            }
        } else {
            if other_below {
                false
            } else {
                self.magnitude_le(other)
            }
        }
    }
}

} // verus!
