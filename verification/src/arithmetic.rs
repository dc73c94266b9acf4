//! Multiplication and division of binary64 numbers, rounded to nearest with
//! ties to even, as IEEE 754 defines them.
use crate::binary64::{
    lemma_magnitude_increases, scale_of, significand_of, unit, Binary64, HIDDEN_BIT,
    INFINITY_BITS, QUIET_NAN_BITS, SIGNIFICAND_LIMIT, SIGN_BIT,
};
use crate::rounding::{
    binade, lemma_nearest_is_near, lemma_nearest_monotonic, lemma_nearest_proportional,
    nearest_encoding, round_scaled_ratio, scale_down, scale_up,
};
use vstd::arithmetic::mul::*;
use vstd::arithmetic::power2::*;
use vstd::prelude::*;

verus! {

/// `2^x / 2^y` as the two factors of `2^(x - y)`.
proof fn lemma_scale_balance(x: nat, y: nat)
    ensures
        pow2(x) * scale_down(x - y) == scale_up(x - y) * pow2(y),
{
    if x >= y {
        lemma_pow2_adds((x - y) as nat, y);
    } else {
        lemma_pow2_adds(x, (y - x) as nat);
    }
    lemma_mul_basics(pow2(x) as int);
    lemma_mul_basics(pow2(y) as int);
}

/// The significand and the scale of a finite magnitude encoding.
fn decompose(m: u64) -> (r: (u64, i32))
    requires
        m < INFINITY_BITS,
    ensures
        r.0 == significand_of(m as nat),
        r.1 == scale_of(m as nat),
        r.0 < SIGNIFICAND_LIMIT,
        0 <= r.1 <= 2045,
        m > 0 ==> r.0 > 0,
{
    let field = m / HIDDEN_BIT;
    let fraction = m % HIDDEN_BIT;
    if field == 0 {
        (fraction, 0)
    } else {
        (HIDDEN_BIT + fraction, (field - 1) as i32)
    }
}

impl Binary64 {
    /// The number with the given sign and magnitude encoding.
    pub open spec fn spec_with_sign(negative: bool, magnitude_bits: u64) -> Binary64 {
        if negative {
            Binary64 { bits: (SIGN_BIT + magnitude_bits) as u64 }
        } else {
            Binary64 { bits: magnitude_bits }
        }
    }

    /// The number with the given sign and magnitude encoding.
    #[verifier::when_used_as_spec(spec_with_sign)]
    pub fn with_sign(negative: bool, magnitude_bits: u64) -> (r: Binary64)
        requires
            magnitude_bits < SIGN_BIT,
        ensures
            r == Self::spec_with_sign(negative, magnitude_bits),
            r.magnitude_bits() == magnitude_bits,
            r.is_sign_negative() == negative,
    {
        if negative {
            Binary64 { bits: SIGN_BIT + magnitude_bits }
        } else {
            Binary64 { bits: magnitude_bits }
        }
    }

    /// The IEEE product: a NaN where a factor is one and for zero times
    /// infinity; else the sign is negative where the factors' signs differ,
    /// and the magnitude is the exact product's, rounded to nearest.
    pub open spec fn spec_times(self, other: Binary64) -> Binary64 {
        if self.is_nan() || other.is_nan() || (self.is_infinite() && other.is_zero()) || (
        self.is_zero() && other.is_infinite()) {
            Binary64 { bits: QUIET_NAN_BITS }
        } else {
            let negative = self.is_sign_negative() != other.is_sign_negative();
            if self.is_infinite() || other.is_infinite() {
                Self::spec_with_sign(negative, INFINITY_BITS)
            } else {
                Self::spec_with_sign(
                    negative,
                    nearest_encoding(self.magnitude() * other.magnitude(), unit()) as u64,
                )
            }
        }
    }

    /// The IEEE quotient: a NaN where an operand is one, for zero by zero and
    /// for infinity by infinity; else the sign is negative where the operands'
    /// signs differ, and the magnitude is the exact quotient's, rounded to
    /// nearest. A finite number by zero is an infinity.
    pub open spec fn spec_over(self, other: Binary64) -> Binary64 {
        if self.is_nan() || other.is_nan() || (self.is_infinite() && other.is_infinite()) || (
        self.is_zero() && other.is_zero()) {
            Binary64 { bits: QUIET_NAN_BITS }
        } else {
            let negative = self.is_sign_negative() != other.is_sign_negative();
            if self.is_infinite() || other.is_zero() {
                Self::spec_with_sign(negative, INFINITY_BITS)
            } else if other.is_infinite() {
                Self::spec_with_sign(negative, 0)
            } else {
                Self::spec_with_sign(
                    negative,
                    nearest_encoding(self.magnitude() * unit(), other.magnitude()) as u64,
                )
            }
        }
    }

    /// The binary64 number nearest to the whole number `n`.
    pub open spec fn spec_from_u64(n: u64) -> Binary64 {
        Binary64 { bits: nearest_encoding(n as nat * unit(), 1) as u64 }
    }

    /// The binary64 number nearest to the whole number `n`; below `2^53` that
    /// is `n` itself.
    #[verifier::when_used_as_spec(spec_from_u64)]
    pub fn from_u64(n: u64) -> (r: Binary64)
        ensures
            r == Self::spec_from_u64(n),
    {
        let bits = round_scaled_ratio(n as u128, 1, 1074);
        proof {
            lemma_mul_basics(1);
        }
        Binary64 { bits }
    }

    /// `self * other`.
    #[verifier::when_used_as_spec(spec_times)]
    pub fn times(self, other: Binary64) -> (r: Binary64)
        ensures
            r == self.spec_times(other),
    {
        let ma: u64 = self.bits % SIGN_BIT;
        let mb: u64 = other.bits % SIGN_BIT;
        if ma > INFINITY_BITS || mb > INFINITY_BITS {
            return Binary64 { bits: QUIET_NAN_BITS };
        }
        let negative = (self.bits >= SIGN_BIT) != (other.bits >= SIGN_BIT);
        if ma == INFINITY_BITS || mb == INFINITY_BITS {
            if ma == 0 || mb == 0 {
                return Binary64 { bits: QUIET_NAN_BITS };
            }
            return Binary64::with_sign(negative, INFINITY_BITS);
        }
        let (sa, ea) = decompose(ma);
        let (sb, eb) = decompose(mb);
        proof {
            lemma_mul_upper_bound(
                sa as int,
                SIGNIFICAND_LIMIT as int,
                sb as int,
                SIGNIFICAND_LIMIT as int,
            );
        }
        let bits = round_scaled_ratio((sa as u128) * (sb as u128), 1, ea + eb - 1074);
        proof {
            let e = ea + eb - 1074;
            let (up, down) = (scale_up(e), scale_down(e));
            let (pa, pb) = (pow2(ea as nat), pow2(eb as nat));
            lemma_scale_balance((ea + eb) as nat, 1074);
            lemma_pow2_adds(ea as nat, eb as nat);
            lemma_pow2_pos(1074);
            assert(down > 0) by {
                if e < 0 {
                    lemma_pow2_pos((-e) as nat);
                }
            }
            assert((sa * pa) * (sb * pb) * (1 * down) == (sa * sb * up) * pow2(1074))
                by (nonlinear_arith)
                requires
                    pa * pb * down == up * pow2(1074),
            ;
            lemma_nearest_proportional(
                self.magnitude() * other.magnitude(),
                unit(),
                (sa * sb) as nat * up,
                1 * down,
            );
        }
        Binary64::with_sign(negative, bits)
    }

    /// `self / other`.
    #[verifier::when_used_as_spec(spec_over)]
    pub fn over(self, other: Binary64) -> (r: Binary64)
        ensures
            r == self.spec_over(other),
    {
        let ma: u64 = self.bits % SIGN_BIT;
        let mb: u64 = other.bits % SIGN_BIT;
        if ma > INFINITY_BITS || mb > INFINITY_BITS {
            return Binary64 { bits: QUIET_NAN_BITS };
        }
        if (ma == INFINITY_BITS && mb == INFINITY_BITS) || (ma == 0 && mb == 0) {
            return Binary64 { bits: QUIET_NAN_BITS };
        }
        let negative = (self.bits >= SIGN_BIT) != (other.bits >= SIGN_BIT);
        if ma == INFINITY_BITS || mb == 0 {
            return Binary64::with_sign(negative, INFINITY_BITS);
        }
        if mb == INFINITY_BITS {
            return Binary64::with_sign(negative, 0);
        }
        let (sa, ea) = decompose(ma);
        let (sb, eb) = decompose(mb);
        let bits = round_scaled_ratio(sa as u128, sb, ea - eb + 1074);
        proof {
            let e = ea + 1074 - eb;
            let (up, down) = (scale_up(e), scale_down(e));
            let (pa, pb) = (pow2(ea as nat), pow2(eb as nat));
            lemma_scale_balance((ea + 1074) as nat, eb as nat);
            lemma_pow2_adds(ea as nat, 1074);
            lemma_pow2_pos(eb as nat);
            assert(down > 0) by {
                if e < 0 {
                    lemma_pow2_pos((-e) as nat);
                }
            }
            assert((sa * pa) * pow2(1074) * (sb * down) == (sa * up) * (sb * pb))
                by (nonlinear_arith)
                requires
                    pa * pow2(1074) * down == up * pb,
            ;
            lemma_mul_strictly_positive(sb as int, pb as int);
            lemma_mul_strictly_positive(sb as int, down as int);
            lemma_nearest_proportional(
                self.magnitude() * unit(),
                other.magnitude(),
                sa as nat * up,
                sb as nat * down,
            );
        }
        Binary64::with_sign(negative, bits)
    }
}

/// A NaN among the factors makes the product a NaN.
pub proof fn lemma_times_keeps_nan(a: Binary64, b: Binary64)
    ensures
        a.is_nan() || b.is_nan() ==> a.times(b).is_nan(),
{
}

/// A product that is no NaN has the sign that its factors' signs give, and a
/// magnitude encoding that no NaN has.
pub proof fn lemma_times_sign(a: Binary64, b: Binary64)
    requires
        !a.times(b).is_nan(),
    ensures
        a.times(b).is_sign_negative() == (a.is_sign_negative() != b.is_sign_negative()),
        a.times(b).magnitude_bits() <= INFINITY_BITS,
{
}

/// The magnitude encoding of a product of two finite numbers.
pub proof fn lemma_times_finite(a: Binary64, b: Binary64)
    requires
        a.is_finite(),
        b.is_finite(),
    ensures
        a.times(b).magnitude_bits() == nearest_encoding(a.magnitude() * b.magnitude(), unit()),
        !a.times(b).is_nan(),
{
    let v = nearest_encoding(a.magnitude() * b.magnitude(), unit());
    assert(v <= INFINITY_BITS);
    let negative = a.is_sign_negative() != b.is_sign_negative();
    assert(a.times(b) == Binary64::spec_with_sign(negative, v as u64));
}

/// Multiplication keeps the order of magnitudes: where no factor of one
/// product is larger in magnitude than its counterpart in the other, and
/// neither product is a NaN, the first product is not the larger in
/// magnitude.
pub proof fn lemma_times_monotonic(a: Binary64, b: Binary64, a2: Binary64, b2: Binary64)
    requires
        !a.times(b).is_nan(),
        !a2.times(b2).is_nan(),
        a.magnitude_bits() <= a2.magnitude_bits(),
        b.magnitude_bits() <= b2.magnitude_bits(),
    ensures
        a.times(b).magnitude_bits() <= a2.times(b2).magnitude_bits(),
{
    lemma_times_sign(a, b);
    lemma_times_keeps_nan(a2, b2);
    if a2.is_finite() && b2.is_finite() {
        let (x, y, x2, y2) = (a.magnitude(), b.magnitude(), a2.magnitude(), b2.magnitude());
        assert(x <= x2) by {
            if a.magnitude_bits() < a2.magnitude_bits() {
                lemma_magnitude_increases(a.magnitude_bits(), a2.magnitude_bits());
            }
        }
        assert(y <= y2) by {
            if b.magnitude_bits() < b2.magnitude_bits() {
                lemma_magnitude_increases(b.magnitude_bits(), b2.magnitude_bits());
            }
        }
        assert(x * y <= x2 * y2) by (nonlinear_arith)
            requires
                x <= x2,
                y <= y2,
        ;
        lemma_pow2_pos(1074);
        lemma_nearest_monotonic(x * y, x2 * y2, unit());
        lemma_times_finite(a, b);
        lemma_times_finite(a2, b2);
    } else {
        lemma_times_infinite(a2, b2);
    }
}

/// A product with an infinite factor, if it is no NaN, is an infinity.
pub proof fn lemma_times_infinite(a: Binary64, b: Binary64)
    requires
        !a.times(b).is_nan(),
        !a.is_finite() || !b.is_finite(),
    ensures
        a.times(b).magnitude_bits() == INFINITY_BITS,
{
    lemma_times_keeps_nan(a, b);
}

/// A finite product of finite factors lies within half a step of the exact
/// product, where a step is the distance of two magnitudes in the exact
/// product's binade. Both sides count units of `2^-2148`.
pub proof fn lemma_times_is_near(a: Binary64, b: Binary64)
    requires
        a.is_finite(),
        b.is_finite(),
        a.times(b).is_finite(),
    ensures
        ({
            let exact = a.magnitude() * b.magnitude();
            let rounded = a.times(b).magnitude() * unit();
            let step = unit() * pow2(binade(exact, unit()));
            2 * (rounded - exact) <= step && 2 * (exact - rounded) <= step
        }),
{
    lemma_times_finite(a, b);
    lemma_pow2_pos(1074);
    lemma_nearest_is_near(a.magnitude() * b.magnitude(), unit());
}

/// A finite quotient of finite operands, the divisor not zero, lies within
/// half a step of the exact quotient, where a step is the distance of two
/// magnitudes in the exact quotient's binade. Both sides are multiplied by
/// the divisor's magnitude.
pub proof fn lemma_over_is_near(a: Binary64, b: Binary64)
    requires
        a.is_finite(),
        b.is_finite(),
        !b.is_zero(),
        a.over(b).is_finite(),
    ensures
        ({
            let exact = a.magnitude() * unit();
            let rounded = a.over(b).magnitude() * b.magnitude();
            let step = b.magnitude() * pow2(binade(exact, b.magnitude()));
            2 * (rounded - exact) <= step && 2 * (exact - rounded) <= step
        }),
{
    let v = nearest_encoding(a.magnitude() * unit(), b.magnitude());
    let negative = a.is_sign_negative() != b.is_sign_negative();
    assert(a.over(b) == Binary64::spec_with_sign(negative, v as u64));
    crate::binary64::lemma_magnitude_zero(b.magnitude_bits());
    lemma_nearest_is_near(a.magnitude() * unit(), b.magnitude());
}

} // verus!
