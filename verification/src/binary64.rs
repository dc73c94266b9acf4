//! IEEE 754 binary64 numbers as 64-bit encodings, with their exact values and
//! their order stated over the integers.
//!
//! A finite number with magnitude encoding `m` has the absolute value
//! `magnitude_of(m) / 2^1074`: every finite binary64 number is a whole multiple
//! of `2^-1074`, so the multiplier is its exact value in that unit.
use vstd::arithmetic::mul::*;
use vstd::arithmetic::power2::*;
use vstd::prelude::*;

verus! {

/// The encoding with the sign bit alone set.
pub const SIGN_BIT: u64 = 0x8000_0000_0000_0000;

/// The magnitude encoding of infinity; every larger magnitude encodes a NaN.
pub const INFINITY_BITS: u64 = 0x7ff0_0000_0000_0000;

/// The weight of the exponent field's lowest bit, `2^52`; in a normal number
/// also the leading significand bit that the encoding leaves out.
pub const HIDDEN_BIT: u64 = 0x0010_0000_0000_0000;

/// The bound `2^53` under which every significand lies.
pub const SIGNIFICAND_LIMIT: u64 = 0x0020_0000_0000_0000;

/// The encoding of the quiet NaN that arithmetic here returns.
pub const QUIET_NAN_BITS: u64 = 0x7ff8_0000_0000_0000;

/// The number of units of `2^-1074` in one.
pub open spec fn unit() -> nat {
    pow2(1074)
}

/// The whole number `n`, counted in units of `2^-1074`.
pub open spec fn whole(n: nat) -> int {
    (n * unit()) as int
}

/// The significand that the magnitude encoding `m` holds, hidden bit included.
pub open spec fn significand_of(m: nat) -> nat {
    if m / (HIDDEN_BIT as nat) == 0 {
        m % (HIDDEN_BIT as nat)
    } else {
        HIDDEN_BIT as nat + m % (HIDDEN_BIT as nat)
    }
}

/// The power of two by which the significand of `m` is scaled, counted from
/// the smallest binade.
pub open spec fn scale_of(m: nat) -> nat {
    if m / (HIDDEN_BIT as nat) == 0 {
        0
    } else {
        (m / (HIDDEN_BIT as nat) - 1) as nat
    }
}

/// The absolute value that the magnitude encoding `m` stands for, in units of
/// `2^-1074`. The encoding of infinity gets a magnitude above every finite one.
pub open spec fn magnitude_of(m: nat) -> nat {
    significand_of(m) * pow2(scale_of(m))
}

/// A larger magnitude encoding stands for a larger magnitude.
pub proof fn lemma_magnitude_increases(x: nat, y: nat)
    requires
        x < y,
    ensures
        magnitude_of(x) < magnitude_of(y),
{
    let h = HIDDEN_BIT as nat;
    let (ex, ey) = (x / h, y / h);
    assert(x == h * ex + x % h && y == h * ey + y % h) by {
        vstd::arithmetic::div_mod::lemma_fundamental_div_mod(x as int, h as int);
        vstd::arithmetic::div_mod::lemma_fundamental_div_mod(y as int, h as int);
    }
    let (px, py) = (pow2(scale_of(x)), pow2(scale_of(y)));
    lemma_pow2_pos(scale_of(x));
    lemma_pow2_pos(scale_of(y));
    if ex == ey {
        lemma_mul_strict_inequality(
            significand_of(x) as int,
            significand_of(y) as int,
            px as int,
        );
    } else {
        assert(ex < ey) by {
            if ex > ey {
                lemma_mul_inequality(ey as int + 1, ex as int, h as int);
            }
        }
        // x lies below the first magnitude of the next binade, and y at or above it
        let edge = h * pow2(scale_of(y));
        assert(magnitude_of(y) >= edge) by {
            lemma_mul_inequality(h as int, significand_of(y) as int, py as int);
        }
        if ex == 0 {
            assert(magnitude_of(x) == x % h) by {
                lemma2_to64();
                assert(scale_of(x) == 0);
                lemma_mul_basics(significand_of(x) as int);
            }
            lemma_mul_inequality(1, py as int, h as int);
        } else {
            assert(magnitude_of(x) < 2 * h * px) by {
                lemma_mul_strict_inequality(significand_of(x) as int, (2 * h) as int, px as int);
            }
            assert(2 * px <= py) by {
                lemma_pow2_unfold((scale_of(x) + 1) as nat);
                if scale_of(x) + 1 < scale_of(y) {
                    lemma_pow2_strictly_increases((scale_of(x) + 1) as nat, scale_of(y));
                }
            }
            assert(2 * h * px == h * (2 * px)) by (nonlinear_arith);
            lemma_mul_inequality((2 * px) as int, py as int, h as int);
        }
    }
}

/// Only the encoding zero stands for the magnitude zero.
pub proof fn lemma_magnitude_zero(x: nat)
    ensures
        magnitude_of(x) == 0 <==> x == 0,
{
    assert(magnitude_of(0) == 0) by {
        assert(significand_of(0) == 0);
        lemma_mul_basics(pow2(scale_of(0)) as int);
    }
    if x > 0 {
        lemma_magnitude_increases(0, x);
    }
}

/// Among numbers of one sign that are no NaN, the order of the magnitudes is
/// the order of the magnitude encodings.
pub proof fn lemma_order_of_encodings(x: Binary64, y: Binary64)
    requires
        !x.is_nan(),
        !y.is_nan(),
        !x.is_sign_negative(),
        !y.is_sign_negative(),
    ensures
        x.le(y) <==> x.bits <= y.bits,
        x.lt(y) <==> x.bits < y.bits,
{
    if x.bits < y.bits {
        lemma_magnitude_increases(x.bits as nat, y.bits as nat);
    }
    if y.bits < x.bits {
        lemma_magnitude_increases(y.bits as nat, x.bits as nat);
    }
}

/// An IEEE 754 binary64 number, held as its 64-bit encoding: one sign bit,
/// eleven exponent bits and fifty-two fraction bits.
#[derive(Clone, Copy, Debug, PartialEq, Eq, Structural)]
pub struct Binary64 {
    pub bits: u64,
}

impl Binary64 {
    /// The encoding without its sign bit.
    pub open spec fn magnitude_bits(self) -> nat {
        (self.bits % SIGN_BIT) as nat
    }

    pub open spec fn spec_is_sign_negative(self) -> bool {
        self.bits >= SIGN_BIT
    }

    pub open spec fn spec_is_nan(self) -> bool {
        self.magnitude_bits() > INFINITY_BITS
    }

    pub open spec fn spec_is_infinite(self) -> bool {
        self.magnitude_bits() == INFINITY_BITS
    }

    pub open spec fn spec_is_finite(self) -> bool {
        self.magnitude_bits() < INFINITY_BITS
    }

    /// Whether the number is a zero of either sign.
    pub open spec fn spec_is_zero(self) -> bool {
        self.magnitude_bits() == 0
    }

    /// The absolute value in units of `2^-1074`; see [`magnitude_of`].
    pub open spec fn magnitude(self) -> nat {
        magnitude_of(self.magnitude_bits())
    }

    /// The value in units of `2^-1074`. It is the exact value of a finite
    /// number; an infinity lies beyond every finite value on its side. It says
    /// nothing of a NaN.
    pub open spec fn value(self) -> int {
        if self.spec_is_sign_negative() {
            -(self.magnitude() as int)
        } else {
            self.magnitude() as int
        }
    }

    /// IEEE `<`: false when either side is a NaN, else the order of the values.
    pub open spec fn spec_lt(self, other: Binary64) -> bool {
        !self.spec_is_nan() && !other.spec_is_nan() && self.value() < other.value()
    }

    /// IEEE `<=`: false when either side is a NaN, else the order of the values.
    pub open spec fn spec_le(self, other: Binary64) -> bool {
        !self.spec_is_nan() && !other.spec_is_nan() && self.value() <= other.value()
    }

    pub open spec fn spec_zero() -> Binary64 {
        Binary64 { bits: 0 }
    }

    /// Positive zero.
    #[verifier::when_used_as_spec(spec_zero)]
    pub fn zero() -> (r: Binary64)
        ensures
            r == Self::spec_zero(),
    {
        Binary64 { bits: 0 }
    }

    pub open spec fn spec_from_bits(bits: u64) -> Binary64 {
        Binary64 { bits }
    }

    /// The number with the given encoding.
    #[verifier::when_used_as_spec(spec_from_bits)]
    pub fn from_bits(bits: u64) -> (r: Binary64)
        ensures
            r == Self::spec_from_bits(bits),
    {
        Binary64 { bits }
    }

    /// The encoding of the number.
    pub fn to_bits(self) -> (r: u64)
        ensures
            r == self.bits,
    {
        self.bits
    }

    #[verifier::when_used_as_spec(spec_is_sign_negative)]
    pub fn is_sign_negative(self) -> (r: bool)
        ensures
            r == self.spec_is_sign_negative(),
    {
        self.bits >= SIGN_BIT
    }

    #[verifier::when_used_as_spec(spec_is_nan)]
    pub fn is_nan(self) -> (r: bool)
        ensures
            r == self.spec_is_nan(),
    {
        self.bits % SIGN_BIT > INFINITY_BITS
    }

    #[verifier::when_used_as_spec(spec_is_infinite)]
    pub fn is_infinite(self) -> (r: bool)
        ensures
            r == self.spec_is_infinite(),
    {
        self.bits % SIGN_BIT == INFINITY_BITS
    }

    #[verifier::when_used_as_spec(spec_is_finite)]
    pub fn is_finite(self) -> (r: bool)
        ensures
            r == self.spec_is_finite(),
    {
        self.bits % SIGN_BIT < INFINITY_BITS
    }

    #[verifier::when_used_as_spec(spec_is_zero)]
    pub fn is_zero(self) -> (r: bool)
        ensures
            r == self.spec_is_zero(),
    {
        self.bits % SIGN_BIT == 0
    }

    /// IEEE `<` on the encodings.
    #[verifier::when_used_as_spec(spec_lt)]
    pub fn lt(self, other: Binary64) -> (r: bool)
        ensures
            r == self.spec_lt(other),
    {
        if self.is_nan() || other.is_nan() {
            return false;
        }
        let a: u64 = self.bits % SIGN_BIT;
        let b: u64 = other.bits % SIGN_BIT;
        proof {
            lemma_magnitude_zero(a as nat);
            lemma_magnitude_zero(b as nat);
            if a < b {
                lemma_magnitude_increases(a as nat, b as nat);
            }
            if b < a {
                lemma_magnitude_increases(b as nat, a as nat);
            }
        }
        if self.is_sign_negative() {
            if other.is_sign_negative() {
                b < a
            } else {
                a != 0 || b != 0
            }
        } else {
            if other.is_sign_negative() {
                false
            } else {
                a < b
            }
        }
    }

    /// IEEE `<=` on the encodings.
    #[verifier::when_used_as_spec(spec_le)]
    pub fn le(self, other: Binary64) -> (r: bool)
        ensures
            r == self.spec_le(other),
    {
        if self.is_nan() || other.is_nan() {
            return false;
        }
        let a: u64 = self.bits % SIGN_BIT;
        let b: u64 = other.bits % SIGN_BIT;
        proof {
            lemma_magnitude_zero(a as nat);
            lemma_magnitude_zero(b as nat);
            if a < b {
                lemma_magnitude_increases(a as nat, b as nat);
            }
            if b < a {
                lemma_magnitude_increases(b as nat, a as nat);
            }
        }
        if self.is_sign_negative() {
            if other.is_sign_negative() {
                b <= a
            } else {
                true
            }
        } else {
            if other.is_sign_negative() {
                a == 0 && b == 0
            } else {
                a <= b
            }
        }
    }
}

} // verus!
