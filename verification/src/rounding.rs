//! Rounding a ratio of two natural numbers to the nearest binary64 magnitude,
//! ties to the even significand.
//!
//! A ratio `n / d` is counted in units of `2^-1074`, as magnitudes are in
//! [`crate::binary64`].
use crate::binary64::{magnitude_of, HIDDEN_BIT, INFINITY_BITS, SIGNIFICAND_LIMIT};
use vstd::arithmetic::div_mod::*;
use vstd::arithmetic::mul::*;
use vstd::arithmetic::power2::*;
use vstd::prelude::*;

verus! {

/// The whole number nearest to `n / d`; of two that are equally near, the
/// even one.
pub open spec fn round_half_even(n: nat, d: nat) -> nat {
    let q = n / d;
    let r = n % d;
    if 2 * r > d || (2 * r == d && q % 2 == 1) {
        q + 1
    } else {
        q
    }
}

/// The binade of `n / d`: zero below `2^53`, and `k` from `2^(52+k)` up to,
/// but not including, `2^(53+k)`. In binade `k` the binary64 magnitudes are
/// the multiples of `2^k`.
pub open spec fn binade(n: nat, d: nat) -> nat
    decreases n,
{
    if d == 0 || n < d * (SIGNIFICAND_LIMIT as nat) {
        0
    } else {
        1 + binade(n / 2, d)
    }
}

/// The magnitude encoding of the binary64 number nearest to `n / d`, ties to
/// the even significand; the encoding of infinity where that number would
/// lie beyond the largest finite one.
///
/// In binade `k` the ratio is rounded to a multiple `m * 2^k`. The encoding
/// of that magnitude is `k * 2^52 + m`, also where `m` has reached `2^53` and
/// the magnitude belongs to the next binade.
pub open spec fn nearest_encoding(n: nat, d: nat) -> nat {
    let k = binade(n, d);
    let b = k * (HIDDEN_BIT as nat) + round_half_even(n, d * pow2(k));
    if b >= INFINITY_BITS {
        INFINITY_BITS as nat
    } else {
        b
    }
}

/// The bounds that name a binade.
pub proof fn lemma_binade_is(n: nat, d: nat, k: nat)
    requires
        d > 0,
        k == 0 ==> n < d * pow2(53),
        k > 0 ==> d * pow2(52 + k) <= n < d * pow2(53 + k),
    ensures
        binade(n, d) == k,
    decreases k,
{
    lemma2_to64_rest();
    if k > 0 {
        lemma_pow2_unfold(52 + k);
        lemma_pow2_unfold(53 + k);
        lemma_pow2_strictly_increases(53, 53 + k);
        lemma_mul_strict_inequality(pow2(53) as int, pow2(53 + k) as int, d as int);
        let lo = d * pow2((51 + k) as nat);
        let hi = d * pow2(52 + k);
        assert(d * pow2(52 + k) == 2 * lo) by (nonlinear_arith)
            requires
                pow2(52 + k) == 2 * pow2((51 + k) as nat),
                lo == d * pow2((51 + k) as nat),
        ;
        assert(d * pow2(53 + k) == 2 * hi) by (nonlinear_arith)
            requires
                pow2(53 + k) == 2 * pow2(52 + k),
                hi == d * pow2(52 + k),
        ;
        assert(lo <= n / 2 < hi);
        lemma_binade_is(n / 2, d, (k - 1) as nat);
    }
}

/// Rounding sees the ratio only: two fractions of one value round alike.
pub proof fn lemma_round_proportional(n: nat, d: nat, n2: nat, d2: nat)
    requires
        d > 0,
        d2 > 0,
        n * d2 == n2 * d,
    ensures
        round_half_even(n, d) == round_half_even(n2, d2),
{
    let q = n2 / d2;
    let r = n2 % d2;
    lemma_fundamental_div_mod(n2 as int, d2 as int);
    let rem = n - q * d;
    assert(rem * d2 == r * d) by (nonlinear_arith)
        requires
            n * d2 == n2 * d,
            n2 == d2 * q + r,
            rem == n - q * d,
    ;
    assert(0 <= rem < d) by (nonlinear_arith)
        requires
            rem * d2 == r * d,
            0 <= r < d2,
            d > 0,
    ;
    lemma_fundamental_div_mod_converse(n as int, d as int, q as int, rem);
    assert(2 * rem > d <==> 2 * r > d2) by (nonlinear_arith)
        requires
            rem * d2 == r * d,
            d > 0,
            d2 > 0,
    ;
    assert(2 * rem == d <==> 2 * r == d2) by (nonlinear_arith)
        requires
            rem * d2 == r * d,
            d > 0,
            d2 > 0,
    ;
}

/// Rounding `(q + r / den) / p`, where `r / den` is a proper fraction and `p`
/// is even, from the two parts of `q` that `p` cuts: a fraction above zero
/// only breaks a tie.
pub proof fn lemma_round_parts(q: nat, r: nat, den: nat, half: nat)
    requires
        den > 0,
        r < den,
        half > 0,
    ensures
        round_half_even(q * den + r, den * (2 * half)) == ({
            let hi = q / (2 * half);
            let lo = q % (2 * half);
            if lo > half || (lo == half && (r > 0 || hi % 2 == 1)) {
                hi + 1
            } else {
                hi
            }
        }),
{
    let p = 2 * half;
    let hi = q / p;
    let lo = q % p;
    lemma_fundamental_div_mod(q as int, p as int);
    let rem = lo * den + r;
    assert(q * den + r == hi * (den * p) + rem) by (nonlinear_arith)
        requires
            q == p * hi + lo,
            rem == lo * den + r,
    ;
    assert(rem < den * p) by (nonlinear_arith)
        requires
            rem == lo * den + r,
            lo < p,
            r < den,
    ;
    lemma_mul_strictly_positive(den as int, p as int);
    lemma_fundamental_div_mod_converse(
        (q * den + r) as int,
        (den * p) as int,
        hi as int,
        rem as int,
    );
    assert(den * p == 2 * (half * den)) by (nonlinear_arith)
        requires
            p == 2 * half,
    ;
    if lo > half {
        assert(lo * den >= (half + 1) * den) by (nonlinear_arith)
            requires
                lo >= half + 1,
        ;
        assert((half + 1) * den == half * den + den) by (nonlinear_arith);
    } else if lo < half {
        assert(lo * den <= (half - 1) * den) by (nonlinear_arith)
            requires
                lo <= half - 1,
                den > 0,
        ;
        assert((half - 1) * den == half * den - den) by (nonlinear_arith);
    }
}

/// `2^k` as a machine number.
pub fn power_of_two(k: u32) -> (r: u128)
    requires
        k < 128,
    ensures
        r == pow2(k as nat),
{
    let mut r: u128 = 1;
    let mut i: u32 = 0;
    proof {
        lemma2_to64();
    }
    while i < k
        invariant
            i <= k < 128,
            r == pow2(i as nat),
        decreases k - i,
    {
        proof {
            lemma_pow2_unfold((i + 1) as nat);
            if i + 1 < 127 {
                lemma_pow2_strictly_increases((i + 1) as nat, 127);
            }
            lemma_pow2_127();
        }
        r = r * 2;
        i = i + 1;
    }
    r
}

/// `2^127` fits a 128-bit machine number, and `2^128` is the first that does not.
pub proof fn lemma_pow2_127()
    ensures
        pow2(127) == 0x8000_0000_0000_0000_0000_0000_0000_0000,
        pow2(128) == 0x1_0000_0000_0000_0000_0000_0000_0000_0000,
{
    lemma2_to64();
    lemma2_to64_rest();
    lemma_pow2_adds(64, 63);
    lemma_pow2_adds(64, 64);
}

/// The number of binary digits of `x`: zero for zero, else the `n` with
/// `2^(n-1) <= x < 2^n`.
pub fn bit_length(x: u128) -> (n: u32)
    ensures
        n <= 128,
        x == 0 <==> n == 0,
        x > 0 ==> pow2((n - 1) as nat) <= x < pow2(n as nat),
{
    let mut n: u32 = 0;
    let mut y: u128 = x;
    proof {
        lemma2_to64();
    }
    while y > 0
        invariant
            n <= 128,
            y as int == x as int / pow2(n as nat) as int,
            n > 0 ==> pow2((n - 1) as nat) <= x,
        decreases y,
    {
        proof {
            let p = pow2(n as nat) as int;
            lemma_pow2_pos(n as nat);
            lemma_fundamental_div_mod(x as int, p);
            assert(p * (x as int / p) >= p) by (nonlinear_arith)
                requires
                    x as int / p >= 1,
                    p > 0,
            ;
            lemma_pow2_127();
            if n >= 128 {
                if n > 128 {
                    lemma_pow2_strictly_increases(128, n as nat);
                }
            }
            lemma_pow2_unfold((n + 1) as nat);
            lemma_div_denominator(x as int, p, 2);
            assert(p * 2 == 2 * p);
        }
        y = y / 2;
        n = n + 1;
    }
    proof {
        let p = pow2(n as nat) as int;
        lemma2_to64();
        lemma_pow2_pos(n as nat);
        if n > 0 {
            lemma_pow2_pos((n - 1) as nat);
        }
        lemma_fundamental_div_mod(x as int, p);
        assert(p * (x as int / p) == 0) by (nonlinear_arith)
            requires
                x as int / p == 0,
        ;
    }
    n
}

/// The bounds of a binade hold of every ratio in it.
pub proof fn lemma_binade_bounds(n: nat, d: nat)
    requires
        d > 0,
    ensures
        binade(n, d) == 0 ==> n < d * pow2(53),
        binade(n, d) > 0 ==> d * pow2(52 + binade(n, d)) <= n < d * pow2(53 + binade(n, d)),
    decreases n,
{
    lemma2_to64_rest();
    if n >= d * (SIGNIFICAND_LIMIT as nat) {
        let k = binade(n / 2, d);
        lemma_binade_bounds(n / 2, d);
        lemma_pow2_unfold(53 + k);
        lemma_pow2_unfold(54 + k);
        lemma_pow2_unfold(54);
        assert(d * pow2(53 + k) == 2 * (d * pow2(52 + k))) by (nonlinear_arith)
            requires
                pow2(53 + k) == 2 * pow2(52 + k),
        ;
        assert(d * pow2(54 + k) == 2 * (d * pow2(53 + k))) by (nonlinear_arith)
            requires
                pow2(54 + k) == 2 * pow2(53 + k),
        ;
    }
}

/// Bounds by a multiple pass from one fraction to another of the same value.
pub proof fn lemma_proportional_bounds(n: nat, d: nat, n2: nat, d2: nat, c: nat)
    requires
        d > 0,
        d2 > 0,
        n * d2 == n2 * d,
    ensures
        d2 * c <= n2 ==> d * c <= n,
        n2 < d2 * c ==> n < d * c,
{
    if d2 * c <= n2 {
        assert(d * c <= n) by (nonlinear_arith)
            requires
                d2 * c <= n2,
                n * d2 == n2 * d,
                d > 0,
                d2 > 0,
        ;
    }
    if n2 < d2 * c {
        assert(n < d * c) by (nonlinear_arith)
            requires
                n2 < d2 * c,
                n * d2 == n2 * d,
                d > 0,
                d2 > 0,
        ;
    }
}

/// The nearest encoding sees the ratio only: two fractions of one value have
/// the same.
pub proof fn lemma_nearest_proportional(n: nat, d: nat, n2: nat, d2: nat)
    requires
        d > 0,
        d2 > 0,
        n * d2 == n2 * d,
    ensures
        nearest_encoding(n, d) == nearest_encoding(n2, d2),
{
    let k = binade(n, d);
    lemma_binade_bounds(n, d);
    lemma_proportional_bounds(n2, d2, n, d, pow2(53));
    lemma_proportional_bounds(n2, d2, n, d, pow2(52 + k));
    lemma_proportional_bounds(n2, d2, n, d, pow2(53 + k));
    lemma_binade_is(n2, d2, k);
    lemma_pow2_pos(k);
    lemma_mul_strictly_positive(d as int, pow2(k) as int);
    lemma_mul_strictly_positive(d2 as int, pow2(k) as int);
    assert(n * (d2 * pow2(k)) == n2 * (d * pow2(k))) by (nonlinear_arith)
        requires
            n * d2 == n2 * d,
    ;
    lemma_round_proportional(n, d * pow2(k), n2, d2 * pow2(k));
}

/// Rounding keeps the order: a larger numerator never rounds lower.
pub proof fn lemma_round_monotonic(n: nat, n2: nat, d: nat)
    requires
        d > 0,
        n <= n2,
    ensures
        round_half_even(n, d) <= round_half_even(n2, d),
{
    lemma_fundamental_div_mod(n as int, d as int);
    lemma_fundamental_div_mod(n2 as int, d as int);
    lemma_div_is_ordered(n as int, n2 as int, d as int);
    let (q, q2) = (n / d, n2 / d);
    if q < q2 {
        assert(round_half_even(n, d) <= q + 1);
        assert(round_half_even(n2, d) >= q2);
    } else {
        assert(n % d <= n2 % d);
    }
}

/// Rounding keeps whole bounds: a ratio at or above `c` does not round
/// below it, and one at or below `c` does not round above it.
pub proof fn lemma_round_bounds(n: nat, d: nat, c: nat)
    requires
        d > 0,
    ensures
        d * c <= n ==> c <= round_half_even(n, d),
        n <= d * c ==> round_half_even(n, d) <= c,
{
    lemma_mul_is_commutative(d as int, c as int);
    lemma_fundamental_div_mod_converse((d * c) as int, d as int, c as int, 0);
    if d * c <= n {
        lemma_round_monotonic(d * c, n, d);
    }
    if n <= d * c {
        lemma_round_monotonic(n, d * c, d);
    }
}

/// A larger numerator lies in the same binade or a higher one.
pub proof fn lemma_binade_monotonic(n: nat, n2: nat, d: nat)
    requires
        d > 0,
        n <= n2,
    ensures
        binade(n, d) <= binade(n2, d),
{
    let (k, k2) = (binade(n, d), binade(n2, d));
    lemma_binade_bounds(n, d);
    lemma_binade_bounds(n2, d);
    if k > k2 {
        if 53 + k2 < 52 + k {
            lemma_pow2_strictly_increases(53 + k2, 52 + k);
        }
        lemma_mul_inequality(pow2(53 + k2) as int, pow2(52 + k) as int, d as int);
        assert(d * pow2(53 + k2) == pow2(53 + k2) * d && d * pow2(52 + k) == pow2(52 + k) * d)
            by (nonlinear_arith);
    }
}

/// The nearest encoding keeps the order: a larger numerator never gets a
/// smaller encoding.
pub proof fn lemma_nearest_monotonic(n: nat, n2: nat, d: nat)
    requires
        d > 0,
        n <= n2,
    ensures
        nearest_encoding(n, d) <= nearest_encoding(n2, d),
{
    let (k, k2) = (binade(n, d), binade(n2, d));
    let h = HIDDEN_BIT as nat;
    lemma_binade_monotonic(n, n2, d);
    lemma_binade_bounds(n, d);
    lemma_binade_bounds(n2, d);
    lemma_pow2_pos(k);
    lemma_pow2_pos(k2);
    lemma_mul_strictly_positive(d as int, pow2(k) as int);
    lemma_mul_strictly_positive(d as int, pow2(k2) as int);
    lemma2_to64_rest();
    if k == k2 {
        lemma_round_monotonic(n, n2, d * pow2(k));
    } else {
        // the lower one stays within its binade's end, which the higher one has passed
        let (y, y2) = (d * pow2(k), d * pow2(k2));
        lemma_pow2_adds(k, 53);
        lemma_pow2_adds(k2, 52);
        assert(y * pow2(53) == d * pow2(53 + k) && y2 * pow2(52) == d * pow2(52 + k2))
            by (nonlinear_arith)
            requires
                y == d * pow2(k),
                y2 == d * pow2(k2),
                pow2(k) * pow2(53) == pow2(53 + k),
                pow2(k2) * pow2(52) == pow2(52 + k2),
        ;
        if k == 0 {
            assert(y == d) by (nonlinear_arith)
                requires
                    y == d * pow2(k),
                    pow2(k) == 1,
            ;
            lemma2_to64();
        }
        lemma_round_bounds(n, y, pow2(53));
        lemma_round_bounds(n2, y2, pow2(52));
        assert(k * h + 2 * h <= k2 * h + h) by (nonlinear_arith)
            requires
                k + 1 <= k2,
        ;
    }
}

/// What an encoding built from a binade `k` and a multiplier `m` stands for:
/// the magnitude `m * 2^k`, also where `m` has reached `2^53`.
pub proof fn lemma_encoding_magnitude(k: nat, m: nat)
    requires
        m <= pow2(53),
        k > 0 ==> pow2(52) <= m,
    ensures
        magnitude_of(k * (HIDDEN_BIT as nat) + m) == m * pow2(k),
{
    let h = HIDDEN_BIT as nat;
    let x = k * h + m;
    lemma2_to64();
    lemma2_to64_rest();
    if m == 2 * h {
        lemma_fundamental_div_mod_converse(x as int, h as int, (k + 2) as int, 0);
        lemma_pow2_unfold(k + 1);
        assert(h * pow2(k + 1) == (2 * h) * pow2(k)) by (nonlinear_arith)
            requires
                pow2(k + 1) == 2 * pow2(k),
        ;
    } else if m >= h {
        lemma_fundamental_div_mod_converse(x as int, h as int, (k + 1) as int, (m - h) as int);
    } else {
        lemma_fundamental_div_mod_converse(x as int, h as int, 0, m as int);
        lemma_mul_basics(m as int);
    }
}

/// The nearest encoding stands for a magnitude within half a step of the
/// ratio, where a step is the distance `2^k` of two magnitudes in the
/// ratio's binade `k`; and that magnitude is a multiple of the step.
pub proof fn lemma_nearest_is_near(n: nat, d: nat)
    requires
        d > 0,
        nearest_encoding(n, d) < INFINITY_BITS,
    ensures
        ({
            let step = pow2(binade(n, d));
            let v = magnitude_of(nearest_encoding(n, d));
            &&& v == round_half_even(n, d * step) * step
            &&& 2 * (v * d - n) <= d * step
            &&& 2 * (n - v * d) <= d * step
        }),
{
    let k = binade(n, d);
    let step = pow2(k);
    let y = d * step;
    let m = round_half_even(n, y);
    lemma_pow2_pos(k);
    lemma_mul_strictly_positive(d as int, step as int);
    lemma_binade_bounds(n, d);
    lemma_pow2_adds(k, 52);
    lemma_pow2_adds(k, 53);
    assert(y * pow2(52) == d * pow2(52 + k) && y * pow2(53) == d * pow2(53 + k))
        by (nonlinear_arith)
        requires
            y == d * step,
            step * pow2(52) == pow2(52 + k),
            step * pow2(53) == pow2(53 + k),
    ;
    if k == 0 {
        lemma2_to64();
        assert(y == d) by (nonlinear_arith)
            requires
                y == d * step,
                step == 1,
        ;
    }
    lemma_round_bounds(n, y, pow2(52));
    lemma_round_bounds(n, y, pow2(53));
    lemma_encoding_magnitude(k, m);
    lemma_fundamental_div_mod(n as int, y as int);
    let v = m * step;
    assert(v * d == m * y) by (nonlinear_arith)
        requires
            v == m * step,
            y == d * step,
    ;
    let (q, r) = (n / y, n % y);
    assert(m * y == q * y + (m - q) * y) by (nonlinear_arith);
    assert(q * y == y * q) by (nonlinear_arith);
    if m == q {
        assert((m - q) * y == 0) by (nonlinear_arith)
            requires
                m == q,
        ;
    } else {
        assert((m - q) * y == y) by (nonlinear_arith)
            requires
                m == q + 1,
        ;
    }
}

/// A whole number times a power of two that stays below `2^53` steps of its
/// binade is its own nearest magnitude.
pub proof fn lemma_whole_is_exact(n: nat)
    requires
        n < pow2(53),
    ensures
        nearest_encoding(n * pow2(1074), 1) < INFINITY_BITS,
        magnitude_of(nearest_encoding(n * pow2(1074), 1)) == n * pow2(1074),
{
    let x = n * pow2(1074);
    let k = binade(x, 1);
    let step = pow2(k);
    lemma_pow2_pos(k);
    lemma_pow2_pos(1074);
    lemma_binade_bounds(x, 1);
    lemma_mul_basics(step as int);
    lemma_mul_basics(pow2(53 + k) as int);
    lemma_mul_basics(pow2(52 + k) as int);
    // the binade is at most 1074, so a step divides the number
    assert(k <= 1074) by {
        if k > 1074 {
            lemma_pow2_adds(53, 1074);
            lemma_mul_strict_inequality(n as int, pow2(53) as int, pow2(1074) as int);
            if 52 + k > 53 + 1074 {
                lemma_pow2_strictly_increases(53 + 1074, 52 + k);
            }
        }
    }
    let rest = pow2((1074 - k) as nat);
    lemma_pow2_adds((1074 - k) as nat, k);
    assert(x == (n * rest) * step) by (nonlinear_arith)
        requires
            x == n * pow2(1074),
            rest * step == pow2(1074),
    ;
    lemma_fundamental_div_mod_converse(x as int, step as int, (n * rest) as int, 0);
    assert(1 * step == step);
    assert(round_half_even(x, 1 * step) == n * rest);
    // the encoding stays finite: the multiplier is below 2^53 and the binade at most 1074
    lemma2_to64_rest();
    lemma_pow2_adds(k, 53);
    assert(n * rest < pow2(53)) by (nonlinear_arith)
        requires
            (n * rest) * step == x,
            x < 1 * pow2(53 + k) || (k == 0 && x < 1 * pow2(53)),
            step * pow2(53) == pow2(53 + k),
            step > 0,
    ;
    assert(k * (HIDDEN_BIT as nat) <= 1074 * (HIDDEN_BIT as nat)) by (nonlinear_arith)
        requires
            k <= 1074,
    ;
    lemma_round_bounds(x, 1 * step, pow2(52));
    lemma_pow2_adds(k, 52);
    lemma_encoding_magnitude(k, n * rest);
}

/// The factor that `2^e` puts on the numerator: `2^e` for `e >= 0`, else one.
pub open spec fn scale_up(e: int) -> nat {
    if e >= 0 {
        pow2(e as nat)
    } else {
        1
    }
}

/// The factor that `2^e` puts on the denominator: `2^-e` for `e < 0`, else one.
pub open spec fn scale_down(e: int) -> nat {
    if e < 0 {
        pow2((-e) as nat)
    } else {
        1
    }
}

/// The encoding nearest to `num / den * 2^e`.
pub open spec fn nearest_scaled(num: nat, den: nat, e: int) -> nat {
    nearest_encoding(num * scale_up(e), den * scale_down(e))
}

/// Rounding after the shifts: what the exact quotient `q` with remainder `r`
/// of `num * 2^s` by `den`, cut at `2^t`, says of the ratio `n / d`.
proof fn lemma_round_shifted(
    n: nat,
    d: nat,
    num: nat,
    den: nat,
    a: nat,
    b: nat,
    s: nat,
    k: nat,
    t: nat,
    q: nat,
    r: nat,
    bl: nat,
)
    requires
        den > 0,
        n == num * pow2(a),
        d == den * pow2(b),
        num * pow2(s) == q * den + r,
        r < den,
        bl >= 54,
        pow2((bl - 1) as nat) <= q < pow2(bl),
        t + a == k + s + b,
        k == 0 ==> t + 53 >= bl,
        k > 0 ==> t + 53 == bl,
    ensures
        binade(n, d) == k,
        d * pow2(k) > 0,
        round_half_even(n, d * pow2(k)) == round_half_even(q * den + r, den * pow2(t)),
{
    let (pa, pb, ps, pk, pt) = (pow2(a), pow2(b), pow2(s), pow2(k), pow2(t));
    lemma_pow2_pos(a);
    lemma_pow2_pos(b);
    lemma_pow2_pos(s);
    lemma_pow2_pos(k);
    lemma_pow2_pos(t);
    assert(pt * pa == pk * ps * pb) by {
        lemma_pow2_adds(t, a);
        lemma_pow2_adds(k, s);
        lemma_pow2_adds(k + s, b);
    }
    let n1 = q * den + r;
    let y1 = den * pt;
    let y = d * pk;
    assert(y > 0 && y1 > 0) by (nonlinear_arith)
        requires
            y == d * pk,
            y1 == den * pt,
            d == den * pb,
            den > 0,
            pb > 0,
            pk > 0,
            pt > 0,
    ;
    assert(pa * (n * y1) == pa * (n1 * y)) by (nonlinear_arith)
        requires
            n == num * pa,
            d == den * pb,
            y == d * pk,
            y1 == den * pt,
            n1 == num * ps,
            pt * pa == pk * ps * pb,
    ;
    lemma_mul_equality_converse(pa as int, (n * y1) as int, (n1 * y) as int);
    lemma_round_proportional(n, y, n1, y1);
    // the binade, first of q + r / den against 2^t, then of n against d * 2^k
    let top = pow2(bl);
    let low = pow2((bl - 1) as nat);
    assert(n1 < den * top && den * low <= n1) by (nonlinear_arith)
        requires
            n1 == q * den + r,
            r < den,
            low <= q < top,
    ;
    if k > 0 {
        lemma_pow2_adds(t, 52);
        lemma_pow2_adds(t, 53);
        assert(y1 * pow2(52) == den * low && y1 * pow2(53) == den * top) by (nonlinear_arith)
            requires
                y1 == den * pt,
                pt * pow2(52) == low,
                pt * pow2(53) == top,
        ;
        lemma_proportional_bounds(n, y, n1, y1, pow2(52));
        lemma_proportional_bounds(n, y, n1, y1, pow2(53));
        lemma_pow2_adds(k, 52);
        lemma_pow2_adds(k, 53);
        assert(y * pow2(52) == d * pow2(52 + k) && y * pow2(53) == d * pow2(53 + k))
            by (nonlinear_arith)
            requires
                y == d * pk,
                pk * pow2(52) == pow2(52 + k),
                pk * pow2(53) == pow2(53 + k),
        ;
    } else {
        lemma_pow2_adds(t, 53);
        if bl < t + 53 {
            lemma_pow2_strictly_increases(bl, t + 53);
        }
        assert(n1 < y1 * pow2(53)) by (nonlinear_arith)
            requires
                n1 < den * top,
                top <= pt * pow2(53),
                y1 == den * pt,
        ;
        lemma_proportional_bounds(n, y, n1, y1, pow2(53));
        lemma2_to64();
        assert(y == d) by (nonlinear_arith)
            requires
                y == d * pk,
                pk == 1,
        ;
    }
    lemma_binade_is(n, d, k);
}

/// The encoding of the binary64 magnitude nearest to `num / den * 2^exp`,
/// where the ratio counts units of `2^-1074`.
pub fn round_scaled_ratio(num: u128, den: u64, exp: i32) -> (bits: u64)
    requires
        den > 0,
    ensures
        bits == nearest_scaled(num as nat, den as nat, exp as int),
        bits <= INFINITY_BITS,
{
    let ghost a: nat = if exp >= 0 { exp as nat } else { 0 };
    let ghost b: nat = if exp < 0 { (-exp) as nat } else { 0 };
    let ghost n: nat = num as nat * pow2(a);
    let ghost d: nat = den as nat * pow2(b);
    proof {
        lemma2_to64();
        lemma2_to64_rest();
        lemma_pow2_127();
        lemma_pow2_pos(a);
        lemma_pow2_pos(b);
        lemma_mul_strictly_positive(den as int, pow2(b) as int);
        assert(n == num as nat * scale_up(exp as int) && d == den as nat * scale_down(exp as int));
    }
    if num == 0 {
        proof {
            assert(n == 0) by (nonlinear_arith)
                requires
                    n == num as nat * pow2(a),
                    num == 0,
            ;
            lemma_mul_strictly_positive(d as int, pow2(53) as int);
            lemma_binade_is(n, d, 0);
            assert(d * pow2(0) == d);
            lemma_small_mod(0, d);
            lemma_div_of0(d as int);
        }
        return 0;
    }
    if exp > 5000 {
        proof {
            // the ratio is at least 2^5000 / 2^64, far beyond the largest finite magnitude
            let k = binade(n, d);
            lemma_binade_bounds(n, d);
            lemma_pow2_strictly_increases(64, 5000);
            lemma_pow2_strictly_increases(5000, a);
            lemma_mul_basics(den as int);
            lemma_pow2_adds(64, 53 + k);
            if k < 2047 {
                lemma_pow2_strictly_increases(64 + 53 + k, 5000);
                assert(false) by (nonlinear_arith)
                    requires
                        n == num as nat * pow2(a),
                        num >= 1,
                        pow2(a) >= pow2(5000),
                        d < pow2(64),
                        n < d * pow2(53 + k),
                        pow2(64) * pow2(53 + k) == pow2(64 + 53 + k),
                        pow2(64 + 53 + k) < pow2(5000),
                ;
            }
            assert(k * HIDDEN_BIT >= 2047 * HIDDEN_BIT) by (nonlinear_arith)
                requires
                    k >= 2047,
            ;
        }
        return INFINITY_BITS;
    }
    if exp < -5000 {
        proof {
            // the ratio is below 2^128 / 2^5000, far below half the smallest magnitude
            lemma_pow2_strictly_increases(129, 5000);
            if b > 5000 {
                lemma_pow2_strictly_increases(5000, b);
            }
            assert(n == num) by (nonlinear_arith)
                requires
                    n == num as nat * pow2(a),
                    pow2(a) == 1,
            ;
            lemma_pow2_unfold(129);
            assert(2 * n < d && n < d * pow2(53)) by (nonlinear_arith)
                requires
                    n < pow2(128),
                    d == den as nat * pow2(b),
                    den >= 1,
                    pow2(b) >= pow2(5000),
                    pow2(5000) > 2 * pow2(128),
                    pow2(53) >= 1,
            ;
            lemma_binade_is(n, d, 0);
            assert(d * pow2(0) == d);
            lemma_small_mod(n, d);
            lemma_basic_div(n as int, d as int);
        }
        return 0;
    }
    // shift the numerator to the top of the machine number, then divide
    let digits = bit_length(num);
    let s: u32 = 128 - digits;
    let ps = power_of_two(s);
    proof {
        lemma_pow2_pos(s as nat);
        lemma_pow2_adds((digits - 1) as nat, s as nat);
        lemma_pow2_adds(digits as nat, s as nat);
        assert(pow2(127) <= num * ps < pow2(128)) by (nonlinear_arith)
            requires
                pow2((digits - 1) as nat) <= num < pow2(digits as nat),
                pow2((digits - 1) as nat) * ps == pow2(127),
                pow2(digits as nat) * ps == pow2(128),
                ps > 0,
        ;
    }
    let shifted: u128 = num * ps;
    let q: u128 = shifted / (den as u128);
    let r: u128 = shifted % (den as u128);
    let bl = bit_length(q);
    proof {
        lemma_fundamental_div_mod(shifted as int, den as int);
        assert(shifted == q * den + r) by (nonlinear_arith)
            requires
                shifted == den * q + r,
        ;
        // q is at least 2^63
        lemma_pow2_adds(63, 64);
        assert(q >= pow2(63)) by {
            assert(pow2(63) * den <= shifted) by (nonlinear_arith)
                requires
                    pow2(63) * pow2(64) <= shifted,
                    den < pow2(64),
            ;
            lemma_div_is_ordered((pow2(63) * den) as int, shifted as int, den as int);
            lemma_div_multiples_vanish(pow2(63) as int, den as int);
            assert(pow2(63) * den == den * pow2(63)) by (nonlinear_arith);
        }
        if bl <= 63 {
            if bl < 63 {
                lemma_pow2_strictly_increases(bl as nat, 63);
            }
        }
    }
    let e1: i32 = exp - s as i32;
    let k: i32 = if bl as i32 + e1 - 53 > 0 {
        bl as i32 + e1 - 53
    } else {
        0
    };
    let t: i32 = k - e1;
    proof {
        lemma_round_shifted(
            n,
            d,
            num as nat,
            den as nat,
            a,
            b,
            s as nat,
            k as nat,
            t as nat,
            q as nat,
            r as nat,
            bl as nat,
        );
    }
    if k >= 2047 {
        proof {
            assert(k * HIDDEN_BIT >= 2047 * HIDDEN_BIT) by (nonlinear_arith)
                requires
                    k >= 2047,
            ;
        }
        return INFINITY_BITS;
    }
    if t >= 129 {
        proof {
            let y1 = den as nat * pow2(t as nat);
            let n1 = q as nat * den as nat + r as nat;
            if t > 129 {
                lemma_pow2_strictly_increases(129, t as nat);
            }
            lemma_pow2_unfold(129);
            assert(2 * n1 < y1) by (nonlinear_arith)
                requires
                    n1 == q as nat * den as nat + r as nat,
                    r < den,
                    q < pow2(128),
                    y1 == den as nat * pow2(t as nat),
                    pow2(t as nat) >= 2 * pow2(128),
            ;
            lemma_small_mod(n1, y1);
            lemma_basic_div(n1 as int, y1 as int);
        }
        return 0;
    }
    let ghost half_spec: nat = pow2((t - 1) as nat);
    proof {
        lemma_pow2_unfold(t as nat);
        lemma_pow2_pos((t - 1) as nat);
        lemma_round_parts(q as nat, r as nat, den as nat, half_spec);
        if t == 128 {
            lemma_small_mod(q as nat, pow2(128));
            lemma_basic_div(q as int, pow2(128) as int);
        }
        // the upper part is a significand
        if bl < t + 53 {
            lemma_pow2_strictly_increases(bl as nat, (t + 53) as nat);
        }
        lemma_pow2_adds(t as nat, 53);
        lemma_multiply_divide_lt(q as int, pow2(t as nat) as int, pow2(53) as int);
    }
    let hi: u128;
    let lo: u128;
    let half: u128;
    if t == 128 {
        hi = 0;
        lo = q;
        half = 0x8000_0000_0000_0000_0000_0000_0000_0000;
    } else {
        let p = power_of_two(t as u32);
        hi = q / p;
        lo = q % p;
        half = p / 2;
    }
    let up = lo > half || (lo == half && (r != 0 || hi % 2 == 1));
    let m: u128 = if up {
        hi + 1
    } else {
        hi
    };
    assert(m == round_half_even(n, d * pow2(k as nat)));
    proof {
        assert(k * HIDDEN_BIT <= 2046 * HIDDEN_BIT) by (nonlinear_arith)
            requires
                0 <= k <= 2046,
        ;
    }
    let bits: u128 = (k as u128) * (HIDDEN_BIT as u128) + m;
    if bits >= INFINITY_BITS as u128 {
        INFINITY_BITS
    } else {
        bits as u64
    }
}

} // verus!
