//! The physics of an impact: volume, mass, kinetic energy, its TNT
//! equivalent, and a raw risk score read off the energy.
//!
//! Every function is a fixed chain of binary64 operations, each rounded to
//! nearest, so its result is one encoding for each input.
use crate::arithmetic::{lemma_times_keeps_nan, lemma_times_monotonic, lemma_times_sign};
use crate::binary64::{
    lemma_magnitude_increases, lemma_magnitude_zero, lemma_order_of_encodings, Binary64,
    magnitude_of, unit, whole, HIDDEN_BIT, QUIET_NAN_BITS, SIGN_BIT,
};
use crate::domain::risk::{
    clamp, classify, lemma_score_constants, RiskLevel, FULL_SCORE_BITS,
};
use crate::rounding::{
    lemma_nearest_monotonic, lemma_nearest_proportional, lemma_whole_is_exact, nearest_encoding,
    round_scaled_ratio,
};
use vstd::math::abs;
use vstd::arithmetic::mul::*;
use vstd::arithmetic::power2::*;
use vstd::prelude::*;

verus! {

/// The composition of an asteroid, which fixes its bulk density.
#[derive(Debug, Clone, Copy, PartialEq, Eq, Structural)]
pub enum AsteroidDensity {
    /// Carbonaceous.
    CType,
    /// Stony.
    SType,
    /// Metallic.
    MType,
}

impl Default for AsteroidDensity {
    fn default() -> (r: AsteroidDensity)
        ensures
            r == AsteroidDensity::SType,
    {
        AsteroidDensity::SType
    }
}

impl AsteroidDensity {
    /// The bulk density in kilograms per cubic metre, a whole number.
    pub open spec fn spec_kg_per_m3(self) -> u64 {
        match self {
            AsteroidDensity::CType => 1380,
            AsteroidDensity::SType => 3000,
            AsteroidDensity::MType => 5320,
        }
    }

    /// The bulk density in kilograms per cubic metre, a whole number.
    #[verifier::when_used_as_spec(spec_kg_per_m3)]
    pub fn kg_per_m3(self) -> (r: u64)
        ensures
            r == self.spec_kg_per_m3(),
    {
        match self {
            AsteroidDensity::CType => 1380,
            AsteroidDensity::SType => 3000,
            AsteroidDensity::MType => 5320,
        }
    }
}

/// The encoding of the binary64 number nearest to pi.
pub const PI_BITS: u64 = 0x4009_21fb_5444_2d18;

/// The joules in one megaton of TNT, `4.184 * 10^15`.
pub const JOULES_PER_MEGATON: u64 = 4_184_000_000_000_000;

/// The energy `2^16` J, whose raw score is zero, as the exponent field that
/// encodes it.
pub const ZERO_SCORE_FIELD: u64 = 1039;

/// The encoding of the energy `2^16` J, some 65 kJ, where the scale begins.
pub const ZERO_SCORE_JOULES_BITS: u64 = 0x40f0_0000_0000_0000;

/// The encoding of the energy `2^76` J, some `7.6 * 10^22` J, where the scale ends.
pub const FULL_SCORE_JOULES_BITS: u64 = 0x44b0_0000_0000_0000;

/// The volume in cubic metres of a sphere of the given diameter in
/// kilometres: `(4 / 3 * pi) * r^3` with the radius `r = d * 500` in metres.
#[verifier::opaque]
pub open spec fn volume(diameter_km: Binary64) -> Binary64 {
    let r = diameter_km.times(Binary64::from_u64(500));
    Binary64::from_u64(4).over(Binary64::from_u64(3)).times(Binary64::from_bits(PI_BITS)).times(
        r.times(r).times(r),
    )
}

/// The mass in kilograms of a volume in cubic metres.
#[verifier::opaque]
pub open spec fn mass(volume_m3: Binary64, class: AsteroidDensity) -> Binary64 {
    volume_m3.times(Binary64::from_u64(class.kg_per_m3()))
}

/// The kinetic energy in joules: `(1 / 2 * m) * v^2` with the velocity
/// `v = velocity_kps * 1000` in metres per second.
#[verifier::opaque]
pub open spec fn kinetic_energy(mass_kg: Binary64, velocity_kps: Binary64) -> Binary64 {
    let v = velocity_kps.times(Binary64::from_u64(1000));
    Binary64::from_u64(1).over(Binary64::from_u64(2)).times(mass_kg).times(v.times(v))
}

/// An energy in megatons of TNT.
#[verifier::opaque]
pub open spec fn megatons(joules: Binary64) -> Binary64 {
    joules.over(Binary64::from_u64(JOULES_PER_MEGATON))
}

/// The binary logarithm of an energy as its encoding shows it, in units of
/// `2^-52` and counted from `2^16` J: with the energy `2^x * (1 + f)`,
/// `0 <= f < 1`, this is `(x + f - 16) * 2^52`. It is exact at the powers of
/// two and runs straight between them. An energy below zero reads as zero.
pub open spec fn log2_reading(joules: Binary64) -> int {
    if joules.is_sign_negative() {
        -(ZERO_SCORE_FIELD * HIDDEN_BIT)
    } else {
        joules.magnitude_bits() - ZERO_SCORE_FIELD * HIDDEN_BIT
    }
}

/// The raw risk score of an energy: five thirds of a point for each
/// doubling, from zero at `2^16` J over 50 at `2^46` J (some `10^14` J) to
/// 100 at `2^76` J (some `10^23` J), rounded to nearest. It is not clamped.
/// The score of a NaN is a NaN.
#[verifier::opaque]
pub open spec fn risk_score(joules: Binary64) -> Binary64 {
    if joules.is_nan() {
        Binary64 { bits: QUIET_NAN_BITS }
    } else {
        let reading = log2_reading(joules);
        Binary64::spec_with_sign(
            reading < 0,
            nearest_encoding(
                (5 * abs(reading) * unit()) as nat,
                3 * (HIDDEN_BIT as nat),
            ) as u64,
        )
    }
}

/// The functions of the impact physics.
pub struct ImpactPhysics;

impl ImpactPhysics {
    /// See [`volume`].
    pub fn volume_from_diameter_km(diameter_km: Binary64) -> (r: Binary64)
        ensures
            r == volume(diameter_km),
    {
        reveal(volume);
        let radius_m = diameter_km.times(Binary64::from_u64(500));
        let four_thirds_pi = Binary64::from_u64(4).over(Binary64::from_u64(3)).times(
            Binary64::from_bits(PI_BITS),
        );
        four_thirds_pi.times(radius_m.times(radius_m).times(radius_m))
    }

    /// See [`mass`].
    pub fn mass_from_volume(volume_m3: Binary64, class: AsteroidDensity) -> (r: Binary64)
        ensures
            r == mass(volume_m3, class),
    {
        reveal(mass);
        volume_m3.times(Binary64::from_u64(class.kg_per_m3()))
    }

    /// See [`kinetic_energy`].
    pub fn kinetic_energy_joules(mass_kg: Binary64, velocity_kps: Binary64) -> (r: Binary64)
        ensures
            r == kinetic_energy(mass_kg, velocity_kps),
    {
        reveal(kinetic_energy);
        let v = velocity_kps.times(Binary64::from_u64(1000));
        let half = Binary64::from_u64(1).over(Binary64::from_u64(2));
        half.times(mass_kg).times(v.times(v))
    }

    /// See [`megatons`].
    pub fn joules_to_megatons(joules: Binary64) -> (r: Binary64)
        ensures
            r == megatons(joules),
    {
        reveal(megatons);
        joules.over(Binary64::from_u64(JOULES_PER_MEGATON))
    }

    /// See [`risk_score`].
    pub fn risk_score_from_energy(joules: Binary64) -> (r: Binary64)
        ensures
            r == risk_score(joules),
            r.is_nan() == joules.is_nan(),
    {
        reveal(risk_score);
        if joules.is_nan() {
            return Binary64::from_bits(QUIET_NAN_BITS);
        }
        let origin: u64 = ZERO_SCORE_FIELD * HIDDEN_BIT;
        let m: u64 = if joules.is_sign_negative() {
            0
        } else {
            joules.to_bits() % SIGN_BIT
        };
        let below = m < origin;
        let distance: u64 = if below {
            origin - m
        } else {
            m - origin
        };
        let bits = round_scaled_ratio(5 * (distance as u128), 3, 1022);
        proof {
            lemma2_to64_rest();
            lemma_pow2_adds(1022, 52);
            lemma_mul_basics(3);
            assert((5 * distance * pow2(1022)) * (3 * (HIDDEN_BIT as nat)) == (5 * distance * pow2(
                1074,
            )) * (3 * 1)) by (nonlinear_arith)
                requires
                    pow2(1022) * (HIDDEN_BIT as nat) == pow2(1074),
            ;
            lemma_nearest_proportional(
                (5 * distance) as nat * pow2(1022),
                3 * 1,
                (5 * distance * pow2(1074)) as nat,
                3 * (HIDDEN_BIT as nat),
            );
        }
        Binary64::with_sign(below, bits)
    }
}

/// The impact energy in joules of a sphere of the given diameter, class and
/// velocity.
pub open spec fn energy(diameter_km: Binary64, velocity_kps: Binary64, class: AsteroidDensity)
    -> Binary64 {
    kinetic_energy(mass(volume(diameter_km), class), velocity_kps)
}

/// A whole number converts to a number of positive sign that is no NaN.
proof fn lemma_whole_is_positive(n: u64)
    ensures
        !Binary64::from_u64(n).is_sign_negative(),
        !Binary64::from_u64(n).is_nan(),
{
}

/// The volume keeps the sign of the diameter and the order of magnitudes.
proof fn lemma_volume_monotonic(d1: Binary64, d2: Binary64)
    requires
        !volume(d1).is_nan(),
        !volume(d2).is_nan(),
        d1.magnitude_bits() <= d2.magnitude_bits(),
    ensures
        volume(d1).magnitude_bits() <= volume(d2).magnitude_bits(),
        volume(d1).is_sign_negative() == d1.is_sign_negative(),
        volume(d2).is_sign_negative() == d2.is_sign_negative(),
{
    reveal(volume);
    let c = Binary64::from_u64(500);
    let k = Binary64::from_u64(4).over(Binary64::from_u64(3)).times(Binary64::from_bits(PI_BITS));
    let (r1, r2) = (d1.times(c), d2.times(c));
    let (s1, s2) = (r1.times(r1), r2.times(r2));
    let (c1, c2) = (s1.times(r1), s2.times(r2));
    lemma_whole_is_positive(500);
    lemma_whole_is_positive(4);
    lemma_whole_is_positive(3);
    lemma_times_keeps_nan(k, c1);
    lemma_times_keeps_nan(k, c2);
    lemma_times_keeps_nan(s1, r1);
    lemma_times_keeps_nan(s2, r2);
    lemma_times_keeps_nan(r1, r1);
    lemma_times_keeps_nan(r2, r2);
    lemma_times_monotonic(d1, c, d2, c);
    lemma_times_monotonic(r1, r1, r2, r2);
    lemma_times_monotonic(s1, r1, s2, r2);
    lemma_times_monotonic(k, c1, k, c2);
    lemma_times_sign(d1, c);
    lemma_times_sign(d2, c);
    lemma_times_sign(r1, r1);
    lemma_times_sign(r2, r2);
    lemma_times_sign(s1, r1);
    lemma_times_sign(s2, r2);
    lemma_times_sign(k, c1);
    lemma_times_sign(k, c2);
    lemma_times_sign(Binary64::from_u64(4).over(Binary64::from_u64(3)), Binary64::from_bits(PI_BITS));
}

/// The energy keeps the sign of the volume and the order of magnitudes, in
/// the volume and in the velocity.
proof fn lemma_energy_monotonic(
    v1: Binary64,
    v2: Binary64,
    u1: Binary64,
    u2: Binary64,
    class: AsteroidDensity,
)
    requires
        !kinetic_energy(mass(v1, class), u1).is_nan(),
        !kinetic_energy(mass(v2, class), u2).is_nan(),
        v1.magnitude_bits() <= v2.magnitude_bits(),
        u1.magnitude_bits() <= u2.magnitude_bits(),
    ensures
        kinetic_energy(mass(v1, class), u1).magnitude_bits() <= kinetic_energy(
            mass(v2, class),
            u2,
        ).magnitude_bits(),
        kinetic_energy(mass(v1, class), u1).is_sign_negative() == v1.is_sign_negative(),
        kinetic_energy(mass(v2, class), u2).is_sign_negative() == v2.is_sign_negative(),
{
    reveal(mass);
    reveal(kinetic_energy);
    let rho = Binary64::from_u64(class.kg_per_m3());
    let k = Binary64::from_u64(1000);
    let half = Binary64::from_u64(1).over(Binary64::from_u64(2));
    let (m1, m2) = (v1.times(rho), v2.times(rho));
    let (w1, w2) = (u1.times(k), u2.times(k));
    let (h1, h2) = (half.times(m1), half.times(m2));
    let (q1, q2) = (w1.times(w1), w2.times(w2));
    lemma_whole_is_positive(class.kg_per_m3());
    lemma_whole_is_positive(1000);
    lemma_whole_is_positive(1);
    lemma_whole_is_positive(2);
    lemma_times_keeps_nan(h1, q1);
    lemma_times_keeps_nan(h2, q2);
    lemma_times_keeps_nan(half, m1);
    lemma_times_keeps_nan(half, m2);
    lemma_times_keeps_nan(w1, w1);
    lemma_times_keeps_nan(w2, w2);
    lemma_times_keeps_nan(v1, rho);
    lemma_times_keeps_nan(v2, rho);
    lemma_times_keeps_nan(u1, k);
    lemma_times_keeps_nan(u2, k);
    lemma_times_monotonic(v1, rho, v2, rho);
    lemma_times_monotonic(u1, k, u2, k);
    lemma_times_monotonic(half, m1, half, m2);
    lemma_times_monotonic(w1, w1, w2, w2);
    lemma_times_monotonic(h1, q1, h2, q2);
    lemma_times_sign(v1, rho);
    lemma_times_sign(v2, rho);
    lemma_times_sign(half, m1);
    lemma_times_sign(half, m2);
    lemma_times_sign(w1, w1);
    lemma_times_sign(w2, w2);
    lemma_times_sign(h1, q1);
    lemma_times_sign(h2, q2);
}

/// At one velocity and in one class, the larger of two diameters above zero
/// does not have the smaller energy, where both energies are numbers.
pub proof fn lemma_energy_rises_with_diameter(
    d1: Binary64,
    d2: Binary64,
    velocity_kps: Binary64,
    class: AsteroidDensity,
)
    requires
        Binary64::zero().lt(d1),
        d1.le(d2),
        !energy(d1, velocity_kps, class).is_nan(),
        !energy(d2, velocity_kps, class).is_nan(),
    ensures
        energy(d1, velocity_kps, class).le(energy(d2, velocity_kps, class)),
{
    lemma_magnitude_zero(d1.magnitude_bits());
    lemma_magnitude_zero(d2.magnitude_bits());
    lemma_magnitude_zero(0);
    lemma_order_of_encodings(d1, d2);
    // an energy that is a number comes of a volume that is one
    let (v1, v2) = (volume(d1), volume(d2));
    assert(!v1.is_nan() && !v2.is_nan()) by {
        reveal(mass);
        reveal(kinetic_energy);
        let rho = Binary64::from_u64(class.kg_per_m3());
        let half = Binary64::from_u64(1).over(Binary64::from_u64(2));
        let w = velocity_kps.times(Binary64::from_u64(1000));
        lemma_times_keeps_nan(half.times(v1.times(rho)), w.times(w));
        lemma_times_keeps_nan(half.times(v2.times(rho)), w.times(w));
        lemma_times_keeps_nan(half, v1.times(rho));
        lemma_times_keeps_nan(half, v2.times(rho));
        lemma_times_keeps_nan(v1, rho);
        lemma_times_keeps_nan(v2, rho);
    }
    lemma_volume_monotonic(d1, d2);
    lemma_energy_monotonic(v1, v2, velocity_kps, velocity_kps, class);
    lemma_order_of_encodings(
        energy(d1, velocity_kps, class),
        energy(d2, velocity_kps, class),
    );
}

/// At one diameter above zero and in one class, the larger of two
/// velocities that are not below zero does not have the smaller energy,
/// where both energies are numbers.
pub proof fn lemma_energy_rises_with_velocity(
    diameter_km: Binary64,
    u1: Binary64,
    u2: Binary64,
    class: AsteroidDensity,
)
    requires
        Binary64::zero().lt(diameter_km),
        Binary64::zero().le(u1),
        u1.le(u2),
        !energy(diameter_km, u1, class).is_nan(),
        !energy(diameter_km, u2, class).is_nan(),
    ensures
        energy(diameter_km, u1, class).le(energy(diameter_km, u2, class)),
{
    lemma_magnitude_zero(diameter_km.magnitude_bits());
    lemma_magnitude_zero(u1.magnitude_bits());
    lemma_magnitude_zero(u2.magnitude_bits());
    lemma_magnitude_zero(0);
    if u2.magnitude_bits() < u1.magnitude_bits() {
        lemma_magnitude_increases(u2.magnitude_bits(), u1.magnitude_bits());
    }
    let v = volume(diameter_km);
    assert(!v.is_nan()) by {
        reveal(mass);
        reveal(kinetic_energy);
        let rho = Binary64::from_u64(class.kg_per_m3());
        let half = Binary64::from_u64(1).over(Binary64::from_u64(2));
        let w = u1.times(Binary64::from_u64(1000));
        lemma_times_keeps_nan(half.times(v.times(rho)), w.times(w));
        lemma_times_keeps_nan(half, v.times(rho));
        lemma_times_keeps_nan(v, rho);
    }
    lemma_volume_monotonic(diameter_km, diameter_km);
    lemma_energy_monotonic(v, v, u1, u2, class);
    lemma_order_of_encodings(energy(diameter_km, u1, class), energy(diameter_km, u2, class));
}

/// The raw score rises with the energy: of two energies, the larger does
/// not have the smaller score.
pub proof fn lemma_risk_score_rises(e1: Binary64, e2: Binary64)
    requires
        e1.le(e2),
    ensures
        risk_score(e1).le(risk_score(e2)),
{
    reveal(risk_score);
    let (r1, r2) = (log2_reading(e1), log2_reading(e2));
    let (s1, s2) = (risk_score(e1), risk_score(e2));
    let d = 3 * (HIDDEN_BIT as nat);
    let (n1, n2) = (
        (5 * abs(r1) * unit()) as nat,
        (5 * abs(r2) * unit()) as nat,
    );
    let (b1, b2) = (nearest_encoding(n1, d), nearest_encoding(n2, d));
    assert(r1 <= r2) by {
        lemma_magnitude_zero(e1.magnitude_bits());
        lemma_magnitude_zero(e2.magnitude_bits());
        if !e1.is_sign_negative() && !e2.is_sign_negative() {
            lemma_order_of_encodings(e1, e2);
        }
    }
    assert(s1 == Binary64::spec_with_sign(r1 < 0, b1 as u64));
    assert(s2 == Binary64::spec_with_sign(r2 < 0, b2 as u64));
    assert(s1.magnitude_bits() == b1 && s2.magnitude_bits() == b2);
    lemma_pow2_pos(1074);
    if r1 >= 0 {
        assert(n1 <= n2) by (nonlinear_arith)
            requires
                n1 == 5 * r1 * unit(),
                n2 == 5 * r2 * unit(),
                0 <= r1 <= r2,
        ;
        lemma_nearest_monotonic(n1, n2, d);
        lemma_order_of_encodings(s1, s2);
    } else if r2 < 0 {
        assert(n2 <= n1) by (nonlinear_arith)
            requires
                n1 == 5 * (-r1) * unit(),
                n2 == 5 * (-r2) * unit(),
                r1 <= r2 < 0,
        ;
        lemma_nearest_monotonic(n2, n1, d);
        if b2 < b1 {
            lemma_magnitude_increases(b2, b1);
        }
    }
}

/// The raw score of the energy `2^(16 + 3 * j)` J is the whole number `5 * j`.
pub proof fn lemma_score_of_power(j: nat)
    requires
        j <= 300,
    ensures
        ({
            let e = Binary64::from_bits(((ZERO_SCORE_FIELD + 3 * j) * HIDDEN_BIT) as u64);
            &&& !risk_score(e).is_nan()
            &&& !risk_score(e).is_sign_negative()
            &&& risk_score(e).value() == whole(5 * j)
        }),
{
    reveal(risk_score);
    let h = HIDDEN_BIT as nat;
    let e = Binary64::from_bits(((ZERO_SCORE_FIELD + 3 * j) * HIDDEN_BIT) as u64);
    let f = ZERO_SCORE_FIELD as nat;
    assert((f + 3 * j) * h == f * h + (3 * j) * h) by (nonlinear_arith);
    assert((3 * j) * h <= 900 * h) by (nonlinear_arith)
        requires
            j <= 300,
    ;
    let reading = log2_reading(e);
    assert(reading == (3 * j) * h);
    let n = (5 * abs(reading) * unit()) as nat;
    assert(n * 1 == ((5 * j) * unit()) * (3 * h)) by (nonlinear_arith)
        requires
            n == 5 * ((3 * j) * h) * unit(),
    ;
    lemma_pow2_pos(1074);
    lemma_nearest_proportional(n, 3 * h, (5 * j) * unit(), 1);
    lemma2_to64_rest();
    lemma_whole_is_exact(5 * j);
}

/// The two ends of the scale: an energy of `2^16` J or less has the clamped
/// score zero and the tier `Low`; an energy of `2^76` J or more has the
/// clamped score 100 and the tier `Critical`.
pub proof fn lemma_score_anchors(joules: Binary64)
    ensures
        joules.le(Binary64::from_bits(ZERO_SCORE_JOULES_BITS)) ==> clamp(risk_score(joules)).value()
            == 0 && classify(clamp(risk_score(joules))) == RiskLevel::Low,
        Binary64::from_bits(FULL_SCORE_JOULES_BITS).le(joules) ==> clamp(risk_score(joules))
            == Binary64::from_bits(FULL_SCORE_BITS) && classify(clamp(risk_score(joules)))
            == RiskLevel::Critical,
{
    lemma_score_constants();
    lemma_pow2_pos(1074);
    let u = unit() as int;
    assert(whole(0) == 0 && whole(25) == 25 * u && whole(75) == 75 * u && whole(100) == 100 * u);
    let low = Binary64::from_bits(ZERO_SCORE_JOULES_BITS);
    let top = Binary64::from_bits(FULL_SCORE_JOULES_BITS);
    assert(ZERO_SCORE_JOULES_BITS == (ZERO_SCORE_FIELD + 3 * 0) * HIDDEN_BIT);
    assert(FULL_SCORE_JOULES_BITS == (ZERO_SCORE_FIELD + 3 * 20) * HIDDEN_BIT);
    if joules.le(low) {
        lemma_score_of_power(0);
        lemma_risk_score_rises(joules, low);
    }
    if top.le(joules) {
        lemma_score_of_power(20);
        lemma_risk_score_rises(top, joules);
        let raw = risk_score(joules);
        let full = Binary64::from_bits(FULL_SCORE_BITS);
        if !full.lt(raw) {
            // the score is 100 itself, and 100 has one encoding
            lemma_one_encoding(raw, full);
        }
    }
}

/// Two numbers above zero of one value have one encoding.
proof fn lemma_one_encoding(x: Binary64, y: Binary64)
    requires
        !x.is_nan(),
        !y.is_nan(),
        x.value() == y.value(),
        y.value() > 0,
    ensures
        x == y,
{
    lemma_magnitude_zero(x.magnitude_bits());
    if x.magnitude_bits() < y.magnitude_bits() {
        lemma_magnitude_increases(x.magnitude_bits(), y.magnitude_bits());
    }
    if y.magnitude_bits() < x.magnitude_bits() {
        lemma_magnitude_increases(y.magnitude_bits(), x.magnitude_bits());
    }
}

} // verus!
