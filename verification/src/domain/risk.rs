use crate::binary64::{magnitude_of, whole, Binary64, HIDDEN_BIT};
use vstd::arithmetic::mul::*;
use vstd::arithmetic::power2::*;
use vstd::prelude::*;

verus! {

/// The tier of an impact risk, from the least to the most severe.
#[derive(Debug, Clone, Copy, PartialEq, Eq, PartialOrd, Ord, Structural)]
pub enum RiskLevel {
    Low,
    Medium,
    High,
    Critical,
}

impl RiskLevel {
    /// The place of the tier in the order `Low < Medium < High < Critical`.
    pub open spec fn severity(self) -> nat {
        match self {
            RiskLevel::Low => 0,
            RiskLevel::Medium => 1,
            RiskLevel::High => 2,
            RiskLevel::Critical => 3,
        }
    }
}

impl Default for RiskLevel {
    fn default() -> (r: RiskLevel)
        ensures
            r == RiskLevel::Low,
    {
        RiskLevel::Low
    }
}

/// The encoding of the score 25, where `Medium` begins.
pub const MEDIUM_FROM_BITS: u64 = 0x4039_0000_0000_0000;

/// The encoding of the score 50, where `High` begins.
pub const HIGH_FROM_BITS: u64 = 0x4049_0000_0000_0000;

/// The encoding of the score 75, where `Critical` begins.
pub const CRITICAL_FROM_BITS: u64 = 0x4052_c000_0000_0000;

/// The encoding of the score 100, the highest there is.
pub const FULL_SCORE_BITS: u64 = 0x4059_0000_0000_0000;

/// A normal encoding whose significand is `n * 2^j` stands for the whole
/// number `n` when its scale and `j` add up to 1074.
proof fn lemma_encodes_whole(m: nat, n: nat, j: nat)
    requires
        m / (HIDDEN_BIT as nat) >= 1,
        HIDDEN_BIT + m % (HIDDEN_BIT as nat) == n * pow2(j),
        m / (HIDDEN_BIT as nat) - 1 + j == 1074,
    ensures
        magnitude_of(m) == whole(n),
{
    let s = (m / (HIDDEN_BIT as nat) - 1) as nat;
    lemma_pow2_adds(j, s);
    lemma_mul_is_associative(n as int, pow2(j) as int, pow2(s) as int);
}

/// The four score constants stand for 25, 50, 75 and 100.
pub proof fn lemma_score_constants()
    ensures
        Binary64::from_bits(MEDIUM_FROM_BITS).value() == whole(25),
        Binary64::from_bits(HIGH_FROM_BITS).value() == whole(50),
        Binary64::from_bits(CRITICAL_FROM_BITS).value() == whole(75),
        Binary64::from_bits(FULL_SCORE_BITS).value() == whole(100),
        Binary64::zero().value() == 0,
{
    lemma2_to64();
    lemma2_to64_rest();
    lemma_encodes_whole(MEDIUM_FROM_BITS as nat, 25, 48);
    lemma_encodes_whole(HIGH_FROM_BITS as nat, 50, 47);
    lemma_encodes_whole(CRITICAL_FROM_BITS as nat, 75, 46);
    lemma_encodes_whole(FULL_SCORE_BITS as nat, 100, 46);
    crate::binary64::lemma_magnitude_zero(0);
}

/// The tier of a score: `Critical` on [75, 100], `High` on [50, 75), `Medium`
/// on [25, 50), `Low` on [0, 25). A score outside [0, 100], and a NaN, has no
/// tier of its own and gets `Low`.
pub open spec fn classify(score: Binary64) -> RiskLevel {
    let v = score.value();
    if score.is_nan() {
        RiskLevel::Low
    } else if whole(75) <= v <= whole(100) {
        RiskLevel::Critical
    } else if whole(50) <= v < whole(75) {
        RiskLevel::High
    } else if whole(25) <= v < whole(50) {
        RiskLevel::Medium
    } else {
        RiskLevel::Low
    }
}

/// A raw score brought into [0, 100]: a score below zero becomes zero, one
/// above 100 becomes 100, and any other, a NaN too, stays as it is.
pub open spec fn clamp(raw: Binary64) -> Binary64 {
    if raw.lt(Binary64::zero()) {
        Binary64::zero()
    } else if Binary64::from_bits(FULL_SCORE_BITS).lt(raw) {
        Binary64::from_bits(FULL_SCORE_BITS)
    } else {
        raw
    }
}

/// Decides [`clamp`].
pub fn clamp_score(raw: Binary64) -> (r: Binary64)
    ensures
        r == clamp(raw),
        !raw.is_nan() ==> !r.is_nan() && 0 <= r.value() <= whole(100),
        raw.is_nan() ==> r == raw,
{
    proof {
        lemma_score_constants();
    }
    let full = Binary64::from_bits(FULL_SCORE_BITS);
    if raw.lt(Binary64::zero()) {
        Binary64::zero()
    } else if full.lt(raw) {
        full
    } else {
        raw
    }
}

/// Clamps a raw score and classifies what is left.
pub fn assess(raw: Binary64) -> (r: (Binary64, RiskLevel))
    ensures
        r.0 == clamp(raw),
        r.1 == classify(r.0),
        !raw.is_nan() ==> !r.0.is_nan() && 0 <= r.0.value() <= whole(100),
{
    let score = clamp_score(raw);
    (score, RiskResult::compute_risk_level(score))
}

/// The assessment of one asteroid.
#[derive(Debug, Clone)]
pub struct RiskResult {
    pub asteroid_id: String,
    pub asteroid_name: String,
    pub impact_energy_joules: Binary64,
    pub impact_energy_megatons: Binary64,
    pub risk_level: RiskLevel,
    pub risk_score_0_to_100: Binary64,
    pub is_potentially_hazardous: bool,
    pub miss_distance_km: Binary64,
    pub velocity_kps: Binary64,
    pub diameter_km: Binary64,
}

/// What a [`RiskResult`] holds, each text as its sequence of characters.
pub ghost struct RiskResultView {
    pub asteroid_id: Seq<char>,
    pub asteroid_name: Seq<char>,
    pub impact_energy_joules: Binary64,
    pub impact_energy_megatons: Binary64,
    pub risk_level: RiskLevel,
    pub risk_score_0_to_100: Binary64,
    pub is_potentially_hazardous: bool,
    pub miss_distance_km: Binary64,
    pub velocity_kps: Binary64,
    pub diameter_km: Binary64,
}

impl RiskResultView {
    /// The tier is the one that the score has: the two never disagree.
    pub open spec fn well_formed(self) -> bool {
        &&& self.risk_level == classify(self.risk_score_0_to_100)
        &&& self.risk_score_0_to_100 == clamp(self.risk_score_0_to_100)
    }
}

impl View for RiskResult {
    type V = RiskResultView;

    open spec fn view(&self) -> RiskResultView {
        RiskResultView {
            asteroid_id: self.asteroid_id@,
            asteroid_name: self.asteroid_name@,
            impact_energy_joules: self.impact_energy_joules,
            impact_energy_megatons: self.impact_energy_megatons,
            risk_level: self.risk_level,
            risk_score_0_to_100: self.risk_score_0_to_100,
            is_potentially_hazardous: self.is_potentially_hazardous,
            miss_distance_km: self.miss_distance_km,
            velocity_kps: self.velocity_kps,
            diameter_km: self.diameter_km,
        }
    }
}

impl RiskResult {
    /// Builds the result from a raw score: the score is clamped into [0, 100]
    /// and classified, everything else is passed through.
    pub fn new(
        asteroid_id: String,
        asteroid_name: String,
        impact_energy_joules: Binary64,
        impact_energy_megatons: Binary64,
        risk_score: Binary64,
        is_potentially_hazardous: bool,
        miss_distance_km: Binary64,
        velocity_kps: Binary64,
        diameter_km: Binary64,
    ) -> (r: RiskResult)
        ensures
            r@ == (RiskResultView {
                asteroid_id: asteroid_id@,
                asteroid_name: asteroid_name@,
                impact_energy_joules,
                impact_energy_megatons,
                risk_level: classify(clamp(risk_score)),
                risk_score_0_to_100: clamp(risk_score),
                is_potentially_hazardous,
                miss_distance_km,
                velocity_kps,
                diameter_km,
            }),
            r@.well_formed(),
            !risk_score.is_nan() ==> !r.risk_score_0_to_100.is_nan() && 0
                <= r.risk_score_0_to_100.value() <= whole(100),
    {
        let (score, level) = assess(risk_score);
        proof {
            lemma_score_constants();
        }
        RiskResult {
            asteroid_id,
            asteroid_name,
            impact_energy_joules,
            impact_energy_megatons,
            risk_level: level,
            risk_score_0_to_100: score,
            is_potentially_hazardous,
            miss_distance_km,
            velocity_kps,
            diameter_km,
        }
    }

    /// Decides [`classify`].
    pub fn compute_risk_level(score: Binary64) -> (level: RiskLevel)
        ensures
            level == classify(score),
    {
        proof {
            lemma_score_constants();
        }
        let full = Binary64::from_bits(FULL_SCORE_BITS);
        if Binary64::from_bits(CRITICAL_FROM_BITS).le(score) && score.le(full) {
            RiskLevel::Critical
        } else if Binary64::from_bits(HIGH_FROM_BITS).le(score) && score.le(full) {
            RiskLevel::High
        } else if Binary64::from_bits(MEDIUM_FROM_BITS).le(score) && score.le(full) {
            RiskLevel::Medium
        } else {
            RiskLevel::Low
        }
    }
}

/// The bounds of a tier on the scale from 0 to 100.
pub open spec fn in_tier(level: RiskLevel, score: Binary64) -> bool {
    let v = score.value();
    !score.is_nan() && match level {
        RiskLevel::Critical => whole(75) <= v <= whole(100),
        RiskLevel::High => whole(50) <= v < whole(75),
        RiskLevel::Medium => whole(25) <= v < whole(50),
        RiskLevel::Low => 0 <= v < whole(25),
    }
}

/// A raw score that is a number is clamped into [0, 100], and the clamped
/// score lies in one tier only, the one that the classification gives.
pub proof fn lemma_clamp_law(raw: Binary64, level: RiskLevel)
    requires
        !raw.is_nan(),
    ensures
        !clamp(raw).is_nan(),
        0 <= clamp(raw).value() <= whole(100),
        in_tier(level, clamp(raw)) <==> classify(clamp(raw)) == level,
{
    lemma_score_constants();
    lemma_pow2_pos(1074);
    let u = crate::binary64::unit() as int;
    assert(whole(25) == 25 * u && whole(50) == 50 * u && whole(75) == 75 * u && whole(100) == 100
        * u);
}

/// The tier rises with the score: on the scale from 0 to 100 the larger of
/// two scores does not have the lower tier.
pub proof fn lemma_tier_rises(s1: Binary64, s2: Binary64)
    requires
        Binary64::zero().le(s1),
        s1.le(s2),
        s2.le(Binary64::from_bits(FULL_SCORE_BITS)),
    ensures
        classify(s1).severity() <= classify(s2).severity(),
{
    lemma_score_constants();
}

} // verus!
