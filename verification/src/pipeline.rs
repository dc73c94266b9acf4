//! From a description of an asteroid to its risk assessment.
use crate::binary64::{whole, Binary64};
use crate::domain::asteroid::{validate, Asteroid, AsteroidView};
use crate::domain::error::{DomainError, DomainErrorView};
use crate::domain::risk::{clamp, classify, RiskResult, RiskResultView};
use crate::dto::asteroid_dto::{AsteroidDTO, AsteroidRecord};
use crate::logic::impact_energy::{
    kinetic_energy, mass, megatons, risk_score, volume, AsteroidDensity, ImpactPhysics,
};
use vstd::prelude::*;

verus! {

/// The impact energy in joules of an asteroid of stony composition.
pub open spec fn impact_energy(asteroid: AsteroidView) -> Binary64 {
    kinetic_energy(
        mass(volume(asteroid.diameter_km), AsteroidDensity::SType),
        asteroid.velocity_kps,
    )
}

/// The assessment of a validated asteroid.
pub open spec fn assessment(asteroid: AsteroidView) -> RiskResultView {
    let joules = impact_energy(asteroid);
    let score = clamp(risk_score(joules));
    RiskResultView {
        asteroid_id: asteroid.id,
        asteroid_name: asteroid.name,
        impact_energy_joules: joules,
        impact_energy_megatons: megatons(joules),
        risk_level: classify(score),
        risk_score_0_to_100: score,
        is_potentially_hazardous: asteroid.hazardous,
        miss_distance_km: asteroid.distance_km,
        velocity_kps: asteroid.velocity_kps,
        diameter_km: asteroid.diameter_km,
    }
}

/// The outcome for a description: the error of its validation, or the
/// assessment of the asteroid that it describes.
pub open spec fn outcome(record: AsteroidRecord) -> Result<RiskResultView, DomainErrorView> {
    match validate(record) {
        Ok(asteroid) => Ok(assessment(asteroid)),
        Err(e) => Err(e),
    }
}

/// Assesses a validated asteroid, taken as stony.
pub fn assess_asteroid(asteroid: Asteroid) -> (r: RiskResult)
    ensures
        r@ == assessment(asteroid@),
        r@.well_formed(),
        !impact_energy(asteroid@).is_nan() ==> !r.risk_score_0_to_100.is_nan() && 0
            <= r.risk_score_0_to_100.value() <= whole(100),
{
    let volume_m3 = ImpactPhysics::volume_from_diameter_km(asteroid.diameter_km);
    let mass_kg = ImpactPhysics::mass_from_volume(volume_m3, AsteroidDensity::SType);
    let joules = ImpactPhysics::kinetic_energy_joules(mass_kg, asteroid.velocity_kps);
    let megatons = ImpactPhysics::joules_to_megatons(joules);
    let raw = ImpactPhysics::risk_score_from_energy(joules);
    RiskResult::new(
        asteroid.id,
        asteroid.name,
        joules,
        megatons,
        raw,
        asteroid.hazardous,
        asteroid.distance_km,
        asteroid.velocity_kps,
        asteroid.diameter_km,
    )
}

/// Validates a description and assesses the asteroid that it describes.
pub fn process(dto: AsteroidDTO) -> (r: Result<RiskResult, DomainError>)
    ensures
        match outcome(dto@) {
            Ok(v) => r matches Ok(x) && x@ == v && x@.well_formed(),
            Err(e) => r matches Err(x) && x@ == e,
        },
{
    match Asteroid::try_from(dto) {
        Ok(asteroid) => Ok(assess_asteroid(asteroid)),
        Err(e) => Err(e),
    }
}

/// Two runs on one description end alike: the outcome is a function of the
/// description, so whatever `process` returned for it once, it returns again.
pub proof fn lemma_process_is_deterministic(
    record: AsteroidRecord,
    first: Result<RiskResultView, DomainErrorView>,
    second: Result<RiskResultView, DomainErrorView>,
)
    requires
        first == outcome(record),
        second == outcome(record),
    ensures
        first == second,
{
}

} // verus!
