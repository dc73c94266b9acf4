use crate::binary64::Binary64;
use vstd::prelude::*;

verus! {

/// A near-Earth object as a caller describes it. Nothing is known of its
/// fields: a text may be empty and a number may be negative or a NaN.
#[derive(Debug, Clone)]
pub struct AsteroidDTO {
    pub id: String,
    pub name: String,
    pub absolute_magnitude_h: Binary64,
    pub diameter_min_km: Binary64,
    pub diameter_max_km: Binary64,
    pub diameter_avg_km: Binary64,
    pub close_approach_date: String,
    pub relative_velocity_kps: Binary64,
    pub miss_distance_km: Binary64,
    pub orbiting_body: String,
    pub is_potentially_hazardous: bool,
}

/// What an [`AsteroidDTO`] holds, each text as its sequence of characters.
pub ghost struct AsteroidRecord {
    pub id: Seq<char>,
    pub name: Seq<char>,
    pub absolute_magnitude_h: Binary64,
    pub diameter_min_km: Binary64,
    pub diameter_max_km: Binary64,
    pub diameter_avg_km: Binary64,
    pub close_approach_date: Seq<char>,
    pub relative_velocity_kps: Binary64,
    pub miss_distance_km: Binary64,
    pub orbiting_body: Seq<char>,
    pub is_potentially_hazardous: bool,
}

impl View for AsteroidDTO {
    type V = AsteroidRecord;

    open spec fn view(&self) -> AsteroidRecord {
        AsteroidRecord {
            id: self.id@,
            name: self.name@,
            absolute_magnitude_h: self.absolute_magnitude_h,
            diameter_min_km: self.diameter_min_km,
            diameter_max_km: self.diameter_max_km,
            diameter_avg_km: self.diameter_avg_km,
            close_approach_date: self.close_approach_date@,
            relative_velocity_kps: self.relative_velocity_kps,
            miss_distance_km: self.miss_distance_km,
            orbiting_body: self.orbiting_body@,
            is_potentially_hazardous: self.is_potentially_hazardous,
        }
    }
}

} // verus!
