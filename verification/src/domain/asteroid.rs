use crate::binary64::Binary64;
use crate::domain::error::{DomainError, DomainErrorView};
use crate::dto::asteroid_dto::{AsteroidDTO, AsteroidRecord};
use vstd::prelude::*;
use vstd::std_specs::iter::IteratorSpec;

verus! {

/// Whether `c` has the Unicode property `White_Space`.
pub open spec fn is_white_space(c: char) -> bool {
    let n = c as u32;
    ||| 0x09 <= n <= 0x0d
    ||| n == 0x20
    ||| n == 0x85
    ||| n == 0xa0
    ||| n == 0x1680
    ||| 0x2000 <= n <= 0x200a
    ||| n == 0x2028
    ||| n == 0x2029
    ||| n == 0x202f
    ||| n == 0x205f
    ||| n == 0x3000
}

/// Whether nothing is left of `s` once the white space at its ends is cut off.
pub open spec fn is_blank(s: Seq<char>) -> bool {
    forall|i: int| 0 <= i < s.len() ==> is_white_space(#[trigger] s[i])
}

/// Decides [`is_white_space`].
pub fn white_space(c: char) -> (r: bool)
    ensures
        r == is_white_space(c),
{
    let n: u32 = c as u32;
    (0x09 <= n && n <= 0x0d) || n == 0x20 || n == 0x85 || n == 0xa0 || n == 0x1680 || (0x2000 <= n
        && n <= 0x200a) || n == 0x2028 || n == 0x2029 || n == 0x202f || n == 0x205f || n == 0x3000
}

/// Decides [`is_blank`].
pub fn blank(s: &str) -> (r: bool)
    ensures
        r == is_blank(s@),
{
    let mut rest = s.chars();
    let ghost mut seen: int = 0;
    loop
        invariant
            0 <= seen <= s@.len(),
            rest.remaining() == s@.subrange(seen, s@.len() as int),
            forall|i: int| 0 <= i < seen ==> is_white_space(#[trigger] s@[i]),
        decreases s@.len() - seen,
    {
        match rest.next() {
            None => {
                return true;
            },
            Some(c) => {
                if !white_space(c) {
                    return false;
                }
                proof {
                    seen = seen + 1;
                }
            },
        }
    }
}

/// An asteroid whose description has passed [`Asteroid::try_from`].
#[derive(Debug, Clone)]
pub struct Asteroid {
    pub id: String,
    pub name: String,
    pub absolute_magnitude: Binary64,
    pub diameter_km: Binary64,
    pub velocity_kps: Binary64,
    pub distance_km: Binary64,
    pub hazardous: bool,
    pub date: String,
    pub orbiting_body: String,
}

/// What an [`Asteroid`] holds, each text as its sequence of characters.
pub ghost struct AsteroidView {
    pub id: Seq<char>,
    pub name: Seq<char>,
    pub absolute_magnitude: Binary64,
    pub diameter_km: Binary64,
    pub velocity_kps: Binary64,
    pub distance_km: Binary64,
    pub hazardous: bool,
    pub date: Seq<char>,
    pub orbiting_body: Seq<char>,
}

impl AsteroidView {
    /// The bounds that every validated asteroid keeps. They are exactly what
    /// the checks let through: a NaN is below nothing, so it passes each of the
    /// three numeric bounds.
    pub open spec fn well_formed(self) -> bool {
        &&& !is_blank(self.id)
        &&& !self.diameter_km.le(Binary64::zero())
        &&& !self.velocity_kps.lt(Binary64::zero())
        &&& !self.distance_km.lt(Binary64::zero())
    }
}

impl View for Asteroid {
    type V = AsteroidView;

    open spec fn view(&self) -> AsteroidView {
        AsteroidView {
            id: self.id@,
            name: self.name@,
            absolute_magnitude: self.absolute_magnitude,
            diameter_km: self.diameter_km,
            velocity_kps: self.velocity_kps,
            distance_km: self.distance_km,
            hazardous: self.hazardous,
            date: self.date@,
            orbiting_body: self.orbiting_body@,
        }
    }
}

/// The asteroid that a record describes, with the minimum and maximum
/// diameters left behind.
pub open spec fn accepted(record: AsteroidRecord) -> AsteroidView {
    AsteroidView {
        id: record.id,
        name: record.name,
        absolute_magnitude: record.absolute_magnitude_h,
        diameter_km: record.diameter_avg_km,
        velocity_kps: record.relative_velocity_kps,
        distance_km: record.miss_distance_km,
        hazardous: record.is_potentially_hazardous,
        date: record.close_approach_date,
        orbiting_body: record.orbiting_body,
    }
}

/// The outcome of validation: the first check that fails names the error, in
/// the order id, diameter, velocity, miss distance.
pub open spec fn validate(record: AsteroidRecord) -> Result<AsteroidView, DomainErrorView> {
    if is_blank(record.id) {
        Err(DomainErrorView::InvalidId)
    } else if record.diameter_avg_km.le(Binary64::zero()) {
        Err(DomainErrorView::InvalidDiameter(record.diameter_avg_km))
    } else if record.relative_velocity_kps.lt(Binary64::zero()) {
        Err(DomainErrorView::InvalidVelocity(record.relative_velocity_kps))
    } else if record.miss_distance_km.lt(Binary64::zero()) {
        Err(DomainErrorView::InvalidField("miss_distance_km"@))
    } else {
        Ok(accepted(record))
    }
}

impl Asteroid {
    /// Validates a description and turns it into an asteroid, moving its texts.
    pub fn try_from(dto: AsteroidDTO) -> (r: Result<Asteroid, DomainError>)
        ensures
            match validate(dto@) {
                Ok(a) => r matches Ok(x) && x@ == a && x@.well_formed(),
                Err(e) => r matches Err(x) && x@ == e,
            },
            is_blank(dto@.id) ==> (r matches Err(e) && e@ == DomainErrorView::InvalidId),
            !is_blank(dto@.id) && !dto.diameter_avg_km.is_nan() && dto.diameter_avg_km.value() <= 0
                ==> (r matches Err(e) && e@ == DomainErrorView::InvalidDiameter(
                dto.diameter_avg_km,
            )),
            !is_blank(dto@.id) && !dto.diameter_avg_km.le(Binary64::zero())
                && !dto.relative_velocity_kps.is_nan() && dto.relative_velocity_kps.value() < 0
                ==> (r matches Err(e) && e@ == DomainErrorView::InvalidVelocity(
                dto.relative_velocity_kps,
            )),
            !is_blank(dto@.id) && !dto.diameter_avg_km.le(Binary64::zero())
                && !dto.relative_velocity_kps.lt(Binary64::zero())
                && !dto.miss_distance_km.is_nan() && dto.miss_distance_km.value() < 0 ==> (
            r matches Err(e) && e@ == DomainErrorView::InvalidField("miss_distance_km"@)),
    {
        if blank(dto.id.as_str()) {
            return Err(DomainError::InvalidId);
        }
        if dto.diameter_avg_km.le(Binary64::zero()) {
            return Err(DomainError::InvalidDiameter(dto.diameter_avg_km));
        }
        if dto.relative_velocity_kps.lt(Binary64::zero()) {
            return Err(DomainError::InvalidVelocity(dto.relative_velocity_kps));
        }
        if dto.miss_distance_km.lt(Binary64::zero()) {
            return Err(DomainError::InvalidField("miss_distance_km"));
        }
        Ok(
            Asteroid {
                id: dto.id,
                name: dto.name,
                absolute_magnitude: dto.absolute_magnitude_h,
                diameter_km: dto.diameter_avg_km,
                velocity_kps: dto.relative_velocity_kps,
                distance_km: dto.miss_distance_km,
                hazardous: dto.is_potentially_hazardous,
                date: dto.close_approach_date,
                orbiting_body: dto.orbiting_body,
            },
        )
    }
}

} // verus!
