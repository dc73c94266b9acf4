use asteroid_risk::binary64::Binary64;
use asteroid_risk::domain::error::DomainError;
use asteroid_risk::domain::risk::RiskLevel;
use asteroid_risk::dto::asteroid_dto::AsteroidDTO;
use asteroid_risk::logic::impact_energy::{
    AsteroidDensity, ImpactPhysics, FULL_SCORE_JOULES_BITS, PI_BITS, ZERO_SCORE_JOULES_BITS,
};
use asteroid_risk::pipeline::process;

fn num(x: f64) -> Binary64 {
    Binary64::from_bits(x.to_bits())
}

fn val(x: Binary64) -> f64 {
    f64::from_bits(x.to_bits())
}

fn close(got: f64, want: f64) -> bool {
    (got - want).abs() <= want.abs() * 5e-3
}

fn record(diameter: f64, velocity: f64) -> AsteroidDTO {
    AsteroidDTO {
        id: "2025AB".to_string(),
        name: "Test".to_string(),
        absolute_magnitude_h: num(20.0),
        diameter_min_km: num(0.5),
        diameter_max_km: num(1.5),
        diameter_avg_km: num(diameter),
        close_approach_date: "2025-01-01".to_string(),
        relative_velocity_kps: num(velocity),
        miss_distance_km: num(500000.0),
        orbiting_body: "Earth".to_string(),
        is_potentially_hazardous: true,
    }
}

#[test]
fn whole_numbers_convert_exactly() {
    for n in [0u64, 1, 2, 3, 4, 500, 1000, 1380, 3000, 5320, 4_184_000_000_000_000, (1 << 53) - 1] {
        assert_eq!(Binary64::from_u64(n), num(n as f64));
    }
    for n in [(1u64 << 53) + 1, (1 << 53) + 3, u64::MAX, u64::MAX - 1024, 0x7fff_ffff_ffff_fdff] {
        assert_eq!(Binary64::from_u64(n), num(n as f64));
    }
    assert_eq!(PI_BITS, std::f64::consts::PI.to_bits());
}

#[test]
fn end_to_end_example() {
    let r = process(record(1.0, 20.0)).unwrap();
    assert_eq!(r.asteroid_id, "2025AB");
    assert_eq!(r.asteroid_name, "Test");
    let volume = ImpactPhysics::volume_from_diameter_km(num(1.0));
    assert!(close(val(volume), 5.236e8));
    let mass = ImpactPhysics::mass_from_volume(volume, AsteroidDensity::SType);
    assert!(close(val(mass), 1.571e12));
    let joules = ImpactPhysics::kinetic_energy_joules(mass, num(20.0));
    assert!(close(val(joules), 3.1416e20));
    assert_eq!(r.impact_energy_joules, joules);
    assert!(close(val(r.impact_energy_megatons), 7.5e4));
    assert_eq!(r.risk_level, RiskLevel::Critical);
    assert!(val(r.risk_score_0_to_100) >= 75.0 && val(r.risk_score_0_to_100) <= 100.0);
    assert!(r.is_potentially_hazardous);
    assert_eq!(r.miss_distance_km, num(500000.0));
    assert_eq!(r.velocity_kps, num(20.0));
    assert_eq!(r.diameter_km, num(1.0));
}

#[test]
fn exact_values_of_the_example() {
    let d = 1.0f64;
    let r = d * 500.0;
    let volume = (4.0 / 3.0 * std::f64::consts::PI) * (r * r * r);
    let mass = volume * 3000.0;
    let v = 20.0f64 * 1000.0;
    let joules = 0.5 * mass * (v * v);
    assert_eq!(ImpactPhysics::volume_from_diameter_km(num(d)), num(volume));
    assert_eq!(ImpactPhysics::mass_from_volume(num(volume), AsteroidDensity::SType), num(mass));
    assert_eq!(ImpactPhysics::kinetic_energy_joules(num(mass), num(20.0)), num(joules));
    assert_eq!(ImpactPhysics::joules_to_megatons(num(joules)), num(joules / 4.184e15));
    assert_eq!(num(volume).to_bits(), 0x41bf_357b_b799_2a1c);
}

#[test]
fn physics_agrees_with_the_hardware() {
    let ds = [5e-324, 1e-120, 1e-3, 0.01, 0.137, 1.0, 2.5, 10.0, 940.0, 1e100, 1e103, f64::MAX];
    let vs = [0.0, -0.0, 5e-324, 1e-160, 0.3, 11.2, 20.0, 72.0, 3e5, 1e150, f64::MAX];
    for &d in ds.iter() {
        let r = d * 500.0;
        let volume = (4.0 / 3.0 * std::f64::consts::PI) * (r * r * r);
        assert_eq!(ImpactPhysics::volume_from_diameter_km(num(d)), num(volume), "{:e}", d);
        for (class, density) in [
            (AsteroidDensity::CType, 1380.0),
            (AsteroidDensity::SType, 3000.0),
            (AsteroidDensity::MType, 5320.0),
        ] {
            let mass = volume * density;
            assert_eq!(ImpactPhysics::mass_from_volume(num(volume), class), num(mass));
            for &v in vs.iter() {
                let ms = v * 1000.0;
                let joules = 0.5 * mass * (ms * ms);
                let got = ImpactPhysics::kinetic_energy_joules(num(mass), num(v));
                if joules.is_nan() {
                    assert!(got.is_nan());
                } else {
                    assert_eq!(got, num(joules), "{:e} {:e}", d, v);
                    assert_eq!(
                        ImpactPhysics::joules_to_megatons(got),
                        num(joules / 4.184e15)
                    );
                }
            }
        }
    }
    assert_eq!(AsteroidDensity::default(), AsteroidDensity::SType);
}

#[test]
fn raw_score_anchors() {
    let score = |e: f64| val(ImpactPhysics::risk_score_from_energy(num(e)));
    assert_eq!(ZERO_SCORE_JOULES_BITS, (65536.0f64).to_bits());
    assert_eq!(FULL_SCORE_JOULES_BITS, (2.0f64).powi(76).to_bits());
    assert_eq!(score(65536.0), 0.0);
    assert_eq!(score(70368744177664.0), 50.0);
    assert_eq!(score(7.555786372591432e22), 100.0);
    assert_eq!(score(2.0f64.powi(31)), 25.0);
    assert_eq!(score(2.0f64.powi(61)), 75.0);
    assert_eq!(score(1.5 * 65536.0), 5.0 / 6.0);
    assert_eq!(score(32768.0), -5.0 / 3.0);
    assert_eq!(score(1.0), -80.0 / 3.0);
    assert_eq!(score(0.0), -1039.0 * 5.0 / 3.0);
    assert_eq!(score(-0.0), -1039.0 * 5.0 / 3.0);
    assert_eq!(score(-7.0), -1039.0 * 5.0 / 3.0);
    assert_eq!(score(f64::INFINITY), 1008.0 * 5.0 / 3.0);
    assert!(score(f64::NAN).is_nan());
    // city-scale energies land near the middle, extinction-scale ones at the top
    assert!(score(1e13) > 40.0 && score(1e13) < 50.0);
    assert!(score(1e15) > 50.0 && score(1e15) < 60.0);
    assert!(score(1e23) > 100.0);
    assert!(score(3.14e20) > 75.0);
}

#[test]
fn raw_score_rises_with_energy() {
    let mut last = f64::NEG_INFINITY;
    let mut bits = 1u64;
    while bits < 0x7ff0_0000_0000_0000 {
        let s = val(ImpactPhysics::risk_score_from_energy(Binary64::from_bits(bits)));
        assert!(s >= last, "{:#x}", bits);
        last = s;
        bits += 0x0000_7fff_ffff_f123;
    }
}

#[test]
fn energy_rises_with_diameter_and_velocity() {
    let energy = |d: f64, v: f64| {
        let volume = ImpactPhysics::volume_from_diameter_km(num(d));
        let mass = ImpactPhysics::mass_from_volume(volume, AsteroidDensity::SType);
        val(ImpactPhysics::kinetic_energy_joules(mass, num(v)))
    };
    let ds = [0.001, 0.01, 0.1, 0.5, 1.0, 1.0000000000000002, 2.0, 10.0, 100.0];
    let vs = [0.1, 1.0, 5.0, 11.2, 20.0, 20.000000000000004, 72.0];
    for w in ds.windows(2) {
        for &v in vs.iter() {
            assert!(energy(w[0], v) < energy(w[1], v));
        }
    }
    for w in vs.windows(2) {
        for &d in ds.iter() {
            assert!(energy(d, w[0]) < energy(d, w[1]));
        }
    }
    // rounding can merge neighbours, and at the ends of the range the rise stops
    assert_eq!(energy(1.5000000000000047, 20.0), energy(1.5000000000000049, 20.0));
    assert_eq!(energy(5e-324, 20.0), energy(1e-323, 20.0));
    assert!(energy(5e-324, 20.0) <= energy(1.0, 20.0));
}

#[test]
fn process_reports_validation_errors() {
    assert_eq!(process(record(-0.25, 10.0)).unwrap_err(), DomainError::InvalidDiameter(num(-0.25)));
    assert_eq!(process(record(1.0, -3.0)).unwrap_err(), DomainError::InvalidVelocity(num(-3.0)));
    let mut dto = record(1.0, 1.0);
    dto.miss_distance_km = num(-1.0);
    assert_eq!(process(dto).unwrap_err(), DomainError::InvalidField("miss_distance_km"));
    let mut dto = record(1.0, 1.0);
    dto.id = "   ".to_string();
    assert_eq!(process(dto).unwrap_err(), DomainError::InvalidId);
    assert_ne!(DomainError::MissingCloseApproachData, DomainError::InvalidId);
    assert_ne!(
        DomainError::NonPhysicalValue { field: "velocity", value: num(1.0) },
        DomainError::InvalidVelocity(num(1.0))
    );
}

#[test]
fn process_twice_gives_the_same_result() {
    for (d, v) in [(1.0, 20.0), (0.02, 7.5), (f64::NAN, 3.0), (1e200, 0.0), (5e-324, 1e-300)] {
        let a = process(record(d, v)).unwrap();
        let b = process(record(d, v)).unwrap();
        assert_eq!(a.asteroid_id, b.asteroid_id);
        assert_eq!(a.asteroid_name, b.asteroid_name);
        assert_eq!(a.impact_energy_joules.to_bits(), b.impact_energy_joules.to_bits());
        assert_eq!(a.impact_energy_megatons.to_bits(), b.impact_energy_megatons.to_bits());
        assert_eq!(a.risk_level, b.risk_level);
        assert_eq!(a.risk_score_0_to_100.to_bits(), b.risk_score_0_to_100.to_bits());
        assert_eq!(a.is_potentially_hazardous, b.is_potentially_hazardous);
        assert_eq!(a.miss_distance_km, b.miss_distance_km);
        assert_eq!(a.velocity_kps, b.velocity_kps);
        assert_eq!(a.diameter_km, b.diameter_km);
    }
}

#[test]
fn process_covers_the_tiers() {
    let level = |d: f64, v: f64| process(record(d, v)).unwrap().risk_level;
    assert_eq!(level(1e-5, 1.0), RiskLevel::Low);
    assert_eq!(level(0.003, 10.0), RiskLevel::Medium);
    assert_eq!(level(0.1, 20.0), RiskLevel::High);
    assert_eq!(level(1.0, 20.0), RiskLevel::Critical);
    assert_eq!(level(1e4, 70.0), RiskLevel::Critical);
    let r = process(record(1e4, 70.0)).unwrap();
    assert_eq!(r.risk_score_0_to_100, num(100.0));
    let r = process(record(1e-30, 1.0)).unwrap();
    assert_eq!(r.risk_score_0_to_100, num(0.0));
    let r = process(record(f64::NAN, 1.0)).unwrap();
    assert!(r.risk_score_0_to_100.is_nan());
    assert_eq!(r.risk_level, RiskLevel::Low);
}
