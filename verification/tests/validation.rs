use asteroid_risk::binary64::Binary64;
use asteroid_risk::domain::asteroid::{blank, white_space, Asteroid};
use asteroid_risk::domain::error::DomainError;
use asteroid_risk::dto::asteroid_dto::AsteroidDTO;

fn num(x: f64) -> Binary64 {
    Binary64::from_bits(x.to_bits())
}

fn sample() -> AsteroidDTO {
    AsteroidDTO {
        id: "2025AB".to_string(),
        name: "Test".to_string(),
        absolute_magnitude_h: num(20.0),
        diameter_min_km: num(0.5),
        diameter_max_km: num(1.5),
        diameter_avg_km: num(1.0),
        close_approach_date: "2025-01-01".to_string(),
        relative_velocity_kps: num(20.0),
        miss_distance_km: num(500000.0),
        orbiting_body: "Earth".to_string(),
        is_potentially_hazardous: true,
    }
}

#[test]
fn asteroid_with_negative_diameter_is_rejected() {
    let dto = AsteroidDTO {
        id: "12345".to_string(),
        name: "Test Asteroid".to_string(),
        absolute_magnitude_h: num(20.0),
        diameter_min_km: num(-1.0),
        diameter_max_km: num(0.5),
        diameter_avg_km: num(-0.25),
        close_approach_date: "2025-01-01".to_string(),
        relative_velocity_kps: num(10.0),
        miss_distance_km: num(100_000.0),
        orbiting_body: "Earth".to_string(),
        is_potentially_hazardous: false,
    };

    let result = Asteroid::try_from(dto);

    assert!(result.is_err());

    match result.unwrap_err() {
        DomainError::InvalidDiameter(value) => {
            assert!(f64::from_bits(value.to_bits()) < 0.0);
        }
        other => panic!("Unexpected error returned: {:?}", other),
    }
}

#[test]
fn valid_record_becomes_asteroid() {
    let a = Asteroid::try_from(sample()).unwrap();
    assert_eq!(a.id, "2025AB");
    assert_eq!(a.name, "Test");
    assert_eq!(a.absolute_magnitude, num(20.0));
    assert_eq!(a.diameter_km, num(1.0));
    assert_eq!(a.velocity_kps, num(20.0));
    assert_eq!(a.distance_km, num(500000.0));
    assert!(a.hazardous);
    assert_eq!(a.date, "2025-01-01");
    assert_eq!(a.orbiting_body, "Earth");
}

#[test]
fn blank_ids_are_rejected() {
    for id in ["", " ", "\t\n", " \u{a0}\u{3000}\u{2003} ", "\u{85}\u{1680}\u{2028}\u{2029}\u{202f}\u{205f}"] {
        let mut dto = sample();
        dto.id = id.to_string();
        assert_eq!(Asteroid::try_from(dto).unwrap_err(), DomainError::InvalidId);
    }
    let mut dto = sample();
    dto.id = "  x ".to_string();
    assert_eq!(Asteroid::try_from(dto).unwrap().id, "  x ");
    let mut dto = sample();
    dto.id = "\u{200b}".to_string();
    assert!(Asteroid::try_from(dto).is_ok());
}

#[test]
fn white_space_is_what_trimming_removes() {
    for n in 0..=0x10ffffu32 {
        if let Some(c) = char::from_u32(n) {
            assert_eq!(white_space(c), c.is_whitespace(), "U+{:04X}", n);
        }
    }
    for s in ["", "a", " a", "a ", " \t ", "\u{3000}", "\u{feff}", " \u{0}"] {
        assert_eq!(blank(s), s.trim().is_empty(), "{:?}", s);
    }
}

#[test]
fn blank_id_wins_over_other_faults() {
    let mut dto = sample();
    dto.id = " ".to_string();
    dto.diameter_avg_km = num(-1.0);
    dto.relative_velocity_kps = num(-1.0);
    dto.miss_distance_km = num(-1.0);
    assert_eq!(Asteroid::try_from(dto).unwrap_err(), DomainError::InvalidId);
}

#[test]
fn nonpositive_diameters_are_rejected() {
    for d in [0.0, -0.0, -0.25, -1e300, f64::NEG_INFINITY, -5e-324] {
        let mut dto = sample();
        dto.diameter_avg_km = num(d);
        dto.relative_velocity_kps = num(-1.0);
        assert_eq!(Asteroid::try_from(dto).unwrap_err(), DomainError::InvalidDiameter(num(d)));
    }
    for d in [5e-324, 1.0, 1e300, f64::INFINITY, f64::NAN] {
        let mut dto = sample();
        dto.diameter_avg_km = num(d);
        assert_eq!(Asteroid::try_from(dto).unwrap().diameter_km, num(d));
    }
}

#[test]
fn negative_velocities_are_rejected() {
    for v in [-5e-324, -1.0, f64::NEG_INFINITY] {
        let mut dto = sample();
        dto.relative_velocity_kps = num(v);
        dto.miss_distance_km = num(-1.0);
        assert_eq!(Asteroid::try_from(dto).unwrap_err(), DomainError::InvalidVelocity(num(v)));
    }
    for v in [0.0, -0.0, 20.0, f64::INFINITY, f64::NAN] {
        let mut dto = sample();
        dto.relative_velocity_kps = num(v);
        assert_eq!(Asteroid::try_from(dto).unwrap().velocity_kps, num(v));
    }
}

#[test]
fn negative_miss_distances_are_rejected() {
    for d in [-5e-324, -1.0, f64::NEG_INFINITY] {
        let mut dto = sample();
        dto.miss_distance_km = num(d);
        assert_eq!(
            Asteroid::try_from(dto).unwrap_err(),
            DomainError::InvalidField("miss_distance_km")
        );
    }
    for d in [0.0, -0.0, 1.0, f64::INFINITY, f64::NAN] {
        let mut dto = sample();
        dto.miss_distance_km = num(d);
        assert_eq!(Asteroid::try_from(dto).unwrap().distance_km, num(d));
    }
}

#[test]
fn comparisons_agree_with_the_hardware() {
    let xs = [
        0.0, -0.0, 5e-324, -5e-324, 2.2250738585072014e-308, 1.0, -1.0, 1.5, 24.999, 25.0, 74.99,
        75.0, 100.0, 1e308, -1e308, f64::MAX, f64::MIN, f64::INFINITY, f64::NEG_INFINITY, f64::NAN,
        -f64::NAN,
    ];
    for &a in xs.iter() {
        let x = num(a);
        assert_eq!(x.is_nan(), a.is_nan());
        assert_eq!(x.is_finite(), a.is_finite());
        assert_eq!(x.is_infinite(), a.is_infinite());
        assert_eq!(x.is_sign_negative(), a.is_sign_negative());
        assert_eq!(x.is_zero(), a == 0.0);
        assert_eq!(x.to_bits(), a.to_bits());
        for &b in xs.iter() {
            assert_eq!(x.lt(num(b)), a < b, "{} < {}", a, b);
            assert_eq!(x.le(num(b)), a <= b, "{} <= {}", a, b);
        }
    }
    assert_eq!(Binary64::zero(), num(0.0));
}
