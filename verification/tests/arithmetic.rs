use asteroid_risk::binary64::Binary64;
use asteroid_risk::rounding::{bit_length, power_of_two, round_scaled_ratio};

fn num(x: f64) -> Binary64 {
    Binary64::from_bits(x.to_bits())
}

fn same(got: Binary64, want: f64, what: &str) {
    if want.is_nan() {
        assert!(got.is_nan(), "{}: want NaN, got {:#x}", what, got.to_bits());
    } else {
        assert_eq!(got.to_bits(), want.to_bits(), "{}: want {:e}", what, want);
    }
}

fn edge_cases() -> Vec<f64> {
    vec![
        0.0,
        -0.0,
        5e-324,
        1e-323,
        -5e-324,
        2.225073858507201e-308,
        2.2250738585072014e-308,
        4.450147717014403e-308,
        1.0,
        -1.0,
        1.0000000000000002,
        0.9999999999999999,
        1.5,
        2.0,
        3.0,
        0.5,
        0.1,
        500.0,
        1000.0,
        3000.0,
        4.184e15,
        4.1887902047863905,
        std::f64::consts::PI,
        1e-200,
        1e200,
        1.3407807929942597e154,
        1.3407807929942596e154,
        8.98846567431158e307,
        f64::MAX,
        f64::MIN,
        f64::INFINITY,
        f64::NEG_INFINITY,
        f64::NAN,
    ]
}

struct Lcg(u64);

impl Lcg {
    fn next(&mut self) -> u64 {
        self.0 = self.0.wrapping_mul(6364136223846793005).wrapping_add(1442695040888963407);
        let hi = self.0 >> 32;
        self.0 = self.0.wrapping_mul(6364136223846793005).wrapping_add(1442695040888963407);
        (hi << 32) | (self.0 >> 32)
    }
}

#[test]
fn products_agree_with_the_hardware() {
    let xs = edge_cases();
    for &a in xs.iter() {
        for &b in xs.iter() {
            same(num(a).times(num(b)), a * b, &format!("{:e} * {:e}", a, b));
        }
    }
}

#[test]
fn quotients_agree_with_the_hardware() {
    let xs = edge_cases();
    for &a in xs.iter() {
        for &b in xs.iter() {
            same(num(a).over(num(b)), a / b, &format!("{:e} / {:e}", a, b));
        }
    }
}

#[test]
fn random_products_and_quotients_agree_with_the_hardware() {
    let mut rng = Lcg(0x243f6a8885a308d3);
    for _ in 0..200000 {
        let a = f64::from_bits(rng.next());
        let b = f64::from_bits(rng.next());
        same(num(a).times(num(b)), a * b, &format!("{:e} * {:e}", a, b));
        same(num(a).over(num(b)), a / b, &format!("{:e} / {:e}", a, b));
    }
}

#[test]
fn products_near_the_ends_of_the_range_agree_with_the_hardware() {
    let mut rng = Lcg(0x13198a2e03707344);
    for _ in 0..100000 {
        let a = f64::from_bits(rng.next() & 0x800f_ffff_ffff_ffff | (rng.next() % 64) << 52);
        let b = f64::from_bits(rng.next() & 0x800f_ffff_ffff_ffff | (1000 + rng.next() % 60) << 52);
        let c = f64::from_bits(rng.next() & 0x800f_ffff_ffff_ffff | (2000 + rng.next() % 47) << 52);
        for (x, y) in [(a, b), (b, a), (a, c), (c, a), (b, c), (c, b), (a, a), (c, c)] {
            same(num(x).times(num(y)), x * y, &format!("{:e} * {:e}", x, y));
            same(num(x).over(num(y)), x / y, &format!("{:e} / {:e}", x, y));
        }
    }
}

#[test]
fn ties_go_to_the_even_significand() {
    // (2^53 + 1) * 2^-1 lies halfway between two neighbours
    let one_and_a_bit = f64::from_bits(0x3ff0_0000_0000_0001);
    same(num(one_and_a_bit).times(num(1.5)), one_and_a_bit * 1.5, "tie");
    same(num(5e-324).times(num(0.5)), 0.0, "half of the smallest");
    same(num(1.5e-323).times(num(0.5)), 1e-323, "one and a half of the smallest");
    same(num(5e-324).over(num(2.0)), 0.0, "the smallest by two");
    same(num(f64::MAX).times(num(1.0000000000000002)), f64::INFINITY, "overflow");
    same(num(f64::MAX).over(num(0.9999999999999999)), f64::INFINITY, "overflow");
    same(num(1.0).over(num(3.0)), 1.0 / 3.0, "third");
    same(num(-1.0).over(num(0.0)), f64::NEG_INFINITY, "by zero");
    same(num(0.0).times(num(-3.0)), -0.0, "signed zero");
}

#[test]
fn nan_results_are_the_quiet_nan() {
    assert_eq!(num(0.0).times(num(f64::INFINITY)).to_bits(), 0x7ff8_0000_0000_0000);
    assert_eq!(num(0.0).over(num(0.0)).to_bits(), 0x7ff8_0000_0000_0000);
    assert_eq!(num(f64::INFINITY).over(num(f64::NEG_INFINITY)).to_bits(), 0x7ff8_0000_0000_0000);
    assert_eq!(num(f64::NAN).times(num(1.0)).to_bits(), 0x7ff8_0000_0000_0000);
}

#[test]
fn bit_lengths_and_powers() {
    assert_eq!(bit_length(0), 0);
    assert_eq!(bit_length(1), 1);
    assert_eq!(bit_length(2), 2);
    assert_eq!(bit_length(3), 2);
    assert_eq!(bit_length(u128::MAX), 128);
    for k in 0..128u32 {
        assert_eq!(power_of_two(k), 1u128 << k);
        assert_eq!(bit_length(1u128 << k), k + 1);
        assert_eq!(bit_length((1u128 << k) - 1), k);
    }
}

#[test]
fn scaled_ratios_round_to_nearest() {
    // in units of 2^-1074: one is 2^1074
    assert_eq!(round_scaled_ratio(1, 1, 1074), (1.0f64).to_bits());
    assert_eq!(round_scaled_ratio(1, 3, 1074), (1.0f64 / 3.0).to_bits());
    assert_eq!(round_scaled_ratio(10, 4, 1074), (2.5f64).to_bits());
    assert_eq!(round_scaled_ratio(0, 7, 12), 0);
    assert_eq!(round_scaled_ratio(1, 2, 0), 0);
    assert_eq!(round_scaled_ratio(3, 2, 0), 2);
    assert_eq!(round_scaled_ratio(5, 2, 0), 2);
    assert_eq!(round_scaled_ratio(1, 1, -1), 0);
    assert_eq!(round_scaled_ratio(1, 1, 0), 1);
    assert_eq!(round_scaled_ratio(1, 1, 2098), f64::INFINITY.to_bits());
    assert_eq!(round_scaled_ratio(u128::MAX, 1, 1074 - 128), (2.0f64).powi(0).to_bits());
    assert_eq!(round_scaled_ratio(u128::MAX, 1, -200), 0);
    assert_eq!(round_scaled_ratio(u128::MAX, 1, -129), 0);
    assert_eq!(round_scaled_ratio(u128::MAX, 1, -128), 1);
    assert_eq!(round_scaled_ratio(1u128 << 127, 1, -128), 0);
    assert_eq!(round_scaled_ratio((1u128 << 127) + 1, 1, -128), 1);
    assert_eq!(round_scaled_ratio(3u128 << 126, 1, -127), 2);
    assert_eq!(round_scaled_ratio(1, 1, 6000), f64::INFINITY.to_bits());
    assert_eq!(round_scaled_ratio(1, u64::MAX, i32::MAX), f64::INFINITY.to_bits());
    assert_eq!(round_scaled_ratio(0, 1, 6000), 0);
    assert_eq!(round_scaled_ratio(1, 1, -6000), 0);
    assert_eq!(round_scaled_ratio(u128::MAX, 1, i32::MIN), 0);
    assert_eq!(round_scaled_ratio(1, u64::MAX, 1074 + 64), (1.0f64).to_bits());
    assert_eq!(round_scaled_ratio(u64::MAX as u128, u64::MAX, 1074), (1.0f64).to_bits());
    assert_eq!(round_scaled_ratio(7, 1 << 63, 1074 + 62), (3.5f64).to_bits());
}
