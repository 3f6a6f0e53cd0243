//! Failure rates against the hardware's floating point.
use breaker::binary::{Binary32, Binary64, ONE_32, ONE_64};

fn f32_of(x: f32) -> Binary32 {
    Binary32 { bits: x.to_bits() }
}

#[test]
fn ratios_of_small_numbers() {
    assert_eq!(Binary32::ratio(1, 3).bits, (1.0f32 / 3.0).to_bits());
    assert_eq!(Binary32::ratio(5, 5).bits, ONE_32);
    assert_eq!(Binary32::ratio(0, 7).bits, 0);
    assert_eq!(Binary64::ratio(1, 3).bits, (1.0f64 / 3.0).to_bits());
    assert_eq!(Binary64::ratio(9, 9).bits, ONE_64);
    assert_eq!(Binary64::ratio(0, 9).bits, 0);
}

#[test]
fn ratios_agree_with_hardware_division() {
    let mut x: u64 = 0x9E37_79B9_7F4A_7C15;
    for _ in 0..20_000 {
        x ^= x << 13;
        x ^= x >> 7;
        x ^= x << 17;
        let shift = (x >> 58) as u32 % 32;
        let d = ((x as u32) >> shift).max(1);
        let n = ((x >> 32) as u32) % d.wrapping_add(1).max(1);
        let n = n.min(d);
        assert_eq!(Binary32::ratio(n, d).bits, (n as f32 / d as f32).to_bits(), "{n} / {d}");

        let wide = x.rotate_left(17) >> (shift * 2 % 60);
        let total = (wide as u128).max(1) + (x >> 40) as u128;
        let part = (x.rotate_left(29) as u128 % (total + 1)) as u64;
        assert_eq!(
            Binary64::ratio(part, total).bits,
            (part as f64 / total as f64).to_bits(),
            "{part} / {total}"
        );
    }
}

#[test]
fn ratios_at_the_edges_of_the_format() {
    for d in [1u32, 2, 3, 0xff_ffff, 0x100_0000, 0x100_0001, 0x100_0003, u32::MAX - 1, u32::MAX] {
        for n in [0u32, 1, 2, d / 3, d / 2, d - 1, d] {
            let n = n.min(d);
            assert_eq!(Binary32::ratio(n, d).bits, (n as f32 / d as f32).to_bits(), "{n} / {d}");
        }
    }
    let top = u64::MAX as u128 * 2;
    assert_eq!(Binary64::ratio(u64::MAX, top).bits, (u64::MAX as f64 / top as f64).to_bits());
    assert_eq!(Binary64::ratio(1, top).bits, (1.0 / top as f64).to_bits());
}

#[test]
fn comparison_agrees_with_hardware() {
    let values = [
        0.0f32,
        -0.0,
        1.0,
        -1.0,
        0.5,
        f32::MIN_POSITIVE,
        1.0e-45,
        -1.0e-45,
        f32::MAX,
        f32::MIN,
        f32::INFINITY,
        f32::NEG_INFINITY,
        f32::NAN,
    ];
    for a in values {
        assert_eq!(f32_of(a).is_positive(), a > 0.0);
        for b in values {
            assert_eq!(f32_of(a).at_least(f32_of(b)), a >= b, "{a} >= {b}");
        }
        let clamped = f32::from_bits(f32_of(a).clamp_unit().bits);
        if a.is_nan() {
            assert_eq!(clamped, 0.0);
        } else {
            assert_eq!(clamped, a.clamp(0.0, 1.0));
        }
        let wide = a as f64;
        let clamped = f64::from_bits(Binary64 { bits: wide.to_bits() }.clamp_unit().bits);
        if wide.is_nan() {
            assert_eq!(clamped, 0.0);
        } else {
            assert_eq!(clamped, wide.clamp(0.0, 1.0));
        }
    }
}

#[test]
fn shares_are_products_rounded_down() {
    let share = |x: f64, whole: u128| Binary64 { bits: x.to_bits() }.share_of(whole);
    assert_eq!(share(0.5, 1001), 500);
    assert_eq!(share(0.25, 1001), 250);
    assert_eq!(share(1.0, u128::MAX), u128::MAX);
    assert_eq!(share(0.0, u128::MAX), 0);
    assert_eq!(share(0.5, u128::MAX), u128::MAX / 2);
    assert_eq!(share(0.75, 1 << 100), 3 << 98);
    assert_eq!(share(1.0 / 1024.0, (1 << 90) + 5), 1 << 80);
    assert_eq!(share(1.0 / (1u64 << 40) as f64, (1 << 90) + 5), 1 << 50);
    assert_eq!(share(f64::MIN_POSITIVE, u128::MAX), 0);
    assert_eq!(share(f64::from_bits(1), u128::MAX), 0);
    // The nearest number to a tenth lies above it.
    assert_eq!(share(0.1, 10u128.pow(30)), 10u128.pow(29) + 5_551_115_123_125);
}
