use wtx_tools::average::ratio_to_bits;

#[test]
fn zero_ratio_is_positive_zero() {
    assert_eq!(ratio_to_bits(0, 1), 0);
    assert_eq!(ratio_to_bits(0, 0xFFFF_FFFF), 0);
}

#[test]
fn full_ratio_is_one() {
    assert_eq!(ratio_to_bits(1, 1), 1.0f32.to_bits());
    assert_eq!(ratio_to_bits(255, 255), 1.0f32.to_bits());
    assert_eq!(ratio_to_bits(0xFFFF_FF, 0xFFFF_FF), 1.0f32.to_bits());
}

#[test]
fn dyadic_ratios_are_exact() {
    assert_eq!(ratio_to_bits(1, 2), 0.5f32.to_bits());
    assert_eq!(ratio_to_bits(1, 4), 0.25f32.to_bits());
    assert_eq!(ratio_to_bits(3, 8), 0.375f32.to_bits());
    assert_eq!(ratio_to_bits(255, 1020), 0.25f32.to_bits());
}

#[test]
fn odd_denominators_round_to_nearest() {
    // Against hardware division, which rounds a single quotient the same
    // way; odd denominators never land exactly between two candidates.
    for (n, d) in [
        (1u64, 3u64),
        (2, 3),
        (1, 255),
        (2, 255),
        (127, 255),
        (254, 255),
        (1, 65535),
        (12345, 99999),
        (86, 255 * 16),
    ] {
        let expect = (n as f32 / d as f32).to_bits();
        assert_eq!(ratio_to_bits(n, d), expect, "ratio {}/{}", n, d);
    }
}

#[test]
fn large_denominators_stay_close() {
    // Channel sums over the largest raster: d = 255 * 65535 * 65535.
    let d: u64 = 255 * 65535 * 65535;
    let bits = ratio_to_bits(d / 3, d);
    let value = f32::from_bits(bits);
    assert!((value - 1.0 / 3.0).abs() < 1e-6);
}
