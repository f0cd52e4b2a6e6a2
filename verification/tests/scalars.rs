use brush_splat::scalar::Scalar;

fn samples() -> Vec<f32> {
    vec![
        f32::NEG_INFINITY,
        f32::MIN,
        -2.5,
        -1.0,
        -f32::MIN_POSITIVE,
        -f32::from_bits(1),
        -0.0,
        0.0,
        f32::from_bits(1),
        f32::MIN_POSITIVE,
        0.3,
        1.0,
        f32::MAX,
        f32::INFINITY,
        f32::NAN,
        f32::from_bits(0xffc0_0000),
        f32::from_bits(0x7f80_0001),
    ]
}

fn scalar(x: f32) -> Scalar {
    Scalar { bits: x.to_bits() }
}

#[test]
fn comparisons_agree_with_floating_point() {
    for a in samples() {
        for b in samples() {
            assert_eq!(scalar(a).is_below(scalar(b)), a < b, "{a} < {b}");
            assert_eq!(scalar(a).is_at_most(scalar(b)), a <= b, "{a} <= {b}");
            assert_eq!(scalar(a).is_equal(scalar(b)), a == b, "{a} == {b}");
            let total = a.total_cmp(&b) == std::cmp::Ordering::Less;
            assert_eq!(scalar(a).is_before(scalar(b)), total, "{a} before {b}");
        }
        assert_eq!(scalar(a).is_nan(), a.is_nan());
        assert_eq!(scalar(a).neg().bits, (-a).to_bits());
        assert_eq!(scalar(a).neg().neg(), scalar(a));
    }
}

#[test]
fn clamp_agrees_with_floating_point() {
    for a in samples() {
        if !a.is_nan() {
            let clamped = scalar(a).clamp(Scalar::zero(), Scalar::one());
            assert_eq!(f32::from_bits(clamped.bits), a.clamp(0.0, 1.0));
        }
    }
    assert!(scalar(f32::NAN).clamp(Scalar::zero(), Scalar::one()).is_nan());
}

#[test]
fn min_and_max_skip_nan() {
    let nan = scalar(f32::NAN);
    let one = Scalar::one();
    assert_eq!(nan.min(one), one);
    assert_eq!(one.min(nan), one);
    assert_eq!(nan.max(one), one);
    assert_eq!(one.max(nan), one);
    assert_eq!(scalar(-3.0).min(one), scalar(-3.0));
    assert_eq!(scalar(-3.0).max(one), one);
}
