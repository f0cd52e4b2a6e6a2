use brush_splat::scalar::Scalar;
use brush_splat::splat_data::{
    interleave_coeffs, SplatData, SplatRenderMode, EVIDENCE_STRIDE,
};

fn scalars(values: &[f32]) -> Vec<Scalar> {
    values.iter().map(|x| Scalar { bits: x.to_bits() }).collect()
}

fn floats(values: &[Scalar]) -> Vec<f32> {
    values.iter().map(|x| f32::from_bits(x.bits)).collect()
}

#[test]
fn test_splat_data_subsample() {
    let n = 10;
    // Per-splat value == splat index, so we can check which rows survived.
    let make = |stride: usize| -> Vec<Scalar> {
        (0..n)
            .flat_map(|i| std::iter::repeat_n(i as f32, stride))
            .map(|x| Scalar { bits: x.to_bits() })
            .collect()
    };
    let data = SplatData {
        means: make(3),
        rotations: Some(make(4)),
        log_scales: Some(make(3)),
        sh_coeffs: Some(make(6)),
        raw_opacities: Some(make(1)),
        evidence: Some(make(EVIDENCE_STRIDE)),
    };

    // Within budget: untouched.
    let same = data.clone().subsample(10);
    assert_eq!(same.num_splats(), 10);
    assert_eq!(same, data);
    let same = data.clone().subsample(0);
    assert_eq!(same.num_splats(), 10);
    assert_eq!(same, data);

    // step = ceil(10 / 3) = 4 -> rows 0, 4, 8 survive.
    let sub = data.subsample(3);
    assert_eq!(sub.num_splats(), 3);
    assert!(sub.num_splats() <= 3);
    assert_eq!(
        floats(&sub.means),
        vec![0., 0., 0., 4., 4., 4., 8., 8., 8.]
    );
    assert_eq!(
        floats(&sub.rotations.unwrap()),
        vec![0., 0., 0., 0., 4., 4., 4., 4., 8., 8., 8., 8.]
    );
    assert_eq!(
        floats(&sub.log_scales.unwrap()),
        vec![0., 0., 0., 4., 4., 4., 8., 8., 8.]
    );
    let sh = floats(&sub.sh_coeffs.unwrap());
    assert_eq!(sh.len(), 3 * 6);
    assert_eq!(&sh[0..6], &[0., 0., 0., 0., 0., 0.]);
    assert_eq!(&sh[6..12], &[4., 4., 4., 4., 4., 4.]);
    assert_eq!(floats(&sub.raw_opacities.unwrap()), vec![0., 4., 8.]);
    let evidence = floats(&sub.evidence.unwrap());
    assert_eq!(evidence.len(), 3 * EVIDENCE_STRIDE);
    assert_eq!(&evidence[7..14], &[4., 4., 4., 4., 4., 4., 4.]);
}

#[test]
fn subsample_is_within_every_budget() {
    for n in 1..40usize {
        for max in 1..45usize {
            let data = SplatData {
                means: scalars(&vec![0.0; 3 * n]),
                rotations: None,
                log_scales: None,
                sh_coeffs: None,
                raw_opacities: Some(scalars(&vec![0.0; n])),
                evidence: None,
            };
            let sub = data.subsample(max);
            assert!(sub.num_splats() <= max);
            assert_eq!(sub.num_splats(), sub.raw_opacities.unwrap().len());
            assert!(sub.rotations.is_none());
        }
    }
}

#[test]
fn missing_lanes_get_defaults() {
    let data = SplatData {
        means: scalars(&[1., 2., 3., 4., 5., 6.]),
        rotations: None,
        log_scales: None,
        sh_coeffs: None,
        raw_opacities: None,
        evidence: None,
    };
    let opacity = Scalar {
        bits: 0.25f32.to_bits(),
    };
    let splats = data.into_splats(opacity, SplatRenderMode::Mip);
    assert_eq!(floats(&splats.means), vec![1., 2., 3., 4., 5., 6.]);
    assert_eq!(
        floats(&splats.rotations),
        vec![1., 0., 0., 0., 1., 0., 0., 0.]
    );
    assert_eq!(floats(&splats.log_scales), vec![-4.0; 6]);
    assert_eq!(floats(&splats.sh_coeffs), vec![0.5; 6]);
    assert_eq!(floats(&splats.opacities), vec![0.25; 2]);
    assert_eq!(splats.mode, SplatRenderMode::Mip);
}

#[test]
fn present_lanes_are_kept() {
    let data = SplatData {
        means: scalars(&[1., 2., 3.]),
        rotations: Some(scalars(&[0., 1., 0., 0.])),
        log_scales: Some(scalars(&[-1., -2., -3.])),
        sh_coeffs: Some(scalars(&[0.1, 0.2, 0.3])),
        raw_opacities: Some(scalars(&[7.0])),
        evidence: None,
    };
    let splats = data.into_splats(Scalar { bits: 0 }, SplatRenderMode::Default);
    assert_eq!(floats(&splats.rotations), vec![0., 1., 0., 0.]);
    assert_eq!(floats(&splats.log_scales), vec![-1., -2., -3.]);
    assert_eq!(floats(&splats.sh_coeffs), vec![0.1, 0.2, 0.3]);
    assert_eq!(floats(&splats.opacities), vec![7.0]);
}

#[test]
fn coefficients_are_interleaved_by_channel() {
    let dc = [
        Scalar { bits: 10.0f32.to_bits() },
        Scalar { bits: 20.0f32.to_bits() },
        Scalar { bits: 30.0f32.to_bits() },
    ];
    let mut out = scalars(&[99.0]);
    interleave_coeffs(dc, &scalars(&[1., 2., 3., 4., 5., 6., 7.]), &mut out);
    // Two coefficients per channel; the seventh value does not make a row.
    assert_eq!(
        floats(&out),
        vec![99.0, 10.0, 20.0, 30.0, 1., 3., 5., 2., 4., 6.]
    );
}
