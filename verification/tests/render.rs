use brush_splat::eval::plan_eval;
use brush_splat::evidence::AlphaMode;
use brush_splat::launch::workgroups;
use brush_splat::render::{
    camera_columns, check_channels, confident_pixels, file_stem, gate, invalid_camera, output_name,
    sidecar_name, vec3_fields, vec3_value,
};
use brush_splat::scalar::Scalar;

fn scalar(x: f32) -> Scalar {
    Scalar { bits: x.to_bits() }
}

fn scalars(values: &[f32]) -> Vec<Scalar> {
    values.iter().map(|x| scalar(*x)).collect()
}

fn parse_vec3(s: &str) -> Result<[Scalar; 3], String> {
    let fields = vec3_fields(s)?;
    let parse = |p: &str| p.parse::<f32>().map(scalar).map_err(|e| e.to_string());
    vec3_value(parse(&fields[0]), parse(&fields[1]), parse(&fields[2]))
}

#[test]
fn colours_have_three_fields() {
    assert_eq!(
        parse_vec3("1.0, 0.5 ,0").unwrap(),
        [scalar(1.0), scalar(0.5), scalar(0.0)]
    );
    assert_eq!(
        parse_vec3("1.0,0.5").unwrap_err(),
        "expected \"r,g,b\", got \"1.0,0.5\""
    );
    assert_eq!(
        parse_vec3("1,2,3,").unwrap_err(),
        "expected \"r,g,b\", got \"1,2,3,\""
    );
    assert_eq!(parse_vec3("").unwrap_err(), "expected \"r,g,b\", got \"\"");
}

#[test]
fn the_first_bad_numeral_is_reported() {
    assert_eq!(parse_vec3("1,x,").unwrap_err(), "invalid float literal");
    assert_eq!(
        parse_vec3("1, ,x").unwrap_err(),
        "cannot parse float from empty string"
    );
    let bad = vec3_value(
        Ok(scalar(1.0)),
        Ok(scalar(2.0)),
        Err("third".to_string()),
    );
    assert_eq!(bad.unwrap_err(), "third");
}

#[test]
fn cameras_are_turned_around() {
    let m = [
        [scalar(1.0), scalar(2.0), scalar(3.0)],
        [scalar(4.0), scalar(5.0), scalar(6.0)],
        [scalar(7.0), scalar(8.0), scalar(9.0)],
    ];
    let columns = camera_columns(&m);
    assert_eq!(columns[0].to_vec(), scalars(&[1.0, 4.0, 7.0]));
    assert_eq!(columns[1].to_vec(), scalars(&[-2.0, -5.0, -8.0]));
    assert_eq!(columns[2].to_vec(), scalars(&[-3.0, -6.0, -9.0]));
    let mut rows = m;
    for r in 0..3 {
        for c in 0..3 {
            rows[r][c] = columns[c][r];
        }
    }
    let again = camera_columns(&rows);
    for r in 0..3 {
        for c in 0..3 {
            assert_eq!(again[c][r], m[r][c]);
        }
    }
}

#[test]
fn renders_have_the_channels_asked_for() {
    assert!(check_channels(false, 4).is_ok());
    assert!(check_channels(true, 7).is_ok());
    assert_eq!(
        check_channels(false, 7).unwrap_err().message(),
        "expected an RGBA render, got 7 channels"
    );
    assert_eq!(
        check_channels(true, 4).unwrap_err().message(),
        "expected an RGBA+feature render, got 4 channels"
    );
}

#[test]
fn pixels_are_taken_apart() {
    let mut data = vec![0.1, 0.2, 0.3, 1.0, 0.5, 9.0, 9.0];
    data.extend([0.4, 0.5, 0.6, 1.0, 1.5, 9.0, 9.0]);
    data.extend([0.7, 0.8, 0.9, 1.0, -0.5, 9.0, 9.0]);
    data.push(1.0);
    let pixels = confident_pixels(&scalars(&data));
    assert_eq!(pixels.len(), 3);
    assert_eq!(pixels[0].rgb.to_vec(), scalars(&[0.1, 0.2, 0.3]));
    assert_eq!(pixels[2].rgb.to_vec(), scalars(&[0.7, 0.8, 0.9]));
    let confidence: Vec<Scalar> = pixels.iter().map(|p| p.confidence).collect();
    assert_eq!(confidence, scalars(&[0.5, 1.0, 0.0]));
}

fn smoothstep(lo: f32, hi: f32, x: f32) -> f32 {
    if hi <= lo {
        return if x >= lo { 1.0 } else { 0.0 };
    }
    let t = ((x - lo) / (hi - lo)).clamp(0.0, 1.0);
    t * t * (3.0 - 2.0 * t)
}

#[test]
fn the_gate_fades_between_its_bounds() {
    for (lo, hi) in [(0.45f32, 0.65f32), (0.5, 0.5), (0.6, 0.4), (0.0, 1.0)] {
        for step in 0..=100u16 {
            let x = f32::from(step) / 100.0;
            let t = ((x - lo) / (hi - lo)).clamp(0.0, 1.0);
            let fade = t * t * (3.0 - 2.0 * t);
            let found = gate(scalar(lo), scalar(hi), scalar(x), scalar(fade));
            assert_eq!(f32::from_bits(found.bits), smoothstep(lo, hi, x));
        }
    }
    let half = scalar(0.5);
    assert_eq!(gate(half, half, half, scalar(0.3)), Scalar::one());
    assert_eq!(
        gate(scalar(0.45), scalar(0.65), scalar(0.45), half),
        Scalar::zero()
    );
    assert_eq!(
        gate(scalar(0.45), scalar(0.65), scalar(0.65), half),
        Scalar::one()
    );
    assert_eq!(gate(scalar(0.45), scalar(0.65), scalar(0.55), half), half);
}

#[test]
fn files_are_named_after_their_camera() {
    let stem = file_stem(&Some("frame_00001_".to_string()), "frame_00001_.png");
    assert_eq!(stem, "frame_00001_");
    assert_eq!(file_stem(&None, ".."), "..");
    assert_eq!(output_name(&stem, "png"), "frame_00001_.png");
    assert_eq!(sidecar_name(&stem, "png"), "frame_00001_.conf.png");
    assert_eq!(
        invalid_camera("left"),
        "camera 'left' is invalid (nan/inf)"
    );
}

#[test]
fn masked_views_are_scored_over_their_mask() {
    let plan = plan_eval(true, AlphaMode::Masked, true, scalar(0.25));
    assert!(plan.masked);
    assert_eq!(plan.coverage, scalar(0.25));
    let plan = plan_eval(true, AlphaMode::Masked, true, scalar(0.0));
    assert_eq!(plan.coverage, scalar(0.01));
    for (normalize, mode, alpha) in [
        (false, AlphaMode::Masked, true),
        (true, AlphaMode::Transparent, true),
        (true, AlphaMode::Masked, false),
    ] {
        let plan = plan_eval(normalize, mode, alpha, scalar(0.25));
        assert!(!plan.masked);
        assert_eq!(plan.coverage, scalar(1.0));
    }
}

#[test]
fn every_splat_gets_a_thread() {
    assert_eq!(workgroups(0), 0);
    assert_eq!(workgroups(1), 1);
    assert_eq!(workgroups(256), 1);
    assert_eq!(workgroups(257), 2);
    assert_eq!(workgroups(u32::MAX), 16_777_216);
}
