use brush_splat::confidence::{
    agreement, is_disc, shortest_axis, AxisOrder, ConfidenceModel, ConfidenceParams, ConfidenceRow,
    FacingRow,
};
use brush_splat::evidence::SplatEvidence;
use brush_splat::scalar::Scalar;

fn scalar(x: f32) -> Scalar {
    Scalar { bits: x.to_bits() }
}

fn scalars(values: &[f32]) -> Vec<Scalar> {
    values.iter().map(|x| scalar(*x)).collect()
}

fn disc(transform: &[f32]) -> (usize, bool) {
    let order = shortest_axis(&scalars(transform));
    let ratio = (transform[7 + order.shortest] - transform[7 + order.middle]).exp();
    (order.shortest, is_disc(scalar(ratio)))
}

#[test]
fn shortest_axis_picks_smallest_scale() {
    // Identity rotation, z is the shortest (log) scale by a wide margin.
    let t = [0.0, 0.0, 0.0, 1.0, 0.0, 0.0, 0.0, 0.0, 0.0, -2.0];
    let (index, flat) = disc(&t);
    assert!(flat);
    let mut axis = [0.0f32; 3];
    axis[index] = 1.0;
    assert!((axis[2].abs() - 1.0).abs() < 1e-6);
    // Isotropic splat: not a disc.
    let t = [0.0, 0.0, 0.0, 1.0, 0.0, 0.0, 0.0, 0.0, 0.0, 0.0];
    assert!(!disc(&t).1);
}

#[test]
fn axes_are_ordered_as_by_a_stable_sort() {
    let values = [-2.0f32, -0.0, 0.0, 1.0, f32::NAN];
    for x in values {
        for y in values {
            for z in values {
                let scales = [x, y, z];
                let mut order = [0usize, 1, 2];
                order.sort_by(|a, b| scales[*a].total_cmp(&scales[*b]));
                let mut t = vec![0.0f32; 7];
                t.extend(scales);
                assert_eq!(
                    shortest_axis(&scalars(&t)),
                    AxisOrder {
                        shortest: order[0],
                        middle: order[1]
                    }
                );
            }
        }
    }
}

#[test]
fn the_axis_order_ignores_the_pose() {
    let scales = [-1.0f32, -3.0, -2.0];
    let mut a = vec![0.0f32, 0.0, 0.0, 1.0, 0.0, 0.0, 0.0];
    a.extend(scales);
    let mut b = vec![5.0f32, -6.0, 7.0, 2.0, 0.5, -0.5, 3.0];
    b.extend(scales);
    let order = shortest_axis(&scalars(&a));
    assert_eq!(order, shortest_axis(&scalars(&b)));
    assert_eq!((order.shortest, order.middle), (1, 2));
    let axes = [
        [scalar(1.0), scalar(0.0), scalar(0.0)],
        [scalar(0.0), scalar(0.6), scalar(0.8)],
        [scalar(0.0), scalar(-0.8), scalar(0.6)],
    ];
    assert_eq!(order.world_axis(&axes), axes[1]);
    // A needle has two equal short axes, and is no disc.
    let needle = [0.0, 0.0, 0.0, 1.0, 0.0, 0.0, 0.0, 0.0, -2.0, -2.0];
    assert_eq!(disc(&needle), (1, false));
}

#[test]
fn discs_are_thinner_than_half() {
    assert!(is_disc(scalar(0.49)));
    assert!(!is_disc(scalar(0.5)));
    assert!(!is_disc(scalar(f32::NAN)));
}

#[test]
fn there_is_no_agreement_without_mass() {
    assert_eq!(agreement(scalar(1.0), scalar(0.7)), scalar(0.7));
    assert_eq!(agreement(scalar(0.0), scalar(0.7)), scalar(0.0));
    assert_eq!(agreement(scalar(-1.0), scalar(0.7)), scalar(0.0));
}

fn row(product: f32, dir_len: f32) -> ConfidenceRow {
    ConfidenceRow {
        product: scalar(product),
        dir_len: scalar(dir_len),
        unit_dir: [scalar(0.0), scalar(0.6), scalar(0.8)],
        angle_in: scalar(0.5),
        angle_out: scalar(0.8),
        angle_floor: scalar(0.501),
    }
}

fn evidence(w_in: &[f32]) -> SplatEvidence {
    let n = w_in.len();
    SplatEvidence {
        w_in: scalars(w_in),
        w_all: scalars(&vec![1.0; n]),
        err: scalars(&vec![0.0; n]),
        views: scalars(&vec![1.0; n]),
        dir: vec![[Scalar::zero(); 3]; n],
    }
}

#[test]
fn unobserved_splats_have_no_confidence() {
    let rows = vec![row(0.9, 1.0), row(0.9, 1.0), row(0.9, 1e-7)];
    let model =
        ConfidenceModel::new(&evidence(&[2.0, 0.0, 2.0]), 3, &rows, &None, scalar(0.17)).unwrap();
    assert_eq!(model.static_conf, scalars(&[0.9, 0.0, 0.0]));
    assert_eq!(
        model.mu,
        scalars(&[0.0, 0.6, 0.8, 0.0, 0.6, 0.8, 0.0, 0.0, 0.0])
    );
    assert_eq!(model.angle_in, scalars(&[0.5, 0.5, 0.5]));
    assert_eq!(model.angle_out, scalars(&[0.8, 0.8, 0.8]));
    assert_eq!(model.facing, None);
    assert_eq!(model.cos_graze, scalar(0.17));
}

#[test]
fn the_fade_is_never_empty() {
    let mut sharp = row(0.9, 1.0);
    sharp.angle_out = scalar(0.5);
    let model = ConfidenceModel::new(&evidence(&[1.0]), 1, &vec![sharp], &None, scalar(0.0)).unwrap();
    assert_eq!(model.angle_out, scalars(&[0.501]));
}

#[test]
fn normals_are_turned_towards_the_observed_side() {
    let facing = vec![
        FacingRow {
            axis: [scalar(0.0), scalar(0.0), scalar(1.0)],
            along: scalar(-0.5),
            disc: true,
        },
        FacingRow {
            axis: [scalar(1.0), scalar(0.0), scalar(0.0)],
            along: scalar(0.0),
            disc: false,
        },
    ];
    let rows = vec![row(0.5, 1.0), row(0.5, 1.0)];
    let model = ConfidenceModel::new(
        &evidence(&[1.0, 1.0]),
        2,
        &rows,
        &Some(facing),
        scalar(0.17),
    )
    .unwrap();
    let (normals, gates) = model.facing.unwrap();
    assert_eq!(normals, scalars(&[-0.0, -0.0, -1.0, 1.0, 0.0, 0.0]));
    assert_eq!(gates, scalars(&[1.0, 0.0]));
}

#[test]
fn evidence_of_another_model_is_refused() {
    let found = ConfidenceModel::new(&evidence(&[1.0, 1.0]), 3, &Vec::new(), &None, scalar(0.0));
    assert_eq!(
        found.unwrap_err().message(),
        "evidence has 2 rows for 3 splats"
    );
}

#[test]
fn parameters_have_their_defaults() {
    let p = ConfidenceParams::default();
    assert_eq!(p.tau, scalar(0.08));
    assert_eq!(p.min_views, scalar(4.0));
    assert_eq!(p.inmask_lo, scalar(0.3));
    assert_eq!(p.inmask_hi, scalar(0.8));
    assert_eq!(p.angle_margin_deg, scalar(30.0));
    assert_eq!(p.angle_soft_deg, scalar(15.0));
    assert!(!p.facing);
    assert_eq!(p.graze_deg, scalar(80.0));
}
