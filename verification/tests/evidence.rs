use brush_splat::evidence::{
    count_view, evidence_field, plan_view, prune_by_inmask, resolve_evidence, AlphaMode,
    EvidenceSource, RowMismatch, SplatEvidence, TotalLane,
};
use brush_splat::scalar::Scalar;
use brush_splat::splat_data::EVIDENCE_STRIDE;

fn scalar(x: f32) -> Scalar {
    Scalar { bits: x.to_bits() }
}

fn scalars(values: &[f32]) -> Vec<Scalar> {
    values.iter().map(|x| scalar(*x)).collect()
}

fn ratio(ev: &SplatEvidence, i: usize) -> Scalar {
    scalar(f32::from_bits(ev.w_in[i].bits) / f32::from_bits(ev.w_all[i].bits))
}

fn sample() -> SplatEvidence {
    SplatEvidence {
        w_in: scalars(&[1.0, 2.0, 3.0]),
        w_all: scalars(&[2.0, 2.0, 6.0]),
        err: scalars(&[0.1, 0.2, 0.3]),
        views: scalars(&[1.0, 0.0, 5.0]),
        dir: vec![
            [scalar(1.0), scalar(0.0), scalar(0.0)],
            [scalar(0.0), scalar(1.0), scalar(0.0)],
            [scalar(0.0), scalar(0.0), scalar(1.0)],
        ],
    }
}

#[test]
fn flat_round_trip_and_select() {
    let ev = sample();
    let flat = ev.to_flat();
    assert_eq!(flat.len(), 3 * EVIDENCE_STRIDE);
    assert_eq!(SplatEvidence::from_flat(&flat), ev);
    let sel = ev.select(&vec![true, false, true]);
    assert_eq!(sel.w_in, scalars(&[1.0, 3.0]));
    assert_eq!(
        sel.dir,
        vec![
            [scalar(1.0), scalar(0.0), scalar(0.0)],
            [scalar(0.0), scalar(0.0), scalar(1.0)]
        ]
    );
    let inmask = f32::from_bits(ev.inmask(0, ratio(&ev, 0)).bits);
    assert!((inmask - 0.5).abs() < 1e-6);
}

#[test]
fn rows_are_flattened_in_field_order() {
    let flat = sample().to_flat();
    assert_eq!(
        flat[7..14],
        scalars(&[2.0, 2.0, 0.2, 0.0, 0.0, 1.0, 0.0])[..]
    );
    let names: Vec<&str> = (0..EVIDENCE_STRIDE).map(evidence_field).collect();
    assert_eq!(
        names,
        vec!["ev_w_in", "ev_w_all", "ev_err", "ev_views", "ev_dir_0", "ev_dir_1", "ev_dir_2"]
    );
}

#[test]
fn a_block_survives_the_round_trip() {
    let block: Vec<Scalar> = (0..14u32).map(|bits| Scalar { bits }).collect();
    assert_eq!(SplatEvidence::from_flat(&block).to_flat(), block);
    assert!(SplatEvidence::from_flat(&Vec::new()).is_empty());
}

#[test]
fn there_is_no_evidence_by_default() {
    let ev = SplatEvidence::default();
    assert!(ev.is_empty());
    assert!(ev.to_flat().is_empty());
    assert_eq!(ev, SplatEvidence::from_flat(&Vec::new()));
}

#[test]
fn tables_are_compared_by_value() {
    let ev = sample();
    let mut other = ev.clone();
    assert_eq!(other, ev);
    // The two zeros are equal.
    other.views[1] = scalar(-0.0);
    other.dir[0][2] = scalar(-0.0);
    assert_eq!(other, ev);
    other.err[2] = scalar(0.31);
    assert_ne!(other, ev);
    let mut other = ev.clone();
    other.dir[1][0] = scalar(0.5);
    assert_ne!(other, ev);
    // A NaN equals nothing, not even itself.
    let mut other = ev.clone();
    other.w_in[0] = scalar(f32::NAN);
    assert_ne!(other, other.clone());
    assert_ne!(ev.select(&vec![true, true, false]), ev);
}

#[test]
fn the_inmask_fraction_is_clamped_and_needs_mass() {
    let mut ev = sample();
    assert_eq!(ev.inmask(0, scalar(1.5)), Scalar::one());
    assert_eq!(ev.inmask(0, scalar(-0.5)), Scalar::zero());
    ev.w_all[0] = scalar(0.0);
    assert_eq!(ev.inmask(0, scalar(f32::NAN)), Scalar::zero());
    ev.w_all[0] = scalar(-1.0);
    assert_eq!(ev.inmask(0, scalar(0.7)), Scalar::zero());
}

#[test]
fn readback_tensors_become_columns() {
    let sums = scalars(&[1.0, 2.0, 3.0, 4.0, 5.0, 6.0]);
    let dir = scalars(&[0.1, 0.2, 0.3, 0.4, 0.5, 0.6]);
    let ev = SplatEvidence::from_readback(&sums, scalars(&[7.0, 8.0]), &dir);
    assert_eq!(ev.w_in, scalars(&[1.0, 4.0]));
    assert_eq!(ev.err, scalars(&[2.0, 5.0]));
    assert_eq!(ev.w_all, scalars(&[3.0, 6.0]));
    assert_eq!(ev.views, scalars(&[7.0, 8.0]));
    assert_eq!(ev.dir[1], [scalar(0.4), scalar(0.5), scalar(0.6)]);
}

#[test]
fn one_pixel_of_mass_supports_a_splat() {
    let mut views: Vec<u32> = vec![0, 0, 0, 0];
    count_view(&mut views, &scalars(&[0.99, 1.0, 1.01, f32::NAN]));
    count_view(&mut views, &scalars(&[0.0, 1.0, 0.0, 2.0]));
    assert_eq!(views, vec![0, 2, 1, 1]);
}

#[test]
fn pruning_drops_unsupported_and_fringe_splats() {
    let ev = sample();
    let ratios: Vec<Scalar> = (0..3).map(|i| ratio(&ev, i)).collect();
    let (idx, kept) = prune_by_inmask(3, &ev, &ratios, scalar(0.5));
    assert_eq!(idx, Some(vec![0, 2]));
    assert_eq!(kept, ev.select(&vec![true, false, true]));
    let (idx, kept) = prune_by_inmask(3, &ev, &ratios, scalar(0.51));
    assert_eq!(idx, Some(vec![]));
    assert!(kept.is_empty());
}

#[test]
fn pruning_keeps_everything_that_is_supported() {
    let mut ev = sample();
    ev.views[1] = scalar(1.0);
    let ratios: Vec<Scalar> = (0..3).map(|i| ratio(&ev, i)).collect();
    let (idx, kept) = prune_by_inmask(3, &ev, &ratios, scalar(0.1));
    assert_eq!(idx, None);
    assert_eq!(kept, ev);
}

#[test]
fn pruning_twice_drops_nothing_more() {
    let ev = sample();
    let ratios: Vec<Scalar> = (0..3).map(|i| ratio(&ev, i)).collect();
    let (_, once) = prune_by_inmask(3, &ev, &ratios, scalar(0.5));
    let ratios: Vec<Scalar> = (0..2).map(|i| ratio(&once, i)).collect();
    let (idx, twice) = prune_by_inmask(2, &once, &ratios, scalar(0.5));
    assert_eq!(idx, None);
    assert_eq!(twice, once);
}

#[test]
fn masked_views_count_mass_in_their_mask_only() {
    let plan = plan_view(AlphaMode::Masked, false, scalar(0.0), true);
    assert_eq!(plan.total, TotalLane::InMask);
    assert!(!plan.weigh_mask);
    assert!(!plan.add_normals);
    let plan = plan_view(AlphaMode::Transparent, true, scalar(0.5), true);
    assert_eq!(plan.total, TotalLane::Everywhere);
    assert!(plan.weigh_mask);
    assert!(plan.add_normals);
    assert!(!plan_view(AlphaMode::Transparent, true, scalar(0.5), false).add_normals);
}

#[test]
fn carried_evidence_comes_first() {
    let ev = sample();
    match resolve_evidence(Some(ev.to_flat()), 3, true) {
        Ok(EvidenceSource::Carried(found)) => assert_eq!(found, ev),
        _ => panic!("the block is there"),
    }
    let found = resolve_evidence(None, 3, true);
    assert!(matches!(found, Ok(EvidenceSource::Measure)));
    let found = resolve_evidence(None, 3, false);
    assert!(matches!(found, Ok(EvidenceSource::Trusted)));
}

#[test]
fn mismatched_rows_are_an_error() {
    let Err(e) = resolve_evidence(Some(sample().to_flat()), 4, true) else {
        panic!("three rows are not four")
    };
    assert_eq!(e.message(), "ply evidence has 3 rows for 4 splats");
    let e = RowMismatch {
        carried: false,
        rows: 10,
        splats: 0,
    };
    assert_eq!(e.message(), "evidence has 10 rows for 0 splats");
}
