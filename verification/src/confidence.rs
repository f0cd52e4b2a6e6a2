//! Per-splat confidence, derived from the evidence.
//!
//! The part that does not depend on the view is put together here, one row per
//! splat, from figures that the caller computes.

use vstd::prelude::*;

use crate::evidence::{RowMismatch, SplatEvidence};
use crate::import::append;
use crate::scalar::{Scalar, ONE_BITS, ZERO_BITS};

verus! {

/// Bit pattern of `1e-6`: shorter resultants of directions mean nothing.
pub const DIRECTION_EPS_BITS: u32 = 0x3586_37bd;

/// Bit pattern of `0.5`: below this ratio of its two shortest scales a splat is
/// a disc.
pub const DISC_RATIO_BITS: u32 = 0x3f00_0000;

/// Bit pattern of `0.08`.
pub const TAU_BITS: u32 = 0x3da3_d70a;

/// Bit pattern of `4.0`.
pub const MIN_VIEWS_BITS: u32 = 0x4080_0000;

/// Bit pattern of `0.3`.
pub const INMASK_LO_BITS: u32 = 0x3e99_999a;

/// Bit pattern of `0.8`.
pub const INMASK_HI_BITS: u32 = 0x3f4c_cccd;

/// Bit pattern of `30.0`.
pub const ANGLE_MARGIN_BITS: u32 = 0x41f0_0000;

/// Bit pattern of `15.0`.
pub const ANGLE_SOFT_BITS: u32 = 0x4170_0000;

/// Bit pattern of `80.0`.
pub const GRAZE_BITS: u32 = 0x42a0_0000;

/// What turns evidence into confidence.
#[derive(Clone, Copy, Debug, PartialEq, Eq)]
pub struct ConfidenceParams {
    /// Residual scale of the agreement term.
    pub tau: Scalar,
    /// Supporting views needed for full support.
    pub min_views: Scalar,
    /// In-mask fraction below which a splat is fully distrusted.
    pub inmask_lo: Scalar,
    /// In-mask fraction above which a splat is fully trusted.
    pub inmask_hi: Scalar,
    /// Degrees beyond the observed cone that a view is still fully covered.
    pub angle_margin_deg: Scalar,
    /// Degrees over which coverage fades past the margin.
    pub angle_soft_deg: Scalar,
    /// Also distrust discs seen at grazing angles or from behind.
    pub facing: bool,
    /// Degrees from the normal up to which a disc is fully trusted; from there
    /// on trust fades, and a disc seen edge-on has none.
    pub graze_deg: Scalar,
}

impl Default for ConfidenceParams {
    fn default() -> (r: ConfidenceParams)
        ensures
            r == (ConfidenceParams {
                tau: Scalar { bits: TAU_BITS },
                min_views: Scalar { bits: MIN_VIEWS_BITS },
                inmask_lo: Scalar { bits: INMASK_LO_BITS },
                inmask_hi: Scalar { bits: INMASK_HI_BITS },
                angle_margin_deg: Scalar { bits: ANGLE_MARGIN_BITS },
                angle_soft_deg: Scalar { bits: ANGLE_SOFT_BITS },
                facing: false,
                graze_deg: Scalar { bits: GRAZE_BITS },
            }),
    {
        ConfidenceParams {
            tau: Scalar { bits: TAU_BITS },
            min_views: Scalar { bits: MIN_VIEWS_BITS },
            inmask_lo: Scalar { bits: INMASK_LO_BITS },
            inmask_hi: Scalar { bits: INMASK_HI_BITS },
            angle_margin_deg: Scalar { bits: ANGLE_MARGIN_BITS },
            angle_soft_deg: Scalar { bits: ANGLE_SOFT_BITS },
            facing: false,
            graze_deg: Scalar { bits: GRAZE_BITS },
        }
    }
}

/// A splat's axes by their scales.
#[derive(Clone, Copy, Debug, PartialEq, Eq, Structural)]
pub struct AxisOrder {
    /// The axis of the smallest scale.
    pub shortest: usize,
    /// The axis of the second smallest scale.
    pub middle: usize,
}

/// Log-scale of an axis in the ten values of a splat: its position, its
/// quaternion and its three log-scales.
pub open spec fn log_scale(transform: Seq<Scalar>, axis: int) -> Scalar {
    transform[7 + axis]
}

/// Whether axis `a` comes before axis `b`: by the total order of the
/// log-scales, and by the index where they are equal.
pub open spec fn before(transform: Seq<Scalar>, a: int, b: int) -> bool {
    let left = log_scale(transform, a).total_rank();
    let right = log_scale(transform, b).total_rank();
    left < right || (left == right && a < b)
}

fn comes_before(transform: &[Scalar], a: usize, b: usize) -> (r: bool)
    requires
        transform@.len() >= 10,
        a < b < 3,
    ensures
        r == before(transform@, a as int, b as int),
{
    !transform[7 + b].is_before(transform[7 + a])
}

impl AxisOrder {
    /// The order is that of the log-scales of a splat.
    pub open spec fn orders(self, transform: Seq<Scalar>) -> bool {
        &&& self.shortest < 3
        &&& self.middle < 3
        &&& self.shortest != self.middle
        &&& forall|k: int|
            0 <= k < 3 && k != self.shortest ==> #[trigger] before(
                transform,
                self.shortest as int,
                k,
            )
        &&& forall|k: int|
            0 <= k < 3 && k != self.shortest && k != self.middle ==> #[trigger] before(
                transform,
                self.middle as int,
                k,
            )
    }

    /// The shortest of the three axes of a splat in the world.
    pub fn world_axis(&self, axes: &[[Scalar; 3]; 3]) -> (r: [Scalar; 3])
        requires
            self.shortest < 3,
        ensures
            r == axes@[self.shortest as int],
    {
        axes[self.shortest]
    }
}

/// The two shortest axes of a splat, of two equal ones the first.
pub fn shortest_axis(transform: &[Scalar]) -> (r: AxisOrder)
    requires
        transform@.len() >= 10,
    ensures
        r.orders(transform@),
{
    let x_y = comes_before(transform, 0, 1);
    let x_z = comes_before(transform, 0, 2);
    let y_z = comes_before(transform, 1, 2);
    if x_y && x_z {
        AxisOrder {
            shortest: 0,
            middle: if y_z {
                1
            } else {
                2
            },
        }
    } else if !x_y && y_z {
        AxisOrder {
            shortest: 1,
            middle: if x_z {
                0
            } else {
                2
            },
        }
    } else {
        AxisOrder {
            shortest: 2,
            middle: if x_y {
                0
            } else {
                1
            },
        }
    }
}

/// Whether a splat with this ratio of its two shortest scales is a disc, so
/// that its shortest axis is a normal.
pub fn is_disc(scale_ratio: Scalar) -> (r: bool)
    ensures
        r == scale_ratio.below(Scalar { bits: DISC_RATIO_BITS }),
{
    scale_ratio.is_below(Scalar { bits: DISC_RATIO_BITS })
}

/// How well the views agree on a splat: the decayed residual where it has
/// in-mask mass, else nothing.
pub fn agreement(w_in: Scalar, decayed: Scalar) -> (r: Scalar)
    ensures
        r == if (Scalar { bits: ZERO_BITS }).below(w_in) {
            decayed
        } else {
            Scalar { bits: ZERO_BITS }
        },
{
    if Scalar::zero().is_below(w_in) {
        decayed
    } else {
        Scalar::zero()
    }
}

/// The figures of one splat.
#[derive(Clone, Copy, Debug, PartialEq, Eq)]
pub struct ConfidenceRow {
    /// In-mask trust times agreement times support.
    pub product: Scalar,
    /// Length of the resultant of the observed directions.
    pub dir_len: Scalar,
    /// The resultant divided by its length.
    pub unit_dir: [Scalar; 3],
    /// Angle from the mean observed direction up to which the splat is fully
    /// covered.
    pub angle_in: Scalar,
    /// Angle from which the splat is not covered.
    pub angle_out: Scalar,
    /// The smallest outer angle that leaves a fade: a little above `angle_in`.
    pub angle_floor: Scalar,
}

/// The figures of one splat for the facing term.
#[derive(Clone, Copy, Debug, PartialEq, Eq)]
pub struct FacingRow {
    /// The shortest axis.
    pub axis: [Scalar; 3],
    /// Its inner product with the mean observed direction.
    pub along: Scalar,
    pub disc: bool,
}

impl ConfidenceRow {
    /// The confidence of a splat with that in-mask mass, before the view is
    /// known: none where it has no mass or no observed direction.
    pub open spec fn static_conf(self, w_in: Scalar) -> Scalar {
        if self.dir_len.below(Scalar { bits: DIRECTION_EPS_BITS }) || w_in.at_most(
            Scalar { bits: ZERO_BITS },
        ) {
            Scalar { bits: ZERO_BITS }
        } else {
            self.product
        }
    }

    /// The mean observed direction, zero where there is none.
    pub open spec fn mean_dir(self) -> Seq<Scalar> {
        if (Scalar { bits: DIRECTION_EPS_BITS }).below(self.dir_len) {
            self.unit_dir@
        } else {
            seq![
                (Scalar { bits: ZERO_BITS }),
                (Scalar { bits: ZERO_BITS }),
                (Scalar { bits: ZERO_BITS }),
            ]
        }
    }

    /// The mean observed direction, zero where there is none.
    pub fn direction(&self) -> (r: [Scalar; 3])
        ensures
            r@ == self.mean_dir(),
    {
        let zero = Scalar { bits: ZERO_BITS };
        let r: [Scalar; 3] = if (Scalar { bits: DIRECTION_EPS_BITS }).is_below(self.dir_len) {
            self.unit_dir
        } else {
            [zero, zero, zero]
        };
        assert(r@ =~= self.mean_dir());
        r
    }
}

impl FacingRow {
    /// The shortest axis, turned towards the observed side.
    pub open spec fn normal(self) -> Seq<Scalar> {
        if self.along.below(Scalar { bits: ZERO_BITS }) {
            seq![self.axis@[0].negated(), self.axis@[1].negated(), self.axis@[2].negated()]
        } else {
            self.axis@
        }
    }

    /// One for a disc, else zero.
    pub open spec fn gate(self) -> Scalar {
        if self.disc {
            Scalar { bits: ONE_BITS }
        } else {
            Scalar { bits: ZERO_BITS }
        }
    }
}

/// The confidence of every splat as far as it does not depend on the view.
#[derive(Clone, Debug, PartialEq)]
pub struct ConfidenceModel {
    pub static_conf: Vec<Scalar>,
    /// Mean observed directions, three values per splat.
    pub mu: Vec<Scalar>,
    pub angle_in: Vec<Scalar>,
    pub angle_out: Vec<Scalar>,
    /// Normals, three values per splat, and gates of the facing term.
    pub facing: Option<(Vec<Scalar>, Vec<Scalar>)>,
    pub cos_graze: Scalar,
}

impl ConfidenceModel {
    /// The model holds these rows for splats with these in-mask masses.
    pub open spec fn holds(self, w_in: Seq<Scalar>, rows: Seq<ConfidenceRow>) -> bool {
        &&& self.static_conf@.len() == rows.len()
        &&& self.mu@.len() == 3 * rows.len()
        &&& self.angle_in@.len() == rows.len()
        &&& self.angle_out@.len() == rows.len()
        &&& forall|i: int|
            #![trigger rows[i]]
            0 <= i < rows.len() ==> {
                &&& self.static_conf@[i] == rows[i].static_conf(w_in[i])
                &&& self.mu@.subrange(3 * i, 3 * i + 3) == rows[i].mean_dir()
                &&& self.angle_in@[i] == rows[i].angle_in
                &&& self.angle_out@[i] == rows[i].angle_out.larger(rows[i].angle_floor)
            }
    }

    /// The model holds these rows for the facing term, or none.
    pub open spec fn faces(self, rows: Option<Seq<FacingRow>>) -> bool {
        match (self.facing, rows) {
            (Some((normals, gates)), Some(rows)) => {
                &&& normals@.len() == 3 * rows.len()
                &&& gates@.len() == rows.len()
                &&& forall|i: int|
                    #![trigger rows[i]]
                    0 <= i < rows.len() ==> normals@.subrange(3 * i, 3 * i + 3)
                        == rows[i].normal() && gates@[i] == rows[i].gate()
            },
            (None, None) => true,
            _ => false,
        }
    }

    /// The model of the splats with that evidence, from the figures of each
    /// splat; an error where the evidence has another number of rows.
    pub fn new(
        evidence: &SplatEvidence,
        num_splats: usize,
        rows: &Vec<ConfidenceRow>,
        facing: &Option<Vec<FacingRow>>,
        cos_graze: Scalar,
    ) -> (r: Result<ConfidenceModel, RowMismatch>)
        requires
            evidence.wf(),
            evidence@.len() == num_splats ==> rows@.len() == num_splats,
            evidence@.len() == num_splats ==> (*facing matches Some(f) ==> f@.len() == num_splats),
        ensures
            match r {
                Ok(model) => {
                    &&& evidence@.len() == num_splats
                    &&& model.holds(evidence.w_in@, rows@)
                    &&& model.faces(
                        match *facing {
                            Some(f) => Some(f@),
                            None => None,
                        },
                    )
                    &&& model.cos_graze == cos_graze
                    &&& model.static_conf@.len() == num_splats
                    &&& forall|i: int|
                        #![trigger model.static_conf@[i]]
                        0 <= i < num_splats ==> {
                            let observed = !rows@[i].dir_len.below(Scalar { bits: 0x3586_37bd })
                                && !evidence.w_in@[i].at_most(Scalar { bits: 0 });
                            &&& observed ==> model.static_conf@[i] == rows@[i].product
                            &&& !observed ==> model.static_conf@[i] == (Scalar { bits: 0 })
                        }
                },
                Err(e) => evidence@.len() != num_splats && e == (RowMismatch {
                    carried: false,
                    rows: evidence@.len() as usize,
                    splats: num_splats,
                }),
            },
    {
        let found: usize = evidence.len();
        if found != num_splats {
            return Err(RowMismatch { carried: false, rows: found, splats: num_splats });
        }
        let eps = Scalar { bits: DIRECTION_EPS_BITS };
        let zero = Scalar { bits: ZERO_BITS };
        let mut model = ConfidenceModel {
            static_conf: Vec::new(),
            mu: Vec::new(),
            angle_in: Vec::new(),
            angle_out: Vec::new(),
            facing: None,
            cos_graze,
        };
        let mut i: usize = 0;
        while i < num_splats
            invariant
                i <= num_splats,
                rows@.len() == num_splats,
                evidence.wf(),
                evidence@.len() == num_splats,
                eps == (Scalar { bits: DIRECTION_EPS_BITS }),
                zero == (Scalar { bits: ZERO_BITS }),
                model.holds(evidence.w_in@, rows@.take(i as int)),
                model.facing is None,
                model.cos_graze == cos_graze,
            decreases num_splats - i,
        {
            let row = rows[i];
            let ghost prior = model;
            let ghost shorter = rows@.take(i as int);
            let ghost longer = rows@.take(i + 1);
            let w_in = evidence.w_in[i];
            let conf = if row.dir_len.is_below(eps) || w_in.is_at_most(zero) {
                zero
            } else {
                row.product
            };
            model.static_conf.push(conf);
            let dir: [Scalar; 3] = row.direction();
            append(&mut model.mu, &dir);
            model.angle_in.push(row.angle_in);
            model.angle_out.push(row.angle_out.max(row.angle_floor));
            i += 1;
            proof {
                assert forall|k: int| #![trigger longer[k]] 0 <= k < longer.len() implies {
                    &&& model.static_conf@[k] == longer[k].static_conf(evidence.w_in@[k])
                    &&& model.mu@.subrange(3 * k, 3 * k + 3) == longer[k].mean_dir()
                    &&& model.angle_in@[k] == longer[k].angle_in
                    &&& model.angle_out@[k] == longer[k].angle_out.larger(longer[k].angle_floor)
                } by {
                    if k < i - 1 {
                        assert(longer[k] == shorter[k]);
                        assert(model.mu@.subrange(3 * k, 3 * k + 3) =~= prior.mu@.subrange(
                            3 * k,
                            3 * k + 3,
                        ));
                    } else {
                        assert(model.mu@.subrange(3 * k, 3 * k + 3) =~= dir@);
                    }
                }
            }
        }
        assert(rows@.take(i as int) == rows@);
        if let Some(facing) = facing {
            model.facing = Some(collect_facing(facing));
        }
        Ok(model)
    }
}

/// The normals and the gates of the rows.
fn collect_facing(rows: &Vec<FacingRow>) -> (r: (Vec<Scalar>, Vec<Scalar>))
    ensures
        r.0@.len() == 3 * rows@.len(),
        r.1@.len() == rows@.len(),
        forall|i: int|
            #![trigger rows@[i]]
            0 <= i < rows@.len() ==> r.0@.subrange(3 * i, 3 * i + 3) == rows@[i].normal() && r.1@[i]
                == rows@[i].gate(),
{
    let zero = Scalar { bits: ZERO_BITS };
    let mut normals: Vec<Scalar> = Vec::new();
    let mut gates: Vec<Scalar> = Vec::new();
    let mut i: usize = 0;
    while i < rows.len()
        invariant
            i <= rows@.len(),
            zero == (Scalar { bits: ZERO_BITS }),
            normals@.len() == 3 * i,
            gates@.len() == i,
            forall|k: int|
                #![trigger rows@[k]]
                0 <= k < i ==> normals@.subrange(3 * k, 3 * k + 3) == rows@[k].normal()
                    && gates@[k] == rows@[k].gate(),
        decreases rows@.len() - i,
    {
        let row = rows[i];
        let ghost prior = normals@;
        let normal: [Scalar; 3] = if row.along.is_below(zero) {
            [row.axis[0].neg(), row.axis[1].neg(), row.axis[2].neg()]
        } else {
            row.axis
        };
        assert(normal@ =~= row.normal());
        append(&mut normals, &normal);
        gates.push(
            if row.disc {
                Scalar { bits: ONE_BITS }
            } else {
                zero
            },
        );
        i += 1;
        proof {
            assert forall|k: int| #![trigger rows@[k]] 0 <= k < i implies normals@.subrange(
                3 * k,
                3 * k + 3,
            ) == rows@[k].normal() && gates@[k] == rows@[k].gate() by {
                if k < i - 1 {
                    assert(normals@.subrange(3 * k, 3 * k + 3) =~= prior.subrange(
                        3 * k,
                        3 * k + 3,
                    ));
                } else {
                    assert(normals@.subrange(3 * k, 3 * k + 3) =~= normal@);
                }
            }
        }
    }
    (normals, gates)
}

/// A splat that no view drew inside its foreground has no confidence, whatever
/// its figures.
pub proof fn law_unsupported_splat_has_no_confidence(row: ConfidenceRow, w_in: Scalar)
    requires
        w_in.at_most(Scalar { bits: ZERO_BITS }),
    ensures
        row.static_conf(w_in) == (Scalar { bits: ZERO_BITS }),
{
}

/// A splat with some confidence was observed: the resultant of its directions
/// is not negligible.
pub proof fn law_confident_splat_has_a_direction(row: ConfidenceRow, w_in: Scalar)
    requires
        row.static_conf(w_in) != (Scalar { bits: ZERO_BITS }),
        !row.dir_len.nan(),
    ensures
        (Scalar { bits: DIRECTION_EPS_BITS }).at_most(row.dir_len),
{
}

/// The fade of the coverage is never empty: the outer angle stays at or above
/// its floor.
pub proof fn law_coverage_fade_is_never_empty(row: ConfidenceRow)
    requires
        !row.angle_floor.nan(),
    ensures
        row.angle_floor.at_most(row.angle_out.larger(row.angle_floor)),
{
}

/// The order of the axes depends on the log-scales alone: splats that differ in
/// their position and their quaternion have the same.
pub proof fn law_axis_order_ignores_the_pose(
    a: Seq<Scalar>,
    b: Seq<Scalar>,
    order_a: AxisOrder,
    order_b: AxisOrder,
)
    requires
        forall|k: int| 0 <= k < 3 ==> #[trigger] log_scale(a, k) == log_scale(b, k),
        order_a.orders(a),
        order_b.orders(b),
    ensures
        order_a == order_b,
{
    assert forall|j: int, k: int| 0 <= j < 3 && 0 <= k < 3 implies #[trigger] before(a, j, k)
        == before(b, j, k) by {
        assert(log_scale(a, j) == log_scale(b, j) && log_scale(a, k) == log_scale(b, k));
    }
    let sa = order_a.shortest as int;
    let sb = order_b.shortest as int;
    if sa != sb {
        assert(before(a, sa, sb) && before(b, sb, sa));
        assert(before(a, sb, sa));
        assert(false);
    }
    let ma = order_a.middle as int;
    let mb = order_b.middle as int;
    if ma != mb {
        assert(before(a, ma, mb) && before(b, mb, ma));
        assert(before(a, mb, ma));
        assert(false);
    }
}

/// The shortest axis has the least log-scale, the middle one the second least,
/// and of two axes with the same least log-scale the shortest is the first. A
/// needle, with two equal short axes, has equal log-scales in both places; the
/// ratio of their scales is one, which is no disc.
pub proof fn law_axes_are_ordered_by_scale(transform: Seq<Scalar>, order: AxisOrder, k: int)
    requires
        order.orders(transform),
        0 <= k < 3,
    ensures
        ({
            let shortest = log_scale(transform, order.shortest as int).total_rank();
            let middle = log_scale(transform, order.middle as int).total_rank();
            let other = log_scale(transform, k).total_rank();
            &&& shortest <= middle
            &&& shortest <= other
            &&& k != order.shortest ==> middle <= other
            &&& shortest == other ==> order.shortest <= k
        }),
        !(Scalar { bits: ONE_BITS }).below(Scalar { bits: DISC_RATIO_BITS }),
{
    let s = order.shortest as int;
    let m = order.middle as int;
    assert(before(transform, s, m));
    if k != s {
        assert(before(transform, s, k));
        if k != m {
            assert(before(transform, m, k));
        }
    }
}

/// A splat with some in-mask mass and a resultant of at least `1e-6`, however
/// long, has the product of its figures as its confidence, bit for bit; any
/// other splat has none.
pub proof fn law_observed_splat_has_its_product(
    model: ConfidenceModel,
    w_in: Seq<Scalar>,
    rows: Seq<ConfidenceRow>,
    i: int,
)
    requires
        model.holds(w_in, rows),
        0 <= i < rows.len(),
    ensures
        model.static_conf@.len() == rows.len(),
        !rows[i].dir_len.below(Scalar { bits: 0x3586_37bd }) && !w_in[i].at_most(
            Scalar { bits: 0 },
        ) ==> model.static_conf@[i] == rows[i].product,
        rows[i].dir_len.below(Scalar { bits: 0x3586_37bd }) ==> model.static_conf@[i] == (Scalar {
            bits: 0,
        }),
        w_in[i].at_most(Scalar { bits: 0 }) ==> model.static_conf@[i] == (Scalar { bits: 0 }),
{
    let row = rows[i];
}

/// The confidence of a splat depends on its product, on whether its resultant
/// is negligible and on whether it has in-mask mass, and on nothing else.
pub proof fn law_confidence_ignores_the_other_figures(
    a: ConfidenceModel,
    b: ConfidenceModel,
    w_a: Seq<Scalar>,
    w_b: Seq<Scalar>,
    rows_a: Seq<ConfidenceRow>,
    rows_b: Seq<ConfidenceRow>,
    i: int,
)
    requires
        a.holds(w_a, rows_a),
        b.holds(w_b, rows_b),
        0 <= i < rows_a.len(),
        i < rows_b.len(),
        rows_a[i].product == rows_b[i].product,
        rows_a[i].dir_len.below(Scalar { bits: 0x3586_37bd }) == rows_b[i].dir_len.below(
            Scalar { bits: 0x3586_37bd },
        ),
        w_a[i].at_most(Scalar { bits: 0 }) == w_b[i].at_most(Scalar { bits: 0 }),
    ensures
        a.static_conf@[i] == b.static_conf@[i],
{
    law_observed_splat_has_its_product(a, w_a, rows_a, i);
    law_observed_splat_has_its_product(b, w_b, rows_b, i);
}

/// The mean direction of a splat is the unit vector of its resultant, component
/// by component, where the resultant is longer than `1e-6`, and zero elsewhere.
pub proof fn law_mean_direction_by_component(
    model: ConfidenceModel,
    w_in: Seq<Scalar>,
    rows: Seq<ConfidenceRow>,
    i: int,
    j: int,
)
    requires
        model.holds(w_in, rows),
        0 <= i < rows.len(),
        0 <= j < 3,
    ensures
        model.mu@.len() == 3 * rows.len(),
        (Scalar { bits: 0x3586_37bd }).below(rows[i].dir_len) ==> model.mu@[3 * i + j]
            == rows[i].unit_dir@[j],
        !(Scalar { bits: 0x3586_37bd }).below(rows[i].dir_len) ==> model.mu@[3 * i + j] == (Scalar {
            bits: 0,
        }),
{
    let row = rows[i];
    assert(model.mu@[3 * i + j] == model.mu@.subrange(3 * i, 3 * i + 3)[j]);
}

/// The inner angle of a splat is the given one; the outer angle is the given
/// one unless that is below its floor or no number, and then the floor.
pub proof fn law_outer_angle_is_lifted_to_its_floor(
    model: ConfidenceModel,
    w_in: Seq<Scalar>,
    rows: Seq<ConfidenceRow>,
    i: int,
)
    requires
        model.holds(w_in, rows),
        0 <= i < rows.len(),
    ensures
        model.angle_in@.len() == rows.len(),
        model.angle_out@.len() == rows.len(),
        model.angle_in@[i] == rows[i].angle_in,
        rows[i].angle_floor.at_most(rows[i].angle_out) || rows[i].angle_floor.nan() ==> (
        !rows[i].angle_out.nan() ==> model.angle_out@[i] == rows[i].angle_out),
        rows[i].angle_out.below(rows[i].angle_floor) || rows[i].angle_out.nan()
            ==> model.angle_out@[i] == rows[i].angle_floor,
{
    let row = rows[i];
}

/// The normal of a splat is its shortest axis where that does not point away
/// from the observed side, and else the same axis with the sign of every
/// component flipped; its gate is one for a disc and zero for any other shape.
pub proof fn law_normals_face_the_observed_side(
    model: ConfidenceModel,
    rows: Seq<FacingRow>,
    i: int,
    j: int,
)
    requires
        model.faces(Some(rows)),
        0 <= i < rows.len(),
        0 <= j < 3,
    ensures
        model.facing matches Some((normals, gates)) && {
            &&& normals@.len() == 3 * rows.len()
            &&& gates@.len() == rows.len()
            &&& !rows[i].along.below(Scalar { bits: 0 }) ==> normals@[3 * i + j]
                == rows[i].axis@[j]
            &&& rows[i].along.below(Scalar { bits: 0 }) && rows[i].axis@[j].bits < 0x8000_0000
                ==> normals@[3 * i + j].bits == rows[i].axis@[j].bits + 0x8000_0000
            &&& rows[i].along.below(Scalar { bits: 0 }) && rows[i].axis@[j].bits >= 0x8000_0000
                ==> normals@[3 * i + j].bits == rows[i].axis@[j].bits - 0x8000_0000
            &&& rows[i].disc ==> gates@[i] == (Scalar { bits: 0x3f80_0000 })
            &&& !rows[i].disc ==> gates@[i] == (Scalar { bits: 0 })
        },
{
    let row = rows[i];
    if let Some((normals, gates)) = model.facing {
        assert(normals@[3 * i + j] == normals@.subrange(3 * i, 3 * i + 3)[j]);
    }
}

/// A model without facing rows has no facing term.
pub proof fn law_no_facing_rows_no_facing_term(model: ConfidenceModel)
    ensures
        model.faces(None) <==> model.facing is None,
{
}

/// The order of the axes is read from the last three of the ten values of a
/// splat: the shortest axis is at or before each of the others in the total
/// order, and the middle one at or before the third, with ties to the lower
/// index.
pub proof fn law_axis_order_by_value(transform: Seq<Scalar>, order: AxisOrder, k: int)
    requires
        order.orders(transform),
        0 <= k < 3,
    ensures
        order.shortest < 3 && order.middle < 3 && order.shortest != order.middle,
        ({
            let shortest = transform[7 + order.shortest].total_rank();
            let middle = transform[7 + order.middle].total_rank();
            let other = transform[7 + k].total_rank();
            &&& k != order.shortest ==> shortest < other || (shortest == other && order.shortest
                < k)
            &&& k != order.shortest && k != order.middle ==> middle < other || (middle == other
                && order.middle < k)
        }),
        (Scalar { bits: DISC_RATIO_BITS }).bits == 0x3f00_0000,
{
    if k != order.shortest {
        assert(before(transform, order.shortest as int, k));
        if k != order.middle {
            assert(before(transform, order.middle as int, k));
        }
    }
}

/// The standard parameters, as bit patterns: `0.08`, `4`, `0.3`, `0.8`, `30`,
/// `15` and `80`.
pub proof fn law_standard_parameters()
    ensures
        TAU_BITS == 0x3da3_d70a,
        MIN_VIEWS_BITS == 0x4080_0000,
        INMASK_LO_BITS == 0x3e99_999a,
        INMASK_HI_BITS == 0x3f4c_cccd,
        ANGLE_MARGIN_BITS == 0x41f0_0000,
        ANGLE_SOFT_BITS == 0x4170_0000,
        GRAZE_BITS == 0x42a0_0000,
{
}

/// In a model that [`ConfidenceModel::new`] makes, the confidence of splat `i`
/// is its product, bit for bit, where its resultant is not below `1e-6` and it
/// has in-mask mass, and else zero.
pub proof fn law_made_model_holds_the_products(
    evidence: SplatEvidence,
    num_splats: usize,
    rows: Vec<ConfidenceRow>,
    facing: Option<Vec<FacingRow>>,
    cos_graze: Scalar,
    model: ConfidenceModel,
    i: int,
)
    requires
        call_ensures(
            ConfidenceModel::new,
            (&evidence, num_splats, &rows, &facing, cos_graze),
            Ok(model),
        ),
        0 <= i < num_splats,
    ensures
        evidence.w_in@.len() == num_splats,
        model.static_conf@.len() == num_splats,
        !rows@[i].dir_len.below(Scalar { bits: 0x3586_37bd }) && !evidence.w_in@[i].at_most(
            Scalar { bits: 0 },
        ) ==> model.static_conf@[i] == rows@[i].product,
        rows@[i].dir_len.below(Scalar { bits: 0x3586_37bd }) || evidence.w_in@[i].at_most(
            Scalar { bits: 0 },
        ) ==> model.static_conf@[i] == (Scalar { bits: 0 }),
        model.cos_graze == cos_graze,
        model.facing is Some <==> facing is Some,
{
    let conf = model.static_conf@[i];
}

/// The agreement of a splat is its decayed residual, bit for bit, where it has
/// in-mask mass above zero, and else zero; and a splat is a disc where the ratio
/// of its shortest scales is below one half.
pub proof fn law_agreement_needs_mass(w_in: Scalar, decayed: Scalar, r: Scalar, disc: bool)
    requires
        call_ensures(agreement, (w_in, decayed), r),
        call_ensures(is_disc, (decayed,), disc),
    ensures
        (Scalar { bits: 0 }).below(w_in) ==> r == decayed,
        !(Scalar { bits: 0 }).below(w_in) ==> r == (Scalar { bits: 0 }),
        disc <==> decayed.below(Scalar { bits: 0x3f00_0000 }),
{
}

} // verus!
