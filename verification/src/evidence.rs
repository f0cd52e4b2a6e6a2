//! Per-splat multi-view evidence: how much the training views constrained each
//! splat, and from where.

use vstd::prelude::*;
use vstd::std_specs::cmp::PartialEqSpec;
use vstd::string::*;

use crate::scalar::{Scalar, ONE_BITS, ZERO_BITS};
use crate::splat_data::EVIDENCE_STRIDE;
use crate::text::{decimal, push_decimal};

verus! {

/// Bit pattern of the in-mask contribution mass, in pixels at training
/// resolution, that a view must give a splat to count as supporting it: `1.0`.
pub const VIEW_MIN_MASS_BITS: u32 = 0x3f80_0000;

/// Evidence for every splat of a model, rows aligned with the splats. `==`
/// compares the numbers by value.
#[derive(Clone, Debug)]
pub struct SplatEvidence {
    /// Sum over views of the contribution mass inside the foreground.
    pub w_in: Vec<Scalar>,
    /// Sum over views of the total contribution mass.
    pub w_all: Vec<Scalar>,
    /// Sum over views of the mass-weighted residual.
    pub err: Vec<Scalar>,
    /// Number of views that support the splat.
    pub views: Vec<Scalar>,
    /// Sum over views of the direction towards the camera, weighted by `w_in`.
    pub dir: Vec<[Scalar; 3]>,
}

/// The evidence for one splat.
pub struct EvidenceRow {
    pub w_in: Scalar,
    pub w_all: Scalar,
    pub err: Scalar,
    pub views: Scalar,
    pub dir_0: Scalar,
    pub dir_1: Scalar,
    pub dir_2: Scalar,
}

impl EvidenceRow {
    /// Value `k` of the row, in the order of [`evidence_field`].
    pub open spec fn value(self, k: int) -> Scalar {
        if k == 0 {
            self.w_in
        } else if k == 1 {
            self.w_all
        } else if k == 2 {
            self.err
        } else if k == 3 {
            self.views
        } else if k == 4 {
            self.dir_0
        } else if k == 5 {
            self.dir_1
        } else {
            self.dir_2
        }
    }

    /// Fraction of the drawn mass that landed in the foreground, where `ratio`
    /// is `w_in / w_all`.
    pub open spec fn inmask(self, ratio: Scalar) -> Scalar {
        if (Scalar { bits: ZERO_BITS }).below(self.w_all) {
            ratio.clamped(Scalar { bits: ZERO_BITS }, Scalar { bits: ONE_BITS })
        } else {
            Scalar { bits: ZERO_BITS }
        }
    }

    /// Whether pruning keeps the splat: some view supports it, and its in-mask
    /// fraction is not below `min_inmask`.
    pub open spec fn kept_by(self, ratio: Scalar, min_inmask: Scalar) -> bool {
        (Scalar { bits: ZERO_BITS }).below(self.views) && min_inmask.at_most(self.inmask(ratio))
    }
}

/// The rows one after the other, [`EVIDENCE_STRIDE`] values for each.
pub open spec fn flat(rows: Seq<EvidenceRow>) -> Seq<Scalar> {
    Seq::new(rows.len() * 7, |k: int| rows[k / 7].value(k % 7))
}

/// The rows that a flat block holds.
pub open spec fn rows_of(block: Seq<Scalar>) -> Seq<EvidenceRow> {
    Seq::new(
        block.len() / 7,
        |i: int|
            EvidenceRow {
                w_in: block[i * 7],
                w_all: block[i * 7 + 1],
                err: block[i * 7 + 2],
                views: block[i * 7 + 3],
                dir_0: block[i * 7 + 4],
                dir_1: block[i * 7 + 5],
                dir_2: block[i * 7 + 6],
            },
    )
}

/// The elements of `s` whose flag is set, in their order.
pub open spec fn kept<T>(s: Seq<T>, keep: Seq<bool>) -> Seq<T>
    decreases s.len(),
{
    if s.len() == 0 {
        Seq::empty()
    } else if keep[s.len() - 1] {
        kept(s.drop_last(), keep).push(s.last())
    } else {
        kept(s.drop_last(), keep)
    }
}

/// `0`, `1`, up to `n - 1`.
pub open spec fn indices(n: nat) -> Seq<usize> {
    Seq::new(n, |i: int| i as usize)
}

/// For each row, whether pruning keeps it.
pub open spec fn keep_flags(
    rows: Seq<EvidenceRow>,
    ratios: Seq<Scalar>,
    min_inmask: Scalar,
) -> Seq<bool> {
    Seq::new(rows.len(), |i: int| rows[i].kept_by(ratios[i], min_inmask))
}

/// Whether a view that gives a splat this in-mask mass supports it.
pub open spec fn supports(w_in: Scalar) -> bool {
    (Scalar { bits: VIEW_MIN_MASS_BITS }).at_most(w_in)
}

/// The counts after one more view.
pub open spec fn counted(views: Seq<u32>, w_in: Seq<Scalar>) -> Seq<u32> {
    Seq::new(
        views.len(),
        |i: int|
            if supports(w_in[i]) {
                (views[i] + 1) as u32
            } else {
                views[i]
            },
    )
}

/// The counts for `n` splats after all the views, from zero.
pub open spec fn counted_views(n: nat, masses: Seq<Seq<Scalar>>) -> Seq<u32>
    decreases masses.len(),
{
    if masses.len() == 0 {
        Seq::new(n, |i: int| 0u32)
    } else {
        counted(counted_views(n, masses.drop_last()), masses.last())
    }
}

/// How many of the views support splat `i`.
pub open spec fn support_count(masses: Seq<Seq<Scalar>>, i: int) -> nat
    decreases masses.len(),
{
    if masses.len() == 0 {
        0
    } else {
        support_count(masses.drop_last(), i) + if supports(masses.last()[i]) {
            1nat
        } else {
            0nat
        }
    }
}

impl SplatEvidence {
    /// Every column has a value for every row.
    pub open spec fn wf(&self) -> bool {
        let n = self.w_in@.len();
        self.w_all@.len() == n && self.err@.len() == n && self.views@.len() == n && self.dir@.len()
            == n
    }

    /// Row `i`.
    pub open spec fn row(&self, i: int) -> EvidenceRow {
        EvidenceRow {
            w_in: self.w_in@[i],
            w_all: self.w_all@[i],
            err: self.err@[i],
            views: self.views@[i],
            dir_0: self.dir@[i]@[0],
            dir_1: self.dir@[i]@[1],
            dir_2: self.dir@[i]@[2],
        }
    }
}

impl View for SplatEvidence {
    type V = Seq<EvidenceRow>;

    open spec fn view(&self) -> Seq<EvidenceRow> {
        Seq::new(self.w_in@.len(), |i: int| self.row(i))
    }
}

/// The same numbers, by value.
pub open spec fn equal_values(a: Seq<Scalar>, b: Seq<Scalar>) -> bool {
    a.len() == b.len() && forall|i: int| 0 <= i < a.len() ==> (#[trigger] a[i]).equals(b[i])
}

/// The same directions, by value.
pub open spec fn equal_dirs(a: Seq<[Scalar; 3]>, b: Seq<[Scalar; 3]>) -> bool {
    a.len() == b.len() && forall|i: int|
        0 <= i < a.len() ==> equal_values((#[trigger] a[i])@, b[i]@)
}

fn are_equal_values(a: &[Scalar], b: &[Scalar]) -> (r: bool)
    ensures
        r == equal_values(a@, b@),
{
    if a.len() != b.len() {
        return false;
    }
    let mut i: usize = 0;
    while i < a.len()
        invariant
            i <= a@.len() == b@.len(),
            forall|k: int| 0 <= k < i ==> (#[trigger] a@[k]).equals(b@[k]),
        decreases a@.len() - i,
    {
        if !a[i].is_equal(b[i]) {
            assert(!a@[i as int].equals(b@[i as int]));
            return false;
        }
        i += 1;
    }
    true
}

fn are_equal_dirs(a: &Vec<[Scalar; 3]>, b: &Vec<[Scalar; 3]>) -> (r: bool)
    ensures
        r == equal_dirs(a@, b@),
{
    if a.len() != b.len() {
        return false;
    }
    let mut i: usize = 0;
    while i < a.len()
        invariant
            i <= a@.len() == b@.len(),
            forall|k: int| 0 <= k < i ==> equal_values((#[trigger] a@[k])@, b@[k]@),
        decreases a@.len() - i,
    {
        if !are_equal_values(&a[i], &b[i]) {
            assert(!equal_values(a@[i as int]@, b@[i as int]@));
            return false;
        }
        i += 1;
    }
    true
}

impl PartialEq for SplatEvidence {
    fn eq(&self, other: &SplatEvidence) -> (r: bool) {
        are_equal_values(self.w_in.as_slice(), other.w_in.as_slice()) && are_equal_values(
            self.w_all.as_slice(),
            other.w_all.as_slice(),
        ) && are_equal_values(self.err.as_slice(), other.err.as_slice()) && are_equal_values(
            self.views.as_slice(),
            other.views.as_slice(),
        ) && are_equal_dirs(&self.dir, &other.dir)
    }
}

impl vstd::std_specs::cmp::PartialEqSpecImpl for SplatEvidence {
    open spec fn obeys_eq_spec() -> bool {
        true
    }

    open spec fn eq_spec(&self, other: &SplatEvidence) -> bool {
        &&& equal_values(self.w_in@, other.w_in@)
        &&& equal_values(self.w_all@, other.w_all@)
        &&& equal_values(self.err@, other.err@)
        &&& equal_values(self.views@, other.views@)
        &&& equal_dirs(self.dir@, other.dir@)
    }
}

impl Default for SplatEvidence {
    /// The evidence of no splats.
    fn default() -> (r: SplatEvidence)
        ensures
            r.wf(),
            r@ == Seq::<EvidenceRow>::empty(),
    {
        let r = SplatEvidence {
            w_in: Vec::new(),
            w_all: Vec::new(),
            err: Vec::new(),
            views: Vec::new(),
            dir: Vec::new(),
        };
        assert(r@ =~= Seq::<EvidenceRow>::empty());
        r
    }
}

/// The name of value `i` of an evidence row, as a property of a vertex.
pub open spec fn field_name(i: int) -> Seq<char> {
    if i == 0 {
        "ev_w_in"@
    } else if i == 1 {
        "ev_w_all"@
    } else if i == 2 {
        "ev_err"@
    } else if i == 3 {
        "ev_views"@
    } else if i == 4 {
        "ev_dir_0"@
    } else if i == 5 {
        "ev_dir_1"@
    } else {
        "ev_dir_2"@
    }
}

/// The name of value `i` of an evidence row, as a property of a vertex.
pub fn evidence_field(i: usize) -> (r: &'static str)
    requires
        i < EVIDENCE_STRIDE,
    ensures
        r@ == field_name(i as int),
{
    if i == 0 {
        "ev_w_in"
    } else if i == 1 {
        "ev_w_all"
    } else if i == 2 {
        "ev_err"
    } else if i == 3 {
        "ev_views"
    } else if i == 4 {
        "ev_dir_0"
    } else if i == 5 {
        "ev_dir_1"
    } else {
        "ev_dir_2"
    }
}

/// The values of `v` whose flag is set.
fn pick<T: Copy>(v: &Vec<T>, keep: &Vec<bool>) -> (r: Vec<T>)
    requires
        v@.len() == keep@.len(),
    ensures
        r@ == kept(v@, keep@),
{
    let mut r: Vec<T> = Vec::new();
    let mut i: usize = 0;
    while i < v.len()
        invariant
            i <= v@.len() == keep@.len(),
            r@ == kept(v@.take(i as int), keep@),
        decreases v@.len() - i,
    {
        assert(v@.take(i + 1).drop_last() == v@.take(i as int));
        if keep[i] {
            r.push(v[i]);
        }
        i += 1;
    }
    assert(v@.take(i as int) == v@);
    r
}

/// Picking the columns picks the rows.
proof fn lemma_columns_pick_rows(
    rows: Seq<EvidenceRow>,
    w_in: Seq<Scalar>,
    w_all: Seq<Scalar>,
    err: Seq<Scalar>,
    views: Seq<Scalar>,
    dir: Seq<[Scalar; 3]>,
    keep: Seq<bool>,
)
    requires
        w_in.len() == rows.len(),
        w_all.len() == rows.len(),
        err.len() == rows.len(),
        views.len() == rows.len(),
        dir.len() == rows.len(),
        forall|i: int|
            #![trigger rows[i]]
            0 <= i < rows.len() ==> rows[i] == (EvidenceRow {
                w_in: w_in[i],
                w_all: w_all[i],
                err: err[i],
                views: views[i],
                dir_0: dir[i]@[0],
                dir_1: dir[i]@[1],
                dir_2: dir[i]@[2],
            }),
    ensures
        kept(w_in, keep).len() == kept(rows, keep).len(),
        kept(w_all, keep).len() == kept(rows, keep).len(),
        kept(err, keep).len() == kept(rows, keep).len(),
        kept(views, keep).len() == kept(rows, keep).len(),
        kept(dir, keep).len() == kept(rows, keep).len(),
        forall|i: int|
            #![trigger kept(rows, keep)[i]]
            0 <= i < kept(rows, keep).len() ==> kept(rows, keep)[i] == (EvidenceRow {
                w_in: kept(w_in, keep)[i],
                w_all: kept(w_all, keep)[i],
                err: kept(err, keep)[i],
                views: kept(views, keep)[i],
                dir_0: kept(dir, keep)[i]@[0],
                dir_1: kept(dir, keep)[i]@[1],
                dir_2: kept(dir, keep)[i]@[2],
            }),
    decreases rows.len(),
{
    if rows.len() > 0 {
        assert forall|i: int| 0 <= i < rows.len() - 1 implies #[trigger] rows.drop_last()[i] == (
        EvidenceRow {
            w_in: w_in.drop_last()[i],
            w_all: w_all.drop_last()[i],
            err: err.drop_last()[i],
            views: views.drop_last()[i],
            dir_0: dir.drop_last()[i]@[0],
            dir_1: dir.drop_last()[i]@[1],
            dir_2: dir.drop_last()[i]@[2],
        }) by {
            assert(rows[i] == rows.drop_last()[i]);
        }
        lemma_columns_pick_rows(
            rows.drop_last(),
            w_in.drop_last(),
            w_all.drop_last(),
            err.drop_last(),
            views.drop_last(),
            dir.drop_last(),
            keep,
        );
        assert(rows[rows.len() - 1] == rows.last());
    }
}

impl SplatEvidence {
    /// Number of rows.
    pub fn len(&self) -> (n: usize)
        ensures
            n == self@.len(),
    {
        self.w_in.len()
    }

    /// Whether there are no rows.
    pub fn is_empty(&self) -> (b: bool)
        ensures
            b == (self@.len() == 0),
    {
        self.w_in.len() == 0
    }

    /// Fraction of the drawn mass of splat `i` that landed in the foreground,
    /// where `ratio` is its `w_in / w_all`.
    pub fn inmask(&self, i: usize, ratio: Scalar) -> (r: Scalar)
        requires
            self.wf(),
            i < self@.len(),
        ensures
            r == self@[i as int].inmask(ratio),
    {
        if Scalar::zero().is_below(self.w_all[i]) {
            ratio.clamp(Scalar::zero(), Scalar::one())
        } else {
            Scalar::zero()
        }
    }

    /// The rows one after the other, [`EVIDENCE_STRIDE`] values for each, in
    /// the order of [`evidence_field`].
    pub fn to_flat(&self) -> (r: Vec<Scalar>)
        requires
            self.wf(),
        ensures
            r@ == flat(self@),
    {
        let mut r: Vec<Scalar> = Vec::new();
        let mut i: usize = 0;
        while i < self.w_in.len()
            invariant
                self.wf(),
                i <= self.w_in@.len(),
                r@ == flat(self@.take(i as int)),
            decreases self.w_in@.len() - i,
        {
            let ghost before = r@;
            let d = self.dir[i];
            r.push(self.w_in[i]);
            r.push(self.w_all[i]);
            r.push(self.err[i]);
            r.push(self.views[i]);
            r.push(d[0]);
            r.push(d[1]);
            r.push(d[2]);
            i += 1;
            assert(r@ =~= flat(self@.take(i as int))) by {
                assert forall|k: int| 0 <= k < r@.len() implies #[trigger] r@[k] == self@.take(
                    i as int,
                )[k / 7].value(k % 7) by {
                    if k < before.len() {
                        assert(r@[k] == before[k]);
                        assert(before[k] == self@.take(i - 1)[k / 7].value(k % 7));
                    } else {
                        assert(k / 7 == i - 1);
                        assert(self@.take(i as int)[k / 7] == self.row(i - 1));
                    }
                }
            }
        }
        assert(self@.take(i as int) == self@);
        r
    }

    /// The inverse of [`SplatEvidence::to_flat`].
    pub fn from_flat(block: &Vec<Scalar>) -> (r: SplatEvidence)
        requires
            block@.len() % 7 == 0,
        ensures
            r.wf(),
            r@ == rows_of(block@),
    {
        let len: usize = block.len();
        let n: usize = len / EVIDENCE_STRIDE;
        let mut w_in: Vec<Scalar> = Vec::new();
        let mut w_all: Vec<Scalar> = Vec::new();
        let mut err: Vec<Scalar> = Vec::new();
        let mut views: Vec<Scalar> = Vec::new();
        let mut dir: Vec<[Scalar; 3]> = Vec::new();
        let mut i: usize = 0;
        while i < n
            invariant
                i <= n,
                len == block@.len(),
                n == len / 7,
                w_in@.len() == i,
                w_all@.len() == i,
                err@.len() == i,
                views@.len() == i,
                dir@.len() == i,
                forall|k: int|
                    #![trigger w_in@[k]]
                    #![trigger w_all@[k]]
                    #![trigger err@[k]]
                    #![trigger views@[k]]
                    #![trigger dir@[k]]
                    0 <= k < i ==> w_in@[k] == block@[k * 7] && w_all@[k] == block@[k * 7 + 1]
                        && err@[k] == block@[k * 7 + 2] && views@[k] == block@[k * 7 + 3]
                        && dir@[k]@[0] == block@[k * 7 + 4] && dir@[k]@[1] == block@[k * 7 + 5]
                        && dir@[k]@[2] == block@[k * 7 + 6],
            decreases n - i,
        {
            let at: usize = i * 7;
            w_in.push(block[at]);
            w_all.push(block[at + 1]);
            err.push(block[at + 2]);
            views.push(block[at + 3]);
            dir.push([block[at + 4], block[at + 5], block[at + 6]]);
            i += 1;
        }
        let r = SplatEvidence { w_in, w_all, err, views, dir };
        assert(r@ =~= rows_of(block@));
        r
    }

    /// The evidence that the accumulated columns hold: for each splat `w_in`,
    /// the residual and `w_all` in `sums`, and the resultant direction in `dir`.
    pub fn from_readback(sums: &Vec<Scalar>, views: Vec<Scalar>, dir: &Vec<Scalar>) -> (r:
        SplatEvidence)
        requires
            sums@.len() == 3 * views@.len(),
            dir@.len() == 3 * views@.len(),
        ensures
            r.wf(),
            r@ == Seq::new(
                views@.len(),
                |i: int|
                    (EvidenceRow {
                        w_in: sums@[3 * i],
                        w_all: sums@[3 * i + 2],
                        err: sums@[3 * i + 1],
                        views: views@[i],
                        dir_0: dir@[3 * i],
                        dir_1: dir@[3 * i + 1],
                        dir_2: dir@[3 * i + 2],
                    }),
            ),
    {
        let len: usize = sums.len();
        let n: usize = views.len();
        let mut w_in: Vec<Scalar> = Vec::new();
        let mut w_all: Vec<Scalar> = Vec::new();
        let mut err: Vec<Scalar> = Vec::new();
        let mut dirs: Vec<[Scalar; 3]> = Vec::new();
        let mut i: usize = 0;
        while i < n
            invariant
                i <= n == views@.len(),
                len == sums@.len() == 3 * n,
                dir@.len() == 3 * n,
                w_in@.len() == i,
                w_all@.len() == i,
                err@.len() == i,
                dirs@.len() == i,
                forall|k: int|
                    #![trigger w_in@[k]]
                    #![trigger w_all@[k]]
                    #![trigger err@[k]]
                    #![trigger dirs@[k]]
                    0 <= k < i ==> w_in@[k] == sums@[3 * k] && err@[k] == sums@[3 * k + 1]
                        && w_all@[k] == sums@[3 * k + 2] && dirs@[k]@[0] == dir@[3 * k]
                        && dirs@[k]@[1] == dir@[3 * k + 1] && dirs@[k]@[2] == dir@[3 * k + 2],
            decreases n - i,
        {
            let at: usize = 3 * i;
            w_in.push(sums[at]);
            err.push(sums[at + 1]);
            w_all.push(sums[at + 2]);
            dirs.push([dir[at], dir[at + 1], dir[at + 2]]);
            i += 1;
        }
        SplatEvidence { w_in, w_all, err, views, dir: dirs }
    }

    /// The rows whose flag is set, in their order.
    pub fn select(&self, keep: &Vec<bool>) -> (r: SplatEvidence)
        requires
            self.wf(),
            keep@.len() == self@.len(),
        ensures
            r.wf(),
            r@ == kept(self@, keep@),
    {
        let r = SplatEvidence {
            w_in: pick(&self.w_in, keep),
            w_all: pick(&self.w_all, keep),
            err: pick(&self.err, keep),
            views: pick(&self.views, keep),
            dir: pick(&self.dir, keep),
        };
        proof {
            lemma_columns_pick_rows(
                self@,
                self.w_in@,
                self.w_all@,
                self.err@,
                self.views@,
                self.dir@,
                keep@,
            );
            assert(r@ =~= kept(self@, keep@));
        }
        r
    }
}

/// Counts one more view for every splat to which it gives enough in-mask mass.
pub fn count_view(views: &mut Vec<u32>, w_in: &Vec<Scalar>)
    requires
        w_in@.len() == old(views)@.len(),
        forall|i: int| 0 <= i < old(views)@.len() ==> old(views)@[i] < u32::MAX,
    ensures
        final(views)@ == counted(old(views)@, w_in@),
{
    let min = Scalar { bits: VIEW_MIN_MASS_BITS };
    let n: usize = views.len();
    let mut i: usize = 0;
    while i < n
        invariant
            i <= n == views@.len() == old(views)@.len() == w_in@.len(),
            min == (Scalar { bits: VIEW_MIN_MASS_BITS }),
            forall|k: int| 0 <= k < i ==> views@[k] == counted(old(views)@, w_in@)[k],
            forall|k: int| i <= k < n ==> views@[k] == old(views)@[k],
            forall|k: int| 0 <= k < n ==> old(views)@[k] < u32::MAX,
        decreases n - i,
    {
        if min.is_at_most(w_in[i]) {
            let c: u32 = views[i];
            assert(c == old(views)@[i as int]);
            views.set(i, c + 1);
        }
        i += 1;
    }
    assert(views@ =~= counted(old(views)@, w_in@));
}

/// Drops the splats that no view supports, and those whose in-mask fraction is
/// below `min_inmask`; `ratios` holds `w_in / w_all` of every splat. Returns
/// the indices of the splats that stay, or `None` where all of them do, and
/// the evidence of the splats that stay.
pub fn prune_by_inmask(
    num_splats: usize,
    evidence: &SplatEvidence,
    ratios: &Vec<Scalar>,
    min_inmask: Scalar,
) -> (r: (Option<Vec<usize>>, SplatEvidence))
    requires
        evidence.wf(),
        evidence@.len() == num_splats,
        ratios@.len() == num_splats,
    ensures
        r.1.wf(),
        r.1@ == kept(evidence@, keep_flags(evidence@, ratios@, min_inmask)),
        match r.0 {
            Some(idx) => idx@ == kept(
                indices(num_splats as nat),
                keep_flags(evidence@, ratios@, min_inmask),
            ) && idx@.len() < num_splats,
            None => forall|i: int|
                0 <= i < num_splats ==> (#[trigger] evidence@[i]).kept_by(ratios@[i], min_inmask),
        },
        forall|i: int|
            #![trigger evidence.views@[i]]
            0 <= i < num_splats ==> {
                let stays = match r.0 {
                    Some(idx) => idx@.contains(i as usize),
                    None => true,
                };
                let zero = Scalar { bits: 0 };
                let one = Scalar { bits: 0x3f80_0000 };
                &&& !zero.below(evidence.views@[i]) ==> !stays
                &&& zero.below(evidence.views@[i]) && zero.below(evidence.w_all@[i])
                    && zero.at_most(ratios@[i]) && ratios@[i].at_most(one) ==> stays
                    == min_inmask.at_most(ratios@[i])
            },
{
    let ghost flags = keep_flags(evidence@, ratios@, min_inmask);
    let mut keep: Vec<bool> = Vec::new();
    let mut idx: Vec<usize> = Vec::new();
    let mut i: usize = 0;
    while i < num_splats
        invariant
            i <= num_splats,
            evidence.wf(),
            evidence@.len() == num_splats,
            ratios@.len() == num_splats,
            flags == keep_flags(evidence@, ratios@, min_inmask),
            keep@ == flags.take(i as int),
            idx@ == kept(indices(num_splats as nat).take(i as int), flags),
            idx@.len() <= i,
            idx@.len() == i <==> forall|k: int|
                0 <= k < i ==> (#[trigger] evidence@[k]).kept_by(ratios@[k], min_inmask),
        decreases num_splats - i,
    {
        assert(evidence@[i as int].views == evidence.views@[i as int]);
        let k: bool = Scalar::zero().is_below(evidence.views[i]) && min_inmask.is_at_most(
            evidence.inmask(i, ratios[i]),
        );
        assert(k == flags[i as int]);
        assert(k == evidence@[i as int].kept_by(ratios@[i as int], min_inmask));
        keep.push(k);
        assert(indices(num_splats as nat).take(i + 1).drop_last() == indices(
            num_splats as nat,
        ).take(i as int));
        assert(indices(num_splats as nat).take(i + 1).last() == i);
        if k {
            idx.push(i);
        }
        i += 1;
        assert(flags.take(i as int) == flags.take(i - 1).push(flags[i - 1]));
    }
    assert(indices(num_splats as nat).take(i as int) == indices(num_splats as nat));
    assert(flags.take(i as int) == flags);
    proof {
        assert forall|i: int| #![trigger evidence.views@[i]] 0 <= i < num_splats implies idx@.contains(
            i as usize,
        ) == flags[i] by {
            lemma_index_is_kept(num_splats as nat, flags, i);
        }
        assert forall|i: int| #![trigger evidence.views@[i]] 0 <= i < num_splats implies {
            let zero = Scalar { bits: 0 };
            let one = Scalar { bits: 0x3f80_0000 };
            &&& !zero.below(evidence.views@[i]) ==> !flags[i]
            &&& zero.below(evidence.views@[i]) && zero.below(evidence.w_all@[i]) && zero.at_most(
                ratios@[i],
            ) && ratios@[i].at_most(one) ==> flags[i] == min_inmask.at_most(ratios@[i])
        } by {
            let row = evidence@[i];
            assert(row.views == evidence.views@[i] && row.w_all == evidence.w_all@[i]);
            assert(flags[i] == row.kept_by(ratios@[i], min_inmask));
            law_inmask_fraction_by_ratio(row, ratios@[i]);
        }
        if idx@.len() == num_splats {
            assert forall|i: int| #![trigger evidence.views@[i]] 0 <= i < num_splats implies flags[i] by {
                let row = evidence@[i];
            }
        }
    }
    let selected = evidence.select(&keep);
    if idx.len() == num_splats {
        (None, selected)
    } else {
        (Some(idx), selected)
    }
}

/// What the alpha channel of a training view means.
#[derive(Clone, Copy, Debug, PartialEq, Eq, Structural)]
pub enum AlphaMode {
    /// Ignore what lies outside: it is real, but not to be fitted.
    Masked,
    /// Nothing is there: the model is to be empty outside.
    Transparent,
}

/// Where a view counts the mass that a splat draws.
#[derive(Clone, Copy, Debug, PartialEq, Eq, Structural)]
pub enum TotalLane {
    /// In every pixel.
    Everywhere,
    /// In the pixels of the mask, weighted by it.
    InMask,
}

/// How the per-pixel weights of one view are put together.
#[derive(Clone, Copy, Debug, PartialEq, Eq, Structural)]
pub struct ViewPlan {
    /// Multiply the mask by the loss weights of the view.
    pub weigh_mask: bool,
    /// Add the weighted residual of the rendered normals.
    pub add_normals: bool,
    /// Where the total mass is counted.
    pub total: TotalLane,
}

/// How the weights of a view are put together: loss weights scale the mask,
/// normals count where they have a weight and the view has a normal map, and a
/// masked view counts no mass outside its mask.
pub fn plan_view(
    alpha_mode: AlphaMode,
    has_loss_weight: bool,
    normal_weight: Scalar,
    has_normals: bool,
) -> (r: ViewPlan)
    ensures
        r.weigh_mask == has_loss_weight,
        r.add_normals == ((Scalar { bits: ZERO_BITS }).below(normal_weight) && has_normals),
        r.total == (if alpha_mode == AlphaMode::Masked {
            TotalLane::InMask
        } else {
            TotalLane::Everywhere
        }),
{
    ViewPlan {
        weigh_mask: has_loss_weight,
        add_normals: Scalar::zero().is_below(normal_weight) && has_normals,
        total: match alpha_mode {
            AlphaMode::Masked => TotalLane::InMask,
            AlphaMode::Transparent => TotalLane::Everywhere,
        },
    }
}

/// Evidence whose rows do not match the splats.
#[derive(Clone, Copy, Debug, PartialEq, Eq, Structural)]
pub struct RowMismatch {
    /// The evidence comes from the splat file itself.
    pub carried: bool,
    pub rows: usize,
    pub splats: usize,
}

impl RowMismatch {
    /// The message for the user.
    pub fn message(&self) -> (r: String)
        ensures
            r@ == (if self.carried {
                "ply evidence has "@
            } else {
                "evidence has "@
            }) + decimal(self.rows as nat) + " rows for "@ + decimal(self.splats as nat)
                + " splats"@,
    {
        let mut r: String = String::new();
        if self.carried {
            r.append("ply evidence has ");
        } else {
            r.append("evidence has ");
        }
        push_decimal(&mut r, self.rows as u64);
        r.append(" rows for ");
        push_decimal(&mut r, self.splats as u64);
        r.append(" splats");
        assert(r@ =~= (if self.carried {
            "ply evidence has "@
        } else {
            "evidence has "@
        }) + decimal(self.rows as nat) + " rows for "@ + decimal(self.splats as nat) + " splats"@);
        r
    }
}

/// Where the evidence for a confidence render comes from.
pub enum EvidenceSource {
    /// The splat file carries it.
    Carried(SplatEvidence),
    /// It is to be measured against the training dataset.
    Measure,
    /// There is none: every splat is fully trusted.
    Trusted,
}

/// Where the evidence comes from: the block that the splat file carries if it
/// carries one, else the dataset if there is one, else nowhere. A block whose
/// rows do not match the splats is an error.
pub fn resolve_evidence(
    ply_evidence: Option<Vec<Scalar>>,
    num_splats: usize,
    has_dataset: bool,
) -> (r: Result<EvidenceSource, RowMismatch>)
    requires
        ply_evidence matches Some(block) ==> block@.len() % 7 == 0,
    ensures
        match ply_evidence {
            Some(block) => if block@.len() == 7 * num_splats {
                r matches Ok(EvidenceSource::Carried(ev)) && ev.wf() && ev@ == rows_of(block@)
            } else {
                r == Err::<EvidenceSource, RowMismatch>(
                    (RowMismatch {
                        carried: true,
                        rows: (block@.len() / 7) as usize,
                        splats: num_splats,
                    }),
                )
            },
            None => r is Ok && (if has_dataset {
                r->Ok_0 is Measure
            } else {
                r->Ok_0 is Trusted
            }),
        },
{
    match ply_evidence {
        Some(block) => {
            let ev = SplatEvidence::from_flat(&block);
            let rows = ev.len();
            if rows == num_splats {
                Ok(EvidenceSource::Carried(ev))
            } else {
                Err(RowMismatch { carried: true, rows, splats: num_splats })
            }
        },
        None => if has_dataset {
            Ok(EvidenceSource::Measure)
        } else {
            Ok(EvidenceSource::Trusted)
        },
    }
}

/// Reading back a flattened table gives the same table.
pub proof fn law_flat_round_trip(rows: Seq<EvidenceRow>)
    ensures
        flat(rows).len() % 7 == 0,
        rows_of(flat(rows)) == rows,
{
    let f = flat(rows);
    assert forall|i: int| 0 <= i < rows.len() implies #[trigger] rows_of(f)[i] == rows[i] by {
        assert(f[i * 7] == rows[i].value(0));
        assert(f[i * 7 + 1] == rows[i].value(1));
        assert(f[i * 7 + 2] == rows[i].value(2));
        assert(f[i * 7 + 3] == rows[i].value(3));
        assert(f[i * 7 + 4] == rows[i].value(4));
        assert(f[i * 7 + 5] == rows[i].value(5));
        assert(f[i * 7 + 6] == rows[i].value(6));
    }
    assert(rows_of(f) =~= rows);
}

/// Flattening what was read from a whole block gives back the block.
pub proof fn law_block_round_trip(block: Seq<Scalar>)
    requires
        block.len() % 7 == 0,
    ensures
        flat(rows_of(block)) == block,
{
    assert forall|k: int| 0 <= k < block.len() implies #[trigger] flat(rows_of(block))[k]
        == block[k] by {
        let i = k / 7;
        assert(k == i * 7 + k % 7);
        assert(rows_of(block)[i].value(k % 7) == block[k]);
    }
    assert(flat(rows_of(block)) =~= block);
}

/// Row `j` of a selection is the row of the table that index `j` of the same
/// selection of indices names, and its flag is set; the indices increase.
pub proof fn law_selection_follows_its_indices(rows: Seq<EvidenceRow>, keep: Seq<bool>)
    requires
        keep.len() == rows.len(),
        rows.len() <= usize::MAX,
    ensures
        kept(indices(rows.len()), keep).len() == kept(rows, keep).len(),
        forall|j: int|
            #![trigger kept(indices(rows.len()), keep)[j]]
            0 <= j < kept(rows, keep).len() ==> {
                let i = kept(indices(rows.len()), keep)[j] as int;
                0 <= i < rows.len() && keep[i] && kept(rows, keep)[j] == rows[i]
            },
        forall|j: int, k: int|
            0 <= j < k < kept(rows, keep).len() ==> kept(indices(rows.len()), keep)[j] < kept(
                indices(rows.len()),
                keep,
            )[k],
{
    lemma_selection(rows, keep);
}

proof fn lemma_selection(rows: Seq<EvidenceRow>, keep: Seq<bool>)
    requires
        keep.len() >= rows.len(),
        rows.len() <= usize::MAX,
    ensures
        kept(indices(rows.len()), keep).len() == kept(rows, keep).len(),
        forall|j: int|
            #![trigger kept(indices(rows.len()), keep)[j]]
            0 <= j < kept(rows, keep).len() ==> {
                let i = kept(indices(rows.len()), keep)[j] as int;
                0 <= i < rows.len() && keep[i] && kept(rows, keep)[j] == rows[i]
            },
        forall|j: int, k: int|
            0 <= j < k < kept(rows, keep).len() ==> kept(indices(rows.len()), keep)[j] < kept(
                indices(rows.len()),
                keep,
            )[k],
    decreases rows.len(),
{
    if rows.len() > 0 {
        let shorter = rows.drop_last();
        assert(indices(rows.len()).drop_last() =~= indices(shorter.len()));
        lemma_selection(shorter, keep);
    }
}

/// Every row whose flag is set is in the selection.
pub proof fn law_selection_is_complete(rows: Seq<EvidenceRow>, keep: Seq<bool>, i: int)
    requires
        keep.len() == rows.len(),
        0 <= i < rows.len(),
        keep[i],
    ensures
        kept(rows, keep).contains(rows[i]),
{
    lemma_selection_is_complete(rows, keep, i);
}

proof fn lemma_selection_is_complete(rows: Seq<EvidenceRow>, keep: Seq<bool>, i: int)
    requires
        keep.len() >= rows.len(),
        0 <= i < rows.len(),
        keep[i],
    ensures
        kept(rows, keep).contains(rows[i]),
    decreases rows.len(),
{
    let k = kept(rows, keep);
    if i == rows.len() - 1 {
        assert(k[k.len() - 1] == rows[i]);
    } else {
        lemma_selection_is_complete(rows.drop_last(), keep, i);
        let j = choose|j: int|
            0 <= j < kept(rows.drop_last(), keep).len() && kept(rows.drop_last(), keep)[j]
                == rows.drop_last()[i];
        assert(k[j] == rows[i]);
    }
}

/// A splat's view count is the number of views that support it.
pub proof fn law_view_count(n: nat, masses: Seq<Seq<Scalar>>, i: int)
    requires
        masses.len() <= u32::MAX,
        0 <= i < n,
    ensures
        counted_views(n, masses).len() == n,
        counted_views(n, masses)[i] == support_count(masses, i),
        support_count(masses, i) <= masses.len(),
    decreases masses.len(),
{
    if masses.len() > 0 {
        law_view_count(n, masses.drop_last(), i);
    }
}

/// A splat that no view supports is pruned, whatever the threshold; so is one
/// that drew nothing, for any positive threshold.
pub proof fn law_unsupported_splats_are_pruned(
    row: EvidenceRow,
    ratio: Scalar,
    min_inmask: Scalar,
)
    ensures
        row.views == (Scalar { bits: ZERO_BITS }) ==> !row.kept_by(ratio, min_inmask),
        row.w_all == (Scalar { bits: ZERO_BITS }) && (Scalar { bits: ZERO_BITS }).below(min_inmask)
            ==> !row.kept_by(ratio, min_inmask),
{
}

/// Pruning what a pruning left drops nothing more.
pub proof fn law_pruning_again_drops_nothing(
    rows: Seq<EvidenceRow>,
    ratios: Seq<Scalar>,
    min_inmask: Scalar,
    j: int,
)
    requires
        ratios.len() == rows.len(),
        0 <= j < kept(rows, keep_flags(rows, ratios, min_inmask)).len(),
    ensures
        ({
            let flags = keep_flags(rows, ratios, min_inmask);
            kept(rows, flags).len() == kept(ratios, flags).len() && kept(rows, flags)[j].kept_by(
                kept(ratios, flags)[j],
                min_inmask,
            )
        }),
{
    lemma_kept_rows_stay(rows, ratios, keep_flags(rows, ratios, min_inmask), min_inmask);
}

proof fn lemma_kept_rows_stay(
    rows: Seq<EvidenceRow>,
    ratios: Seq<Scalar>,
    flags: Seq<bool>,
    min_inmask: Scalar,
)
    requires
        ratios.len() == rows.len() <= flags.len(),
        forall|i: int|
            0 <= i < rows.len() ==> #[trigger] flags[i] == rows[i].kept_by(ratios[i], min_inmask),
    ensures
        kept(rows, flags).len() == kept(ratios, flags).len(),
        forall|j: int|
            0 <= j < kept(rows, flags).len() ==> (#[trigger] kept(rows, flags)[j]).kept_by(
                kept(ratios, flags)[j],
                min_inmask,
            ),
    decreases rows.len(),
{
    if rows.len() > 0 {
        let fewer = rows.drop_last();
        let fewer_ratios = ratios.drop_last();
        assert forall|i: int| 0 <= i < fewer.len() implies #[trigger] flags[i] == fewer[i].kept_by(
            fewer_ratios[i],
            min_inmask,
        ) by {
            assert(fewer[i] == rows[i] && fewer_ratios[i] == ratios[i]);
        }
        lemma_kept_rows_stay(fewer, fewer_ratios, flags, min_inmask);
        let n = rows.len() - 1;
        assert(flags[n] == rows[n].kept_by(ratios[n], min_inmask));
    }
}

/// Among the first `n` indices, one is kept exactly where its flag is set.
proof fn lemma_index_is_kept(n: nat, keep: Seq<bool>, i: int)
    requires
        keep.len() >= n,
        n <= usize::MAX,
        0 <= i <= usize::MAX,
    ensures
        kept(indices(n), keep).contains(i as usize) <==> i < n && keep[i],
    decreases n,
{
    let all = kept(indices(n), keep);
    if n > 0 {
        let m = (n - 1) as nat;
        let fewer = kept(indices(m), keep);
        assert(indices(n).drop_last() =~= indices(m));
        lemma_index_is_kept(m, keep, i);
        if keep[n - 1] {
            assert(all == fewer.push((n - 1) as usize));
            if fewer.contains(i as usize) {
                let j = choose|j: int| 0 <= j < fewer.len() && fewer[j] == i as usize;
                assert(all[j] == i as usize);
            }
            if i == n - 1 {
                assert(all[fewer.len() as int] == i as usize);
            }
            if all.contains(i as usize) && i != n - 1 {
                let j = choose|j: int| 0 <= j < all.len() && all[j] == i as usize;
                assert(j < fewer.len());
                assert(fewer[j] == i as usize);
            }
        }
    }
}

/// The in-mask fraction of a splat that drew something is its ratio where that
/// lies between zero and one, bit for bit, and the nearer of the two elsewhere;
/// a splat that drew nothing has the fraction zero. No other column counts.
pub proof fn law_inmask_fraction_by_ratio(row: EvidenceRow, ratio: Scalar)
    ensures
        !(Scalar { bits: 0 }).below(row.w_all) ==> row.inmask(ratio) == (Scalar { bits: 0 }),
        (Scalar { bits: 0 }).below(row.w_all) ==> {
            &&& (Scalar { bits: 0 }).at_most(ratio) && ratio.at_most(Scalar { bits: 0x3f80_0000 })
                ==> row.inmask(ratio) == ratio
            &&& ratio.below(Scalar { bits: 0 }) ==> row.inmask(ratio) == (Scalar { bits: 0 })
            &&& (Scalar { bits: 0x3f80_0000 }).below(ratio) ==> row.inmask(ratio) == (Scalar {
                bits: 0x3f80_0000,
            })
            &&& ratio.nan() ==> row.inmask(ratio) == ratio
        },
{
}

/// Pruning drops exactly the splats without a supporting view and those whose
/// in-mask fraction is not at or above the threshold. A splat with a supporting
/// view, some drawn mass and a ratio between the threshold and one stays,
/// whatever its other columns hold.
pub proof fn law_pruning_keeps_every_supported_splat(
    rows: Seq<EvidenceRow>,
    ratios: Seq<Scalar>,
    min_inmask: Scalar,
    i: int,
)
    requires
        ratios.len() == rows.len(),
        rows.len() <= usize::MAX,
        0 <= i < rows.len(),
    ensures
        ({
            let stays = kept(
                indices(rows.len()),
                keep_flags(rows, ratios, min_inmask),
            ).contains(i as usize);
            let zero = Scalar { bits: 0 };
            let one = Scalar { bits: 0x3f80_0000 };
            let supported = zero.below(rows[i].views);
            let drawn = zero.below(rows[i].w_all);
            &&& !supported ==> !stays
            &&& supported && drawn && zero.at_most(ratios[i]) && ratios[i].at_most(one) ==> stays
                == min_inmask.at_most(ratios[i])
            &&& supported && drawn && one.below(ratios[i]) ==> stays == min_inmask.at_most(one)
            &&& supported && drawn && ratios[i].below(zero) ==> stays == min_inmask.at_most(zero)
            &&& supported && drawn && ratios[i].nan() ==> !stays
            &&& supported && !drawn ==> stays == min_inmask.at_most(zero)
        }),
{
    lemma_index_is_kept(rows.len(), keep_flags(rows, ratios, min_inmask), i);
}

/// Tables that agree in the drawn mass and the supporting views keep the same
/// splats, however they differ in the residuals, the directions and the in-mask
/// mass beside the ratios.
pub proof fn law_pruning_ignores_residuals_and_directions(
    a: Seq<EvidenceRow>,
    b: Seq<EvidenceRow>,
    ratios: Seq<Scalar>,
    min_inmask: Scalar,
)
    requires
        a.len() == b.len(),
        forall|i: int|
            0 <= i < a.len() ==> (#[trigger] a[i]).w_all == b[i].w_all && a[i].views == b[i].views,
    ensures
        kept(indices(a.len()), keep_flags(a, ratios, min_inmask)) == kept(
            indices(b.len()),
            keep_flags(b, ratios, min_inmask),
        ),
{
    let left = keep_flags(a, ratios, min_inmask);
    let right = keep_flags(b, ratios, min_inmask);
    assert forall|i: int| 0 <= i < left.len() implies left[i] == right[i] by {
        let row = a[i];
    }
    assert(left =~= right);
}

/// A stricter threshold keeps no splat that a laxer one drops.
pub proof fn law_stricter_pruning_keeps_fewer(
    rows: Seq<EvidenceRow>,
    ratios: Seq<Scalar>,
    lax: Scalar,
    strict: Scalar,
    i: int,
)
    requires
        ratios.len() == rows.len(),
        rows.len() <= usize::MAX,
        0 <= i < rows.len(),
        lax.at_most(strict),
        kept(indices(rows.len()), keep_flags(rows, ratios, strict)).contains(i as usize),
    ensures
        kept(indices(rows.len()), keep_flags(rows, ratios, lax)).contains(i as usize),
{
    lemma_index_is_kept(rows.len(), keep_flags(rows, ratios, strict), i);
    lemma_index_is_kept(rows.len(), keep_flags(rows, ratios, lax), i);
}

/// Selecting from two tables, one after the other, selects from each, and a
/// row alone is selected exactly where its flag is set.
pub proof fn law_selection_row_by_row(rows: Seq<EvidenceRow>, row: EvidenceRow, keep: Seq<bool>)
    requires
        keep.len() > rows.len(),
    ensures
        kept(Seq::<EvidenceRow>::empty(), keep).len() == 0,
        keep[rows.len() as int] ==> kept(rows.push(row), keep) == kept(rows, keep).push(row),
        !keep[rows.len() as int] ==> kept(rows.push(row), keep) == kept(rows, keep),
{
    assert(rows.push(row).drop_last() =~= rows);
}

/// A flat block holds, for each splat in turn, the in-mask mass, the drawn
/// mass, the residual, the views and the three components of the direction.
pub proof fn law_flat_block_by_field(rows: Seq<EvidenceRow>, i: int)
    requires
        0 <= i < rows.len(),
    ensures
        flat(rows).len() == 7 * rows.len(),
        flat(rows)[7 * i] == rows[i].w_in,
        flat(rows)[7 * i + 1] == rows[i].w_all,
        flat(rows)[7 * i + 2] == rows[i].err,
        flat(rows)[7 * i + 3] == rows[i].views,
        flat(rows)[7 * i + 4] == rows[i].dir_0,
        flat(rows)[7 * i + 5] == rows[i].dir_1,
        flat(rows)[7 * i + 6] == rows[i].dir_2,
{
    let at = 7 * i;
    assert(at / 7 == i && at % 7 == 0);
    assert((at + 1) / 7 == i && (at + 1) % 7 == 1);
    assert((at + 2) / 7 == i && (at + 2) % 7 == 2);
    assert((at + 3) / 7 == i && (at + 3) % 7 == 3);
    assert((at + 4) / 7 == i && (at + 4) % 7 == 4);
    assert((at + 5) / 7 == i && (at + 5) % 7 == 5);
    assert((at + 6) / 7 == i && (at + 6) % 7 == 6);
}

/// A row read from a flat block holds the seven values of its splat, each in
/// its column.
pub proof fn law_read_row_by_field(block: Seq<Scalar>, i: int)
    requires
        0 <= i < block.len() / 7,
    ensures
        rows_of(block).len() == block.len() / 7,
        rows_of(block)[i].w_in == block[7 * i],
        rows_of(block)[i].w_all == block[7 * i + 1],
        rows_of(block)[i].err == block[7 * i + 2],
        rows_of(block)[i].views == block[7 * i + 3],
        rows_of(block)[i].dir_0 == block[7 * i + 4],
        rows_of(block)[i].dir_1 == block[7 * i + 5],
        rows_of(block)[i].dir_2 == block[7 * i + 6],
{
    assert(7 * i == i * 7);
}

/// A table's rows are read across its columns.
pub proof fn law_rows_are_read_across_columns(evidence: SplatEvidence, i: int)
    requires
        evidence.wf(),
        0 <= i < evidence.w_in@.len(),
    ensures
        evidence@.len() == evidence.w_in@.len() == evidence.w_all@.len() == evidence.err@.len()
            == evidence.views@.len() == evidence.dir@.len(),
        evidence@[i].w_in == evidence.w_in@[i],
        evidence@[i].w_all == evidence.w_all@[i],
        evidence@[i].err == evidence.err@[i],
        evidence@[i].views == evidence.views@[i],
        evidence@[i].dir_0 == evidence.dir@[i]@[0],
        evidence@[i].dir_1 == evidence.dir@[i]@[1],
        evidence@[i].dir_2 == evidence.dir@[i]@[2],
{
}

/// The properties of a vertex that hold its evidence, in the order of the
/// block.
pub proof fn law_evidence_properties()
    ensures
        field_name(0) == "ev_w_in"@,
        field_name(1) == "ev_w_all"@,
        field_name(2) == "ev_err"@,
        field_name(3) == "ev_views"@,
        field_name(4) == "ev_dir_0"@,
        field_name(5) == "ev_dir_1"@,
        field_name(6) == "ev_dir_2"@,
{
}

/// A view supports a splat from an in-mask mass of one pixel on.
pub proof fn law_support_starts_at_one_pixel(w_in: Scalar)
    ensures
        supports(w_in) <==> 0x3f80_0000 <= w_in.bits <= 0x7f80_0000,
{
}

/// One more view adds one to the count of each splat to which it gives a pixel
/// of in-mask mass, and leaves the other counts as they are.
pub proof fn law_view_adds_one_where_it_supports(views: Seq<u32>, w_in: Seq<Scalar>, i: int)
    requires
        0 <= i < views.len() == w_in.len(),
        views[i] < u32::MAX,
    ensures
        counted(views, w_in).len() == views.len(),
        (Scalar { bits: 0x3f80_0000 }).at_most(w_in[i]) ==> counted(views, w_in)[i] == views[i]
            + 1,
        !(Scalar { bits: 0x3f80_0000 }).at_most(w_in[i]) ==> counted(views, w_in)[i] == views[i],
{
}

/// Views are counted from zero and one by one, and the order in which two views
/// are counted does not matter.
pub proof fn law_views_are_counted_one_by_one(
    n: nat,
    masses: Seq<Seq<Scalar>>,
    view: Seq<Scalar>,
    other: Seq<Scalar>,
    i: int,
)
    requires
        masses.len() + 2 <= u32::MAX,
        0 <= i < n,
    ensures
        counted_views(n, Seq::empty())[i] == 0,
        counted_views(n, masses.push(view)) == counted(counted_views(n, masses), view),
        counted_views(n, masses.push(view).push(other))[i] == counted_views(
            n,
            masses.push(other).push(view),
        )[i],
{
    assert(masses.push(view).drop_last() =~= masses);
    assert(masses.push(other).drop_last() =~= masses);
    assert(masses.push(view).push(other).drop_last() =~= masses.push(view));
    assert(masses.push(other).push(view).drop_last() =~= masses.push(other));
    law_view_count(n, masses, i);
    law_view_count(n, masses.push(view), i);
    law_view_count(n, masses.push(other), i);
    law_view_count(n, masses.push(view).push(other), i);
    law_view_count(n, masses.push(other).push(view), i);
    assert(masses.push(view).last() == view && masses.push(other).last() == other);
}

/// Tables are equal exactly where their flat blocks are, number by number.
pub proof fn law_equal_tables_have_equal_blocks(a: SplatEvidence, b: SplatEvidence)
    requires
        a.wf(),
        b.wf(),
    ensures
        a.eq_spec(&b) <==> flat(a@).len() == flat(b@).len() && forall|k: int|
            0 <= k < flat(a@).len() ==> (#[trigger] flat(a@)[k]).equals(flat(b@)[k]),
{
    let fa = flat(a@);
    let fb = flat(b@);
    if a.eq_spec(&b) {
        assert forall|k: int| 0 <= k < fa.len() implies (#[trigger] fa[k]).equals(fb[k]) by {
            let i = k / 7;
            assert(0 <= i < a@.len());
            assert(a.w_in@[i].equals(b.w_in@[i]));
            assert(a.w_all@[i].equals(b.w_all@[i]));
            assert(a.err@[i].equals(b.err@[i]));
            assert(a.views@[i].equals(b.views@[i]));
            assert(equal_values(a.dir@[i]@, b.dir@[i]@));
            assert(a.dir@[i]@[0].equals(b.dir@[i]@[0]));
            assert(a.dir@[i]@[1].equals(b.dir@[i]@[1]));
            assert(a.dir@[i]@[2].equals(b.dir@[i]@[2]));
        }
    }
    if fa.len() == fb.len() && forall|k: int| 0 <= k < fa.len() ==> (#[trigger] fa[k]).equals(fb[k]) {
        assert forall|i: int| #![trigger a.w_in@[i]] 0 <= i < a@.len() implies {
            &&& a.w_in@[i].equals(b.w_in@[i])
            &&& a.w_all@[i].equals(b.w_all@[i])
            &&& a.err@[i].equals(b.err@[i])
            &&& a.views@[i].equals(b.views@[i])
            &&& equal_values(a.dir@[i]@, b.dir@[i]@)
        } by {
            law_flat_block_by_field(a@, i);
            law_flat_block_by_field(b@, i);
            let at = 7 * i;
            assert(fa[at].equals(fb[at]) && fa[at + 1].equals(fb[at + 1]) && fa[at + 2].equals(
                fb[at + 2],
            ) && fa[at + 3].equals(fb[at + 3]) && fa[at + 4].equals(fb[at + 4]) && fa[at
                + 5].equals(fb[at + 5]) && fa[at + 6].equals(fb[at + 6]));
            let da = a.dir@[i]@;
            let db = b.dir@[i]@;
            assert(da.len() == 3 && db.len() == 3);
            assert forall|j: int| 0 <= j < 3 implies (#[trigger] da[j]).equals(db[j]) by {
                assert(j == 0 || j == 1 || j == 2);
            }
        }
        assert(equal_values(a.w_in@, b.w_in@));
        assert forall|i: int| 0 <= i < a@.len() implies (#[trigger] a.w_all@[i]).equals(b.w_all@[i]) by {
            let w = a.w_in@[i];
        }
        assert forall|i: int| 0 <= i < a@.len() implies (#[trigger] a.err@[i]).equals(b.err@[i]) by {
            let w = a.w_in@[i];
        }
        assert forall|i: int| 0 <= i < a@.len() implies (#[trigger] a.views@[i]).equals(b.views@[i]) by {
            let w = a.w_in@[i];
        }
        assert forall|i: int| 0 <= i < a@.len() implies equal_values((#[trigger] a.dir@[i])@, b.dir@[i]@) by {
            let w = a.w_in@[i];
        }
    }
}

/// The three parts of a view's plan do not depend on each other: the mask is
/// weighed where there are loss weights, normals count where they have a
/// positive weight and the view has them, and the total is counted in the mask
/// exactly for a masked view.
pub proof fn law_view_plan_part_by_part(
    alpha_mode: AlphaMode,
    has_loss_weight: bool,
    normal_weight: Scalar,
    has_normals: bool,
    plan: ViewPlan,
)
    requires
        call_ensures(plan_view, (alpha_mode, has_loss_weight, normal_weight, has_normals), plan),
    ensures
        plan.weigh_mask <==> has_loss_weight,
        plan.add_normals <==> has_normals && 0 < normal_weight.bits <= 0x7f80_0000,
        plan.total == TotalLane::InMask <==> alpha_mode == AlphaMode::Masked,
        plan.total == TotalLane::Everywhere <==> alpha_mode == AlphaMode::Transparent,
{
}

/// Evidence that a splat file carries is taken, dataset or not, where it has
/// one row for each splat, and refused where it has not; without it, it is
/// measured where there is a dataset and trusted where there is none.
pub proof fn law_carried_evidence_comes_first(
    block: Vec<Scalar>,
    num_splats: usize,
    has_dataset: bool,
    carried: Result<EvidenceSource, RowMismatch>,
    bare: Result<EvidenceSource, RowMismatch>,
    i: int,
)
    requires
        call_ensures(resolve_evidence, (Some(block), num_splats, has_dataset), carried),
        call_ensures(resolve_evidence, (None, num_splats, has_dataset), bare),
    ensures
        block@.len() == 7 * num_splats ==> (carried matches Ok(EvidenceSource::Carried(ev)) && {
            &&& ev@.len() == num_splats
            &&& 0 <= i < num_splats ==> ev.w_in@[i] == block@[7 * i] && ev.w_all@[i] == block@[7 * i
                + 1] && ev.views@[i] == block@[7 * i + 3]
        }),
        block@.len() != 7 * num_splats ==> (carried matches Err(e) && e.carried && e.splats
            == num_splats),
        bare is Ok,
        bare->Ok_0 is Measure <==> has_dataset,
        bare->Ok_0 is Trusted <==> !has_dataset,
{
    if block@.len() == 7 * num_splats {
        if let Ok(EvidenceSource::Carried(ev)) = carried {
            assert(ev@ == rows_of(block@));
            if 0 <= i < num_splats {
                law_read_row_by_field(block@, i);
                assert(ev@[i] == rows_of(block@)[i]);
            }
        }
    }
}

/// The evidence that is read back holds, for each splat, the three sums in
/// their columns, its view count and its resultant.
pub proof fn law_read_back_by_column(
    sums: Vec<Scalar>,
    views: Vec<Scalar>,
    dir: Vec<Scalar>,
    r: SplatEvidence,
    i: int,
)
    requires
        call_ensures(SplatEvidence::from_readback, (&sums, views, &dir), r),
        0 <= i < views@.len(),
    ensures
        r.wf(),
        r@.len() == views@.len(),
        r.w_in@[i] == sums@[3 * i],
        r.err@[i] == sums@[3 * i + 1],
        r.w_all@[i] == sums@[3 * i + 2],
        r.views@[i] == views@[i],
        r.dir@[i]@[0] == dir@[3 * i],
        r.dir@[i]@[1] == dir@[3 * i + 1],
        r.dir@[i]@[2] == dir@[3 * i + 2],
{
    assert(r@.len() == r.w_in@.len());
    law_rows_are_read_across_columns(r, i);
}

proof fn lemma_all_are_kept<T>(s: Seq<T>, keep: Seq<bool>)
    requires
        keep.len() >= s.len(),
        forall|i: int| 0 <= i < s.len() ==> #[trigger] keep[i],
    ensures
        kept(s, keep) == s,
    decreases s.len(),
{
    if s.len() > 0 {
        lemma_all_are_kept(s.drop_last(), keep);
        assert(keep[s.len() - 1]);
        assert(s.drop_last().push(s.last()) =~= s);
    } else {
        assert(s =~= Seq::empty());
    }
}

/// What a pruning returns depends on the drawn mass, the supporting views, the
/// ratios and the threshold alone: tables that differ elsewhere keep the same
/// indices.
pub proof fn law_pruned_indices_ignore_residuals_and_directions(
    num_splats: usize,
    a: SplatEvidence,
    b: SplatEvidence,
    ratios: Vec<Scalar>,
    min_inmask: Scalar,
    pruned_a: (Option<Vec<usize>>, SplatEvidence),
    pruned_b: (Option<Vec<usize>>, SplatEvidence),
)
    requires
        a.wf(),
        b.wf(),
        a.w_in@.len() == num_splats,
        b.w_in@.len() == num_splats,
        ratios@.len() == num_splats,
        a.w_all@ == b.w_all@,
        a.views@ == b.views@,
        call_ensures(prune_by_inmask, (num_splats, &a, &ratios, min_inmask), pruned_a),
        call_ensures(prune_by_inmask, (num_splats, &b, &ratios, min_inmask), pruned_b),
    ensures
        pruned_a.0 is Some <==> pruned_b.0 is Some,
        pruned_a.0 is Some ==> pruned_a.0->0@ == pruned_b.0->0@,
{
    assert forall|i: int| 0 <= i < a@.len() implies (#[trigger] a@[i]).w_all == b@[i].w_all
        && a@[i].views == b@[i].views by {
        law_rows_are_read_across_columns(a, i);
        law_rows_are_read_across_columns(b, i);
    }
    law_pruning_ignores_residuals_and_directions(a@, b@, ratios@, min_inmask);
    lemma_unpruned_keeps_all(num_splats, a, ratios, min_inmask, pruned_a);
    lemma_unpruned_keeps_all(num_splats, b, ratios, min_inmask, pruned_b);
}

proof fn lemma_unpruned_keeps_all(
    num_splats: usize,
    evidence: SplatEvidence,
    ratios: Vec<Scalar>,
    min_inmask: Scalar,
    pruned: (Option<Vec<usize>>, SplatEvidence),
)
    requires
        evidence.wf(),
        evidence.w_in@.len() == num_splats,
        call_ensures(prune_by_inmask, (num_splats, &evidence, &ratios, min_inmask), pruned),
    ensures
        pruned.0 is None ==> kept(
            indices(num_splats as nat),
            keep_flags(evidence@, ratios@, min_inmask),
        ).len() == num_splats,
{
    if pruned.0 is None {
        let flags = keep_flags(evidence@, ratios@, min_inmask);
        assert forall|i: int| 0 <= i < num_splats implies #[trigger] flags[i] by {
            assert(evidence@[i].kept_by(ratios@[i], min_inmask));
        }
        lemma_all_are_kept(indices(num_splats as nat), flags);
    }
}

/// The in-mask fraction that a table gives for a splat is judged by that
/// splat's own drawn mass.
pub proof fn law_inmask_of_a_splat(
    evidence: SplatEvidence,
    i: usize,
    ratio: Scalar,
    r: Scalar,
)
    requires
        evidence.wf(),
        i < evidence.w_in@.len(),
        call_ensures(SplatEvidence::inmask, (&evidence, i, ratio), r),
    ensures
        !(Scalar { bits: 0 }).below(evidence.w_all@[i as int]) ==> r == (Scalar { bits: 0 }),
        (Scalar { bits: 0 }).below(evidence.w_all@[i as int]) && (Scalar { bits: 0 }).at_most(ratio)
            && ratio.at_most(Scalar { bits: 0x3f80_0000 }) ==> r == ratio,
{
    law_rows_are_read_across_columns(evidence, i as int);
    law_inmask_fraction_by_ratio(evidence@[i as int], ratio);
}

} // verus!
