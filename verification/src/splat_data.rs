//! Splats as flat arrays: one lane per attribute, rows aligned across lanes.

use vstd::prelude::*;

use crate::scalar::{Scalar, ONE_BITS, ZERO_BITS};

verus! {

/// Number of values per splat in the optional evidence block.
pub const EVIDENCE_STRIDE: usize = 7;

/// Bit pattern of `-4.0`, the log-scale of a splat that has none.
pub const DEFAULT_LOG_SCALE_BITS: u32 = 0xc080_0000;

/// Bit pattern of `0.5`, the colour coefficient of a splat that has none.
pub const DEFAULT_SH_BITS: u32 = 0x3f00_0000;

/// How the rasterizer filters splats.
#[derive(Clone, Copy, Debug, PartialEq, Eq, Structural)]
pub enum SplatRenderMode {
    Default,
    Mip,
}

/// Splat data as read from a file. Only positions are guaranteed.
#[derive(Clone, Debug, PartialEq)]
pub struct SplatData {
    /// Positions, three values per splat.
    pub means: Vec<Scalar>,
    /// Rotations, four values per splat.
    pub rotations: Option<Vec<Scalar>>,
    /// Logarithms of the scales, three values per splat.
    pub log_scales: Option<Vec<Scalar>>,
    /// Colour coefficients, the same number of values for each splat.
    pub sh_coeffs: Option<Vec<Scalar>>,
    /// Opacities before activation, one value per splat.
    pub raw_opacities: Option<Vec<Scalar>>,
    /// Evidence, [`EVIDENCE_STRIDE`] values per splat in the order of
    /// [`crate::evidence::evidence_field`].
    pub evidence: Option<Vec<Scalar>>,
}

/// What a [`SplatData`] holds.
#[verifier::ext_equal]
pub struct SplatLanes {
    pub means: Seq<Scalar>,
    pub rotations: Option<Seq<Scalar>>,
    pub log_scales: Option<Seq<Scalar>>,
    pub sh_coeffs: Option<Seq<Scalar>>,
    pub raw_opacities: Option<Seq<Scalar>>,
    pub evidence: Option<Seq<Scalar>>,
}

/// What an optional lane holds.
pub open spec fn lane(v: Option<Vec<Scalar>>) -> Option<Seq<Scalar>> {
    match v {
        Some(v) => Some(v@),
        None => None,
    }
}

impl View for SplatData {
    type V = SplatLanes;

    open spec fn view(&self) -> SplatLanes {
        SplatLanes {
            means: self.means@,
            rotations: lane(self.rotations),
            log_scales: lane(self.log_scales),
            sh_coeffs: lane(self.sh_coeffs),
            raw_opacities: lane(self.raw_opacities),
            evidence: lane(self.evidence),
        }
    }
}

/// Whether a lane, if there is one, holds `stride` values for each of `n` rows.
pub open spec fn lane_rows(v: Option<Seq<Scalar>>, stride: nat, n: nat) -> bool {
    v matches Some(s) ==> s.len() == n * stride
}

impl SplatLanes {
    /// Number of splats.
    pub open spec fn num_splats(self) -> nat {
        self.means.len() / 3
    }

    /// Every lane holds the rows of the same `n` splats, with `sh_stride`
    /// colour coefficients for each.
    pub open spec fn aligned(self, n: nat, sh_stride: nat) -> bool {
        &&& self.means.len() == n * 3
        &&& lane_rows(self.rotations, 4, n)
        &&& lane_rows(self.log_scales, 3, n)
        &&& lane_rows(self.sh_coeffs, sh_stride, n)
        &&& lane_rows(self.raw_opacities, 1, n)
        &&& lane_rows(self.evidence, EVIDENCE_STRIDE as nat, n)
    }

    /// Values per splat in the colour lane.
    pub open spec fn sh_stride(self) -> nat {
        match self.sh_coeffs {
            Some(c) => c.len() / self.num_splats(),
            None => 0,
        }
    }

    /// The data that [`SplatData::subsample`] leaves.
    pub open spec fn subsampled(self, max_splats: nat) -> SplatLanes {
        let n = self.num_splats();
        if max_splats == 0 || n <= max_splats {
            self
        } else {
            let step = ceil_div(n, max_splats);
            SplatLanes {
                means: picked_rows(self.means, 3, step),
                rotations: picked_lane(self.rotations, 4, step),
                log_scales: picked_lane(self.log_scales, 3, step),
                sh_coeffs: picked_lane(self.sh_coeffs, self.sh_stride(), step),
                raw_opacities: picked_lane(self.raw_opacities, 1, step),
                evidence: picked_lane(self.evidence, EVIDENCE_STRIDE as nat, step),
            }
        }
    }
}

/// `a / b`, rounded up.
pub open spec fn ceil_div(a: nat, b: nat) -> nat {
    if a % b == 0 {
        a / b
    } else {
        a / b + 1
    }
}

/// Of the whole rows of `stride` values in `v`, those with the indices `0`,
/// `step`, `2 * step` and so on, one after the other.
pub open spec fn picked_rows(v: Seq<Scalar>, stride: nat, step: nat) -> Seq<Scalar> {
    Seq::new(
        ceil_div(v.len() / stride, step) * stride,
        |k: int| v[k / (stride as int) * step * stride + k % (stride as int)],
    )
}

/// [`picked_rows`] of an optional lane.
pub open spec fn picked_lane(v: Option<Seq<Scalar>>, stride: nat, step: nat) -> Option<
    Seq<Scalar>,
> {
    match v {
        Some(s) => Some(picked_rows(s, stride, step)),
        None => None,
    }
}

/// `dc`, then the coefficients of `rest` coefficient by coefficient: `rest`
/// holds all of the first channel, then all of the second, then all of the
/// third.
pub open spec fn interleaved(dc: Seq<Scalar>, rest: Seq<Scalar>) -> Seq<Scalar> {
    let per_channel = rest.len() as int / 3;
    dc + Seq::new((3 * per_channel) as nat, |k: int| rest[k % 3 * per_channel + k / 3])
}

/// `row` repeated `n` times.
pub open spec fn repeated(row: Seq<Scalar>, n: nat) -> Seq<Scalar> {
    Seq::new(n * row.len(), |k: int| row[k % (row.len() as int)])
}

/// Splats with every lane filled in, ready to be handed to the rasterizer.
#[derive(Clone, Debug, PartialEq)]
pub struct RawSplats {
    pub means: Vec<Scalar>,
    pub rotations: Vec<Scalar>,
    pub log_scales: Vec<Scalar>,
    pub sh_coeffs: Vec<Scalar>,
    pub opacities: Vec<Scalar>,
    pub mode: SplatRenderMode,
}

proof fn lemma_ceil_div(a: nat, b: nat)
    requires
        0 < b,
    ensures
        (ceil_div(a, b) - 1) * b < a || a == 0,
        a <= ceil_div(a, b) * b,
        a == 0 ==> ceil_div(a, b) == 0,
{
    let q = a / b;
    assert(a == q * b + a % b && 0 <= a % b < b) by (nonlinear_arith)
        requires
            q == a / b,
            0 < b,
    ;
    assert((q + 1) * b == q * b + b && (q - 1) * b == q * b - b) by (nonlinear_arith);
    if a == 0 {
        assert(q == 0) by (nonlinear_arith)
            requires
                a == 0,
                q == a / b,
                0 < b,
        ;
    }
}

/// Appends the row of `v` that starts at `at`.
fn push_row(out: &mut Vec<Scalar>, v: &Vec<Scalar>, at: usize, stride: usize)
    requires
        at + stride <= v@.len(),
    ensures
        final(out)@ == old(out)@ + v@.subrange(at as int, at + stride),
{
    let len: usize = v.len();
    let mut j: usize = 0;
    while j < stride
        invariant
            j <= stride,
            at + stride <= len == v@.len(),
            out@ == old(out)@ + v@.subrange(at as int, at + j),
        decreases stride - j,
    {
        out.push(v[at + j]);
        j += 1;
        assert(v@.subrange(at as int, at + j) == v@.subrange(at as int, at + j - 1).push(
            v@[at + j - 1],
        ));
        assert(out@ == old(out)@ + v@.subrange(at as int, at + j));
    }
}

/// Row `r` of a picked lane is row `r * step` of the lane.
proof fn lemma_row_extends(v: Seq<Scalar>, stride: nat, step: nat, kept: nat)
    requires
        0 < stride,
        0 < step,
        kept * step * stride + stride <= v.len(),
    ensures
        Seq::new(
            (kept + 1) * stride,
            |k: int| v[k / (stride as int) * step * stride + k % (stride as int)],
        ) == Seq::new(
            kept * stride,
            |k: int| v[k / (stride as int) * step * stride + k % (stride as int)],
        ) + v.subrange(
            (kept * step * stride) as int,
            (kept * step * stride + stride) as int,
        ),
{
    let f = |k: int| v[k / (stride as int) * step * stride + k % (stride as int)];
    let long = Seq::new((kept + 1) * stride, f);
    let short = Seq::new(kept * stride, f);
    let row = v.subrange(
        (kept * step * stride) as int,
        (kept * step * stride + stride) as int,
    );
    assert((kept + 1) * stride == kept * stride + stride) by (nonlinear_arith);
    assert forall|k: int| 0 <= k < long.len() implies #[trigger] long[k] == (short + row)[k] by {
        if k >= kept * stride {
            let j = k - kept * stride;
            assert(k / (stride as int) == kept && k % (stride as int) == j) by (nonlinear_arith)
                requires
                    k == kept * stride + j,
                    0 <= j < stride,
            ;
        }
    }
    assert(long =~= short + row);
}

/// Of the whole rows of `stride` values in `v`, every `step`th, from the first.
fn pick(v: &Vec<Scalar>, stride: usize, step: usize) -> (r: Vec<Scalar>)
    requires
        0 < stride,
        0 < step,
    ensures
        r@ == picked_rows(v@, stride as nat, step as nat),
{
    let len: usize = v.len();
    let rows: usize = len / stride;
    let mut r: Vec<Scalar> = Vec::new();
    let mut row: usize = 0;
    let ghost mut kept: nat = 0;
    let ghost f = |k: int| v@[k / (stride as int) * (step as nat) * (stride as nat) + k % (stride as int)];
    let ghost want = ceil_div(rows as nat, step as nat);
    proof {
        lemma_ceil_div(rows as nat, step as nat);
    }
    assert(r@ =~= Seq::new(0, f));
    assert(0 * stride == 0) by (nonlinear_arith);
    let mut more: bool = rows > 0;
    while more
        invariant
            0 < stride,
            0 < step,
            len == v@.len(),
            rows == v@.len() / (stride as nat),
            more ==> row < rows && row == kept * step,
            want == ceil_div(rows as nat, step as nat),
            f == |k: int|
                v@[k / (stride as int) * (step as nat) * (stride as nat) + k % (stride as int)],
            r@ == Seq::new(kept * (stride as nat), f),
            !more ==> kept == want,
        decreases rows - row, (if more { 1int } else { 0int }),
    {
        assert(row * stride + stride <= v@.len()) by (nonlinear_arith)
            requires
                row < rows,
                rows == v@.len() / (stride as nat),
                0 < stride,
        ;
        push_row(&mut r, v, row * stride, stride);
        proof {
            lemma_row_extends(v@, stride as nat, step as nat, kept);
            kept = kept + 1;
            assert(kept * step == (kept - 1) * step + step) by (nonlinear_arith);
        }
        if rows - row > step {
            row += step;
        } else {
            more = false;
            proof {
                lemma_ceil_div(rows as nat, step as nat);
                assert(kept == want) by (nonlinear_arith)
                    requires
                        (kept - 1) * step < rows,
                        rows <= kept * step,
                        (want - 1) * step < rows,
                        rows <= want * step,
                        0 < step,
                ;
            }
        }
    }
    r
}

/// [`pick`] of an optional lane.
fn pick_lane(v: &Option<Vec<Scalar>>, stride: usize, step: usize) -> (r: Option<Vec<Scalar>>)
    requires
        v is Some ==> 0 < stride,
        0 < step,
    ensures
        lane(r) == picked_lane(lane(*v), stride as nat, step as nat),
{
    match v {
        Some(v) => Some(pick(v, stride, step)),
        None => None,
    }
}

/// `row`, `n` times.
fn repeat(row: &Vec<Scalar>, n: usize) -> (r: Vec<Scalar>)
    requires
        0 < row@.len(),
    ensures
        r@ == repeated(row@, n as nat),
{
    let mut r: Vec<Scalar> = Vec::new();
    let mut i: usize = 0;
    while i < n
        invariant
            0 < row@.len(),
            i <= n,
            r@ == repeated(row@, i as nat),
        decreases n - i,
    {
        push_row(&mut r, row, 0, row.len());
        let ghost len = row@.len() as int;
        assert((i + 1) * len == i * len + len) by (nonlinear_arith);
        assert forall|k: int| 0 <= k < len implies #[trigger] ((i * len + k) % len) == k by {
            assert((i * len + k) % len == k) by (nonlinear_arith)
                requires
                    0 <= k < len,
            ;
        }
        assert(r@ =~= repeated(row@, (i + 1) as nat)) by {
            assert forall|k: int| 0 <= k < r@.len() implies #[trigger] r@[k] == row@[k % len] by {
                if k >= i * len {
                    assert((i * len + (k - i * len)) % len == k - i * len);
                }
            }
        }
        i += 1;
    }
    assert(0 * row@.len() == 0) by (nonlinear_arith);
    r
}

impl SplatData {
    /// Number of splats.
    pub fn num_splats(&self) -> (n: usize)
        ensures
            n == self@.num_splats(),
    {
        self.means.len() / 3
    }

    /// Strided subsample down to at most `max_splats` splats. The data stays
    /// as it is where it is within budget, and for a budget of zero.
    pub fn subsample(self, max_splats: usize) -> (r: SplatData)
        requires
            max_splats != 0 && self@.num_splats() > max_splats ==> (self@.sh_coeffs matches Some(
                c,
            ) ==> c.len() >= self@.num_splats()),
        ensures
            r@ == self@.subsampled(max_splats as nat),
    {
        let n = self.num_splats();
        if max_splats == 0 || n <= max_splats {
            return self;
        }
        assert(self@.means.len() == self.means.len());
        assert(n / max_splats <= n) by (nonlinear_arith)
            requires
                max_splats > 0,
        ;
        let step: usize = if n % max_splats == 0 {
            n / max_splats
        } else {
            n / max_splats + 1
        };
        proof {
            lemma_ceil_div(n as nat, max_splats as nat);
            assert(step > 0) by (nonlinear_arith)
                requires
                    n <= step * max_splats,
                    0 < n,
                    0 <= step,
            ;
        }
        let sh_stride: usize = match &self.sh_coeffs {
            Some(c) => c.len() / n,
            None => 0,
        };
        assert(self@.sh_coeffs is Some ==> sh_stride > 0) by {
            if let Some(c) = self@.sh_coeffs {
                assert(c.len() / (n as nat) > 0) by (nonlinear_arith)
                    requires
                        c.len() >= n,
                        n > 0,
                ;
            }
        }
        SplatData {
            means: pick(&self.means, 3, step),
            rotations: pick_lane(&self.rotations, 4, step),
            log_scales: pick_lane(&self.log_scales, 3, step),
            sh_coeffs: pick_lane(&self.sh_coeffs, sh_stride, step),
            raw_opacities: pick_lane(&self.raw_opacities, 1, step),
            evidence: pick_lane(&self.evidence, EVIDENCE_STRIDE, step),
        }
    }

    /// Every lane, with a default for those that are missing: the identity
    /// rotation, log-scale `-4.0`, colour `0.5` and the given opacity.
    pub fn into_splats(self, default_opacity: Scalar, mode: SplatRenderMode) -> (r: RawSplats)
        ensures
            r.means@ == self@.means,
            r.rotations@ == (match self@.rotations {
                Some(v) => v,
                None => repeated(
                    seq![
                        (Scalar { bits: ONE_BITS }),
                        (Scalar { bits: ZERO_BITS }),
                        (Scalar { bits: ZERO_BITS }),
                        (Scalar { bits: ZERO_BITS }),
                    ],
                    self@.num_splats(),
                ),
            }),
            r.log_scales@ == (match self@.log_scales {
                Some(v) => v,
                None => Seq::new(
                    self@.num_splats() * 3,
                    |k: int| (Scalar { bits: DEFAULT_LOG_SCALE_BITS }),
                ),
            }),
            r.sh_coeffs@ == (match self@.sh_coeffs {
                Some(v) => v,
                None => Seq::new(
                    self@.num_splats() * 3,
                    |k: int| (Scalar { bits: DEFAULT_SH_BITS }),
                ),
            }),
            r.opacities@ == (match self@.raw_opacities {
                Some(v) => v,
                None => Seq::new(self@.num_splats(), |k: int| default_opacity),
            }),
            r.mode == mode,
    {
        let n = self.num_splats();
        let rotations = match self.rotations {
            Some(v) => v,
            None => repeat(
                &vec![Scalar::one(), Scalar::zero(), Scalar::zero(), Scalar::zero()],
                n,
            ),
        };
        let log_scales = match self.log_scales {
            Some(v) => v,
            None => {
                let s = Scalar { bits: DEFAULT_LOG_SCALE_BITS };
                repeat(&vec![s, s, s], n)
            },
        };
        let sh_coeffs = match self.sh_coeffs {
            Some(v) => v,
            None => {
                let s = Scalar { bits: DEFAULT_SH_BITS };
                repeat(&vec![s, s, s], n)
            },
        };
        let opacities = match self.raw_opacities {
            Some(v) => v,
            None => repeat(&vec![default_opacity], n),
        };
        RawSplats { means: self.means, rotations, log_scales, sh_coeffs, opacities, mode }
    }
}

/// Appends `dc` and then the coefficients of `rest`, coefficient by
/// coefficient.
pub fn interleave_coeffs(dc: [Scalar; 3], rest: &[Scalar], result: &mut Vec<Scalar>)
    ensures
        final(result)@ == old(result)@ + interleaved(dc@, rest@),
        final(result)@.len() == old(result)@.len() + 3 + 3 * (rest@.len() as int / 3),
        forall|k: int| 0 <= k < old(result)@.len() ==> #[trigger] final(result)@[k] == old(result)@[k],
        forall|j: int|
            #![trigger dc@[j]]
            0 <= j < 3 ==> final(result)@[old(result)@.len() + j] == dc@[j],
        forall|i: int, j: int|
            #![trigger rest@[j * (rest@.len() as int / 3) + i]]
            0 <= i < rest@.len() as int / 3 && 0 <= j < 3 ==> final(result)@[old(result)@.len() + 3
                + 3 * i + j] == rest@[j * (rest@.len() as int / 3) + i],
{
    let per_channel: usize = rest.len() / 3;
    result.push(dc[0]);
    result.push(dc[1]);
    result.push(dc[2]);
    let ghost base = old(result)@ + dc@;
    let ghost f = |k: int| rest@[k % 3 * per_channel + k / 3];
    assert(result@ =~= base + Seq::new(0, f));
    let mut i: usize = 0;
    while i < per_channel
        invariant
            i <= per_channel == rest@.len() / 3,
            f == |k: int| rest@[k % 3 * per_channel + k / 3],
            result@ == base + Seq::new((3 * i) as nat, f),
        decreases per_channel - i,
    {
        let ghost before = result@;
        assert((3 * i) / 3 == i && (3 * i + 1) / 3 == i && (3 * i + 2) / 3 == i);
        assert(0 * per_channel + i == i && 1 * per_channel + i == per_channel + i);
        result.push(rest[i]);
        result.push(rest[per_channel + i]);
        result.push(rest[2 * per_channel + i]);
        assert(f(3 * i) == rest@[i as int]);
        assert(f(3 * i + 1) == rest@[per_channel + i]);
        assert(f(3 * i + 2) == rest@[2 * per_channel + i]);
        i += 1;
        assert(result@ =~= base + Seq::new((3 * i) as nat, f)) by {
            assert(Seq::new((3 * i) as nat, f) =~= Seq::new((3 * (i - 1)) as nat, f).push(
                f(3 * (i - 1)),
            ).push(f(3 * (i - 1) + 1)).push(f(3 * (i - 1) + 2)));
        }
    }
    assert(result@ =~= old(result)@ + interleaved(dc@, rest@));
    proof {
        assert forall|i: int, j: int|
            #![trigger rest@[j * (rest@.len() as int / 3) + i]]
            0 <= i < rest@.len() as int / 3 && 0 <= j < 3 implies result@[old(result)@.len() + 3 + 3
            * i + j] == rest@[j * (rest@.len() as int / 3) + i] by {
            law_coefficients_by_index(dc@, rest@, i, j);
        }
    }
}

/// A subsample is within budget, unless the budget is zero.
pub proof fn law_subsample_is_within_budget(data: SplatLanes, max_splats: nat)
    requires
        0 < max_splats,
    ensures
        data.subsampled(max_splats).num_splats() <= max_splats,
{
    let n = data.num_splats();
    if n > max_splats {
        let step = ceil_div(n, max_splats);
        lemma_ceil_div(n, max_splats);
        assert(step > 0) by (nonlinear_arith)
            requires
                n <= step * max_splats,
                0 < n,
                0 <= step,
        ;
        lemma_ceil_div(n, step);
        let m = ceil_div(n, step);
        assert(m <= max_splats) by (nonlinear_arith)
            requires
                (m - 1) * step < n,
                n <= step * max_splats,
                0 < step,
        ;
        assert((m * 3) / 3 == m);
    }
}

/// Row `i` of the rows picked at every `step` is row `i * step` of the lane.
pub proof fn law_picked_row_is_a_source_row(
    v: Seq<Scalar>,
    stride: nat,
    step: nat,
    i: int,
    j: int,
)
    requires
        0 < stride,
        0 < step,
        0 <= i < ceil_div(v.len() / stride, step),
        0 <= j < stride,
    ensures
        i * step < v.len() / stride,
        picked_rows(v, stride, step)[i * stride + j] == v[i * step * stride + j],
{
    let n = v.len() / stride;
    lemma_ceil_div(n, step);
    let m = ceil_div(n, step);
    assert(i * step <= (m - 1) * step) by (nonlinear_arith)
        requires
            i <= m - 1,
            0 < step,
    ;
    let k = i * stride + j;
    assert(0 <= k < m * stride) by (nonlinear_arith)
        requires
            k == i * stride + j,
            0 <= i <= m - 1,
            0 <= j < stride,
    ;
    assert(k / (stride as int) == i && k % (stride as int) == j) by (nonlinear_arith)
        requires
            k == i * stride + j,
            0 <= j < stride,
            0 <= i,
    ;
}

/// A subsample of aligned lanes is aligned.
pub proof fn law_subsample_keeps_lanes_aligned(data: SplatLanes, sh_stride: nat, max_splats: nat)
    requires
        data.aligned(data.num_splats(), sh_stride),
        data.sh_coeffs is Some ==> 0 < sh_stride,
    ensures
        data.subsampled(max_splats).aligned(
            data.subsampled(max_splats).num_splats(),
            sh_stride,
        ),
        data.num_splats() > max_splats > 0 ==> data.subsampled(max_splats).num_splats() == ceil_div(
            data.num_splats(),
            ceil_div(data.num_splats(), max_splats),
        ),
{
    let n = data.num_splats();
    if max_splats == 0 || n <= max_splats {
    } else {
        let step = ceil_div(n, max_splats);
        let m = ceil_div(n, step);
        assert((n * 3) / 3 == n && (n * 4) / 4 == n && (n * 1) / 1 == n && (n * 7) / 7 == n);
        assert((m * 3) / 3 == m);
        if let Some(c) = data.sh_coeffs {
            assert(c.len() / n == sh_stride) by (nonlinear_arith)
                requires
                    c.len() == n * sh_stride,
                    n > 0,
            ;
            assert(c.len() / sh_stride == n) by (nonlinear_arith)
                requires
                    c.len() == n * sh_stride,
                    sh_stride > 0,
            ;
        }
    }
}

/// Value `3 + 3 * i + j` of the interleaved coefficients is coefficient `i` of
/// channel `j`, the first three are the base colour in its order, and there is
/// nothing else.
pub proof fn law_coefficients_by_index(dc: Seq<Scalar>, rest: Seq<Scalar>, i: int, j: int)
    requires
        dc.len() == 3,
        0 <= j < 3,
    ensures
        interleaved(dc, rest).len() == 3 + 3 * (rest.len() as int / 3),
        interleaved(dc, rest)[j] == dc[j],
        0 <= i < rest.len() as int / 3 ==> interleaved(dc, rest)[3 + 3 * i + j] == rest[j * (
        rest.len() as int / 3) + i],
{
    let k = 3 * i + j;
    assert(k / 3 == i && k % 3 == j);
}

/// Each of the values of the three whole channels has exactly one place among
/// the interleaved coefficients: value `i` of channel `j` is found at `3 + 3 *
/// i + j`, and no two of them share a place.
pub proof fn law_each_coefficient_has_one_place(
    dc: Seq<Scalar>,
    rest: Seq<Scalar>,
    a: int,
    b: int,
) -> (at: (int, int))
    requires
        dc.len() == 3,
        0 <= a < 3 * (rest.len() as int / 3),
        0 <= b < 3 * (rest.len() as int / 3),
    ensures
        3 <= at.0 < interleaved(dc, rest).len(),
        3 <= at.1 < interleaved(dc, rest).len(),
        at.0 == 3 + 3 * (a % (rest.len() as int / 3)) + a / (rest.len() as int / 3),
        at.1 == 3 + 3 * (b % (rest.len() as int / 3)) + b / (rest.len() as int / 3),
        interleaved(dc, rest)[at.0] == rest[a],
        interleaved(dc, rest)[at.1] == rest[b],
        a != b ==> at.0 != at.1,
{
    let per = rest.len() as int / 3;
    assert(0 <= a / per < 3 && 0 <= a % per < per && a == a / per * per + a % per)
        by (nonlinear_arith)
        requires
            0 <= a < 3 * per,
    ;
    assert(0 <= b / per < 3 && 0 <= b % per < per && b == b / per * per + b % per)
        by (nonlinear_arith)
        requires
            0 <= b < 3 * per,
    ;
    law_coefficients_by_index(dc, rest, a % per, a / per);
    law_coefficients_by_index(dc, rest, b % per, b / per);
    (3 + 3 * (a % per) + a / per, 3 + 3 * (b % per) + b / per)
}

/// Copy `i` of a repeated row holds the row's own values, and there are as many
/// copies as asked for.
pub proof fn law_repeated_row_by_index(row: Seq<Scalar>, n: nat, i: int, j: int)
    requires
        0 <= i < n,
        0 <= j < row.len(),
    ensures
        repeated(row, n).len() == n * row.len(),
        0 <= i * row.len() + j < n * row.len(),
        repeated(row, n)[i * row.len() + j] == row[j],
{
    let len = row.len() as int;
    let k = i * len + j;
    assert(0 <= k < n * len && k % len == j) by (nonlinear_arith)
        requires
            k == i * len + j,
            0 <= i < n,
            0 <= j < len,
    ;
}

/// The number of rows that a step picks is the least that covers them all.
pub proof fn law_division_rounds_up(a: nat, b: nat)
    requires
        0 < b,
    ensures
        a <= ceil_div(a, b) * b,
        ceil_div(a, b) > 0 ==> (ceil_div(a, b) - 1) * b < a,
{
    lemma_ceil_div(a, b);
}

/// Data within budget, and data under a budget of zero, stays as it is. Else
/// every lane keeps its rows at one common step, the smallest at which the
/// splats fit the budget, and a lane that was missing stays missing.
pub proof fn law_subsample_picks_the_same_rows_of_every_lane(data: SplatLanes, max_splats: nat)
    ensures
        max_splats == 0 || data.means.len() / 3 <= max_splats ==> data.subsampled(max_splats)
            == data,
        0 < max_splats < data.means.len() / 3 ==> {
            let n = data.means.len() / 3;
            let step = ceil_div(n, max_splats);
            let left = data.subsampled(max_splats);
            &&& left.means == picked_rows(data.means, 3, step)
            &&& left.rotations == picked_lane(data.rotations, 4, step)
            &&& left.log_scales == picked_lane(data.log_scales, 3, step)
            &&& left.raw_opacities == picked_lane(data.raw_opacities, 1, step)
            &&& left.evidence == picked_lane(data.evidence, 7, step)
            &&& left.sh_coeffs is Some == data.sh_coeffs is Some
            &&& data.sh_coeffs matches Some(c) ==> left.sh_coeffs == Some(
                picked_rows(c, c.len() / n, step),
            )
            &&& n <= step * max_splats
            &&& (step - 1) * max_splats < n
        },
{
    if 0 < max_splats {
        lemma_ceil_div(data.means.len() / 3, max_splats);
    }
}

/// Picking the rows of a lane keeps as many as the step leaves, and a lane that
/// is missing stays missing.
pub proof fn law_picked_lane_keeps_its_absence(v: Option<Seq<Scalar>>, stride: nat, step: nat)
    ensures
        v is None ==> picked_lane(v, stride, step) is None,
        v matches Some(s) ==> picked_lane(v, stride, step) == Some(picked_rows(s, stride, step)),
        v matches Some(s) ==> picked_rows(s, stride, step).len() == ceil_div(
            s.len() / stride,
            step,
        ) * stride,
{
}

/// The lanes of splat data are its own arrays, each under its name.
pub proof fn law_lanes_are_the_arrays(data: SplatData)
    ensures
        data@.means == data.means@,
        data.rotations matches Some(v) ==> data@.rotations == Some(v@),
        data.log_scales matches Some(v) ==> data@.log_scales == Some(v@),
        data.sh_coeffs matches Some(v) ==> data@.sh_coeffs == Some(v@),
        data.raw_opacities matches Some(v) ==> data@.raw_opacities == Some(v@),
        data.evidence matches Some(v) ==> data@.evidence == Some(v@),
        data.rotations is None ==> data@.rotations is None,
        data.log_scales is None ==> data@.log_scales is None,
        data.sh_coeffs is None ==> data@.sh_coeffs is None,
        data.raw_opacities is None ==> data@.raw_opacities is None,
        data.evidence is None ==> data@.evidence is None,
        data@.num_splats() == data.means@.len() / 3,
{
}

/// Of splats without attributes the log-scale is `-4.0` and the colour `0.5`;
/// a row of evidence has seven values.
pub proof fn law_standard_attributes()
    ensures
        DEFAULT_LOG_SCALE_BITS == 0xc080_0000,
        DEFAULT_SH_BITS == 0x3f00_0000,
        EVIDENCE_STRIDE == 7,
{
}

/// A lane that is there is handed on as it is. Of a missing one every splat
/// gets its own default: the identity rotation with its scalar part first, the
/// same log-scale of `-4.0` on every axis, the same colour of `0.5` in every
/// channel, and the given opacity.
pub proof fn law_missing_attributes_have_defaults(
    data: SplatData,
    default_opacity: Scalar,
    mode: SplatRenderMode,
    r: RawSplats,
    i: int,
    j: int,
)
    requires
        call_ensures(SplatData::into_splats, (data, default_opacity, mode), r),
        0 <= i < data.means@.len() / 3,
        0 <= j < 3,
    ensures
        r.means@ == data.means@,
        r.mode == mode,
        data.rotations matches Some(v) ==> r.rotations@ == v@,
        data.log_scales matches Some(v) ==> r.log_scales@ == v@,
        data.sh_coeffs matches Some(v) ==> r.sh_coeffs@ == v@,
        data.raw_opacities matches Some(v) ==> r.opacities@ == v@,
        data.rotations is None ==> {
            &&& r.rotations@.len() == 4 * (data.means@.len() / 3)
            &&& r.rotations@[4 * i] == (Scalar { bits: 0x3f80_0000 })
            &&& r.rotations@[4 * i + 1 + j] == (Scalar { bits: 0 })
        },
        data.log_scales is None ==> r.log_scales@.len() == 3 * (data.means@.len() / 3)
            && r.log_scales@[3 * i + j] == (Scalar { bits: 0xc080_0000 }),
        data.sh_coeffs is None ==> r.sh_coeffs@.len() == 3 * (data.means@.len() / 3)
            && r.sh_coeffs@[3 * i + j] == (Scalar { bits: 0x3f00_0000 }),
        data.raw_opacities is None ==> r.opacities@.len() == data.means@.len() / 3
            && r.opacities@[i] == default_opacity,
{
    let n = data.means@.len() / 3;
    let one = Scalar { bits: 0x3f80_0000 };
    let zero = Scalar { bits: 0 };
    let identity = seq![one, zero, zero, zero];
    law_repeated_row_by_index(identity, n, i, 0);
    law_repeated_row_by_index(identity, n, i, 1 + j);
    assert(j == 0 || j == 1 || j == 2);
    let len = identity.len() as int;
    assert(i * len == 4 * i && n * len == 4 * n) by (nonlinear_arith)
        requires
            len == 4,
    ;
    assert(repeated(identity, n)[4 * i] == identity[0]);
    assert(repeated(identity, n)[4 * i + 1 + j] == identity[1 + j]);
}

/// A subsample keeps, for each splat that stays, the values of one and the same
/// source splat in every lane: splat `i` is splat `i * step` of the source,
/// where `step` is the smallest at which the splats fit the budget.
pub proof fn law_subsampled_splat_by_value(
    data: SplatLanes,
    max_splats: nat,
    step: nat,
    i: int,
    j: int,
)
    requires
        0 < max_splats < data.means.len() / 3,
        data.means.len() / 3 <= step * max_splats,
        (step - 1) * max_splats < data.means.len() / 3,
        data.aligned(data.means.len() / 3, data.sh_stride()),
        data.sh_coeffs is Some ==> 0 < data.sh_stride(),
        0 <= i,
        i * step < data.means.len() / 3,
    ensures
        ({
            let left = data.subsampled(max_splats);
            let at = i * step;
            &&& 0 <= j < 3 ==> left.means[i * 3 + j] == data.means[at * 3 + j]
            &&& data.rotations matches Some(v) ==> (0 <= j < 4 ==> left.rotations->0[i * 4 + j]
                == v[at * 4 + j])
            &&& data.log_scales matches Some(v) ==> (0 <= j < 3 ==> left.log_scales->0[i * 3 + j]
                == v[at * 3 + j])
            &&& data.raw_opacities matches Some(v) ==> left.raw_opacities->0[i] == v[at]
            &&& data.evidence matches Some(v) ==> (0 <= j < 7 ==> left.evidence->0[i * 7 + j]
                == v[at * 7 + j])
            &&& data.sh_coeffs matches Some(v) ==> (0 <= j < v.len() / (data.means.len() / 3)
                ==> left.sh_coeffs->0[i * (v.len() / (data.means.len() / 3)) + j] == v[at * (v.len()
                / (data.means.len() / 3)) + j])
        }),
{
    let n = data.means.len() / 3;
    lemma_ceil_div(n, max_splats);
    let least = ceil_div(n, max_splats);
    assert(step == least && 0 < step) by (nonlinear_arith)
        requires
            n <= step * max_splats,
            (step - 1) * max_splats < n,
            n <= least * max_splats,
            (least - 1) * max_splats < n,
            0 < max_splats,
            0 < n,
    ;
    lemma_ceil_div(n, step);
    let count = ceil_div(n, step);
    assert(i < count) by (nonlinear_arith)
        requires
            i * step < n,
            n <= count * step,
            0 < step,
    ;
    assert((n * 3) / 3 == n && (n * 4) / 4 == n && (n * 1) / 1 == n && (n * 7) / 7 == n);
    if 0 <= j < 3 {
        law_picked_row_is_a_source_row(data.means, 3, step, i, j);
        if let Some(v) = data.log_scales {
            law_picked_row_is_a_source_row(v, 3, step, i, j);
        }
    }
    if let Some(v) = data.rotations {
        if 0 <= j < 4 {
            law_picked_row_is_a_source_row(v, 4, step, i, j);
        }
    }
    if let Some(v) = data.raw_opacities {
        law_picked_row_is_a_source_row(v, 1, step, i, 0);
    }
    if let Some(v) = data.evidence {
        if 0 <= j < 7 {
            law_picked_row_is_a_source_row(v, 7, step, i, j);
        }
    }
    if let Some(v) = data.sh_coeffs {
        let stride = v.len() / n;
        if 0 <= j < stride {
            assert(v.len() / stride == n) by (nonlinear_arith)
                requires
                    v.len() == n * stride,
                    0 < stride,
            ;
            law_picked_row_is_a_source_row(v, stride, step, i, j);
        }
    }
}

/// Aligned lanes have as many rows as splats: three values of a position, four
/// of a rotation, three of a scale, one of an opacity and seven of evidence for
/// each.
pub proof fn law_aligned_lanes_by_length(data: SplatLanes, n: nat, sh_stride: nat)
    ensures
        data.aligned(n, sh_stride) <==> {
            &&& data.means.len() == 3 * n
            &&& data.rotations matches Some(v) ==> v.len() == 4 * n
            &&& data.log_scales matches Some(v) ==> v.len() == 3 * n
            &&& data.sh_coeffs matches Some(v) ==> v.len() == n * sh_stride
            &&& data.raw_opacities matches Some(v) ==> v.len() == n
            &&& data.evidence matches Some(v) ==> v.len() == 7 * n
        },
        data.aligned(n, sh_stride) ==> data.num_splats() == n,
{
}

} // verus!
