//! Import of a compressed ply file.
//!
//! Such a file holds three elements: the value ranges of every 256 splats, the
//! quantised splats, and optionally their higher colour coefficients.

use vstd::prelude::*;

use crate::header::{ElementDef, ElementView, Header, ImportError};
use crate::import::{
    append, copy_lane, end_of_pass, lane_row, lanes_start, law_messages_follow_the_rows,
    lemma_appended_row, lemma_prefix_of_sum, lemma_within_channels, message_rows, pass_end, runs_to_its_end,
    ParseMetadata, Pass, PassEnd, SplatMessage, TimedUpdate,
};
use crate::scalar::{Scalar, ONE_BITS};
use crate::splat_data::{
    interleave_coeffs, interleaved, law_coefficients_by_index, SplatData, SplatLanes,
    SplatRenderMode,
};
use crate::text::same;

verus! {

/// Splats that share their value ranges.
pub const CHUNK_SPLATS: usize = 256;

/// Bit pattern of `0.8`, the share of the progress that the splats take where
/// higher colour coefficients follow.
pub const SPLAT_SHARE_BITS: u32 = 0x3f4c_cccd;

/// One splat with its ranges applied.
pub struct QuantRow {
    pub mean: [Scalar; 3],
    pub log_scale: [Scalar; 3],
    /// A quaternion, its scalar part last.
    pub rotation: [Scalar; 4],
    pub raw_opacity: Scalar,
    /// The constant colour coefficients.
    pub dc: [Scalar; 3],
}

/// A rotation with its scalar part first.
pub open spec fn scalar_first(rotation: Seq<Scalar>) -> Seq<Scalar> {
    seq![rotation[3], rotation[0], rotation[1], rotation[2]]
}

/// The lanes without a splat.
pub open spec fn no_splats() -> SplatLanes {
    SplatLanes {
        means: Seq::empty(),
        rotations: Some(Seq::empty()),
        log_scales: Some(Seq::empty()),
        sh_coeffs: Some(Seq::empty()),
        raw_opacities: Some(Seq::empty()),
        evidence: None,
    }
}

/// The lanes with one more splat, where every lane is there.
pub open spec fn with_splat(lanes: SplatLanes, row: QuantRow) -> SplatLanes {
    SplatLanes {
        means: lanes.means + row.mean@,
        rotations: Some(lanes.rotations->0 + scalar_first(row.rotation@)),
        log_scales: Some(lanes.log_scales->0 + row.log_scale@),
        sh_coeffs: Some(lanes.sh_coeffs->0 + row.dc@),
        raw_opacities: Some(lanes.raw_opacities->0 + seq![row.raw_opacity]),
        evidence: None,
    }
}

/// The lanes after all of `rows`.
pub open spec fn after_splats(rows: Seq<QuantRow>, subsample: int) -> SplatLanes
    decreases rows.len(),
{
    if rows.len() == 0 {
        no_splats()
    } else {
        let before = after_splats(rows.drop_last(), subsample);
        if rows.len() as int % subsample == 0 {
            with_splat(before, rows.last())
        } else {
            before
        }
    }
}

/// All colour coefficients of splat `i`: the constant ones in `dc`, and the
/// first `sh_count` of `rest`.
pub open spec fn all_coeffs(dc: Seq<Scalar>, i: int, rest: Seq<Scalar>, sh_count: int) -> Seq<
    Scalar,
> {
    interleaved(dc.subrange(3 * i, 3 * i + 3), rest.take(sh_count))
}

/// The coefficients after all of the coefficient rows `rests`, for splats with
/// the constant coefficients `dc`.
pub open spec fn after_coeffs(
    dc: Seq<Scalar>,
    rests: Seq<Seq<Scalar>>,
    subsample: int,
    sh_count: int,
) -> Seq<Scalar>
    decreases rests.len(),
{
    if rests.len() == 0 {
        Seq::empty()
    } else {
        let before = after_coeffs(dc, rests.drop_last(), subsample, sh_count);
        let seen = rests.len() as int;
        if seen % subsample == 0 {
            before + all_coeffs(dc, seen / subsample - 1, rests.last(), sh_count)
        } else {
            before
        }
    }
}

/// Whether the reader stands at an element of that name.
pub open spec fn stands_at(current: Option<ElementView>, name: Seq<char>) -> bool {
    current matches Some(element) && element.name == name
}

/// The element that the reader stands at.
pub open spec fn element_view(current: Option<ElementDef>) -> Option<ElementView> {
    match current {
        Some(element) => Some(element@),
        None => None,
    }
}

/// The error of a pass that got neither new bytes nor new rows while rows of the
/// element, which has `total`, are missing.
pub open spec fn stalled(made_progress: bool, rows_before: int, rows: int, total: int) -> Result<
    (),
    ImportError,
> {
    if !made_progress && rows == rows_before && rows < total {
        Err(ImportError::UnexpectedEof)
    } else {
        Ok(())
    }
}

/// Whether the reader stands at an element of that name.
pub fn is_at(current: &Option<ElementDef>, name: &str) -> (r: bool)
    ensures
        r == stands_at(element_view(*current), name@),
{
    match current {
        Some(element) => same(element.name.as_str(), name),
        None => false,
    }
}

/// An error where a pass got neither new bytes nor new rows, and rows of the
/// element are missing.
pub fn check_progress(
    made_progress: bool,
    rows_before: usize,
    rows: usize,
    total: usize,
) -> (r: Result<(), ImportError>)
    ensures
        r == stalled(made_progress, rows_before as int, rows as int, total as int),
{
    if !made_progress && rows == rows_before && rows < total {
        Err(ImportError::UnexpectedEof)
    } else {
        Ok(())
    }
}

/// The import of a compressed ply file, from its first splat on.
pub struct CompressedImport {
    /// Every `subsample`th row is kept.
    pub subsample: usize,
    /// Rows that the header declares.
    pub total_splats: usize,
    /// Splats that stay of them.
    pub max_splats: usize,
    /// Higher colour coefficients per splat, where the file has a third element.
    pub sh_count: Option<usize>,
    /// Splat rows seen so far.
    pub row_count: usize,
    /// Coefficient rows seen so far.
    pub sh_rows: usize,
    /// Splats whose coefficients are complete.
    pub splat_index: usize,
    pub means: Vec<Scalar>,
    pub log_scales: Vec<Scalar>,
    pub rotations: Vec<Scalar>,
    pub raw_opacities: Vec<Scalar>,
    /// The constant colour coefficients.
    pub dc: Vec<Scalar>,
    /// All colour coefficients, of the first `splat_index` splats.
    pub coeffs: Vec<Scalar>,
}

/// Colour coefficients per splat with `sh_count` higher ones.
pub open spec fn full_coeffs(sh_count: int) -> nat {
    (3 + 3 * (sh_count / 3)) as nat
}

impl CompressedImport {
    /// The splats with their constant colours.
    pub open spec fn lanes(&self) -> SplatLanes {
        SplatLanes {
            means: self.means@,
            rotations: Some(self.rotations@),
            log_scales: Some(self.log_scales@),
            sh_coeffs: Some(self.dc@),
            raw_opacities: Some(self.raw_opacities@),
            evidence: None,
        }
    }

    /// Splats kept so far.
    pub open spec fn kept(&self) -> nat {
        (self.row_count / self.subsample) as nat
    }

    /// The lanes hold one splat for every `subsample` rows seen.
    pub open spec fn wf(&self) -> bool {
        &&& 0 < self.subsample
        &&& self.max_splats == self.total_splats / self.subsample
        &&& self.lanes().aligned(self.kept(), 3)
        &&& self.splat_index == self.sh_rows / self.subsample
        &&& self.coeffs@.len() == self.splat_index * match self.sh_count {
            Some(n) => full_coeffs(n as int),
            None => 3,
        }
    }

    /// What a step of the import leaves as it is.
    pub open spec fn same_file(&self, other: &CompressedImport) -> bool {
        &&& self.subsample == other.subsample
        &&& self.total_splats == other.total_splats
        &&& self.max_splats == other.max_splats
        &&& self.sh_count == other.sh_count
    }

    /// Whether the next splat row is kept.
    pub open spec fn keeps_next(&self) -> bool {
        (self.row_count + 1) % (self.subsample as int) == 0
    }

    /// Whether the next coefficient row is kept.
    pub open spec fn keeps_next_sh(&self) -> bool {
        (self.sh_rows + 1) % (self.subsample as int) == 0
    }

    /// Whether the next coefficient row, if it is kept, belongs to a splat and
    /// has the coefficients that the header declares.
    pub open spec fn accepts_sh(&self, rest: Seq<Scalar>) -> bool {
        &&& self.sh_count is Some
        &&& self.keeps_next_sh() ==> self.sh_count->0 <= rest.len() && self.splat_index < self.kept()
    }

    /// The import from the splats on, where the reader stands at `current`: an
    /// error where that is not the element of the splats.
    pub fn start(
        current: &Option<ElementDef>,
        header: &Option<Header>,
        subsample: usize,
    ) -> (r: Result<CompressedImport, ImportError>)
        requires
            0 < subsample,
        ensures
            match r {
                Ok(import) => {
                    &&& stands_at(element_view(*current), "vertex"@)
                    &&& header is Some
                    &&& import.wf()
                    &&& import.subsample == subsample
                    &&& import.total_splats == element_view(*current)->0.count
                    &&& import.sh_count == if header->0@.elements.len() > 2 {
                        Some(header->0@.elements[2].properties.len() as usize)
                    } else {
                        None
                    }
                    &&& import.row_count == 0
                    &&& import.sh_rows == 0
                },
                Err(ImportError::UnknownFormat) => !stands_at(element_view(*current), "vertex"@),
                Err(e) => e == ImportError::MissingHeader && stands_at(
                    element_view(*current),
                    "vertex"@,
                ) && header is None,
            },
    {
        let total_splats: usize = match current {
            Some(element) => {
                if !same(element.name.as_str(), "vertex") {
                    return Err(ImportError::UnknownFormat);
                }
                element.count
            },
            None => {
                return Err(ImportError::UnknownFormat);
            },
        };
        let sh_count: Option<usize> = match header {
            Some(header) => if header.elements.len() > 2 {
                assert(header@.elements[2].properties.len()
                    == header.elements@[2].properties@.len());
                Some(header.elements[2].properties.len())
            } else {
                None
            },
            None => {
                return Err(ImportError::MissingHeader);
            },
        };
        assert(0int / (subsample as int) == 0) by (nonlinear_arith)
            requires
                0 < subsample,
        ;
        Ok(
            CompressedImport {
                subsample,
                total_splats,
                max_splats: total_splats / subsample,
                sh_count,
                row_count: 0,
                sh_rows: 0,
                splat_index: 0,
                means: Vec::new(),
                log_scales: Vec::new(),
                rotations: Vec::new(),
                raw_opacities: Vec::new(),
                dc: Vec::new(),
                coeffs: Vec::new(),
            },
        )
    }

    /// The index of the value ranges of the next splat.
    pub fn range_index(&self) -> (r: usize)
        ensures
            r == self.row_count / CHUNK_SPLATS,
    {
        self.row_count / CHUNK_SPLATS
    }

    /// Takes one splat.
    pub fn push_row(&mut self, row: &QuantRow)
        requires
            old(self).wf(),
            old(self).row_count < usize::MAX,
        ensures
            final(self).wf(),
            final(self).same_file(old(self)),
            final(self).row_count == old(self).row_count + 1,
            final(self).sh_rows == old(self).sh_rows,
            final(self).coeffs@ == old(self).coeffs@,
            final(self).lanes() == if old(self).keeps_next() {
                with_splat(old(self).lanes(), *row)
            } else {
                old(self).lanes()
            },
    {
        let ghost step = self.subsample as int;
        let ghost i = self.row_count as int;
        self.row_count = self.row_count + 1;
        if self.row_count % self.subsample != 0 {
            assert((i + 1) / step == i / step) by (nonlinear_arith)
                requires
                    (i + 1) % step != 0,
                    0 < step,
                    0 <= i,
            ;
            return;
        }
        assert((i + 1) / step == i / step + 1) by (nonlinear_arith)
            requires
                (i + 1) % step == 0,
                0 < step,
                0 <= i,
        ;
        append(&mut self.means, &row.mean);
        append(&mut self.log_scales, &row.log_scale);
        let rotation = [row.rotation[3], row.rotation[0], row.rotation[1], row.rotation[2]];
        assert(rotation@ =~= scalar_first(row.rotation@));
        append(&mut self.rotations, &rotation);
        self.raw_opacities.push(row.raw_opacity);
        append(&mut self.dc, &row.dc);
        assert(self.lanes() =~= with_splat(old(self).lanes(), *row));
    }

    /// How a pass over splats ends that started at row `rows_before`.
    /// `perc_done` is the fraction of the rows that were seen. Both
    /// [`PassEnd::Emit`] and [`PassEnd::Finish`] ask for a message.
    pub fn end_pass(
        &self,
        made_progress: bool,
        rows_before: usize,
        update: &mut TimedUpdate,
        perc_done: Scalar,
        now: u64,
    ) -> (r: Result<PassEnd, ImportError>)
        ensures
            r == pass_end(
                made_progress,
                rows_before as int,
                self.row_count as int,
                self.total_splats as int,
                old(update).due(perc_done, now),
            ),
            final(update).update_every == old(update).update_every,
            final(update).last_update == if r is Ok && old(update).due(perc_done, now) {
                now
            } else {
                old(update).last_update
            },
    {
        end_of_pass(
            made_progress,
            rows_before,
            self.row_count,
            self.total_splats,
            update,
            perc_done,
            now,
        )
    }

    /// The share of the progress that the splats take.
    pub fn splat_share(&self) -> (r: Scalar)
        ensures
            r.bits == if self.sh_count is Some {
                SPLAT_SHARE_BITS
            } else {
                ONE_BITS
            },
    {
        if self.sh_count.is_some() {
            Scalar { bits: SPLAT_SHARE_BITS }
        } else {
            Scalar { bits: ONE_BITS }
        }
    }

    /// The splats read so far, with their constant colours.
    pub fn message(
        &self,
        up_axis: Option<[Scalar; 3]>,
        render_mode: Option<SplatRenderMode>,
        progress: Scalar,
    ) -> (r: SplatMessage)
        requires
            self.wf(),
        ensures
            r.meta == (ParseMetadata {
                up_axis,
                render_mode,
                total_splats: self.max_splats as u32,
                progress,
            }),
            r.data@ == self.lanes(),
            r.data@.aligned(self.kept(), 3),
    {
        SplatMessage {
            meta: ParseMetadata {
                up_axis,
                render_mode,
                total_splats: #[verifier::truncate]
                (self.max_splats as u32),
                progress,
            },
            data: SplatData {
                means: copy_lane(&self.means),
                rotations: Some(copy_lane(&self.rotations)),
                log_scales: Some(copy_lane(&self.log_scales)),
                sh_coeffs: Some(copy_lane(&self.dc)),
                raw_opacities: Some(copy_lane(&self.raw_opacities)),
                evidence: None,
            },
        }
    }

    /// Whether the next coefficient row, if it is kept, belongs to a splat and
    /// has the coefficients that the header declares.
    pub fn can_take_sh(&self, rest: &[Scalar]) -> (r: bool)
        requires
            self.wf(),
            self.sh_rows < usize::MAX,
        ensures
            r == self.accepts_sh(rest@),
    {
        match self.sh_count {
            Some(sh_count) => (self.sh_rows + 1) % self.subsample != 0 || (sh_count <= rest.len()
                && self.splat_index < self.row_count / self.subsample),
            None => false,
        }
    }

    /// Takes the higher colour coefficients of one splat, channel by channel.
    pub fn push_sh(&mut self, rest: &[Scalar])
        requires
            old(self).wf(),
            old(self).sh_rows < usize::MAX,
            old(self).accepts_sh(rest@),
        ensures
            final(self).wf(),
            final(self).same_file(old(self)),
            final(self).row_count == old(self).row_count,
            final(self).lanes() == old(self).lanes(),
            final(self).sh_rows == old(self).sh_rows + 1,
            final(self).coeffs@ == if old(self).keeps_next_sh() {
                old(self).coeffs@ + all_coeffs(
                    old(self).dc@,
                    old(self).splat_index as int,
                    rest@,
                    old(self).sh_count->0 as int,
                )
            } else {
                old(self).coeffs@
            },
    {
        let ghost step = self.subsample as int;
        let ghost r = self.sh_rows as int;
        self.sh_rows = self.sh_rows + 1;
        if self.sh_rows % self.subsample != 0 {
            assert((r + 1) / step == r / step) by (nonlinear_arith)
                requires
                    (r + 1) % step != 0,
                    0 < step,
                    0 <= r,
            ;
            return;
        }
        assert((r + 1) / step == r / step + 1) by (nonlinear_arith)
            requires
                (r + 1) % step == 0,
                0 < step,
                0 <= r,
        ;
        if let Some(sh_count) = self.sh_count {
            let i: usize = self.splat_index;
            let dc_len: usize = self.dc.len();
            assert(3 * i + 3 <= dc_len);
            let dc = [self.dc[i * 3], self.dc[i * 3 + 1], self.dc[i * 3 + 2]];
            assert(dc@ =~= self.dc@.subrange(3 * i, 3 * i + 3));
            let kept = vstd::slice::slice_subrange(rest, 0, sh_count);
            assert(kept@ =~= rest@.take(sh_count as int));
            interleave_coeffs(dc, kept, &mut self.coeffs);
            assert((i + 1) * full_coeffs(sh_count as int) == i * full_coeffs(sh_count as int)
                + full_coeffs(sh_count as int)) by (nonlinear_arith);
            self.splat_index = i + 1;
        }
    }

    /// The splats with all their colour coefficients, or `None` where the file
    /// has only the constant ones, so that the last message was complete.
    pub fn finish(
        self,
        up_axis: Option<[Scalar; 3]>,
        render_mode: Option<SplatRenderMode>,
    ) -> (r: Option<SplatMessage>)
        requires
            self.wf(),
        ensures
            r is Some <==> self.sh_count is Some,
            r matches Some(message) ==> {
                &&& message.meta.up_axis == up_axis
                &&& message.meta.render_mode == render_mode
                &&& message.meta.total_splats == self.kept() as u32
                &&& message.meta.progress.bits == ONE_BITS
                &&& message.data@ == (SplatLanes { sh_coeffs: Some(self.coeffs@), ..self.lanes() })
                &&& self.splat_index == self.kept() ==> message.data@.aligned(
                    self.kept(),
                    full_coeffs(self.sh_count->0 as int),
                )
            },
    {
        if self.sh_count.is_none() {
            return None;
        }
        let total: usize = self.means.len() / 3;
        assert(total == self.kept());
        Some(
            SplatMessage {
                meta: ParseMetadata {
                    up_axis,
                    render_mode,
                    total_splats: #[verifier::truncate]
                    (total as u32),
                    progress: Scalar::one(),
                },
                data: SplatData {
                    means: self.means,
                    rotations: Some(self.rotations),
                    log_scales: Some(self.log_scales),
                    sh_coeffs: Some(self.coeffs),
                    raw_opacities: Some(self.raw_opacities),
                    evidence: None,
                },
            },
        )
    }
}

proof fn lemma_quotient_of_next(n: int, step: int)
    requires
        0 < step,
        0 < n,
    ensures
        n % step == 0 ==> n / step == (n - 1) / step + 1 && n == n / step * step,
        n % step != 0 ==> n / step == (n - 1) / step,
{
    assert(n % step == 0 ==> n / step == (n - 1) / step + 1 && n == n / step * step)
        by (nonlinear_arith)
        requires
            0 < step,
            0 < n,
    ;
    assert(n % step != 0 ==> n / step == (n - 1) / step) by (nonlinear_arith)
        requires
            0 < step,
            0 < n,
    ;
}

proof fn lemma_row_of_splat(n: int, step: int, i: int)
    requires
        0 < step,
        0 <= i < n / step,
        0 <= n,
    ensures
        0 <= (i + 1) * step - 1 < n,
        i < (n - 1) / step ==> (i + 1) * step - 1 < n - 1,
        n % step == 0 && i == (n - 1) / step ==> (i + 1) * step == n,
{
    assert(i < (n - 1) / step ==> (i + 1) * step - 1 < n - 1) by (nonlinear_arith)
        requires
            0 < step,
            0 <= i,
            i + 1 <= n / step,
            0 <= n,
    ;
    assert(n % step == 0 && i == (n - 1) / step ==> (i + 1) * step == n) by (nonlinear_arith)
        requires
            0 < step,
            0 <= i,
            i + 1 <= n / step,
            0 <= n,
    ;
    assert(0 <= (i + 1) * step - 1 < n) by (nonlinear_arith)
        requires
            0 < step,
            0 <= i,
            i + 1 <= n / step,
            0 <= n,
    ;
}

proof fn lemma_splats_align(rows: Seq<QuantRow>, subsample: int)
    requires
        0 < subsample,
    ensures
        after_splats(rows, subsample).aligned((rows.len() as int / subsample) as nat, 3),
        after_splats(rows, subsample).rotations is Some,
        after_splats(rows, subsample).log_scales is Some,
        after_splats(rows, subsample).sh_coeffs is Some,
        after_splats(rows, subsample).raw_opacities is Some,
    decreases rows.len(),
{
    if rows.len() == 0 {
        assert(0int / subsample == 0) by (nonlinear_arith)
            requires
                0 < subsample,
        ;
    } else {
        lemma_splats_align(rows.drop_last(), subsample);
        lemma_quotient_of_next(rows.len() as int, subsample);
    }
}

/// Splats are read one by one: one more row makes of the lanes after `rows` what
/// [`CompressedImport::push_row`] makes of them, and one more coefficient row of
/// the coefficients after `rests` what [`CompressedImport::push_sh`] does.
pub proof fn law_compressed_rows_are_read_one_by_one(
    rows: Seq<QuantRow>,
    row: QuantRow,
    dc: Seq<Scalar>,
    rests: Seq<Seq<Scalar>>,
    rest: Seq<Scalar>,
    subsample: int,
    sh_count: int,
)
    requires
        0 < subsample,
    ensures
        ({
            let seen = rows.len() + 1int;
            after_splats(rows.push(row), subsample) == if seen % subsample == 0 {
                with_splat(after_splats(rows, subsample), row)
            } else {
                after_splats(rows, subsample)
            }
        }),
        ({
            let seen = rests.len() + 1int;
            let before = after_coeffs(dc, rests, subsample, sh_count);
            after_coeffs(dc, rests.push(rest), subsample, sh_count) == if seen % subsample == 0 {
                before + all_coeffs(dc, rests.len() as int / subsample, rest, sh_count)
            } else {
                before
            }
        }),
{
    assert(rows.push(row).drop_last() == rows);
    assert(rests.push(rest).drop_last() == rests);
    lemma_quotient_of_next(rests.len() + 1int, subsample);
}

/// Every `subsample`th splat is kept, whole and in order: splat `i` of an
/// import is row `(i + 1) * subsample - 1` of the splats in every lane.
#[verifier::spinoff_prover]
#[verifier::rlimit(50)]
pub proof fn law_every_nth_splat_is_kept(rows: Seq<QuantRow>, subsample: int, i: int)
    requires
        0 < subsample,
        0 <= i < rows.len() as int / subsample,
    ensures
        ({
            let lanes = after_splats(rows, subsample);
            let k = (i + 1) * subsample - 1;
            &&& 0 <= k < rows.len()
            &&& lanes.aligned((rows.len() as int / subsample) as nat, 3)
            &&& lanes.means.subrange(3 * i, 3 * i + 3) == rows[k].mean@
            &&& lane_row(lanes.rotations, 4, i) == Some(scalar_first(rows[k].rotation@))
            &&& lane_row(lanes.log_scales, 3, i) == Some(rows[k].log_scale@)
            &&& lane_row(lanes.sh_coeffs, 3, i) == Some(rows[k].dc@)
            &&& lane_row(lanes.raw_opacities, 1, i) == Some(seq![rows[k].raw_opacity])
        }),
    decreases rows.len(),
{
    let n = rows.len() as int;
    let k = (i + 1) * subsample - 1;
    let prior = rows.drop_last();
    lemma_row_of_splat(n, subsample, i);
    lemma_splats_align(rows, subsample);
    lemma_splats_align(prior, subsample);
    lemma_quotient_of_next(n, subsample);
    if n % subsample == 0 {
        let count = (n - 1) / subsample;
        let before = after_splats(prior, subsample);
        let row = rows.last();
        lemma_appended_row(before.means, row.mean@, 3, count, i);
        lemma_appended_row(before.rotations->0, scalar_first(row.rotation@), 4, count, i);
        lemma_appended_row(before.log_scales->0, row.log_scale@, 3, count, i);
        lemma_appended_row(before.sh_coeffs->0, row.dc@, 3, count, i);
        lemma_appended_row(before.raw_opacities->0, seq![row.raw_opacity], 1, count, i);
        if i < count {
            law_every_nth_splat_is_kept(prior, subsample, i);
            assert(prior[k] == rows[k]);
        } else {
            assert(k == n - 1);
        }
    } else {
        law_every_nth_splat_is_kept(prior, subsample, i);
        assert(prior[k] == rows[k]);
    }
}

/// The coefficients of a row go to the splat of the same row: block `i` of the
/// coefficients holds the constant colours of splat row
/// `(i + 1) * subsample - 1` and the higher ones of the coefficient row with
/// the same number.
#[verifier::spinoff_prover]
#[verifier::rlimit(50)]
pub proof fn law_coefficients_meet_their_splat(
    rows: Seq<QuantRow>,
    rests: Seq<Seq<Scalar>>,
    subsample: int,
    sh_count: int,
    i: int,
)
    requires
        0 < subsample,
        0 <= sh_count,
        rests.len() <= rows.len(),
        forall|k: int| 0 <= k < rests.len() ==> sh_count <= #[trigger] rests[k].len(),
        0 <= i < rests.len() as int / subsample,
    ensures
        ({
            let dc = after_splats(rows, subsample).sh_coeffs->0;
            let coeffs = after_coeffs(dc, rests, subsample, sh_count);
            let per = full_coeffs(sh_count) as int;
            let k = (i + 1) * subsample - 1;
            &&& 0 <= k < rests.len()
            &&& coeffs.len() == rests.len() as int / subsample * per
            &&& coeffs.subrange(per * i, per * i + per) == interleaved(
                rows[k].dc@,
                rests[k].take(sh_count),
            )
        }),
{
    let n = rests.len() as int;
    lemma_row_of_splat(n, subsample, i);
    let dc = after_splats(rows, subsample).sh_coeffs->0;
    lemma_quotients_grow(n, rows.len() as int, subsample);
    lemma_splats_align(rows, subsample);
    lemma_coeff_blocks(dc, rests, subsample, sh_count, i);
    law_every_nth_splat_is_kept(rows, subsample, i);
}

proof fn lemma_quotients_grow(m: int, n: int, step: int)
    requires
        0 < step,
        0 <= m <= n,
    ensures
        m / step <= n / step,
{
    assert(m / step <= n / step) by (nonlinear_arith)
        requires
            0 < step,
            0 <= m <= n,
    ;
}

proof fn lemma_coeffs_len(
    dc: Seq<Scalar>,
    rests: Seq<Seq<Scalar>>,
    subsample: int,
    sh_count: int,
)
    requires
        0 < subsample,
        0 <= sh_count,
        forall|k: int| 0 <= k < rests.len() ==> sh_count <= #[trigger] rests[k].len(),
        rests.len() as int / subsample * 3 <= dc.len(),
    ensures
        after_coeffs(dc, rests, subsample, sh_count).len() == rests.len() as int / subsample
            * full_coeffs(sh_count),
    decreases rests.len(),
{
    let n = rests.len() as int;
    let per = full_coeffs(sh_count) as int;
    if n == 0 {
        assert(0int / subsample == 0) by (nonlinear_arith)
            requires
                0 < subsample,
        ;
        assert(0 * per == 0) by (nonlinear_arith);
    } else {
        let prior = rests.drop_last();
        assert forall|k: int| 0 <= k < prior.len() implies sh_count <= #[trigger] prior[k].len() by {
            assert(prior[k] == rests[k]);
        }
        lemma_quotients_grow(n - 1, n, subsample);
        lemma_coeffs_len(dc, prior, subsample, sh_count);
        lemma_quotient_of_next(n, subsample);
        let count = (n - 1) / subsample;
        assert((count + 1) * per == count * per + per) by (nonlinear_arith);
        assert(rests.last() == rests[n - 1]);
    }
}

/// Block `i` of the coefficients holds all coefficients of splat `i`.
proof fn lemma_coeff_blocks(
    dc: Seq<Scalar>,
    rests: Seq<Seq<Scalar>>,
    subsample: int,
    sh_count: int,
    i: int,
)
    requires
        0 < subsample,
        0 <= sh_count,
        forall|k: int| 0 <= k < rests.len() ==> sh_count <= #[trigger] rests[k].len(),
        rests.len() as int / subsample * 3 <= dc.len(),
        0 <= i < rests.len() as int / subsample,
    ensures
        ({
            let coeffs = after_coeffs(dc, rests, subsample, sh_count);
            let per = full_coeffs(sh_count) as int;
            &&& coeffs.len() == rests.len() as int / subsample * per
            &&& coeffs.subrange(per * i, per * i + per) == all_coeffs(
                dc,
                i,
                rests[(i + 1) * subsample - 1],
                sh_count,
            )
        }),
    decreases rests.len(),
{
    let n = rests.len() as int;
    let per = full_coeffs(sh_count) as int;
    let k = (i + 1) * subsample - 1;
    lemma_row_of_splat(n, subsample, i);
    let prior = rests.drop_last();
    assert forall|k: int| 0 <= k < prior.len() implies sh_count <= #[trigger] prior[k].len() by {
        assert(prior[k] == rests[k]);
    }
    lemma_quotients_grow(n - 1, n, subsample);
    lemma_quotient_of_next(n, subsample);
    lemma_coeffs_len(dc, rests, subsample, sh_count);
    lemma_coeffs_len(dc, prior, subsample, sh_count);
    if n % subsample == 0 {
        let count = (n - 1) / subsample;
        assert(rests.last() == rests[n - 1]);
        lemma_appended_row(
            after_coeffs(dc, prior, subsample, sh_count),
            all_coeffs(dc, count, rests.last(), sh_count),
            per,
            count,
            i,
        );
        if i < count {
            lemma_coeff_blocks(dc, prior, subsample, sh_count, i);
            assert(prior[k] == rests[k]);
        } else {
            assert(k == n - 1);
        }
    } else {
        lemma_coeff_blocks(dc, prior, subsample, sh_count, i);
        assert(prior[k] == rests[k]);
    }
}

/// No element is called truncated that holds its declared rows, and one that
/// does not is at the end of the file.
pub proof fn law_stall_means_missing_rows(
    made_progress: bool,
    rows_before: int,
    rows: int,
    total: int,
)
    requires
        rows <= total,
    ensures
        stalled(made_progress, rows_before, rows, total) is Err ==> rows != total,
        rows != total ==> stalled(false, rows, rows, total) == Err::<(), ImportError>(
            ImportError::UnexpectedEof,
        ),
{
}

/// What was read after the first `m` splats is, lane by lane, the start of what
/// was read after the first `n`.
pub proof fn law_earlier_splats_are_a_prefix(rows: Seq<QuantRow>, subsample: int, m: int, n: int)
    requires
        0 < subsample,
        0 <= m <= n <= rows.len(),
    ensures
        lanes_start(after_splats(rows.take(m), subsample), after_splats(rows.take(n), subsample)),
    decreases n - m,
{
    let a = after_splats(rows.take(m), subsample);
    lemma_splats_align(rows.take(m), subsample);
    if m < n {
        law_earlier_splats_are_a_prefix(rows, subsample, m, n - 1);
        lemma_splats_align(rows.take(n - 1), subsample);
        assert(rows.take(n).drop_last() =~= rows.take(n - 1));
        if n % subsample == 0 {
            let b = after_splats(rows.take(n - 1), subsample);
            let row = rows.take(n).last();
            lemma_prefix_of_sum(a.means, b.means, row.mean@);
            lemma_prefix_of_sum(a.rotations->0, b.rotations->0, scalar_first(row.rotation@));
            lemma_prefix_of_sum(a.log_scales->0, b.log_scales->0, row.log_scale@);
            lemma_prefix_of_sum(a.sh_coeffs->0, b.sh_coeffs->0, row.dc@);
            lemma_prefix_of_sum(a.raw_opacities->0, b.raw_opacities->0, seq![row.raw_opacity]);
        }
    }
    lemma_no_evidence(rows.take(m), subsample);
    lemma_no_evidence(rows.take(n), subsample);
}

proof fn lemma_no_evidence(rows: Seq<QuantRow>, subsample: int)
    ensures
        after_splats(rows, subsample).evidence is None,
    decreases rows.len(),
{
    if rows.len() > 0 {
        lemma_no_evidence(rows.drop_last(), subsample);
    }
}

/// Every message with splats is, lane by lane, the start of every later one, and
/// the last of them has all splats, whatever updates are due on the way.
pub proof fn law_compressed_messages_are_prefixes(
    rows: Seq<QuantRow>,
    subsample: int,
    passes: Seq<Pass>,
    i: int,
    j: int,
)
    requires
        0 < subsample,
        runs_to_its_end(passes, rows.len() as int),
        0 <= i <= j < message_rows(passes, rows.len() as int).len(),
    ensures
        ({
            let at = message_rows(passes, rows.len() as int);
            &&& lanes_start(
                after_splats(rows.take(at[i]), subsample),
                after_splats(rows.take(at[j]), subsample),
            )
            &&& after_splats(rows.take(at.last()), subsample) == after_splats(rows, subsample)
        }),
{
    let at = message_rows(passes, rows.len() as int);
    law_messages_follow_the_rows(passes, rows.len() as int);
    assert(0 <= at[i] <= at[j] <= rows.len());
    law_earlier_splats_are_a_prefix(rows, subsample, at[i], at[j]);
    assert(rows.take(rows.len() as int) =~= rows);
}

/// A splat that is taken adds its own values at the end of every lane: its
/// rotation with the scalar part moved to the front, and the others in their
/// order. What was there stays, and there is no evidence.
pub proof fn law_splat_is_appended_value_by_value(lanes: SplatLanes, row: QuantRow, j: int)
    requires
        lanes.rotations is Some,
        lanes.log_scales is Some,
        lanes.sh_coeffs is Some,
        lanes.raw_opacities is Some,
        0 <= j < 3,
    ensures
        ({
            let after = with_splat(lanes, row);
            &&& after.means.len() == lanes.means.len() + 3
            &&& lanes.means.is_prefix_of(after.means)
            &&& after.means[lanes.means.len() + j] == row.mean@[j]
            &&& after.evidence is None
            &&& after.rotations matches Some(w) && {
                let v = lanes.rotations->0;
                &&& w.len() == v.len() + 4
                &&& v.is_prefix_of(w)
                &&& w[v.len() as int] == row.rotation@[3]
                &&& w[v.len() + 1 + j] == row.rotation@[j]
            }
            &&& after.log_scales matches Some(w) && {
                let v = lanes.log_scales->0;
                &&& w.len() == v.len() + 3
                &&& v.is_prefix_of(w)
                &&& w[v.len() + j] == row.log_scale@[j]
            }
            &&& after.sh_coeffs matches Some(w) && {
                let v = lanes.sh_coeffs->0;
                &&& w.len() == v.len() + 3
                &&& v.is_prefix_of(w)
                &&& w[v.len() + j] == row.dc@[j]
            }
            &&& after.raw_opacities matches Some(w) && {
                let v = lanes.raw_opacities->0;
                &&& w.len() == v.len() + 1
                &&& v.is_prefix_of(w)
                &&& w[v.len() as int] == row.raw_opacity
            }
        }),
{
    lemma_prefix_of_sum(lanes.means, lanes.means, row.mean@);
    let rotation = scalar_first(row.rotation@);
    lemma_prefix_of_sum(lanes.rotations->0, lanes.rotations->0, rotation);
    lemma_prefix_of_sum(lanes.log_scales->0, lanes.log_scales->0, row.log_scale@);
    lemma_prefix_of_sum(lanes.sh_coeffs->0, lanes.sh_coeffs->0, row.dc@);
    lemma_prefix_of_sum(lanes.raw_opacities->0, lanes.raw_opacities->0, seq![row.raw_opacity]);
    assert(j == 0 || j == 1 || j == 2);
    assert(rotation[0] == row.rotation@[3] && rotation[1 + j] == row.rotation@[j]);
}

/// Moving the scalar part of a rotation to the front moves the others back by
/// one and changes none.
pub proof fn law_scalar_part_comes_first(rotation: Seq<Scalar>, j: int)
    requires
        rotation.len() == 4,
        0 <= j < 3,
    ensures
        scalar_first(rotation).len() == 4,
        scalar_first(rotation)[0] == rotation[3],
        scalar_first(rotation)[1 + j] == rotation[j],
{
    assert(j == 0 || j == 1 || j == 2);
}

/// Splat `i` of an import holds, value by value, what row `(i + 1) * subsample
/// - 1` of the splats holds, its rotation with the scalar part first.
pub proof fn law_compressed_splat_by_value(rows: Seq<QuantRow>, subsample: int, i: int, j: int)
    requires
        0 < subsample,
        0 <= i < rows.len() as int / subsample,
        0 <= j < 3,
    ensures
        ({
            let lanes = after_splats(rows, subsample);
            let row = rows[(i + 1) * subsample - 1];
            &&& 0 <= (i + 1) * subsample - 1 < rows.len()
            &&& lanes.means.len() == 3 * (rows.len() as int / subsample)
            &&& lanes.means[3 * i + j] == row.mean@[j]
            &&& lanes.rotations matches Some(v) && v[4 * i] == row.rotation@[3] && v[4 * i + 1 + j]
                == row.rotation@[j]
            &&& lanes.log_scales matches Some(v) && v[3 * i + j] == row.log_scale@[j]
            &&& lanes.sh_coeffs matches Some(v) && v[3 * i + j] == row.dc@[j]
            &&& lanes.raw_opacities matches Some(v) && v[i] == row.raw_opacity
            &&& lanes.evidence is None
        }),
{
    law_every_nth_splat_is_kept(rows, subsample, i);
    lemma_splats_align(rows, subsample);
    lemma_no_evidence(rows, subsample);
    let lanes = after_splats(rows, subsample);
    let row = rows[(i + 1) * subsample - 1];
    law_scalar_part_comes_first(row.rotation@, j);
    assert(lanes.means.subrange(3 * i, 3 * i + 3)[j] == lanes.means[3 * i + j]);
    let rotation = lanes.rotations->0.subrange(4 * i, 4 * i + 4);
    assert(rotation[0] == lanes.rotations->0[4 * i]);
    assert(rotation[1 + j] == lanes.rotations->0[4 * i + 1 + j]);
    assert(lanes.log_scales->0.subrange(3 * i, 3 * i + 3)[j] == lanes.log_scales->0[3 * i + j]);
    assert(lanes.sh_coeffs->0.subrange(3 * i, 3 * i + 3)[j] == lanes.sh_coeffs->0[3 * i + j]);
    assert(lanes.raw_opacities->0.subrange(1 * i, 1 * i + 1)[0] == lanes.raw_opacities->0[i]);
}

/// Block `i` of the coefficients starts with the constant colours of splat row
/// `(i + 1) * subsample - 1`; coefficient `m` of channel `j` of the coefficient
/// row with the same number comes three values later for each `m`.
pub proof fn law_compressed_coefficients_by_value(
    rows: Seq<QuantRow>,
    rests: Seq<Seq<Scalar>>,
    subsample: int,
    sh_count: int,
    i: int,
    m: int,
    j: int,
)
    requires
        0 < subsample,
        0 <= sh_count,
        rests.len() <= rows.len(),
        forall|k: int| 0 <= k < rests.len() ==> sh_count <= #[trigger] rests[k].len(),
        0 <= i < rests.len() as int / subsample,
        0 <= j < 3,
    ensures
        ({
            let dc = after_splats(rows, subsample).sh_coeffs->0;
            let coeffs = after_coeffs(dc, rests, subsample, sh_count);
            let per = 3 + 3 * (sh_count / 3);
            let k = (i + 1) * subsample - 1;
            &&& coeffs.len() == rests.len() as int / subsample * per
            &&& coeffs[per * i + j] == rows[k].dc@[j]
            &&& 0 <= m < sh_count / 3 ==> coeffs[per * i + 3 + 3 * m + j] == rests[k][j * (sh_count
                / 3) + m]
        }),
{
    law_coefficients_meet_their_splat(rows, rests, subsample, sh_count, i);
    let dc = after_splats(rows, subsample).sh_coeffs->0;
    let coeffs = after_coeffs(dc, rests, subsample, sh_count);
    let per = 3 + 3 * (sh_count / 3);
    let k = (i + 1) * subsample - 1;
    let rest = rests[k].take(sh_count);
    let block = coeffs.subrange(per * i, per * i + per);
    let count = rests.len() as int / subsample;
    assert(0 <= per * i && per * i + per <= count * per) by (nonlinear_arith)
        requires
            0 <= i < count,
            0 < per,
    ;
    law_coefficients_by_index(rows[k].dc@, rest, m, j);
    assert(block[j] == coeffs[per * i + j]);
    if 0 <= m < sh_count / 3 {
        assert(block[3 + 3 * m + j] == coeffs[per * i + 3 + 3 * m + j]);
        lemma_within_channels(sh_count, j, m);
        assert(rest[j * (sh_count / 3) + m] == rests[k][j * (sh_count / 3) + m]);
    }
}

/// One coefficient row that is kept adds the constant colours of its splat and
/// then its own coefficients, coefficient by coefficient.
pub proof fn law_coefficient_row_by_index(
    dc: Seq<Scalar>,
    i: int,
    rest: Seq<Scalar>,
    sh_count: int,
    m: int,
    j: int,
)
    requires
        0 <= i,
        3 * i + 3 <= dc.len(),
        0 <= sh_count <= rest.len(),
        0 <= j < 3,
    ensures
        all_coeffs(dc, i, rest, sh_count).len() == 3 + 3 * (sh_count / 3),
        all_coeffs(dc, i, rest, sh_count)[j] == dc[3 * i + j],
        0 <= m < sh_count / 3 ==> all_coeffs(dc, i, rest, sh_count)[3 + 3 * m + j] == rest[j * (
        sh_count / 3) + m],
        full_coeffs(sh_count) == 3 + 3 * (sh_count / 3),
{
    let base = dc.subrange(3 * i, 3 * i + 3);
    let kept = rest.take(sh_count);
    law_coefficients_by_index(base, kept, m, j);
    assert(base[j] == dc[3 * i + j]);
    if 0 <= m < sh_count / 3 {
        lemma_within_channels(sh_count, j, m);
        assert(kept[j * (sh_count / 3) + m] == rest[j * (sh_count / 3) + m]);
    }
}

/// A compressed file starts with every lane there and empty, but no evidence.
pub proof fn law_compressed_import_starts_empty(subsample: int)
    ensures
        after_splats(Seq::empty(), subsample).means.len() == 0,
        after_splats(Seq::empty(), subsample).rotations matches Some(v) && v.len() == 0,
        after_splats(Seq::empty(), subsample).log_scales matches Some(v) && v.len() == 0,
        after_splats(Seq::empty(), subsample).sh_coeffs matches Some(v) && v.len() == 0,
        after_splats(Seq::empty(), subsample).raw_opacities matches Some(v) && v.len() == 0,
        after_splats(Seq::empty(), subsample).evidence is None,
{
}

/// The reader stands at an element of a name where there is an element and it
/// has that very name.
pub proof fn law_reader_stands_at_its_element(current: Option<ElementDef>, name: Seq<char>)
    ensures
        current is None ==> !stands_at(element_view(current), name),
        current matches Some(element) ==> (stands_at(element_view(current), name) <==> element.name@
            == name),
        current matches Some(element) ==> element_view(current)->0.count == element.count,
{
}

/// A pass over an element is an error exactly where it got neither bytes nor
/// rows and rows are missing.
pub proof fn law_stall_by_case(made_progress: bool, rows_before: int, rows: int, total: int)
    ensures
        stalled(made_progress, rows_before, rows, total) is Err <==> !made_progress && rows
            == rows_before && rows < total,
        stalled(made_progress, rows_before, rows, total) matches Err(e) ==> e
            == ImportError::UnexpectedEof,
{
}

/// The next splat or coefficient row is kept exactly where it completes a group
/// of `subsample` rows; a coefficient row that is kept must belong to a splat
/// and hold what the header declares, and there must be such an element.
pub proof fn law_next_row_of_a_compressed_import(import: CompressedImport, rest: Seq<Scalar>)
    requires
        import.wf(),
    ensures
        import.keeps_next() <==> (import.row_count + 1) % (import.subsample as int) == 0,
        import.keeps_next_sh() <==> (import.sh_rows + 1) % (import.subsample as int) == 0,
        import.kept() == import.row_count as int / import.subsample as int,
        import.means@.len() == 3 * (import.row_count as int / import.subsample as int),
        import.splat_index as int == import.sh_rows as int / import.subsample as int,
        import.max_splats as int == import.total_splats as int / import.subsample as int,
        import.sh_count is None ==> !import.accepts_sh(rest),
        import.sh_count is Some && (import.sh_rows + 1) % (import.subsample as int) != 0
            ==> import.accepts_sh(rest),
        import.sh_count is Some && (import.sh_rows + 1) % (import.subsample as int) == 0 ==> (
        import.accepts_sh(rest) <==> import.sh_count->0 <= rest.len() && import.splat_index
            < import.row_count as int / import.subsample as int),
        import.lanes().means == import.means@,
        import.lanes().rotations == Some(import.rotations@),
        import.lanes().log_scales == Some(import.log_scales@),
        import.lanes().sh_coeffs == Some(import.dc@),
        import.lanes().raw_opacities == Some(import.raw_opacities@),
        import.lanes().evidence is None,
        CHUNK_SPLATS == 256,
        SPLAT_SHARE_BITS == 0x3f4c_cccd,
{
}

/// A step of an import leaves what the file declares.
pub proof fn law_steps_keep_what_the_file_declares(a: CompressedImport, b: CompressedImport)
    ensures
        a.same_file(&b) <==> a.subsample == b.subsample && a.total_splats == b.total_splats
            && a.max_splats == b.max_splats && a.sh_count == b.sh_count,
{
}

/// A compressed file without coefficients is complete with its last message of
/// splats; with them, the closing message has the same splats, all of the
/// coefficients in the place of the constant colours, and full progress.
pub proof fn law_closing_message_adds_the_coefficients(
    import: CompressedImport,
    up_axis: Option<[Scalar; 3]>,
    render_mode: Option<SplatRenderMode>,
    progress: Scalar,
    message: SplatMessage,
    closing: Option<SplatMessage>,
)
    requires
        call_ensures(CompressedImport::message, (&import, up_axis, render_mode, progress), message),
        call_ensures(CompressedImport::finish, (import, up_axis, render_mode), closing),
    ensures
        closing is Some <==> import.sh_count is Some,
        message.data@.means == import.means@,
        message.data@.rotations == Some(import.rotations@),
        message.data@.log_scales == Some(import.log_scales@),
        message.data@.raw_opacities == Some(import.raw_opacities@),
        message.data@.sh_coeffs == Some(import.dc@),
        message.data@.evidence is None,
        message.meta.progress == progress,
        message.meta.up_axis == up_axis,
        message.meta.render_mode == render_mode,
        closing matches Some(last) ==> {
            &&& last.data@.means == message.data@.means
            &&& last.data@.rotations == message.data@.rotations
            &&& last.data@.log_scales == message.data@.log_scales
            &&& last.data@.raw_opacities == message.data@.raw_opacities
            &&& last.data@.evidence is None
            &&& last.data@.sh_coeffs == Some(import.coeffs@)
            &&& last.meta.progress.bits == 0x3f80_0000
            &&& last.meta.up_axis == up_axis
            &&& last.meta.render_mode == render_mode
        },
{
}

/// Every 256 splats share their ranges, and the splats take four fifths of the
/// progress where coefficients follow and all of it where none do.
pub proof fn law_ranges_and_shares(import: CompressedImport, range: usize, share: Scalar)
    requires
        call_ensures(CompressedImport::range_index, (&import,), range),
        call_ensures(CompressedImport::splat_share, (&import,), share),
    ensures
        range * 256 <= import.row_count < (range + 1) * 256,
        import.sh_count is Some ==> share.bits == 0x3f4c_cccd,
        import.sh_count is None ==> share.bits == 0x3f80_0000,
{
}

/// A compressed import starts where the reader stands at the vertices of a file
/// with a header, and nowhere else. It has coefficients exactly where there is a
/// third element, as many as that has properties.
pub proof fn law_compressed_import_starts_at_its_vertices(
    current: Option<ElementDef>,
    header: Option<Header>,
    subsample: usize,
    r: Result<CompressedImport, ImportError>,
)
    requires
        0 < subsample,
        call_ensures(CompressedImport::start, (&current, &header, subsample), r),
    ensures
        r is Ok <==> (current matches Some(e) && e.name@ == "vertex"@) && header is Some,
        !(current matches Some(e) && e.name@ == "vertex"@) ==> r == Err::<
            CompressedImport,
            ImportError,
        >(ImportError::UnknownFormat),
        (current matches Some(e) && e.name@ == "vertex"@) && header is None ==> r == Err::<
            CompressedImport,
            ImportError,
        >(ImportError::MissingHeader),
        r matches Ok(import) ==> {
            &&& import.subsample == subsample
            &&& import.total_splats == current->0.count
            &&& import.row_count == 0
            &&& import.sh_rows == 0
            &&& import.means@.len() == 0
            &&& import.sh_count is Some <==> header->0.elements@.len() > 2
            &&& import.sh_count matches Some(n) ==> n
                == header->0.elements@[2].properties@.len() as usize
        },
{
    law_reader_stands_at_its_element(current, "vertex"@);
    if let Ok(import) = r {
        assert(0int / (subsample as int) == 0) by (nonlinear_arith)
            requires
                0 < subsample,
        ;
        let elements = header->0.elements@;
        if elements.len() > 2 {
            assert(header->0@.elements[2] == elements[2]@);
        }
    }
}

} // verus!
