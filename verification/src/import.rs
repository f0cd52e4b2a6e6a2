//! Import of a plain ply file, row by row and pass by pass.
//!
//! A pass tops up the read buffer and then hands over every whole row in it.

use vstd::prelude::*;

use crate::evidence::{evidence_field, field_name, flat, EvidenceRow};
use crate::header::{ElementDef, ElementView, ImportError};
use crate::scalar::{Scalar, ZERO_BITS};
use crate::splat_data::{
    interleave_coeffs, interleaved, lane, law_coefficients_by_index, SplatData, SplatLanes,
    SplatRenderMode,
};
use crate::text::{same, strip_prefix};

verus! {

/// Bit pattern of `0.95`: no update is worth it from this fraction on.
pub const ALMOST_DONE_BITS: u32 = 0x3f73_3333;

/// Nanoseconds between the updates of a streamed import.
pub const STREAM_EVERY: u64 = 1_500_000_000;

/// Bytes by which a pass tops up the read buffer.
pub const READ_AHEAD: usize = 0x80_0000;

/// Tops up a read buffer until it is full or its file ends.
#[derive(Clone, Copy, Debug, PartialEq, Eq)]
pub struct TopUp {
    /// Length at which the buffer is full.
    pub target: usize,
    /// Bytes that came so far.
    pub new_bytes: usize,
}

impl TopUp {
    /// Before the first read into a buffer that is full at `target` bytes.
    pub fn new(target: usize) -> (r: TopUp)
        ensures
            r == (TopUp { target, new_bytes: 0 }),
    {
        TopUp { target, new_bytes: 0 }
    }

    /// Whether a buffer of that length is not full.
    pub fn wants(&self, buf_len: usize) -> (r: bool)
        ensures
            r == (buf_len < self.target),
    {
        buf_len < self.target
    }

    /// Takes note of a read of `bytes_read` bytes, after which the buffer holds
    /// `buf_len`; tells whether to read on. A read without bytes is the end of
    /// the file.
    pub fn took(&mut self, buf_len: usize, bytes_read: usize) -> (more: bool)
        requires
            old(self).new_bytes + bytes_read <= usize::MAX,
        ensures
            final(self).target == old(self).target,
            final(self).new_bytes == old(self).new_bytes + bytes_read,
            more == (bytes_read > 0 && buf_len < old(self).target),
    {
        self.new_bytes = self.new_bytes + bytes_read;
        bytes_read > 0 && buf_len < self.target
    }

    /// Whether any bytes came.
    pub fn made_progress(&self) -> (r: bool)
        ensures
            r == (self.new_bytes > 0),
    {
        self.new_bytes > 0
    }
}

/// What is known of an import while it runs and when it ends.
#[derive(Clone, Copy, Debug, PartialEq, Eq)]
pub struct ParseMetadata {
    pub up_axis: Option<[Scalar; 3]>,
    pub render_mode: Option<SplatRenderMode>,
    pub total_splats: u32,
    pub progress: Scalar,
}

/// The splats read so far.
pub struct SplatMessage {
    pub meta: ParseMetadata,
    pub data: SplatData,
}

/// Decides when a running import is worth an update. Times are in nanoseconds
/// from any fixed start.
#[derive(Clone, Copy, Debug, PartialEq, Eq)]
pub struct TimedUpdate {
    pub last_update: u64,
    pub update_every: Option<u64>,
}

impl TimedUpdate {
    /// Whether an update is due: the import is not almost done, and the
    /// interval has passed since the last update.
    pub open spec fn due(self, perc_done: Scalar, now: u64) -> bool {
        &&& !(Scalar { bits: ALMOST_DONE_BITS }).at_most(perc_done)
        &&& match self.update_every {
            Some(every) => now - self.last_update >= every || every == 0,
            None => false,
        }
    }

    /// Counts from `now` on; never due where there is no interval.
    pub fn new(update_every: Option<u64>, now: u64) -> (r: TimedUpdate)
        ensures
            r.last_update == now,
            r.update_every == update_every,
    {
        TimedUpdate { last_update: now, update_every }
    }

    /// The updates of an import: one every [`STREAM_EVERY`] where it is
    /// streamed, else none.
    pub fn for_import(streaming: bool, now: u64) -> (r: TimedUpdate)
        ensures
            r.last_update == now,
            r.update_every == if streaming {
                Some(STREAM_EVERY)
            } else {
                None
            },
    {
        TimedUpdate::new(
            if streaming {
                Some(STREAM_EVERY)
            } else {
                None
            },
            now,
        )
    }

    /// Whether an update is due; if so, the next interval starts now.
    pub fn should_update(&mut self, perc_done: Scalar, now: u64) -> (r: bool)
        ensures
            r == old(self).due(perc_done, now),
            final(self).update_every == old(self).update_every,
            final(self).last_update == if r {
                now
            } else {
                old(self).last_update
            },
    {
        if (Scalar { bits: ALMOST_DONE_BITS }).is_at_most(perc_done) {
            return false;
        }
        if let Some(every) = self.update_every {
            let elapsed: u64 = if now > self.last_update {
                now - self.last_update
            } else {
                0
            };
            if elapsed >= every {
                self.last_update = now;
                return true;
            }
        }
        false
    }
}

/// One row of a plain ply file. A value that the file does not have stands at
/// its default.
pub struct GaussRow {
    pub position: [Scalar; 3],
    pub red: Option<Scalar>,
    pub green: Option<Scalar>,
    pub blue: Option<Scalar>,
    /// The constant colour coefficients.
    pub dc: [Scalar; 3],
    /// The other colour coefficients, channel by channel.
    pub rest: Vec<Scalar>,
    pub scale: [Scalar; 3],
    pub rotation: [Scalar; 4],
    pub opacity: Scalar,
    pub evidence: [Option<Scalar>; 7],
}

/// Whether a property holds part of a splat's colour.
pub open spec fn colour_property(name: Seq<char>) -> bool {
    ||| "f_rest_"@.is_prefix_of(name)
    ||| "f_dc_"@.is_prefix_of(name)
    ||| name == "r"@
    ||| name == "g"@
    ||| name == "b"@
    ||| name == "red"@
    ||| name == "green"@
    ||| name == "blue"@
}

/// How many of the properties hold part of a splat's colour.
pub open spec fn colour_count(properties: Seq<Seq<char>>) -> nat
    decreases properties.len(),
{
    if properties.len() == 0 {
        0
    } else {
        colour_count(properties.drop_last()) + if colour_property(properties.last()) {
            1nat
        } else {
            0nat
        }
    }
}

/// An empty lane, or none.
pub open spec fn empty_lane(wanted: bool) -> Option<Seq<Scalar>> {
    if wanted {
        Some(Seq::empty())
    } else {
        None
    }
}

/// Whether the vertices carry evidence: any property of an evidence row.
pub open spec fn carries_evidence(properties: Seq<Seq<char>>) -> bool {
    exists|k: int| 0 <= k < 7 && #[trigger] properties.contains(field_name(k))
}

/// The lanes of an import of `vertex` before its first row: positions always,
/// rotations, scales and opacities where the vertices have the first property
/// of the lane, colours and evidence where they have any.
pub open spec fn lanes_of(vertex: ElementView) -> SplatLanes {
    SplatLanes {
        means: Seq::empty(),
        rotations: empty_lane(vertex.properties.contains("rot_0"@)),
        log_scales: empty_lane(vertex.properties.contains("scale_0"@)),
        sh_coeffs: empty_lane(colour_count(vertex.properties) > 0),
        raw_opacities: empty_lane(vertex.properties.contains("opacity"@)),
        evidence: empty_lane(carries_evidence(vertex.properties)),
    }
}

/// A lane with `values` appended, if there is one.
pub open spec fn grown(v: Option<Seq<Scalar>>, values: Seq<Scalar>) -> Option<Seq<Scalar>> {
    match v {
        Some(s) => Some(s + values),
        None => None,
    }
}

/// The values, with zero for those that are missing.
pub open spec fn filled(values: Seq<Option<Scalar>>) -> Seq<Scalar> {
    Seq::new(
        values.len(),
        |i: int|
            match values[i] {
                Some(x) => x,
                None => Scalar { bits: ZERO_BITS },
            },
    )
}

/// The constant colour coefficients of a row: those of its red, green and blue,
/// which `rgb_dc` holds, where it has all three.
pub open spec fn base_colour(row: GaussRow, rgb_dc: [Scalar; 3]) -> Seq<Scalar> {
    if row.red is Some && row.green is Some && row.blue is Some {
        rgb_dc@
    } else {
        row.dc@
    }
}

/// The lanes with one more splat.
pub open spec fn with_row(
    lanes: SplatLanes,
    row: GaussRow,
    rgb_dc: [Scalar; 3],
    sh_count: int,
) -> SplatLanes {
    SplatLanes {
        means: lanes.means + row.position@,
        rotations: grown(lanes.rotations, row.rotation@),
        log_scales: grown(lanes.log_scales, row.scale@),
        sh_coeffs: grown(
            lanes.sh_coeffs,
            interleaved(base_colour(row, rgb_dc), row.rest@.take(sh_count - 3)),
        ),
        raw_opacities: grown(lanes.raw_opacities, seq![row.opacity]),
        evidence: grown(lanes.evidence, filled(row.evidence@)),
    }
}

/// Colour coefficients per splat where `sh_count` properties hold colours.
pub open spec fn coeffs_per_splat(sh_count: int) -> nat {
    (3 + 3 * ((sh_count - 3) / 3)) as nat
}

/// How a pass ends.
#[derive(Clone, Copy, Debug, PartialEq, Eq, Structural)]
pub enum PassEnd {
    /// Read on.
    Continue,
    /// Hand out what was read so far, then read on.
    Emit,
    /// All rows are there.
    Finish,
}

/// How a pass ends that started at row `rows_before`, of `total` rows:
/// `made_progress` tells whether it got any new bytes, `due` whether an update
/// is due. A pass that got neither bytes nor rows is the end of the file, which
/// is an error while rows are missing.
pub open spec fn pass_end(
    made_progress: bool,
    rows_before: int,
    rows: int,
    total: int,
    due: bool,
) -> Result<PassEnd, ImportError> {
    if rows == total {
        Ok(PassEnd::Finish)
    } else if !made_progress && rows == rows_before {
        Err(ImportError::UnexpectedEof)
    } else if due {
        Ok(PassEnd::Emit)
    } else {
        Ok(PassEnd::Continue)
    }
}

/// How a pass ends that went from row `rows_before` to row `rows`, of `total`
/// rows; see [`pass_end`]. Unless it ends in an error, an update that is due is
/// taken.
pub(crate) fn end_of_pass(
    made_progress: bool,
    rows_before: usize,
    rows: usize,
    total: usize,
    update: &mut TimedUpdate,
    perc_done: Scalar,
    now: u64,
) -> (r: Result<PassEnd, ImportError>)
    ensures
        r == pass_end(
            made_progress,
            rows_before as int,
            rows as int,
            total as int,
            old(update).due(perc_done, now),
        ),
        final(update).update_every == old(update).update_every,
        final(update).last_update == if r is Ok && old(update).due(perc_done, now) {
            now
        } else {
            old(update).last_update
        },
{
    if rows != total && !made_progress && rows == rows_before {
        return Err(ImportError::UnexpectedEof);
    }
    let due = update.should_update(perc_done, now);
    if rows == total {
        Ok(PassEnd::Finish)
    } else if due {
        Ok(PassEnd::Emit)
    } else {
        Ok(PassEnd::Continue)
    }
}

/// The values of `v`, copied.
pub(crate) fn copy_lane(v: &Vec<Scalar>) -> (r: Vec<Scalar>)
    ensures
        r@ == v@,
{
    let mut r: Vec<Scalar> = Vec::new();
    let mut i: usize = 0;
    while i < v.len()
        invariant
            i <= v@.len(),
            r@ == v@.take(i as int),
        decreases v@.len() - i,
    {
        r.push(v[i]);
        i += 1;
        assert(v@.take(i as int) == v@.take(i - 1).push(v@[i - 1]));
    }
    assert(v@.take(i as int) == v@);
    r
}

fn copy_optional(v: &Option<Vec<Scalar>>) -> (r: Option<Vec<Scalar>>)
    ensures
        lane(r) == lane(*v),
{
    match v {
        Some(v) => Some(copy_lane(v)),
        None => None,
    }
}

/// The splats, copied.
pub fn snapshot(data: &SplatData) -> (r: SplatData)
    ensures
        r@ == data@,
{
    SplatData {
        means: copy_lane(&data.means),
        rotations: copy_optional(&data.rotations),
        log_scales: copy_optional(&data.log_scales),
        sh_coeffs: copy_optional(&data.sh_coeffs),
        raw_opacities: copy_optional(&data.raw_opacities),
        evidence: copy_optional(&data.evidence),
    }
}

fn starts_with(name: &str, prefix: &str) -> (r: bool)
    ensures
        r == prefix@.is_prefix_of(name@),
{
    match strip_prefix(name, prefix) {
        Some(rest) => {
            assert(name@ == prefix@ + rest@);
            assert(prefix@ =~= name@.take(prefix@.len() as int));
            true
        },
        None => false,
    }
}

fn is_colour(name: &str) -> (r: bool)
    ensures
        r == colour_property(name@),
{
    starts_with(name, "f_rest_") || starts_with(name, "f_dc_") || same(name, "r") || same(name, "g")
        || same(name, "b") || same(name, "red") || same(name, "green") || same(name, "blue")
}

impl ElementDef {
    /// Whether the element has a property of that name.
    pub fn has_property(&self, name: &str) -> (r: bool)
        ensures
            r == self@.properties.contains(name@),
    {
        let mut i: usize = 0;
        while i < self.properties.len()
            invariant
                i <= self.properties@.len(),
                forall|k: int| 0 <= k < i ==> #[trigger] self@.properties[k] != name@,
            decreases self.properties@.len() - i,
        {
            assert(self@.properties[i as int] == self.properties@[i as int]@);
            if same(self.properties[i].as_str(), name) {
                return true;
            }
            i += 1;
        }
        false
    }

    /// Whether any property is one of an evidence row.
    pub fn has_evidence(&self) -> (r: bool)
        ensures
            r == carries_evidence(self@.properties),
    {
        let mut k: usize = 0;
        while k < 7
            invariant
                k <= 7,
                forall|j: int| 0 <= j < k ==> !#[trigger] self@.properties.contains(field_name(j)),
            decreases 7 - k,
        {
            if self.has_property(evidence_field(k)) {
                return true;
            }
            k += 1;
        }
        false
    }

    /// How many of the properties hold part of a splat's colour.
    pub fn count_colours(&self) -> (r: usize)
        ensures
            r == colour_count(self@.properties),
            r <= self@.properties.len(),
    {
        let mut r: usize = 0;
        let mut i: usize = 0;
        let ghost props = self@.properties;
        while i < self.properties.len()
            invariant
                props == self@.properties,
                r <= i <= self.properties@.len(),
                r == colour_count(props.take(i as int)),
            decreases self.properties@.len() - i,
        {
            assert(props.take(i + 1).drop_last() == props.take(i as int));
            assert(props[i as int] == self.properties@[i as int]@);
            if is_colour(self.properties[i].as_str()) {
                r += 1;
            }
            i += 1;
        }
        assert(props.take(i as int) == props);
        r
    }
}

fn new_lane(wanted: bool) -> (r: Option<Vec<Scalar>>)
    ensures
        lane(r) == empty_lane(wanted),
{
    if wanted {
        Some(Vec::new())
    } else {
        None
    }
}

pub(crate) fn append(v: &mut Vec<Scalar>, values: &[Scalar])
    ensures
        final(v)@ == old(v)@ + values@,
{
    let mut i: usize = 0;
    while i < values.len()
        invariant
            i <= values@.len(),
            v@ == old(v)@ + values@.take(i as int),
        decreases values@.len() - i,
    {
        v.push(values[i]);
        i += 1;
        assert(values@.take(i as int) == values@.take(i - 1).push(values@[i - 1]));
        assert(v@ == old(v)@ + values@.take(i as int));
    }
    assert(values@.take(i as int) == values@);
}

/// Appends `values` to a lane, if there is one.
fn append_lane(v: &mut Option<Vec<Scalar>>, values: &[Scalar])
    ensures
        lane(*final(v)) == grown(lane(*old(v)), values@),
{
    match v {
        Some(v) => append(v, values),
        None => {},
    }
}

fn fill(values: &[Option<Scalar>; 7]) -> (r: [Scalar; 7])
    ensures
        r@ == filled(values@),
{
    let zero = Scalar::zero();
    let mut r = [zero, zero, zero, zero, zero, zero, zero];
    let mut i: usize = 0;
    while i < 7
        invariant
            i <= 7,
            r@.len() == 7,
            forall|k: int| 0 <= k < i ==> r@[k] == filled(values@)[k],
        decreases 7 - i,
    {
        r[i] = match values[i] {
            Some(x) => x,
            None => Scalar { bits: ZERO_BITS },
        };
        i += 1;
    }
    assert(r@ =~= filled(values@));
    r
}

/// The import of a plain ply file.
pub struct PlyImport {
    /// Every `subsample`th row is kept.
    pub subsample: usize,
    /// Rows that the header declares.
    pub total_splats: usize,
    /// Splats that stay of them.
    pub max_splats: usize,
    /// Properties that hold part of a splat's colour.
    pub sh_count: usize,
    /// Rows seen so far.
    pub row_index: usize,
    pub data: SplatData,
}

impl PlyImport {
    /// The lanes hold one splat for every `subsample` rows seen.
    pub open spec fn wf(&self) -> bool {
        &&& 0 < self.subsample
        &&& self.max_splats == self.total_splats / self.subsample
        &&& self.data@.aligned(
            (self.row_index / self.subsample) as nat,
            coeffs_per_splat(self.sh_count as int),
        )
    }

    /// Whether the next row is kept.
    pub open spec fn keeps_next(&self) -> bool {
        (self.row_index + 1) % (self.subsample as int) == 0
    }

    /// Whether the next row, if it is kept, has the coefficients that the
    /// header declares.
    pub open spec fn accepts(&self, row: GaussRow) -> bool {
        self.keeps_next() && self.data.sh_coeffs is Some ==> 3 <= self.sh_count <= 3
            + row.rest@.len()
    }

    /// The import of `vertex`, before its first row.
    pub fn new(vertex: &ElementDef, subsample: usize) -> (r: PlyImport)
        requires
            0 < subsample,
        ensures
            r.wf(),
            r.subsample == subsample,
            r.total_splats == vertex@.count,
            r.sh_count == colour_count(vertex@.properties),
            r.row_index == 0,
            r.data@ == lanes_of(vertex@),
    {
        let total_splats = vertex.count;
        let sh_count = vertex.count_colours();
        let r = PlyImport {
            subsample,
            total_splats,
            max_splats: total_splats / subsample,
            sh_count,
            row_index: 0,
            data: SplatData {
                means: Vec::new(),
                rotations: new_lane(vertex.has_property("rot_0")),
                log_scales: new_lane(vertex.has_property("scale_0")),
                sh_coeffs: new_lane(sh_count > 0),
                raw_opacities: new_lane(vertex.has_property("opacity")),
                evidence: new_lane(vertex.has_evidence()),
            },
        };
        assert(0int / (subsample as int) == 0) by (nonlinear_arith)
            requires
                0 < subsample,
        ;
        assert(0 * coeffs_per_splat(sh_count as int) == 0) by (nonlinear_arith);
        r
    }

    /// Whether the next row, if it is kept, has the coefficients that the
    /// header declares.
    pub fn can_take(&self, row: &GaussRow) -> (r: bool)
        requires
            self.wf(),
            self.row_index < usize::MAX,
        ensures
            r == self.accepts(*row),
    {
        (self.row_index + 1) % self.subsample != 0 || self.data.sh_coeffs.is_none() || (3
            <= self.sh_count && self.sh_count - 3 <= row.rest.len())
    }

    /// Takes one row. `rgb_dc` holds the colour coefficients of its red, green
    /// and blue, if it has them.
    pub fn push_row(&mut self, row: &GaussRow, rgb_dc: [Scalar; 3])
        requires
            old(self).wf(),
            old(self).row_index < usize::MAX,
            old(self).accepts(*row),
        ensures
            final(self).wf(),
            final(self).subsample == old(self).subsample,
            final(self).total_splats == old(self).total_splats,
            final(self).max_splats == old(self).max_splats,
            final(self).sh_count == old(self).sh_count,
            final(self).row_index == old(self).row_index + 1,
            final(self).data@ == if old(self).keeps_next() {
                with_row(old(self).data@, *row, rgb_dc, old(self).sh_count as int)
            } else {
                old(self).data@
            },
            (old(self).row_index + 1) % (old(self).subsample as int) == 0
                && old(self).data@.sh_coeffs is Some ==> {
                let at = old(self).data@.sh_coeffs->0.len() as int;
                let colours = final(self).data@.sh_coeffs->0;
                let coloured = row.red is Some && row.green is Some && row.blue is Some;
                &&& final(self).data@.sh_coeffs is Some
                &&& coloured ==> colours[at] == rgb_dc@[0] && colours[at + 1] == rgb_dc@[1]
                    && colours[at + 2] == rgb_dc@[2]
                &&& !coloured ==> colours[at] == row.dc@[0] && colours[at + 1] == row.dc@[1]
                    && colours[at + 2] == row.dc@[2]
            },
    {
        let ghost n = (self.row_index / self.subsample) as int;
        let ghost step = self.subsample as int;
        let ghost i = self.row_index as int;
        self.row_index = self.row_index + 1;
        if self.row_index % self.subsample != 0 {
            proof {
                assert((i + 1) / step == i / step) by (nonlinear_arith)
                    requires
                        (i + 1) % step != 0,
                        0 < step,
                        0 <= i,
                ;
            }
            return;
        }
        proof {
            assert((i + 1) / step == i / step + 1) by (nonlinear_arith)
                requires
                    (i + 1) % step == 0,
                    0 < step,
                    0 <= i,
            ;
            let per = coeffs_per_splat(self.sh_count as int);
            assert((n + 1) * per == n * per + per) by (nonlinear_arith);
        }
        append(&mut self.data.means, &row.position);
        let dc: [Scalar; 3] = match (row.red, row.green, row.blue) {
            (Some(_), Some(_), Some(_)) => rgb_dc,
            _ => row.dc,
        };
        let sh_count = self.sh_count;
        if let Some(coeffs) = &mut self.data.sh_coeffs {
            let rest = vstd::slice::slice_subrange(row.rest.as_slice(), 0, sh_count - 3);
            assert(rest@ =~= row.rest@.take(sh_count - 3));
            interleave_coeffs(dc, rest, coeffs);
        }
        append_lane(&mut self.data.log_scales, &row.scale);
        append_lane(&mut self.data.rotations, &row.rotation);
        let opacity = [row.opacity];
        assert(opacity@ =~= seq![row.opacity]);
        append_lane(&mut self.data.raw_opacities, &opacity);
        let evidence = fill(&row.evidence);
        append_lane(&mut self.data.evidence, &evidence);
        assert(self.data@ =~= with_row(old(self).data@, *row, rgb_dc, sh_count as int));
    }

    /// How a pass ends that started at row `rows_before`. `perc_done` is the
    /// fraction of the rows that were seen.
    pub fn end_pass(
        &self,
        made_progress: bool,
        rows_before: usize,
        update: &mut TimedUpdate,
        perc_done: Scalar,
        now: u64,
    ) -> (r: Result<PassEnd, ImportError>)
        ensures
            r == pass_end(
                made_progress,
                rows_before as int,
                self.row_index as int,
                self.total_splats as int,
                old(update).due(perc_done, now),
            ),
            final(update).update_every == old(update).update_every,
            final(update).last_update == if r is Ok && old(update).due(perc_done, now) {
                now
            } else {
                old(update).last_update
            },
    {
        end_of_pass(
            made_progress,
            rows_before,
            self.row_index,
            self.total_splats,
            update,
            perc_done,
            now,
        )
    }

    /// What is known of the import at the given progress.
    fn meta(
        &self,
        up_axis: Option<[Scalar; 3]>,
        render_mode: Option<SplatRenderMode>,
        progress: Scalar,
    ) -> (r: ParseMetadata)
        ensures
            r == (ParseMetadata {
                up_axis,
                render_mode,
                total_splats: self.max_splats as u32,
                progress,
            }),
    {
        ParseMetadata {
            up_axis,
            render_mode,
            total_splats: #[verifier::truncate]
            (self.max_splats as u32),
            progress,
        }
    }

    /// What was read so far.
    pub fn message(
        &self,
        up_axis: Option<[Scalar; 3]>,
        render_mode: Option<SplatRenderMode>,
        progress: Scalar,
    ) -> (r: SplatMessage)
        requires
            self.wf(),
        ensures
            r.meta == (ParseMetadata {
                up_axis,
                render_mode,
                total_splats: self.max_splats as u32,
                progress,
            }),
            r.data@ == self.data@,
            r.data@.num_splats() == self.row_index / self.subsample,
    {
        SplatMessage { meta: self.meta(up_axis, render_mode, progress), data: snapshot(&self.data) }
    }

    /// The splats, all of whose rows were seen.
    pub fn finish(
        self,
        up_axis: Option<[Scalar; 3]>,
        render_mode: Option<SplatRenderMode>,
        progress: Scalar,
    ) -> (r: SplatMessage)
        requires
            self.wf(),
            self.row_index == self.total_splats,
        ensures
            r.meta == (ParseMetadata {
                up_axis,
                render_mode,
                total_splats: self.max_splats as u32,
                progress,
            }),
            r.data@ == self.data@,
            r.data@.num_splats() == self.max_splats,
            r.data@.aligned(self.max_splats as nat, coeffs_per_splat(self.sh_count as int)),
    {
        let meta = self.meta(up_axis, render_mode, progress);
        SplatMessage { meta, data: self.data }
    }
}

/// The lanes after all of `rows`, with the colour coefficients of each row's
/// red, green and blue in `rgb_dcs`.
pub open spec fn after_rows(
    start: SplatLanes,
    rows: Seq<GaussRow>,
    rgb_dcs: Seq<[Scalar; 3]>,
    subsample: int,
    sh_count: int,
) -> SplatLanes
    decreases rows.len(),
{
    if rows.len() == 0 {
        start
    } else {
        let before = after_rows(start, rows.drop_last(), rgb_dcs, subsample, sh_count);
        if rows.len() as int % subsample == 0 {
            with_row(before, rows.last(), rgb_dcs[rows.len() - 1], sh_count)
        } else {
            before
        }
    }
}

/// Whether every row has the coefficients of `sh_count` colour properties.
pub open spec fn has_coeffs(rows: Seq<GaussRow>, sh_count: int) -> bool {
    &&& 3 <= sh_count
    &&& forall|k: int| 0 <= k < rows.len() ==> sh_count <= 3 + #[trigger] rows[k].rest@.len()
}

proof fn lemma_prior_rows_have_coeffs(rows: Seq<GaussRow>, sh_count: int)
    requires
        rows.len() > 0,
    ensures
        has_coeffs(rows, sh_count) ==> has_coeffs(rows.drop_last(), sh_count) && sh_count <= 3
            + rows.last().rest@.len(),
{
    let prior = rows.drop_last();
    if has_coeffs(rows, sh_count) {
        assert forall|k: int| 0 <= k < prior.len() implies sh_count <= 3
            + #[trigger] prior[k].rest@.len() by {
            assert(prior[k] == rows[k]);
        }
        assert(rows.last() == rows[rows.len() - 1]);
    }
}

/// Row `i` of a lane with `stride` values per row, if there is a lane.
pub open spec fn lane_row(v: Option<Seq<Scalar>>, stride: int, i: int) -> Option<Seq<Scalar>> {
    match v {
        Some(s) => Some(s.subrange(stride * i, stride * i + stride)),
        None => None,
    }
}

/// The rows of a lane with one more row: the new one, and those before.
pub(crate) proof fn lemma_appended_row(v: Seq<Scalar>, chunk: Seq<Scalar>, stride: int, n: int, i: int)
    requires
        0 < stride,
        v.len() == n * stride,
        chunk.len() == stride,
        0 <= i <= n,
    ensures
        (v + chunk).len() == (n + 1) * stride,
        (v + chunk).subrange(stride * i, stride * i + stride) == if i == n {
            chunk
        } else {
            v.subrange(stride * i, stride * i + stride)
        },
{
    assert((n + 1) * stride == n * stride + stride) by (nonlinear_arith);
    if i == n {
        assert(stride * i == n * stride) by (nonlinear_arith)
            requires
                i == n,
        ;
        assert((v + chunk).subrange(stride * i, stride * i + stride) =~= chunk);
    } else {
        assert(0 <= stride * i && stride * i + stride <= n * stride) by (nonlinear_arith)
            requires
                0 <= i <= n - 1,
                0 < stride,
        ;
        assert((v + chunk).subrange(stride * i, stride * i + stride) =~= v.subrange(
            stride * i,
            stride * i + stride,
        ));
    }
}

proof fn lemma_later_colours_do_not_matter(
    start: SplatLanes,
    rows: Seq<GaussRow>,
    rgb_dcs: Seq<[Scalar; 3]>,
    more: [Scalar; 3],
    subsample: int,
    sh_count: int,
)
    requires
        rows.len() <= rgb_dcs.len(),
    ensures
        after_rows(start, rows, rgb_dcs.push(more), subsample, sh_count) == after_rows(
            start,
            rows,
            rgb_dcs,
            subsample,
            sh_count,
        ),
    decreases rows.len(),
{
    if rows.len() > 0 {
        lemma_later_colours_do_not_matter(
            start,
            rows.drop_last(),
            rgb_dcs,
            more,
            subsample,
            sh_count,
        );
    }
}

/// Rows are read one by one: one more row makes of the lanes after `rows` what
/// [`PlyImport::push_row`] makes of them.
pub proof fn law_rows_are_read_one_by_one(
    start: SplatLanes,
    rows: Seq<GaussRow>,
    rgb_dcs: Seq<[Scalar; 3]>,
    row: GaussRow,
    rgb_dc: [Scalar; 3],
    subsample: int,
    sh_count: int,
)
    requires
        rows.len() == rgb_dcs.len(),
    ensures
        ({
            let before = after_rows(start, rows, rgb_dcs, subsample, sh_count);
            let seen = rows.len() + 1int;
            after_rows(start, rows.push(row), rgb_dcs.push(rgb_dc), subsample, sh_count) == if seen
                % subsample == 0 {
                with_row(before, row, rgb_dc, sh_count)
            } else {
                before
            }
        }),
{
    lemma_later_colours_do_not_matter(start, rows, rgb_dcs, rgb_dc, subsample, sh_count);
    assert(rows.push(row).drop_last() == rows);
}

/// Every `subsample`th row is kept, whole and in order: splat `i` of an import
/// is row `(i + 1) * subsample - 1` of the file in every lane.
#[verifier::spinoff_prover]
#[verifier::rlimit(50)]
pub proof fn law_every_nth_row_is_kept(
    vertex: ElementView,
    rows: Seq<GaussRow>,
    rgb_dcs: Seq<[Scalar; 3]>,
    subsample: int,
    sh_count: int,
    i: int,
)
    requires
        0 < subsample,
        0 <= i < rows.len() as int / subsample,
        lanes_of(vertex).sh_coeffs is Some ==> has_coeffs(rows, sh_count),
    ensures
        ({
            let start = lanes_of(vertex);
            let lanes = after_rows(start, rows, rgb_dcs, subsample, sh_count);
            let k = (i + 1) * subsample - 1;
            let row = rows[k];
            &&& 0 <= k < rows.len()
            &&& lanes.aligned((rows.len() as int / subsample) as nat, coeffs_per_splat(sh_count))
            &&& lanes.means.subrange(3 * i, 3 * i + 3) == row.position@
            &&& lane_row(lanes.rotations, 4, i) == grown(start.rotations, row.rotation@)
            &&& lane_row(lanes.log_scales, 3, i) == grown(start.log_scales, row.scale@)
            &&& lane_row(lanes.sh_coeffs, coeffs_per_splat(sh_count) as int, i) == grown(
                start.sh_coeffs,
                interleaved(base_colour(row, rgb_dcs[k]), row.rest@.take(sh_count - 3)),
            )
            &&& lane_row(lanes.raw_opacities, 1, i) == grown(
                start.raw_opacities,
                seq![row.opacity],
            )
            &&& lane_row(lanes.evidence, 7, i) == grown(start.evidence, filled(row.evidence@))
        }),
    decreases rows.len(),
{
    lemma_rows_align(vertex, rows, rgb_dcs, subsample, sh_count);
    lemma_prior_rows_have_coeffs(rows, sh_count);
    let start = lanes_of(vertex);
    let n = rows.len() as int;
    let prior = rows.drop_last();
    let before = after_rows(start, prior, rgb_dcs, subsample, sh_count);
    let k = (i + 1) * subsample - 1;
    assert(0 <= k < n) by (nonlinear_arith)
        requires
            0 <= i,
            i + 1 <= n / subsample,
            0 < subsample,
            0 <= n,
            k == (i + 1) * subsample - 1,
    ;
    lemma_rows_align(vertex, prior, rgb_dcs, subsample, sh_count);
    if n % subsample == 0 {
        let count = (n - 1) / subsample;
        assert(n / subsample == count + 1 && n == (count + 1) * subsample) by (nonlinear_arith)
            requires
                n % subsample == 0,
                0 < subsample,
                0 < n,
                count == (n - 1) / subsample,
        ;
        let row = rows.last();
        let sh = interleaved(base_colour(row, rgb_dcs[n - 1]), row.rest@.take(sh_count - 3));
        let per = coeffs_per_splat(sh_count) as int;
        assert(count * per == per * count) by (nonlinear_arith);
        lemma_appended_row(before.means, row.position@, 3, count, i);
        if let Some(v) = before.rotations {
            lemma_appended_row(v, row.rotation@, 4, count, i);
        }
        if let Some(v) = before.log_scales {
            lemma_appended_row(v, row.scale@, 3, count, i);
        }
        if let Some(v) = before.sh_coeffs {
            lemma_appended_row(v, sh, per, count, i);
        }
        if let Some(v) = before.raw_opacities {
            lemma_appended_row(v, seq![row.opacity], 1, count, i);
        }
        if let Some(v) = before.evidence {
            lemma_appended_row(v, filled(row.evidence@), 7, count, i);
        }
        if i < count {
            law_every_nth_row_is_kept(vertex, prior, rgb_dcs, subsample, sh_count, i);
            assert(k < n - 1);
            assert(prior[k] == rows[k]);
        } else {
            assert(k == n - 1);
            assert(grown(start.rotations, row.rotation@) is Some ==> grown(
                start.rotations,
                row.rotation@,
            )->0 =~= row.rotation@);
            assert(grown(start.log_scales, row.scale@) is Some ==> grown(
                start.log_scales,
                row.scale@,
            )->0 =~= row.scale@);
            assert(grown(start.sh_coeffs, sh) is Some ==> grown(start.sh_coeffs, sh)->0 =~= sh);
            assert(grown(start.raw_opacities, seq![row.opacity]) is Some ==> grown(
                start.raw_opacities,
                seq![row.opacity],
            )->0 =~= seq![row.opacity]);
            assert(grown(start.evidence, filled(row.evidence@)) is Some ==> grown(
                start.evidence,
                filled(row.evidence@),
            )->0 =~= filled(row.evidence@));
        }
    } else {
        assert((n - 1) / subsample == n / subsample) by (nonlinear_arith)
            requires
                n % subsample != 0,
                0 < subsample,
                0 < n,
        ;
        law_every_nth_row_is_kept(vertex, prior, rgb_dcs, subsample, sh_count, i);
        assert(prior[k] == rows[k]);
    }
}

proof fn lemma_rows_align(
    vertex: ElementView,
    rows: Seq<GaussRow>,
    rgb_dcs: Seq<[Scalar; 3]>,
    subsample: int,
    sh_count: int,
)
    requires
        0 < subsample,
        lanes_of(vertex).sh_coeffs is Some ==> has_coeffs(rows, sh_count),
    ensures
        ({
            let start = lanes_of(vertex);
            let lanes = after_rows(start, rows, rgb_dcs, subsample, sh_count);
            &&& lanes.aligned((rows.len() as int / subsample) as nat, coeffs_per_splat(sh_count))
            &&& lanes.rotations is Some == start.rotations is Some
            &&& lanes.log_scales is Some == start.log_scales is Some
            &&& lanes.sh_coeffs is Some == start.sh_coeffs is Some
            &&& lanes.raw_opacities is Some == start.raw_opacities is Some
            &&& lanes.evidence is Some == start.evidence is Some
        }),
    decreases rows.len(),
{
    let n = rows.len() as int;
    let per = coeffs_per_splat(sh_count) as int;
    if n == 0 {
        assert(0int / subsample == 0) by (nonlinear_arith)
            requires
                0 < subsample,
        ;
        assert(0 * per == 0) by (nonlinear_arith);
    } else {
        let prior = rows.drop_last();
        lemma_prior_rows_have_coeffs(rows, sh_count);
        lemma_rows_align(vertex, prior, rgb_dcs, subsample, sh_count);
        if n % subsample == 0 {
            let count = (n - 1) / subsample;
            assert(n / subsample == count + 1) by (nonlinear_arith)
                requires
                    n % subsample == 0,
                    0 < subsample,
                    0 < n,
                    count == (n - 1) / subsample,
            ;
            assert((count + 1) * per == count * per + per) by (nonlinear_arith);
            assert(rows.last() == rows[n - 1]);
        } else {
            assert((n - 1) / subsample == n / subsample) by (nonlinear_arith)
                requires
                    n % subsample != 0,
                    0 < subsample,
                    0 < n,
            ;
        }
    }
}

/// Evidence that the rows of a file carry comes out as the flat block of its
/// table, so that the table can be read back from it.
pub proof fn law_carried_evidence_is_read_back(
    vertex: ElementView,
    rows: Seq<GaussRow>,
    rgb_dcs: Seq<[Scalar; 3]>,
    sh_count: int,
    table: Seq<EvidenceRow>,
)
    requires
        carries_evidence(vertex.properties),
        rows.len() == table.len(),
        forall|i: int, k: int|
            0 <= i < rows.len() && 0 <= k < 7 ==> #[trigger] rows[i].evidence@[k] == Some(
                table[i].value(k),
            ),
    ensures
        after_rows(lanes_of(vertex), rows, rgb_dcs, 1, sh_count).evidence == Some(flat(table)),
    decreases rows.len(),
{
    if rows.len() == 0 {
        assert(flat(table) =~= Seq::empty());
    } else {
        let prior = rows.drop_last();
        let shorter = table.drop_last();
        let n = prior.len() as int;
        assert forall|i: int, k: int| 0 <= i < prior.len() && 0 <= k < 7 implies
            #[trigger] prior[i].evidence@[k] == Some(shorter[i].value(k)) by {
            assert(rows[i].evidence@[k] == Some(table[i].value(k)));
        }
        law_carried_evidence_is_read_back(vertex, prior, rgb_dcs, sh_count, shorter);
        assert(rows.len() as int % 1 == 0);
        let last = filled(rows.last().evidence@);
        assert forall|k: int| 0 <= k < 7 implies #[trigger] last[k] == table[n].value(k) by {
            assert(rows[n].evidence@[k] == Some(table[n].value(k)));
        }
        assert(flat(table) =~= flat(shorter) + last) by {
            assert forall|k: int| 0 <= k < 7 * (n + 1) implies #[trigger] flat(table)[k] == (flat(
                shorter,
            ) + last)[k] by {
                if k < 7 * n {
                    assert(table[k / 7] == shorter[k / 7]);
                } else {
                    assert(k / 7 == n && k % 7 == k - 7 * n);
                }
            }
        }
    }
}

/// An import that is not streamed hands out its splats once, when all rows are
/// there.
pub proof fn law_one_message_unless_streamed(
    update: TimedUpdate,
    perc_done: Scalar,
    now: u64,
    made_progress: bool,
    rows_before: int,
    rows: int,
    total: int,
)
    requires
        update.update_every is None,
    ensures
        pass_end(made_progress, rows_before, rows, total, update.due(perc_done, now)) != Ok::<
            PassEnd,
            ImportError,
        >(PassEnd::Emit),
{
}

/// A pass without new bytes either ends the import or saw new rows, so that at
/// the end of a file an import ends after at most as many passes as rows are
/// missing.
pub proof fn law_no_pass_stalls(
    rows_before: int,
    rows: int,
    total: int,
    due: bool,
)
    requires
        rows_before <= rows,
    ensures
        ({
            let end = pass_end(false, rows_before, rows, total, due);
            end is Err || end == Ok::<PassEnd, ImportError>(PassEnd::Finish) || rows_before < rows
        }),
{
}

/// A file that ends before its declared rows is an error, not a partial result.
pub proof fn law_truncated_file_is_an_error(rows: int, total: int, due: bool)
    requires
        rows < total,
    ensures
        pass_end(false, rows, rows, total, due) == Err::<PassEnd, ImportError>(
            ImportError::UnexpectedEof,
        ),
        forall|made_progress: bool, rows_before: int|
            #[trigger] pass_end(made_progress, rows_before, rows, total, due) != Ok::<
                PassEnd,
                ImportError,
            >(PassEnd::Finish),
{
}

/// No file is called truncated that holds its declared rows: whatever the pass,
/// the error comes only while rows are missing. An element without rows is
/// complete from the start.
pub proof fn law_truncation_means_missing_rows(
    made_progress: bool,
    rows_before: int,
    rows: int,
    total: int,
    due: bool,
)
    ensures
        pass_end(made_progress, rows_before, rows, total, due) is Err ==> rows != total,
        rows == total ==> pass_end(made_progress, rows_before, rows, total, due) == Ok::<
            PassEnd,
            ImportError,
        >(PassEnd::Finish),
{
}

/// Whether a lane is the start of another, or both are missing.
pub open spec fn lane_starts(a: Option<Seq<Scalar>>, b: Option<Seq<Scalar>>) -> bool {
    match (a, b) {
        (Some(a), Some(b)) => a.is_prefix_of(b),
        (None, None) => true,
        _ => false,
    }
}

/// Whether every lane of `a` is the start of that of `b`.
pub open spec fn lanes_start(a: SplatLanes, b: SplatLanes) -> bool {
    &&& a.means.is_prefix_of(b.means)
    &&& lane_starts(a.rotations, b.rotations)
    &&& lane_starts(a.log_scales, b.log_scales)
    &&& lane_starts(a.sh_coeffs, b.sh_coeffs)
    &&& lane_starts(a.raw_opacities, b.raw_opacities)
    &&& lane_starts(a.evidence, b.evidence)
}

pub(crate) proof fn lemma_prefix_of_sum(a: Seq<Scalar>, b: Seq<Scalar>, more: Seq<Scalar>)
    requires
        a.is_prefix_of(b),
    ensures
        a.is_prefix_of(b + more),
{
    assert((b + more).subrange(0, a.len() as int) =~= b.subrange(0, a.len() as int));
}

proof fn lemma_grown_starts(a: Option<Seq<Scalar>>, b: Option<Seq<Scalar>>, more: Seq<Scalar>)
    requires
        lane_starts(a, b),
    ensures
        lane_starts(a, grown(b, more)),
{
    if let Some(v) = b {
        lemma_prefix_of_sum(a->0, v, more);
    }
}

/// What was read after the first `m` rows is, lane by lane, the start of what
/// was read after the first `n`.
pub proof fn law_earlier_rows_are_a_prefix(
    start: SplatLanes,
    rows: Seq<GaussRow>,
    rgb_dcs: Seq<[Scalar; 3]>,
    subsample: int,
    sh_count: int,
    m: int,
    n: int,
)
    requires
        0 <= m <= n <= rows.len(),
    ensures
        lanes_start(
            after_rows(start, rows.take(m), rgb_dcs, subsample, sh_count),
            after_rows(start, rows.take(n), rgb_dcs, subsample, sh_count),
        ),
    decreases n - m,
{
    let a = after_rows(start, rows.take(m), rgb_dcs, subsample, sh_count);
    if m < n {
        law_earlier_rows_are_a_prefix(start, rows, rgb_dcs, subsample, sh_count, m, n - 1);
        assert(rows.take(n).drop_last() =~= rows.take(n - 1));
        if n % subsample == 0 {
            let b = after_rows(start, rows.take(n - 1), rgb_dcs, subsample, sh_count);
            let row = rows.take(n).last();
            lemma_prefix_of_sum(a.means, b.means, row.position@);
            lemma_grown_starts(a.rotations, b.rotations, row.rotation@);
            lemma_grown_starts(a.log_scales, b.log_scales, row.scale@);
            lemma_grown_starts(
                a.sh_coeffs,
                b.sh_coeffs,
                interleaved(base_colour(row, rgb_dcs[n - 1]), row.rest@.take(sh_count - 3)),
            );
            lemma_grown_starts(a.raw_opacities, b.raw_opacities, seq![row.opacity]);
            lemma_grown_starts(a.evidence, b.evidence, filled(row.evidence@));
        }
    }
}

/// One pass of an import.
pub struct Pass {
    /// It got new bytes.
    pub made_progress: bool,
    /// Rows seen at its end.
    pub rows: int,
    /// An update is due at its end; see [`TimedUpdate::due`].
    pub due: bool,
}

/// How pass `i` of an import of `total` rows ends.
pub open spec fn end_of(passes: Seq<Pass>, total: int, i: int) -> Result<PassEnd, ImportError> {
    let rows_before = if i == 0 {
        0
    } else {
        passes[i - 1].rows
    };
    pass_end(passes[i].made_progress, rows_before, passes[i].rows, total, passes[i].due)
}

/// Whether these are all the passes of an import of `total` rows that comes to
/// its end: rows only become more, and the last pass alone finishes.
pub open spec fn runs_to_its_end(passes: Seq<Pass>, total: int) -> bool {
    &&& passes.len() > 0
    &&& 0 <= passes[0].rows
    &&& forall|i: int, j: int|
        0 <= i <= j < passes.len() ==> (#[trigger] passes[i]).rows <= (#[trigger] passes[j]).rows
    &&& forall|i: int|
        0 <= i < passes.len() - 1 ==> {
            &&& #[trigger] end_of(passes, total, i) is Ok
            &&& end_of(passes, total, i) != Ok::<PassEnd, ImportError>(PassEnd::Finish)
        }
    &&& end_of(passes, total, passes.len() - 1) == Ok::<PassEnd, ImportError>(PassEnd::Finish)
}

/// The numbers of rows after which the first `k` passes hand out messages.
pub open spec fn handed_out(passes: Seq<Pass>, total: int, k: int) -> Seq<int>
    decreases k,
{
    if k <= 0 {
        Seq::empty()
    } else {
        match end_of(passes, total, k - 1) {
            Ok(PassEnd::Continue) => handed_out(passes, total, k - 1),
            Ok(_) => handed_out(passes, total, k - 1).push(passes[k - 1].rows),
            Err(_) => handed_out(passes, total, k - 1),
        }
    }
}

/// The numbers of rows after which an import hands out its messages.
pub open spec fn message_rows(passes: Seq<Pass>, total: int) -> Seq<int> {
    handed_out(passes, total, passes.len() as int)
}

proof fn lemma_handed_out(passes: Seq<Pass>, total: int, k: int)
    requires
        runs_to_its_end(passes, total),
        0 <= k <= passes.len(),
    ensures
        forall|j: int|
            0 <= j < handed_out(passes, total, k).len() ==> 0 <= #[trigger] handed_out(
                passes,
                total,
                k,
            )[j] <= total && k > 0 && handed_out(passes, total, k)[j] <= passes[k - 1].rows,
        forall|i: int, j: int|
            0 <= i <= j < handed_out(passes, total, k).len() ==> #[trigger] handed_out(
                passes,
                total,
                k,
            )[i] <= #[trigger] handed_out(passes, total, k)[j],
    decreases k,
{
    if k > 0 {
        lemma_handed_out(passes, total, k - 1);
        let last = passes.len() - 1;
        assert(passes[k - 1].rows <= passes[last].rows);
        assert(passes[last].rows == total);
        assert(passes[0].rows <= passes[k - 1].rows);
        if k > 1 {
            assert(passes[k - 2].rows <= passes[k - 1].rows);
        }
        let before = handed_out(passes, total, k - 1);
        let after = handed_out(passes, total, k);
        assert forall|j: int| 0 <= j < after.len() implies 0 <= #[trigger] after[j] <= total
            && after[j] <= passes[k - 1].rows by {
            if j < before.len() {
                assert(after[j] == before[j]);
            }
        }
        assert forall|i: int, j: int| 0 <= i <= j < after.len() implies #[trigger] after[i]
            <= #[trigger] after[j] by {
            if j < before.len() {
                assert(after[i] == before[i] && after[j] == before[j]);
            }
        }
    }
}

proof fn lemma_quiet_passes_hand_out_nothing(passes: Seq<Pass>, total: int, k: int)
    requires
        runs_to_its_end(passes, total),
        0 <= k < passes.len(),
        forall|i: int| 0 <= i < passes.len() ==> !(#[trigger] passes[i]).due,
    ensures
        handed_out(passes, total, k) == Seq::<int>::empty(),
    decreases k,
{
    if k > 0 {
        lemma_quiet_passes_hand_out_nothing(passes, total, k - 1);
        assert(end_of(passes, total, k - 1) is Ok);
        assert(!passes[k - 1].due);
    }
}

/// Whatever updates are due on the way, the last message of an import comes
/// after all its rows, and each message after at least as many rows as the one
/// before; without updates there is one message.
pub proof fn law_messages_follow_the_rows(passes: Seq<Pass>, total: int)
    requires
        runs_to_its_end(passes, total),
    ensures
        message_rows(passes, total).len() > 0,
        message_rows(passes, total).last() == total,
        forall|i: int, j: int|
            0 <= i <= j < message_rows(passes, total).len() ==> 0 <= #[trigger] message_rows(
                passes,
                total,
            )[i] <= #[trigger] message_rows(passes, total)[j] <= total,
        (forall|i: int| 0 <= i < passes.len() ==> !(#[trigger] passes[i]).due) ==> message_rows(
            passes,
            total,
        ) == seq![total],
{
    let n = passes.len() as int;
    lemma_handed_out(passes, total, n);
    assert(passes[n - 1].rows == total);
    if forall|i: int| 0 <= i < passes.len() ==> !(#[trigger] passes[i]).due {
        lemma_quiet_passes_hand_out_nothing(passes, total, n - 1);
        assert(message_rows(passes, total) =~= seq![total]);
    }
}

/// Every message of an import is, lane by lane, the start of every later one.
pub proof fn law_messages_are_prefixes(
    start: SplatLanes,
    rows: Seq<GaussRow>,
    rgb_dcs: Seq<[Scalar; 3]>,
    subsample: int,
    sh_count: int,
    passes: Seq<Pass>,
    i: int,
    j: int,
)
    requires
        runs_to_its_end(passes, rows.len() as int),
        0 <= i <= j < message_rows(passes, rows.len() as int).len(),
    ensures
        ({
            let at = message_rows(passes, rows.len() as int);
            lanes_start(
                after_rows(start, rows.take(at[i]), rgb_dcs, subsample, sh_count),
                after_rows(start, rows.take(at[j]), rgb_dcs, subsample, sh_count),
            )
        }),
{
    let at = message_rows(passes, rows.len() as int);
    law_messages_follow_the_rows(passes, rows.len() as int);
    assert(0 <= at[i] <= at[j] <= rows.len());
    law_earlier_rows_are_a_prefix(start, rows, rgb_dcs, subsample, sh_count, at[i], at[j]);
}

/// Streaming leaves the last data alone: two imports of the same rows, cut into
/// whatever passes and with whatever updates due, end with the same message,
/// that of all the rows.
pub proof fn law_streaming_leaves_the_last_data_alone(
    start: SplatLanes,
    rows: Seq<GaussRow>,
    rgb_dcs: Seq<[Scalar; 3]>,
    subsample: int,
    sh_count: int,
    streamed: Seq<Pass>,
    quiet: Seq<Pass>,
)
    requires
        runs_to_its_end(streamed, rows.len() as int),
        runs_to_its_end(quiet, rows.len() as int),
    ensures
        ({
            let total = rows.len() as int;
            let all = after_rows(start, rows, rgb_dcs, subsample, sh_count);
            &&& after_rows(
                start,
                rows.take(message_rows(streamed, total).last()),
                rgb_dcs,
                subsample,
                sh_count,
            ) == all
            &&& after_rows(
                start,
                rows.take(message_rows(quiet, total).last()),
                rgb_dcs,
                subsample,
                sh_count,
            ) == all
        }),
{
    law_messages_follow_the_rows(streamed, rows.len() as int);
    law_messages_follow_the_rows(quiet, rows.len() as int);
    assert(rows.take(rows.len() as int) =~= rows);
}

/// A row that is taken adds, at the end of each lane that there is, its own
/// position, rotation, scale and opacity, value by value and in their order,
/// and keeps what was there.
pub proof fn law_row_is_appended_value_by_value(
    lanes: SplatLanes,
    row: GaussRow,
    rgb_dc: [Scalar; 3],
    sh_count: int,
    j: int,
)
    ensures
        ({
            let after = with_row(lanes, row, rgb_dc, sh_count);
            &&& after.means.len() == lanes.means.len() + 3
            &&& lanes.means.is_prefix_of(after.means)
            &&& 0 <= j < 3 ==> after.means[lanes.means.len() + j] == row.position@[j]
            &&& lanes.rotations is None ==> after.rotations is None
            &&& lanes.rotations matches Some(v) ==> after.rotations matches Some(w) && w.len()
                == v.len() + 4 && v.is_prefix_of(w) && (0 <= j < 4 ==> w[v.len() + j]
                == row.rotation@[j])
            &&& lanes.log_scales is None ==> after.log_scales is None
            &&& lanes.log_scales matches Some(v) ==> after.log_scales matches Some(w) && w.len()
                == v.len() + 3 && v.is_prefix_of(w) && (0 <= j < 3 ==> w[v.len() + j]
                == row.scale@[j])
            &&& lanes.raw_opacities is None ==> after.raw_opacities is None
            &&& lanes.raw_opacities matches Some(v) ==> after.raw_opacities matches Some(w)
                && w.len() == v.len() + 1 && v.is_prefix_of(w) && w[v.len() as int] == row.opacity
        }),
{
    lemma_prefix_of_sum(lanes.means, lanes.means, row.position@);
    if let Some(v) = lanes.rotations {
        lemma_prefix_of_sum(v, v, row.rotation@);
    }
    if let Some(v) = lanes.log_scales {
        lemma_prefix_of_sum(v, v, row.scale@);
    }
    if let Some(v) = lanes.raw_opacities {
        lemma_prefix_of_sum(v, v, seq![row.opacity]);
    }
}

/// The first three colour coefficients of a row are its constant coefficients
/// in their order where it lacks any of red, green and blue, and those of the
/// three where it has them all; coefficient `m` of channel `j` of the others
/// comes three values later for each `m`. Nothing else is added.
pub proof fn law_row_colours_by_index(
    lanes: SplatLanes,
    row: GaussRow,
    rgb_dc: [Scalar; 3],
    sh_count: int,
    m: int,
    j: int,
)
    requires
        3 <= sh_count <= 3 + row.rest@.len(),
        0 <= j < 3,
        lanes.sh_coeffs is Some,
    ensures
        with_row(lanes, row, rgb_dc, sh_count).sh_coeffs matches Some(w) && {
            let v = lanes.sh_coeffs->0;
            let per_channel = (sh_count - 3) / 3;
            &&& w.len() == v.len() + 3 + 3 * per_channel
            &&& v.is_prefix_of(w)
            &&& row.red is None || row.green is None || row.blue is None ==> w[v.len() + j]
                == row.dc@[j]
            &&& row.red is Some && row.green is Some && row.blue is Some ==> w[v.len() + j]
                == rgb_dc@[j]
            &&& 0 <= m < per_channel ==> w[v.len() + 3 + 3 * m + j] == row.rest@[j * per_channel
                + m]
        },
{
    let v = lanes.sh_coeffs->0;
    let rest = row.rest@.take(sh_count - 3);
    let sh = interleaved(base_colour(row, rgb_dc), rest);
    let per_channel = (sh_count - 3) / 3;
    lemma_prefix_of_sum(v, v, sh);
    law_coefficients_by_index(base_colour(row, rgb_dc), rest, m, j);
    if 0 <= m < per_channel {
        lemma_within_channels(sh_count - 3, j, m);
        assert((v + sh)[v.len() + 3 + 3 * m + j] == sh[3 + 3 * m + j]);
        assert(rest[j * per_channel + m] == row.rest@[j * per_channel + m]);
    }
}

pub(crate) proof fn lemma_within_channels(len: int, j: int, m: int)
    requires
        0 <= j < 3,
        0 <= m < len / 3,
    ensures
        0 <= j * (len / 3) + m < len,
{
    assert(j == 0 || j == 1 || j == 2);
}

/// The evidence of a row is its own, value by value, with zero for a value that
/// is missing.
pub proof fn law_row_evidence_by_index(
    lanes: SplatLanes,
    row: GaussRow,
    rgb_dc: [Scalar; 3],
    sh_count: int,
    j: int,
)
    requires
        0 <= j < 7,
        lanes.evidence is Some,
    ensures
        with_row(lanes, row, rgb_dc, sh_count).evidence matches Some(w) && {
            let v = lanes.evidence->0;
            &&& w.len() == v.len() + 7
            &&& v.is_prefix_of(w)
            &&& row.evidence@[j] matches Some(x) ==> w[v.len() + j] == x
            &&& row.evidence@[j] is None ==> w[v.len() + j] == (Scalar { bits: 0 })
        },
{
    let v = lanes.evidence->0;
    lemma_prefix_of_sum(v, v, filled(row.evidence@));
}

/// Splat `i` of an import holds, value by value, what row `(i + 1) * subsample
/// - 1` of the file holds. Its first three colour coefficients are the row's
/// constant ones where the row lacks any of red, green and blue, and those of
/// the three where it has them all.
pub proof fn law_imported_splat_by_value(
    vertex: ElementView,
    rows: Seq<GaussRow>,
    rgb_dcs: Seq<[Scalar; 3]>,
    subsample: int,
    sh_count: int,
    i: int,
    m: int,
    j: int,
)
    requires
        0 < subsample,
        0 <= i < rows.len() as int / subsample,
        colour_count(vertex.properties) > 0 ==> 3 <= sh_count && forall|k: int|
            0 <= k < rows.len() ==> sh_count <= 3 + #[trigger] rows[k].rest@.len(),
    ensures
        ({
            let lanes = after_rows(lanes_of(vertex), rows, rgb_dcs, subsample, sh_count);
            let k = (i + 1) * subsample - 1;
            let row = rows[k];
            let per_channel = (sh_count - 3) / 3;
            let per = 3 + 3 * per_channel;
            &&& 0 <= k < rows.len()
            &&& lanes.means.len() == 3 * (rows.len() as int / subsample)
            &&& 0 <= j < 3 ==> lanes.means[3 * i + j] == row.position@[j]
            &&& lanes.rotations matches Some(v) ==> (0 <= j < 4 ==> v[4 * i + j]
                == row.rotation@[j])
            &&& lanes.log_scales matches Some(v) ==> (0 <= j < 3 ==> v[3 * i + j]
                == row.scale@[j])
            &&& lanes.raw_opacities matches Some(v) ==> v[i] == row.opacity
            &&& lanes.evidence matches Some(v) ==> (0 <= j < 7 ==> v[7 * i + j]
                == match row.evidence@[j] {
                Some(x) => x,
                None => Scalar { bits: 0 },
            })
            &&& lanes.sh_coeffs matches Some(v) ==> (0 <= j < 3 ==> {
                &&& row.red is None || row.green is None || row.blue is None ==> v[per * i + j]
                    == row.dc@[j]
                &&& row.red is Some && row.green is Some && row.blue is Some ==> v[per * i + j]
                    == rgb_dcs[k]@[j]
                &&& 0 <= m < per_channel ==> v[per * i + 3 + 3 * m + j] == row.rest@[j
                    * per_channel + m]
            })
        }),
{
    law_every_nth_row_is_kept(vertex, rows, rgb_dcs, subsample, sh_count, i);
    lemma_rows_align(vertex, rows, rgb_dcs, subsample, sh_count);
    let start = lanes_of(vertex);
    let lanes = after_rows(start, rows, rgb_dcs, subsample, sh_count);
    let k = (i + 1) * subsample - 1;
    let row = rows[k];
    let per_channel = (sh_count - 3) / 3;
    let per = 3 + 3 * per_channel;
    if 0 <= j < 3 {
        assert(lanes.means.subrange(3 * i, 3 * i + 3)[j] == lanes.means[3 * i + j]);
        if let Some(v) = lanes.log_scales {
            assert(v.subrange(3 * i, 3 * i + 3)[j] == v[3 * i + j]);
            assert(grown(start.log_scales, row.scale@) == Some(v.subrange(3 * i, 3 * i + 3)));
            assert((Seq::empty() + row.scale@)[j] == row.scale@[j]);
        }
        if let Some(v) = lanes.sh_coeffs {
            let rest = row.rest@.take(sh_count - 3);
            let base = base_colour(row, rgb_dcs[k]);
            let sh = interleaved(base, rest);
            let block = v.subrange(per * i, per * i + per);
            assert(coeffs_per_splat(sh_count) == per);
            assert(lane_row(lanes.sh_coeffs, per, i) == Some(block));
            assert(grown(start.sh_coeffs, sh) == Some(Seq::empty() + sh));
            assert(Seq::empty() + sh =~= sh);
            law_coefficients_by_index(base, rest, m, j);
            let count = rows.len() as int / subsample;
            assert(0 <= per * i && per * i + per <= count * per) by (nonlinear_arith)
                requires
                    0 <= i < count,
                    0 < per,
            ;
            assert(block[j] == v[per * i + j]);
            if 0 <= m < per_channel {
                lemma_within_channels(sh_count - 3, j, m);
                assert(block[3 + 3 * m + j] == v[per * i + 3 + 3 * m + j]);
                assert(rest[j * per_channel + m] == row.rest@[j * per_channel + m]);
            }
        }
    }
    if let Some(v) = lanes.rotations {
        if 0 <= j < 4 {
            assert(v.subrange(4 * i, 4 * i + 4)[j] == v[4 * i + j]);
            assert(grown(start.rotations, row.rotation@) == Some(v.subrange(4 * i, 4 * i + 4)));
            assert((Seq::empty() + row.rotation@)[j] == row.rotation@[j]);
        }
    }
    if let Some(v) = lanes.raw_opacities {
        assert(v.subrange(1 * i, 1 * i + 1)[0] == v[i]);
        assert(grown(start.raw_opacities, seq![row.opacity]) == Some(v.subrange(1 * i, 1 * i + 1)));
        assert((Seq::empty() + seq![row.opacity])[0] == row.opacity);
    }
    if let Some(v) = lanes.evidence {
        if 0 <= j < 7 {
            let values = filled(row.evidence@);
            assert(v.subrange(7 * i, 7 * i + 7)[j] == v[7 * i + j]);
            assert(grown(start.evidence, values) == Some(v.subrange(7 * i, 7 * i + 7)));
            assert((Seq::empty() + values)[j] == values[j]);
        }
    }
}

/// An import starts without a splat. It has a lane of rotations, scales or
/// opacities exactly where the vertices have the first property of that kind, a
/// lane of colours where any property is one of a colour, and a lane of evidence
/// where any property is one of its seven.
pub proof fn law_lanes_follow_the_properties(vertex: ElementView)
    ensures
        lanes_of(vertex).means.len() == 0,
        lanes_of(vertex).rotations is Some <==> vertex.properties.contains("rot_0"@),
        lanes_of(vertex).log_scales is Some <==> vertex.properties.contains("scale_0"@),
        lanes_of(vertex).raw_opacities is Some <==> vertex.properties.contains("opacity"@),
        lanes_of(vertex).sh_coeffs is Some <==> exists|k: int|
            0 <= k < vertex.properties.len() && #[trigger] colour_property(vertex.properties[k]),
        lanes_of(vertex).evidence is Some <==> {
            let p = vertex.properties;
            p.contains("ev_w_in"@) || p.contains("ev_w_all"@) || p.contains("ev_err"@)
                || p.contains("ev_views"@) || p.contains("ev_dir_0"@) || p.contains("ev_dir_1"@)
                || p.contains("ev_dir_2"@)
        },
        lanes_of(vertex).rotations matches Some(v) ==> v.len() == 0,
        lanes_of(vertex).log_scales matches Some(v) ==> v.len() == 0,
        lanes_of(vertex).raw_opacities matches Some(v) ==> v.len() == 0,
        lanes_of(vertex).sh_coeffs matches Some(v) ==> v.len() == 0,
        lanes_of(vertex).evidence matches Some(v) ==> v.len() == 0,
{
    let p = vertex.properties;
    lemma_counts_colours(p);
    assert(field_name(0) == "ev_w_in"@ && field_name(1) == "ev_w_all"@ && field_name(2)
        == "ev_err"@ && field_name(3) == "ev_views"@ && field_name(4) == "ev_dir_0"@ && field_name(
        5,
    ) == "ev_dir_1"@ && field_name(6) == "ev_dir_2"@);
    if carries_evidence(p) {
        let k = choose|k: int| 0 <= k < 7 && #[trigger] p.contains(field_name(k));
        assert(k == 0 || k == 1 || k == 2 || k == 3 || k == 4 || k == 5 || k == 6);
    }
    assert(p.contains(field_name(0)) || p.contains(field_name(1)) || p.contains(field_name(2))
        || p.contains(field_name(3)) || p.contains(field_name(4)) || p.contains(field_name(5))
        || p.contains(field_name(6)) ==> carries_evidence(p));
}

proof fn lemma_counts_colours(properties: Seq<Seq<char>>)
    ensures
        colour_count(properties) <= properties.len(),
        colour_count(properties) > 0 <==> exists|k: int|
            0 <= k < properties.len() && #[trigger] colour_property(properties[k]),
    decreases properties.len(),
{
    if properties.len() > 0 {
        let prior = properties.drop_last();
        lemma_counts_colours(prior);
        let n = properties.len() - 1;
        if colour_property(properties.last()) {
            assert(colour_property(properties[n]));
        }
        if colour_count(prior) > 0 {
            let k = choose|k: int| 0 <= k < prior.len() && #[trigger] colour_property(prior[k]);
            assert(colour_property(properties[k]));
        }
        if exists|k: int| 0 <= k < properties.len() && #[trigger] colour_property(properties[k]) {
            let k = choose|k: int|
                0 <= k < properties.len() && #[trigger] colour_property(properties[k]);
            if k < n {
                assert(colour_property(prior[k]));
            }
        }
    }
}

/// The properties of a colour are the constant and the other coefficients, by
/// their prefixes, and the three channels under their short and long names.
pub proof fn law_colour_properties(name: Seq<char>, tail: Seq<char>)
    ensures
        colour_property("f_rest_"@ + tail),
        colour_property("f_dc_"@ + tail),
        colour_property(name) <==> {
            ||| name.len() >= 7 && name.take(7) == "f_rest_"@
            ||| name.len() >= 5 && name.take(5) == "f_dc_"@
            ||| name == "r"@ || name == "g"@ || name == "b"@
            ||| name == "red"@ || name == "green"@ || name == "blue"@
        },
{
    reveal_strlit("f_rest_");
    reveal_strlit("f_dc_");
    lemma_prefixes(name, tail, "f_rest_"@);
    lemma_prefixes(name, tail, "f_dc_"@);
}

proof fn lemma_prefixes(name: Seq<char>, tail: Seq<char>, prefix: Seq<char>)
    ensures
        prefix.is_prefix_of(prefix + tail),
        prefix.is_prefix_of(name) <==> name.len() >= prefix.len() && name.take(prefix.len() as int)
            == prefix,
{
    assert((prefix + tail).subrange(0, prefix.len() as int) =~= prefix);
}

/// The properties of a colour are counted one by one.
pub proof fn law_colours_are_counted_one_by_one(properties: Seq<Seq<char>>, name: Seq<char>)
    ensures
        colour_count(Seq::empty()) == 0,
        colour_property(name) ==> colour_count(properties.push(name)) == colour_count(properties)
            + 1,
        !colour_property(name) ==> colour_count(properties.push(name)) == colour_count(properties),
        colour_count(properties) <= properties.len(),
{
    assert(properties.push(name).drop_last() =~= properties);
    lemma_counts_colours(properties);
}

/// A splat has the whole threes of the colour properties as its coefficients.
pub proof fn law_coefficients_come_in_threes(sh_count: int)
    requires
        3 <= sh_count,
    ensures
        coeffs_per_splat(sh_count) % 3 == 0,
        3 <= coeffs_per_splat(sh_count) <= sh_count,
        sh_count < coeffs_per_splat(sh_count) + 3,
{
}

/// An update is due where the import has an interval, that interval has passed
/// since the last update, and the import is not at `0.95` or beyond; and else
/// not.
pub proof fn law_updates_are_due_after_their_interval(
    update: TimedUpdate,
    perc_done: Scalar,
    now: u64,
)
    ensures
        update.update_every is None ==> !update.due(perc_done, now),
        (Scalar { bits: 0x3f73_3333 }).at_most(perc_done) ==> !update.due(perc_done, now),
        update.update_every matches Some(every) ==> (!(Scalar { bits: 0x3f73_3333 }).at_most(
            perc_done,
        ) && update.last_update <= now ==> (update.due(perc_done, now) <==> now
            >= update.last_update + every)),
        update.update_every matches Some(every) ==> (now < update.last_update && 0 < every
            ==> !update.due(perc_done, now)),
        STREAM_EVERY == 1_500_000_000,
        READ_AHEAD == 0x80_0000,
{
}

/// A pass ends in exactly one way: all rows are there, or the file has ended
/// before them, or the import goes on, and then it hands out what it has
/// exactly where an update is due.
pub proof fn law_pass_ends_by_case(
    made_progress: bool,
    rows_before: int,
    rows: int,
    total: int,
    due: bool,
)
    ensures
        pass_end(made_progress, rows_before, rows, total, due) == Ok::<PassEnd, ImportError>(
            PassEnd::Finish,
        ) <==> rows == total,
        pass_end(made_progress, rows_before, rows, total, due) is Err <==> rows != total
            && !made_progress && rows == rows_before,
        pass_end(made_progress, rows_before, rows, total, due) matches Err(e) ==> e
            == ImportError::UnexpectedEof,
        pass_end(made_progress, rows_before, rows, total, due) == Ok::<PassEnd, ImportError>(
            PassEnd::Emit,
        ) <==> rows != total && (made_progress || rows != rows_before) && due,
        pass_end(made_progress, rows_before, rows, total, due) == Ok::<PassEnd, ImportError>(
            PassEnd::Continue,
        ) <==> rows != total && (made_progress || rows != rows_before) && !due,
{
}

/// The next row of an import is kept exactly where it completes a group of
/// `subsample` rows, and a kept row must have the coefficients that the colour
/// properties ask for; one that is skipped may have any.
pub proof fn law_next_row_of_an_import(import: PlyImport, row: GaussRow)
    requires
        import.wf(),
    ensures
        import.keeps_next() <==> (import.row_index + 1) % (import.subsample as int) == 0,
        (import.row_index + 1) % (import.subsample as int) != 0 ==> import.accepts(row),
        import.data.sh_coeffs is None ==> import.accepts(row),
        (import.row_index + 1) % (import.subsample as int) == 0 && import.data.sh_coeffs is Some
            ==> (import.accepts(row) <==> 3 <= import.sh_count && import.sh_count - 3
            <= row.rest@.len()),
        import.data.means@.len() == 3 * (import.row_index as int / import.subsample as int),
        import.max_splats as int == import.total_splats as int / import.subsample as int,
{
}

/// A missing value reads as zero, and any other as itself.
pub proof fn law_missing_values_read_as_zero(values: Seq<Option<Scalar>>, i: int)
    requires
        0 <= i < values.len(),
    ensures
        filled(values).len() == values.len(),
        values[i] matches Some(x) ==> filled(values)[i] == x,
        values[i] is None ==> filled(values)[i] == (Scalar { bits: 0 }),
{
}

/// A lane is the start of another where every value of it stands at the same
/// place in the other.
pub proof fn law_start_of_a_lane_by_value(a: Seq<Scalar>, b: Seq<Scalar>)
    ensures
        lane_starts(Some(a), Some(b)) <==> a.len() <= b.len() && forall|k: int|
            0 <= k < a.len() ==> #[trigger] a[k] == b[k],
        lane_starts(None, None),
        !lane_starts(Some(a), None),
        !lane_starts(None, Some(b)),
{
    if a.is_prefix_of(b) {
        assert forall|k: int| 0 <= k < a.len() implies #[trigger] a[k] == b[k] by {
            assert(b.subrange(0, a.len() as int)[k] == b[k]);
        }
    }
    if a.len() <= b.len() && forall|k: int| 0 <= k < a.len() ==> #[trigger] a[k] == b[k] {
        assert(b.subrange(0, a.len() as int) =~= a);
    }
}

/// An import is streamed every one and a half seconds or not at all, counted
/// from its start.
pub proof fn law_streamed_imports_update(streaming: bool, now: u64, r: TimedUpdate)
    requires
        call_ensures(TimedUpdate::for_import, (streaming, now), r),
    ensures
        r.last_update == now,
        streaming ==> r.update_every == Some(1_500_000_000u64),
        !streaming ==> r.update_every is None,
{
}

/// A message holds what was read so far, lane by lane, and as its total the
/// splats that will stay; so does the last message, when all rows are there.
pub proof fn law_messages_hold_what_was_read(
    import: PlyImport,
    up_axis: Option<[Scalar; 3]>,
    render_mode: Option<SplatRenderMode>,
    progress: Scalar,
    message: SplatMessage,
    last: SplatMessage,
)
    requires
        call_ensures(PlyImport::message, (&import, up_axis, render_mode, progress), message),
        call_ensures(PlyImport::finish, (import, up_axis, render_mode, progress), last),
    ensures
        message.data@ == import.data@,
        last.data@ == import.data@,
        message.meta == last.meta,
        message.meta.up_axis == up_axis,
        message.meta.render_mode == render_mode,
        message.meta.progress == progress,
        import.max_splats <= u32::MAX ==> message.meta.total_splats == import.max_splats,
{
}

/// Lanes start others where each of them starts its own counterpart.
pub proof fn law_start_of_lanes_by_lane(a: SplatLanes, b: SplatLanes)
    ensures
        lanes_start(a, b) <==> lane_starts(Some(a.means), Some(b.means)) && lane_starts(
            a.rotations,
            b.rotations,
        ) && lane_starts(a.log_scales, b.log_scales) && lane_starts(a.sh_coeffs, b.sh_coeffs)
            && lane_starts(a.raw_opacities, b.raw_opacities) && lane_starts(a.evidence, b.evidence),
{
}

/// A new import of an element expects its rows, starts before the first of them
/// and holds no splat.
pub proof fn law_new_import_by_part(vertex: ElementDef, subsample: usize, r: PlyImport)
    requires
        0 < subsample,
        call_ensures(PlyImport::new, (&vertex, subsample), r),
    ensures
        r.subsample == subsample,
        r.total_splats == vertex.count,
        r.max_splats as int == vertex.count as int / subsample as int,
        r.row_index == 0,
        r.data.means@.len() == 0,
        r.data.rotations is Some <==> vertex@.properties.contains("rot_0"@),
        r.data.log_scales is Some <==> vertex@.properties.contains("scale_0"@),
        r.data.raw_opacities is Some <==> vertex@.properties.contains("opacity"@),
        r.data.sh_coeffs is Some <==> r.sh_count > 0,
        r.sh_count == colour_count(vertex@.properties),
{
    assert(r.data@ == lanes_of(vertex@));
    law_lanes_follow_the_properties(vertex@);
    assert(r.data@.rotations is Some == r.data.rotations is Some);
}

/// A buffer is topped up while it is shorter than its target, and a pass made
/// progress where any byte came.
pub proof fn law_top_up_by_length(top_up: TopUp, buf_len: usize, wants: bool, progress: bool)
    requires
        call_ensures(TopUp::wants, (&top_up, buf_len), wants),
        call_ensures(TopUp::made_progress, (&top_up,), progress),
    ensures
        wants <==> buf_len < top_up.target,
        progress <==> top_up.new_bytes > 0,
{
}

} // verus!
