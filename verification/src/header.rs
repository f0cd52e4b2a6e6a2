//! The header of a ply file, and what it says about the import.

use vstd::prelude::*;
use vstd::string::*;

use crate::scalar::{Scalar, MINUS_ONE_BITS, ONE_BITS, ZERO_BITS};
use crate::splat_data::SplatRenderMode;
use crate::text::{
    ascii, ascii_lowercase, chars_of, is_whitespace, law_padding_is_trimmed, lowercase, same,
    strip_prefix, texts, to_lowercase, trim, trimmed, whitespace,
};

verus! {

/// One element of a ply file: its name, its number of rows and the names of
/// its properties.
pub struct ElementDef {
    pub name: String,
    pub count: usize,
    pub properties: Vec<String>,
}

/// The header of a ply file.
pub struct Header {
    pub comments: Vec<String>,
    pub elements: Vec<ElementDef>,
}

/// What an [`ElementDef`] holds.
#[verifier::ext_equal]
pub struct ElementView {
    pub name: Seq<char>,
    pub count: nat,
    pub properties: Seq<Seq<char>>,
}

/// What a [`Header`] holds.
#[verifier::ext_equal]
pub struct HeaderView {
    pub comments: Seq<Seq<char>>,
    pub elements: Seq<ElementView>,
}

impl View for ElementDef {
    type V = ElementView;

    open spec fn view(&self) -> ElementView {
        ElementView {
            name: self.name@,
            count: self.count as nat,
            properties: texts(self.properties@),
        }
    }
}

impl View for Header {
    type V = HeaderView;

    open spec fn view(&self) -> HeaderView {
        HeaderView {
            comments: texts(self.comments@),
            elements: Seq::new(self.elements@.len(), |i: int| self.elements@[i]@),
        }
    }
}

/// The header that `bytes` start with, or `None` where they do not hold a
/// whole, valid one, on a machine with `word_bits` bits in a `usize`: a row
/// count that does not fit there is not valid.
pub uninterp spec fn ply_header(bytes: Seq<u8>, word_bits: u32) -> Option<HeaderView>;

/// `serde_ply::PlyChunkedReader::header`, on a new reader whose buffer holds
/// `bytes`: the comments, and for each element its name, its row count and the
/// names of its properties. It depends on the bytes and the width of a row count
/// alone. How the header is parsed is not stated.
#[verifier::external_body]
pub(crate) fn read_header(bytes: &Vec<u8>) -> (r: Option<Header>)
    ensures
        match r {
            Some(h) => ply_header(bytes@, usize::BITS) == Some(h@),
            None => ply_header(bytes@, usize::BITS) is None,
        },
{
    let mut reader = serde_ply::PlyChunkedReader::new();
    reader.buffer_mut().extend_from_slice(bytes);
    reader.header().map(|h| Header {
        comments: h.comments.clone(),
        elements: h.elem_defs.iter().map(|e| ElementDef {
            name: e.name.clone(),
            count: e.count,
            properties: e.properties.iter().map(|p| p.name.clone()).collect(),
        }).collect(),
    })
}

/// Why an import ends without its splats.
#[derive(Clone, Copy, Debug, PartialEq, Eq, Structural)]
pub enum ImportError {
    /// The file has no whole, valid header.
    MissingHeader,
    /// The elements of the file are not those of a known format.
    UnknownFormat,
    /// The file ended before the rows that its header declares.
    UnexpectedEof,
    /// No splats came out of the file.
    NoSplat,
}

impl ImportError {
    /// The message for the user.
    pub fn message(&self) -> (r: &'static str)
        ensures
            r@ == match *self {
                ImportError::MissingHeader => "missing PLY header"@,
                ImportError::UnknownFormat => "Unknown format"@,
                ImportError::UnexpectedEof => "Unexpected EOF: PLY file ended before its header's declared vertex/row count was reached (the file is truncated or corrupt)"@,
                ImportError::NoSplat => "Couldn't load single splat from ply"@,
            },
    {
        match *self {
            ImportError::MissingHeader => "missing PLY header",
            ImportError::UnknownFormat => "Unknown format",
            ImportError::UnexpectedEof => "Unexpected EOF: PLY file ended before its header's declared vertex/row count was reached (the file is truncated or corrupt)",
            ImportError::NoSplat => "Couldn't load single splat from ply",
        }
    }
}

/// How the splats of a file are stored.
#[derive(Clone, Copy, Debug, PartialEq, Eq, Structural)]
pub enum PlyKind {
    /// One row of full values per splat.
    Plain,
    /// Quantised rows, with the value ranges of every 256 splats in an element
    /// of their own.
    Compressed,
}

/// What a comment says about the vertical axis.
pub enum AxisComment {
    /// Nothing.
    Absent,
    /// It names a coordinate axis.
    Named([Scalar; 3]),
    /// It lists these words, which may be numbers.
    Words(Vec<String>),
}

/// What an [`AxisComment`] holds.
#[verifier::ext_equal]
pub enum AxisView {
    Absent,
    Named(Seq<Scalar>),
    Words(Seq<Seq<char>>),
}

impl View for AxisComment {
    type V = AxisView;

    open spec fn view(&self) -> AxisView {
        match *self {
            AxisComment::Absent => AxisView::Absent,
            AxisComment::Named(v) => AxisView::Named(v@),
            AxisComment::Words(w) => AxisView::Words(texts(w@)),
        }
    }
}

/// What a list of axis comments holds.
pub open spec fn axis_views(axes: Seq<AxisComment>) -> Seq<AxisView> {
    Seq::new(axes.len(), |i: int| axes[i]@)
}

/// Whether `c` separates the numbers of an axis.
pub open spec fn axis_separator(c: char) -> bool {
    c == ',' || whitespace(c) || c == '[' || c == ']'
}

/// `s` cut at every separator: the words that are complete, and the one that
/// is open at the end of `s`.
pub open spec fn word_state(s: Seq<char>) -> (Seq<Seq<char>>, Seq<char>)
    decreases s.len(),
{
    if s.len() == 0 {
        (Seq::empty(), Seq::empty())
    } else {
        let (closed, open) = word_state(s.drop_last());
        if !axis_separator(s.last()) {
            (closed, open.push(s.last()))
        } else if open.len() > 0 {
            (closed.push(open), Seq::empty())
        } else {
            (closed, open)
        }
    }
}

/// The words of `s` between the separators, without empty ones.
pub open spec fn axis_words(s: Seq<char>) -> Seq<Seq<char>> {
    let (closed, open) = word_state(s);
    if open.len() > 0 {
        closed.push(open)
    } else {
        closed
    }
}

/// What follows `prefix` in `low`, trimmed.
pub open spec fn comment_value(low: Seq<char>, prefix: Seq<char>) -> Option<Seq<char>> {
    if prefix.is_prefix_of(low) {
        Some(trimmed(low.skip(prefix.len() as int)))
    } else {
        None
    }
}

/// What a comment in lower case says about the vertical axis: the letter of a
/// coordinate axis, where `y` and `z` point down, or a list of words.
pub open spec fn axis_in(low: Seq<char>) -> AxisView {
    let zero = Scalar { bits: ZERO_BITS };
    let one = Scalar { bits: ONE_BITS };
    let minus_one = Scalar { bits: MINUS_ONE_BITS };
    match comment_value(low, "vertical axis: "@) {
        Some(value) => if value == "x"@ {
            AxisView::Named(seq![one, zero, zero])
        } else if value == "y"@ {
            AxisView::Named(seq![zero, minus_one, zero])
        } else if value == "z"@ {
            AxisView::Named(seq![zero, zero, minus_one])
        } else {
            AxisView::Words(axis_words(value))
        },
        None => AxisView::Absent,
    }
}

/// What a comment says about the vertical axis.
pub open spec fn axis_of(comment: Seq<char>) -> AxisView {
    axis_in(lowercase(comment))
}

/// The render mode that a comment asks for.
pub open spec fn mode_of(comment: Seq<char>) -> Option<SplatRenderMode> {
    mode_in(lowercase(comment))
}

/// The render mode that a comment in lower case asks for.
pub open spec fn mode_in(low: Seq<char>) -> Option<SplatRenderMode> {
    match comment_value(low, "splatrendermode: "@) {
        Some(value) => if value == "mip"@ {
            Some(SplatRenderMode::Mip)
        } else if value == "default"@ {
            Some(SplatRenderMode::Default)
        } else {
            None
        },
        None => None,
    }
}

/// The render mode of the last comment that asks for one.
pub open spec fn last_mode(comments: Seq<Seq<char>>) -> Option<SplatRenderMode>
    decreases comments.len(),
{
    if comments.len() == 0 {
        None
    } else if mode_of(comments.last()) is Some {
        mode_of(comments.last())
    } else {
        last_mode(comments.drop_last())
    }
}

/// The values that are there, in their order.
pub open spec fn present(parsed: Seq<Option<Scalar>>) -> Seq<Scalar>
    decreases parsed.len(),
{
    if parsed.len() == 0 {
        Seq::empty()
    } else {
        match parsed.last() {
            Some(x) => present(parsed.drop_last()).push(x),
            None => present(parsed.drop_last()),
        }
    }
}

/// The axis of a comment, where `parsed` holds the numbers that its words are:
/// three numbers make an axis, whatever words stand between them.
pub open spec fn axis_value(axis: AxisView, parsed: Seq<Option<Scalar>>) -> Option<Seq<Scalar>> {
    match axis {
        AxisView::Absent => None,
        AxisView::Named(v) => Some(v),
        AxisView::Words(_) => if present(parsed).len() == 3 {
            Some(present(parsed))
        } else {
            None
        },
    }
}

/// The axis of the last comment that has one.
pub open spec fn last_axis(axes: Seq<AxisView>, parsed: Seq<Seq<Option<Scalar>>>) -> Option<
    Seq<Scalar>,
>
    decreases axes.len(),
{
    if axes.len() == 0 {
        None
    } else {
        match axis_value(axes.last(), parsed[axes.len() - 1]) {
            Some(v) => Some(v),
            None => last_axis(axes.drop_last(), parsed),
        }
    }
}

/// The index of the first element with that name.
pub open spec fn first_named(elements: Seq<ElementView>, name: Seq<char>, i: int) -> bool {
    &&& 0 <= i < elements.len()
    &&& elements[i].name == name
    &&& forall|k: int| 0 <= k < i ==> (#[trigger] elements[k]).name != name
}

/// Whether some element has that name.
pub open spec fn has_element(elements: Seq<ElementView>, name: Seq<char>) -> bool {
    exists|i: int| 0 <= i < elements.len() && (#[trigger] elements[i]).name == name
}

/// How the splats of a file are stored, `None` where it has no vertices.
pub open spec fn kind_of(h: HeaderView) -> Option<PlyKind> {
    if !has_element(h.elements, "vertex"@) {
        None
    } else if h.elements[0].name == "chunk"@ {
        Some(PlyKind::Compressed)
    } else {
        Some(PlyKind::Plain)
    }
}

/// What the header of a file says about its import.
pub struct ImportPlan {
    pub kind: PlyKind,
    /// Keep every `subsample`th splat.
    pub subsample: usize,
    pub render_mode: Option<SplatRenderMode>,
    /// What each comment says about the vertical axis.
    pub axes: Vec<AxisComment>,
    pub header: Header,
}

impl ImportPlan {
    /// The plan is that of the header `h`.
    pub open spec fn follows(&self, h: HeaderView, subsample_points: Option<u32>) -> bool {
        &&& kind_of(h) == Some(self.kind)
        &&& self.subsample == (match subsample_points {
            Some(n) => n,
            None => 1,
        })
        &&& self.render_mode == last_mode(h.comments)
        &&& axis_views(self.axes@) == Seq::new(h.comments.len(), |i: int| axis_of(h.comments[i]))
        &&& self.header@ == h
    }
}

/// What follows `prefix` in `low`, trimmed.
fn value_after(low: &str, prefix: &str) -> (r: Option<String>)
    ensures
        match r {
            Some(v) => comment_value(low@, prefix@) == Some(v@),
            None => comment_value(low@, prefix@) is None,
        },
{
    match strip_prefix(low, prefix) {
        Some(rest) => {
            assert(prefix@.is_prefix_of(low@));
            assert(low@.skip(prefix@.len() as int) =~= rest@);
            Some(trim(rest.as_str()))
        },
        None => None,
    }
}

/// The words of `s` between the separators.
fn split_words(s: &str) -> (r: Vec<String>)
    ensures
        texts(r@) == axis_words(s@),
{
    let chars = chars_of(s);
    let mut r: Vec<String> = Vec::new();
    let mut open: String = String::new();
    let mut i: usize = 0;
    while i < chars.len()
        invariant
            i <= chars@.len(),
            chars@ == s@,
            texts(r@) == word_state(s@.take(i as int)).0,
            open@ == word_state(s@.take(i as int)).1,
        decreases chars@.len() - i,
    {
        let c = chars[i];
        let ghost before = texts(r@);
        assert(s@.take(i + 1).drop_last() == s@.take(i as int));
        if !(c == ',' || is_whitespace(c) || c == '[' || c == ']') {
            open.push(c);
        } else if !open.as_str().is_empty() {
            r.push(open);
            assert(texts(r@) =~= before.push(open@));
            open = String::new();
        }
        i += 1;
    }
    assert(s@.take(i as int) == s@);
    if !open.as_str().is_empty() {
        let ghost before = texts(r@);
        r.push(open);
        assert(texts(r@) =~= before.push(open@));
    }
    r
}

/// What a comment says about the vertical axis.
pub fn axis_comment(comment: &str) -> (r: AxisComment)
    ensures
        r@ == axis_of(comment@),
        ascii(comment@) ==> r@ == axis_in(ascii_lowercase(comment@)),
{
    axis_setting(to_lowercase(comment).as_str())
}

/// What a comment in lower case says about the vertical axis.
pub fn axis_setting(low: &str) -> (r: AxisComment)
    ensures
        r@ == axis_in(low@),
{
    let zero = Scalar::zero();
    let minus_one = Scalar { bits: MINUS_ONE_BITS };
    match value_after(low, "vertical axis: ") {
        Some(value) => {
            if same(value.as_str(), "x") {
                let v = [Scalar::one(), zero, zero];
                assert(v@ =~= seq![Scalar { bits: ONE_BITS }, zero, zero]);
                AxisComment::Named(v)
            } else if same(value.as_str(), "y") {
                let v = [zero, minus_one, zero];
                assert(v@ =~= seq![zero, minus_one, zero]);
                AxisComment::Named(v)
            } else if same(value.as_str(), "z") {
                let v = [zero, zero, minus_one];
                assert(v@ =~= seq![zero, zero, minus_one]);
                AxisComment::Named(v)
            } else {
                AxisComment::Words(split_words(value.as_str()))
            }
        },
        None => AxisComment::Absent,
    }
}

/// The render mode that a comment asks for.
pub fn render_mode_comment(comment: &str) -> (r: Option<SplatRenderMode>)
    ensures
        r == mode_of(comment@),
        ascii(comment@) ==> r == mode_in(ascii_lowercase(comment@)),
{
    render_mode_setting(to_lowercase(comment).as_str())
}

/// The render mode that a comment in lower case asks for.
pub fn render_mode_setting(low: &str) -> (r: Option<SplatRenderMode>)
    ensures
        r == mode_in(low@),
{
    match value_after(low, "splatrendermode: ") {
        Some(value) => {
            if same(value.as_str(), "mip") {
                Some(SplatRenderMode::Mip)
            } else if same(value.as_str(), "default") {
                Some(SplatRenderMode::Default)
            } else {
                None
            }
        },
        None => None,
    }
}

/// The values that are there, in their order.
fn collect_present(parsed: &Vec<Option<Scalar>>) -> (r: Vec<Scalar>)
    ensures
        r@ == present(parsed@),
{
    let mut r: Vec<Scalar> = Vec::new();
    let mut i: usize = 0;
    while i < parsed.len()
        invariant
            i <= parsed@.len(),
            r@ == present(parsed@.take(i as int)),
        decreases parsed@.len() - i,
    {
        assert(parsed@.take(i + 1).drop_last() == parsed@.take(i as int));
        if let Some(x) = parsed[i] {
            r.push(x);
        }
        i += 1;
    }
    assert(parsed@.take(i as int) == parsed@);
    r
}

/// The axis of the last comment that has one; `parsed` holds for each comment
/// the numbers that its words are, `None` for a word that is none.
pub fn up_axis(axes: &Vec<AxisComment>, parsed: &Vec<Vec<Option<Scalar>>>) -> (r: Option<
    [Scalar; 3],
>)
    requires
        parsed@.len() == axes@.len(),
    ensures
        match r {
            Some(v) => last_axis(
                axis_views(axes@),
                Seq::new(parsed@.len(), |i: int| parsed@[i]@),
            ) == Some(v@),
            None => last_axis(
                axis_views(axes@),
                Seq::new(parsed@.len(), |i: int| parsed@[i]@),
            ) is None,
        },
{
    let ghost views = axis_views(axes@);
    let ghost numbers = Seq::new(parsed@.len(), |i: int| parsed@[i]@);
    let mut i: usize = axes.len();
    assert(views.take(i as int) == views);
    while i > 0
        invariant
            i <= axes@.len() == parsed@.len(),
            views == axis_views(axes@),
            numbers == Seq::new(parsed@.len(), |i: int| parsed@[i]@),
            last_axis(views, numbers) == last_axis(views.take(i as int), numbers),
        decreases i,
    {
        i -= 1;
        assert(views.take(i + 1).last() == axes@[i as int]@);
        assert(views.take(i + 1).drop_last() == views.take(i as int));
        assert(numbers[i as int] == parsed@[i as int]@);
        match &axes[i] {
            AxisComment::Absent => {},
            AxisComment::Named(v) => {
                return Some(*v);
            },
            AxisComment::Words(_) => {
                let found = collect_present(&parsed[i]);
                if found.len() == 3 {
                    let v = [found[0], found[1], found[2]];
                    assert(v@ =~= found@);
                    return Some(v);
                }
            },
        }
    }
    None
}

impl Header {
    /// The index of the first element with that name.
    pub fn find(&self, name: &str) -> (r: Option<usize>)
        ensures
            match r {
                Some(i) => first_named(self@.elements, name@, i as int),
                None => !has_element(self@.elements, name@),
            },
    {
        let mut i: usize = 0;
        while i < self.elements.len()
            invariant
                i <= self.elements@.len(),
                forall|k: int| 0 <= k < i ==> (#[trigger] self@.elements[k]).name != name@,
            decreases self.elements@.len() - i,
        {
            assert(self@.elements[i as int].name == self.elements@[i as int].name@);
            if same(self.elements[i].name.as_str(), name) {
                return Some(i);
            }
            i += 1;
        }
        None
    }
}

/// What the header says about the import; an error where the file has no
/// vertices.
pub fn plan_import(header: Header, subsample_points: Option<u32>) -> (r: Result<
    ImportPlan,
    ImportError,
>)
    ensures
        match r {
            Ok(plan) => plan.follows(header@, subsample_points),
            Err(e) => e == ImportError::UnknownFormat && kind_of(header@) is None,
        },
{
    let mut axes: Vec<AxisComment> = Vec::new();
    let mut render_mode: Option<SplatRenderMode> = None;
    let ghost h = header@;
    let mut i: usize = 0;
    while i < header.comments.len()
        invariant
            i <= header.comments@.len(),
            h == header@,
            render_mode == last_mode(h.comments.take(i as int)),
            axis_views(axes@) == Seq::new(i as nat, |k: int| axis_of(h.comments[k])),
        decreases header.comments@.len() - i,
    {
        let ghost before = axis_views(axes@);
        assert(h.comments.take(i + 1).drop_last() == h.comments.take(i as int));
        assert(h.comments[i as int] == header.comments@[i as int]@);
        let comment = header.comments[i].as_str();
        axes.push(axis_comment(comment));
        assert(axis_views(axes@) =~= before.push(axis_of(comment@)));
        match render_mode_comment(comment) {
            Some(mode) => {
                render_mode = Some(mode);
            },
            None => {},
        }
        i += 1;
    }
    assert(h.comments.take(i as int) == h.comments);
    let subsample: usize = match subsample_points {
        Some(n) => n as usize,
        None => 1,
    };
    match header.find("vertex") {
        None => Err(ImportError::UnknownFormat),
        Some(v) => {
            assert(h.elements[v as int].name == "vertex"@);
            assert(h.elements[0].name == header.elements@[0].name@);
            let kind = if same(header.elements[0].name.as_str(), "chunk") {
                PlyKind::Compressed
            } else {
                PlyKind::Plain
            };
            Ok(ImportPlan { kind, subsample, render_mode, axes, header })
        },
    }
}

/// What the start of a file says about its import.
pub fn start_import(bytes: &Vec<u8>, subsample_points: Option<u32>) -> (r: Result<
    ImportPlan,
    ImportError,
>)
    ensures
        match r {
            Ok(plan) => ply_header(bytes@, usize::BITS) matches Some(h) && plan.follows(h, subsample_points),
            Err(ImportError::MissingHeader) => ply_header(bytes@, usize::BITS) is None,
            Err(e) => e == ImportError::UnknownFormat && (ply_header(bytes@, usize::BITS) matches Some(h)
                && kind_of(h) is None),
        },
{
    match read_header(bytes) {
        Some(header) => plan_import(header, subsample_points),
        None => Err(ImportError::MissingHeader),
    }
}

/// Of several comments that ask for a render mode the last one counts.
pub proof fn law_last_render_mode_counts(comments: Seq<Seq<char>>, i: int)
    requires
        0 <= i < comments.len(),
        mode_of(comments[i]) is Some,
        forall|k: int| i < k < comments.len() ==> mode_of(#[trigger] comments[k]) is None,
    ensures
        last_mode(comments) == mode_of(comments[i]),
    decreases comments.len(),
{
    if i < comments.len() - 1 {
        let fewer = comments.drop_last();
        assert(mode_of(comments[comments.len() - 1]) is None);
        assert forall|k: int| i < k < fewer.len() implies mode_of(#[trigger] fewer[k]) is None by {
            assert(fewer[k] == comments[k]);
        }
        law_last_render_mode_counts(fewer, i);
    }
}

/// Of several comments that have an axis the last one counts.
pub proof fn law_last_axis_counts(
    axes: Seq<AxisView>,
    parsed: Seq<Seq<Option<Scalar>>>,
    i: int,
)
    requires
        0 <= i < axes.len(),
        axis_value(axes[i], parsed[i]) is Some,
        forall|k: int|
            i < k < axes.len() ==> axis_value(#[trigger] axes[k], parsed[k]) is None,
    ensures
        last_axis(axes, parsed) == axis_value(axes[i], parsed[i]),
    decreases axes.len(),
{
    if i < axes.len() - 1 {
        let fewer = axes.drop_last();
        assert(axis_value(axes[axes.len() - 1], parsed[axes.len() - 1]) is None);
        assert forall|k: int| i < k < fewer.len() implies axis_value(
            #[trigger] fewer[k],
            parsed[k],
        ) is None by {
            assert(fewer[k] == axes[k]);
        }
        law_last_axis_counts(fewer, parsed, i);
    }
}

/// A comment that starts with a prefix has what follows as its value, trimmed;
/// one that does not has none.
pub proof fn law_comment_value_follows_its_prefix(
    prefix: Seq<char>,
    value: Seq<char>,
    low: Seq<char>,
)
    ensures
        comment_value(prefix + value, prefix) == Some(trimmed(value)),
        low.len() < prefix.len() || low.take(prefix.len() as int) != prefix ==> comment_value(
            low,
            prefix,
        ) is None,
{
    assert((prefix + value).subrange(0, prefix.len() as int) =~= prefix);
    assert((prefix + value).skip(prefix.len() as int) =~= value);
}

/// The vertical axis named by a letter, with any whitespace around it: `x`
/// points up, `y` and `z` point down. Any other value is a list of words.
pub proof fn law_axis_by_letter(left: Seq<char>, right: Seq<char>, value: Seq<char>)
    requires
        forall|k: int| 0 <= k < left.len() ==> whitespace(#[trigger] left[k]),
        forall|k: int| 0 <= k < right.len() ==> whitespace(#[trigger] right[k]),
    ensures
        ({
            let zero = Scalar { bits: 0 };
            let one = Scalar { bits: 0x3f80_0000 };
            let minus_one = Scalar { bits: 0xbf80_0000 };
            &&& axis_in("vertical axis: "@ + (left + "x"@ + right)) == AxisView::Named(
                seq![one, zero, zero],
            )
            &&& axis_in("vertical axis: "@ + (left + "y"@ + right)) == AxisView::Named(
                seq![zero, minus_one, zero],
            )
            &&& axis_in("vertical axis: "@ + (left + "z"@ + right)) == AxisView::Named(
                seq![zero, zero, minus_one],
            )
        }),
        trimmed(value) != "x"@ && trimmed(value) != "y"@ && trimmed(value) != "z"@ ==> axis_in(
            "vertical axis: "@ + value,
        ) == AxisView::Words(axis_words(trimmed(value))),
{
    reveal_strlit("x");
    reveal_strlit("y");
    reveal_strlit("z");
    assert("x"@[0] != "y"@[0] && "x"@[0] != "z"@[0] && "y"@[0] != "z"@[0]);
    law_padding_is_trimmed(left, "x"@, right);
    law_padding_is_trimmed(left, "y"@, right);
    law_padding_is_trimmed(left, "z"@, right);
    let prefix = "vertical axis: "@;
    law_comment_value_follows_its_prefix(prefix, left + "x"@ + right, prefix);
    law_comment_value_follows_its_prefix(prefix, left + "y"@ + right, prefix);
    law_comment_value_follows_its_prefix(prefix, left + "z"@ + right, prefix);
    law_comment_value_follows_its_prefix(prefix, value, prefix);
}

/// A comment of another kind says nothing about the vertical axis.
pub proof fn law_other_comments_have_no_axis(low: Seq<char>)
    ensures
        axis_in(low) == AxisView::Absent <==> !"vertical axis: "@.is_prefix_of(low),
{
}

/// The render mode named in a comment, with any whitespace around it; any other
/// value and any other comment ask for none.
pub proof fn law_render_mode_by_name(
    left: Seq<char>,
    right: Seq<char>,
    value: Seq<char>,
    low: Seq<char>,
)
    requires
        forall|k: int| 0 <= k < left.len() ==> whitespace(#[trigger] left[k]),
        forall|k: int| 0 <= k < right.len() ==> whitespace(#[trigger] right[k]),
    ensures
        mode_in("splatrendermode: "@ + (left + "mip"@ + right)) == Some(SplatRenderMode::Mip),
        mode_in("splatrendermode: "@ + (left + "default"@ + right)) == Some(
            SplatRenderMode::Default,
        ),
        trimmed(value) != "mip"@ && trimmed(value) != "default"@ ==> mode_in(
            "splatrendermode: "@ + value,
        ) is None,
        !"splatrendermode: "@.is_prefix_of(low) ==> mode_in(low) is None,
{
    reveal_strlit("mip");
    reveal_strlit("default");
    assert("mip"@.len() != "default"@.len());
    law_padding_is_trimmed(left, "mip"@, right);
    law_padding_is_trimmed(left, "default"@, right);
    let prefix = "splatrendermode: "@;
    law_comment_value_follows_its_prefix(prefix, left + "mip"@ + right, prefix);
    law_comment_value_follows_its_prefix(prefix, left + "default"@ + right, prefix);
    law_comment_value_follows_its_prefix(prefix, value, prefix);
}

/// A separator ends a word: the words on its two sides are the words of the
/// whole. Text without separators is one word, and no text none.
pub proof fn law_separators_end_words(a: Seq<char>, c: char, b: Seq<char>)
    requires
        axis_separator(c),
    ensures
        axis_words(a + seq![c] + b) == axis_words(a) + axis_words(b),
        a.len() > 0 && (forall|k: int| 0 <= k < a.len() ==> !axis_separator(#[trigger] a[k]))
            ==> axis_words(a) == seq![a],
        axis_words(Seq::empty()) == Seq::<Seq<char>>::empty(),
{
    lemma_words_after_separator(a, c, b);
    let s = a + seq![c] + b;
    assert(axis_words(s) =~= axis_words(a) + axis_words(b));
    if a.len() > 0 && (forall|k: int| 0 <= k < a.len() ==> !axis_separator(#[trigger] a[k])) {
        lemma_one_word(a);
        assert(axis_words(a) =~= seq![a]);
    }
}

proof fn lemma_words_after_separator(a: Seq<char>, c: char, b: Seq<char>)
    requires
        axis_separator(c),
    ensures
        word_state(a + seq![c] + b).0 =~= axis_words(a) + word_state(b).0,
        word_state(a + seq![c] + b).1 =~= word_state(b).1,
    decreases b.len(),
{
    let s = a + seq![c] + b;
    if b.len() == 0 {
        assert(s.drop_last() =~= a);
        assert(s.last() == c);
    } else {
        lemma_words_after_separator(a, c, b.drop_last());
        assert(s.drop_last() =~= a + seq![c] + b.drop_last());
        assert(s.last() == b.last());
    }
}

proof fn lemma_one_word(a: Seq<char>)
    requires
        forall|k: int| 0 <= k < a.len() ==> !axis_separator(#[trigger] a[k]),
    ensures
        word_state(a) == (Seq::<Seq<char>>::empty(), a),
    decreases a.len(),
{
    if a.len() == 0 {
        assert(a =~= Seq::empty());
    } else {
        let t = a.drop_last();
        assert forall|k: int| 0 <= k < t.len() implies !axis_separator(#[trigger] t[k]) by {
            assert(t[k] == a[k]);
        }
        lemma_one_word(t);
        assert(!axis_separator(a[a.len() - 1]));
        assert(t.push(a.last()) =~= a);
    }
}

/// Commas, brackets and whitespace separate the numbers of an axis.
pub proof fn law_axis_separators(c: char)
    ensures
        axis_separator(c) <==> c as int == 44 || c as int == 91 || c as int == 93 || whitespace(c),
{
}

/// The numbers among the words are kept in their order, one by one.
pub proof fn law_numbers_are_kept_in_order(parsed: Seq<Option<Scalar>>, x: Scalar)
    ensures
        present(Seq::empty()) == Seq::<Scalar>::empty(),
        present(parsed.push(Some(x))) == present(parsed).push(x),
        present(parsed.push(None)) == present(parsed),
{
    assert(parsed.push(Some(x)).drop_last() =~= parsed);
    assert(parsed.push(None).drop_last() =~= parsed);
}

/// Three numbers make an axis, and no other number of them does; a named axis
/// needs none, and a comment of another kind has no axis whatever is parsed.
pub proof fn law_axis_takes_three_numbers(
    words: Seq<Seq<char>>,
    named: Seq<Scalar>,
    x: Scalar,
    y: Scalar,
    z: Scalar,
    parsed: Seq<Option<Scalar>>,
)
    ensures
        axis_value(AxisView::Words(words), seq![Some(x), Some(y), Some(z)]) == Some(
            seq![x, y, z],
        ),
        axis_value(AxisView::Words(words), parsed) is Some <==> present(parsed).len() == 3,
        axis_value(AxisView::Words(words), parsed) matches Some(v) ==> v == present(parsed),
        axis_value(AxisView::Named(named), parsed) == Some(named),
        axis_value(AxisView::Absent, parsed) is None,
{
    let three = seq![Some(x), Some(y), Some(z)];
    let none = Seq::<Option<Scalar>>::empty();
    law_numbers_are_kept_in_order(none, x);
    law_numbers_are_kept_in_order(none.push(Some(x)), y);
    law_numbers_are_kept_in_order(none.push(Some(x)).push(Some(y)), z);
    assert(three =~= none.push(Some(x)).push(Some(y)).push(Some(z)));
    assert(present(three) =~= seq![x, y, z]);
}

/// Without a comment that asks for a render mode there is none, and a comment
/// that asks for one overrides all before it.
pub proof fn law_render_mode_comment_by_comment(comments: Seq<Seq<char>>, comment: Seq<char>)
    ensures
        last_mode(Seq::empty()) is None,
        mode_of(comment) is Some ==> last_mode(comments.push(comment)) == mode_of(comment),
        mode_of(comment) is None ==> last_mode(comments.push(comment)) == last_mode(comments),
{
    assert(comments.push(comment).drop_last() =~= comments);
}

/// Without a comment that has an axis there is none.
pub proof fn law_no_axis_without_a_comment(
    axes: Seq<AxisView>,
    parsed: Seq<Seq<Option<Scalar>>>,
)
    requires
        forall|k: int| 0 <= k < axes.len() ==> axis_value(#[trigger] axes[k], parsed[k]) is None,
    ensures
        last_axis(axes, parsed) is None,
    decreases axes.len(),
{
    if axes.len() > 0 {
        let fewer = axes.drop_last();
        assert(axis_value(axes[axes.len() - 1], parsed[axes.len() - 1]) is None);
        assert forall|k: int| 0 <= k < fewer.len() implies axis_value(
            #[trigger] fewer[k],
            parsed[k],
        ) is None by {
            assert(fewer[k] == axes[k]);
        }
        law_no_axis_without_a_comment(fewer, parsed);
    }
}

/// A file without an element of vertices has no known format; with one it is
/// compressed exactly where its very first element holds the chunks.
pub proof fn law_format_by_elements(h: HeaderView)
    ensures
        kind_of(h) is None <==> forall|i: int|
            0 <= i < h.elements.len() ==> (#[trigger] h.elements[i]).name != "vertex"@,
        kind_of(h) == Some(PlyKind::Compressed) <==> h.elements.len() > 0 && h.elements[0].name
            == "chunk"@ && exists|i: int|
            0 <= i < h.elements.len() && (#[trigger] h.elements[i]).name == "vertex"@,
{
    if kind_of(h) is None {
        assert(!has_element(h.elements, "vertex"@));
    }
}

/// A plan keeps every splat unless it is told to keep fewer, and reads every
/// comment.
pub proof fn law_plan_by_part(plan: ImportPlan, h: HeaderView, n: u32, i: int)
    ensures
        plan.follows(h, Some(n)) ==> plan.subsample == n,
        plan.follows(h, None) ==> plan.subsample == 1,
        plan.follows(h, None) || plan.follows(h, Some(n)) ==> {
            &&& plan.header@ == h
            &&& kind_of(h) == Some(plan.kind)
            &&& plan.render_mode == last_mode(h.comments)
            &&& plan.axes@.len() == h.comments.len()
            &&& 0 <= i < h.comments.len() ==> plan.axes@[i]@ == axis_in(lowercase(h.comments[i]))
        },
        mode_of(h.comments[i]) == mode_in(lowercase(h.comments[i])),
{
    if plan.follows(h, None) || plan.follows(h, Some(n)) {
        let views = axis_views(plan.axes@);
        let said = Seq::new(h.comments.len(), |i: int| axis_of(h.comments[i]));
        assert(views.len() == said.len());
        if 0 <= i < h.comments.len() {
            assert(views[i] == said[i]);
        }
    }
}

/// The first element of a name is the only first one, and there is one exactly
/// where some element has the name.
pub proof fn law_first_element_is_unique(
    elements: Seq<ElementView>,
    name: Seq<char>,
    i: int,
    j: int,
)
    requires
        first_named(elements, name, i),
    ensures
        has_element(elements, name),
        elements[i].name == name,
        first_named(elements, name, j) ==> i == j,
        0 <= j < elements.len() && elements[j].name == name ==> i <= j,
{
}

/// An element and a header hold what their parts hold.
pub proof fn law_header_by_part(header: Header, element: ElementDef, i: int)
    ensures
        element@.name == element.name@,
        element@.count == element.count,
        element@.properties.len() == element.properties@.len(),
        0 <= i < element.properties@.len() ==> element@.properties[i] == element.properties@[i]@,
        header@.comments.len() == header.comments@.len(),
        0 <= i < header.comments@.len() ==> header@.comments[i] == header.comments@[i]@,
        header@.elements.len() == header.elements@.len(),
        0 <= i < header.elements@.len() ==> header@.elements[i] == header.elements@[i]@,
{
}

/// An axis comment holds its own vector or words.
pub proof fn law_axis_comments_by_kind(axes: Seq<AxisComment>, i: int)
    requires
        0 <= i < axes.len(),
    ensures
        axis_views(axes).len() == axes.len(),
        axes[i] is Absent ==> axis_views(axes)[i] == AxisView::Absent,
        axes[i] matches AxisComment::Named(v) ==> axis_views(axes)[i] == AxisView::Named(v@),
        axes[i] matches AxisComment::Words(w) ==> axis_views(axes)[i] == AxisView::Words(
            texts(w@),
        ),
{
}

/// A header is refused exactly where no element holds vertices.
pub proof fn law_only_files_without_vertices_are_refused(
    header: Header,
    subsample_points: Option<u32>,
    r: Result<ImportPlan, ImportError>,
)
    requires
        call_ensures(plan_import, (header, subsample_points), r),
    ensures
        r is Err <==> forall|i: int|
            0 <= i < header.elements@.len() ==> (#[trigger] header.elements@[i]).name@
                != "vertex"@,
        r matches Err(e) ==> e == ImportError::UnknownFormat,
        r matches Ok(plan) ==> (plan.kind == PlyKind::Compressed <==> header.elements@[0].name@
            == "chunk"@),
{
    law_format_by_elements(header@);
    let elements = header@.elements;
    if forall|i: int|
        0 <= i < header.elements@.len() ==> (#[trigger] header.elements@[i]).name@ != "vertex"@ {
        assert forall|i: int| 0 <= i < elements.len() implies (#[trigger] elements[i]).name
            != "vertex"@ by {
            assert(elements[i].name == header.elements@[i].name@);
        }
    } else {
        let i = choose|i: int|
            0 <= i < header.elements@.len() && (#[trigger] header.elements@[i]).name@ == "vertex"@;
        assert(elements[i].name == "vertex"@);
        assert(elements[0].name == header.elements@[0].name@);
    }
}

} // verus!
