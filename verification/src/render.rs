//! Rendering splats against a list of cameras.

use vstd::prelude::*;
use vstd::string::*;

use crate::scalar::{Scalar, ONE_BITS, ZERO_BITS};
use crate::text::{
    comma_fields, decimal, law_commas_separate_fields, owned, push_decimal, split_commas, texts, trim,
    trimmed,
};

verus! {

/// Channels of a plain render: colour and alpha.
pub const PLAIN_CHANNELS: usize = 4;

/// Channels of a render with a feature: colour, alpha and three more.
pub const FEATURE_CHANNELS: usize = 7;

/// The three numerals of a colour `"r,g,b"`, trimmed; a message where there are
/// not three.
pub fn vec3_fields(s: &str) -> (r: Result<[String; 3], String>)
    ensures
        match r {
            Ok(f) => {
                &&& comma_fields(s@).len() == 3
                &&& forall|i: int| 0 <= i < 3 ==> (#[trigger] f@[i])@ == trimmed(comma_fields(s@)[i])
            },
            Err(message) => comma_fields(s@).len() != 3 && message@ == "expected \"r,g,b\", got \""@
                + s@ + "\""@,
        },
{
    let parts = split_commas(s);
    assert(texts(parts@).len() == parts@.len());
    if parts.len() != 3 {
        let mut message: String = owned("expected \"r,g,b\", got \"");
        message.append(s);
        message.append("\"");
        return Err(message);
    }
    assert(forall|i: int| 0 <= i < 3 ==> (#[trigger] texts(parts@)[i]) == parts@[i]@);
    Ok([trim(parts[0].as_str()), trim(parts[1].as_str()), trim(parts[2].as_str())])
}

/// The colour that three parsed numerals make, or the first of their errors.
pub fn vec3_value(
    r: Result<Scalar, String>,
    g: Result<Scalar, String>,
    b: Result<Scalar, String>,
) -> (v: Result<[Scalar; 3], String>)
    ensures
        match v {
            Ok(v) => r is Ok && g is Ok && b is Ok && v@ == seq![r->Ok_0, g->Ok_0, b->Ok_0],
            Err(e) => if r is Err {
                e@ == r->Err_0@
            } else if g is Err {
                e@ == g->Err_0@
            } else {
                b is Err && e@ == b->Err_0@
            },
        },
{
    match (r, g, b) {
        (Ok(r), Ok(g), Ok(b)) => {
            let v = [r, g, b];
            assert(v@ =~= seq![r, g, b]);
            Ok(v)
        },
        (Err(e), _, _) => Err(e),
        (_, Err(e), _) => Err(e),
        (_, _, Err(e)) => Err(e),
    }
}

/// Entry of a matrix that is given row by row.
pub open spec fn entry(m: [[Scalar; 3]; 3], row: int, col: int) -> Scalar {
    m@[row]@[col]
}

/// `columns` are the columns of `rotation`, the second and the third turned
/// around.
pub open spec fn turned(rotation: [[Scalar; 3]; 3], columns: [[Scalar; 3]; 3]) -> bool {
    forall|row: int|
        0 <= row < 3 ==> {
            &&& #[trigger] entry(columns, 0, row) == entry(rotation, row, 0)
            &&& entry(columns, 1, row) == entry(rotation, row, 1).negated()
            &&& entry(columns, 2, row) == entry(rotation, row, 2).negated()
        }
}

/// The columns of a camera-to-world rotation whose Y and Z axes are turned
/// around, from the rows of the rotation. It takes a camera that looks down -Z
/// with Y up to one that looks down +Z with Y down, and back.
pub fn camera_columns(rotation: &[[Scalar; 3]; 3]) -> (columns: [[Scalar; 3]; 3])
    ensures
        turned(*rotation, columns),
{
    let r = rotation;
    [
        [r[0][0], r[1][0], r[2][0]],
        [r[0][1].neg(), r[1][1].neg(), r[2][1].neg()],
        [r[0][2].neg(), r[1][2].neg(), r[2][2].neg()],
    ]
}

/// A render with an unexpected number of channels.
#[derive(Clone, Copy, Debug, PartialEq, Eq, Structural)]
pub struct ChannelError {
    /// A feature was asked for.
    pub features: bool,
    pub channels: usize,
}

impl ChannelError {
    /// The message for the user.
    pub fn message(&self) -> (r: String)
        ensures
            r@ == (if self.features {
                "expected an RGBA+feature render, got "@
            } else {
                "expected an RGBA render, got "@
            }) + decimal(self.channels as nat) + " channels"@,
    {
        let mut r: String = if self.features {
            owned("expected an RGBA+feature render, got ")
        } else {
            owned("expected an RGBA render, got ")
        };
        push_decimal(&mut r, self.channels as u64);
        r.append(" channels");
        r
    }
}

/// An error where a render does not have the channels that were asked for.
pub fn check_channels(features: bool, channels: usize) -> (r: Result<(), ChannelError>)
    ensures
        r == if channels == (if features {
            FEATURE_CHANNELS
        } else {
            PLAIN_CHANNELS
        }) {
            Ok(())
        } else {
            Err(ChannelError { features, channels })
        },
{
    let expected: usize = if features {
        FEATURE_CHANNELS
    } else {
        PLAIN_CHANNELS
    };
    if channels == expected {
        Ok(())
    } else {
        Err(ChannelError { features, channels })
    }
}

/// A pixel of a render with confidence.
#[derive(Clone, Copy, Debug, PartialEq, Eq)]
pub struct ConfidentPixel {
    /// Colour over the cull colour.
    pub rgb: [Scalar; 3],
    /// Confidence between zero and one.
    pub confidence: Scalar,
}

impl ConfidentPixel {
    /// The pixel is pixel `i` of the render: its first three channels, and the
    /// first channel of its feature.
    pub open spec fn is_pixel(self, data: Seq<Scalar>, i: int) -> bool {
        &&& self.rgb@ == data.subrange(7 * i, 7 * i + 3)
        &&& self.confidence == data[7 * i + 4].clamped(
            Scalar { bits: ZERO_BITS },
            Scalar { bits: ONE_BITS },
        )
    }
}

/// The whole pixels of a render with a feature.
pub fn confident_pixels(data: &Vec<Scalar>) -> (r: Vec<ConfidentPixel>)
    ensures
        r@.len() == data@.len() / 7,
        forall|i: int| 0 <= i < r@.len() ==> (#[trigger] r@[i]).is_pixel(data@, i),
        forall|i: int|
            #![trigger r@[i]]
            0 <= i < r@.len() ==> {
                let value = data@[7 * i + 4];
                let zero = Scalar { bits: 0 };
                let one = Scalar { bits: 0x3f80_0000 };
                &&& zero.at_most(value) && value.at_most(one) ==> r@[i].confidence == value
                &&& value.below(zero) ==> r@[i].confidence == zero
                &&& one.below(value) ==> r@[i].confidence == one
                &&& value.nan() ==> r@[i].confidence == value
            },
{
    let n: usize = data.len() / FEATURE_CHANNELS;
    let len: usize = data.len();
    let mut r: Vec<ConfidentPixel> = Vec::new();
    let mut i: usize = 0;
    while i < n
        invariant
            i <= n,
            len == data@.len(),
            n == len / 7,
            r@.len() == i,
            forall|k: int| 0 <= k < i ==> (#[trigger] r@[k]).is_pixel(data@, k),
        decreases n - i,
    {
        let at: usize = 7 * i;
        let rgb = [data[at], data[at + 1], data[at + 2]];
        assert(rgb@ =~= data@.subrange(7 * i, 7 * i + 3));
        r.push(
            ConfidentPixel { rgb, confidence: data[at + 4].clamp(Scalar::zero(), Scalar::one()) },
        );
        i += 1;
    }
    r
}

/// How much of a pixel with that confidence is kept.
pub open spec fn gate_value(lo: Scalar, hi: Scalar, confidence: Scalar, fade: Scalar) -> Scalar {
    let zero = Scalar { bits: ZERO_BITS };
    let one = Scalar { bits: ONE_BITS };
    if hi.at_most(lo) {
        if lo.at_most(confidence) {
            one
        } else {
            zero
        }
    } else if confidence.at_most(lo) {
        zero
    } else if hi.at_most(confidence) {
        one
    } else {
        fade
    }
}

/// How much of a pixel with that confidence is kept: nothing at or below `lo`,
/// all at or above `hi`, and `fade` between the two. Where `hi` is not above
/// `lo`, the cut at `lo` is a hard one, and keeps a pixel right at `lo`.
pub fn gate(lo: Scalar, hi: Scalar, confidence: Scalar, fade: Scalar) -> (r: Scalar)
    ensures
        r == gate_value(lo, hi, confidence, fade),
{
    if hi.is_at_most(lo) {
        if lo.is_at_most(confidence) {
            Scalar::one()
        } else {
            Scalar::zero()
        }
    } else if confidence.is_at_most(lo) {
        Scalar::zero()
    } else if hi.is_at_most(confidence) {
        Scalar::one()
    } else {
        fade
    }
}

/// The part of a camera's name that its files are called by: its stem if it
/// has one, else the name itself.
pub fn file_stem(stem: &Option<String>, name: &str) -> (r: String)
    ensures
        r@ == (match *stem {
            Some(s) => s@,
            None => name@,
        }),
{
    match stem {
        Some(s) => owned(s.as_str()),
        None => owned(name),
    }
}

/// The file name of a rendered image.
pub fn output_name(stem: &str, format: &str) -> (r: String)
    ensures
        r@ == stem@ + "."@ + format@,
{
    let mut r: String = owned(stem);
    r.append(".");
    r.append(format);
    r
}

/// The file name of the confidence beside a rendered image.
pub fn sidecar_name(stem: &str, format: &str) -> (r: String)
    ensures
        r@ == stem@ + ".conf."@ + format@,
{
    let mut r: String = owned(stem);
    r.append(".conf.");
    r.append(format);
    r
}

/// The message for a camera with a value that is no number.
pub fn invalid_camera(name: &str) -> (r: String)
    ensures
        r@ == "camera '"@ + name@ + "' is invalid (nan/inf)"@,
{
    let mut r: String = owned("camera '");
    r.append(name);
    r.append("' is invalid (nan/inf)");
    r
}

/// Turning the axes of a camera around twice gives back its rotation, bit for
/// bit: `columns` are those of the rotation with the rows `rows`, and `again`
/// those of the rotation whose columns they are.
pub proof fn law_camera_flip_is_an_involution(
    rows: [[Scalar; 3]; 3],
    columns: [[Scalar; 3]; 3],
    flipped: [[Scalar; 3]; 3],
    again: [[Scalar; 3]; 3],
)
    requires
        turned(rows, columns),
        forall|r: int, c: int|
            0 <= r < 3 && 0 <= c < 3 ==> #[trigger] entry(flipped, r, c) == entry(columns, c, r),
        turned(flipped, again),
    ensures
        forall|r: int, c: int|
            0 <= r < 3 && 0 <= c < 3 ==> #[trigger] entry(again, c, r) == entry(rows, r, c),
{
    assert forall|r: int, c: int| 0 <= r < 3 && 0 <= c < 3 implies #[trigger] entry(again, c, r)
        == entry(rows, r, c) by {
        assert(entry(again, 0, r) == entry(flipped, r, 0));
        assert(entry(columns, 0, r) == entry(rows, r, 0));
        assert(c == 0 || c == 1 || c == 2);
        assert(entry(flipped, r, c) == entry(columns, c, r));
    }
}

/// A confidence at or below `lo` culls its pixel, and one at or above `hi`
/// keeps it, whatever the fade.
pub proof fn law_gate_is_closed_below_and_open_above(
    lo: Scalar,
    hi: Scalar,
    confidence: Scalar,
    fade: Scalar,
)
    requires
        lo.below(hi),
    ensures
        confidence.at_most(lo) ==> gate_value(lo, hi, confidence, fade) == (Scalar {
            bits: ZERO_BITS,
        }),
        hi.at_most(confidence) ==> gate_value(lo, hi, confidence, fade) == (Scalar {
            bits: ONE_BITS,
        }),
{
}

/// With equal bounds every pixel is either culled or kept.
pub proof fn law_equal_bounds_cut_hard(at: Scalar, confidence: Scalar, fade: Scalar)
    requires
        !at.nan(),
    ensures
        gate_value(at, at, confidence, fade) == if at.at_most(confidence) {
            Scalar { bits: ONE_BITS }
        } else {
            Scalar { bits: ZERO_BITS }
        },
{
}

/// The confidence of a pixel is read from its fifth channel alone: between zero
/// and one it is that value, bit for bit, below zero it is zero and above one
/// it is one. Its colour is the first three channels.
pub proof fn law_confidence_is_the_fifth_channel(pixel: ConfidentPixel, data: Seq<Scalar>, i: int)
    requires
        0 <= i < data.len() / 7,
        pixel.is_pixel(data, i),
    ensures
        (Scalar { bits: 0 }).at_most(data[7 * i + 4]) && data[7 * i + 4].at_most(
            Scalar { bits: 0x3f80_0000 },
        ) ==> pixel.confidence == data[7 * i + 4],
        data[7 * i + 4].below(Scalar { bits: 0 }) ==> pixel.confidence == (Scalar { bits: 0 }),
        (Scalar { bits: 0x3f80_0000 }).below(data[7 * i + 4]) ==> pixel.confidence == (Scalar {
            bits: 0x3f80_0000,
        }),
        data[7 * i + 4].nan() ==> pixel.confidence == data[7 * i + 4],
        pixel.rgb@[0] == data[7 * i],
        pixel.rgb@[1] == data[7 * i + 1],
        pixel.rgb@[2] == data[7 * i + 2],
{
    let rgb = data.subrange(7 * i, 7 * i + 3);
    assert(rgb[0] == data[7 * i] && rgb[1] == data[7 * i + 1] && rgb[2] == data[7 * i + 2]);
}

/// Two renders that agree in the fifth channel of a pixel have the same
/// confidence there, whatever the other channels hold.
pub proof fn law_confidence_ignores_the_other_channels(
    a: ConfidentPixel,
    b: ConfidentPixel,
    render_a: Seq<Scalar>,
    render_b: Seq<Scalar>,
    i: int,
)
    requires
        0 <= i < render_a.len() / 7,
        i < render_b.len() / 7,
        a.is_pixel(render_a, i),
        b.is_pixel(render_b, i),
        render_a[7 * i + 4] == render_b[7 * i + 4],
    ensures
        a.confidence == b.confidence,
{
}

/// A turned camera has the columns of its rotation: the first as it is, and the
/// other two with the sign of every component flipped.
pub proof fn law_camera_columns_by_entry(
    rotation: [[Scalar; 3]; 3],
    columns: [[Scalar; 3]; 3],
    row: int,
    col: int,
)
    requires
        turned(rotation, columns),
        0 <= row < 3,
        0 <= col < 3,
    ensures
        col == 0 ==> columns@[col]@[row] == rotation@[row]@[col],
        col > 0 && rotation@[row]@[col].bits < 0x8000_0000 ==> columns@[col]@[row].bits
            == rotation@[row]@[col].bits + 0x8000_0000,
        col > 0 && rotation@[row]@[col].bits >= 0x8000_0000 ==> columns@[col]@[row].bits
            == rotation@[row]@[col].bits - 0x8000_0000,
{
    assert(entry(columns, 0, row) == entry(rotation, row, 0));
    assert(col == 0 || col == 1 || col == 2);
}

/// Strictly between the bounds a pixel fades, and nowhere else: the fade is
/// kept bit for bit. Where the bounds leave no room between them, the pixel is
/// kept exactly from the lower bound on.
pub proof fn law_gate_fades_between_its_bounds(
    lo: Scalar,
    hi: Scalar,
    confidence: Scalar,
    fade: Scalar,
)
    ensures
        lo.below(confidence) && confidence.below(hi) ==> gate_value(lo, hi, confidence, fade)
            == fade,
        lo.below(hi) && confidence.at_most(lo) ==> gate_value(lo, hi, confidence, fade) == (Scalar {
            bits: 0,
        }),
        lo.below(hi) && hi.at_most(confidence) ==> gate_value(lo, hi, confidence, fade) == (Scalar {
            bits: 0x3f80_0000,
        }),
        hi.at_most(lo) && lo.at_most(confidence) ==> gate_value(lo, hi, confidence, fade) == (
        Scalar { bits: 0x3f80_0000 }),
        hi.at_most(lo) && !lo.at_most(confidence) ==> gate_value(lo, hi, confidence, fade) == (
        Scalar { bits: 0 }),
        !lo.nan() && !hi.nan() && confidence.nan() && lo.below(hi) ==> gate_value(
            lo,
            hi,
            confidence,
            fade,
        ) == fade,
{
}

/// A plain render has four channels, and one with a feature seven.
pub proof fn law_channel_counts()
    ensures
        PLAIN_CHANNELS == 4,
        FEATURE_CHANNELS == 7,
{
}

/// A render is accepted with exactly seven channels where a feature was asked
/// for and exactly four where none was; an error tells both.
pub proof fn law_channels_must_match(
    features: bool,
    channels: usize,
    r: Result<(), ChannelError>,
)
    requires
        call_ensures(check_channels, (features, channels), r),
    ensures
        features ==> (r is Ok <==> channels == 7),
        !features ==> (r is Ok <==> channels == 4),
        r matches Err(e) ==> e.features == features && e.channels == channels,
{
}

/// Three fields with commas between them are a colour, each without the
/// whitespace around it and in their order; a colour with fewer fields is none.
pub proof fn law_colour_has_three_fields(
    red: Seq<char>,
    green: Seq<char>,
    blue: Seq<char>,
    s: &str,
    r: Result<[String; 3], String>,
)
    requires
        call_ensures(vec3_fields, (s,), r),
        !red.contains(','),
        !green.contains(','),
        !blue.contains(','),
    ensures
        s@ == red + seq![','] + (green + seq![','] + blue) ==> (r matches Ok(f) && f@[0]@
            == trimmed(red) && f@[1]@ == trimmed(green) && f@[2]@ == trimmed(blue)),
        s@ == red ==> r is Err,
        s@ == red + seq![','] + green ==> r is Err,
{
    law_commas_separate_fields(red, green + seq![','] + blue);
    law_commas_separate_fields(green, blue);
    law_commas_separate_fields(blue, red);
    law_commas_separate_fields(red, green);
    if s@ == red + seq![','] + (green + seq![','] + blue) {
        assert(comma_fields(s@) =~= seq![red, green, blue]);
        if let Ok(f) = r {
            assert(f@[0]@ == trimmed(comma_fields(s@)[0]));
            assert(f@[1]@ == trimmed(comma_fields(s@)[1]));
            assert(f@[2]@ == trimmed(comma_fields(s@)[2]));
        }
    }
}

/// Three numbers are a colour in their order, and one that is none makes the
/// error, the first of several.
pub proof fn law_colour_takes_three_numbers(
    r: Result<Scalar, String>,
    g: Result<Scalar, String>,
    b: Result<Scalar, String>,
    v: Result<[Scalar; 3], String>,
)
    requires
        call_ensures(vec3_value, (r, g, b), v),
    ensures
        v is Ok <==> r is Ok && g is Ok && b is Ok,
        v matches Ok(c) ==> c@[0] == r->Ok_0 && c@[1] == g->Ok_0 && c@[2] == b->Ok_0,
        r is Err ==> (v matches Err(e) && e@ == r->Err_0@),
        r is Ok && g is Err ==> (v matches Err(e) && e@ == g->Err_0@),
        r is Ok && g is Ok && b is Err ==> (v matches Err(e) && e@ == b->Err_0@),
{
}

/// Two renders whose fifth channels agree have the same confidences, pixel by
/// pixel, and each of them is its fifth channel where that lies between zero
/// and one.
pub proof fn law_equal_fifth_channels_give_equal_confidences(
    a: Vec<Scalar>,
    b: Vec<Scalar>,
    pixels_a: Vec<ConfidentPixel>,
    pixels_b: Vec<ConfidentPixel>,
    i: int,
)
    requires
        call_ensures(confident_pixels, (&a,), pixels_a),
        call_ensures(confident_pixels, (&b,), pixels_b),
        a@.len() == b@.len(),
        0 <= i < a@.len() / 7,
        a@[7 * i + 4] == b@[7 * i + 4],
    ensures
        pixels_a@.len() == a@.len() / 7,
        pixels_b@.len() == a@.len() / 7,
        pixels_a@[i].confidence == pixels_b@[i].confidence,
        (Scalar { bits: 0 }).at_most(a@[7 * i + 4]) && a@[7 * i + 4].at_most(
            Scalar { bits: 0x3f80_0000 },
        ) ==> pixels_a@[i].confidence == a@[7 * i + 4],
{
    assert(pixels_a@[i].is_pixel(a@, i));
    assert(pixels_b@[i].is_pixel(b@, i));
}

/// The files of a camera are named by its stem, or by its whole name where it
/// has none; the confidence stands beside its image under another name.
pub proof fn law_files_of_a_camera(
    stem: Option<String>,
    name: &str,
    chosen: String,
    format: &str,
    image: String,
    sidecar: String,
)
    requires
        call_ensures(file_stem, (&stem, name), chosen),
        call_ensures(output_name, (name, format), image),
        call_ensures(sidecar_name, (name, format), sidecar),
    ensures
        stem matches Some(s) ==> chosen@ == s@,
        stem is None ==> chosen@ == name@,
        image@ == name@ + "."@ + format@,
        sidecar@ == name@ + ".conf."@ + format@,
        sidecar@.len() == image@.len() + 5,
{
    reveal_strlit(".");
    reveal_strlit(".conf.");
}

} // verus!
