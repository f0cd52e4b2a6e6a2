//! Text: decimal numerals, joining, and taking strings apart by characters.

use vstd::prelude::*;
use vstd::string::*;

verus! {

/// The numeral of a number below ten.
pub open spec fn digit(d: nat) -> char {
    (48 + d) as char
}

/// The decimal numeral of `n`, without leading zeros.
pub open spec fn decimal(n: nat) -> Seq<char>
    decreases n,
{
    if n < 10 {
        seq![digit(n)]
    } else {
        decimal(n / 10).push(digit(n % 10))
    }
}

/// The pieces, one after the other, with `sep` between neighbours.
pub open spec fn joined(parts: Seq<Seq<char>>, sep: Seq<char>) -> Seq<char>
    decreases parts.len(),
{
    if parts.len() == 0 {
        Seq::empty()
    } else if parts.len() == 1 {
        parts[0]
    } else {
        joined(parts.drop_last(), sep) + sep + parts.last()
    }
}

/// What a list of strings holds, as sequences of characters.
pub open spec fn texts(parts: Seq<String>) -> Seq<Seq<char>> {
    Seq::new(parts.len(), |i: int| parts[i]@)
}

/// Whether `c` has the Unicode property `White_Space`.
pub open spec fn whitespace(c: char) -> bool {
    ||| '\u{9}' <= c <= '\u{d}'
    ||| c == '\u{20}'
    ||| c == '\u{85}'
    ||| c == '\u{a0}'
    ||| c == '\u{1680}'
    ||| '\u{2000}' <= c <= '\u{200a}'
    ||| c == '\u{2028}'
    ||| c == '\u{2029}'
    ||| c == '\u{202f}'
    ||| c == '\u{205f}'
    ||| c == '\u{3000}'
}

/// `s` in lower case, by the Unicode rules.
pub uninterp spec fn lowercase(s: Seq<char>) -> Seq<char>;

/// Whether all characters are ASCII characters.
pub open spec fn ascii(s: Seq<char>) -> bool {
    forall|i: int| 0 <= i < s.len() ==> #[trigger] s[i] < '\u{80}'
}

/// `s` with the letters from `A` to `Z` in lower case.
pub open spec fn ascii_lowercase(s: Seq<char>) -> Seq<char> {
    Seq::new(
        s.len(),
        |i: int|
            if 'A' <= s[i] <= 'Z' {
                (s[i] as u32 + 32) as char
            } else {
                s[i]
            },
    )
}

/// `s` without the whitespace that it starts and ends with.
pub open spec fn trimmed(s: Seq<char>) -> Seq<char>
    decreases s.len(),
{
    if s.len() == 0 {
        s
    } else if whitespace(s[0]) {
        trimmed(s.drop_first())
    } else if whitespace(s.last()) {
        trimmed(s.drop_last())
    } else {
        s
    }
}

/// `s` cut at every comma: the closed fields, and the field that is open at
/// the end of `s`.
pub open spec fn comma_state(s: Seq<char>) -> (Seq<Seq<char>>, Seq<char>)
    decreases s.len(),
{
    if s.len() == 0 {
        (Seq::empty(), Seq::empty())
    } else {
        let (closed, open) = comma_state(s.drop_last());
        if s.last() == ',' {
            (closed.push(open), Seq::empty())
        } else {
            (closed, open.push(s.last()))
        }
    }
}

/// The fields of `s`, which commas separate; there is always at least one.
pub open spec fn comma_fields(s: Seq<char>) -> Seq<Seq<char>> {
    comma_state(s).0.push(comma_state(s).1)
}

/// `String::push` appends the character.
pub assume_specification[ String::push ](s: &mut String, c: char)
    ensures
        final(s)@ == old(s)@.push(c),
;

/// Whether `c` has the Unicode property `White_Space`.
pub fn is_whitespace(c: char) -> (b: bool)
    ensures
        b == whitespace(c),
{
    ('\u{9}' <= c && c <= '\u{d}') || c == '\u{20}' || c == '\u{85}' || c == '\u{a0}' || c
        == '\u{1680}' || ('\u{2000}' <= c && c <= '\u{200a}') || c == '\u{2028}' || c == '\u{2029}'
        || c == '\u{202f}' || c == '\u{205f}' || c == '\u{3000}'
}

/// `str::to_lowercase` maps a string to lower case by the Unicode properties
/// of its characters, whatever the locale. In an ASCII string it replaces the
/// letters from `A` to `Z`; what comes out of other strings is not stated.
#[verifier::external_body]
pub(crate) fn to_lowercase(s: &str) -> (r: String)
    ensures
        r@ == lowercase(s@),
        ascii(s@) ==> r@ == ascii_lowercase(s@),
{
    s.to_lowercase()
}

/// The characters of `s`.
pub fn chars_of(s: &str) -> (r: Vec<char>)
    ensures
        r@ == s@,
{
    let mut r: Vec<char> = Vec::new();
    for c in it: s.chars()
        invariant
            r@ == s@.take(it.index() as int),
            it.seq() == s@,
    {
        r.push(c);
        assert(s@.take(it.index() + 1) == s@.take(it.index() as int).push(c));
    }
    assert(s@.take(s@.len() as int) == s@);
    r
}

/// The string of the characters from `from` up to `to`.
pub fn string_of(chars: &Vec<char>, from: usize, to: usize) -> (r: String)
    requires
        from <= to <= chars@.len(),
    ensures
        r@ == chars@.subrange(from as int, to as int),
{
    let mut r: String = String::new();
    let mut i: usize = from;
    while i < to
        invariant
            from <= i <= to <= chars@.len(),
            r@ == chars@.subrange(from as int, i as int),
        decreases to - i,
    {
        r.push(chars[i]);
        i += 1;
        assert(chars@.subrange(from as int, i as int) == chars@.subrange(
            from as int,
            i - 1,
        ).push(chars@[i - 1]));
    }
    r
}

/// A string of its own that holds `text`.
pub fn owned(text: &str) -> (r: String)
    ensures
        r@ == text@,
{
    let mut r: String = String::new();
    r.append(text);
    assert(r@ =~= text@);
    r
}

/// Appends the decimal numeral of `n`.
pub fn push_decimal(out: &mut String, n: u64)
    ensures
        final(out)@ == old(out)@ + decimal(n as nat),
    decreases n,
{
    if n >= 10 {
        push_decimal(out, n / 10);
    }
    let d: u8 = (n % 10) as u8;
    out.push((48 + d) as char);
    assert(old(out)@ + decimal(n as nat) =~= if n >= 10 {
        (old(out)@ + decimal((n / 10) as nat)).push(digit((n % 10) as nat))
    } else {
        old(out)@.push(digit((n % 10) as nat))
    });
}

/// The strings of `parts`, one after the other, with `sep` between neighbours.
pub fn join(parts: &Vec<String>, sep: &str) -> (r: String)
    ensures
        r@ == joined(texts(parts@), sep@),
{
    let mut r: String = String::new();
    let mut i: usize = 0;
    while i < parts.len()
        invariant
            i <= parts@.len(),
            r@ == joined(texts(parts@).take(i as int), sep@),
        decreases parts@.len() - i,
    {
        if i > 0 {
            r.append(sep);
        }
        r.append(parts[i].as_str());
        i += 1;
        assert(texts(parts@).take(i as int).drop_last() == texts(parts@).take(i - 1));
    }
    assert(texts(parts@).take(i as int) == texts(parts@));
    r
}

/// Whether `s` starts with `prefix`; then what follows it.
pub fn strip_prefix(s: &str, prefix: &str) -> (r: Option<String>)
    ensures
        match r {
            Some(rest) => s@ == prefix@ + rest@,
            None => !prefix@.is_prefix_of(s@),
        },
{
    let chars = chars_of(s);
    let head = chars_of(prefix);
    if chars.len() < head.len() {
        return None;
    }
    let mut i: usize = 0;
    while i < head.len()
        invariant
            i <= head@.len() <= chars@.len(),
            chars@ == s@,
            head@ == prefix@,
            head@.take(i as int) == chars@.take(i as int),
        decreases head@.len() - i,
    {
        if chars[i] != head[i] {
            assert(prefix@[i as int] != s@[i as int]);
            return None;
        }
        i += 1;
        assert(head@.take(i as int) == head@.take(i - 1).push(head@[i - 1]));
        assert(chars@.take(i as int) == chars@.take(i - 1).push(chars@[i - 1]));
    }
    let rest = string_of(&chars, head.len(), chars.len());
    assert(head@.take(i as int) == head@);
    assert(s@ == prefix@ + rest@);
    Some(rest)
}

/// Whether the two hold the same characters.
pub fn same(s: &str, t: &str) -> (r: bool)
    ensures
        r == (s@ == t@),
{
    match strip_prefix(s, t) {
        Some(rest) => {
            assert(rest@.len() == 0 ==> s@ =~= t@);
            assert(s@ == t@ ==> rest@.len() == 0);
            rest.as_str().is_empty()
        },
        None => {
            assert(s@ == t@ ==> t@.is_prefix_of(s@));
            false
        },
    }
}

/// Removing leading whitespace does not change what is left after trimming.
proof fn lemma_trim_front(s: Seq<char>, n: int)
    requires
        0 <= n <= s.len(),
        forall|i: int| 0 <= i < n ==> whitespace(#[trigger] s[i]),
    ensures
        trimmed(s) == trimmed(s.skip(n)),
    decreases n,
{
    if n == 0 {
        assert(s.skip(0) == s);
    } else {
        assert(whitespace(s[0]));
        assert forall|i: int| 0 <= i < n - 1 implies whitespace(#[trigger] s.drop_first()[i]) by {
            assert(whitespace(s[i + 1]));
        }
        lemma_trim_front(s.drop_first(), n - 1);
        assert(s.drop_first().skip(n - 1) == s.skip(n));
    }
}

/// `s` without the whitespace that it starts and ends with.
pub fn trim(s: &str) -> (r: String)
    ensures
        r@ == trimmed(s@),
{
    let chars = chars_of(s);
    let mut from: usize = 0;
    while from < chars.len() && is_whitespace(chars[from])
        invariant
            from <= chars@.len(),
            forall|i: int| 0 <= i < from ==> whitespace(#[trigger] chars@[i]),
        decreases chars@.len() - from,
    {
        from += 1;
    }
    proof {
        lemma_trim_front(chars@, from as int);
        assert(chars@.skip(from as int) == chars@.subrange(from as int, chars@.len() as int));
    }
    let mut to: usize = chars.len();
    while to > from && is_whitespace(chars[to - 1])
        invariant
            from <= to <= chars@.len(),
            from < to ==> !whitespace(chars@[from as int]),
            trimmed(chars@) == trimmed(chars@.subrange(from as int, to as int)),
        decreases to,
    {
        to -= 1;
        let ghost longer = chars@.subrange(from as int, to + 1);
        assert(longer.last() == chars@[to as int]);
        assert(longer[0] == chars@[from as int]);
        assert(longer.drop_last() == chars@.subrange(from as int, to as int));
        assert(to > from || longer.drop_last().len() == 0);
        assert(whitespace(longer.last()));
        assert(longer.len() > 1 ==> !whitespace(longer[0]));
    }
    let r = string_of(&chars, from, to);
    r
}

/// The fields of `s`, which commas separate.
pub fn split_commas(s: &str) -> (r: Vec<String>)
    ensures
        texts(r@) == comma_fields(s@),
{
    let chars = chars_of(s);
    let mut r: Vec<String> = Vec::new();
    let mut open: String = String::new();
    let mut i: usize = 0;
    while i < chars.len()
        invariant
            i <= chars@.len(),
            chars@ == s@,
            texts(r@) == comma_state(s@.take(i as int)).0,
            open@ == comma_state(s@.take(i as int)).1,
        decreases chars@.len() - i,
    {
        let c = chars[i];
        let ghost before = texts(r@);
        assert(s@.take(i + 1).drop_last() == s@.take(i as int));
        if c == ',' {
            r.push(open);
            assert(texts(r@) =~= before.push(open@));
            open = String::new();
        } else {
            open.push(c);
        }
        i += 1;
    }
    assert(s@.take(i as int) == s@);
    let ghost before = texts(r@);
    r.push(open);
    assert(texts(r@) =~= before.push(open@));
    r
}

/// The number that a string of digits stands for.
pub open spec fn number(s: Seq<char>) -> int
    decreases s.len(),
{
    if s.len() == 0 {
        0
    } else {
        10 * number(s.drop_last()) + (s.last() as int - '0' as int)
    }
}

/// A numeral reads back as its number; it is made of digits, and starts with a
/// zero only where it is one.
pub proof fn law_numeral_reads_back(n: nat)
    ensures
        number(decimal(n)) == n,
        decimal(n).len() > 0,
        forall|i: int| 0 <= i < decimal(n).len() ==> '0' <= #[trigger] decimal(n)[i] <= '9',
        decimal(n)[0] == '0' ==> n == 0,
        n < 10 ==> decimal(n).len() == 1 && decimal(n)[0] == digit(n) && digit(n) as int == '0' as int
            + n,
    decreases n,
{
    if n >= 10 {
        law_numeral_reads_back(n / 10);
        let short = decimal(n / 10);
        assert(decimal(n).drop_last() =~= short);
        assert forall|i: int| 0 <= i < decimal(n).len() implies '0' <= #[trigger] decimal(n)[i]
            <= '9' by {
            if i < short.len() {
                assert(decimal(n)[i] == short[i]);
            }
        }
        assert(decimal(n)[0] == short[0]);
    } else {
        assert(decimal(n).drop_last() =~= Seq::empty());
        reveal_with_fuel(number, 2);
    }
}

/// Joining two lists puts one separator between them; a list of one string is
/// that string, and an empty one nothing.
pub proof fn law_joining_two_lists(a: Seq<Seq<char>>, b: Seq<Seq<char>>, sep: Seq<char>)
    requires
        a.len() > 0,
        b.len() > 0,
    ensures
        joined(a + b, sep) == joined(a, sep) + sep + joined(b, sep),
        a.len() == 1 ==> joined(a, sep) == a[0],
        joined(Seq::empty(), sep) == Seq::<char>::empty(),
    decreases b.len(),
{
    assert((a + b).drop_last() =~= a + b.drop_last());
    if b.len() == 1 {
        assert(a + b.drop_last() =~= a);
        assert(joined(a + b, sep) =~= joined(a, sep) + sep + b[0]);
    } else {
        law_joining_two_lists(a, b.drop_last(), sep);
        assert(joined(a + b, sep) =~= joined(a, sep) + sep + joined(b, sep));
    }
}

/// What trimming leaves of `s` is what lies from `i` up to `j`: around it there
/// is only whitespace, and it neither starts nor ends with any.
pub open spec fn trims_to(s: Seq<char>, i: int, j: int) -> bool {
    &&& 0 <= i <= j <= s.len()
    &&& forall|k: int| 0 <= k < i ==> whitespace(#[trigger] s[k])
    &&& forall|k: int| j <= k < s.len() ==> whitespace(#[trigger] s[k])
    &&& i < j ==> !whitespace(s[i]) && !whitespace(s[j - 1])
}

#[verifier::spinoff_prover]
#[verifier::rlimit(50)]
proof fn lemma_trims_after_first(s: Seq<char>, i: int, j: int)
    requires
        s.len() > 0,
        whitespace(s[0]),
        trims_to(s.drop_first(), i, j),
    ensures
        trims_to(s, i + 1, j + 1),
        s.subrange(i + 1, j + 1) == s.drop_first().subrange(i, j),
{
    let t = s.drop_first();
    assert(s.subrange(i + 1, j + 1) =~= t.subrange(i, j));
    assert forall|k: int| 0 <= k < i + 1 implies whitespace(#[trigger] s[k]) by {
        if k > 0 {
            assert(t[k - 1] == s[k]);
        }
    }
    assert forall|k: int| j + 1 <= k < s.len() implies whitespace(#[trigger] s[k]) by {
        assert(t[k - 1] == s[k]);
    }
    if i < j {
        assert(t[i] == s[i + 1] && t[j - 1] == s[j]);
    }
}

#[verifier::spinoff_prover]
#[verifier::rlimit(50)]
proof fn lemma_trims_before_last(s: Seq<char>, i: int, j: int)
    requires
        s.len() > 0,
        whitespace(s.last()),
        trims_to(s.drop_last(), i, j),
    ensures
        trims_to(s, i, j),
        s.subrange(i, j) == s.drop_last().subrange(i, j),
{
    let t = s.drop_last();
    assert(s.subrange(i, j) =~= t.subrange(i, j));
    assert forall|k: int| 0 <= k < i implies whitespace(#[trigger] s[k]) by {
        assert(t[k] == s[k]);
    }
    assert forall|k: int| j <= k < s.len() implies whitespace(#[trigger] s[k]) by {
        if k < t.len() {
            assert(t[k] == s[k]);
        }
    }
    if i < j {
        assert(t[i] == s[i] && t[j - 1] == s[j - 1]);
    }
}

/// Trimming takes away the whitespace at both ends, all of it and nothing else.
#[verifier::spinoff_prover]
#[verifier::rlimit(50)]
pub proof fn law_trimming_takes_the_whitespace_at_both_ends(s: Seq<char>) -> (r: (int, int))
    ensures
        0 <= r.0 <= r.1 <= s.len(),
        trimmed(s) == s.subrange(r.0, r.1),
        forall|k: int| 0 <= k < r.0 ==> whitespace(#[trigger] s[k]),
        forall|k: int| r.1 <= k < s.len() ==> whitespace(#[trigger] s[k]),
        r.0 < r.1 ==> !whitespace(s[r.0]) && !whitespace(s[r.1 - 1]),
        trims_to(s, r.0, r.1),
    decreases s.len(),
{
    if s.len() == 0 {
        assert(s.subrange(0, 0) =~= s);
        (0, 0)
    } else if whitespace(s[0]) {
        let (i, j) = law_trimming_takes_the_whitespace_at_both_ends(s.drop_first());
        lemma_trims_after_first(s, i, j);
        (i + 1, j + 1)
    } else if whitespace(s.last()) {
        let (i, j) = law_trimming_takes_the_whitespace_at_both_ends(s.drop_last());
        lemma_trims_before_last(s, i, j);
        (i, j)
    } else {
        assert(s.subrange(0, s.len() as int) =~= s);
        (0, s.len() as int)
    }
}

/// The whitespace characters, by their code points.
pub proof fn law_whitespace_code_points(c: char)
    ensures
        whitespace(c) <==> {
            let code = c as int;
            ||| 9 <= code <= 13
            ||| code == 32
            ||| code == 133
            ||| code == 160
            ||| code == 5760
            ||| 8192 <= code <= 8202
            ||| code == 8232
            ||| code == 8233
            ||| code == 8239
            ||| code == 8287
            ||| code == 12288
        },
{
}

/// Lower case of ASCII text moves the letters from `A` to `Z` by the distance
/// of the two alphabets and keeps every other character.
pub proof fn law_lower_case_by_character(s: Seq<char>, i: int)
    requires
        0 <= i < s.len(),
    ensures
        ascii_lowercase(s).len() == s.len(),
        65 <= s[i] as int <= 90 ==> ascii_lowercase(s)[i] as int == s[i] as int + 32,
        !(65 <= s[i] as int <= 90) ==> ascii_lowercase(s)[i] == s[i],
        ascii(s) ==> (s[i] as int) < 128,
{
    lemma_code_point(s[i]);
}

/// A character is its code point.
proof fn lemma_code_point(c: char)
    ensures
        c as u32 == c as int,
{
}

/// Text without a comma is one field, and a comma ends a field and starts the
/// next.
pub proof fn law_commas_separate_fields(a: Seq<char>, b: Seq<char>)
    ensures
        !a.contains(',') ==> comma_fields(a) == seq![a],
        comma_fields(a + seq![','] + b) == comma_fields(a) + comma_fields(b),
    decreases a.len() + b.len(),
{
    if !a.contains(',') {
        lemma_no_comma(a);
        assert(comma_fields(a) =~= seq![a]);
    }
    lemma_after_comma(a, b);
    let s = a + seq![','] + b;
    assert(comma_fields(s) =~= comma_fields(a) + comma_fields(b));
}

proof fn lemma_no_comma(a: Seq<char>)
    requires
        !a.contains(','),
    ensures
        comma_state(a) == (Seq::<Seq<char>>::empty(), a),
    decreases a.len(),
{
    if a.len() == 0 {
        assert(a =~= Seq::empty());
    } else {
        let t = a.drop_last();
        assert forall|i: int| 0 <= i < t.len() implies t[i] != ',' by {
            assert(t[i] == a[i]);
        }
        lemma_no_comma(t);
        assert(a.contains(a.last()));
        assert(t.push(a.last()) =~= a);
    }
}

proof fn lemma_after_comma(a: Seq<char>, b: Seq<char>)
    ensures
        comma_state(a + seq![','] + b).0 =~= comma_fields(a) + comma_state(b).0,
        comma_state(a + seq![','] + b).1 =~= comma_state(b).1,
    decreases b.len(),
{
    let s = a + seq![','] + b;
    if b.len() == 0 {
        assert(s.drop_last() =~= a);
        assert(s.last() == ',');
    } else {
        lemma_after_comma(a, b.drop_last());
        assert(s.drop_last() =~= a + seq![','] + b.drop_last());
        assert(s.last() == b.last());
    }
}

/// The texts of a list are those of its strings, one for one.
pub proof fn law_texts_are_those_of_the_strings(parts: Seq<String>, i: int)
    requires
        0 <= i < parts.len(),
    ensures
        texts(parts).len() == parts.len(),
        texts(parts)[i] == parts[i]@,
{
}

/// Whitespace around a text is trimmed away and the text itself kept, if it
/// neither starts nor ends with whitespace.
pub proof fn law_padding_is_trimmed(left: Seq<char>, text: Seq<char>, right: Seq<char>)
    requires
        forall|k: int| 0 <= k < left.len() ==> whitespace(#[trigger] left[k]),
        forall|k: int| 0 <= k < right.len() ==> whitespace(#[trigger] right[k]),
        text.len() > 0 ==> !whitespace(text[0]) && !whitespace(text.last()),
    ensures
        trimmed(left + text + right) == text,
{
    let s = left + text + right;
    let (i, j) = law_trimming_takes_the_whitespace_at_both_ends(s);
    if text.len() > 0 {
        let from = left.len() as int;
        let to = from + text.len();
        assert(s[from] == text[0] && s[to - 1] == text.last());
        if i < from {
            assert(s[i] == left[i]);
        }
        if j > to {
            assert(s[j - 1] == right[j - 1 - to]);
        }
        assert(i == from && j == to);
        assert(s.subrange(i, j) =~= text);
    } else {
        if i < j {
            if i < left.len() {
                assert(s[i] == left[i]);
            } else {
                assert(s[i] == right[i - left.len()]);
            }
        }
        assert(s.subrange(i, j) =~= text);
    }
}

} // verus!
