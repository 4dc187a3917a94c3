//! Regular-expression matching through the `regex` crate, and byte-offset
//! slicing of strings, which regex match offsets are expressed in.
use vstd::prelude::*;
use vstd::utf8::{
    decode_utf8, encode_utf8, encode_utf8_decode_utf8, encode_utf8_valid_utf8, is_char_boundary,
    is_char_boundary_iff_not_is_continuation_byte, is_char_boundary_start_end_of_seq, valid_utf8,
    valid_utf8_split,
};

verus! {

/// Byte span `(start, end)` of a capture group.
pub type Span = (usize, usize);

/// The capture spans (byte offsets into `text`) of every successive
/// non-overlapping match of `pattern` in `text`, as `Regex::captures_iter`
/// yields them; group 0 of each match is the whole match. Empty when the
/// pattern does not compile.
pub uninterp spec fn regex_captures(pattern: Seq<char>, text: Seq<char>) -> Seq<Seq<Option<Span>>>;

/// The text between byte offsets `a` and `b` of `text`.
pub open spec fn text_between(text: Seq<char>, a: int, b: int) -> Seq<char> {
    decode_utf8(encode_utf8(text).subrange(a, b))
}

/// A span that lies inside `text` and on character boundaries.
pub open spec fn valid_span(text: Seq<char>, sp: Span) -> bool {
    &&& sp.0 <= sp.1 <= encode_utf8(text).len()
    &&& is_char_boundary(encode_utf8(text), sp.0 as int)
    &&& is_char_boundary(encode_utf8(text), sp.1 as int)
}

/// The matches of [`regex_captures`] with group 0 present and every span valid.
pub open spec fn well_formed_matches(text: Seq<char>, ms: Seq<Seq<Option<Span>>>) -> bool {
    &&& forall|i: int| 0 <= i < ms.len() ==> #[trigger] ms[i].len() > 0 && ms[i][0] is Some
    &&& forall|i: int, g: int|
        0 <= i < ms.len() && 0 <= g < ms[i].len() && (#[trigger] ms[i][g]) is Some ==> valid_span(
            text,
            ms[i][g]->0,
        )
    &&& forall|i: int, j: int|
        0 <= i < j < ms.len() ==> match_end(#[trigger] ms[i]) <= match_start(#[trigger] ms[j])
}

/// Byte offset where a match starts.
pub open spec fn match_start(m: Seq<Option<Span>>) -> usize {
    let sp = m[0]->0;
    sp.0
}

/// Byte offset where a match ends.
pub open spec fn match_end(m: Seq<Option<Span>>) -> usize {
    let sp = m[0]->0;
    sp.1
}

/// The spans of a list of matches.
pub open spec fn match_spans(r: Seq<Vec<Option<Span>>>) -> Seq<Seq<Option<Span>>> {
    r.map_values(|m: Vec<Option<Span>>| m@)
}

/// All matches of `pattern` in `text` (`Regex::new(pattern)` then
/// `Regex::captures_iter(text)`), each as the byte spans of its groups.
/// The contract claims that the result is the named [`regex_captures`], and
/// what the `regex` documentation promises of it: offsets are UTF-8
/// boundaries within the text, group 0 is always set, and successive matches
/// do not overlap. A pattern that fails to compile yields no matches.
#[verifier::external_body]
pub fn captures_all(pattern: &str, text: &str) -> (r: Vec<Vec<Option<Span>>>)
    ensures
        match_spans(r@) == regex_captures(pattern@, text@),
        well_formed_matches(text@, match_spans(r@)),
{
    match regex::Regex::new(pattern) {
        Ok(re) => re.captures_iter(text).map(
            |c| c.iter().map(|g| g.map(|m| (m.start(), m.end()))).collect(),
        ).collect(),
        Err(_) => Vec::new(),
    }
}

/// Splitting valid UTF-8 at a boundary `a` keeps a later boundary `b` a
/// boundary of the second part.
proof fn lemma_boundary_shift(bytes: Seq<u8>, a: int, b: int)
    requires
        valid_utf8(bytes),
        0 <= a <= b <= bytes.len(),
        is_char_boundary(bytes, a),
        is_char_boundary(bytes, b),
    ensures
        valid_utf8(bytes.subrange(a, bytes.len() as int)),
        is_char_boundary(bytes.subrange(a, bytes.len() as int), b - a),
{
    let rest = bytes.subrange(a, bytes.len() as int);
    valid_utf8_split(bytes, a);
    is_char_boundary_start_end_of_seq(rest);
    if b < bytes.len() {
        is_char_boundary_iff_not_is_continuation_byte(bytes, b);
        is_char_boundary_iff_not_is_continuation_byte(rest, b - a);
        assert(rest[b - a] == bytes[b]);
    } else {
        assert(rest.len() == b - a);
    }
}

/// The substring of `text` between two byte offsets that lie on character
/// boundaries.
fn slice_between<'a>(text: &'a str, a: usize, b: usize) -> (r: &'a str)
    requires
        a <= b <= encode_utf8(text@).len(),
        is_char_boundary(encode_utf8(text@), a as int),
        is_char_boundary(encode_utf8(text@), b as int),
    ensures
        r@ == text_between(text@, a as int, b as int),
{
    let ghost bytes = encode_utf8(text@);
    proof {
        encode_utf8_valid_utf8(text@);
        lemma_boundary_shift(bytes, a as int, b as int);
    }
    let (_, rest) = text.split_at(a);
    proof {
        assert(encode_utf8(rest@) =~= bytes.subrange(a as int, bytes.len() as int));
    }
    let (mid, _) = rest.split_at(b - a);
    proof {
        assert(encode_utf8(mid@) =~= bytes.subrange(a as int, b as int));
        encode_utf8_decode_utf8(mid@);
    }
    mid
}

/// `text.get(a..b)`: the substring between byte offsets `a` and `b`, or
/// `None` when the range is out of bounds, reversed, or not on character
/// boundaries.
pub fn str_get(text: &str, a: usize, b: usize) -> (r: Option<&str>)
    ensures
        r is Some <== (a <= b <= encode_utf8(text@).len() && is_char_boundary(
            encode_utf8(text@),
            a as int,
        ) && is_char_boundary(encode_utf8(text@), b as int)),
        r matches Some(t) ==> t@ == text_between(text@, a as int, b as int),
        r matches Some(t) ==> a <= b <= encode_utf8(text@).len() && is_char_boundary(
            encode_utf8(text@),
            a as int,
        ) && is_char_boundary(encode_utf8(text@), b as int),
{
    if a <= b && b <= byte_len(text) && text.is_char_boundary(a) && text.is_char_boundary(b) {
        Some(slice_between(text, a, b))
    } else {
        None
    }
}

/// The substring of `text` covered by a valid span.
pub fn span_text<'a>(text: &'a str, sp: Span) -> (r: &'a str)
    requires
        valid_span(text@, sp),
    ensures
        r@ == text_between(text@, sp.0 as int, sp.1 as int),
{
    slice_between(text, sp.0, sp.1)
}

/// The byte length of `text`, which is the length of its UTF-8 encoding.
pub fn byte_len(text: &str) -> (n: usize)
    ensures
        n == encode_utf8(text@).len(),
{
    text.as_bytes().len()
}

/// The text that group `g` of match `m` captured; a group that did not take
/// part in the match reads as empty.
pub open spec fn group_text(text: Seq<char>, m: Seq<Option<Span>>, g: int) -> Seq<char> {
    if 0 <= g < m.len() && m[g] is Some {
        let sp = m[g]->0;
        text_between(text, sp.0 as int, sp.1 as int)
    } else {
        Seq::empty()
    }
}

/// Every span of one match is valid in `text`.
pub open spec fn match_in(text: Seq<char>, m: Seq<Option<Span>>) -> bool {
    forall|g: int| 0 <= g < m.len() && (#[trigger] m[g]) is Some ==> valid_span(text, m[g]->0)
}

proof fn lemma_match_in(text: Seq<char>, ms: Seq<Seq<Option<Span>>>, i: int)
    requires
        well_formed_matches(text, ms),
        0 <= i < ms.len(),
    ensures
        match_in(text, ms[i]),
        ms[i].len() > 0 && ms[i][0] is Some,
        valid_span(text, ms[i][0]->0),
{
    assert(ms[i].len() > 0 && ms[i][0] is Some);
    assert forall|g: int| 0 <= g < ms[i].len() && (#[trigger] ms[i][g]) is Some implies valid_span(
        text,
        ms[i][g]->0,
    ) by {}
}

/// The matches of `pattern` in `text`, with what is known of their spans.
pub fn matches_of(pattern: &str, text: &str) -> (r: Vec<Vec<Option<Span>>>)
    ensures
        match_spans(r@) == regex_captures(pattern@, text@),
        well_formed_matches(text@, match_spans(r@)),
        forall|i: int| 0 <= i < r@.len() ==> match_in(text@, #[trigger] r@[i]@),
        forall|i: int| 0 <= i < r@.len() ==> (#[trigger] r@[i]@).len() > 0 && r@[i]@[0] is Some,
{
    let r = captures_all(pattern, text);
    proof {
        assert forall|i: int| 0 <= i < r@.len() implies match_in(text@, #[trigger] r@[i]@) by {
            assert(match_spans(r@)[i] == r@[i]@);
            lemma_match_in(text@, match_spans(r@), i);
        }
        assert forall|i: int| 0 <= i < r@.len() implies (#[trigger] r@[i]@).len() > 0
            && r@[i]@[0] is Some by {
            assert(match_spans(r@)[i] == r@[i]@);
            lemma_match_in(text@, match_spans(r@), i);
        }
    }
    r
}

/// The text of group `g` of a match.
pub fn group_of<'a>(text: &'a str, m: &Vec<Option<Span>>, g: usize) -> (r: &'a str)
    requires
        match_in(text@, m@),
    ensures
        r@ == group_text(text@, m@, g as int),
{
    if g < m.len() {
        match m[g] {
            Some(sp) => {
                assert(m@[g as int] is Some);
                span_text(text, sp)
            },
            None => {
                proof {
                    reveal_strlit("");
                }
                ""
            },
        }
    } else {
        proof {
            reveal_strlit("");
        }
        ""
    }
}

} // verus!
