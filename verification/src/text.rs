//! Character-level text helpers shared by the page parsers: whitespace
//! classification, collapsing, trimming, entity decoding and tag stripping.
use vstd::prelude::*;
use crate::archive::{lower_chars, lower_seq};

verus! {

/// The characters of `s`, in order.
pub fn chars_of(s: &str) -> (out: Vec<char>)
    ensures
        out@ == s@,
{
    let mut out: Vec<char> = Vec::new();
    for c in it: s.chars()
        invariant
            out@ == it.seq().take(it.index() as int),
    {
        out.push(c);
    }
    out
}

/// Collects characters into an owned string (`String::from_iter`).
#[verifier::external_body]
pub fn string_from_chars(chars: &[char]) -> (s: String)
    ensures
        s@ == chars@,
{
    chars.iter().collect()
}

/// Unicode `White_Space`: the set that `char::is_whitespace`, `str::trim`,
/// `str::split_whitespace` and the regex class `\s` all use.
pub open spec fn is_space(c: char) -> bool {
    ||| c == '\t'
    ||| c == '\n'
    ||| c == '\x0B'
    ||| c == '\x0C'
    ||| c == '\r'
    ||| c == ' '
    ||| c == '\u{85}'
    ||| c == '\u{A0}'
    ||| c == '\u{1680}'
    ||| ('\u{2000}' <= c && c <= '\u{200A}')
    ||| c == '\u{2028}'
    ||| c == '\u{2029}'
    ||| c == '\u{202F}'
    ||| c == '\u{205F}'
    ||| c == '\u{3000}'
}

/// Executable form of [`is_space`].
pub fn space_char(c: char) -> (b: bool)
    ensures
        b == is_space(c),
{
    c == '\t' || c == '\n' || c == '\x0B' || c == '\x0C' || c == '\r' || c == ' ' || c
        == '\u{85}' || c == '\u{A0}' || c == '\u{1680}' || ('\u{2000}' <= c && c <= '\u{200A}')
        || c == '\u{2028}' || c == '\u{2029}' || c == '\u{202F}' || c == '\u{205F}' || c
        == '\u{3000}'
}

/// The maximal runs of non-whitespace characters of `s`, left to right
/// (what `str::split_whitespace` yields).
pub open spec fn words(s: Seq<char>) -> Seq<Seq<char>>
    decreases s.len(),
{
    if s.len() == 0 {
        Seq::empty()
    } else {
        let p = s.drop_last();
        let c = s.last();
        let w = words(p);
        if is_space(c) {
            w
        } else if p.len() > 0 && !is_space(p.last()) {
            w.update(w.len() - 1, w.last().push(c))
        } else {
            w.push(seq![c])
        }
    }
}

/// The words joined by single spaces.
pub open spec fn join_words(ws: Seq<Seq<char>>) -> Seq<char>
    decreases ws.len(),
{
    if ws.len() == 0 {
        Seq::empty()
    } else if ws.len() == 1 {
        ws[0]
    } else {
        join_words(ws.drop_last()) + seq![' '] + ws.last()
    }
}

/// Whitespace runs collapsed to one space, with none at either end
/// (`split_whitespace().collect::<Vec<_>>().join(" ")`).
pub open spec fn collapse_whitespace(s: Seq<char>) -> Seq<char> {
    join_words(words(s))
}

/// A string that ends in a non-space character has at least one word.
pub proof fn lemma_words_nonempty(p: Seq<char>)
    requires
        p.len() > 0,
        !is_space(p.last()),
    ensures
        words(p).len() > 0,
    decreases p.len(),
{
    let q = p.drop_last();
    if q.len() > 0 && !is_space(q.last()) {
        lemma_words_nonempty(q);
    }
}

proof fn lemma_words_empty_iff_all_space(p: Seq<char>)
    ensures
        words(p).len() == 0 <==> (forall|k: int| 0 <= k < p.len() ==> is_space(#[trigger] p[k])),
    decreases p.len(),
{
    if p.len() > 0 {
        let q = p.drop_last();
        lemma_words_empty_iff_all_space(q);
        if q.len() > 0 && !is_space(q.last()) {
            lemma_words_nonempty(q);
            assert(!is_space(p[q.len() - 1]));
        }
        if !is_space(p.last()) {
            assert(!is_space(p[p.len() - 1]));
        }
        assert forall|k: int| 0 <= k < q.len() implies q[k] == p[k] by {}
    }
}

proof fn lemma_join_push(w: Seq<Seq<char>>, x: Seq<char>)
    ensures
        join_words(w.push(x)) == join_words(w) + (if w.len() > 0 {
            seq![' ']
        } else {
            Seq::empty()
        }) + x,
{
    assert(w.push(x).drop_last() =~= w);
    if w.len() == 0 {
        assert(join_words(w) + Seq::<char>::empty() + x =~= x);
    }
}

proof fn lemma_join_extend_last(w: Seq<Seq<char>>, c: char)
    requires
        w.len() > 0,
    ensures
        join_words(w.update(w.len() - 1, w.last().push(c))) == join_words(w).push(c),
{
    let u = w.update(w.len() - 1, w.last().push(c));
    if w.len() == 1 {
        assert(u[0] == w[0].push(c));
    } else {
        assert(u.drop_last() =~= w.drop_last());
        assert(join_words(u) == join_words(w.drop_last()) + seq![' '] + w.last().push(c));
        assert(join_words(w.drop_last()) + seq![' '] + w.last().push(c) =~= (join_words(
            w.drop_last(),
        ) + seq![' '] + w.last()).push(c));
    }
}

/// Collapses whitespace runs to single spaces and drops leading and trailing
/// whitespace.
pub fn collapse_ws(s: &[char]) -> (out: Vec<char>)
    ensures
        out@ == collapse_whitespace(s@),
{
    let mut out: Vec<char> = Vec::new();
    let mut in_word = false;
    let mut i: usize = 0;
    while i < s.len()
        invariant
            i <= s.len(),
            out@ == join_words(words(s@.take(i as int))),
            in_word == (i > 0 && !is_space(s@[i - 1])),
            out@.len() == 0 <==> words(s@.take(i as int)).len() == 0,
        decreases s.len() - i,
    {
        let c = s[i];
        let ghost p = s@.take(i as int);
        let ghost w = words(p);
        assert(s@.take(i + 1).drop_last() =~= p);
        assert(s@.take(i + 1).last() == c);
        if space_char(c) {
            in_word = false;
        } else {
            if in_word {
                proof {
                    assert(p.last() == s@[i - 1]);
                    lemma_words_nonempty(p);
                    lemma_join_extend_last(w, c);
                }
                out.push(c);
            } else {
                proof {
                    lemma_join_push(w, seq![c]);
                }
                if out.len() > 0 {
                    out.push(' ');
                }
                out.push(c);
                proof {
                    if w.len() > 0 {
                        assert(out@ =~= join_words(w) + seq![' '] + seq![c]);
                    } else {
                        assert(out@ =~= join_words(w) + Seq::<char>::empty() + seq![c]);
                    }
                }
            }
            in_word = true;
        }
        i = i + 1;
    }
    assert(s@.take(s.len() as int) =~= s@);
    out
}

/// `s` with whitespace removed from both ends (`str::trim`).
pub open spec fn trim_spaces(s: Seq<char>) -> Seq<char>
    decreases s.len(),
{
    if s.len() > 0 && is_space(s[0]) {
        trim_spaces(s.drop_first())
    } else if s.len() > 0 && is_space(s.last()) {
        trim_spaces(s.drop_last())
    } else {
        s
    }
}

/// Index of the first non-whitespace character at or after `i` (or `s.len()`).
fn skip_spaces_from(s: &[char], i: usize) -> (j: usize)
    requires
        i <= s.len(),
    ensures
        i <= j <= s.len(),
        forall|k: int| i <= k < j ==> is_space(#[trigger] s@[k]),
        j < s.len() ==> !is_space(s@[j as int]),
{
    let mut j = i;
    while j < s.len() && space_char(s[j])
        invariant
            i <= j <= s.len(),
            forall|k: int| i <= k < j ==> is_space(#[trigger] s@[k]),
        decreases s.len() - j,
    {
        j = j + 1;
    }
    j
}

proof fn lemma_trim_range(s: Seq<char>, a: int, b: int)
    requires
        0 <= a <= b <= s.len(),
        forall|k: int| 0 <= k < a ==> is_space(#[trigger] s[k]),
        forall|k: int| b <= k < s.len() ==> is_space(#[trigger] s[k]),
        a < b ==> !is_space(s[a]) && !is_space(s[b - 1]),
    ensures
        trim_spaces(s) == s.subrange(a, b),
    decreases s.len(),
{
    if s.len() > 0 && is_space(s[0]) {
        if a == 0 {
            // then a == b and every character is whitespace
            assert(b == 0);
        }
        let t = s.drop_first();
        let a2 = if a > 0 {
            a - 1
        } else {
            0
        };
        let b2 = if b > 0 {
            b - 1
        } else {
            0
        };
        assert forall|k: int| 0 <= k < a2 implies is_space(#[trigger] t[k]) by {
            assert(t[k] == s[k + 1]);
        }
        assert forall|k: int| b2 <= k < t.len() implies is_space(#[trigger] t[k]) by {
            assert(t[k] == s[k + 1]);
        }
        lemma_trim_range(t, a2, b2);
        assert(t.subrange(a2, b2) =~= s.subrange(a, b));
    } else if s.len() > 0 && is_space(s.last()) {
        let t = s.drop_last();
        let b2 = if b == s.len() {
            b - 1
        } else {
            b
        };
        assert(a <= b2);
        assert forall|k: int| 0 <= k < a implies is_space(#[trigger] t[k]) by {
            assert(t[k] == s[k]);
        }
        assert forall|k: int| b2 <= k < t.len() implies is_space(#[trigger] t[k]) by {
            assert(t[k] == s[k]);
        }
        lemma_trim_range(t, a, b2);
        assert(t.subrange(a, b2) =~= s.subrange(a, b));
    } else {
        if s.len() > 0 {
            assert(!is_space(s[0]));
            assert(!is_space(s[s.len() - 1]));
        }
        assert(s.subrange(a, b) =~= s);
    }
}

/// The bounds `[a, b)` of `s` with surrounding whitespace removed.
pub fn trim_bounds(s: &[char]) -> (r: (usize, usize))
    ensures
        r.0 <= r.1 <= s.len(),
        s@.subrange(r.0 as int, r.1 as int) == trim_spaces(s@),
{
    let a = skip_spaces_from(s, 0);
    let mut b = s.len();
    while b > a && space_char(s[b - 1])
        invariant
            a <= b <= s.len(),
            forall|k: int| b <= k < s.len() ==> is_space(#[trigger] s@[k]),
        decreases b,
    {
        b = b - 1;
    }
    proof {
        lemma_trim_range(s@, a as int, b as int);
    }
    (a, b)
}

/// `s` with surrounding whitespace removed.
pub fn trim_chars(s: &[char]) -> (out: Vec<char>)
    ensures
        out@ == trim_spaces(s@),
{
    let (a, b) = trim_bounds(s);
    slice_chars(s, a, b)
}

/// The characters of `s` in `[a, b)`.
pub fn slice_chars(s: &[char], a: usize, b: usize) -> (out: Vec<char>)
    requires
        a <= b <= s.len(),
    ensures
        out@ == s@.subrange(a as int, b as int),
{
    let mut out: Vec<char> = Vec::new();
    let mut i = a;
    while i < b
        invariant
            a <= i <= b <= s.len(),
            out@ == s@.subrange(a as int, i as int),
        decreases b - i,
    {
        out.push(s[i]);
        i = i + 1;
        assert(out@ =~= s@.subrange(a as int, i as int));
    }
    out
}

/// `Some(s)` unless `s` is empty.
pub open spec fn nonempty_text(s: Seq<char>) -> Option<Seq<char>> {
    if s.len() == 0 {
        None
    } else {
        Some(s)
    }
}

/// `None` for the empty string, otherwise the string itself.
pub fn non_empty(s: String) -> (r: Option<String>)
    ensures
        r is None <==> s@.len() == 0,
        r matches Some(v) ==> v@ == s@,
{
    if s.as_str().is_empty() {
        None
    } else {
        Some(s)
    }
}

/// Replaces every non-overlapping occurrence of `pat`, scanning left to
/// right (`str::replace`).
pub open spec fn replace_all(s: Seq<char>, pat: Seq<char>, rep: Seq<char>) -> Seq<char>
    decreases s.len(),
{
    if s.len() == 0 {
        s
    } else if pat.len() > 0 && pat.len() <= s.len() && s.take(pat.len() as int) == pat {
        rep + replace_all(s.skip(pat.len() as int), pat, rep)
    } else {
        seq![s[0]] + replace_all(s.drop_first(), pat, rep)
    }
}

/// Whether `pat` occurs in `s` at position `i`.
pub open spec fn occurs_at(s: Seq<char>, i: int, pat: Seq<char>) -> bool {
    0 <= i && i + pat.len() <= s.len() && s.subrange(i, i + pat.len()) == pat
}

/// Executable form of [`occurs_at`].
pub fn matches_at(s: &[char], i: usize, pat: &[char]) -> (b: bool)
    ensures
        b == occurs_at(s@, i as int, pat@),
{
    if i > s.len() || pat.len() > s.len() - i {
        return false;
    }
    let mut k: usize = 0;
    while k < pat.len()
        invariant
            i + pat.len() <= s.len(),
            k <= pat.len(),
            forall|j: int| 0 <= j < k ==> s@[i + j] == pat@[j],
        decreases pat.len() - k,
    {
        if s[i + k] != pat[k] {
            assert(s@.subrange(i as int, i + pat.len())[k as int] != pat@[k as int]);
            return false;
        }
        k = k + 1;
    }
    assert(s@.subrange(i as int, i + pat.len()) =~= pat@);
    true
}

/// Appends the characters of `src` to `dst`.
pub fn push_all(dst: &mut Vec<char>, src: &[char])
    ensures
        final(dst)@ == old(dst)@ + src@,
{
    let mut k: usize = 0;
    while k < src.len()
        invariant
            k <= src.len(),
            dst@ == old(dst)@ + src@.take(k as int),
        decreases src.len() - k,
    {
        dst.push(src[k]);
        k = k + 1;
        assert(dst@ =~= old(dst)@ + src@.take(k as int));
    }
    assert(src@.take(src.len() as int) =~= src@);
}

/// `s` with every occurrence of `pat` replaced by `rep`.
pub fn replace_chars(s: &[char], pat: &[char], rep: &[char]) -> (out: Vec<char>)
    ensures
        out@ == replace_all(s@, pat@, rep@),
{
    let mut out: Vec<char> = Vec::new();
    let mut i: usize = 0;
    assert(s@.skip(0) =~= s@);
    assert(out@ + replace_all(s@, pat@, rep@) =~= replace_all(s@, pat@, rep@));
    while i < s.len()
        invariant
            i <= s.len(),
            replace_all(s@, pat@, rep@) == out@ + replace_all(s@.skip(i as int), pat@, rep@),
        decreases s.len() - i,
    {
        let ghost t = s@.skip(i as int);
        if pat.len() > 0 && matches_at(s, i, pat) {
            proof {
                assert(t.take(pat@.len() as int) =~= s@.subrange(i as int, i + pat.len()));
                assert(t.skip(pat@.len() as int) =~= s@.skip(i + pat.len()));
            }
            push_all(&mut out, pat_replacement(rep));
            i = i + pat.len();
        } else {
            proof {
                if pat@.len() > 0 && pat@.len() <= t.len() {
                    assert(t.take(pat@.len() as int) =~= s@.subrange(i as int, i + pat.len()));
                }
                assert(t.drop_first() =~= s@.skip(i + 1));
            }
            out.push(s[i]);
            i = i + 1;
        }
    }
    assert(s@.skip(s.len() as int) =~= Seq::<char>::empty());
    out
}

/// Position of the first occurrence of `pat` in `s` (`str::find`).
pub open spec fn find_in(s: Seq<char>, pat: Seq<char>) -> Option<int> {
    if exists|i: int| occurs_at(s, i, pat) {
        Some(choose|i: int| first_occurrence(s, pat, i))
    } else {
        None
    }
}

/// `i` is where `pat` first occurs in `s`.
pub open spec fn first_occurrence(s: Seq<char>, pat: Seq<char>, i: int) -> bool {
    occurs_at(s, i, pat) && forall|j: int| 0 <= j < i ==> !occurs_at(s, j, pat)
}

proof fn lemma_first_occurrence_unique(s: Seq<char>, pat: Seq<char>, i: int)
    requires
        first_occurrence(s, pat, i),
    ensures
        find_in(s, pat) == Some(i),
{
    let k = choose|k: int| first_occurrence(s, pat, k);
    assert(first_occurrence(s, pat, k));
    if k < i {
        assert(!occurs_at(s, k, pat));
    }
    if i < k {
        assert(!occurs_at(s, i, pat));
    }
}

proof fn lemma_occurs_skip(s: Seq<char>, start: int, j: int, q: Seq<char>)
    requires
        0 <= start <= s.len(),
        0 <= j,
    ensures
        occurs_at(s, j + start, q) == occurs_at(s.skip(start), j, q),
{
    let t = s.skip(start);
    if j + q.len() <= t.len() {
        assert(t.subrange(j, j + q.len()) =~= s.subrange(j + start, j + start + q.len()));
    }
}

proof fn lemma_found_first(s: Seq<char>, start: int, i: int, pat: Seq<char>)
    requires
        0 <= start <= i <= s.len(),
        occurs_at(s, i, pat),
        forall|j: int| start <= j < i ==> !occurs_at(s, j, pat),
    ensures
        find_in(s.skip(start), pat) == Some(i - start),
{
    let t = s.skip(start);
    lemma_occurs_skip(s, start, i - start, pat);
    assert forall|j: int| 0 <= j < i - start implies !occurs_at(t, j, pat) by {
        lemma_occurs_skip(s, start, j, pat);
    }
    lemma_first_occurrence_unique(t, pat, i - start);
}

/// Searches `s` from `start` for `pat`; the result is an index into `s`.
pub fn find_from(s: &[char], start: usize, pat: &[char]) -> (r: Option<usize>)
    requires
        start <= s.len(),
    ensures
        r matches Some(j) ==> start <= j && find_in(s@.skip(start as int), pat@) == Some(
            j - start,
        ) && occurs_at(s@, j as int, pat@),
        r matches Some(j) ==> forall|k: int| start <= k < j ==> !occurs_at(s@, k, pat@),
        r is None ==> find_in(s@.skip(start as int), pat@) is None,
        r is None ==> forall|j: int| start <= j ==> !occurs_at(s@, j, pat@),
{
    let mut i = start;
    while i < s.len()
        invariant
            start <= i <= s.len(),
            forall|j: int| start <= j < i ==> !occurs_at(s@, j, pat@),
        decreases s.len() - i,
    {
        if matches_at(s, i, pat) {
            proof {
                lemma_found_first(s@, start as int, i as int, pat@);
            }
            return Some(i);
        }
        i = i + 1;
    }
    if matches_at(s, i, pat) {
        proof {
            lemma_found_first(s@, start as int, i as int, pat@);
        }
        return Some(i);
    }
    proof {
        let t = s@.skip(start as int);
        assert forall|j: int| start <= j implies !occurs_at(s@, j, pat@) by {
            if j > i {
                assert(j + pat@.len() > s@.len());
            }
        }
        assert forall|j: int| !occurs_at(t, j, pat@) by {
            if 0 <= j {
                lemma_occurs_skip(s@, start as int, j, pat@);
            }
        }
    }
    None
}

/// The regex `<[^>]*>` replaced by a space, match by match: a `<` starts a
/// tag only when a `>` follows it somewhere, and the tag ends at the first `>`.
pub open spec fn strip_tags_spec(s: Seq<char>) -> Seq<char>
    decreases s.len(),
{
    if s.len() == 0 {
        s
    } else if s[0] == '<' && find_in(s, seq!['>']) is Some {
        let j = find_in(s, seq!['>'])->0;
        if 0 <= j < s.len() {
            seq![' '] + strip_tags_spec(s.skip(j + 1))
        } else {
            s
        }
    } else {
        seq![s[0]] + strip_tags_spec(s.drop_first())
    }
}

/// Replaces every markup tag with a space.
pub fn strip_tags(s: &[char]) -> (out: Vec<char>)
    ensures
        out@ == strip_tags_spec(s@),
{
    let gt = ['>'];
    let mut out: Vec<char> = Vec::new();
    let mut i: usize = 0;
    assert(s@.skip(0) =~= s@);
    assert(out@ + strip_tags_spec(s@) =~= strip_tags_spec(s@));
    while i < s.len()
        invariant
            i <= s.len(),
            gt@ == seq!['>'],
            strip_tags_spec(s@) == out@ + strip_tags_spec(s@.skip(i as int)),
        decreases s.len() - i,
    {
        let ghost t = s@.skip(i as int);
        assert(t[0] == s@[i as int]);
        let mut found: Option<usize> = None;
        if s[i] == '<' {
            found = find_from(s, i, gt.as_slice());
        }
        proof {
            if s@[i as int] == '<' {
                assert(found is None ==> find_in(t, seq!['>']) is None);
            }
        }
        match found {
            Some(j) => {
                proof {
                    assert(occurs_at(s@, j as int, seq!['>']));
                    assert(s@.subrange(j as int, j + 1)[0] == s@[j as int]);
                    assert(j < s.len());
                    assert(t.skip(j - i + 1) =~= s@.skip(j + 1));
                    assert(strip_tags_spec(t) == seq![' '] + strip_tags_spec(s@.skip(j + 1)));
                }
                out.push(' ');
                i = j + 1;
            },
            None => {
                proof {
                    assert(t.drop_first() =~= s@.skip(i + 1));
                }
                out.push(s[i]);
                i = i + 1;
            },
        }
    }
    assert(s@.skip(s.len() as int) =~= Seq::<char>::empty());
    out
}

/// Whether `s` starts with the opening tag of element `name` (ASCII case
/// ignored): `<`, the name, then `>` or a space before any attributes.
pub open spec fn opens_block(s: Seq<char>, name: Seq<char>) -> bool {
    let k = name.len() + 1;
    &&& s.len() > k
    &&& lower_seq(s.take(k as int)) == seq!['<'] + name
    &&& (s[k as int] == '>' || is_space(s[k as int]))
}

/// The closing tag of element `name`.
pub open spec fn close_tag(name: Seq<char>) -> Seq<char> {
    seq!['<', '/'] + name + seq!['>']
}

/// The length of the `name` element that starts `s`, through the first
/// closing tag after its name (ASCII case ignored); `None` when `s` does not
/// open one or it is never closed.
pub open spec fn block_close(s: Seq<char>, name: Seq<char>) -> Option<int> {
    let k = name.len() + 1;
    if opens_block(s, name) {
        match find_in(lower_seq(s.skip(k as int)), close_tag(name)) {
            Some(j) => Some(k + j + close_tag(name).len()),
            None => None,
        }
    } else {
        None
    }
}

/// The length of a `script` or `style` element that starts `s`.
pub open spec fn block_len(s: Seq<char>) -> Option<int> {
    match block_close(s, "script"@) {
        Some(n) => Some(n),
        None => block_close(s, "style"@),
    }
}

/// `s` with every closed `script` and `style` element, body included,
/// replaced by a space, scanning from the left.
pub open spec fn strip_blocks_spec(s: Seq<char>) -> Seq<char>
    decreases s.len(),
{
    if s.len() == 0 {
        s
    } else {
        match block_len(s) {
            Some(n) => if 0 < n <= s.len() {
                seq![' '] + strip_blocks_spec(s.skip(n))
            } else {
                s
            },
            None => seq![s[0]] + strip_blocks_spec(s.drop_first()),
        }
    }
}

/// [`block_close`] of `s` from position `i`, given `low`, the ASCII lower
/// case of `s`.
fn block_close_at(s: &[char], low: &[char], i: usize, name: &[char]) -> (r: Option<usize>)
    requires
        i <= s.len(),
        low@ == lower_seq(s@),
        name.len() < 16,
    ensures
        match r {
            Some(n) => block_close(s@.skip(i as int), name@) == Some(n as int) && 0 < n <= s.len() - i,
            None => block_close(s@.skip(i as int), name@) is None,
        },
{
    let ghost t = s@.skip(i as int);
    let k = name.len() + 1;
    if s.len() - i <= k {
        return None;
    }
    let head_ok = low[i] == '<' && matches_at(low, i + 1, name);
    proof {
        let lt = lower_seq(t.take(k as int));
        assert(lt =~= low@.subrange(i as int, i + k));
        if head_ok {
            assert(low@.subrange(i + 1, i + k) =~= name@);
            assert(lt =~= seq!['<'] + name@);
        }
        if lt == seq!['<'] + name@ {
            assert(low@[i as int] == lt[0]);
            assert(low@.subrange(i + 1, i + 1 + name.len()) =~= lt.skip(1));
            assert(lt.skip(1) =~= name@);
        }
        assert(t[k as int] == s@[i + k]);
    }
    if !head_ok || !(s[i + k] == '>' || space_char(s[i + k])) {
        return None;
    }
    let mut close: Vec<char> = Vec::new();
    close.push('<');
    close.push('/');
    push_all(&mut close, name);
    close.push('>');
    assert(close@ =~= close_tag(name@));
    proof {
        assert(lower_seq(t.skip(k as int)) =~= low@.skip(i + k));
    }
    match find_from(low, i + k, close.as_slice()) {
        Some(j) => {
            proof {
                assert(find_in(lower_seq(t.skip(k as int)), close_tag(name@)) == Some(j - (i + k)));
            }
            Some(j - i + close.len())
        },
        None => None,
    }
}

/// Removes every closed `script` and `style` element, body included, as
/// [`strip_blocks_spec`] says.
pub fn strip_blocks(s: &[char]) -> (out: Vec<char>)
    ensures
        out@ == strip_blocks_spec(s@),
{
    let low = lower_chars(s);
    let script = ['s', 'c', 'r', 'i', 'p', 't'];
    let style = ['s', 't', 'y', 'l', 'e'];
    proof {
        reveal_strlit("script");
        reveal_strlit("style");
    }
    assert(script@ =~= "script"@);
    assert(style@ =~= "style"@);
    let mut out: Vec<char> = Vec::new();
    let mut i: usize = 0;
    assert(s@.skip(0) =~= s@);
    assert(out@ + strip_blocks_spec(s@) =~= strip_blocks_spec(s@));
    while i < s.len()
        invariant
            i <= s.len(),
            low@ == lower_seq(s@),
            script@ == "script"@,
            style@ == "style"@,
            strip_blocks_spec(s@) == out@ + strip_blocks_spec(s@.skip(i as int)),
        decreases s.len() - i,
    {
        let ghost t = s@.skip(i as int);
        assert(t[0] == s@[i as int]);
        let found = match block_close_at(s, low.as_slice(), i, script.as_slice()) {
            Some(n) => Some(n),
            None => block_close_at(s, low.as_slice(), i, style.as_slice()),
        };
        assert(found matches Some(n) ==> block_len(t) == Some(n as int));
        assert(found is None ==> block_len(t) is None);
        match found {
            Some(n) => {
                proof {
                    assert(t.skip(n as int) =~= s@.skip(i + n));
                }
                out.push(' ');
                i = i + n;
            },
            None => {
                proof {
                    assert(t.drop_first() =~= s@.skip(i + 1));
                }
                out.push(s[i]);
                i = i + 1;
            },
        }
    }
    assert(s@.skip(s.len() as int) =~= Seq::<char>::empty());
    out
}

/// HTML entities that WFMU pages use, decoded in a fixed order with `&amp;`
/// last, so that correctly escaped text is not decoded twice.
pub open spec fn decode_entities_spec(s: Seq<char>) -> Seq<char> {
    let a = replace_all(s, "&quot;"@, "\""@);
    let b = replace_all(a, "&#039;"@, "'"@);
    let c = replace_all(b, "&#39;"@, "'"@);
    let d = replace_all(c, "&lt;"@, "<"@);
    let e = replace_all(d, "&gt;"@, ">"@);
    let f = replace_all(e, "&nbsp;"@, " "@);
    let g = replace_all(f, "&minus;"@, "-"@);
    replace_all(g, "&amp;"@, "&"@)
}

fn replace_lit(s: &[char], pat: &str, rep: &str) -> (out: Vec<char>)
    ensures
        out@ == replace_all(s@, pat@, rep@),
{
    let p = chars_of(pat);
    let r = chars_of(rep);
    replace_chars(s, p.as_slice(), r.as_slice())
}

/// Decodes the HTML entities listed in [`decode_entities_spec`].
pub fn decode_entities(s: &[char]) -> (out: Vec<char>)
    ensures
        out@ == decode_entities_spec(s@),
{
    let a = replace_lit(s, "&quot;", "\"");
    let b = replace_lit(a.as_slice(), "&#039;", "'");
    let c = replace_lit(b.as_slice(), "&#39;", "'");
    let d = replace_lit(c.as_slice(), "&lt;", "<");
    let e = replace_lit(d.as_slice(), "&gt;", ">");
    let f = replace_lit(e.as_slice(), "&nbsp;", " ");
    let g = replace_lit(f.as_slice(), "&minus;", "-");
    replace_lit(g.as_slice(), "&amp;", "&")
}

/// Script and style bodies removed, then markup stripped, entities
/// decoded, whitespace collapsed and trimmed.
pub open spec fn clean_text_spec(s: Seq<char>) -> Seq<char> {
    collapse_whitespace(decode_entities_spec(strip_tags_spec(strip_blocks_spec(s))))
}

/// Readable text of a markup fragment: script and style bodies are removed,
/// tags become spaces, entities are decoded and whitespace is collapsed and
/// trimmed.
pub fn clean_chars(s: &[char]) -> (out: Vec<char>)
    ensures
        out@ == clean_text_spec(s@),
{
    let blocks = strip_blocks(s);
    let stripped = strip_tags(blocks.as_slice());
    let decoded = decode_entities(stripped.as_slice());
    collapse_ws(decoded.as_slice())
}

/// [`clean_chars`] on a string.
pub fn clean_text(s: &str) -> (out: String)
    ensures
        out@ == clean_text_spec(s@),
{
    let cs = chars_of(s);
    let cleaned = clean_chars(cs.as_slice());
    string_from_chars(cleaned.as_slice())
}

/// The pieces of `s` between occurrences of `c` (`str::split(c)`); there is
/// always at least one piece.
pub open spec fn split_on(s: Seq<char>, c: char) -> Seq<Seq<char>>
    decreases s.len(),
{
    if s.len() == 0 {
        seq![Seq::empty()]
    } else {
        let w = split_on(s.drop_last(), c);
        if s.last() == c {
            w.push(Seq::empty())
        } else {
            w.update(w.len() - 1, w.last().push(s.last()))
        }
    }
}

proof fn lemma_split_nonempty(s: Seq<char>, c: char)
    ensures
        split_on(s, c).len() > 0,
    decreases s.len(),
{
    if s.len() > 0 {
        lemma_split_nonempty(s.drop_last(), c);
    }
}

/// The character sequences of a list of character vectors.
pub open spec fn views_of(v: Seq<Vec<char>>) -> Seq<Seq<char>> {
    v.map_values(|p: Vec<char>| p@)
}

/// `s.split(c)`.
pub fn split_chars(s: &[char], c: char) -> (pieces: Vec<Vec<char>>)
    ensures
        views_of(pieces@) == split_on(s@, c),
{
    let mut done: Vec<Vec<char>> = Vec::new();
    let mut cur: Vec<char> = Vec::new();
    let mut i: usize = 0;
    assert(s@.take(0) =~= Seq::<char>::empty());
    assert(views_of(done@).push(cur@) =~= split_on(s@.take(0), c));
    while i < s.len()
        invariant
            i <= s.len(),
            views_of(done@).push(cur@) == split_on(s@.take(i as int), c),
        decreases s.len() - i,
    {
        let ch = s[i];
        let ghost prev = s@.take(i as int);
        assert(s@.take(i + 1).drop_last() =~= prev);
        assert(s@.take(i + 1).last() == ch);
        proof {
            lemma_split_nonempty(prev, c);
        }
        if ch == c {
            let piece = cur;
            let ghost dv = views_of(done@);
            done.push(piece);
            assert(views_of(done@) =~= dv.push(piece@));
            cur = Vec::new();
            assert(views_of(done@).push(cur@) =~= dv.push(piece@).push(Seq::empty()));
        } else {
            let ghost before = cur@;
            cur.push(ch);
            assert(views_of(done@).push(cur@) =~= views_of(done@).push(before).update(
                views_of(done@).len() as int,
                before.push(ch),
            ));
        }
        i = i + 1;
    }
    assert(s@.take(s.len() as int) =~= s@);
    let ghost dv = views_of(done@);
    done.push(cur);
    assert(views_of(done@) =~= dv.push(cur@));
    done
}

/// Whether two character slices are equal.
pub fn chars_eq(a: &[char], b: &[char]) -> (r: bool)
    ensures
        r == (a@ == b@),
{
    if a.len() != b.len() {
        return false;
    }
    let mut k: usize = 0;
    while k < a.len()
        invariant
            a.len() == b.len(),
            k <= a.len(),
            forall|j: int| 0 <= j < k ==> a@[j] == b@[j],
        decreases a.len() - k,
    {
        if a[k] != b[k] {
            return false;
        }
        k = k + 1;
    }
    assert(a@ =~= b@);
    true
}

/// Whether two strings are equal.
pub fn str_eq(a: &str, b: &str) -> (r: bool)
    ensures
        r == (a@ == b@),
{
    let x = chars_of(a);
    let y = chars_of(b);
    chars_eq(x.as_slice(), y.as_slice())
}

/// Whether `s` starts with `p`.
pub fn starts_with(s: &[char], p: &[char]) -> (r: bool)
    ensures
        r == occurs_at(s@, 0, p@),
{
    matches_at(s, 0, p)
}

/// Whether `s` ends with `p`.
pub fn ends_with(s: &[char], p: &[char]) -> (r: bool)
    ensures
        r == (p@.len() <= s@.len() && occurs_at(s@, s@.len() - p@.len(), p@)),
{
    if p.len() > s.len() {
        false
    } else {
        matches_at(s, s.len() - p.len(), p)
    }
}

/// The concatenation of two strings.
pub fn concat_str(a: &str, b: &str) -> (r: String)
    ensures
        r@ == a@ + b@,
{
    let mut r = String::from_str(a);
    r.append(b);
    r
}

/// Position of the last occurrence of `pat` in `s` (`str::rfind`).
pub open spec fn rfind_in(s: Seq<char>, pat: Seq<char>) -> Option<int> {
    if exists|i: int| occurs_at(s, i, pat) {
        Some(choose|i: int| last_occurrence(s, pat, i))
    } else {
        None
    }
}

/// `i` is where `pat` last occurs in `s`.
pub open spec fn last_occurrence(s: Seq<char>, pat: Seq<char>, i: int) -> bool {
    occurs_at(s, i, pat) && forall|j: int| i < j ==> !occurs_at(s, j, pat)
}

/// The last occurrence of `pat` that lies within the first `end` characters.
pub fn rfind_before(s: &[char], end: usize, pat: &[char]) -> (r: Option<usize>)
    requires
        end <= s.len(),
    ensures
        r matches Some(i) ==> rfind_in(s@.take(end as int), pat@) == Some(i as int) && i
            + pat@.len() <= end,
        r is None ==> rfind_in(s@.take(end as int), pat@) is None,
{
    let ghost t = s@.take(end as int);
    if pat.len() > end {
        assert forall|j: int| !occurs_at(t, j, pat@) by {}
        return None;
    }
    let mut i: usize = end - pat.len();
    loop
        invariant
            pat.len() <= end <= s.len(),
            i + pat.len() <= end,
            t == s@.take(end as int),
            forall|j: int| i < j ==> !occurs_at(t, j, pat@),
        decreases i,
    {
        let hit = matches_at(s, i, pat);
        proof {
            if 0 <= i && i + pat@.len() <= t.len() {
                assert(t.subrange(i as int, i + pat@.len()) =~= s@.subrange(i as int, i + pat@.len()));
            }
        }
        if hit {
            proof {
                assert(last_occurrence(t, pat@, i as int));
                let k = choose|k: int| last_occurrence(t, pat@, k);
                if k > i {
                    assert(!occurs_at(t, k, pat@));
                }
                if k < i {
                    assert(!occurs_at(t, i as int, pat@));
                }
            }
            return Some(i);
        }
        if i == 0 {
            assert forall|j: int| !occurs_at(t, j, pat@) by {}
            return None;
        }
        i = i - 1;
    }
}

/// `s` split around the first occurrence of `pat` (`str::split_once`).
pub open spec fn split_once_spec(s: Seq<char>, pat: Seq<char>) -> Option<(Seq<char>, Seq<char>)> {
    match find_in(s, pat) {
        Some(i) => Some((s.take(i), s.skip(i + pat.len()))),
        None => None,
    }
}

/// Splits `s` around the first occurrence of `pat`.
pub fn split_once(s: &[char], pat: &[char]) -> (r: Option<(Vec<char>, Vec<char>)>)
    ensures
        match r {
            Some((a, b)) => split_once_spec(s@, pat@) == Some((a@, b@)),
            None => split_once_spec(s@, pat@) is None,
        },
{
    assert(s@.skip(0) =~= s@);
    match find_from(s, 0, pat) {
        Some(i) => {
            assert(occurs_at(s@, i as int, pat@));
            assert(i + pat@.len() <= s@.len());
            let plen = pat.len();
            assert(plen == pat@.len());
            assert(s@.len() == s.len());
            let a = slice_chars(s, 0, i);
            let b = slice_chars(s, i + plen, s.len());
            assert(a@ =~= s@.take(i as int));
            assert(b@ =~= s@.skip(i + pat.len()));
            Some((a, b))
        },
        None => None,
    }
}

/// `s` without any leading or trailing `c` (`str::trim_matches(c)`).
pub open spec fn trim_char(s: Seq<char>, c: char) -> Seq<char>
    decreases s.len(),
{
    if s.len() > 0 && s[0] == c {
        trim_char(s.drop_first(), c)
    } else if s.len() > 0 && s.last() == c {
        trim_char(s.drop_last(), c)
    } else {
        s
    }
}

/// Removes every leading and trailing `c`.
pub fn trim_char_chars(s: &[char], c: char) -> (out: Vec<char>)
    ensures
        out@ == trim_char(s@, c),
{
    let mut a: usize = 0;
    let mut b: usize = s.len();
    assert(s@.subrange(0, s.len() as int) =~= s@);
    while a < b && s[a] == c
        invariant
            a <= b == s.len(),
            trim_char(s@, c) == trim_char(s@.subrange(a as int, b as int), c),
        decreases b - a,
    {
        assert(s@.subrange(a as int, b as int).drop_first() =~= s@.subrange(a + 1, b as int));
        a = a + 1;
    }
    assert(s@.subrange(0, s.len() as int) =~= s@);
    while a < b && s[b - 1] == c
        invariant
            a <= b <= s.len(),
            a == b || s@[a as int] != c,
            trim_char(s@, c) == trim_char(s@.subrange(a as int, b as int), c),
        decreases b - a,
    {
        assert(s@.subrange(a as int, b as int).drop_last() =~= s@.subrange(a as int, b - 1));
        b = b - 1;
    }
    slice_chars(s, a, b)
}

/// `s` without any leading or trailing characters from `set`
/// (`str::trim_matches` with a set of characters).
pub open spec fn trim_set(s: Seq<char>, set: Seq<char>) -> Seq<char>
    decreases s.len(),
{
    if s.len() > 0 && set.contains(s[0]) {
        trim_set(s.drop_first(), set)
    } else if s.len() > 0 && set.contains(s.last()) {
        trim_set(s.drop_last(), set)
    } else {
        s
    }
}

/// Removes every leading and trailing character that belongs to `set`.
pub fn trim_set_chars(s: &[char], set: &[char]) -> (out: Vec<char>)
    ensures
        out@ == trim_set(s@, set@),
{
    let mut a: usize = 0;
    let mut b: usize = s.len();
    assert(s@.subrange(0, s.len() as int) =~= s@);
    while a < b && contains_char(set, s[a])
        invariant
            a <= b == s.len(),
            trim_set(s@, set@) == trim_set(s@.subrange(a as int, b as int), set@),
        decreases b - a,
    {
        assert(s@.subrange(a as int, b as int).drop_first() =~= s@.subrange(a + 1, b as int));
        a = a + 1;
    }
    while a < b && contains_char(set, s[b - 1])
        invariant
            a <= b <= s.len(),
            a == b || !set@.contains(s@[a as int]),
            trim_set(s@, set@) == trim_set(s@.subrange(a as int, b as int), set@),
        decreases b - a,
    {
        assert(s@.subrange(a as int, b as int).drop_last() =~= s@.subrange(a as int, b - 1));
        b = b - 1;
    }
    slice_chars(s, a, b)
}

/// `s` without any trailing characters from `set` (`str::trim_end_matches`).
pub open spec fn trim_end_set(s: Seq<char>, set: Seq<char>) -> Seq<char>
    decreases s.len(),
{
    if s.len() > 0 && set.contains(s.last()) {
        trim_end_set(s.drop_last(), set)
    } else {
        s
    }
}

/// Removes trailing characters that belong to `set`.
pub fn trim_end_chars(s: &[char], set: &[char]) -> (out: Vec<char>)
    ensures
        out@ == trim_end_set(s@, set@),
{
    let mut b: usize = s.len();
    assert(s@.take(s.len() as int) =~= s@);
    while b > 0 && contains_char(set, s[b - 1])
        invariant
            b <= s.len(),
            trim_end_set(s@, set@) == trim_end_set(s@.take(b as int), set@),
        decreases b,
    {
        assert(s@.take(b as int).drop_last() =~= s@.take(b - 1));
        b = b - 1;
    }
    slice_chars(s, 0, b)
}

/// Whether `c` occurs in `set`.
pub fn contains_char(set: &[char], c: char) -> (r: bool)
    ensures
        r == set@.contains(c),
{
    let mut k: usize = 0;
    while k < set.len()
        invariant
            k <= set.len(),
            forall|j: int| 0 <= j < k ==> set@[j] != c,
        decreases set.len() - k,
    {
        if set[k] == c {
            return true;
        }
        k = k + 1;
    }
    false
}

/// Whether `x` occurs in `v`.
pub fn contains_i64(v: &Vec<i64>, x: i64) -> (r: bool)
    ensures
        r == v@.contains(x),
{
    let mut k: usize = 0;
    while k < v.len()
        invariant
            k <= v.len(),
            forall|j: int| 0 <= j < k ==> v@[j] != x,
        decreases v.len() - k,
    {
        if v[k] == x {
            return true;
        }
        k = k + 1;
    }
    false
}

#[inline(always)]
fn pat_replacement(rep: &[char]) -> (r: &[char])
    ensures
        r@ == rep@,
{
    rep
}

/// The pieces of `s` between the occurrences of a non-empty `pat`, left to
/// right (`str::split` with a string pattern).
pub open spec fn split_pat(s: Seq<char>, pat: Seq<char>) -> Seq<Seq<char>>
    decreases s.len(),
{
    if pat.len() == 0 {
        seq![s]
    } else {
        match find_in(s, pat) {
            Some(i) => if 0 <= i && i + pat.len() <= s.len() {
                seq![s.take(i)] + split_pat(s.skip(i + pat.len()), pat)
            } else {
                seq![s]
            },
            None => seq![s],
        }
    }
}

/// Splits `s` at every occurrence of the non-empty `pat`.
pub fn split_pattern(s: &[char], pat: &[char]) -> (pieces: Vec<Vec<char>>)
    requires
        pat.len() > 0,
    ensures
        views_of(pieces@) == split_pat(s@, pat@),
{
    let mut pieces: Vec<Vec<char>> = Vec::new();
    let mut start: usize = 0;
    assert(s@.skip(0) =~= s@);
    loop
        invariant
            start <= s.len(),
            pat.len() > 0,
            views_of(pieces@) + split_pat(s@.skip(start as int), pat@) == split_pat(s@, pat@),
        decreases s.len() - start,
    {
        let ghost rest = s@.skip(start as int);
        match find_from(s, start, pat) {
            Some(j) => {
                assert(occurs_at(s@, j as int, pat@));
                let piece = slice_chars(s, start, j);
                assert(piece@ =~= rest.take(j - start));
                assert(s@.skip(j + pat.len()) =~= rest.skip(j - start + pat.len()));
                let ghost before = pieces@;
                pieces.push(piece);
                assert(views_of(pieces@) =~= views_of(before).push(piece@));
                assert(views_of(pieces@) + split_pat(s@.skip(j + pat.len()), pat@) =~= views_of(before)
                    + (seq![piece@] + split_pat(s@.skip(j + pat.len()), pat@)));
                start = j + pat.len();
            },
            None => {
                let piece = slice_chars(s, start, s.len());
                assert(piece@ =~= rest);
                let ghost before = pieces@;
                pieces.push(piece);
                assert(views_of(pieces@) =~= views_of(before).push(piece@));
                assert(views_of(pieces@) =~= views_of(before) + seq![rest]);
                return pieces;
            },
        }
    }
}

/// `s` without any leading `c` (`str::trim_start_matches(c)`).
pub open spec fn trim_start_char(s: Seq<char>, c: char) -> Seq<char>
    decreases s.len(),
{
    if s.len() > 0 && s[0] == c {
        trim_start_char(s.drop_first(), c)
    } else {
        s
    }
}

/// Removes every leading `c`.
pub fn trim_start_char_chars(s: &[char], c: char) -> (out: Vec<char>)
    ensures
        out@ == trim_start_char(s@, c),
{
    let mut a: usize = 0;
    assert(s@.skip(0) =~= s@);
    while a < s.len() && s[a] == c
        invariant
            a <= s.len(),
            trim_start_char(s@, c) == trim_start_char(s@.skip(a as int), c),
        decreases s.len() - a,
    {
        assert(s@.skip(a as int).drop_first() =~= s@.skip(a + 1));
        a = a + 1;
    }
    let out = slice_chars(s, a, s.len());
    assert(out@ =~= s@.skip(a as int));
    out
}

} // verus!
