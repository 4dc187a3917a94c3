//! Archive-year sub-pages of a show, discovered from its "OLDER PLAYLISTS"
//! dropdown and from plain year links.
use vstd::prelude::*;
use crate::dates::{ascii_lower, lower_char};
use crate::num::{all_digits, is_digit};
use crate::pattern::{group_of, group_text, match_spans, matches_of, regex_captures, Span};
use crate::text::{chars_eq, chars_of, push_all, slice_chars, string_from_chars, views_of};
use crate::wfmu::{nav_popup_block, nav_popup_spec};

verus! {

/// Year links in the dropdown: `<option value="/playlists/...">`, any
/// attribute order, quotes and casing, optionally with the site's origin.
pub const OPTION_PATH_RE: &'static str = r#"(?i)<option[^>]*\svalue=["'](?:https?://(?:www\.)?wfmu\.org)?(/playlists/[a-z0-9_-]+)["']"#;

/// Plain year links: `<a href="/playlists/...">`, with the same tolerance.
pub const ANCHOR_PATH_RE: &'static str = r#"(?i)<a[^>]*\shref=["'](?:https?://(?:www\.)?wfmu\.org)?(/playlists/[a-z0-9_-]+)["']"#;

/// Group 1 of every match of `pattern` in `text`.
pub open spec fn all_group1(pattern: Seq<char>, text: Seq<char>) -> Seq<Seq<char>> {
    regex_captures(pattern, text).map_values(|m: Seq<Option<Span>>| group_text(text, m, 1))
}

/// ASCII lower case of a string.
pub open spec fn lower_seq(s: Seq<char>) -> Seq<char> {
    s.map_values(|c: char| ascii_lower(c))
}

/// The year page a linked path names, re-emitted with the caller's show-id
/// casing: `/playlists/{show_id}` (compared up to ASCII case) followed by
/// one or more ASCII digits.
pub open spec fn year_path(path: Seq<char>, show_id: Seq<char>) -> Option<Seq<char>> {
    let prefix = "/playlists/"@ + show_id;
    let lp = lower_seq(prefix);
    let lower = lower_seq(path);
    if lp.len() <= lower.len() && lower.take(lp.len() as int) == lp {
        let suffix = lower.skip(lp.len() as int);
        if suffix.len() > 0 && all_digits(suffix) {
            Some(prefix + suffix)
        } else {
            None
        }
    } else {
        None
    }
}

/// The candidate paths: the dropdown's options, then the page's links.
pub open spec fn year_candidates(html: Seq<char>) -> Seq<Seq<char>> {
    let from_dropdown = match nav_popup_spec(html) {
        Some(block) => all_group1(OPTION_PATH_RE@, block),
        None => Seq::empty(),
    };
    from_dropdown + all_group1(ANCHOR_PATH_RE@, html)
}

/// Lexicographic order of strings by characters, which is the byte order
/// of their UTF-8 encodings (`Ord for String`).
pub open spec fn lex_lt(a: Seq<char>, b: Seq<char>) -> bool
    decreases a.len(),
{
    if a.len() == 0 {
        b.len() > 0
    } else if b.len() == 0 {
        false
    } else if a[0] != b[0] {
        a[0] < b[0]
    } else {
        lex_lt(a.drop_first(), b.drop_first())
    }
}

/// Each string comes strictly after the next one.
pub open spec fn strictly_descending(s: Seq<Seq<char>>) -> bool {
    forall|i: int, j: int| 0 <= i && j == i + 1 && j < s.len() ==> lex_lt(#[trigger] s[j], #[trigger] s[i])
}

/// A year page counts when [`year_path`] accepts one of the candidates.
pub open spec fn is_year_page(html: Seq<char>, show_id: Seq<char>, y: Seq<char>) -> bool {
    exists|k: int| 0 <= k < year_candidates(html).len() && year_path(#[trigger] year_candidates(html)[k], show_id) == Some(y)
}

proof fn lemma_lex_total(a: Seq<char>, b: Seq<char>)
    ensures
        lex_lt(a, b) || a == b || lex_lt(b, a),
        !(lex_lt(a, b) && lex_lt(b, a)),
    decreases a.len(),
{
    if a.len() > 0 && b.len() > 0 {
        lemma_lex_total(a.drop_first(), b.drop_first());
        if a[0] == b[0] && a.drop_first() == b.drop_first() {
            assert(a =~= seq![a[0]] + a.drop_first());
            assert(b =~= seq![b[0]] + b.drop_first());
        }
    } else if a.len() == 0 && b.len() == 0 {
        assert(a =~= b);
    }
}

proof fn lemma_lex_irreflexive(a: Seq<char>)
    ensures
        !lex_lt(a, a),
    decreases a.len(),
{
    if a.len() > 0 {
        lemma_lex_irreflexive(a.drop_first());
    }
}

fn lex_less(a: &[char], b: &[char]) -> (r: bool)
    ensures
        r == lex_lt(a@, b@),
{
    let mut i: usize = 0;
    assert(a@.skip(0) =~= a@);
    assert(b@.skip(0) =~= b@);
    loop
        invariant
            i <= a.len(),
            i <= b.len(),
            lex_lt(a@, b@) == lex_lt(a@.skip(i as int), b@.skip(i as int)),
        decreases a.len() - i,
    {
        if i == a.len() {
            return i < b.len();
        }
        if i == b.len() {
            return false;
        }
        if a[i] != b[i] {
            return a[i] < b[i];
        }
        assert(a@.skip(i as int).drop_first() =~= a@.skip(i + 1));
        assert(b@.skip(i as int).drop_first() =~= b@.skip(i + 1));
        i = i + 1;
    }
}

/// ASCII lower case of a string.
pub fn lower_chars(s: &[char]) -> (r: Vec<char>)
    ensures
        r@ == lower_seq(s@),
{
    let mut out: Vec<char> = Vec::new();
    let mut i: usize = 0;
    while i < s.len()
        invariant
            i <= s.len(),
            out@ == lower_seq(s@.take(i as int)),
        decreases s.len() - i,
    {
        out.push(lower_char(s[i]));
        i = i + 1;
        assert(out@ =~= lower_seq(s@.take(i as int)));
    }
    assert(s@.take(s.len() as int) =~= s@);
    out
}

fn year_path_exec(path: &[char], prefix: &Vec<char>, lp: &Vec<char>, show_id: Ghost<Seq<char>>) -> (r:
    Option<Vec<char>>)
    requires
        prefix@ == "/playlists/"@ + show_id@,
        lp@ == lower_seq(prefix@),
    ensures
        match r {
            Some(v) => year_path(path@, show_id@) == Some(v@),
            None => year_path(path@, show_id@) is None,
        },
{
    let lower = lower_chars(path);
    if lp.len() > lower.len() {
        return None;
    }
    let head = slice_chars(lower.as_slice(), 0, lp.len());
    assert(head@ =~= lower@.take(lp@.len() as int));
    if !chars_eq(head.as_slice(), lp.as_slice()) {
        return None;
    }
    assert(lower@.take(lp@.len() as int) =~= lp@);
    let suffix = slice_chars(lower.as_slice(), lp.len(), lower.len());
    assert(suffix@ =~= lower@.skip(lp@.len() as int));
    if suffix.len() == 0 {
        return None;
    }
    let mut k: usize = 0;
    while k < suffix.len()
        invariant
            k <= suffix.len(),
            forall|j: int| 0 <= j < k ==> is_digit(#[trigger] suffix@[j]),
            prefix@ == "/playlists/"@ + show_id@,
            lp@ == lower_seq(prefix@),
            lp@.len() <= lower_seq(path@).len(),
            lower_seq(path@).take(lp@.len() as int) == lp@,
            suffix@ == lower_seq(path@).skip(lp@.len() as int),
        decreases suffix.len() - k,
    {
        if !('0' <= suffix[k] && suffix[k] <= '9') {
            assert(!is_digit(suffix@[k as int]));
            assert(!all_digits(suffix@));
            return None;
        }
        k = k + 1;
    }
    let mut out = prefix.clone();
    push_all(&mut out, suffix.as_slice());
    Some(out)
}

/// Inserts `x` into a strictly descending list unless it is already there.
fn insert_descending(years: &mut Vec<Vec<char>>, x: Vec<char>)
    requires
        strictly_descending(views_of(old(years)@)),
    ensures
        strictly_descending(views_of(final(years)@)),
        forall|y: Seq<char>| views_of(final(years)@).contains(y) <==> (views_of(old(years)@).contains(y) || y == x@),
{
    let ghost old_v = views_of(years@);
    let mut p: usize = 0;
    while p < years.len() && lex_less(x.as_slice(), years[p].as_slice())
        invariant
            p <= years.len(),
            views_of(years@) == old_v,
            forall|j: int| 0 <= j < p ==> lex_lt(x@, #[trigger] old_v[j]),
        decreases years.len() - p,
    {
        assert(old_v[p as int] == years@[p as int]@);
        p = p + 1;
    }
    if p < years.len() {
        assert(old_v[p as int] == years@[p as int]@);
        if chars_eq(years[p].as_slice(), x.as_slice()) {
            assert(old_v[p as int] == x@);
            return;
        }
        proof {
            lemma_lex_total(x@, old_v[p as int]);
            assert(lex_lt(old_v[p as int], x@));
        }
    }
    proof {
        lemma_lex_irreflexive(x@);
        assert forall|j: int| 0 <= j < old_v.len() implies old_v[j] != x@ by {
            if j >= p {
                lemma_descending_below(old_v, p as int, j, x@);
            } else {
                assert(lex_lt(x@, old_v[j]));
            }
        }
    }
    let ghost xv = x@;
    years.insert(p, x);
    let ghost nv = views_of(years@);
    assert(nv =~= old_v.insert(p as int, xv));
    assert forall|i: int, j: int| 0 <= i && j == i + 1 && j < nv.len() implies lex_lt(
        #[trigger] nv[j],
        #[trigger] nv[i],
    ) by {
        if j < p {
            assert(nv[i] == old_v[i] && nv[j] == old_v[j]);
        } else if j == p {
            assert(nv[i] == old_v[i]);
        } else if i == p {
            assert(nv[j] == old_v[p as int]);
        } else {
            assert(nv[i] == old_v[i - 1] && nv[j] == old_v[j - 1]);
        }
    }
    assert forall|y: Seq<char>| nv.contains(y) <==> (old_v.contains(y) || y == xv) by {
        if nv.contains(y) {
            let k = choose|k: int| 0 <= k < nv.len() && nv[k] == y;
            if k < p {
                assert(old_v[k] == y);
            } else if k > p {
                assert(old_v[k - 1] == y);
            }
        }
        if old_v.contains(y) {
            let k = choose|k: int| 0 <= k < old_v.len() && old_v[k] == y;
            if k < p {
                assert(nv[k] == y);
            } else {
                assert(nv[k + 1] == y);
            }
        }
        if y == xv {
            assert(nv[p as int] == y);
        }
    }
}

proof fn lemma_lex_trans(a: Seq<char>, b: Seq<char>, c: Seq<char>)
    requires
        lex_lt(a, b),
        lex_lt(b, c),
    ensures
        lex_lt(a, c),
    decreases a.len(),
{
    if a.len() > 0 && b.len() > 0 && c.len() > 0 {
        if a[0] == b[0] && b[0] == c[0] {
            lemma_lex_trans(a.drop_first(), b.drop_first(), c.drop_first());
        }
    }
}

/// In a strictly descending list, an entry at or after a position whose
/// value lies below `x` lies below `x` too.
proof fn lemma_descending_below(v: Seq<Seq<char>>, p: int, j: int, x: Seq<char>)
    requires
        strictly_descending(v),
        0 <= p <= j < v.len(),
        p < v.len() ==> lex_lt(v[p], x),
    ensures
        lex_lt(v[j], x),
    decreases j - p,
{
    if j > p {
        lemma_descending_below(v, p, j - 1, x);
        let i = j - 1;
        assert(lex_lt(v[j], v[i]));
        lemma_lex_trans(v[j], v[j - 1], x);
    }
}

fn group1_list(pattern: &str, text: &str) -> (r: Vec<Vec<char>>)
    ensures
        views_of(r@) == all_group1(pattern@, text@),
{
    let ms = matches_of(pattern, text);
    let ghost gm = regex_captures(pattern@, text@);
    let mut out: Vec<Vec<char>> = Vec::new();
    let mut i: usize = 0;
    while i < ms.len()
        invariant
            i <= ms.len(),
            gm == regex_captures(pattern@, text@),
            match_spans(ms@) == gm,
            forall|k: int| 0 <= k < ms@.len() ==> crate::pattern::match_in(text@, #[trigger] ms@[k]@),
            views_of(out@) == all_group1(pattern@, text@).take(i as int),
        decreases ms.len() - i,
    {
        assert(gm[i as int] == ms@[i as int]@);
        let g = group_of(text, &ms[i], 1);
        let ghost before = out@;
        let gc = chars_of(g);
        out.push(gc);
        let ghost all = all_group1(pattern@, text@);
        assert(all[i as int] == g@);
        assert(views_of(out@) =~= views_of(before).push(g@));
        assert(all.take(i + 1) =~= all.take(i as int).push(all[i as int]));
        i = i + 1;
    }
    assert(all_group1(pattern@, text@).take(ms.len() as int) =~= all_group1(pattern@, text@));
    out
}

/// Discovers a show's archive-year pages: year links found in the "OLDER
/// PLAYLISTS" dropdown or among the page's plain links, kept when they are
/// `/playlists/{show_id}` (up to ASCII case) followed by digits, written
/// with the caller's show-id casing, each once, newest (greatest) first.
pub fn parse_show_archive_years(html: &str, show_id: &str) -> (r: Vec<String>)
    ensures
        strictly_descending(r@.map_values(|s: String| s@)),
        forall|y: Seq<char>|
            r@.map_values(|s: String| s@).contains(y) <==> is_year_page(html@, show_id@, y),
{
    proof {
        reveal_strlit("/playlists/");
    }
    let mut prefix = chars_of("/playlists/");
    let sc = chars_of(show_id);
    push_all(&mut prefix, sc.as_slice());
    let lp = lower_chars(prefix.as_slice());
    let mut cands: Vec<Vec<char>> = match nav_popup_block(html) {
        Some(block) => group1_list(OPTION_PATH_RE, block.as_str()),
        None => Vec::new(),
    };
    let mut anchors = group1_list(ANCHOR_PATH_RE, html);
    let ghost dv = views_of(cands@);
    cands.append(&mut anchors);
    assert(views_of(cands@) =~= year_candidates(html@));
    let ghost cv = views_of(cands@);
    let mut years: Vec<Vec<char>> = Vec::new();
    let mut i: usize = 0;
    while i < cands.len()
        invariant
            i <= cands.len(),
            cv == views_of(cands@),
            cv == year_candidates(html@),
            prefix@ == "/playlists/"@ + show_id@,
            lp@ == lower_seq(prefix@),
            strictly_descending(views_of(years@)),
            forall|y: Seq<char>|
                views_of(years@).contains(y) <==> exists|k: int|
                    0 <= k < i && year_path(#[trigger] cv[k], show_id@) == Some(y),
        decreases cands.len() - i,
    {
        assert(cv[i as int] == cands@[i as int]@);
        let ghost before = views_of(years@);
        match year_path_exec(cands[i].as_slice(), &prefix, &lp, Ghost(show_id@)) {
            Some(y) => {
                let ghost yv = y@;
                insert_descending(&mut years, y);
                assert forall|z: Seq<char>| views_of(years@).contains(z) <==> exists|k: int|
                    0 <= k < i + 1 && year_path(#[trigger] cv[k], show_id@) == Some(z) by {
                    if z == yv {
                        assert(year_path(cv[i as int], show_id@) == Some(z));
                    }
                    if exists|k: int| 0 <= k < i + 1 && year_path(#[trigger] cv[k], show_id@) == Some(z) {
                        let k = choose|k: int| 0 <= k < i + 1 && year_path(#[trigger] cv[k], show_id@) == Some(z);
                        if k < i {
                            assert(before.contains(z));
                        }
                    }
                }
            },
            None => {
                assert forall|z: Seq<char>| views_of(years@).contains(z) <==> exists|k: int|
                    0 <= k < i + 1 && year_path(#[trigger] cv[k], show_id@) == Some(z) by {
                    if exists|k: int| 0 <= k < i + 1 && year_path(#[trigger] cv[k], show_id@) == Some(z) {
                        let k = choose|k: int| 0 <= k < i + 1 && year_path(#[trigger] cv[k], show_id@) == Some(z);
                        assert(k < i);
                    }
                }
            },
        }
        i = i + 1;
    }
    let mut out: Vec<String> = Vec::new();
    let mut j: usize = 0;
    while j < years.len()
        invariant
            j <= years.len(),
            out@.map_values(|s: String| s@) == views_of(years@).take(j as int),
        decreases years.len() - j,
    {
        let ghost before = out@;
        let st = string_from_chars(years[j].as_slice());
        assert(views_of(years@)[j as int] == st@);
        out.push(st);
        assert(out@.map_values(|s: String| s@) =~= before.map_values(|s: String| s@).push(st@));
        assert(views_of(years@).take(j + 1) =~= views_of(years@).take(j as int).push(st@));
        j = j + 1;
    }
    assert(views_of(years@).take(years.len() as int) =~= views_of(years@));
    out
}

/// A show's own page is never one of its archive years, so following the
/// years never re-scrapes the show; every year page extends the show's path
/// with digits.
pub proof fn archive_years_exclude_show_page(html: Seq<char>, show_id: Seq<char>, y: Seq<char>)
    requires
        is_year_page(html, show_id, y),
    ensures
        y != "/playlists/"@ + show_id,
        y.len() > ("/playlists/"@ + show_id).len(),
        y.take(("/playlists/"@ + show_id).len() as int) == "/playlists/"@ + show_id,
        all_digits(y.skip(("/playlists/"@ + show_id).len() as int)),
{
    let k = choose|k: int|
        0 <= k < year_candidates(html).len() && year_path(#[trigger] year_candidates(html)[k], show_id)
            == Some(y);
    let prefix = "/playlists/"@ + show_id;
    let path = year_candidates(html)[k];
    let lp = lower_seq(prefix);
    let suffix = lower_seq(path).skip(lp.len() as int);
    assert(y == prefix + suffix);
    assert(y.take(prefix.len() as int) =~= prefix);
    assert(y.skip(prefix.len() as int) =~= suffix);
}

} // verus!
