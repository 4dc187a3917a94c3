//! Portable file names for downloaded episodes.
use vstd::prelude::*;
use crate::archive::{lower_chars, lower_seq};
use crate::num::{i64_chars, int_decimal};
use crate::text::{
    chars_eq, chars_of, collapse_whitespace, collapse_ws, push_all, slice_chars, string_from_chars,
    trim_chars, trim_set, trim_set_chars, trim_spaces,
};

verus! {

/// Progress of a download, as reported to the interface.
#[derive(Clone)]
pub struct DownloadProgress {
    pub episode_id: i64,
    pub bytes: i64,
    pub total: i64,
    /// "downloading", "done" or "error".
    pub status: String,
    pub error: Option<String>,
}

/// Characters that Windows refuses in file names.
pub open spec fn illegal_in_filename(c: char) -> bool {
    c == '\\' || c == '/' || c == ':' || c == '*' || c == '?' || c == '"' || c == '<' || c == '>'
        || c == '|'
}

/// Unicode control characters (general category Cc), as `char::is_control`.
pub open spec fn is_control_char(c: char) -> bool {
    ('\0' <= c && c <= '\x1F') || ('\x7F' <= c && c <= '\u{9F}')
}

/// One character of a file name: illegal ones become `-`, control
/// characters become a space.
pub open spec fn filename_char(c: char) -> char {
    if illegal_in_filename(c) {
        '-'
    } else if is_control_char(c) {
        ' '
    } else {
        c
    }
}

/// Dots and spaces, which Windows drops from either end of a name.
pub open spec fn dot_space() -> Seq<char> {
    seq!['.', ' ']
}

/// The file name that `name` becomes: characters mapped by
/// [`filename_char`], whitespace collapsed, dots and spaces trimmed from
/// both ends, cut to `max_chars` characters and trimmed again; `"download"`
/// when nothing is left.
pub open spec fn sanitize_filename_spec(name: Seq<char>, max_chars: nat) -> Seq<char> {
    let mapped = name.map_values(|c: char| filename_char(c));
    let trimmed = trim_set(collapse_whitespace(mapped), dot_space());
    let cut = if max_chars < trimmed.len() {
        trimmed.take(max_chars as int)
    } else {
        trimmed
    };
    let capped = trim_set(cut, dot_space());
    if capped.len() == 0 {
        "download"@
    } else {
        capped
    }
}

fn filename_char_exec(c: char) -> (r: char)
    ensures
        r == filename_char(c),
{
    if c == '\\' || c == '/' || c == ':' || c == '*' || c == '?' || c == '"' || c == '<' || c
        == '>' || c == '|' {
        '-'
    } else if ('\0' <= c && c <= '\x1F') || ('\x7F' <= c && c <= '\u{9F}') {
        ' '
    } else {
        c
    }
}

/// Strips characters that are illegal in Windows file names and caps the
/// length at `max_chars` characters.
pub fn sanitize_filename(name: &str, max_chars: usize) -> (r: String)
    ensures
        r@ == sanitize_filename_spec(name@, max_chars as nat),
{
    let cs = chars_of(name);
    let mut mapped: Vec<char> = Vec::new();
    let mut i: usize = 0;
    while i < cs.len()
        invariant
            i <= cs.len(),
            cs@ == name@,
            mapped@ == cs@.take(i as int).map_values(|c: char| filename_char(c)),
        decreases cs.len() - i,
    {
        mapped.push(filename_char_exec(cs[i]));
        i = i + 1;
        assert(mapped@ =~= cs@.take(i as int).map_values(|c: char| filename_char(c)));
    }
    assert(cs@.take(cs.len() as int) =~= cs@);
    let collapsed = collapse_ws(mapped.as_slice());
    let ds: Vec<char> = vec!['.', ' '];
    assert(ds@ =~= dot_space());
    let trimmed = trim_set_chars(collapsed.as_slice(), ds.as_slice());
    let n = if max_chars < trimmed.len() {
        max_chars
    } else {
        trimmed.len()
    };
    let cut = slice_chars(trimmed.as_slice(), 0, n);
    assert(max_chars < trimmed@.len() ==> cut@ =~= trimmed@.take(max_chars as int));
    assert(max_chars >= trimmed@.len() ==> cut@ =~= trimmed@);
    let capped = trim_set_chars(cut.as_slice(), ds.as_slice());
    if capped.len() == 0 {
        proof {
            reveal_strlit("download");
        }
        "download".to_string()
    } else {
        string_from_chars(capped.as_slice())
    }
}

/// The descriptive part of a download name: the trimmed show name (or
/// `"Episode"`), then the air date and the title, each trimmed and only when
/// not blank, joined by `" - "`.
pub open spec fn name_prefix(show: Seq<char>, air: Option<Seq<char>>, title: Option<Seq<char>>) -> Seq<char> {
    let s = trim_spaces(show);
    let s1 = if s.len() == 0 {
        "Episode"@
    } else {
        s
    };
    let s2 = match air {
        Some(a) => if trim_spaces(a).len() > 0 {
            s1 + " - "@ + trim_spaces(a)
        } else {
            s1
        },
        None => s1,
    };
    match title {
        Some(t) => if trim_spaces(t).len() > 0 {
            s2 + " - "@ + trim_spaces(t)
        } else {
            s2
        },
        None => s2,
    }
}

/// `" - {episode_id}"`, which ends every download name.
pub open spec fn name_suffix(episode_id: int) -> Seq<char> {
    " - "@ + int_decimal(episode_id)
}

/// How many characters the sanitized prefix may keep so that the whole
/// name stays within 120 characters (at least one).
pub open spec fn prefix_limit(suffix_len: nat) -> nat {
    if suffix_len < 119 {
        (120 - suffix_len) as nat
    } else {
        1
    }
}

/// "Show - Air date - Title - Episode id".
pub open spec fn build_name_spec(
    show: Seq<char>,
    air: Option<Seq<char>>,
    title: Option<Seq<char>>,
    episode_id: int,
) -> Seq<char> {
    let suffix = name_suffix(episode_id);
    sanitize_filename_spec(name_prefix(show, air, title), prefix_limit(suffix.len())) + suffix
}

/// The audio file extensions a download keeps; anything else is saved as mp3.
pub open spec fn known_audio_extension(e: Seq<char>) -> bool {
    e == seq!['m', 'p', '3'] || e == seq!['m', 'p', '4'] || e == seq!['m', '4', 'a'] || e
        == seq!['a', 'a', 'c']
}

/// The extension of a downloaded file, given the extension of the audio URL's
/// path: its ASCII lower case when that is a known audio extension, else "mp3".
pub open spec fn audio_extension_spec(ext: Option<Seq<char>>) -> Seq<char> {
    match ext {
        Some(e) => if known_audio_extension(lower_seq(e)) {
            lower_seq(e)
        } else {
            seq!['m', 'p', '3']
        },
        None => seq!['m', 'p', '3'],
    }
}

/// Executable [`audio_extension_spec`].
pub fn audio_extension(ext: Option<&str>) -> (r: String)
    ensures
        r@ == audio_extension_spec(
            match ext {
                Some(e) => Some(e@),
                None => None,
            },
        ),
{
    let mp3: Vec<char> = vec!['m', 'p', '3'];
    let mp4: Vec<char> = vec!['m', 'p', '4'];
    let m4a: Vec<char> = vec!['m', '4', 'a'];
    let aac: Vec<char> = vec!['a', 'a', 'c'];
    assert(mp3@ =~= seq!['m', 'p', '3']);
    assert(mp4@ =~= seq!['m', 'p', '4']);
    assert(m4a@ =~= seq!['m', '4', 'a']);
    assert(aac@ =~= seq!['a', 'a', 'c']);
    match ext {
        Some(e) => {
            let lower = lower_chars(chars_of(e).as_slice());
            if chars_eq(lower.as_slice(), mp3.as_slice()) || chars_eq(lower.as_slice(), mp4.as_slice())
                || chars_eq(lower.as_slice(), m4a.as_slice()) || chars_eq(
                lower.as_slice(),
                aac.as_slice(),
            ) {
                string_from_chars(lower.as_slice())
            } else {
                string_from_chars(mp3.as_slice())
            }
        },
        None => string_from_chars(mp3.as_slice()),
    }
}

/// Builds "Show - Air date - Title - Episode id". The id is always present
/// so two episodes with matching metadata cannot collide on one file name.
pub fn build_name(show: &str, air: Option<&str>, title: Option<&str>, episode_id: i64) -> (r: String)
    ensures
        r@ == build_name_spec(
            show@,
            match air {
                Some(a) => Some(a@),
                None => None,
            },
            match title {
                Some(t) => Some(t@),
                None => None,
            },
            episode_id as int,
        ),
{
    proof {
        reveal_strlit("Episode");
        reveal_strlit(" - ");
    }
    let sc = chars_of(show);
    let mut s = trim_chars(sc.as_slice());
    if s.len() == 0 {
        s = chars_of("Episode");
    }
    let sep = chars_of(" - ");
    match air {
        Some(a) => {
            let ac = chars_of(a);
            let at = trim_chars(ac.as_slice());
            if at.len() > 0 {
                push_all(&mut s, sep.as_slice());
                push_all(&mut s, at.as_slice());
            }
        },
        None => {},
    }
    match title {
        Some(t) => {
            let tc = chars_of(t);
            let tt = trim_chars(tc.as_slice());
            if tt.len() > 0 {
                push_all(&mut s, sep.as_slice());
                push_all(&mut s, tt.as_slice());
            }
        },
        None => {},
    }
    let mut suffix = sep.clone();
    let digits = i64_chars(episode_id);
    push_all(&mut suffix, digits.as_slice());
    let limit: usize = if suffix.len() < 119 {
        120 - suffix.len()
    } else {
        1
    };
    let prefix = string_from_chars(s.as_slice());
    let clean = sanitize_filename(prefix.as_str(), limit);
    let mut out = chars_of(clean.as_str());
    push_all(&mut out, suffix.as_slice());
    string_from_chars(out.as_slice())
}

proof fn lemma_trim_set_len(s: Seq<char>, set: Seq<char>)
    ensures
        trim_set(s, set).len() <= s.len(),
    decreases s.len(),
{
    if s.len() > 0 && set.contains(s[0]) {
        lemma_trim_set_len(s.drop_first(), set);
    } else if s.len() > 0 && set.contains(s.last()) {
        lemma_trim_set_len(s.drop_last(), set);
    }
}

/// The sanitized name is `"download"` or at most `max_chars` long.
proof fn lemma_sanitize_len(name: Seq<char>, max_chars: nat)
    ensures
        sanitize_filename_spec(name, max_chars) == "download"@ || sanitize_filename_spec(
            name,
            max_chars,
        ).len() <= max_chars,
{
    let mapped = name.map_values(|c: char| filename_char(c));
    let trimmed = trim_set(collapse_whitespace(mapped), dot_space());
    let cut = if max_chars < trimmed.len() {
        trimmed.take(max_chars as int)
    } else {
        trimmed
    };
    lemma_trim_set_len(cut, dot_space());
}

/// A download name is never longer than 120 characters.
pub proof fn build_name_fits(
    show: Seq<char>,
    air: Option<Seq<char>>,
    title: Option<Seq<char>>,
    episode_id: i64,
)
    ensures
        build_name_spec(show, air, title, episode_id as int).len() <= 120,
{
    reveal_strlit(" - ");
    reveal_strlit("download");
    crate::num::lemma_i64_decimal_len(episode_id);
    let suffix = name_suffix(episode_id as int);
    assert(suffix.len() <= 23);
    lemma_sanitize_len(name_prefix(show, air, title), prefix_limit(suffix.len()));
}

/// Two different episodes never get the same download name, whatever their
/// show, date and title.
pub proof fn build_names_distinct(
    show1: Seq<char>,
    air1: Option<Seq<char>>,
    title1: Option<Seq<char>>,
    id1: int,
    show2: Seq<char>,
    air2: Option<Seq<char>>,
    title2: Option<Seq<char>>,
    id2: int,
)
    requires
        id1 != id2,
    ensures
        build_name_spec(show1, air1, title1, id1) != build_name_spec(show2, air2, title2, id2),
{
    reveal_strlit(" - ");
    let a = build_name_spec(show1, air1, title1, id1);
    let b = build_name_spec(show2, air2, title2, id2);
    let d1 = int_decimal(id1);
    let d2 = int_decimal(id2);
    crate::num::lemma_int_decimal_chars(id1);
    crate::num::lemma_int_decimal_chars(id2);
    let x1 = sanitize_filename_spec(
        name_prefix(show1, air1, title1),
        prefix_limit(name_suffix(id1).len()),
    );
    let x2 = sanitize_filename_spec(
        name_prefix(show2, air2, title2),
        prefix_limit(name_suffix(id2).len()),
    );
    assert(a == x1 + name_suffix(id1));
    assert(b == x2 + name_suffix(id2));
    assert(a.skip(a.len() - d1.len() - 3) =~= " - "@ + d1);
    assert(b.skip(b.len() - d2.len() - 3) =~= " - "@ + d2);
    if a == b {
        if d1.len() <= d2.len() {
            lemma_distinct_tail(a, d1, b, d2, id1, id2);
        } else {
            lemma_distinct_tail(b, d2, a, d1, id2, id1);
        }
    }
}

proof fn lemma_distinct_tail(a: Seq<char>, d1: Seq<char>, b: Seq<char>, d2: Seq<char>, id1: int, id2: int)
    requires
        d1 == int_decimal(id1),
        d2 == int_decimal(id2),
        d1.len() <= d2.len(),
        d1.len() >= 1,
        a == b,
        a.len() >= d1.len() + 3,
        b.len() >= d2.len() + 3,
        a.skip(a.len() - d1.len() - 3) == " - "@ + d1,
        b.skip(b.len() - d2.len() - 3) == " - "@ + d2,
        forall|k: int|
            0 <= k < d2.len() ==> crate::num::is_digit(#[trigger] d2[k]) || (k == 0 && d2[k]
                == '-'),
    ensures
        id1 == id2,
{
    reveal_strlit(" - ");
    let n = a.len();
    let l1 = d1.len();
    let l2 = d2.len();
    // The character just before the shorter decimal is the space of " - ".
    assert(a[n - l1 - 1] == (" - "@ + d1)[2]);
    if l1 < l2 {
        assert(b[n - l1 - 1] == (" - "@ + d2)[l2 - l1 + 2]);
        assert(b[n - l1 - 1] == d2[l2 - l1 - 1]);
        assert(false);
    } else {
        assert forall|k: int| 0 <= k < l1 implies d1[k] == d2[k] by {
            assert(a[n - l1 + k] == (" - "@ + d1)[k + 3]);
            assert(b[n - l1 + k] == (" - "@ + d2)[k + 3]);
        }
        assert(d1 =~= d2);
        crate::num::lemma_int_decimal_injective(id1, id2);
    }
}

/// A character that may stand in a portable file name.
pub open spec fn portable_char(c: char) -> bool {
    !illegal_in_filename(c) && !is_control_char(c)
}

/// Every character of `s` is portable.
pub open spec fn all_portable(s: Seq<char>) -> bool {
    forall|k: int| 0 <= k < s.len() ==> portable_char(#[trigger] s[k])
}

proof fn lemma_words_portable(s: Seq<char>)
    requires
        all_portable(s),
    ensures
        forall|i: int| 0 <= i < crate::text::words(s).len() ==> all_portable(
            #[trigger] crate::text::words(s)[i],
        ),
    decreases s.len(),
{
    if s.len() > 0 {
        let p = s.drop_last();
        let c = s.last();
        assert(portable_char(s[s.len() - 1]));
        assert forall|k: int| 0 <= k < p.len() implies portable_char(#[trigger] p[k]) by {
            assert(p[k] == s[k]);
        }
        lemma_words_portable(p);
        let w = crate::text::words(p);
        if !crate::text::is_space(c) && p.len() > 0 && !crate::text::is_space(p.last()) {
            crate::text::lemma_words_nonempty(p);
            assert(all_portable(w[w.len() - 1]));
            assert forall|k: int| 0 <= k < w.last().push(c).len() implies portable_char(
                #[trigger] w.last().push(c)[k],
            ) by {
                if k < w.last().len() {
                    assert(w.last().push(c)[k] == w.last()[k]);
                }
            }
        } else if !crate::text::is_space(c) {
            assert forall|k: int| 0 <= k < seq![c].len() implies portable_char(
                #[trigger] seq![c][k],
            ) by {}
        }
    }
}

proof fn lemma_join_portable(ws: Seq<Seq<char>>)
    requires
        forall|i: int| 0 <= i < ws.len() ==> all_portable(#[trigger] ws[i]),
    ensures
        all_portable(crate::text::join_words(ws)),
    decreases ws.len(),
{
    if ws.len() > 1 {
        let init = ws.drop_last();
        assert forall|i: int| 0 <= i < init.len() implies all_portable(#[trigger] init[i]) by {
            assert(init[i] == ws[i]);
        }
        lemma_join_portable(init);
        let j = crate::text::join_words(init);
        let r = j + seq![' '] + ws.last();
        assert(all_portable(ws[ws.len() - 1]));
        assert forall|k: int| 0 <= k < r.len() implies portable_char(#[trigger] r[k]) by {
            if k < j.len() {
                assert(r[k] == j[k]);
            } else if k > j.len() {
                assert(r[k] == ws.last()[k - j.len() - 1]);
            }
        }
    } else if ws.len() == 1 {
        assert(all_portable(ws[0]));
    }
}

proof fn lemma_trim_set_portable(s: Seq<char>, set: Seq<char>)
    requires
        all_portable(s),
    ensures
        all_portable(trim_set(s, set)),
    decreases s.len(),
{
    if s.len() > 0 && set.contains(s[0]) {
        assert forall|k: int| 0 <= k < s.drop_first().len() implies portable_char(
            #[trigger] s.drop_first()[k],
        ) by {
            assert(s.drop_first()[k] == s[k + 1]);
        }
        lemma_trim_set_portable(s.drop_first(), set);
    } else if s.len() > 0 && set.contains(s.last()) {
        assert forall|k: int| 0 <= k < s.drop_last().len() implies portable_char(
            #[trigger] s.drop_last()[k],
        ) by {
            assert(s.drop_last()[k] == s[k]);
        }
        lemma_trim_set_portable(s.drop_last(), set);
    }
}

/// A sanitized file name holds no character that Windows refuses and no
/// control character.
pub proof fn sanitized_names_are_portable(name: Seq<char>, max_chars: nat)
    ensures
        all_portable(sanitize_filename_spec(name, max_chars)),
{
    reveal_strlit("download");
    let mapped = name.map_values(|c: char| filename_char(c));
    assert forall|k: int| 0 <= k < mapped.len() implies portable_char(#[trigger] mapped[k]) by {
        assert(mapped[k] == filename_char(name[k]));
    }
    lemma_words_portable(mapped);
    lemma_join_portable(crate::text::words(mapped));
    let trimmed = trim_set(collapse_whitespace(mapped), dot_space());
    lemma_trim_set_portable(collapse_whitespace(mapped), dot_space());
    let cut = if max_chars < trimmed.len() {
        trimmed.take(max_chars as int)
    } else {
        trimmed
    };
    assert forall|k: int| 0 <= k < cut.len() implies portable_char(#[trigger] cut[k]) by {
        assert(cut[k] == trimmed[k]);
    }
    lemma_trim_set_portable(cut, dot_space());
    let d = "download"@;
    assert forall|k: int| 0 <= k < d.len() implies portable_char(#[trigger] d[k]) by {}
}

/// A download name holds no character that Windows refuses and no control
/// character, and it always ends with " - " and the episode id.
pub proof fn download_names_are_portable(
    show: Seq<char>,
    air: Option<Seq<char>>,
    title: Option<Seq<char>>,
    episode_id: int,
)
    ensures
        all_portable(build_name_spec(show, air, title, episode_id)),
        build_name_spec(show, air, title, episode_id).len() >= name_suffix(episode_id).len(),
        build_name_spec(show, air, title, episode_id).skip(
            build_name_spec(show, air, title, episode_id).len() - name_suffix(episode_id).len(),
        ) == name_suffix(episode_id),
{
    reveal_strlit(" - ");
    let suffix = name_suffix(episode_id);
    let prefix = sanitize_filename_spec(name_prefix(show, air, title), prefix_limit(suffix.len()));
    let whole = prefix + suffix;
    sanitized_names_are_portable(name_prefix(show, air, title), prefix_limit(suffix.len()));
    crate::num::lemma_int_decimal_chars(episode_id);
    let d = int_decimal(episode_id);
    assert forall|k: int| 0 <= k < suffix.len() implies portable_char(#[trigger] suffix[k]) by {
        if k >= 3 {
            assert(suffix[k] == d[k - 3]);
        }
    }
    assert forall|k: int| 0 <= k < whole.len() implies portable_char(#[trigger] whole[k]) by {
        if k < prefix.len() {
            assert(whole[k] == prefix[k]);
        } else {
            assert(whole[k] == suffix[k - prefix.len()]);
        }
    }
    assert(whole.skip(whole.len() - suffix.len()) =~= suffix);
}

} // verus!
