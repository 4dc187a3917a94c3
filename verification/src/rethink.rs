//! Radio Rethink's public station snapshot: recent tracks and the current
//! and next programmes. Its ColdFusion query values are JSON strings inside
//! the outer JSON document, so both layers are read here.
use vstd::prelude::*;
use crate::archive::{lower_chars, lower_seq};
use crate::json::{json_at, json_pointer, parse_time, time_of, JsonAt, JsonAtModel};
use crate::num::{i64_chars, int_decimal};
use crate::text::{
    chars_eq, chars_of, nonempty_text, push_all, split_once, split_once_spec, string_from_chars,
    trim_chars, trim_spaces,
};
use crate::wfmu::{
    opt_program_view, opt_string, opt_view, show_id_from_url, show_id_from_url_spec,
    ParsedLivePage, ParsedLiveProgram, ParsedRecentTrack, ProgramModel, RecentTrackModel,
};

verus! {

/// The provider's timestamp format.
pub const PROVIDER_TIME_FORMAT: &'static str = "%m-%d-%Y %H:%M:%S %z";

/// The date format of a track's air date.
pub const AIR_DATE_FORMAT: &'static str = "%Y-%m-%d";

/// A query document: a JSON text and the pointer of the query object in it.
pub type DocRef = (Seq<char>, Seq<char>);

/// The query that the value at `ptr` of `text` holds: a JSON string that
/// parses (the query is that inner document), or an object (the query is
/// that object).
pub open spec fn query_doc(text: Seq<char>, ptr: Seq<char>) -> Option<DocRef> {
    match json_at(text, ptr) {
        JsonAtModel::Str(enc) => match json_at(enc, Seq::empty()) {
            JsonAtModel::Invalid(_) => None,
            _ => Some((enc, Seq::empty())),
        },
        JsonAtModel::Object(_) => Some((text, ptr)),
        _ => None,
    }
}

/// `base` extended by one pointer token.
pub open spec fn child(base: Seq<char>, token: Seq<char>) -> Seq<char> {
    base + seq!['/'] + token
}

/// The query's column names that are strings, lower-cased (ASCII), among
/// its first `n` columns.
pub open spec fn columns_upto(doc: DocRef, n: int) -> Seq<Seq<char>>
    decreases n,
{
    if n <= 0 {
        Seq::empty()
    } else {
        let prev = columns_upto(doc, n - 1);
        match json_at(doc.0, child(child(doc.1, "COLUMNS"@), int_decimal(n - 1))) {
            JsonAtModel::Str(s) => prev.push(lower_seq(s)),
            _ => prev,
        }
    }
}

/// The query's column names.
pub open spec fn columns(doc: DocRef) -> Seq<Seq<char>> {
    match json_at(doc.0, child(doc.1, "COLUMNS"@)) {
        JsonAtModel::Array(n) => columns_upto(doc, n as int),
        _ => Seq::empty(),
    }
}

/// One query row: each column name paired with the pointer of its value,
/// for as many values as both the columns and the row have.
pub open spec fn row_pairs(doc: DocRef, cols: Seq<Seq<char>>, j: int, len: nat) -> Seq<(Seq<char>, Seq<char>)> {
    let n = if cols.len() < len {
        cols.len()
    } else {
        len
    };
    Seq::new(
        n,
        |k: int|
            (cols[k], child(child(child(doc.1, "DATA"@), int_decimal(j)), int_decimal(k))),
    )
}

/// The rows among the query's first `m` data entries that are arrays.
pub open spec fn rows_upto(doc: DocRef, cols: Seq<Seq<char>>, m: int) -> Seq<Seq<(Seq<char>, Seq<char>)>>
    decreases m,
{
    if m <= 0 {
        Seq::empty()
    } else {
        let prev = rows_upto(doc, cols, m - 1);
        match json_at(doc.0, child(child(doc.1, "DATA"@), int_decimal(m - 1))) {
            JsonAtModel::Array(len) => prev.push(row_pairs(doc, cols, m - 1, len)),
            _ => prev,
        }
    }
}

/// The query's rows.
pub open spec fn query_rows(doc: DocRef) -> Seq<Seq<(Seq<char>, Seq<char>)>> {
    match json_at(doc.0, child(doc.1, "DATA"@)) {
        JsonAtModel::Array(m) => rows_upto(doc, columns(doc), m as int),
        _ => Seq::empty(),
    }
}

/// The pointer stored under `key` in a row; a repeated column counts by its
/// last occurrence.
pub open spec fn row_get(row: Seq<(Seq<char>, Seq<char>)>, key: Seq<char>) -> Option<Seq<char>>
    decreases row.len(),
{
    if row.len() == 0 {
        None
    } else if row.last().0 == key {
        Some(row.last().1)
    } else {
        row_get(row.drop_last(), key)
    }
}

/// A field as text: a string (trimmed) or a number (as written), unless
/// empty.
pub open spec fn json_text(text: Seq<char>, ptr: Seq<char>) -> Option<Seq<char>> {
    match json_at(text, ptr) {
        JsonAtModel::Str(s) => nonempty_text(trim_spaces(s)),
        JsonAtModel::Number(n) => nonempty_text(n),
        _ => None,
    }
}

/// The text of field `key` of a row.
pub open spec fn field(doc: DocRef, row: Seq<(Seq<char>, Seq<char>)>, key: Seq<char>) -> Option<Seq<char>> {
    match row_get(row, key) {
        Some(p) => json_text(doc.0, p),
        None => None,
    }
}

/// A provider time in RFC 3339 when it reads as one, else as given.
pub open spec fn normalize_time(v: Seq<char>) -> Seq<char> {
    match time_of(v, PROVIDER_TIME_FORMAT@, AIR_DATE_FORMAT@) {
        Some(t) => t.2,
        None => v,
    }
}

/// The programme of the query at `ptr` (the first row, which must name the
/// show).
pub open spec fn provider_program(text: Seq<char>, ptr: Seq<char>, current: bool) -> Option<ProgramModel> {
    match query_doc(text, ptr) {
        None => None,
        Some(doc) => {
            let rows = query_rows(doc);
            if rows.len() == 0 {
                None
            } else {
                let row = rows[0];
                match field(doc, row, "showname"@) {
                    None => None,
                    Some(name) => Some(
                        ProgramModel {
                            show_id: show_id_from_url_spec(field(doc, row, "showurl"@)),
                            name,
                            host: field(doc, row, "showhost"@),
                            description: field(doc, row, "showdescription"@),
                            starts_at: match field(doc, row, "showstarttime"@) {
                                Some(t) => Some(normalize_time(t)),
                                None => None,
                            },
                            ends_at: match field(doc, row, "showendtime"@) {
                                Some(t) => Some(normalize_time(t)),
                                None => None,
                            },
                            day: field(doc, row, "day"@),
                            current,
                        },
                    ),
                }
            }
        },
    }
}

/// One history row as a track, given how many tracks came before it: it
/// needs a timestamp that reads; a missing artist is split off a combined
/// "Artist - Title".
pub open spec fn history_track(doc: DocRef, row: Seq<(Seq<char>, Seq<char>)>, count: int) -> Option<RecentTrackModel> {
    let ts = match field(doc, row, "trackplayedatstationtimezone"@) {
        Some(x) => Some(x),
        None => field(doc, row, "tracktimestamp"@),
    };
    match ts {
        None => None,
        Some(ts) => match time_of(ts, PROVIDER_TIME_FORMAT@, AIR_DATE_FORMAT@) {
            None => None,
            Some(t) => {
                let artist0 = field(doc, row, "artist"@);
                let title0 = field(doc, row, "track"@);
                let (artist, title) = if artist0 is None {
                    match title0 {
                        Some(c) => match split_once_spec(c, " - "@) {
                            Some((l, r)) => (
                                nonempty_text(trim_spaces(l)),
                                nonempty_text(trim_spaces(r)),
                            ),
                            None => (artist0, title0),
                        },
                        None => (artist0, title0),
                    }
                } else {
                    (artist0, title0)
                };
                Some(
                    RecentTrackModel {
                        source_id: match field(doc, row, "id"@) {
                            Some(x) => x,
                            None => int_decimal(t.0 as int) + seq![':'] + int_decimal(count),
                        },
                        artist,
                        title,
                        album: field(doc, row, "album"@),
                        played_at: t.0,
                        air_date: t.1,
                    },
                )
            },
        },
    }
}

/// The tracks of the first `n` history rows.
pub open spec fn history_upto(doc: DocRef, rows: Seq<Seq<(Seq<char>, Seq<char>)>>, n: int) -> Seq<RecentTrackModel>
    decreases n,
{
    if n <= 0 {
        Seq::empty()
    } else {
        let prev = history_upto(doc, rows, n - 1);
        match history_track(doc, rows[n - 1], prev.len() as int) {
            Some(t) => prev.push(t),
            None => prev,
        }
    }
}

/// The index of the first track played later than `t`.
pub open spec fn first_later(s: Seq<RecentTrackModel>, t: i64) -> int
    decreases s.len(),
{
    if s.len() == 0 {
        0
    } else if s[0].played_at > t {
        0
    } else {
        1 + first_later(s.drop_first(), t)
    }
}

/// The tracks in order of play, ties kept in the order they came (a
/// stable sort by time).
pub open spec fn by_time(s: Seq<RecentTrackModel>) -> Seq<RecentTrackModel>
    decreases s.len(),
{
    if s.len() == 0 {
        s
    } else {
        let sorted = by_time(s.drop_last());
        sorted.insert(first_later(sorted, s.last().played_at), s.last())
    }
}

/// The view of a parsed live page.
pub struct LivePageModel {
    pub tracks: Seq<RecentTrackModel>,
    pub current_show: Option<ProgramModel>,
    pub next_show: Option<ProgramModel>,
    pub updated_at: Option<i64>,
}

/// The views of a list of recent tracks.
pub open spec fn recent_view(v: Seq<ParsedRecentTrack>) -> Seq<RecentTrackModel> {
    v.map_values(|t: ParsedRecentTrack| t@)
}

/// The view of a parsed live page.
pub open spec fn live_page_view(p: ParsedLivePage) -> LivePageModel {
    LivePageModel {
        tracks: recent_view(p.tracks@),
        current_show: opt_program_view(p.current_show),
        next_show: opt_program_view(p.next_show),
        updated_at: p.updated_at,
    }
}

/// The station snapshot: the latest 20 history tracks in order of play,
/// the current and next programmes, and the time of the latest track. An
/// error when the body is not JSON.
pub open spec fn rethink_page_spec(body: Seq<char>) -> Result<LivePageModel, Seq<char>> {
    match json_at(body, Seq::empty()) {
        JsonAtModel::Invalid(m) => Err("invalid live history: "@ + m),
        _ => {
            let history = match query_doc(body, "/playListDataJson"@) {
                Some(doc) => {
                    let rows = query_rows(doc);
                    history_upto(doc, rows, rows.len() as int)
                },
                None => Seq::empty(),
            };
            Ok(
                live_page_from_spec(
                    history,
                    provider_program(body, "/onNowJSON"@, true),
                    provider_program(body, "/onNextJSON"@, false),
                ),
            )
        },
    }
}

/// A station page from the provider's history tracks (in any order) and
/// its current and next programmes: the latest 20 tracks in order of play
/// (ties in the order given), and the time of the latest one.
pub open spec fn live_page_from_spec(
    history: Seq<RecentTrackModel>,
    current_show: Option<ProgramModel>,
    next_show: Option<ProgramModel>,
) -> LivePageModel {
    let all = by_time(history);
    let tracks = if all.len() > 20 {
        all.skip(all.len() - 20)
    } else {
        all
    };
    LivePageModel {
        tracks,
        current_show,
        next_show,
        updated_at: if tracks.len() > 0 {
            Some(tracks.last().played_at)
        } else {
            None
        },
    }
}

// ---- executable side ----

/// An executable query document: a JSON text and a pointer into it.
pub struct Doc {
    pub text: String,
    pub base: Vec<char>,
}

fn child_exec(base: &Vec<char>, token: &[char]) -> (r: Vec<char>)
    ensures
        r@ == child(base@, token@),
{
    let mut r = base.clone();
    r.push('/');
    push_all(&mut r, token);
    assert(r@ =~= base@ + seq!['/'] + token@);
    r
}

fn index_chars(i: usize) -> (r: Vec<char>)
    ensures
        r@ == int_decimal(i as int),
{
    crate::num::u64_chars(i as u64)
}

fn at_exec(text: &String, ptr: &Vec<char>) -> (r: JsonAt)
    ensures
        r@ == json_at(text@, ptr@),
{
    let p = string_from_chars(ptr.as_slice());
    json_pointer(text.as_str(), p.as_str())
}

fn query_doc_exec(text: &String, ptr: &Vec<char>) -> (r: Option<Doc>)
    ensures
        match r {
            Some(d) => query_doc(text@, ptr@) == Some((d.text@, d.base@)),
            None => query_doc(text@, ptr@) is None,
        },
{
    match at_exec(text, ptr) {
        JsonAt::Str(enc) => {
            let root: Vec<char> = Vec::new();
            assert(root@ =~= Seq::<char>::empty());
            match at_exec(&enc, &root) {
                JsonAt::Invalid(_) => None,
                _ => Some(Doc { text: enc, base: root }),
            }
        },
        JsonAt::Object(_) => Some(Doc { text: text.clone(), base: ptr.clone() }),
        _ => None,
    }
}

fn columns_exec(doc: &Doc) -> (r: Vec<Vec<char>>)
    ensures
        crate::text::views_of(r@) == columns((doc.text@, doc.base@)),
{
    proof {
        reveal_strlit("COLUMNS");
    }
    let ghost d = (doc.text@, doc.base@);
    let cols_ptr = child_exec(&doc.base, chars_of("COLUMNS").as_slice());
    let mut out: Vec<Vec<char>> = Vec::new();
    match at_exec(&doc.text, &cols_ptr) {
        JsonAt::Array(n) => {
            let mut i: usize = 0;
            while i < n
                invariant
                    i <= n,
                    d == (doc.text@, doc.base@),
                    cols_ptr@ == child(doc.base@, "COLUMNS"@),
                    crate::text::views_of(out@) == columns_upto(d, i as int),
                decreases n - i,
            {
                let p = child_exec(&cols_ptr, index_chars(i).as_slice());
                match at_exec(&doc.text, &p) {
                    JsonAt::Str(s) => {
                        let ghost before = out@;
                        let l = lower_chars(chars_of(s.as_str()).as_slice());
                        out.push(l);
                        assert(crate::text::views_of(out@) =~= crate::text::views_of(before).push(l@));
                    },
                    _ => {},
                }
                i = i + 1;
            }
        },
        _ => {},
    }
    out
}

/// An executable query row: column names and value pointers.
pub type Row = Vec<(Vec<char>, Vec<char>)>;

/// The view of a row.
pub open spec fn row_view(r: Seq<(Vec<char>, Vec<char>)>) -> Seq<(Seq<char>, Seq<char>)> {
    r.map_values(|p: (Vec<char>, Vec<char>)| (p.0@, p.1@))
}

fn row_exec(doc: &Doc, cols: &Vec<Vec<char>>, row_ptr: &Vec<char>, j: Ghost<int>, len: usize) -> (r: Row)
    requires
        row_ptr@ == child(child(doc.base@, "DATA"@), int_decimal(j@)),
    ensures
        row_view(r@) == row_pairs((doc.text@, doc.base@), crate::text::views_of(cols@), j@, len as nat),
{
    let n = if cols.len() < len {
        cols.len()
    } else {
        len
    };
    let mut out: Row = Vec::new();
    let mut k: usize = 0;
    while k < n
        invariant
            k <= n,
            n <= cols.len(),
            n == (if cols.len() < len { cols.len() } else { len }),
            row_ptr@ == child(child(doc.base@, "DATA"@), int_decimal(j@)),
            row_view(out@) =~= row_pairs((doc.text@, doc.base@), crate::text::views_of(cols@), j@, len as nat).take(k as int),
        decreases n - k,
    {
        let p = child_exec(row_ptr, index_chars(k).as_slice());
        assert(crate::text::views_of(cols@)[k as int] == cols@[k as int]@);
        let ghost rp = row_pairs((doc.text@, doc.base@), crate::text::views_of(cols@), j@, len as nat);
        let ghost before = out@;
        let c = cols[k].clone();
        out.push((c, p));
        assert(rp[k as int] == (c@, p@));
        assert(row_view(out@) =~= row_view(before).push((c@, p@)));
        assert(rp.take(k + 1) =~= rp.take(k as int).push(rp[k as int]));
        k = k + 1;
    }
    out
}

fn rows_exec(doc: &Doc) -> (r: Vec<Row>)
    ensures
        r@.map_values(|x: Row| row_view(x@)) == query_rows((doc.text@, doc.base@)),
{
    proof {
        reveal_strlit("DATA");
    }
    let ghost d = (doc.text@, doc.base@);
    let cols = columns_exec(doc);
    let data_ptr = child_exec(&doc.base, chars_of("DATA").as_slice());
    let mut out: Vec<Row> = Vec::new();
    match at_exec(&doc.text, &data_ptr) {
        JsonAt::Array(m) => {
            let mut j: usize = 0;
            while j < m
                invariant
                    j <= m,
                    d == (doc.text@, doc.base@),
                    data_ptr@ == child(doc.base@, "DATA"@),
                    crate::text::views_of(cols@) == columns(d),
                    out@.map_values(|x: Row| row_view(x@)) == rows_upto(d, columns(d), j as int),
                decreases m - j,
            {
                let p = child_exec(&data_ptr, index_chars(j).as_slice());
                match at_exec(&doc.text, &p) {
                    JsonAt::Array(len) => {
                        let row = row_exec(doc, &cols, &p, Ghost(j as int), len);
                        let ghost before = out@;
                        out.push(row);
                        assert(out@.map_values(|x: Row| row_view(x@)) =~= before.map_values(
                            |x: Row| row_view(x@),
                        ).push(row_view(row@)));
                    },
                    _ => {},
                }
                j = j + 1;
            }
        },
        _ => {},
    }
    out
}

fn row_get_exec(row: &Row, key: &str) -> (r: Option<Vec<char>>)
    ensures
        match r {
            Some(p) => row_get(row_view(row@), key@) == Some(p@),
            None => row_get(row_view(row@), key@) is None,
        },
{
    let kc = chars_of(key);
    let ghost rv = row_view(row@);
    let mut i: usize = row.len();
    assert(rv.take(row.len() as int) =~= rv);
    while i > 0
        invariant
            i <= row.len(),
            rv == row_view(row@),
            kc@ == key@,
            row_get(rv, key@) == row_get(rv.take(i as int), key@),
        decreases i,
    {
        let ghost t = rv.take(i as int);
        assert(t.last() == (row@[i - 1].0@, row@[i - 1].1@));
        assert(t.drop_last() =~= rv.take(i - 1));
        if chars_eq(row[i - 1].0.as_slice(), kc.as_slice()) {
            return Some(row[i - 1].1.clone());
        }
        i = i - 1;
    }
    None
}

fn json_text_exec(text: &String, ptr: &Vec<char>) -> (r: Option<String>)
    ensures
        opt_view(r) == json_text(text@, ptr@),
{
    match at_exec(text, ptr) {
        JsonAt::Str(s) => opt_string(trim_chars(chars_of(s.as_str()).as_slice())),
        JsonAt::Number(n) => opt_string(chars_of(n.as_str())),
        _ => None,
    }
}

fn field_exec(doc: &Doc, row: &Row, key: &str) -> (r: Option<String>)
    ensures
        opt_view(r) == field((doc.text@, doc.base@), row_view(row@), key@),
{
    match row_get_exec(row, key) {
        Some(p) => json_text_exec(&doc.text, &p),
        None => None,
    }
}

fn normalize_time_exec(v: String) -> (r: String)
    ensures
        r@ == normalize_time(v@),
{
    proof {
        reveal_strlit("%Y-%m-%d");
    }
    match parse_time(v.as_str(), PROVIDER_TIME_FORMAT, AIR_DATE_FORMAT) {
        Some(t) => t.rfc3339,
        None => v,
    }
}

fn provider_program_exec(text: &String, ptr: &Vec<char>, current: bool) -> (r: Option<ParsedLiveProgram>)
    ensures
        opt_program_view(r) == provider_program(text@, ptr@, current),
{
    let doc = match query_doc_exec(text, ptr) {
        Some(d) => d,
        None => return None,
    };
    let rows = rows_exec(&doc);
    if rows.len() == 0 {
        return None;
    }
    let row = &rows[0];
    assert(rows@.map_values(|x: Row| row_view(x@))[0] == row_view(row@));
    let name = match field_exec(&doc, row, "showname") {
        Some(n) => n,
        None => return None,
    };
    let starts_at = match field_exec(&doc, row, "showstarttime") {
        Some(t) => Some(normalize_time_exec(t)),
        None => None,
    };
    let ends_at = match field_exec(&doc, row, "showendtime") {
        Some(t) => Some(normalize_time_exec(t)),
        None => None,
    };
    Some(
        ParsedLiveProgram {
            show_id: show_id_from_url(field_exec(&doc, row, "showurl")),
            name,
            host: field_exec(&doc, row, "showhost"),
            description: field_exec(&doc, row, "showdescription"),
            starts_at,
            ends_at,
            day: field_exec(&doc, row, "day"),
            current,
        },
    )
}

fn history_track_exec(doc: &Doc, row: &Row, count: usize) -> (r: Option<ParsedRecentTrack>)
    ensures
        match r {
            Some(t) => history_track((doc.text@, doc.base@), row_view(row@), count as int) == Some(t@),
            None => history_track((doc.text@, doc.base@), row_view(row@), count as int) is None,
        },
{
    proof {
        reveal_strlit("%Y-%m-%d");
        reveal_strlit(" - ");
    }
    let ts = match field_exec(doc, row, "trackplayedatstationtimezone") {
        Some(x) => x,
        None => match field_exec(doc, row, "tracktimestamp") {
            Some(x) => x,
            None => return None,
        },
    };
    let t = match parse_time(ts.as_str(), PROVIDER_TIME_FORMAT, AIR_DATE_FORMAT) {
        Some(t) => t,
        None => return None,
    };
    let artist0 = field_exec(doc, row, "artist");
    let title0 = field_exec(doc, row, "track");
    let (artist, title) = if artist0.is_none() {
        match &title0 {
            Some(c) => {
                let cc = chars_of(c.as_str());
                let dash = chars_of(" - ");
                match split_once(cc.as_slice(), dash.as_slice()) {
                    Some((l, r)) => (
                        opt_string(trim_chars(l.as_slice())),
                        opt_string(trim_chars(r.as_slice())),
                    ),
                    None => (artist0, title0),
                }
            },
            None => (artist0, title0),
        }
    } else {
        (artist0, title0)
    };
    let source_id = match field_exec(doc, row, "id") {
        Some(x) => x,
        None => {
            let mut s = i64_chars(t.timestamp);
            s.push(':');
            let c = index_chars(count);
            push_all(&mut s, c.as_slice());
            assert(s@ =~= int_decimal(t.timestamp as int) + seq![':'] + int_decimal(count as int));
            string_from_chars(s.as_slice())
        },
    };
    Some(
        ParsedRecentTrack {
            source_id,
            artist,
            title,
            album: field_exec(doc, row, "album"),
            played_at: t.timestamp,
            air_date: t.date,
        },
    )
}

fn first_later_exec(s: &Vec<ParsedRecentTrack>, t: i64) -> (r: usize)
    ensures
        r as int == first_later(recent_view(s@), t),
        r <= s.len(),
{
    let ghost sv = recent_view(s@);
    let mut i: usize = 0;
    assert(sv.skip(0) =~= sv);
    while i < s.len() && s[i].played_at <= t
        invariant
            i <= s.len(),
            sv == recent_view(s@),
            first_later(sv, t) == i + first_later(sv.skip(i as int), t),
        decreases s.len() - i,
    {
        assert(sv.skip(i as int)[0] == s@[i as int]@);
        assert(sv.skip(i as int).drop_first() =~= sv.skip(i + 1));
        i = i + 1;
    }
    if i < s.len() {
        assert(sv.skip(i as int)[0] == s@[i as int]@);
    }
    i
}

fn sort_by_time(v: Vec<ParsedRecentTrack>) -> (r: Vec<ParsedRecentTrack>)
    ensures
        recent_view(r@) == by_time(recent_view(v@)),
{
    let ghost vv = recent_view(v@);
    let mut out: Vec<ParsedRecentTrack> = Vec::new();
    let mut v = v;
    let mut rest: Vec<ParsedRecentTrack> = Vec::new();
    let n = v.len();
    assert(vv.skip(n as int) =~= Seq::<RecentTrackModel>::empty());
    assert(vv.take(n as int) =~= vv);
    while v.len() > 0
        invariant
            n == vv.len(),
            v.len() <= n,
            recent_view(v@) == vv.take(v.len() as int),
            recent_view(rest@) == vv.skip(v.len() as int).reverse(),
        decreases v.len(),
    {
        let ghost before = v@;
        let ghost k = v.len() - 1;
        let t = v.pop().unwrap();
        assert(recent_view(before).last() == t@);
        assert(vv.take(k + 1)[k] == t@);
        assert(recent_view(v@) =~= vv.take(k));
        let ghost rb = rest@;
        rest.push(t);
        assert(recent_view(rest@) =~= recent_view(rb).push(t@));
        assert(vv.skip(k).reverse() =~= vv.skip(k + 1).reverse().push(vv[k]));
    }
    let mut i: usize = 0;
    while i < n
        invariant
            i <= n,
            n == vv.len(),
            recent_view(rest@) == vv.skip(i as int).reverse(),
            recent_view(out@) == by_time(vv.take(i as int)),
        decreases n - i,
    {
        let ghost before = rest@;
        assert(vv.skip(i as int).reverse().len() == n - i);
        assert(recent_view(rest@).len() == rest@.len());
        assert(rest.len() > 0);
        let t = rest.pop().unwrap();
        assert(rest@ =~= before.drop_last());
        assert(recent_view(rest@) =~= recent_view(before).drop_last());
        assert(vv.skip(i as int).reverse().drop_last() =~= vv.skip(i + 1).reverse());
        assert(recent_view(before).last() == t@);
        assert(vv.skip(i as int).reverse().last() == vv[i as int]);
        assert(recent_view(rest@) =~= vv.skip(i + 1).reverse());
        assert(vv.take(i + 1).drop_last() =~= vv.take(i as int));
        assert(vv.take(i + 1).last() == t@);
        let p = first_later_exec(&out, t.played_at);
        let ghost ov = recent_view(out@);
        out.insert(p, t);
        assert(recent_view(out@) =~= ov.insert(p as int, t@));
        i = i + 1;
    }
    assert(vv.take(n as int) =~= vv);
    out
}

fn history_exec(doc: &Doc) -> (r: Vec<ParsedRecentTrack>)
    ensures
        recent_view(r@) == history_upto(
            (doc.text@, doc.base@),
            query_rows((doc.text@, doc.base@)),
            query_rows((doc.text@, doc.base@)).len() as int,
        ),
{
    let ghost d = (doc.text@, doc.base@);
    let rows = rows_exec(doc);
    let ghost rv = rows@.map_values(|x: Row| row_view(x@));
    let mut out: Vec<ParsedRecentTrack> = Vec::new();
    let mut j: usize = 0;
    while j < rows.len()
        invariant
            j <= rows.len(),
            d == (doc.text@, doc.base@),
            rv == rows@.map_values(|x: Row| row_view(x@)),
            rv == query_rows(d),
            recent_view(out@) == history_upto(d, rv, j as int),
        decreases rows.len() - j,
    {
        assert(rv[j as int] == row_view(rows@[j as int]@));
        match history_track_exec(doc, &rows[j], out.len()) {
            Some(t) => {
                let ghost before = out@;
                out.push(t);
                assert(recent_view(out@) =~= recent_view(before).push(t@));
            },
            None => {},
        }
        j = j + 1;
    }
    out
}

/// Parses Radio Rethink's station snapshot: the latest 20 history tracks
/// in order of play, the current and next programmes (with their times in
/// RFC 3339), and the time of the latest track. The body must be JSON.
pub fn parse_rethink_live_page(body: &str) -> (r: Result<ParsedLivePage, String>)
    ensures
        match r {
            Ok(p) => rethink_page_spec(body@) == Ok::<LivePageModel, Seq<char>>(live_page_view(p)),
            Err(e) => rethink_page_spec(body@) == Err::<LivePageModel, Seq<char>>(e@),
        },
{
    proof {
        reveal_strlit("invalid live history: ");
        reveal_strlit("/playListDataJson");
        reveal_strlit("/onNowJSON");
        reveal_strlit("/onNextJSON");
    }
    let text = String::from_str(body);
    let root: Vec<char> = Vec::new();
    assert(root@ =~= Seq::<char>::empty());
    match at_exec(&text, &root) {
        JsonAt::Invalid(m) => {
            let mut e = chars_of("invalid live history: ");
            push_all(&mut e, chars_of(m.as_str()).as_slice());
            return Err(string_from_chars(e.as_slice()));
        },
        _ => {},
    }
    let history = match query_doc_exec(&text, &chars_of("/playListDataJson")) {
        Some(doc) => history_exec(&doc),
        None => Vec::new(),
    };
    let current_show = provider_program_exec(&text, &chars_of("/onNowJSON"), true);
    let next_show = provider_program_exec(&text, &chars_of("/onNextJSON"), false);
    assert(recent_view(Seq::<ParsedRecentTrack>::empty()) =~= Seq::<RecentTrackModel>::empty());
    Ok(live_page_from(history, current_show, next_show))
}

/// A station page from the provider's history tracks (in any order) and
/// its current and next programmes, as [`live_page_from_spec`] says.
pub fn live_page_from(
    history: Vec<ParsedRecentTrack>,
    current_show: Option<ParsedLiveProgram>,
    next_show: Option<ParsedLiveProgram>,
) -> (r: ParsedLivePage)
    ensures
        live_page_view(r) == live_page_from_spec(
            recent_view(history@),
            opt_program_view(current_show),
            opt_program_view(next_show),
        ),
{
    let all = sort_by_time(history);
    let ghost av = recent_view(all@);
    let tracks: Vec<ParsedRecentTrack> = if all.len() > 20 {
        let mut kept: Vec<ParsedRecentTrack> = Vec::new();
        let start = all.len() - 20;
        let mut i: usize = start;
        while i < all.len()
            invariant
                start <= i <= all.len(),
                start == all.len() - 20,
                av == recent_view(all@),
                recent_view(kept@) == av.subrange(start as int, i as int),
            decreases all.len() - i,
        {
            let t = clone_recent(&all[i]);
            assert(av[i as int] == all@[i as int]@);
            let ghost before = kept@;
            kept.push(t);
            assert(recent_view(kept@) =~= recent_view(before).push(t@));
            assert(av.subrange(start as int, i + 1) =~= av.subrange(start as int, i as int).push(av[i as int]));
            i = i + 1;
        }
        assert(av.subrange(start as int, all.len() as int) =~= av.skip(all.len() - 20));
        kept
    } else {
        all
    };
    let updated_at = if tracks.len() > 0 {
        assert(recent_view(tracks@).last() == tracks@[tracks.len() - 1]@);
        Some(tracks[tracks.len() - 1].played_at)
    } else {
        None
    };
    ParsedLivePage { tracks, current_show, next_show, updated_at }
}

fn clone_recent(t: &ParsedRecentTrack) -> (r: ParsedRecentTrack)
    ensures
        r@ == t@,
{
    ParsedRecentTrack {
        source_id: t.source_id.clone(),
        artist: crate::wfmu::clone_opt(&t.artist),
        title: crate::wfmu::clone_opt(&t.title),
        album: crate::wfmu::clone_opt(&t.album),
        played_at: t.played_at,
        air_date: t.air_date.clone(),
    }
}

} // verus!
