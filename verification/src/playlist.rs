//! Playlist pages: their show and episode context, and the free-form
//! "comment" template that deep-archive DJs use instead of a table.
use vstd::prelude::*;
use crate::pattern::{group_of, match_start, matches_of, regex_captures, span_text, text_between};
use crate::text::{
    chars_of, clean_chars, clean_text_spec, nonempty_text, occurs_at, rfind_before, rfind_in,
    slice_chars, split_once, split_once_spec, split_pat, split_pattern, string_from_chars,
    trim_chars, trim_spaces, trim_start_char, trim_start_char_chars, views_of,
};
use crate::html::{
    elements_view, elements_view2, html_select, html_select_each, html_text_nodes_each, ElementModel,
    select_all, select_each, text_nodes_each, text_nodes_view3, HtmlElement, TextNode,
    TextNodeModel,
};
use crate::wfmu::{
    first_group, first_group_exec, hms_seconds, hms_seconds_spec, opt_view, tracks_view,
    ParsedPlaylistMeta, ParsedTrack, PlaylistMetaModel, TrackModel,
};

verus! {

/// The song marker that every real track of a free-form playlist carries.
pub const SONG_SPAN_RE: &'static str = r#"<span[^>]*class="KDBFavIcon KDBsong""#;

/// The approximate start time in a free-form track's pop-up link.
pub const START_TIME_RE: &'static str = r"starttime=(\d+:\d{1,2}:\d{2})";

/// A start time read as seconds, when it fits.
pub open spec fn start_seconds(t: Option<Seq<char>>) -> Option<i64> {
    match t {
        Some(x) => match hms_seconds_spec(x) {
            Some(v) => Some(v as i64),
            None => None,
        },
        None => None,
    }
}

/// The track of one `<br><br>`-separated segment of a free-form playlist:
/// only segments with a song marker count; the text before the marker,
/// cleaned and stripped of the leading `>`, is "Artist | Title" (or just an
/// artist); the start time comes from the pop-up link.
pub open spec fn freeform_track(seg: Seq<char>) -> Option<TrackModel> {
    let ms = regex_captures(SONG_SPAN_RE@, seg);
    if ms.len() == 0 {
        None
    } else {
        let head = trim_spaces(
            trim_start_char(clean_text_spec(text_between(seg, 0, match_start(ms[0]) as int)), '>'),
        );
        if head.len() == 0 {
            None
        } else {
            let (artist, title) = match split_once_spec(head, "|"@) {
                Some((a, t)) => (nonempty_text(trim_spaces(a)), nonempty_text(trim_spaces(t))),
                None => (Some(head), None),
            };
            if artist is None && title is None {
                None
            } else {
                Some(
                    TrackModel {
                        artist,
                        title,
                        album: None,
                        label: None,
                        comments: None,
                        start_sec: start_seconds(first_group(START_TIME_RE@, seg, 1)),
                    },
                )
            }
        }
    }
}

/// The tracks of the first `n` segments, in order.
pub open spec fn freeform_upto(segs: Seq<Seq<char>>, n: int) -> Seq<TrackModel>
    decreases n,
{
    if n <= 0 {
        Seq::empty()
    } else {
        match freeform_track(segs[n - 1]) {
            Some(t) => freeform_upto(segs, n - 1).push(t),
            None => freeform_upto(segs, n - 1),
        }
    }
}

/// The tracks of a free-form playlist page.
pub open spec fn freeform_spec(html: Seq<char>) -> Seq<TrackModel> {
    let segs = split_pat(html, "<br><br>"@);
    freeform_upto(segs, segs.len() as int)
}

fn opt_nonempty(v: Vec<char>) -> (r: Option<String>)
    ensures
        opt_view(r) == nonempty_text(v@),
{
    if v.len() == 0 {
        None
    } else {
        Some(string_from_chars(v.as_slice()))
    }
}

fn freeform_track_exec(seg: &str) -> (r: Option<ParsedTrack>)
    ensures
        match r {
            Some(t) => freeform_track(seg@) == Some(t@),
            None => freeform_track(seg@) is None,
        },
{
    proof {
        reveal_strlit("|");
    }
    let ms = matches_of(SONG_SPAN_RE, seg);
    if ms.len() == 0 {
        return None;
    }
    assert(crate::pattern::match_spans(ms@)[0] == ms@[0]@);
    let whole = match ms[0][0] {
        Some(sp) => sp,
        None => {
            proof {
                assert(false);
            }
            return None;
        },
    };
    assert(crate::pattern::match_in(seg@, ms@[0]@));
    assert(ms@[0]@[0] is Some);
    assert(crate::pattern::valid_span(seg@, whole));
    proof {
        vstd::utf8::encode_utf8_valid_utf8(seg@);
        assert(vstd::utf8::is_char_boundary(vstd::utf8::encode_utf8(seg@), 0));
    }
    let before = span_text(seg, (0, whole.0));
    let bc = chars_of(before);
    let cleaned = clean_chars(bc.as_slice());
    let stripped = trim_start_char_chars(cleaned.as_slice(), '>');
    let head = trim_chars(stripped.as_slice());
    if head.len() == 0 {
        return None;
    }
    let bar = chars_of("|");
    let (artist, title) = match split_once(head.as_slice(), bar.as_slice()) {
        Some((a, t)) => {
            let at = trim_chars(a.as_slice());
            let tt = trim_chars(t.as_slice());
            (opt_nonempty(at), opt_nonempty(tt))
        },
        None => (Some(string_from_chars(head.as_slice())), None),
    };
    if artist.is_none() && title.is_none() {
        return None;
    }
    let start_sec = match first_group_exec(START_TIME_RE, seg, 1) {
        Some(t) => hms_seconds(t.as_str()),
        None => None,
    };
    Some(ParsedTrack { artist, title, album: None, label: None, comments: None, start_sec })
}

/// Parses the free-form "comment" playlist template: each track is a red
/// `>` marker, "Artist | Title", a song star and an optional "| H:MM:SS"
/// start time; tracks are separated by `<br><br>`. A start time whose
/// seconds would not fit in `i64` is left out.
pub fn parse_playlist_freeform(html: &str) -> (r: Vec<ParsedTrack>)
    ensures
        tracks_view(r@) == freeform_spec(html@),
{
    proof {
        reveal_strlit("<br><br>");
    }
    let hc = chars_of(html);
    let sep = chars_of("<br><br>");
    let segs = split_pattern(hc.as_slice(), sep.as_slice());
    let ghost sv = views_of(segs@);
    let mut out: Vec<ParsedTrack> = Vec::new();
    let mut i: usize = 0;
    while i < segs.len()
        invariant
            i <= segs.len(),
            sv == views_of(segs@),
            sv == split_pat(html@, "<br><br>"@),
            tracks_view(out@) == freeform_upto(sv, i as int),
        decreases segs.len() - i,
    {
        let seg = string_from_chars(segs[i].as_slice());
        assert(sv[i as int] == segs@[i as int]@);
        match freeform_track_exec(seg.as_str()) {
            Some(t) => {
                let ghost before = out@;
                out.push(t);
                assert(tracks_view(out@) =~= tracks_view(before).push(t@));
            },
            None => {},
        }
        i = i + 1;
    }
    out
}

/// The show id in a playlist page's feed link.
pub const FEED_RE: &'static str = r#"playlistfeed/([A-Za-z0-9_-]+)\.xml"#;

/// The page's `og:title`: "Episode title: Show name".
pub const OG_TITLE_RE: &'static str = r#"<meta\s+property="og:title"\s+content="([^"]+)""#;

/// The page's `og:description`, which names the air date.
pub const OG_DESC_RE: &'static str = r#"<meta\s+property="og:description"\s+content="([^"]+)""#;

/// The air date inside the description ("from July 9, 2026").
pub const DESC_DATE_RE: &'static str = r"(?i)(?:from|on)\s+([A-Z][a-z]+\s+\d{1,2},\s+\d{4})";

/// `s` split around the last `": "` (`str::rsplit_once`).
pub open spec fn rsplit_colon(s: Seq<char>) -> Option<(Seq<char>, Seq<char>)> {
    match rfind_in(s, ": "@) {
        Some(i) => Some((s.take(i), s.skip(i + 2))),
        None => None,
    }
}

/// The show and episode context of a playlist page: the show id from its
/// feed link; from the cleaned `og:title`, the show name after the last
/// `": "` and the episode title before it (the whole title when there is no
/// show name); the air date named in `og:description`.
pub open spec fn playlist_meta_spec(html: Seq<char>) -> PlaylistMetaModel {
    let raw_title = match first_group(OG_TITLE_RE@, html, 1) {
        Some(t) => Some(clean_text_spec(t)),
        None => None,
    };
    let show_name = match raw_title {
        Some(t) => match rsplit_colon(t) {
            Some((_, show)) => Some(show),
            None => None,
        },
        None => None,
    };
    let title = match raw_title {
        Some(full) => {
            let stripped = match show_name {
                Some(show) => {
                    let suffix = ": "@ + show;
                    if suffix.len() <= full.len() && full.skip(full.len() - suffix.len()) == suffix {
                        Some(full.take(full.len() - suffix.len()))
                    } else {
                        None
                    }
                },
                None => None,
            };
            match stripped {
                Some(t) => Some(t),
                None => nonempty_text(full),
            }
        },
        None => None,
    };
    PlaylistMetaModel {
        show_id: first_group(FEED_RE@, html, 1),
        show_name,
        air_date: match first_group(OG_DESC_RE@, html, 1) {
            Some(d) => first_group(DESC_DATE_RE@, d, 1),
            None => None,
        },
        title,
    }
}

/// Extracts the show and episode context from a playlist page.
pub fn parse_playlist_meta(html: &str) -> (r: ParsedPlaylistMeta)
    ensures
        r@ == playlist_meta_spec(html@),
{
    proof {
        reveal_strlit(": ");
    }
    let show_id = first_group_exec(FEED_RE, html, 1);
    let raw_title: Option<Vec<char>> = match first_group_exec(OG_TITLE_RE, html, 1) {
        Some(t) => {
            let tc = chars_of(t.as_str());
            Some(clean_chars(tc.as_slice()))
        },
        None => None,
    };
    let colon = chars_of(": ");
    let show_name: Option<Vec<char>> = match &raw_title {
        Some(t) => match rfind_before(t.as_slice(), t.len(), colon.as_slice()) {
            Some(i) => {
                assert(t@.take(t.len() as int) =~= t@);
                Some(slice_chars(t.as_slice(), i + 2, t.len()))
            },
            None => {
                assert(t@.take(t.len() as int) =~= t@);
                None
            },
        },
        None => None,
    };
    proof {
        match (&raw_title, &show_name) {
            (Some(t), Some(sn)) => {
                assert(sn@ =~= t@.skip(rfind_in(t@, ": "@)->0 + 2));
            },
            _ => {},
        }
    }
    let title: Option<String> = match &raw_title {
        Some(full) => {
            let stripped: Option<Vec<char>> = match &show_name {
                Some(show) => {
                    let mut suffix = colon.clone();
                    crate::text::push_all(&mut suffix, show.as_slice());
                    assert(suffix@ =~= ": "@ + show@);
                    if crate::text::ends_with(full.as_slice(), suffix.as_slice()) {
                        let cut = slice_chars(full.as_slice(), 0, full.len() - suffix.len());
                        assert(full@.skip(full@.len() - suffix@.len()) =~= suffix@ <==> occurs_at(
                            full@,
                            full@.len() - suffix@.len(),
                            suffix@,
                        ));
                        Some(cut)
                    } else {
                        assert(suffix@.len() <= full@.len() ==> (full@.skip(
                            full@.len() - suffix@.len(),
                        ) =~= suffix@ <==> occurs_at(full@, full@.len() - suffix@.len(), suffix@)));
                        None
                    }
                },
                None => None,
            };
            match stripped {
                Some(t) => Some(string_from_chars(t.as_slice())),
                None => opt_nonempty(full.clone()),
            }
        },
        None => None,
    };
    let air_date = match first_group_exec(OG_DESC_RE, html, 1) {
        Some(d) => first_group_exec(DESC_DATE_RE, d.as_str(), 1),
        None => None,
    };
    let show_name = match show_name {
        Some(v) => Some(string_from_chars(v.as_slice())),
        None => None,
    };
    ParsedPlaylistMeta { show_id, show_name, air_date, title }
}

/// Start times in the timestamp column.
pub const TIME_RE: &'static str = r"(\d+:\d{1,2}:\d{2})";

/// Whether a text node sits inside one of WFMU's `KDBFavIcon` helper spans
/// (song star, jump and comment buttons, hidden summaries).
pub open spec fn in_helper(t: TextNodeModel) -> bool {
    exists|k: int| 0 <= k < t.ancestor_classes.len() && (#[trigger] t.ancestor_classes[k]).contains("KDBFavIcon"@)
}

/// A cell's text without its helper spans: the remaining text nodes,
/// separated by a space once some text has been collected.
pub open spec fn helper_free_text(nodes: Seq<TextNodeModel>) -> Seq<char>
    decreases nodes.len(),
{
    if nodes.len() == 0 {
        Seq::empty()
    } else {
        let acc = helper_free_text(nodes.drop_last());
        let t = nodes.last();
        if in_helper(t) {
            acc
        } else if acc.len() == 0 {
            t.text
        } else {
            acc + seq![' '] + t.text
        }
    }
}

/// The cleaned text of the first cell, when there is a cell and it says
/// something.
pub open spec fn cell_value(cells: Seq<Seq<TextNodeModel>>) -> Option<Seq<char>> {
    if cells.len() > 0 {
        nonempty_text(clean_text_spec(helper_free_text(cells[0])))
    } else {
        None
    }
}

/// Element `i` of the per-row cell lists, or no cells.
pub open spec fn row_cells(v: Seq<Seq<Seq<TextNodeModel>>>, i: int) -> Seq<Seq<TextNodeModel>> {
    if 0 <= i < v.len() {
        v[i]
    } else {
        Seq::empty()
    }
}

/// The playlist-table cell classes.
pub open spec fn cell_sel(class: Seq<char>) -> Seq<char> {
    "td."@ + class
}

/// The cells a playlist table is read from: for each row, the text nodes
/// of its artist, title, album, label and comment cells, and its timestamp
/// cells.
pub struct TableCells {
    pub artists: Seq<Seq<Seq<TextNodeModel>>>,
    pub titles: Seq<Seq<Seq<TextNodeModel>>>,
    pub albums: Seq<Seq<Seq<TextNodeModel>>>,
    pub labels: Seq<Seq<Seq<TextNodeModel>>>,
    pub comments: Seq<Seq<Seq<TextNodeModel>>>,
    pub times: Seq<Seq<ElementModel>>,
}

/// The cells of the playlist table of a page.
pub open spec fn page_cells(html: Seq<char>) -> TableCells {
    TableCells {
        artists: html_text_nodes_each(html, "tr"@, cell_sel("col_artist"@)),
        titles: html_text_nodes_each(html, "tr"@, cell_sel("col_song_title"@)),
        albums: html_text_nodes_each(html, "tr"@, cell_sel("col_album_title"@)),
        labels: html_text_nodes_each(html, "tr"@, cell_sel("col_record_label"@)),
        comments: html_text_nodes_each(html, "tr"@, cell_sel("col_comments"@)),
        times: html_select_each(html, false, "tr"@, cell_sel("col_live_timestamps_flag"@)),
    }
}

/// The row of a playlist table at index `i`, if it is a track: it has an
/// artist or a title cell, and one of them says something.
pub open spec fn table_track(cells: TableCells, i: int) -> Option<TrackModel> {
    let artist_cells = row_cells(cells.artists, i);
    let title_cells = row_cells(cells.titles, i);
    if artist_cells.len() == 0 && title_cells.len() == 0 {
        None
    } else {
        let artist = cell_value(artist_cells);
        let title = cell_value(title_cells);
        if artist is None && title is None {
            None
        } else {
            let times = crate::schedule::nth_list(cells.times, i);
            Some(
                TrackModel {
                    artist,
                    title,
                    album: cell_value(row_cells(cells.albums, i)),
                    label: cell_value(row_cells(cells.labels, i)),
                    comments: cell_value(row_cells(cells.comments, i)),
                    start_sec: if times.len() > 0 {
                        start_seconds(first_group(TIME_RE@, times[0].text, 1))
                    } else {
                        None
                    },
                },
            )
        }
    }
}

/// The tracks among the first `n` rows of a playlist table.
pub open spec fn table_upto(cells: TableCells, n: int) -> Seq<TrackModel>
    decreases n,
{
    if n <= 0 {
        Seq::empty()
    } else {
        match table_track(cells, n - 1) {
            Some(t) => table_upto(cells, n - 1).push(t),
            None => table_upto(cells, n - 1),
        }
    }
}

/// Track `t` was read from row `i` of a playlist table: each of its fields
/// is the cleaned text of that row's cell of the same column.
pub open spec fn read_from_row(t: TrackModel, cells: TableCells, i: int) -> bool {
    &&& t.artist == cell_value(row_cells(cells.artists, i))
    &&& t.title == cell_value(row_cells(cells.titles, i))
    &&& t.album == cell_value(row_cells(cells.albums, i))
    &&& t.label == cell_value(row_cells(cells.labels, i))
    &&& t.comments == cell_value(row_cells(cells.comments, i))
}

/// Track `t` was read from one of the first `n` rows of a table.
pub open spec fn read_from_some_row(t: TrackModel, cells: TableCells, n: int) -> bool {
    exists|i: int| 0 <= i < n && #[trigger] read_from_row(t, cells, i)
}

/// Every track of a playlist table comes from one of its rows and takes
/// each field from that row's cell of the same column: artist from
/// `td.col_artist`, title from `td.col_song_title`, album from
/// `td.col_album_title`, label from `td.col_record_label`, comments from
/// `td.col_comments`.
pub proof fn table_tracks_keep_their_columns(cells: TableCells, n: int)
    ensures
        forall|k: int|
            0 <= k < table_upto(cells, n).len() ==> read_from_some_row(#[trigger] table_upto(cells, n)[k], cells, n),
    decreases n,
{
    if n > 0 {
        table_tracks_keep_their_columns(cells, n - 1);
        let prev = table_upto(cells, n - 1);
        let cur = table_upto(cells, n);
        assert forall|k: int| 0 <= k < cur.len() implies read_from_some_row(#[trigger] cur[k], cells, n) by {
            match table_track(cells, n - 1) {
                Some(t) => {
                    assert(cur == prev.push(t));
                    if k < prev.len() {
                        assert(cur[k] == prev[k]);
                        assert(read_from_some_row(prev[k], cells, n - 1));
                        let i = choose|i: int| 0 <= i < n - 1 && #[trigger] read_from_row(prev[k], cells, i);
                        assert(read_from_row(cur[k], cells, i));
                    } else {
                        assert(cur[k] == t);
                        assert(read_from_row(cur[k], cells, n - 1));
                    }
                },
                None => {
                    assert(cur == prev);
                    assert(read_from_some_row(prev[k], cells, n - 1));
                    let i = choose|i: int| 0 <= i < n - 1 && #[trigger] read_from_row(prev[k], cells, i);
                    assert(read_from_row(cur[k], cells, i));
                },
            }
        }
    }
}

/// A row with text in its artist or its title cell is never dropped: some
/// track of the table was read from it.
pub proof fn table_rows_with_text_give_tracks(cells: TableCells, n: int, i: int)
    requires
        0 <= i < n,
        cell_value(row_cells(cells.artists, i)) is Some || cell_value(row_cells(cells.titles, i)) is Some,
    ensures
        exists|k: int| 0 <= k < table_upto(cells, n).len() && read_from_row(#[trigger] table_upto(cells, n)[k], cells, i),
    decreases n,
{
    let prev = table_upto(cells, n - 1);
    let cur = table_upto(cells, n);
    if i < n - 1 {
        table_rows_with_text_give_tracks(cells, n - 1, i);
        let k = choose|k: int| 0 <= k < prev.len() && read_from_row(prev[k], cells, i);
        assert(cur[k] == prev[k]);
    } else {
        assert(table_track(cells, i) is Some);
        assert(read_from_row(cur[prev.len() as int], cells, i));
    }
}

/// The tracks of a playlist page: the rows of its playlist table, or, when
/// the table yields none, the free-form template's tracks.
pub open spec fn playlist_spec(html: Seq<char>) -> Seq<TrackModel> {
    let table = table_upto(page_cells(html), html_select(html, false, "tr"@).len() as int);
    if table.len() > 0 {
        table
    } else {
        freeform_spec(html)
    }
}

fn in_helper_exec(t: &TextNode) -> (r: bool)
    ensures
        r == in_helper(t@),
{
    proof {
        reveal_strlit("KDBFavIcon");
    }
    let fav = chars_of("KDBFavIcon");
    let ghost av = t@.ancestor_classes;
    let mut k: usize = 0;
    while k < t.ancestor_classes.len()
        invariant
            k <= t.ancestor_classes.len(),
            av == t@.ancestor_classes,
            fav@ == "KDBFavIcon"@,
            forall|j: int| 0 <= j < k ==> !(#[trigger] av[j]).contains("KDBFavIcon"@),
        decreases t.ancestor_classes.len() - k,
    {
        let cls = &t.ancestor_classes[k];
        let ghost cv = av[k as int];
        assert(cv == cls@.map_values(|s: String| s@));
        let mut m: usize = 0;
        while m < cls.len()
            invariant
                m <= cls.len(),
                cv == cls@.map_values(|s: String| s@),
                fav@ == "KDBFavIcon"@,
                k < t.ancestor_classes.len(),
                av == t@.ancestor_classes,
                cv == av[k as int],
                forall|j: int| 0 <= j < m ==> cv[j] != "KDBFavIcon"@,
            decreases cls.len() - m,
        {
            let cc = chars_of(cls[m].as_str());
            assert(cv[m as int] == cls@[m as int]@);
            if crate::text::chars_eq(cc.as_slice(), fav.as_slice()) {
                assert(cv[m as int] == "KDBFavIcon"@);
                assert(cv.contains("KDBFavIcon"@));
                assert(av[k as int].contains("KDBFavIcon"@));
                assert(in_helper(t@));
                return true;
            }
            m = m + 1;
        }
        assert(!cv.contains("KDBFavIcon"@));
        k = k + 1;
    }
    false
}

fn helper_free_text_exec(nodes: &Vec<TextNode>) -> (r: Vec<char>)
    ensures
        r@ == helper_free_text(nodes@.map_values(|t: TextNode| t@)),
{
    let ghost nv = nodes@.map_values(|t: TextNode| t@);
    let mut out: Vec<char> = Vec::new();
    let mut i: usize = 0;
    while i < nodes.len()
        invariant
            i <= nodes.len(),
            nv == nodes@.map_values(|t: TextNode| t@),
            out@ == helper_free_text(nv.take(i as int)),
        decreases nodes.len() - i,
    {
        let t = &nodes[i];
        assert(nv.take(i + 1).drop_last() =~= nv.take(i as int));
        assert(nv.take(i + 1).last() == t@);
        if !in_helper_exec(t) {
            let tc = chars_of(t.text.as_str());
            if out.len() > 0 {
                out.push(' ');
            }
            crate::text::push_all(&mut out, tc.as_slice());
        }
        i = i + 1;
    }
    assert(nv.take(nodes.len() as int) =~= nv);
    out
}

fn cell_value_exec(cells: &Vec<Vec<TextNode>>) -> (r: Option<String>)
    ensures
        opt_view(r) == cell_value(cells@.map_values(|c: Vec<TextNode>| c@.map_values(|t: TextNode| t@))),
{
    if cells.len() > 0 {
        let raw = helper_free_text_exec(&cells[0]);
        opt_nonempty(clean_chars(raw.as_slice()))
    } else {
        None
    }
}

fn row_cells_exec<'a>(v: &'a Vec<Vec<Vec<TextNode>>>, i: usize, empty: &'a Vec<Vec<TextNode>>) -> (r: &'a Vec<Vec<TextNode>>)
    requires
        empty@.len() == 0,
    ensures
        r@.map_values(|c: Vec<TextNode>| c@.map_values(|t: TextNode| t@)) == row_cells(text_nodes_view3(v@), i as int),
{
    if i < v.len() {
        &v[i]
    } else {
        assert(empty@.map_values(|c: Vec<TextNode>| c@.map_values(|t: TextNode| t@)) =~= Seq::<Seq<TextNodeModel>>::empty());
        empty
    }
}

fn table_pass(html: &str) -> (r: Vec<ParsedTrack>)
    ensures
        tracks_view(r@) == table_upto(page_cells(html@), html_select(html@, false, "tr"@).len() as int),
{
    proof {
        reveal_strlit("tr");
        reveal_strlit("td.");
        reveal_strlit("col_artist");
        reveal_strlit("col_song_title");
        reveal_strlit("col_album_title");
        reveal_strlit("col_record_label");
        reveal_strlit("col_comments");
        reveal_strlit("col_live_timestamps_flag");
        reveal_strlit("td.col_artist");
        reveal_strlit("td.col_song_title");
        reveal_strlit("td.col_album_title");
        reveal_strlit("td.col_record_label");
        reveal_strlit("td.col_comments");
        reveal_strlit("td.col_live_timestamps_flag");
    }
    let rows = select_all(html, false, "tr");
    let artists = text_nodes_each(html, "tr", "td.col_artist");
    let titles = text_nodes_each(html, "tr", "td.col_song_title");
    let albums = text_nodes_each(html, "tr", "td.col_album_title");
    let labels = text_nodes_each(html, "tr", "td.col_record_label");
    let comments = text_nodes_each(html, "tr", "td.col_comments");
    let times = select_each(html, false, "tr", "td.col_live_timestamps_flag");
    assert(cell_sel("col_artist"@) =~= "td.col_artist"@);
    assert(cell_sel("col_song_title"@) =~= "td.col_song_title"@);
    assert(cell_sel("col_album_title"@) =~= "td.col_album_title"@);
    assert(cell_sel("col_record_label"@) =~= "td.col_record_label"@);
    assert(cell_sel("col_comments"@) =~= "td.col_comments"@);
    assert(cell_sel("col_live_timestamps_flag"@) =~= "td.col_live_timestamps_flag"@);
    let r = playlist_table(rows.len(), &artists, &titles, &albums, &labels, &comments, &times);
    assert(table_cells_view(&artists, &titles, &albums, &labels, &comments, &times) == page_cells(html@));
    r
}

/// The view of the selected cells of a playlist table.
pub open spec fn table_cells_view(
    artists: &Vec<Vec<Vec<TextNode>>>,
    titles: &Vec<Vec<Vec<TextNode>>>,
    albums: &Vec<Vec<Vec<TextNode>>>,
    labels: &Vec<Vec<Vec<TextNode>>>,
    comments: &Vec<Vec<Vec<TextNode>>>,
    times: &Vec<Vec<HtmlElement>>,
) -> TableCells {
    TableCells {
        artists: text_nodes_view3(artists@),
        titles: text_nodes_view3(titles@),
        albums: text_nodes_view3(albums@),
        labels: text_nodes_view3(labels@),
        comments: text_nodes_view3(comments@),
        times: elements_view2(times@),
    }
}

/// The tracks of a playlist table of `row_count` rows, given for each row
/// the text nodes of its `td.col_artist`, `td.col_song_title`,
/// `td.col_album_title`, `td.col_record_label` and `td.col_comments` cells
/// and its `td.col_live_timestamps_flag` cells.
pub fn playlist_table(
    row_count: usize,
    artists: &Vec<Vec<Vec<TextNode>>>,
    titles: &Vec<Vec<Vec<TextNode>>>,
    albums: &Vec<Vec<Vec<TextNode>>>,
    labels: &Vec<Vec<Vec<TextNode>>>,
    comments: &Vec<Vec<Vec<TextNode>>>,
    times: &Vec<Vec<HtmlElement>>,
) -> (r: Vec<ParsedTrack>)
    ensures
        tracks_view(r@) == table_upto(
            table_cells_view(artists, titles, albums, labels, comments, times),
            row_count as int,
        ),
{
    let ghost cells = table_cells_view(artists, titles, albums, labels, comments, times);
    let empty: Vec<Vec<TextNode>> = Vec::new();
    let empty_el: Vec<HtmlElement> = Vec::new();
    let mut out: Vec<ParsedTrack> = Vec::new();
    let mut i: usize = 0;
    while i < row_count
        invariant
            i <= row_count,
            empty@.len() == 0,
            empty_el@.len() == 0,
            cells == table_cells_view(artists, titles, albums, labels, comments, times),
            tracks_view(out@) == table_upto(cells, i as int),
        decreases row_count - i,
    {
        let a = row_cells_exec(artists, i, &empty);
        let t = row_cells_exec(titles, i, &empty);
        if a.len() > 0 || t.len() > 0 {
            let artist = cell_value_exec(a);
            let title = cell_value_exec(t);
            if artist.is_some() || title.is_some() {
                let tm = crate::schedule::nth_exec(times, i, &empty_el);
                let start_sec = if tm.len() > 0 {
                    assert(elements_view(tm@)[0] == tm@[0]@);
                    match first_group_exec(TIME_RE, tm[0].text.as_str(), 1) {
                        Some(x) => hms_seconds(x.as_str()),
                        None => None,
                    }
                } else {
                    None
                };
                let track = ParsedTrack {
                    artist,
                    title,
                    album: cell_value_exec(row_cells_exec(albums, i, &empty)),
                    label: cell_value_exec(row_cells_exec(labels, i, &empty)),
                    comments: cell_value_exec(row_cells_exec(comments, i, &empty)),
                    start_sec,
                };
                let ghost before = out@;
                out.push(track);
                assert(tracks_view(out@) =~= tracks_view(before).push(track@));
            }
        }
        i = i + 1;
    }
    out
}

/// Parses a playlist page into its tracks: the rows of its playlist table
/// (cells read without WFMU's helper spans), or, when the table yields
/// none, the tracks of the free-form template. A start time whose seconds
/// would not fit in `i64` is left out.
pub fn parse_playlist(html: &str) -> (r: Vec<ParsedTrack>)
    ensures
        tracks_view(r@) == playlist_spec(html@),
{
    let table = table_pass(html);
    if table.len() > 0 {
        return table;
    }
    parse_playlist_freeform(html)
}

} // verus!
