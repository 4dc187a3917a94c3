//! Live status from WFMU's pages: the now-playing fragment of a channel
//! page and the highlighted row of the homepage schedule.
use vstd::prelude::*;
use crate::html::{
    attr, attr_of, elements_view, elements_view2, html_select, html_select_each, select_all,
    select_each, ElementModel, HtmlElement,
};
use crate::pattern::regex_captures;
use crate::text::{
    chars_of, clean_chars, clean_text_spec, nonempty_text, occurs_at, slice_chars, starts_with,
    string_from_chars, trim_chars, trim_spaces,
};
use crate::wfmu::{
    first_group, first_group_exec, first_group_i64, first_group_i64_exec, opt_string, opt_view,
    parse_nowplaying_track, parse_nowplaying_track_spec, LiveStatusModel, ParsedLiveStatus,
    PLAYLIST_LINK_RE,
};

verus! {

/// A show id in a `/playlists/ID` link of the now-playing fragment.
pub const SHOW_LINK_RE: &'static str = r#"/playlists/([A-Za-z0-9_-]+)"#;

/// `s` with every leading copy of `pat` removed (`str::trim_start_matches`).
pub open spec fn trim_start_str(s: Seq<char>, pat: Seq<char>) -> Seq<char>
    decreases s.len(),
{
    if pat.len() > 0 && pat.len() <= s.len() && s.take(pat.len() as int) == pat {
        trim_start_str(s.skip(pat.len() as int), pat)
    } else {
        s
    }
}

fn trim_start_str_exec(s: &[char], pat: &[char]) -> (r: Vec<char>)
    ensures
        r@ == trim_start_str(s@, pat@),
{
    let mut a: usize = 0;
    assert(s@.skip(0) =~= s@);
    while pat.len() > 0 && pat.len() <= s.len() - a && starts_with_at(s, a, pat)
        invariant
            a <= s.len(),
            trim_start_str(s@, pat@) == trim_start_str(s@.skip(a as int), pat@),
        decreases s.len() - a,
    {
        assert(s@.skip(a as int).take(pat@.len() as int) =~= s@.subrange(a as int, a + pat@.len()));
        assert(s@.skip(a as int).skip(pat@.len() as int) =~= s@.skip(a + pat@.len()));
        a = a + pat.len();
    }
    if pat.len() > 0 && pat.len() <= s.len() - a {
        assert(s@.skip(a as int).take(pat@.len() as int) =~= s@.subrange(a as int, a + pat@.len()));
    }
    let out = slice_chars(s, a, s.len());
    assert(out@ =~= s@.skip(a as int));
    out
}

fn starts_with_at(s: &[char], a: usize, pat: &[char]) -> (r: bool)
    requires
        a + pat.len() <= s.len(),
    ensures
        r == (s@.subrange(a as int, a + pat@.len()) == pat@),
{
    let mut k: usize = 0;
    while k < pat.len()
        invariant
            k <= pat.len(),
            a + pat.len() <= s.len(),
            forall|j: int| 0 <= j < k ==> s@[a + j] == pat@[j],
        decreases pat.len() - k,
    {
        if s[a + k] != pat[k] {
            assert(s@.subrange(a as int, a + pat@.len())[k as int] != pat@[k as int]);
            return false;
        }
        k = k + 1;
    }
    assert(s@.subrange(a as int, a + pat@.len()) =~= pat@);
    true
}

/// The first element of a list, if any.
pub open spec fn first_of(v: Seq<ElementModel>) -> Option<ElementModel> {
    if v.len() > 0 {
        Some(v[0])
    } else {
        None
    }
}

/// The `href` of the first element that has one.
pub open spec fn first_href(links: Seq<ElementModel>) -> Option<Seq<char>>
    decreases links.len(),
{
    if links.len() == 0 {
        None
    } else {
        match attr_of(links[0].attrs, "href"@) {
            Some(h) => Some(h),
            None => first_href(links.drop_first()),
        }
    }
}

/// The status that the now-playing fragment of a channel page describes:
/// the episode id of its playlist link, the show of its live-song block
/// (the id of the block's first link, the block's text without a leading
/// "on "), and the artist and title of its programme-title line. `None`
/// when it names neither an episode nor a song.
pub open spec fn nowplaying_spec(html: Seq<char>) -> Option<LiveStatusModel> {
    nowplaying_from(
        first_group_i64(PLAYLIST_LINK_RE@, html, 1),
        html_select(html, true, ".nowplaying_live_song"@),
        html_select_each(html, true, ".nowplaying_live_song"@, "a"@),
        html_select(html, true, ".nowplaying_program_title"@),
    )
}

/// The status of a now-playing fragment, given the episode id of its
/// playlist link, its live-song blocks, their links, and its
/// programme-title lines.
pub open spec fn nowplaying_from(
    episode_id: Option<i64>,
    lives: Seq<ElementModel>,
    live_links: Seq<Seq<ElementModel>>,
    titles: Seq<ElementModel>,
) -> Option<LiveStatusModel> {
    let live = first_of(lives);
    let show_id = match live {
        Some(_) => match first_href(if live_links.len() > 0 {
            live_links[0]
        } else {
            Seq::empty()
        }) {
            Some(h) => first_group(SHOW_LINK_RE@, h, 1),
            None => None,
        },
        None => None,
    };
    let show_name = match live {
        Some(el) => nonempty_text(trim_spaces(trim_start_str(clean_text_spec(el.text), "on "@))),
        None => None,
    };
    let raw_track = match first_of(titles) {
        Some(el) => nonempty_text(clean_text_spec(el.text)),
        None => None,
    };
    let (artist, title) = match raw_track {
        Some(t) => parse_nowplaying_track_spec(t),
        None => (None, None),
    };
    if episode_id is None && artist is None && title is None {
        None
    } else {
        Some(LiveStatusModel { episode_id, show_id, show_name, artist, title })
    }
}

fn first_href_exec(links: &Vec<HtmlElement>) -> (r: Option<String>)
    ensures
        opt_view(r) == first_href(elements_view(links@)),
{
    let ghost lv = elements_view(links@);
    let mut k: usize = 0;
    assert(lv.skip(0) =~= lv);
    while k < links.len()
        invariant
            k <= links.len(),
            lv == elements_view(links@),
            first_href(lv) == first_href(lv.skip(k as int)),
        decreases links.len() - k,
    {
        assert(lv.skip(k as int)[0] == links@[k as int]@);
        assert(lv.skip(k as int).drop_first() =~= lv.skip(k + 1));
        match attr(&links[k], "href") {
            Some(h) => {
                proof {
                    reveal_strlit("href");
                }
                return Some(h);
            },
            None => {
                proof {
                    reveal_strlit("href");
                }
            },
        }
        k = k + 1;
    }
    None
}

fn clean_string(s: &str) -> (r: Vec<char>)
    ensures
        r@ == clean_text_spec(s@),
{
    let cs = chars_of(s);
    clean_chars(cs.as_slice())
}

/// Parses the now-playing fragment embedded in a channel page or in its
/// polling response.
pub fn parse_live_nowplaying(html: &str) -> (r: Option<ParsedLiveStatus>)
    ensures
        match r {
            Some(s) => nowplaying_spec(html@) == Some(s@),
            None => nowplaying_spec(html@) is None,
        },
{
    let episode_id = first_group_i64_exec(PLAYLIST_LINK_RE, html, 1);
    let lives = select_all(html, true, ".nowplaying_live_song");
    let live_links = select_each(html, true, ".nowplaying_live_song", "a");
    let titles = select_all(html, true, ".nowplaying_program_title");
    nowplaying_of(episode_id, &lives, &live_links, &titles)
}

/// The status of a now-playing fragment, given the episode id of its
/// playlist link ([`PLAYLIST_LINK_RE`]), its `.nowplaying_live_song`
/// blocks, their `a` links, and its `.nowplaying_program_title` lines.
pub fn nowplaying_of(
    episode_id: Option<i64>,
    lives: &Vec<HtmlElement>,
    live_links: &Vec<Vec<HtmlElement>>,
    titles: &Vec<HtmlElement>,
) -> (r: Option<ParsedLiveStatus>)
    ensures
        match r {
            Some(s) => nowplaying_from(
                episode_id,
                elements_view(lives@),
                elements_view2(live_links@),
                elements_view(titles@),
            ) == Some(s@),
            None => nowplaying_from(
                episode_id,
                elements_view(lives@),
                elements_view2(live_links@),
                elements_view(titles@),
            ) is None,
        },
{
    proof {
        reveal_strlit("on ");
    }
    let (show_id, show_name) = if lives.len() > 0 {
        assert(elements_view(lives@)[0] == lives@[0]@);
        let empty: Vec<HtmlElement> = Vec::new();
        let links = if live_links.len() > 0 {
            assert(elements_view2(live_links@)[0] == elements_view(live_links@[0]@));
            &live_links[0]
        } else {
            assert(elements_view(empty@) =~= Seq::<ElementModel>::empty());
            &empty
        };
        let show_id = match first_href_exec(links) {
            Some(h) => first_group_exec(SHOW_LINK_RE, h.as_str(), 1),
            None => None,
        };
        let name = clean_string(lives[0].text.as_str());
        let on = chars_of("on ");
        let stripped = trim_start_str_exec(name.as_slice(), on.as_slice());
        let trimmed = trim_chars(stripped.as_slice());
        (show_id, opt_string(trimmed))
    } else {
        (None, None)
    };
    let raw_track: Option<String> = if titles.len() > 0 {
        assert(elements_view(titles@)[0] == titles@[0]@);
        opt_string(clean_string(titles[0].text.as_str()))
    } else {
        None
    };
    let (artist, title) = match &raw_track {
        Some(t) => parse_nowplaying_track(t.as_str()),
        None => (None, None),
    };
    if episode_id.is_none() && artist.is_none() && title.is_none() {
        return None;
    }
    Some(ParsedLiveStatus { episode_id, show_id, show_name, artist, title })
}

/// Whether a link leads to a show page: `/playlists/...` but not a playlist
/// (`/playlists/shows/...`).
pub open spec fn is_show_link(href: Seq<char>) -> bool {
    occurs_at(href, 0, "/playlists/"@) && !occurs_at(href, 0, "/playlists/shows/"@)
}

/// The first link of a row that leads to a show page.
pub open spec fn first_show_link(links: Seq<ElementModel>) -> Option<ElementModel>
    decreases links.len(),
{
    if links.len() == 0 {
        None
    } else {
        match attr_of(links[0].attrs, "href"@) {
            Some(h) => if is_show_link(h) {
                Some(links[0])
            } else {
                first_show_link(links.drop_first())
            },
            None => first_show_link(links.drop_first()),
        }
    }
}

proof fn lemma_first_show_link(links: Seq<ElementModel>)
    ensures
        first_show_link(links) matches Some(e) ==> (attr_of(e.attrs, "href"@) matches Some(h)
            && is_show_link(h)),
    decreases links.len(),
{
    if links.len() > 0 {
        lemma_first_show_link(links.drop_first());
    }
}

/// The index of the first row whose HTML carries a playlist link.
pub open spec fn first_playlist_row(rows: Seq<ElementModel>, i: int) -> Option<int>
    decreases rows.len() - i,
{
    if i < 0 || i >= rows.len() {
        None
    } else if regex_captures(PLAYLIST_LINK_RE@, rows[i].outer_html).len() > 0 {
        Some(i)
    } else {
        first_playlist_row(rows, i + 1)
    }
}

/// The live status that the homepage's "Playing Today" table shows: its
/// first row (or, without that table, the page's first row) that links a
/// playlist gives the episode id, and its first show link gives the show id
/// and name. `None` without such a row or when the id does not read as a
/// number.
pub open spec fn homepage_status_spec(html: Seq<char>) -> Option<LiveStatusModel> {
    let today = html_select(html, false, "#playingtoday tr"@);
    let (rows, links) = if today.len() > 0 {
        (today, html_select_each(html, false, "#playingtoday tr"@, "a"@))
    } else {
        (html_select(html, false, "tr"@), html_select_each(html, false, "tr"@, "a"@))
    };
    homepage_status_from(rows, links)
}

/// The status that the homepage's rows describe, given the rows and each
/// row's links: the first row with a playlist link gives the episode, and
/// its first show link the show.
pub open spec fn homepage_status_from(rows: Seq<ElementModel>, links: Seq<Seq<ElementModel>>) -> Option<LiveStatusModel> {
    match first_playlist_row(rows, 0) {
        None => None,
        Some(i) => match first_group_i64(PLAYLIST_LINK_RE@, rows[i].outer_html, 1) {
            None => None,
            Some(id) => {
                let link = first_show_link(
                    if i < links.len() {
                        links[i]
                    } else {
                        Seq::empty()
                    },
                );
                Some(
                    LiveStatusModel {
                        episode_id: Some(id),
                        show_id: match link {
                            Some(l) => match attr_of(l.attrs, "href"@) {
                                Some(h) => Some(h.skip(11)),
                                None => None,
                            },
                            None => None,
                        },
                        show_name: match link {
                            Some(l) => nonempty_text(clean_text_spec(l.text)),
                            None => None,
                        },
                        artist: None,
                        title: None,
                    },
                )
            },
        },
    }
}

fn first_playlist_row_exec(rows: &Vec<HtmlElement>) -> (r: Option<usize>)
    ensures
        match r {
            Some(i) => first_playlist_row(elements_view(rows@), 0) == Some(i as int) && i < rows.len(),
            None => first_playlist_row(elements_view(rows@), 0) is None,
        },
{
    let ghost rv = elements_view(rows@);
    let mut i: usize = 0;
    while i < rows.len()
        invariant
            i <= rows.len(),
            rv == elements_view(rows@),
            first_playlist_row(rv, 0) == first_playlist_row(rv, i as int),
        decreases rows.len() - i,
    {
        assert(rv[i as int] == rows@[i as int]@);
        let ms = crate::pattern::matches_of(PLAYLIST_LINK_RE, rows[i].outer_html.as_str());
        if ms.len() > 0 {
            return Some(i);
        }
        i = i + 1;
    }
    None
}

fn first_show_link_exec(links: &Vec<HtmlElement>) -> (r: Option<usize>)
    ensures
        match r {
            Some(k) => k < links.len() && first_show_link(elements_view(links@)) == Some(
                links@[k as int]@,
            ),
            None => first_show_link(elements_view(links@)) is None,
        },
{
    proof {
        reveal_strlit("href");
        reveal_strlit("/playlists/");
        reveal_strlit("/playlists/shows/");
    }
    let ghost lv = elements_view(links@);
    let p1 = chars_of("/playlists/");
    let p2 = chars_of("/playlists/shows/");
    let mut k: usize = 0;
    assert(lv.skip(0) =~= lv);
    while k < links.len()
        invariant
            k <= links.len(),
            lv == elements_view(links@),
            p1@ == "/playlists/"@,
            p2@ == "/playlists/shows/"@,
            first_show_link(lv) == first_show_link(lv.skip(k as int)),
        decreases links.len() - k,
    {
        assert(lv.skip(k as int)[0] == links@[k as int]@);
        assert(lv.skip(k as int).drop_first() =~= lv.skip(k + 1));
        match attr(&links[k], "href") {
            Some(h) => {
                let hc = chars_of(h.as_str());
                if starts_with(hc.as_slice(), p1.as_slice()) && !starts_with(
                    hc.as_slice(),
                    p2.as_slice(),
                ) {
                    return Some(k);
                }
            },
            None => {},
        }
        k = k + 1;
    }
    None
}

/// Parses the highlighted "Playing Today" row of the WFMU homepage.
pub fn parse_homepage_live_status(html: &str) -> (r: Option<ParsedLiveStatus>)
    ensures
        match r {
            Some(s) => homepage_status_spec(html@) == Some(s@),
            None => homepage_status_spec(html@) is None,
        },
{
    let today = select_all(html, false, "#playingtoday tr");
    let (rows, links) = if today.len() > 0 {
        (today, select_each(html, false, "#playingtoday tr", "a"))
    } else {
        (select_all(html, false, "tr"), select_each(html, false, "tr", "a"))
    };
    homepage_status_of(&rows, &links)
}

/// The status that the homepage's selected rows (`#playingtoday tr`, or
/// every `tr` when there are none) and each row's `a` links describe.
pub fn homepage_status_of(rows: &Vec<HtmlElement>, links: &Vec<Vec<HtmlElement>>) -> (r: Option<ParsedLiveStatus>)
    ensures
        match r {
            Some(s) => homepage_status_from(elements_view(rows@), elements_view2(links@)) == Some(s@),
            None => homepage_status_from(elements_view(rows@), elements_view2(links@)) is None,
        },
{
    proof {
        reveal_strlit("href");
        reveal_strlit("/playlists/");
    }
    let i = match first_playlist_row_exec(rows) {
        Some(i) => i,
        None => return None,
    };
    assert(elements_view(rows@)[i as int] == rows@[i as int]@);
    let id = match first_group_i64_exec(PLAYLIST_LINK_RE, rows[i].outer_html.as_str(), 1) {
        Some(id) => id,
        None => return None,
    };
    let empty: Vec<HtmlElement> = Vec::new();
    let row_links = if i < links.len() {
        assert(elements_view2(links@)[i as int] == elements_view(links@[i as int]@));
        &links[i]
    } else {
        assert(elements_view(empty@) =~= Seq::<ElementModel>::empty());
        &empty
    };
    let (show_id, show_name) = match first_show_link_exec(row_links) {
        Some(k) => {
            let l = &row_links[k];
            proof {
                lemma_first_show_link(elements_view(row_links@));
            }
            let sid = match attr(l, "href") {
                Some(h) => {
                    let hc = chars_of(h.as_str());
                    let p1 = chars_of("/playlists/");
                    assert(crate::text::occurs_at(hc@, 0, p1@));
                    let tail = slice_chars(hc.as_slice(), 11, hc.len());
                    assert(tail@ =~= hc@.skip(11));
                    Some(string_from_chars(tail.as_slice()))
                },
                None => {
                    proof {
                        assert(false);
                    }
                    None
                },
            };
            (sid, opt_string(clean_string(l.text.as_str())))
        },
        None => (None, None),
    };
    Some(ParsedLiveStatus { episode_id: Some(id), show_id, show_name, artist: None, title: None })
}

/// The status in a `channel_landing.php` response: the now-playing section
/// of its changes, when the body is JSON that has one as a string.
pub open spec fn channel_landing_spec(body: Seq<char>) -> Option<LiveStatusModel> {
    match crate::json::json_at(body, "/changes/nowplaying/content"@) {
        crate::json::JsonAtModel::Str(html) => nowplaying_spec(html),
        _ => None,
    }
}

/// Parses the JSON response of `channel_landing.php`. (A key that the body
/// repeats is read at its last occurrence.)
pub fn parse_channel_landing(body: &str) -> (r: Option<ParsedLiveStatus>)
    ensures
        match r {
            Some(s) => channel_landing_spec(body@) == Some(s@),
            None => channel_landing_spec(body@) is None,
        },
{
    match crate::json::json_pointer(body, "/changes/nowplaying/content") {
        crate::json::JsonAt::Str(html) => parse_live_nowplaying(html.as_str()),
        _ => None,
    }
}

} // verus!
