//! The weekly schedule embedded in WFMU's channel pages, and the
//! "Playing Today" table of the main homepage.
use vstd::prelude::*;
use crate::archive::{lower_chars, lower_seq};
use crate::html::{
    attr, attr_of, elements_view, elements_view2, elements_view3, html_select, html_select_each,
    html_select_each2, select_all, select_each, select_each2, ElementModel, HtmlElement,
};
use crate::live_pages::first_of;
use crate::text::{
    chars_of, clean_chars, clean_text_spec, find_from, find_in, is_space, matches_at,
    nonempty_text, occurs_at, space_char, string_from_chars,
};
use crate::wfmu::{
    opt_string, opt_view, programs_view, show_id_from_url, show_id_from_url_spec,
    ParsedLiveProgram, ProgramModel,
};

verus! {

/// `w` occurs in `s` as a whole word: bounded by whitespace or the ends.
pub open spec fn has_word(s: Seq<char>, w: Seq<char>) -> bool {
    exists|i: int|
        #![trigger occurs_at(s, i, w)]
        occurs_at(s, i, w) && (i == 0 || is_space(s[i - 1])) && (i + w.len() == s.len() || is_space(
            s[i + w.len()],
        ))
}

fn has_word_exec(s: &[char], w: &[char]) -> (r: bool)
    ensures
        r == has_word(s@, w@),
{
    let mut i: usize = 0;
    loop
        invariant
            i <= s.len(),
            forall|j: int|
                0 <= j < i ==> !(occurs_at(s@, j, w@) && (j == 0 || is_space(s@[j - 1])) && (j
                    + w@.len() == s@.len() || is_space(s@[j + w@.len()]))),
        decreases s.len() - i,
    {
        if matches_at(s, i, w) {
            let before = i == 0 || space_char(s[i - 1]);
            let after = i + w.len() == s.len() || space_char(s[i + w.len()]);
            if before && after {
                return true;
            }
        }
        if i == s.len() {
            proof {
                assert forall|j: int|
                    !(#[trigger] occurs_at(s@, j, w@) && (j == 0 || is_space(s@[j - 1])) && (j
                        + w@.len() == s@.len() || is_space(s@[j + w@.len()]))) by {
                    if 0 <= j <= i {
                    }
                }
            }
            return false;
        }
        i = i + 1;
    }
}

/// The value of attribute `name`, or the empty string.
pub open spec fn attr_or_empty(attrs: Seq<(Seq<char>, Seq<char>)>, name: Seq<char>) -> Seq<char> {
    match attr_of(attrs, name) {
        Some(v) => v,
        None => Seq::empty(),
    }
}

/// The first link to a show page rather than to a playlist: it has an
/// `href` without `/playlists/shows/`.
pub open spec fn first_schedule_link(links: Seq<ElementModel>) -> Option<ElementModel>
    decreases links.len(),
{
    if links.len() == 0 {
        None
    } else {
        match attr_of(links[0].attrs, "href"@) {
            Some(h) => if find_in(h, "/playlists/shows/"@) is None {
                Some(links[0])
            } else {
                first_schedule_link(links.drop_first())
            },
            None => first_schedule_link(links.drop_first()),
        }
    }
}

/// Element `i` of a list, or an empty list.
pub open spec fn nth_list(v: Seq<Seq<ElementModel>>, i: int) -> Seq<ElementModel> {
    if 0 <= i < v.len() {
        v[i]
    } else {
        Seq::empty()
    }
}

/// Element `i`, `j` of a nested list, or an empty list.
pub open spec fn nth_list2(v: Seq<Seq<Seq<ElementModel>>>, i: int, j: int) -> Seq<ElementModel> {
    if 0 <= i < v.len() && 0 <= j < v[i].len() {
        v[i][j]
    } else {
        Seq::empty()
    }
}

/// One row of the channel template: a day heading sets the day; a row of
/// at least two cells whose second cell links a show adds that programme,
/// with its description, its time label and whether the row is the current
/// slot.
pub open spec fn channel_step(
    st: (Option<Seq<char>>, Seq<ProgramModel>),
    row: ElementModel,
    heads: Seq<ElementModel>,
    cells: Seq<ElementModel>,
    links: Seq<ElementModel>,
    descs: Seq<ElementModel>,
) -> (Option<Seq<char>>, Seq<ProgramModel>) {
    if heads.len() > 0 {
        (Some(clean_text_spec(heads[0].inner_html)), st.1)
    } else if cells.len() < 2 {
        st
    } else {
        match first_schedule_link(links) {
            None => st,
            Some(l) => {
                let name = clean_text_spec(l.inner_html);
                if name.len() == 0 {
                    st
                } else {
                    (
                        st.0,
                        st.1.push(
                            ProgramModel {
                                show_id: show_id_from_url_spec(attr_of(l.attrs, "href"@)),
                                name,
                                host: None,
                                description: match first_of(descs) {
                                    Some(d) => nonempty_text(clean_text_spec(d.inner_html)),
                                    None => None,
                                },
                                starts_at: nonempty_text(clean_text_spec(cells[0].inner_html)),
                                ends_at: None,
                                day: st.0,
                                current: has_word(
                                    attr_or_empty(row.attrs, "class"@),
                                    "upcoming_current_slot"@,
                                ),
                            },
                        ),
                    )
                }
            },
        }
    }
}

/// One row of the homepage table: a single cell with a `colspan` is a day
/// heading (its bold text); a row of at least two cells whose second cell
/// links a show adds that programme, current when the row is highlighted in
/// gold.
pub open spec fn homepage_step(
    st: (Option<Seq<char>>, Seq<ProgramModel>),
    row: ElementModel,
    cells: Seq<ElementModel>,
    links: Seq<ElementModel>,
    bolds: Seq<ElementModel>,
) -> (Option<Seq<char>>, Seq<ProgramModel>) {
    if cells.len() == 1 && attr_of(cells[0].attrs, "colspan"@) is Some {
        (
            match first_of(bolds) {
                Some(b) => Some(clean_text_spec(b.inner_html)),
                None => None,
            },
            st.1,
        )
    } else if cells.len() < 2 {
        st
    } else {
        match first_schedule_link(links) {
            None => st,
            Some(l) => {
                let style = lower_seq(attr_or_empty(row.attrs, "style"@));
                (
                    st.0,
                    st.1.push(
                        ProgramModel {
                            show_id: show_id_from_url_spec(attr_of(l.attrs, "href"@)),
                            name: clean_text_spec(l.inner_html),
                            host: None,
                            description: None,
                            starts_at: Some(clean_text_spec(cells[0].inner_html)),
                            ends_at: None,
                            day: st.0,
                            current: find_in(style, "#dfbe3f"@) is Some || find_in(
                                style,
                                "rgb(223, 190, 63)"@,
                            ) is Some,
                        },
                    ),
                )
            },
        }
    }
}

/// The channel template's rows under `#section_upcoming`.
pub open spec fn channel_rows() -> Seq<char> {
    "#section_upcoming tr"@
}

/// The homepage's rows under `#playingtoday`.
pub open spec fn homepage_rows() -> Seq<char> {
    "#playingtoday tr"@
}

/// Links to show or playlist pages.
pub open spec fn playlist_links() -> Seq<char> {
    "a[href*='/playlists/']"@
}

/// The channel template, over its first `n` rows.
pub open spec fn channel_upto(html: Seq<char>, n: int) -> (Option<Seq<char>>, Seq<ProgramModel>) {
    channel_from(
        html_select(html, false, channel_rows()),
        html_select_each(html, false, channel_rows(), ".upcoming_dow"@),
        html_select_each(html, false, channel_rows(), "td"@),
        html_select_each2(html, channel_rows(), "td"@, playlist_links()),
        html_select_each2(html, channel_rows(), "td"@, "span[id^='expander_target_'] i"@),
        n,
    )
}

/// The channel template over the first `n` of its selected rows, given for
/// each row its day headings, its cells, and per cell its show links and
/// its descriptions.
pub open spec fn channel_from(
    rows: Seq<ElementModel>,
    heads: Seq<Seq<ElementModel>>,
    cells: Seq<Seq<ElementModel>>,
    links: Seq<Seq<Seq<ElementModel>>>,
    descs: Seq<Seq<Seq<ElementModel>>>,
    n: int,
) -> (Option<Seq<char>>, Seq<ProgramModel>)
    decreases n,
{
    if n <= 0 {
        (None, Seq::empty())
    } else {
        let i = n - 1;
        channel_step(
            channel_from(rows, heads, cells, links, descs, i),
            rows[i],
            nth_list(heads, i),
            nth_list(cells, i),
            nth_list2(links, i, 1),
            nth_list2(descs, i, 1),
        )
    }
}

/// The homepage table, over its first `n` rows.
pub open spec fn homepage_upto(html: Seq<char>, n: int) -> (Option<Seq<char>>, Seq<ProgramModel>) {
    homepage_from(
        html_select(html, false, homepage_rows()),
        html_select_each(html, false, homepage_rows(), "td"@),
        html_select_each2(html, homepage_rows(), "td"@, playlist_links()),
        html_select_each2(html, homepage_rows(), "td"@, "b"@),
        n,
    )
}

/// The homepage table over the first `n` of its selected rows, given for
/// each row its cells, and per cell its show links and its bold texts.
pub open spec fn homepage_from(
    rows: Seq<ElementModel>,
    cells: Seq<Seq<ElementModel>>,
    links: Seq<Seq<Seq<ElementModel>>>,
    bolds: Seq<Seq<Seq<ElementModel>>>,
    n: int,
) -> (Option<Seq<char>>, Seq<ProgramModel>)
    decreases n,
{
    if n <= 0 {
        (None, Seq::empty())
    } else {
        let i = n - 1;
        homepage_step(
            homepage_from(rows, cells, links, bolds, i),
            rows[i],
            nth_list(cells, i),
            nth_list2(links, i, 1),
            nth_list2(bolds, i, 0),
        )
    }
}

/// The programmes of a station page's schedule: from the channel template
/// when it yields any, else from the homepage's "Playing Today" table.
pub open spec fn live_schedule_spec(html: Seq<char>) -> Seq<ProgramModel> {
    let channel = channel_upto(html, html_select(html, false, channel_rows()).len() as int).1;
    if channel.len() > 0 {
        channel
    } else {
        homepage_upto(html, html_select(html, false, homepage_rows()).len() as int).1
    }
}

/// Element `i` of a list of lists, or `empty`.
pub fn nth_exec<'a>(v: &'a Vec<Vec<HtmlElement>>, i: usize, empty: &'a Vec<HtmlElement>) -> (r: &'a Vec<
    HtmlElement,
>)
    requires
        empty@.len() == 0,
    ensures
        elements_view(r@) == nth_list(elements_view2(v@), i as int),
{
    if i < v.len() {
        assert(elements_view2(v@)[i as int] == elements_view(v@[i as int]@));
        &v[i]
    } else {
        assert(elements_view(empty@) =~= Seq::<ElementModel>::empty());
        empty
    }
}

fn nth2_exec<'a>(v: &'a Vec<Vec<Vec<HtmlElement>>>, i: usize, j: usize, empty: &'a Vec<HtmlElement>) -> (r:
    &'a Vec<HtmlElement>)
    requires
        empty@.len() == 0,
    ensures
        elements_view(r@) == nth_list2(elements_view3(v@), i as int, j as int),
{
    if i < v.len() && j < v[i].len() {
        assert(elements_view3(v@)[i as int] == elements_view2(v@[i as int]@));
        assert(elements_view2(v@[i as int]@)[j as int] == elements_view(v@[i as int]@[j as int]@));
        &v[i][j]
    } else {
        assert(elements_view(empty@) =~= Seq::<ElementModel>::empty());
        empty
    }
}

fn first_schedule_link_exec(links: &Vec<HtmlElement>) -> (r: Option<usize>)
    ensures
        match r {
            Some(k) => k < links.len() && first_schedule_link(elements_view(links@)) == Some(
                links@[k as int]@,
            ),
            None => first_schedule_link(elements_view(links@)) is None,
        },
{
    proof {
        reveal_strlit("href");
    }
    let ghost lv = elements_view(links@);
    let shows = chars_of("/playlists/shows/");
    let mut k: usize = 0;
    assert(lv.skip(0) =~= lv);
    while k < links.len()
        invariant
            k <= links.len(),
            lv == elements_view(links@),
            shows@ == "/playlists/shows/"@,
            first_schedule_link(lv) == first_schedule_link(lv.skip(k as int)),
        decreases links.len() - k,
    {
        assert(lv.skip(k as int)[0] == links@[k as int]@);
        assert(lv.skip(k as int).drop_first() =~= lv.skip(k + 1));
        match attr(&links[k], "href") {
            Some(h) => {
                let hc = chars_of(h.as_str());
                assert(hc@.skip(0) =~= hc@);
                if find_from(hc.as_slice(), 0, shows.as_slice()).is_none() {
                    return Some(k);
                }
            },
            None => {},
        }
        k = k + 1;
    }
    None
}

fn clean_of(s: &String) -> (r: Vec<char>)
    ensures
        r@ == clean_text_spec(s@),
{
    let cs = chars_of(s.as_str());
    clean_chars(cs.as_slice())
}

fn attr_or_empty_exec(e: &HtmlElement, name: &str) -> (r: Vec<char>)
    ensures
        r@ == attr_or_empty(e@.attrs, name@),
{
    match attr(e, name) {
        Some(v) => chars_of(v.as_str()),
        None => Vec::new(),
    }
}

fn first_clean(v: &Vec<HtmlElement>) -> (r: Option<Vec<char>>)
    ensures
        match r {
            Some(c) => first_of(elements_view(v@)) matches Some(e) && c@ == clean_text_spec(
                e.inner_html,
            ),
            None => first_of(elements_view(v@)) is None,
        },
{
    if v.len() > 0 {
        assert(elements_view(v@)[0] == v@[0]@);
        Some(clean_of(&v[0].inner_html))
    } else {
        None
    }
}

fn channel_pass(html: &str) -> (r: Vec<ParsedLiveProgram>)
    ensures
        programs_view(r@) == channel_upto(html@, html_select(html@, false, channel_rows()).len() as int).1,
{
    proof {
        reveal_strlit("#section_upcoming tr");
        reveal_strlit("a[href*='/playlists/']");
        reveal_strlit("href");
        reveal_strlit("class");
        reveal_strlit("upcoming_current_slot");
    }
    let sel = "#section_upcoming tr";
    let rows = select_all(html, false, sel);
    let heads = select_each(html, false, sel, ".upcoming_dow");
    let cells = select_each(html, false, sel, "td");
    let links = select_each2(html, sel, "td", "a[href*='/playlists/']");
    let descs = select_each2(html, sel, "td", "span[id^='expander_target_'] i");
    channel_schedule(&rows, &heads, &cells, &links, &descs)
}

/// The programmes of the channel template, given its selected rows
/// (`#section_upcoming tr`) and, per row, its day headings
/// (`.upcoming_dow`), its cells (`td`), and per cell its show links
/// (`a[href*='/playlists/']`) and descriptions
/// (`span[id^='expander_target_'] i`).
pub fn channel_schedule(
    rows: &Vec<HtmlElement>,
    heads: &Vec<Vec<HtmlElement>>,
    cells: &Vec<Vec<HtmlElement>>,
    links: &Vec<Vec<Vec<HtmlElement>>>,
    descs: &Vec<Vec<Vec<HtmlElement>>>,
) -> (r: Vec<ParsedLiveProgram>)
    ensures
        programs_view(r@) == channel_from(
            elements_view(rows@),
            elements_view2(heads@),
            elements_view2(cells@),
            elements_view3(links@),
            elements_view3(descs@),
            rows.len() as int,
        ).1,
{
    proof {
        reveal_strlit("href");
        reveal_strlit("class");
        reveal_strlit("upcoming_current_slot");
    }
    let current_word = chars_of("upcoming_current_slot");
    let empty: Vec<HtmlElement> = Vec::new();
    let mut day: Option<String> = None;
    let mut out: Vec<ParsedLiveProgram> = Vec::new();
    let mut i: usize = 0;
    while i < rows.len()
        invariant
            i <= rows.len(),
            empty@.len() == 0,
            current_word@ == "upcoming_current_slot"@,
            (opt_view(day), programs_view(out@)) == channel_from(
                elements_view(rows@),
                elements_view2(heads@),
                elements_view2(cells@),
                elements_view3(links@),
                elements_view3(descs@),
                i as int,
            ),
        decreases rows.len() - i,
    {
        let row = &rows[i];
        assert(elements_view(rows@)[i as int] == row@);
        let h = nth_exec(heads, i, &empty);
        let c = nth_exec(cells, i, &empty);
        let l = nth2_exec(links, i, 1, &empty);
        let d = nth2_exec(descs, i, 1, &empty);
        if h.len() > 0 {
            assert(elements_view(h@)[0] == h@[0]@);
            let hd = clean_of(&h[0].inner_html);
            day = Some(string_from_chars(hd.as_slice()));
        } else if c.len() >= 2 {
            match first_schedule_link_exec(l) {
                Some(k) => {
                    let link = &l[k];
                    let name = clean_of(&link.inner_html);
                    if name.len() > 0 {
                        assert(elements_view(c@)[0] == c@[0]@);
                        let time_label = clean_of(&c[0].inner_html);
                        let description = match first_clean(d) {
                            Some(dc) => opt_string(dc),
                            None => None,
                        };
                        let class = attr_or_empty_exec(row, "class");
                        let current = has_word_exec(class.as_slice(), current_word.as_slice());
                        let p = ParsedLiveProgram {
                            show_id: show_id_from_url(attr(link, "href")),
                            name: string_from_chars(name.as_slice()),
                            host: None,
                            description,
                            starts_at: opt_string(time_label),
                            ends_at: None,
                            day: crate::wfmu::clone_opt(&day),
                            current,
                        };
                        let ghost before = out@;
                        out.push(p);
                        assert(programs_view(out@) =~= programs_view(before).push(p@));
                    }
                },
                None => {},
            }
        }
        i = i + 1;
    }
    out
}

fn homepage_pass(html: &str) -> (r: Vec<ParsedLiveProgram>)
    ensures
        programs_view(r@) == homepage_upto(html@, html_select(html@, false, homepage_rows()).len() as int).1,
{
    proof {
        reveal_strlit("#playingtoday tr");
        reveal_strlit("a[href*='/playlists/']");
        reveal_strlit("href");
        reveal_strlit("style");
        reveal_strlit("colspan");
    }
    let sel = "#playingtoday tr";
    let rows = select_all(html, false, sel);
    let cells = select_each(html, false, sel, "td");
    let links = select_each2(html, sel, "td", "a[href*='/playlists/']");
    let bolds = select_each2(html, sel, "td", "b");
    homepage_schedule(&rows, &cells, &links, &bolds)
}

/// The programmes of the homepage's "Playing Today" table, given its
/// selected rows (`#playingtoday tr`) and, per row, its cells (`td`), and
/// per cell its show links (`a[href*='/playlists/']`) and bold texts (`b`).
pub fn homepage_schedule(
    rows: &Vec<HtmlElement>,
    cells: &Vec<Vec<HtmlElement>>,
    links: &Vec<Vec<Vec<HtmlElement>>>,
    bolds: &Vec<Vec<Vec<HtmlElement>>>,
) -> (r: Vec<ParsedLiveProgram>)
    ensures
        programs_view(r@) == homepage_from(
            elements_view(rows@),
            elements_view2(cells@),
            elements_view3(links@),
            elements_view3(bolds@),
            rows.len() as int,
        ).1,
{
    proof {
        reveal_strlit("href");
        reveal_strlit("style");
        reveal_strlit("colspan");
    }
    let gold = chars_of("#dfbe3f");
    let gold_rgb = chars_of("rgb(223, 190, 63)");
    let empty: Vec<HtmlElement> = Vec::new();
    let mut day: Option<String> = None;
    let mut out: Vec<ParsedLiveProgram> = Vec::new();
    let mut i: usize = 0;
    while i < rows.len()
        invariant
            i <= rows.len(),
            empty@.len() == 0,
            gold@ == "#dfbe3f"@,
            gold_rgb@ == "rgb(223, 190, 63)"@,
            (opt_view(day), programs_view(out@)) == homepage_from(
                elements_view(rows@),
                elements_view2(cells@),
                elements_view3(links@),
                elements_view3(bolds@),
                i as int,
            ),
        decreases rows.len() - i,
    {
        let row = &rows[i];
        assert(elements_view(rows@)[i as int] == row@);
        let c = nth_exec(cells, i, &empty);
        let l = nth2_exec(links, i, 1, &empty);
        let b = nth2_exec(bolds, i, 0, &empty);
        let heading = c.len() == 1 && {
            assert(elements_view(c@)[0] == c@[0]@);
            attr(&c[0], "colspan").is_some()
        };
        if heading {
            day = match first_clean(b) {
                Some(bc) => Some(string_from_chars(bc.as_slice())),
                None => None,
            };
        } else if c.len() >= 2 {
            match first_schedule_link_exec(l) {
                Some(k) => {
                    let link = &l[k];
                    assert(elements_view(c@)[0] == c@[0]@);
                    let style_raw = attr_or_empty_exec(row, "style");
                    let style = lower_chars(style_raw.as_slice());
                    assert(style@.skip(0) =~= style@);
                    let current = find_from(style.as_slice(), 0, gold.as_slice()).is_some()
                        || find_from(style.as_slice(), 0, gold_rgb.as_slice()).is_some();
                    let name = clean_of(&link.inner_html);
                    let start = clean_of(&c[0].inner_html);
                    let p = ParsedLiveProgram {
                        show_id: show_id_from_url(attr(link, "href")),
                        name: string_from_chars(name.as_slice()),
                        host: None,
                        description: None,
                        starts_at: Some(string_from_chars(start.as_slice())),
                        ends_at: None,
                        day: crate::wfmu::clone_opt(&day),
                        current,
                    };
                    let ghost before = out@;
                    out.push(p);
                    assert(programs_view(out@) =~= programs_view(before).push(p@));
                },
                None => {},
            }
        }
        i = i + 1;
    }
    out
}

/// Parses the weekly schedule of a channel page, or the "Playing Today"
/// table of the homepage when the page has no channel schedule.
pub fn parse_live_schedule(html: &str) -> (r: Vec<ParsedLiveProgram>)
    ensures
        programs_view(r@) == live_schedule_spec(html@),
{
    let channel = channel_pass(html);
    if channel.len() > 0 {
        return channel;
    }
    homepage_pass(html)
}

} // verus!
