//! Parsers for the public WFMU pages and feeds.
use vstd::prelude::*;
use crate::pattern::{
    group_of, group_text, matches_of, regex_captures, Span,
};
use crate::num::{
    i64_chars, int_decimal, parse_i32, parse_i32_spec, parse_i64, parse_i64_spec, parse_u32,
    parse_u32_spec, parse_usize, parse_usize_spec,
};
use crate::text::{
    chars_eq, chars_of, clean_chars, clean_text_spec, concat_str, ends_with, find_from, find_in,
    nonempty_text, occurs_at, rfind_before, rfind_in, slice_chars, split_chars, split_on,
    split_once, split_once_spec, starts_with, str_eq, string_from_chars, trim_char,
    trim_char_chars, trim_chars, trim_end_chars, trim_end_set, trim_spaces, views_of,
};

verus! {

/// The view of a parsed show.
pub struct ShowModel {
    pub id: Seq<char>,
    pub name: Seq<char>,
    pub dj: Option<Seq<char>>,
    pub on_air: bool,
}

/// A show as listed in the catalogue.
#[derive(Debug, Clone)]
pub struct ParsedShow {
    pub id: String,
    pub name: String,
    pub dj: Option<String>,
    pub on_air: bool,
}

/// The characters of an optional string.
pub open spec fn opt_view(o: Option<String>) -> Option<Seq<char>> {
    match o {
        Some(s) => Some(s@),
        None => None,
    }
}

impl View for ParsedShow {
    type V = ShowModel;

    open spec fn view(&self) -> ShowModel {
        ShowModel { id: self.id@, name: self.name@, dj: opt_view(self.dj), on_air: self.on_air }
    }
}

/// The site every page is fetched from.
pub open spec fn base_url() -> Seq<char> {
    "https://wfmu.org"@
}

/// A live station: its id, display name, Radio Rethink station code and the
/// WFMU page that carries its schedule.
#[derive(Debug, Clone, PartialEq, Eq)]
pub struct LiveStationConfig {
    pub id: &'static str,
    pub name: &'static str,
    pub rethink_code: &'static str,
    pub info_url: &'static str,
}

/// The configured live stations, as (id, name, rethink code, info page).
pub open spec fn live_station_spec(id: Seq<char>) -> Option<(Seq<char>, Seq<char>, Seq<char>, Seq<char>)> {
    if id == "freeform"@ {
        Some(("freeform"@, "WFMU 91.1"@, "wfmu"@, "https://wfmu.org/"@))
    } else if id == "drummer"@ {
        Some(("drummer"@, "Give the Drummer Radio"@, "wfmugtd"@, "https://wfmu.org/drummer"@))
    } else if id == "rocknsoul"@ {
        Some(
            (
                "rocknsoul"@,
                "Rock'n'Soul Ichiban"@,
                "wfmurnsi"@,
                "https://wfmu.org/rocknsoulradio"@,
            ),
        )
    } else if id == "sheena"@ {
        Some(("sheena"@, "Sheena's Jungle Room"@, "wfmusjr"@, "https://wfmu.org/sheena"@))
    } else {
        None
    }
}

/// The fields of a station configuration.
pub open spec fn station_fields(c: LiveStationConfig) -> (Seq<char>, Seq<char>, Seq<char>, Seq<char>) {
    (c.id@, c.name@, c.rethink_code@, c.info_url@)
}

/// The configuration of a live station, `None` for an unknown id.
pub fn live_station(id: &str) -> (r: Option<LiveStationConfig>)
    ensures
        r is Some <==> live_station_spec(id@) is Some,
        r matches Some(c) ==> Some(station_fields(c)) == live_station_spec(id@),
{
    if str_eq(id, "freeform") {
        Some(
            LiveStationConfig {
                id: "freeform",
                name: "WFMU 91.1",
                rethink_code: "wfmu",
                info_url: "https://wfmu.org/",
            },
        )
    } else if str_eq(id, "drummer") {
        Some(
            LiveStationConfig {
                id: "drummer",
                name: "Give the Drummer Radio",
                rethink_code: "wfmugtd",
                info_url: "https://wfmu.org/drummer",
            },
        )
    } else if str_eq(id, "rocknsoul") {
        Some(
            LiveStationConfig {
                id: "rocknsoul",
                name: "Rock'n'Soul Ichiban",
                rethink_code: "wfmurnsi",
                info_url: "https://wfmu.org/rocknsoulradio",
            },
        )
    } else if str_eq(id, "sheena") {
        Some(
            LiveStationConfig {
                id: "sheena",
                name: "Sheena's Jungle Room",
                rethink_code: "wfmusjr",
                info_url: "https://wfmu.org/sheena",
            },
        )
    } else {
        None
    }
}

/// Radio Rethink's public history snapshot for a station code.
pub fn rethink_playlist_url(code: &str) -> (r: String)
    ensures
        r@ == "https://radiorethinkprod-default-rtdb.firebaseio.com/playlistData/"@ + code@
            + ".json"@,
{
    let mut r = String::from_str("https://radiorethinkprod-default-rtdb.firebaseio.com/playlistData/");
    r.append(code);
    r.append(".json");
    r
}

/// `https://wfmu.org/playlists/`.
pub fn catalog_url() -> (r: String)
    ensures
        r@ == base_url() + "/playlists/"@,
{
    concat_str("https://wfmu.org", "/playlists/")
}

/// The page of one show.
pub fn show_url(show_id: &str) -> (r: String)
    ensures
        r@ == base_url() + "/playlists/"@ + show_id@,
{
    let mut r = concat_str("https://wfmu.org", "/playlists/");
    r.append(show_id);
    r
}

fn append_chars(r: &mut String, cs: &Vec<char>)
    ensures
        final(r)@ == old(r)@ + cs@,
{
    let t = string_from_chars(cs.as_slice());
    r.append(t.as_str());
}

/// The playlist page of one episode.
pub fn playlist_url(episode_id: i64) -> (r: String)
    ensures
        r@ == base_url() + "/playlists/shows/"@ + int_decimal(episode_id as int),
{
    let mut r = concat_str("https://wfmu.org", "/playlists/shows/");
    append_chars(&mut r, &i64_chars(episode_id));
    r
}

/// The legacy `listen.m3u` playlist of an archived broadcast.
pub fn m3u_url(episode_id: i64, archive_id: i64) -> (r: String)
    ensures
        r@ == base_url() + "/listen.m3u?show="@ + int_decimal(episode_id as int) + "&archive="@
            + int_decimal(archive_id as int),
{
    let mut r = concat_str("https://wfmu.org", "/listen.m3u?show=");
    append_chars(&mut r, &i64_chars(episode_id));
    r.append("&archive=");
    append_chars(&mut r, &i64_chars(archive_id));
    r
}

/// The archive player page of a broadcast, which names its audio file.
pub fn archiveplayer_url(episode_id: i64, archive_id: i64) -> (r: String)
    ensures
        r@ == base_url() + "/archiveplayer/?show="@ + int_decimal(episode_id as int)
            + "&archive="@ + int_decimal(archive_id as int),
{
    let mut r = concat_str("https://wfmu.org", "/archiveplayer/?show=");
    append_chars(&mut r, &i64_chars(episode_id));
    r.append("&archive=");
    append_chars(&mut r, &i64_chars(archive_id));
    r
}

/// Where the status of a live station is read from: the channel-landing
/// JSON feed of a web channel, or the main FM homepage.
#[derive(Debug, Clone, PartialEq, Eq, Structural)]
pub enum LiveStatusSource {
    Channel { channel_id: i64 },
    Homepage,
}

/// The URL [`LiveStatusSource::url`] requests.
pub open spec fn status_url_spec(src: LiveStatusSource) -> Seq<char> {
    match src {
        LiveStatusSource::Channel { channel_id } => base_url() + "/channel_landing.php?cid="@
            + int_decimal(channel_id as int) + "&hashes%5Bnowplaying%5D=stale"@,
        LiveStatusSource::Homepage => base_url() + "/"@,
    }
}

impl LiveStatusSource {
    /// The request that returns this station's current status.
    pub fn url(&self) -> (r: String)
        ensures
            r@ == status_url_spec(*self),
    {
        match self {
            LiveStatusSource::Channel { channel_id } => {
                let mut r = concat_str("https://wfmu.org", "/channel_landing.php?cid=");
                append_chars(&mut r, &i64_chars(*channel_id));
                r.append("&hashes%5Bnowplaying%5D=stale");
                r
            },
            LiveStatusSource::Homepage => concat_str("https://wfmu.org", "/"),
        }
    }

    /// Reads this station's current status from the body of its status
    /// request.
    pub fn parse(&self, body: &str) -> (r: Option<ParsedLiveStatus>)
        ensures
            opt_status_view(r) == match *self {
                LiveStatusSource::Channel { .. } => crate::live_pages::channel_landing_spec(body@),
                LiveStatusSource::Homepage => crate::live_pages::homepage_status_spec(body@),
            },
    {
        match self {
            LiveStatusSource::Channel { .. } => crate::live_pages::parse_channel_landing(body),
            LiveStatusSource::Homepage => crate::live_pages::parse_homepage_live_status(body),
        }
    }
}

/// English month names, January first.
pub open spec fn month_name(m: int) -> Seq<char> {
    if m == 1 {
        "January"@
    } else if m == 2 {
        "February"@
    } else if m == 3 {
        "March"@
    } else if m == 4 {
        "April"@
    } else if m == 5 {
        "May"@
    } else if m == 6 {
        "June"@
    } else if m == 7 {
        "July"@
    } else if m == 8 {
        "August"@
    } else if m == 9 {
        "September"@
    } else if m == 10 {
        "October"@
    } else if m == 11 {
        "November"@
    } else {
        "December"@
    }
}

/// The name of month `m` (1..=12).
pub fn month_str(m: usize) -> (r: &'static str)
    requires
        1 <= m <= 12,
    ensures
        r@ == month_name(m as int),
{
    if m == 1 {
        "January"
    } else if m == 2 {
        "February"
    } else if m == 3 {
        "March"
    } else if m == 4 {
        "April"
    } else if m == 5 {
        "May"
    } else if m == 6 {
        "June"
    } else if m == 7 {
        "July"
    } else if m == 8 {
        "August"
    } else if m == 9 {
        "September"
    } else if m == 10 {
        "October"
    } else if m == 11 {
        "November"
    } else {
        "December"
    }
}

/// A two-digit year pivoted at 70: 00-69 are 2000s, 70-99 are 1900s.
pub open spec fn pivot_year(y: int) -> int {
    if y < 70 {
        2000 + y
    } else {
        1900 + y
    }
}

/// "MM", "DD", "YY" (as the short dates on deep-archive pages read) to
/// "Month D, YYYY"; `None` when a part is not a number or the month is not
/// 1..=12.
pub open spec fn mdy_from_dotted_spec(mm: Seq<char>, dd: Seq<char>, yy: Seq<char>) -> Option<Seq<char>> {
    match (parse_usize_spec(mm), parse_u32_spec(dd), parse_i32_spec(yy)) {
        (Some(m), Some(d), Some(y)) => if 1 <= m <= 12 {
            Some(month_name(m as int) + " "@ + int_decimal(d as int) + ", "@ + int_decimal(
                pivot_year(y as int),
            ))
        } else {
            None
        },
        _ => None,
    }
}

proof fn lemma_four_digits(n: nat)
    requires
        1000 <= n <= 9999,
    ensures
        crate::num::nat_digits(n).len() == 4,
{
    let a = n / 10;
    let b = a / 10;
    let c = b / 10;
    assert(100 <= a <= 999);
    assert(10 <= b <= 99);
    assert(1 <= c <= 9);
    assert(crate::num::nat_digits(c).len() == 1);
    assert(crate::num::nat_digits(b) == crate::num::nat_digits(c).push(crate::num::digit_char((b % 10) as int)));
    assert(crate::num::nat_digits(a) == crate::num::nat_digits(b).push(crate::num::digit_char((a % 10) as int)));
    assert(crate::num::nat_digits(n) == crate::num::nat_digits(a).push(crate::num::digit_char((n % 10) as int)));
}

/// A dotted date with a two-digit year reads that year as the one of
/// 1970..=2069 that ends in those two digits (70-99 in the 1900s, 00-69 in
/// the 2000s), and the date ends with it.
pub proof fn dotted_years_pivot_at_70(mm: Seq<char>, dd: Seq<char>, yy: Seq<char>)
    ensures
        mdy_from_dotted_spec(mm, dd, yy) matches Some(s) ==> (parse_i32_spec(yy) matches Some(y) && (0
            <= y <= 99 ==> exists|year: int|
            1970 <= year <= 2069 && year % 100 == y && s.len() >= 4 && s.skip(s.len() - 4)
                == #[trigger] int_decimal(year))),
{
    match mdy_from_dotted_spec(mm, dd, yy) {
        Some(s) => {
            let m = parse_usize_spec(mm)->0;
            let d = parse_u32_spec(dd)->0;
            let y = parse_i32_spec(yy)->0;
            if 0 <= y <= 99 {
                let year = pivot_year(y as int);
                lemma_four_digits(year as nat);
                let head = month_name(m as int) + " "@ + int_decimal(d as int) + ", "@;
                assert(s == head + int_decimal(year));
                assert(s.skip(s.len() - 4) =~= int_decimal(year));
                assert(1970 <= year <= 2069 && year % 100 == y);
            }
        },
        None => {},
    }
}

/// Converts a dotted short date into the canonical "Month D, YYYY" form.
pub fn mdy_from_dotted(mm: &[char], dd: &[char], yy: &[char]) -> (r: Option<String>)
    ensures
        opt_view(r) == mdy_from_dotted_spec(mm@, dd@, yy@),
{
    let m = match parse_usize(mm) {
        Some(m) => m,
        None => return None,
    };
    let d = match parse_u32(dd) {
        Some(d) => d,
        None => return None,
    };
    let y = match parse_i32(yy) {
        Some(y) => y,
        None => return None,
    };
    if m < 1 || m > 12 {
        return None;
    }
    let year: i64 = if y < 70 {
        2000 + y as i64
    } else {
        1900 + y as i64
    };
    let mut r = String::from_str(month_str(m));
    r.append(" ");
    append_chars(&mut r, &i64_chars(d as i64));
    r.append(", ");
    append_chars(&mut r, &i64_chars(year));
    Some(r)
}

/// Seconds of an "H:MM:SS" or "M:SS" time; `None` for anything else.
pub open spec fn parse_hms_spec(s: Seq<char>) -> Option<int> {
    let parts = split_on(trim_spaces(s), ':');
    let nums = parts.map_values(|p: Seq<char>| parse_i64_spec(trim_spaces(p)));
    if exists|k: int| 0 <= k < nums.len() && nums[k] is None {
        None
    } else if nums.len() == 3 {
        Some(nums[0]->0 * 3600 + nums[1]->0 * 60 + nums[2]->0)
    } else if nums.len() == 2 {
        Some(nums[0]->0 * 60 + nums[1]->0)
    } else {
        None
    }
}

/// Times whose seconds fit in `i64` at every step of the sum.
pub open spec fn hms_in_range(s: Seq<char>) -> bool {
    let parts = split_on(trim_spaces(s), ':');
    let nums = parts.map_values(|p: Seq<char>| parse_i64_spec(trim_spaces(p)));
    &&& (nums.len() == 3 && (forall|k: int| 0 <= k < 3 ==> nums[k] is Some)) ==> {
        let h = nums[0]->0 as int;
        let m = nums[1]->0 as int;
        let x = nums[2]->0 as int;
        &&& i64::MIN <= h * 3600 <= i64::MAX
        &&& i64::MIN <= m * 60 <= i64::MAX
        &&& i64::MIN <= h * 3600 + m * 60 <= i64::MAX
        &&& i64::MIN <= h * 3600 + m * 60 + x <= i64::MAX
    }
    &&& (nums.len() == 2 && (forall|k: int| 0 <= k < 2 ==> nums[k] is Some)) ==> {
        let m = nums[0]->0 as int;
        let x = nums[1]->0 as int;
        &&& i64::MIN <= m * 60 <= i64::MAX
        &&& i64::MIN <= m * 60 + x <= i64::MAX
    }
}

/// "0:05:56" or "1:02:03" to seconds; also accepts "5:56".
pub fn parse_hms(s: &str) -> (r: Option<i64>)
    requires
        hms_in_range(s@),
    ensures
        r matches Some(v) ==> parse_hms_spec(s@) == Some(v as int),
        r is None ==> parse_hms_spec(s@) is None,
{
    let cs = chars_of(s);
    let t = trim_chars(cs.as_slice());
    let parts = split_chars(t.as_slice(), ':');
    let ghost nums = views_of(parts@).map_values(|p: Seq<char>| parse_i64_spec(trim_spaces(p)));
    let mut vals: Vec<i64> = Vec::new();
    let mut k: usize = 0;
    while k < parts.len()
        invariant
            k <= parts.len(),
            nums == views_of(parts@).map_values(|p: Seq<char>| parse_i64_spec(trim_spaces(p))),
            nums.len() == parts.len(),
            views_of(parts@) == split_on(trim_spaces(s@), ':'),
            vals.len() == k,
            forall|j: int| 0 <= j < k ==> nums[j] == Some(#[trigger] vals@[j]),
        decreases parts.len() - k,
    {
        let p = trim_chars(parts[k].as_slice());
        assert(views_of(parts@)[k as int] == parts@[k as int]@);
        assert(nums[k as int] == parse_i64_spec(p@));
        match parse_i64(p.as_slice()) {
            Some(v) => {
                vals.push(v);
            },
            None => {
                assert(nums[k as int] is None);
                assert(parse_hms_spec(s@) is None);
                return None;
            },
        }
        k = k + 1;
    }
    assert(nums.len() == vals.len());
    assert forall|j: int| 0 <= j < nums.len() implies #[trigger] nums[j] == Some(vals@[j]) by {}
    assert(nums == split_on(trim_spaces(s@), ':').map_values(
        |p: Seq<char>| parse_i64_spec(trim_spaces(p)),
    ));
    if vals.len() == 3 {
        assert(nums[0] == Some(vals@[0]));
        assert(nums[1] == Some(vals@[1]));
        assert(nums[2] == Some(vals@[2]));
        assert(forall|k: int| 0 <= k < 3 ==> nums[k] is Some);
        Some(vals[0] * 3600 + vals[1] * 60 + vals[2])
    } else if vals.len() == 2 {
        assert(nums[0] == Some(vals@[0]));
        assert(nums[1] == Some(vals@[1]));
        assert(forall|k: int| 0 <= k < 2 ==> nums[k] is Some);
        Some(vals[0] * 60 + vals[1])
    } else {
        None
    }
}

/// [`parse_hms_spec`] where every step of the sum fits in `i64`, and
/// `None` otherwise.
pub open spec fn hms_seconds_spec(s: Seq<char>) -> Option<int> {
    if hms_in_range(s) {
        parse_hms_spec(s)
    } else {
        None
    }
}

/// Seconds of a playlist time as the page parsers read it: like
/// [`parse_hms`], but a time whose seconds do not fit in `i64` reads as no
/// time at all.
pub fn hms_seconds(s: &str) -> (r: Option<i64>)
    ensures
        r matches Some(v) ==> hms_seconds_spec(s@) == Some(v as int),
        r is None ==> hms_seconds_spec(s@) is None,
{
    let cs = chars_of(s);
    let t = trim_chars(cs.as_slice());
    let parts = split_chars(t.as_slice(), ':');
    let ghost nums = views_of(parts@).map_values(|p: Seq<char>| parse_i64_spec(trim_spaces(p)));
    let mut vals: Vec<i64> = Vec::new();
    let mut k: usize = 0;
    while k < parts.len()
        invariant
            k <= parts.len(),
            nums == views_of(parts@).map_values(|p: Seq<char>| parse_i64_spec(trim_spaces(p))),
            nums.len() == parts.len(),
            views_of(parts@) == split_on(trim_spaces(s@), ':'),
            vals.len() == k,
            forall|j: int| 0 <= j < k ==> nums[j] == Some(#[trigger] vals@[j]),
        decreases parts.len() - k,
    {
        let p = trim_chars(parts[k].as_slice());
        assert(views_of(parts@)[k as int] == parts@[k as int]@);
        assert(nums[k as int] == parse_i64_spec(p@));
        match parse_i64(p.as_slice()) {
            Some(v) => {
                vals.push(v);
            },
            None => {
                assert(nums[k as int] is None);
                assert(parse_hms_spec(s@) is None);
                return None;
            },
        }
        k = k + 1;
    }
    assert forall|j: int| 0 <= j < nums.len() implies #[trigger] nums[j] == Some(vals@[j]) by {}
    assert(nums == split_on(trim_spaces(s@), ':').map_values(
        |p: Seq<char>| parse_i64_spec(trim_spaces(p)),
    ));
    if vals.len() == 3 {
        assert(nums[0] == Some(vals@[0]));
        assert(nums[1] == Some(vals@[1]));
        assert(nums[2] == Some(vals@[2]));
        assert(forall|k: int| 0 <= k < 3 ==> nums[k] is Some);
        let h = vals[0] as i128 * 3600;
        let m = vals[1] as i128 * 60;
        let total = h + m + vals[2] as i128;
        if h < i64::MIN as i128 || h > i64::MAX as i128 || m < i64::MIN as i128 || m > i64::MAX as i128
            || h + m < i64::MIN as i128 || h + m > i64::MAX as i128 || total < i64::MIN as i128
            || total > i64::MAX as i128 {
            return None;
        }
        Some(total as i64)
    } else if vals.len() == 2 {
        assert(nums[0] == Some(vals@[0]));
        assert(nums[1] == Some(vals@[1]));
        assert(forall|k: int| 0 <= k < 2 ==> nums[k] is Some);
        let m = vals[0] as i128 * 60;
        let total = m + vals[1] as i128;
        if m < i64::MIN as i128 || m > i64::MAX as i128 || total < i64::MIN as i128 || total
            > i64::MAX as i128 {
            return None;
        }
        Some(total as i64)
    } else {
        None
    }
}

/// A playlist line: not blank and not a `#` comment once trimmed.
pub open spec fn m3u_entry(l: Seq<char>) -> bool {
    let t = trim_spaces(l);
    t.len() > 0 && t[0] != '#'
}

/// The first entry of an M3U body, trimmed.
pub open spec fn parse_m3u_spec(body: Seq<char>) -> Option<Seq<char>> {
    let lines = split_on(body, '\n');
    if exists|i: int| 0 <= i < lines.len() && m3u_entry(lines[i]) {
        let i = choose|i: int|
            0 <= i < lines.len() && m3u_entry(lines[i]) && forall|j: int|
                0 <= j < i ==> !m3u_entry(#[trigger] lines[j]);
        Some(trim_spaces(lines[i]))
    } else {
        None
    }
}

/// The direct media URL listed in a `listen.m3u` body.
pub fn parse_m3u(body: &str) -> (r: Option<String>)
    ensures
        opt_view(r) == parse_m3u_spec(body@),
{
    let cs = chars_of(body);
    let lines = split_chars(cs.as_slice(), '\n');
    let ghost ls = split_on(body@, '\n');
    let mut i: usize = 0;
    while i < lines.len()
        invariant
            i <= lines.len(),
            views_of(lines@) == ls,
            ls == split_on(body@, '\n'),
            forall|j: int| 0 <= j < i ==> !m3u_entry(#[trigger] ls[j]),
        decreases lines.len() - i,
    {
        let t = trim_chars(lines[i].as_slice());
        assert(ls[i as int] == lines@[i as int]@);
        if t.len() > 0 && t[0] != '#' {
            proof {
                assert(m3u_entry(ls[i as int]));
                let k = choose|k: int|
                    0 <= k < ls.len() && m3u_entry(ls[k]) && forall|j: int|
                        0 <= j < k ==> !m3u_entry(#[trigger] ls[j]);
                if k < i {
                    assert(!m3u_entry(ls[k]));
                }
                if k > i {
                    assert(!m3u_entry(ls[i as int]));
                }
            }
            return Some(string_from_chars(t.as_slice()));
        }
        i = i + 1;
    }
    proof {
        assert forall|j: int| 0 <= j < ls.len() implies !m3u_entry(ls[j]) by {}
    }
    None
}

/// Both parts of an "Artist - Title" split, each trimmed and `None` when
/// empty.
pub open spec fn dash_pair(a: Seq<char>, t: Seq<char>) -> (Option<Seq<char>>, Option<Seq<char>>) {
    (nonempty_text(trim_spaces(a)), nonempty_text(trim_spaces(t)))
}

/// Artist and title of a now-playing line. Hosted shows write
/// `"Title" by Artist`, unattended streams `"Artist - Title"`, and plain
/// text is split at the first " - ".
pub open spec fn parse_nowplaying_track_spec(raw: Seq<char>) -> (Option<Seq<char>>, Option<Seq<char>>) {
    let value = trim_spaces(raw);
    let quoted = value.drop_first();
    let end = find_in(quoted, "\""@);
    if value.len() > 0 && value[0] == '"' && end is Some {
        let title = trim_spaces(quoted.take(end->0));
        let rest = trim_spaces(quoted.skip(end->0 + 1));
        if occurs_at(rest, 0, "by "@) {
            (nonempty_text(trim_spaces(rest.skip(3))), nonempty_text(title))
        } else {
            match split_once_spec(title, " - "@) {
                Some((a, t)) => dash_pair(a, t),
                None => (None, nonempty_text(title)),
            }
        }
    } else {
        match split_once_spec(value, " - "@) {
            Some((a, t)) => dash_pair(a, t),
            None => (None, nonempty_text(trim_char(value, '"'))),
        }
    }
}

/// `Some` of the characters as a string, unless there are none.
pub fn opt_string(v: Vec<char>) -> (r: Option<String>)
    ensures
        opt_view(r) == nonempty_text(v@),
{
    if v.len() == 0 {
        None
    } else {
        Some(string_from_chars(v.as_slice()))
    }
}

fn dash_pair_exec(a: &Vec<char>, t: &Vec<char>) -> (r: (Option<String>, Option<String>))
    ensures
        (opt_view(r.0), opt_view(r.1)) == dash_pair(a@, t@),
{
    (opt_string(trim_chars(a.as_slice())), opt_string(trim_chars(t.as_slice())))
}

/// Splits a now-playing line into artist and title.
pub fn parse_nowplaying_track(raw: &str) -> (r: (Option<String>, Option<String>))
    ensures
        (opt_view(r.0), opt_view(r.1)) == parse_nowplaying_track_spec(raw@),
{
    let cs = chars_of(raw);
    let value = trim_chars(cs.as_slice());
    let dash = chars_of(" - ");
    if value.len() > 0 && value[0] == '"' {
        let quoted = slice_chars(value.as_slice(), 1, value.len());
        assert(quoted@ =~= value@.drop_first());
        let q = chars_of("\"");
        assert(quoted@.skip(0) =~= quoted@);
        match find_from(quoted.as_slice(), 0, q.as_slice()) {
            Some(end) => {
                proof {
                    reveal_strlit("\"");
                    reveal_strlit("by ");
                    assert(occurs_at(quoted@, end as int, q@));
                    assert(q@.len() == 1);
                }
                let title_raw = slice_chars(quoted.as_slice(), 0, end);
                let title = trim_chars(title_raw.as_slice());
                let rest_raw = slice_chars(quoted.as_slice(), end + 1, quoted.len());
                let rest = trim_chars(rest_raw.as_slice());
                assert(title_raw@ =~= quoted@.take(end as int));
                assert(rest_raw@ =~= quoted@.skip(end + 1));
                let by = chars_of("by ");
                if starts_with(rest.as_slice(), by.as_slice()) {
                    assert(by@.len() == 3);
                    let artist_raw = slice_chars(rest.as_slice(), 3, rest.len());
                    assert(artist_raw@ =~= rest@.skip(3));
                    let artist = trim_chars(artist_raw.as_slice());
                    return (opt_string(artist), opt_string(title));
                }
                match split_once(title.as_slice(), dash.as_slice()) {
                    Some((a, t)) => {
                        return dash_pair_exec(&a, &t);
                    },
                    None => {
                        return (None, opt_string(title));
                    },
                }
            },
            None => {},
        }
    }
    match split_once(value.as_slice(), dash.as_slice()) {
        Some((a, t)) => dash_pair_exec(&a, &t),
        None => (None, opt_string(trim_char_chars(value.as_slice(), '"'))),
    }
}

/// The now-playing poll URL for a channel page URL: scheme and host of the
/// page, then WFMU's `channel_landing.php` endpoint with a stale hash.
pub open spec fn channel_nowplaying_url_spec(page_url: Seq<char>, channel_id: int) -> Option<Seq<char>> {
    let parts = split_on(page_url, '/');
    if parts.len() >= 3 && parts[0].len() > 0 && parts[0].last() == ':' {
        let scheme = parts[0].drop_last();
        let empty = parts[1];
        let host = parts[2];
        if empty.len() == 0 && (scheme == "http"@ || scheme == "https"@) && host.len() > 0 {
            Some(
                scheme + "://"@ + host + "/channel_landing.php?cid="@ + int_decimal(channel_id)
                    + "&hashes%5Bnowplaying%5D=stale"@,
            )
        } else {
            None
        }
    } else {
        None
    }
}

/// Builds the small now-playing request that WFMU's own channel page makes.
pub fn channel_nowplaying_url(page_url: &str, channel_id: i64) -> (r: Option<String>)
    ensures
        opt_view(r) == channel_nowplaying_url_spec(page_url@, channel_id as int),
{
    let cs = chars_of(page_url);
    let parts = split_chars(cs.as_slice(), '/');
    assert(views_of(parts@) == split_on(page_url@, '/'));
    if parts.len() < 3 {
        return None;
    }
    assert(views_of(parts@)[0] == parts@[0]@);
    assert(views_of(parts@)[1] == parts@[1]@);
    assert(views_of(parts@)[2] == parts@[2]@);
    let first = &parts[0];
    if first.len() == 0 || first[first.len() - 1] != ':' {
        return None;
    }
    let scheme = slice_chars(first.as_slice(), 0, first.len() - 1);
    assert(scheme@ =~= first@.drop_last());
    let http = chars_of("http");
    let https = chars_of("https");
    let known = chars_eq(scheme.as_slice(), http.as_slice()) || chars_eq(
        scheme.as_slice(),
        https.as_slice(),
    );
    if parts[1].len() != 0 || !known || parts[2].len() == 0 {
        return None;
    }
    let mut r = string_from_chars(scheme.as_slice());
    r.append("://");
    let host = string_from_chars(parts[2].as_slice());
    r.append(host.as_str());
    r.append("/channel_landing.php?cid=");
    let id = string_from_chars(i64_chars(channel_id).as_slice());
    r.append(id.as_str());
    r.append("&hashes%5Bnowplaying%5D=stale");
    Some(r)
}

/// `cut` lowered to where `m` first occurs in `rest`, if it occurs earlier.
pub open spec fn cut_before(rest: Seq<char>, m: Seq<char>, cut: int) -> int {
    match find_in(rest, m) {
        Some(i) => if i < cut {
            i
        } else {
            cut
        },
        None => cut,
    }
}

/// Where the blurb ends: the first of the template's boilerplate markers.
pub open spec fn blurb_cut(rest: Seq<char>) -> int {
    cut_before(
        rest,
        "</div>"@,
        cut_before(
            rest,
            "</p>"@,
            cut_before(
                rest,
                "Visit&nbsp;homepage"@,
                cut_before(
                    rest,
                    "(Visit"@,
                    cut_before(
                        rest,
                        "( Visit"@,
                        cut_before(
                            rest,
                            "On WFMU"@,
                            cut_before(rest, "<br"@, cut_before(rest, "</font>"@, rest.len() as int)),
                        ),
                    ),
                ),
            ),
        ),
    )
}

/// The show blurb: the text after `<div class="everything">` (past the
/// template's `<font ...>` tag when there is one), cut at the first
/// boilerplate marker, cleaned, with trailing separators `| ( & -` and spaces
/// dropped.
pub open spec fn show_description_spec(html: Seq<char>) -> Option<Seq<char>> {
    let anchor = "<div class=\"everything\">"@;
    match find_in(html, anchor) {
        None => None,
        Some(a) => {
            let region = html.skip(a + anchor.len());
            let text_start = match find_in(region, "<font"@) {
                Some(i) => match find_in(region.skip(i), ">"@) {
                    Some(j) => i + j + 1,
                    None => 0,
                },
                None => 0,
            };
            let rest = region.skip(text_start);
            let text = clean_text_spec(rest.take(blurb_cut(rest)));
            nonempty_text(trim_spaces(trim_end_set(text, "|(&- "@)))
        },
    }
}

fn cut_before_exec(rest: &[char], m: &str, cut: usize) -> (r: usize)
    requires
        cut <= rest.len(),
    ensures
        r == cut_before(rest@, m@, cut as int),
        r <= cut,
{
    let mc = chars_of(m);
    assert(rest@.skip(0) =~= rest@);
    match find_from(rest, 0, mc.as_slice()) {
        Some(i) => if i < cut {
            i
        } else {
            cut
        },
        None => cut,
    }
}

/// The blurb of a show page, if it has one.
pub fn parse_show_description(html: &str) -> (r: Option<String>)
    ensures
        opt_view(r) == show_description_spec(html@),
{
    let h = chars_of(html);
    let anchor = chars_of("<div class=\"everything\">");
    assert(h@.skip(0) =~= h@);
    let a = match find_from(h.as_slice(), 0, anchor.as_slice()) {
        Some(a) => a,
        None => return None,
    };
    assert(occurs_at(h@, a as int, anchor@));
    assert(a + anchor@.len() <= h@.len());
    let alen = anchor.len();
    assert(alen == anchor@.len());
    assert(h@.len() == h.len());
    assert(a + alen <= h.len());
    let region = slice_chars(h.as_slice(), a + alen, h.len());
    assert(region@ =~= h@.skip(a + anchor@.len()));
    let font = chars_of("<font");
    let gt = chars_of(">");
    assert(region@.skip(0) =~= region@);
    let text_start: usize = match find_from(region.as_slice(), 0, font.as_slice()) {
        Some(i) => {
            assert(region@.skip(i as int).skip(0) =~= region@.skip(i as int));
            let tail = slice_chars(region.as_slice(), i, region.len());
            assert(tail@ =~= region@.skip(i as int));
            assert(tail@.skip(0) =~= tail@);
            match find_from(tail.as_slice(), 0, gt.as_slice()) {
                Some(j) => {
                    assert(occurs_at(tail@, j as int, gt@));
                    proof {
                        reveal_strlit(">");
                    }
                    i + j + 1
                },
                None => 0,
            }
        },
        None => 0,
    };
    let rest = slice_chars(region.as_slice(), text_start, region.len());
    assert(rest@ =~= region@.skip(text_start as int));
    let mut cut = rest.len();
    cut = cut_before_exec(rest.as_slice(), "</font>", cut);
    cut = cut_before_exec(rest.as_slice(), "<br", cut);
    cut = cut_before_exec(rest.as_slice(), "On WFMU", cut);
    cut = cut_before_exec(rest.as_slice(), "( Visit", cut);
    cut = cut_before_exec(rest.as_slice(), "(Visit", cut);
    cut = cut_before_exec(rest.as_slice(), "Visit&nbsp;homepage", cut);
    cut = cut_before_exec(rest.as_slice(), "</p>", cut);
    cut = cut_before_exec(rest.as_slice(), "</div>", cut);
    let head = slice_chars(rest.as_slice(), 0, cut);
    assert(head@ =~= rest@.take(cut as int));
    let text = clean_chars(head.as_slice());
    let seps = chars_of("|(&- ");
    let trimmed = trim_end_chars(text.as_slice(), seps.as_slice());
    let out = trim_chars(trimmed.as_slice());
    opt_string(out)
}

/// The `<select name="Ubu_Nav_Popup">` ("OLDER PLAYLISTS") block: from the
/// last `<select` (or, failing that, `<SELECT`) before the name, up to the
/// first `</select>` (or `</SELECT>`) after that.
pub open spec fn nav_popup_spec(html: Seq<char>) -> Option<Seq<char>> {
    match find_in(html, "Ubu_Nav_Popup"@) {
        None => None,
        Some(sel) => {
            let before = html.take(sel);
            let start = match rfind_in(before, "<select"@) {
                Some(b) => Some(b),
                None => rfind_in(before, "<SELECT"@),
            };
            match start {
                None => None,
                Some(b) => {
                    let block = html.skip(b);
                    let end = match find_in(block, "</select>"@) {
                        Some(e) => Some(e),
                        None => find_in(block, "</SELECT>"@),
                    };
                    match end {
                        None => None,
                        Some(e) => Some(block.take(e)),
                    }
                },
            }
        },
    }
}

/// Characters of the archive dropdown block, if the page has one.
pub fn nav_popup_chars(h: &[char]) -> (r: Option<Vec<char>>)
    ensures
        match r {
            Some(v) => nav_popup_spec(h@) == Some(v@),
            None => nav_popup_spec(h@) is None,
        },
{
    let name = chars_of("Ubu_Nav_Popup");
    assert(h@.skip(0) =~= h@);
    let sel = match find_from(h, 0, name.as_slice()) {
        Some(x) => x,
        None => return None,
    };
    assert(occurs_at(h@, sel as int, name@));
    let lower = chars_of("<select");
    let upper = chars_of("<SELECT");
    let b = match rfind_before(h, sel, lower.as_slice()) {
        Some(b) => b,
        None => match rfind_before(h, sel, upper.as_slice()) {
            Some(b) => b,
            None => return None,
        },
    };
    let block = slice_chars(h, b, h.len());
    assert(block@ =~= h@.skip(b as int));
    assert(block@.skip(0) =~= block@);
    let close_lower = chars_of("</select>");
    let close_upper = chars_of("</SELECT>");
    let e = match find_from(block.as_slice(), 0, close_lower.as_slice()) {
        Some(e) => e,
        None => match find_from(block.as_slice(), 0, close_upper.as_slice()) {
            Some(e) => e,
            None => return None,
        },
    };
    let out = slice_chars(block.as_slice(), 0, e);
    assert(out@ =~= block@.take(e as int));
    Some(out)
}

/// The archive dropdown block of a show page, if it has one.
pub fn nav_popup_block(html: &str) -> (r: Option<String>)
    ensures
        opt_view(r) == nav_popup_spec(html@),
{
    let h = chars_of(html);
    match nav_popup_chars(h.as_slice()) {
        Some(v) => Some(string_from_chars(v.as_slice())),
        None => None,
    }
}

/// Pop-up player links: episode id in group 1, archive id in group 2.
pub const FLASH_RE: &'static str = r"flashplayer\.php\?version=\d+&(?:amp;)?show=(\d+)&(?:amp;)?archive=(\d+)";

/// `listen.m3u` links: episode id in group 1, archive id in group 2.
pub const LISTEN_RE: &'static str = r"listen\.m3u\?show=(\d+)&(?:amp;)?archive=(\d+)";

/// Group `g` of the first match of `pattern` in `text`.
pub open spec fn first_group(pattern: Seq<char>, text: Seq<char>, g: int) -> Option<Seq<char>> {
    let ms = regex_captures(pattern, text);
    if ms.len() > 0 {
        Some(group_text(text, ms[0], g))
    } else {
        None
    }
}

/// Group `g` of the first match, read as an `i64`.
pub open spec fn first_group_i64(pattern: Seq<char>, text: Seq<char>, g: int) -> Option<i64> {
    match first_group(pattern, text, g) {
        Some(t) => parse_i64_spec(t),
        None => None,
    }
}

/// Match `i` is the first whose group 1 reads as `id`.
pub open spec fn first_with_id(text: Seq<char>, ms: Seq<Seq<Option<Span>>>, id: i64, i: int) -> bool {
    &&& 0 <= i < ms.len()
    &&& parse_i64_spec(group_text(text, ms[i], 1)) == Some(id)
    &&& forall|j: int| 0 <= j < i ==> parse_i64_spec(group_text(text, #[trigger] ms[j], 1)) != Some(id)
}

/// The archive id (group 2) of the first link of `pattern` whose episode id
/// (group 1) is `id`.
pub open spec fn archive_from(pattern: Seq<char>, chunk: Seq<char>, id: i64) -> Option<i64> {
    let ms = regex_captures(pattern, chunk);
    if exists|i: int| first_with_id(chunk, ms, id, i) {
        let i = choose|i: int| first_with_id(chunk, ms, id, i);
        parse_i64_spec(group_text(chunk, ms[i], 2))
    } else {
        None
    }
}

/// The archive id for episode `id` in a block of a show page: from the
/// pop-up player link, falling back to the `listen.m3u` link.
pub open spec fn archive_for_spec(chunk: Seq<char>, id: i64) -> Option<i64> {
    match archive_from(FLASH_RE@, chunk, id) {
        Some(a) => Some(a),
        None => archive_from(LISTEN_RE@, chunk, id),
    }
}

/// `t.parse::<i64>()`.
pub fn parse_i64_str(t: &str) -> (r: Option<i64>)
    ensures
        r == parse_i64_spec(t@),
{
    let cs = chars_of(t);
    parse_i64(cs.as_slice())
}

fn archive_from_exec(pattern: &str, chunk: &str, id: i64) -> (r: Option<i64>)
    ensures
        r == archive_from(pattern@, chunk@, id),
{
    let ms = matches_of(pattern, chunk);
    let ghost gm = regex_captures(pattern@, chunk@);
    let mut i: usize = 0;
    while i < ms.len()
        invariant
            i <= ms.len(),
            gm == regex_captures(pattern@, chunk@),
            crate::pattern::match_spans(ms@) == gm,
            forall|k: int| 0 <= k < ms@.len() ==> crate::pattern::match_in(chunk@, #[trigger] ms@[k]@),
            forall|j: int| 0 <= j < i ==> parse_i64_spec(group_text(chunk@, #[trigger] gm[j], 1)) != Some(id),
        decreases ms.len() - i,
    {
        assert(gm[i as int] == ms@[i as int]@);
        let g1 = group_of(chunk, &ms[i], 1);
        if parse_i64_str(g1) == Some(id) {
            proof {
                assert(first_with_id(chunk@, gm, id, i as int));
                let k = choose|k: int| first_with_id(chunk@, gm, id, k);
                if k < i {
                    assert(parse_i64_spec(group_text(chunk@, gm[k], 1)) != Some(id));
                }
                if k > i {
                    assert(parse_i64_spec(group_text(chunk@, gm[i as int], 1)) != Some(id));
                }
            }
            let g2 = group_of(chunk, &ms[i], 2);
            return parse_i64_str(g2);
        }
        i = i + 1;
    }
    proof {
        assert forall|k: int| !first_with_id(chunk@, gm, id, k) by {
            if 0 <= k < gm.len() {
                assert(parse_i64_spec(group_text(chunk@, gm[k], 1)) != Some(id));
            }
        }
    }
    None
}

/// The archive id that the archive player needs for episode `episode_id`,
/// read from that episode's block of a show page.
pub fn archive_for(chunk: &str, episode_id: i64) -> (r: Option<i64>)
    ensures
        r == archive_for_spec(chunk@, episode_id),
{
    match archive_from_exec(FLASH_RE, chunk, episode_id) {
        Some(a) => Some(a),
        None => archive_from_exec(LISTEN_RE, chunk, episode_id),
    }
}

/// Group `g` of the first match of `pattern` in `text`.
pub fn first_group_exec(pattern: &str, text: &str, g: usize) -> (r: Option<String>)
    ensures
        opt_view(r) == first_group(pattern@, text@, g as int),
{
    let ms = matches_of(pattern, text);
    if ms.len() == 0 {
        return None;
    }
    assert(crate::pattern::match_spans(ms@)[0] == ms@[0]@);
    let t = group_of(text, &ms[0], g);
    Some(String::from_str(t))
}

/// Group `g` of the first match, read as an `i64`.
pub fn first_group_i64_exec(pattern: &str, text: &str, g: usize) -> (r: Option<i64>)
    ensures
        r == first_group_i64(pattern@, text@, g as int),
{
    match first_group_exec(pattern, text, g) {
        Some(t) => parse_i64_str(t.as_str()),
        None => None,
    }
}

/// The archive id on a single playlist page: its pop-up player link, or its
/// `listen.m3u` link.
pub open spec fn playlist_archive_spec(html: Seq<char>) -> Option<i64> {
    match first_group_i64(FLASH_RE@, html, 2) {
        Some(a) => Some(a),
        None => first_group_i64(LISTEN_RE@, html, 2),
    }
}

/// Extracts the archive id from a playlist page.
pub fn parse_playlist_archive(html: &str) -> (r: Option<i64>)
    ensures
        r == playlist_archive_spec(html@),
{
    match first_group_i64_exec(FLASH_RE, html, 2) {
        Some(a) => Some(a),
        None => first_group_i64_exec(LISTEN_RE, html, 2),
    }
}

/// The "Playing Today" heading of a station page.
pub const PLAYING_TODAY_RE: &'static str = r"(?is)playing\s+today";

/// Playlist links; the episode id is group 1.
pub const PLAYLIST_LINK_RE: &'static str = r#"/playlists/shows/(\d+)"#;

/// The episode of the currently scheduled programme: the first playlist link
/// after the "Playing Today" heading (the whole page when there is no
/// heading), and otherwise the first on the page.
pub open spec fn current_playlist_spec(html: Seq<char>) -> Option<i64> {
    let marks = regex_captures(PLAYING_TODAY_RE@, html);
    let start = if marks.len() > 0 {
        crate::pattern::match_end(marks[0]) as int
    } else {
        0
    };
    let tail = crate::pattern::text_between(html, start, vstd::utf8::encode_utf8(html).len() as int);
    match first_group_i64(PLAYLIST_LINK_RE@, tail, 1) {
        Some(e) => Some(e),
        None => first_group_i64(PLAYLIST_LINK_RE@, html, 1),
    }
}

/// Finds the playlist of the programme on air on a station page.
pub fn parse_current_playlist(html: &str) -> (r: Option<i64>)
    ensures
        r == current_playlist_spec(html@),
{
    let marks = matches_of(PLAYING_TODAY_RE, html);
    let len = crate::pattern::byte_len(html);
    let start: usize = if marks.len() > 0 {
        assert(crate::pattern::match_spans(marks@)[0] == marks@[0]@);
        match marks[0][0] {
            Some(sp) => sp.1,
            None => 0,
        }
    } else {
        0
    };
    proof {
        if marks@.len() > 0 {
            assert(crate::pattern::match_in(html@, marks@[0]@));
            assert(marks@[0]@[0] is Some);
            assert(crate::pattern::valid_span(html@, marks@[0]@[0]->0));
        } else {
            vstd::utf8::encode_utf8_valid_utf8(html@);
            vstd::utf8::is_char_boundary_start_end_of_seq(vstd::utf8::encode_utf8(html@));
        }
        vstd::utf8::encode_utf8_valid_utf8(html@);
        vstd::utf8::is_char_boundary_start_end_of_seq(vstd::utf8::encode_utf8(html@));
    }
    let tail = crate::pattern::span_text(html, (start, len));
    match first_group_i64_exec(PLAYLIST_LINK_RE, tail, 1) {
        Some(e) => Some(e),
        None => first_group_i64_exec(PLAYLIST_LINK_RE, html, 1),
    }
}

/// WFMU's channel id in a landing page's polling configuration.
pub const CHANNEL_ID_RE: &'static str = r#"[\"']cid[\"']\s*:\s*(\d+)"#;

/// Extracts the channel id from a channel page.
pub fn parse_channel_id(html: &str) -> (r: Option<i64>)
    ensures
        r == first_group_i64(CHANNEL_ID_RE@, html@, 1),
{
    first_group_i64_exec(CHANNEL_ID_RE, html, 1)
}

/// The `src` of the archive player's `<audio>` element.
pub const AUDIO_SRC_RE: &'static str = r#"<audio[^>]*\bsrc="([^"]+)""#;

/// Any `src` that names an https media file.
pub const MEDIA_SRC_RE: &'static str = r#"src="(https://[^"]+\.(?:mp3|mp4|m4a|aac))""#;

/// The direct audio URL of an archive player page: the `<audio>` source
/// when it is an http(s) URL, else any https media `src`; entities decoded.
pub open spec fn archiveplayer_spec(html: Seq<char>) -> Option<Seq<char>> {
    let audio = match first_group(AUDIO_SRC_RE@, html, 1) {
        Some(u) => {
            let d = crate::text::decode_entities_spec(u);
            if occurs_at(d, 0, "http"@) {
                Some(d)
            } else {
                None
            }
        },
        None => None,
    };
    match audio {
        Some(u) => Some(u),
        None => match first_group(MEDIA_SRC_RE@, html, 1) {
            Some(u) => Some(crate::text::decode_entities_spec(u)),
            None => None,
        },
    }
}

/// `s` with its HTML entities decoded.
pub fn decode_string(s: String) -> (r: String)
    ensures
        r@ == crate::text::decode_entities_spec(s@),
{
    let cs = chars_of(s.as_str());
    let d = crate::text::decode_entities(cs.as_slice());
    string_from_chars(d.as_slice())
}

/// Extracts the direct audio URL from an archive player page.
pub fn parse_archiveplayer(html: &str) -> (r: Option<String>)
    ensures
        opt_view(r) == archiveplayer_spec(html@),
{
    let audio = match first_group_exec(AUDIO_SRC_RE, html, 1) {
        Some(u) => {
            let d = decode_string(u);
            let dc = chars_of(d.as_str());
            let http = chars_of("http");
            if starts_with(dc.as_slice(), http.as_slice()) {
                Some(d)
            } else {
                None
            }
        },
        None => None,
    };
    match audio {
        Some(u) => Some(u),
        None => match first_group_exec(MEDIA_SRC_RE, html, 1) {
            Some(u) => Some(decode_string(u)),
            None => None,
        },
    }
}

/// The archive pre-roll offset attribute of an archive player page.
pub const OFFSET_RE: &'static str = r#"data-offset="(\d+)""#;

/// Extracts the archive pre-roll offset (seconds) from an archive player page.
pub fn parse_archiveplayer_offset(html: &str) -> (r: Option<i64>)
    ensures
        r == first_group_i64(OFFSET_RE@, html@, 1),
{
    first_group_i64_exec(OFFSET_RE, html, 1)
}

/// A show id in a `/playlists/ID` URL.
pub const SHOW_ID_URL_RE: &'static str = r"(?i)/playlists/([a-z0-9]+)(?:[/?#]|$)";

/// The show id named by an optional URL.
pub open spec fn show_id_from_url_spec(url: Option<Seq<char>>) -> Option<Seq<char>> {
    match url {
        Some(u) => first_group(SHOW_ID_URL_RE@, u, 1),
        None => None,
    }
}

/// Extracts the show id from a show URL.
pub fn show_id_from_url(url: Option<String>) -> (r: Option<String>)
    ensures
        opt_view(r) == show_id_from_url_spec(opt_view(url)),
{
    match url {
        Some(u) => first_group_exec(SHOW_ID_URL_RE, u.as_str(), 1),
        None => None,
    }
}

/// The view of a parsed episode.
pub struct EpisodeModel {
    pub id: i64,
    pub air_date: Option<Seq<char>>,
    pub title: Option<Seq<char>>,
    pub archive_id: Option<i64>,
}

/// An episode as listed on a show page.
#[derive(Debug, Clone)]
pub struct ParsedEpisode {
    pub id: i64,
    pub air_date: Option<String>,
    pub title: Option<String>,
    pub archive_id: Option<i64>,
}

impl View for ParsedEpisode {
    type V = EpisodeModel;

    open spec fn view(&self) -> EpisodeModel {
        EpisodeModel {
            id: self.id,
            air_date: opt_view(self.air_date),
            title: opt_view(self.title),
            archive_id: self.archive_id,
        }
    }
}

/// The views of a list of episodes.
pub open spec fn episodes_view(v: Seq<ParsedEpisode>) -> Seq<EpisodeModel> {
    v.map_values(|e: ParsedEpisode| e@)
}

/// Episode markers on a show page; the id is group 1.
pub const EPISODE_MARK_RE: &'static str = r#"id="KDBepisode-(\d+)""#;

/// "Month D, YYYY:" headings; the date is group 1.
pub const EPISODE_DATE_RE: &'static str = r"([A-Z][a-z]+ \d{1,2}, \d{4})\s*:";

/// Deep-archive "MM.DD.YY playlist" or "MM.DD.YY |" dates.
pub const EPISODE_SHORT_DATE_RE: &'static str = r"(\d{1,2})\.(\d{1,2})\.(\d{2})\s*(?:playlist|\|)";

/// The first bold run; the episode title is group 1.
pub const EPISODE_TITLE_RE: &'static str = r"(?s)<b>(.*?)</b>";

/// The episode markers of a show page whose id reads as an `i64`, each with
/// the byte offset where its marker ends.
pub open spec fn episode_marks(html: Seq<char>, ms: Seq<Seq<Option<Span>>>) -> Seq<(i64, int)>
    decreases ms.len(),
{
    if ms.len() == 0 {
        Seq::empty()
    } else {
        let prev = episode_marks(html, ms.drop_last());
        let m = ms.last();
        match parse_i64_spec(group_text(html, m, 1)) {
            Some(id) => prev.push((id, crate::pattern::match_end(m) as int)),
            None => prev,
        }
    }
}

/// Where the block of marker `k` ends: at the next marker, or 3000 bytes on
/// (at most the end of the page) for the last one.
pub open spec fn block_end(html: Seq<char>, marks: Seq<(i64, int)>, k: int, limit: int) -> int {
    if k + 1 < marks.len() {
        marks[k + 1].1
    } else {
        let len = vstd::utf8::encode_utf8(html).len() as int;
        if marks[k].1 + limit < len {
            marks[k].1 + limit
        } else {
            len
        }
    }
}

/// The date of an episode block: the "Month D, YYYY:" heading, or else the
/// first short dotted date.
pub open spec fn episode_date(chunk: Seq<char>) -> Option<Seq<char>> {
    match first_group(EPISODE_DATE_RE@, chunk, 1) {
        Some(d) => Some(clean_text_spec(d)),
        None => {
            let ms = regex_captures(EPISODE_SHORT_DATE_RE@, chunk);
            if ms.len() > 0 {
                mdy_from_dotted_spec(
                    group_text(chunk, ms[0], 1),
                    group_text(chunk, ms[0], 2),
                    group_text(chunk, ms[0], 3),
                )
            } else {
                None
            }
        },
    }
}

/// The episode that a block of a show page describes.
pub open spec fn episode_of(chunk: Seq<char>, id: i64) -> EpisodeModel {
    EpisodeModel {
        id,
        air_date: episode_date(chunk),
        title: match first_group(EPISODE_TITLE_RE@, chunk, 1) {
            Some(t) => nonempty_text(clean_text_spec(t)),
            None => None,
        },
        archive_id: archive_for_spec(chunk, id),
    }
}

/// Whether the id of marker `k` already appeared before it.
pub open spec fn seen_before(marks: Seq<(i64, int)>, k: int) -> bool {
    exists|j: int| 0 <= j < k && marks[j].0 == marks[k].0
}

/// The episodes of the first `n` markers, first occurrence of each id only.
pub open spec fn episodes_upto(html: Seq<char>, marks: Seq<(i64, int)>, n: int) -> Seq<EpisodeModel>
    decreases n,
{
    if n <= 0 {
        Seq::empty()
    } else {
        let prev = episodes_upto(html, marks, n - 1);
        let k = n - 1;
        if seen_before(marks, k) {
            prev
        } else {
            prev.push(
                episode_of(
                    crate::pattern::text_between(html, marks[k].1, block_end(html, marks, k, 3000)),
                    marks[k].0,
                ),
            )
        }
    }
}

/// The episodes of a show page, in page order, each id once.
pub open spec fn show_page_spec(html: Seq<char>) -> Seq<EpisodeModel> {
    let marks = episode_marks(html, regex_captures(EPISODE_MARK_RE@, html));
    episodes_upto(html, marks, marks.len() as int)
}

/// The last episode block of a show page ends on a character boundary, so
/// that it can be cut out of the page (the page is otherwise refused).
pub open spec fn show_page_cuttable(html: Seq<char>) -> bool {
    marks_cuttable(html, episode_marks(html, regex_captures(EPISODE_MARK_RE@, html)))
}

/// The last episode block that `marks` delimit ends on a character boundary.
pub open spec fn marks_cuttable(html: Seq<char>, marks: Seq<(i64, int)>) -> bool {
    let k = marks.len() - 1;
    marks.len() > 0 && !seen_before(marks, k) ==> vstd::utf8::is_char_boundary(
        vstd::utf8::encode_utf8(html),
        block_end(html, marks, k, 3000),
    )
}

fn episode_from_chunk(chunk: &str, id: i64) -> (r: ParsedEpisode)
    ensures
        r@ == episode_of(chunk@, id),
{
    let air_date = match first_group_exec(EPISODE_DATE_RE, chunk, 1) {
        Some(d) => Some(crate::text::clean_text(d.as_str())),
        None => {
            let ms = matches_of(EPISODE_SHORT_DATE_RE, chunk);
            if ms.len() > 0 {
                assert(crate::pattern::match_spans(ms@)[0] == ms@[0]@);
                let g1 = chars_of(group_of(chunk, &ms[0], 1));
                let g2 = chars_of(group_of(chunk, &ms[0], 2));
                let g3 = chars_of(group_of(chunk, &ms[0], 3));
                mdy_from_dotted(g1.as_slice(), g2.as_slice(), g3.as_slice())
            } else {
                None
            }
        },
    };
    let title = match first_group_exec(EPISODE_TITLE_RE, chunk, 1) {
        Some(t) => {
            let c = crate::text::clean_text(t.as_str());
            crate::text::non_empty(c)
        },
        None => None,
    };
    ParsedEpisode { id, air_date, title, archive_id: archive_for(chunk, id) }
}

/// Ids of the episode markers, with the offsets where the markers end.
/// Matches of a pattern in `html` as `matches_of` hands them out: well
/// formed, each inside the text, each with group 0.
pub open spec fn captures_in(html: Seq<char>, ms: Seq<Vec<Option<Span>>>) -> bool {
    &&& crate::pattern::well_formed_matches(html, crate::pattern::match_spans(ms))
    &&& forall|k: int| 0 <= k < ms.len() ==> crate::pattern::match_in(html, #[trigger] ms[k]@)
    &&& forall|k: int| 0 <= k < ms.len() ==> (#[trigger] ms[k]@).len() > 0 && ms[k]@[0] is Some
}

fn marks_of_captures(html: &str, ms: &Vec<Vec<Option<Span>>>) -> (marks: Vec<(i64, usize)>)
    requires
        captures_in(html@, ms@),
    ensures
        marks@.map_values(|m: (i64, usize)| (m.0, m.1 as int)) == episode_marks(
            html@,
            crate::pattern::match_spans(ms@),
        ),
        forall|k: int|
            0 <= k < marks@.len() ==> crate::pattern::valid_span(
                html@,
                (marks@[k].1, marks@[k].1),
            ),
        forall|k: int, j: int| 0 <= k < j < marks@.len() ==> marks@[k].1 <= marks@[j].1,
{
    let ghost gm = crate::pattern::match_spans(ms@);
    let mut marks: Vec<(i64, usize)> = Vec::new();
    let mut i: usize = 0;
    while i < ms.len()
        invariant
            i <= ms.len(),
            crate::pattern::match_spans(ms@) == gm,
            crate::pattern::well_formed_matches(html@, gm),
            forall|k: int| 0 <= k < ms@.len() ==> crate::pattern::match_in(html@, #[trigger] ms@[k]@),
            forall|k: int| 0 <= k < ms@.len() ==> (#[trigger] ms@[k]@).len() > 0 && ms@[k]@[0] is Some,
            marks@.map_values(|m: (i64, usize)| (m.0, m.1 as int)) == episode_marks(
                html@,
                gm.take(i as int),
            ),
            forall|k: int|
                0 <= k < marks@.len() ==> crate::pattern::valid_span(
                    html@,
                    (marks@[k].1, marks@[k].1),
                ),
            forall|k: int, j: int| 0 <= k < j < marks@.len() ==> marks@[k].1 <= marks@[j].1,
            marks@.len() <= i,
            i > 0 && marks@.len() > 0 ==> marks@.last().1 <= crate::pattern::match_end(gm[i - 1]),
        decreases ms.len() - i,
    {
        assert(gm[i as int] == ms@[i as int]@);
        assert(gm.take(i + 1).drop_last() =~= gm.take(i as int));
        assert(gm.take(i + 1).last() == gm[i as int]);
        let g1 = group_of(html, &ms[i], 1);
        let end: usize = match ms[i][0] {
            Some(sp) => sp.1,
            None => 0,
        };
        proof {
            assert(crate::pattern::valid_span(html@, ms@[i as int]@[0]->0));
            assert(crate::pattern::match_start(gm[i as int]) <= crate::pattern::match_end(gm[i as int]));
            assert(end == crate::pattern::match_end(gm[i as int]));
            if i > 0 {
                assert(crate::pattern::match_end(gm[i - 1]) <= crate::pattern::match_start(gm[i as int]));
            }
        }
        match parse_i64_str(g1) {
            Some(id) => {
                let ghost before = marks@;
                marks.push((id, end));
                assert(marks@.map_values(|m: (i64, usize)| (m.0, m.1 as int)) =~= before.map_values(
                    |m: (i64, usize)| (m.0, m.1 as int),
                ).push((id, end as int)));
            },
            None => {},
        }
        i = i + 1;
    }
    assert(gm.take(ms.len() as int) =~= gm);
    marks
}

/// Parses a show page into its episodes, or `None` when the last episode
/// block cannot be cut out of the page on a character boundary.
pub fn try_parse_show_page(html: &str) -> (r: Option<Vec<ParsedEpisode>>)
    ensures
        r is Some <==> show_page_cuttable(html@),
        r matches Some(v) ==> episodes_view(v@) == show_page_spec(html@),
{
    let ms = matches_of(EPISODE_MARK_RE, html);
    show_page_from_captures(html, &ms)
}

/// The episodes of a show page, given the matches of the episode markers
/// ([`EPISODE_MARK_RE`]) in it: one per marker id, first occurrence only,
/// each read from the block up to the next marker; `None` when the last
/// block cannot be cut out of the page on a character boundary.
pub fn show_page_from_captures(html: &str, ms: &Vec<Vec<Option<Span>>>) -> (r: Option<Vec<ParsedEpisode>>)
    requires
        captures_in(html@, ms@),
    ensures
        r is Some <==> marks_cuttable(html@, episode_marks(html@, crate::pattern::match_spans(ms@))),
        r matches Some(v) ==> episodes_view(v@) == episodes_upto(
            html@,
            episode_marks(html@, crate::pattern::match_spans(ms@)),
            episode_marks(html@, crate::pattern::match_spans(ms@)).len() as int,
        ),
{
    let marks = marks_of_captures(html, ms);
    let ghost gmarks = episode_marks(html@, crate::pattern::match_spans(ms@));
    let len = crate::pattern::byte_len(html);
    let mut episodes: Vec<ParsedEpisode> = Vec::new();
    let mut seen: Vec<i64> = Vec::new();
    let mut k: usize = 0;
    while k < marks.len()
        invariant
            k <= marks.len(),
            len == vstd::utf8::encode_utf8(html@).len(),
            gmarks == marks@.map_values(|m: (i64, usize)| (m.0, m.1 as int)),
            gmarks == episode_marks(html@, crate::pattern::match_spans(ms@)),
            forall|j: int|
                0 <= j < marks@.len() ==> crate::pattern::valid_span(
                    html@,
                    (marks@[j].1, marks@[j].1),
                ),
            forall|a: int, b: int| 0 <= a < b < marks@.len() ==> marks@[a].1 <= marks@[b].1,
            episodes_view(episodes@) == episodes_upto(html@, gmarks, k as int),
            forall|x: i64| seen@.contains(x) <==> exists|j: int| 0 <= j < k && gmarks[j].0 == x,
            (k == marks.len() && k > 0 && !seen_before(gmarks, k - 1)) ==> vstd::utf8::is_char_boundary(
                vstd::utf8::encode_utf8(html@),
                block_end(html@, gmarks, k - 1, 3000),
            ),
        decreases marks.len() - k,
    {
        let ghost old_seen = seen@;
        let (id, start) = marks[k];
        assert(gmarks[k as int] == (id, start as int));
        let ghost prev = episodes@;
        if crate::text::contains_i64(&seen, id) {
            proof {
                let j = choose|j: int| 0 <= j < k && gmarks[j].0 == id;
                assert(seen_before(gmarks, k as int));
            }
        } else {
            proof {
                assert(!seen_before(gmarks, k as int));
            }
            seen.push(id);
            assert(seen@ =~= old_seen.push(id));
            let end: usize = if k + 1 < marks.len() {
                marks[k + 1].1
            } else if start < len && len - start > 3000 {
                start + 3000
            } else {
                len
            };
            proof {
                if k + 1 < marks.len() {
                    assert(gmarks[k + 1] == (marks@[k + 1].0, marks@[k + 1].1 as int));
                }
            }
            assert(end == block_end(html@, gmarks, k as int, 3000));
            match crate::pattern::str_get(html, start, end) {
                Some(chunk) => {
                    let ep = episode_from_chunk(chunk, id);
                    episodes.push(ep);
                    assert(episodes_view(episodes@) =~= episodes_view(prev).push(ep@));
                },
                None => {
                    proof {
                        assert(k + 1 == marks.len());
                        assert(!marks_cuttable(html@, gmarks));
                    }
                    return None;
                },
            }
        }
        k = k + 1;
        proof {
            broadcast use vstd::seq_lib::group_seq_properties;
            assert(seen@ == old_seen || seen@ == old_seen.push(id));
            assert forall|x: i64| seen@.contains(x) <==> exists|j: int| 0 <= j < k && gmarks[j].0 == x by {
                if seen@.contains(x) && x != id {
                    assert(old_seen.contains(x));
                }
                if old_seen.contains(x) {
                    assert(seen@.contains(x));
                }
                if x == id {
                    assert(gmarks[k - 1].0 == x);
                }
            }
        }
    }
    proof {
        if gmarks.len() > 0 && !seen_before(gmarks, gmarks.len() - 1) {
            let kk = gmarks.len() - 1;
            let e = block_end(html@, gmarks, kk, 3000);
            assert(gmarks[kk].1 <= e);
        }
    }
    Some(episodes)
}

/// Parses a show page (`https://wfmu.org/playlists/{ID}`) into its episode
/// list: one entry per `KDBepisode-` marker id, in page order, with the air
/// date, title and archive id found in the marker's block.
pub fn parse_show_page(html: &str) -> (r: Vec<ParsedEpisode>)
    requires
        show_page_cuttable(html@),
    ensures
        episodes_view(r@) == show_page_spec(html@),
{
    match try_parse_show_page(html) {
        Some(v) => v,
        None => {
            proof {
                assert(false);
            }
            Vec::new()
        },
    }
}

/// Programme markers of the catalogue; the show id is group 1.
pub const PROGRAM_MARK_RE: &'static str = r#"id="KDBprogram-([A-Za-z0-9]+)""#;

/// The first bold run of a catalogue block; the show name is group 1.
pub const PROGRAM_NAME_RE: &'static str = r"(?s)<b>(.+?)</b>";

/// "with DJ" after the show name; the DJ is group 1.
pub const PROGRAM_DJ_RE: &'static str = r#"(?s)</b>\s*(?:with|w/)\s+(.+?)\s*(?:-\s*)?<a href="/playlists/"#;

/// The programme markers of the catalogue, each with the byte offset where
/// its marker ends.
pub open spec fn program_marks(html: Seq<char>, ms: Seq<Seq<Option<Span>>>) -> Seq<(Seq<char>, int)> {
    ms.map_values(
        |m: Seq<Option<Span>>| (group_text(html, m, 1), crate::pattern::match_end(m) as int),
    )
}

/// Where catalogue block `k` ends: at the next marker, or 4000 bytes on (at
/// most the end of the page) for the last one.
pub open spec fn program_block_end(html: Seq<char>, marks: Seq<(Seq<char>, int)>, k: int) -> int {
    if k + 1 < marks.len() {
        marks[k + 1].1
    } else {
        let len = vstd::utf8::encode_utf8(html).len() as int;
        if marks[k].1 + 4000 < len {
            marks[k].1 + 4000
        } else {
            len
        }
    }
}

/// What one catalogue block says: the show id, its non-empty cleaned name
/// and its DJ, when the block has a name and links to the show's page.
pub open spec fn catalog_entry(chunk: Seq<char>, id: Seq<char>) -> Option<(Seq<char>, Seq<char>, Option<Seq<char>>)> {
    let name = match first_group(PROGRAM_NAME_RE@, chunk, 1) {
        Some(n) => nonempty_text(clean_text_spec(n)),
        None => None,
    };
    match name {
        None => None,
        Some(n) => if find_in(chunk, "/playlists/"@ + id) is Some {
            let dj = match first_group(PROGRAM_DJ_RE@, chunk, 1) {
                Some(d) => nonempty_text(clean_text_spec(d)),
                None => None,
            };
            Some((id, n, dj))
        } else {
            None
        },
    }
}

/// Catalogue entries seen so far: id, name, DJ and how often the show was
/// listed.
pub type CatalogTally = Seq<(Seq<char>, Seq<char>, Option<Seq<char>>, int)>;

/// Index of the entry for `id` in a tally, -1 when absent.
pub open spec fn tally_index(st: CatalogTally, id: Seq<char>) -> int
    decreases st.len(),
{
    if st.len() == 0 {
        -1
    } else if st.last().0 == id {
        st.len() - 1
    } else {
        tally_index(st.drop_last(), id)
    }
}

/// A tally with one more catalogue entry: a new show is appended, a known
/// one counts once more and takes the entry's DJ if it had none.
pub open spec fn tally_add(st: CatalogTally, e: (Seq<char>, Seq<char>, Option<Seq<char>>)) -> CatalogTally {
    let i = tally_index(st, e.0);
    if i < 0 {
        st.push((e.0, e.1, e.2, 1))
    } else {
        let old = st[i];
        st.update(i, (old.0, old.1, if old.2 is None { e.2 } else { old.2 }, old.3 + 1))
    }
}

/// The tally after the first `n` catalogue blocks.
pub open spec fn catalog_tally(html: Seq<char>, marks: Seq<(Seq<char>, int)>, n: int) -> CatalogTally
    decreases n,
{
    if n <= 0 {
        Seq::empty()
    } else {
        let prev = catalog_tally(html, marks, n - 1);
        let k = n - 1;
        let chunk = crate::pattern::text_between(html, marks[k].1, program_block_end(html, marks, k));
        match catalog_entry(chunk, marks[k].0) {
            Some(e) => tally_add(prev, e),
            None => prev,
        }
    }
}

/// The shows of the catalogue page in order of first listing; a show listed
/// more than once (weekday schedule and A-Z list) is on air.
pub open spec fn catalog_spec(html: Seq<char>) -> Seq<ShowModel> {
    catalog_of_marks(html, program_marks(html, regex_captures(PROGRAM_MARK_RE@, html)))
}

/// The shows of the catalogue blocks that `marks` delimit, in order of
/// first listing; a show listed more than once is on air.
pub open spec fn catalog_of_marks(html: Seq<char>, marks: Seq<(Seq<char>, int)>) -> Seq<ShowModel> {
    catalog_tally(html, marks, marks.len() as int).map_values(
        |t: (Seq<char>, Seq<char>, Option<Seq<char>>, int)|
            ShowModel { id: t.0, name: t.1, dj: t.2, on_air: t.3 > 1 },
    )
}

/// The last catalogue block ends on a character boundary, so that it can be
/// cut out of the page (the page is otherwise refused).
pub open spec fn catalog_cuttable(html: Seq<char>) -> bool {
    program_marks_cuttable(html, program_marks(html, regex_captures(PROGRAM_MARK_RE@, html)))
}

/// The last catalogue block that `marks` delimit ends on a character
/// boundary.
pub open spec fn program_marks_cuttable(html: Seq<char>, marks: Seq<(Seq<char>, int)>) -> bool {
    marks.len() > 0 ==> vstd::utf8::is_char_boundary(
        vstd::utf8::encode_utf8(html),
        program_block_end(html, marks, marks.len() - 1),
    )
}

/// The views of a list of shows.
pub open spec fn shows_view(v: Seq<ParsedShow>) -> Seq<ShowModel> {
    v.map_values(|s: ParsedShow| s@)
}

fn catalog_entry_exec(chunk: &str, id: &str) -> (r: Option<(String, String, Option<String>)>)
    ensures
        match r {
            Some((a, b, c)) => catalog_entry(chunk@, id@) == Some((a@, b@, opt_view(c))),
            None => catalog_entry(chunk@, id@) is None,
        },
{
    let name = match first_group_exec(PROGRAM_NAME_RE, chunk, 1) {
        Some(n) => crate::text::non_empty(crate::text::clean_text(n.as_str())),
        None => None,
    };
    let name = match name {
        Some(n) => n,
        None => return None,
    };
    let link = concat_str("/playlists/", id);
    let cc = chars_of(chunk);
    let lc = chars_of(link.as_str());
    assert(cc@.skip(0) =~= cc@);
    if find_from(cc.as_slice(), 0, lc.as_slice()).is_none() {
        return None;
    }
    let dj = match first_group_exec(PROGRAM_DJ_RE, chunk, 1) {
        Some(d) => crate::text::non_empty(crate::text::clean_text(d.as_str())),
        None => None,
    };
    Some((String::from_str(id), name, dj))
}

/// Finds the tally entry for `id`, searching from the back.
fn tally_find(st: &Vec<(String, String, Option<String>, usize)>, id: &str) -> (r: Option<usize>)
    ensures
        match r {
            Some(i) => tally_index(tally_view(st@), id@) == i as int,
            None => tally_index(tally_view(st@), id@) == -1,
        },
{
    let mut n = st.len();
    assert(tally_view(st@).take(n as int) =~= tally_view(st@));
    while n > 0
        invariant
            n <= st.len(),
            tally_index(tally_view(st@), id@) == tally_index(tally_view(st@).take(n as int), id@),
        decreases n,
    {
        let ghost t = tally_view(st@).take(n as int);
        assert(t.drop_last() =~= tally_view(st@).take(n - 1));
        assert(t.last() == tally_view(st@)[n - 1]);
        if str_eq(st[n - 1].0.as_str(), id) {
            return Some(n - 1);
        }
        n = n - 1;
    }
    None
}

/// The view of an executable tally.
pub open spec fn tally_view(st: Seq<(String, String, Option<String>, usize)>) -> CatalogTally {
    st.map_values(
        |t: (String, String, Option<String>, usize)| (t.0@, t.1@, opt_view(t.2), t.3 as int),
    )
}

proof fn lemma_tally_index_bounds(st: CatalogTally, id: Seq<char>)
    ensures
        -1 <= tally_index(st, id) < st.len(),
        tally_index(st, id) >= 0 ==> st[tally_index(st, id)].0 == id,
    decreases st.len(),
{
    if st.len() > 0 && st.last().0 != id {
        lemma_tally_index_bounds(st.drop_last(), id);
    }
}

/// The show that catalogue block `k` lists, if it lists one.
pub open spec fn block_show(html: Seq<char>, marks: Seq<(Seq<char>, int)>, k: int) -> Option<
    (Seq<char>, Seq<char>, Option<Seq<char>>),
> {
    catalog_entry(
        crate::pattern::text_between(html, marks[k].1, program_block_end(html, marks, k)),
        marks[k].0,
    )
}

/// How many of the first `n` catalogue blocks list the show `id`.
pub open spec fn listings(html: Seq<char>, marks: Seq<(Seq<char>, int)>, id: Seq<char>, n: int) -> int
    decreases n,
{
    if n <= 0 {
        0
    } else {
        listings(html, marks, id, n - 1) + match block_show(html, marks, n - 1) {
            Some(e) => if e.0 == id {
                1int
            } else {
                0int
            },
            None => 0int,
        }
    }
}

/// The tally after `n` blocks counts each show's listings, holds each id
/// once, and holds every listed id.
proof fn lemma_tally_counts(html: Seq<char>, marks: Seq<(Seq<char>, int)>, n: int)
    requires
        n <= marks.len(),
    ensures
        forall|j: int|
            0 <= j < catalog_tally(html, marks, n).len() ==> (#[trigger] catalog_tally(html, marks, n)[j]).3
                == listings(html, marks, catalog_tally(html, marks, n)[j].0, n),
        forall|a: int, b: int|
            0 <= a < b < catalog_tally(html, marks, n).len() ==> (#[trigger] catalog_tally(html, marks, n)[a]).0
                != (#[trigger] catalog_tally(html, marks, n)[b]).0,
        forall|id: Seq<char>|
            #[trigger] listings(html, marks, id, n) > 0 ==> tally_index(catalog_tally(html, marks, n), id) >= 0,
        forall|id: Seq<char>| #[trigger] listings(html, marks, id, n) >= 0,
    decreases n,
{
    if n > 0 {
        lemma_tally_counts(html, marks, n - 1);
        let prev = catalog_tally(html, marks, n - 1);
        let cur = catalog_tally(html, marks, n);
        match block_show(html, marks, n - 1) {
            None => {
                assert(cur == prev);
                assert forall|id: Seq<char>| #[trigger] listings(html, marks, id, n) == listings(html, marks, id, n - 1) by {}
            },
            Some(e) => {
                assert(cur == tally_add(prev, e));
                lemma_tally_index_bounds(prev, e.0);
                lemma_tally_index_absent(prev, e.0);
                assert forall|id: Seq<char>| #[trigger] listings(html, marks, id, n) == listings(html, marks, id, n - 1)
                    + if id == e.0 {
                    1int
                } else {
                    0int
                } by {}
                let i = tally_index(prev, e.0);
                if i < 0 {
                    assert(cur == prev.push((e.0, e.1, e.2, 1)));
                    assert(listings(html, marks, e.0, n - 1) == 0);
                    assert forall|j: int| 0 <= j < cur.len() implies (#[trigger] cur[j]).3 == listings(
                        html,
                        marks,
                        cur[j].0,
                        n,
                    ) by {
                        if j < prev.len() {
                            assert(cur[j] == prev[j]);
                            assert(prev[j].0 != e.0);
                        }
                    }
                    assert forall|a: int, b: int| 0 <= a < b < cur.len() implies (#[trigger] cur[a]).0
                        != (#[trigger] cur[b]).0 by {
                        if b < prev.len() {
                            assert(cur[a] == prev[a] && cur[b] == prev[b]);
                        } else {
                            assert(cur[a] == prev[a]);
                        }
                    }
                    assert forall|id: Seq<char>| #[trigger] listings(html, marks, id, n) > 0 implies tally_index(
                        cur,
                        id,
                    ) >= 0 by {
                        if id == e.0 {
                            lemma_tally_index_present(cur, id, prev.len() as int);
                        } else {
                            lemma_tally_index_bounds(prev, id);
                            lemma_tally_index_present(cur, id, tally_index(prev, id));
                        }
                    }
                } else {
                    let old = prev[i];
                    assert(cur == prev.update(i, (old.0, old.1, if old.2 is None { e.2 } else { old.2 }, old.3 + 1)));
                    assert forall|j: int| 0 <= j < cur.len() implies (#[trigger] cur[j]).3 == listings(
                        html,
                        marks,
                        cur[j].0,
                        n,
                    ) by {
                        if j != i {
                            assert(cur[j] == prev[j]);
                            assert(prev[j].0 != prev[i].0);
                        }
                    }
                    assert forall|a: int, b: int| 0 <= a < b < cur.len() implies (#[trigger] cur[a]).0
                        != (#[trigger] cur[b]).0 by {
                        assert(cur[a].0 == prev[a].0 && cur[b].0 == prev[b].0);
                    }
                    assert forall|id: Seq<char>| #[trigger] listings(html, marks, id, n) > 0 implies tally_index(
                        cur,
                        id,
                    ) >= 0 by {
                        if id == e.0 {
                            lemma_tally_index_present(cur, id, i);
                        } else {
                            lemma_tally_index_bounds(prev, id);
                            lemma_tally_index_present(cur, id, tally_index(prev, id));
                        }
                    }
                }
            },
        }
    }
}

/// A tally without `id` has no index for it.
proof fn lemma_tally_index_absent(st: CatalogTally, id: Seq<char>)
    ensures
        tally_index(st, id) < 0 ==> forall|j: int| 0 <= j < st.len() ==> (#[trigger] st[j]).0 != id,
    decreases st.len(),
{
    if st.len() > 0 && st.last().0 != id {
        lemma_tally_index_absent(st.drop_last(), id);
        if tally_index(st, id) < 0 {
            assert forall|j: int| 0 <= j < st.len() implies (#[trigger] st[j]).0 != id by {
                if j < st.len() - 1 {
                    assert(st[j] == st.drop_last()[j]);
                }
            }
        }
    }
}

/// A tally holding `id` at `j` has an index for it.
proof fn lemma_tally_index_present(st: CatalogTally, id: Seq<char>, j: int)
    requires
        0 <= j < st.len(),
        st[j].0 == id,
    ensures
        tally_index(st, id) >= 0,
    decreases st.len(),
{
    if st.last().0 != id {
        assert(j < st.len() - 1);
        assert(st.drop_last()[j] == st[j]);
        lemma_tally_index_present(st.drop_last(), id, j);
    }
}

/// The catalogue lists each show once, and a show is on air exactly when
/// two or more catalogue blocks list it (the weekday schedule and the A-Z
/// list); every show that some block lists is in the catalogue.
pub proof fn shows_on_air_are_listed_twice(html: Seq<char>, marks: Seq<(Seq<char>, int)>)
    ensures
        forall|j: int|
            0 <= j < catalog_of_marks(html, marks).len() ==> ((#[trigger] catalog_of_marks(html, marks)[j]).on_air
                <==> listings(html, marks, catalog_of_marks(html, marks)[j].id, marks.len() as int) >= 2),
        forall|a: int, b: int|
            0 <= a < b < catalog_of_marks(html, marks).len() ==> (#[trigger] catalog_of_marks(html, marks)[a]).id
                != (#[trigger] catalog_of_marks(html, marks)[b]).id,
        forall|id: Seq<char>|
            listings(html, marks, id, marks.len() as int) > 0 ==> exists|j: int|
                0 <= j < catalog_of_marks(html, marks).len() && (#[trigger] catalog_of_marks(html, marks)[j]).id == id,
{
    let n = marks.len() as int;
    lemma_tally_counts(html, marks, n);
    let t = catalog_tally(html, marks, n);
    let c = catalog_of_marks(html, marks);
    assert forall|j: int| 0 <= j < c.len() implies ((#[trigger] c[j]).on_air <==> listings(html, marks, c[j].id, n) >= 2) by {
        assert(c[j].id == t[j].0 && c[j].on_air == (t[j].3 > 1));
    }
    assert forall|a: int, b: int| 0 <= a < b < c.len() implies (#[trigger] c[a]).id != (#[trigger] c[b]).id by {
        assert(c[a].id == t[a].0 && c[b].id == t[b].0);
    }
    assert forall|id: Seq<char>| listings(html, marks, id, n) > 0 implies exists|j: int|
        0 <= j < c.len() && (#[trigger] c[j]).id == id by {
        lemma_tally_index_bounds(t, id);
        let j = tally_index(t, id);
        assert(c[j].id == t[j].0);
    }
}

/// Parses the catalogue, or `None` when the last block cannot be cut out of
/// the page on a character boundary.
pub fn try_parse_catalog(html: &str) -> (r: Option<Vec<ParsedShow>>)
    ensures
        r is Some <==> catalog_cuttable(html@),
        r matches Some(v) ==> shows_view(v@) == catalog_spec(html@),
{
    let ms = matches_of(PROGRAM_MARK_RE, html);
    catalog_from_captures(html, &ms)
}

/// The shows of the catalogue page, given the matches of the programme
/// markers ([`PROGRAM_MARK_RE`]) in it; `None` when the last block cannot
/// be cut out of the page on a character boundary.
pub fn catalog_from_captures(html: &str, ms: &Vec<Vec<Option<Span>>>) -> (r: Option<Vec<ParsedShow>>)
    requires
        captures_in(html@, ms@),
    ensures
        r is Some <==> program_marks_cuttable(html@, program_marks(html@, crate::pattern::match_spans(ms@))),
        r matches Some(v) ==> shows_view(v@) == catalog_of_marks(
            html@,
            program_marks(html@, crate::pattern::match_spans(ms@)),
        ),
{
    let ghost gm = crate::pattern::match_spans(ms@);
    let ghost marks = program_marks(html@, gm);
    let len = crate::pattern::byte_len(html);
    let mut st: Vec<(String, String, Option<String>, usize)> = Vec::new();
    let mut k: usize = 0;
    while k < ms.len()
        invariant
            k <= ms.len(),
            len == vstd::utf8::encode_utf8(html@).len(),
            crate::pattern::match_spans(ms@) == gm,
            crate::pattern::well_formed_matches(html@, gm),
            forall|j: int| 0 <= j < ms@.len() ==> crate::pattern::match_in(html@, #[trigger] ms@[j]@),
            marks == program_marks(html@, gm),
            marks.len() == ms@.len(),
            tally_view(st@) == catalog_tally(html@, marks, k as int),
            forall|j: int| 0 <= j < st@.len() ==> #[trigger] st@[j].3 <= k,
            (k == ms.len() && k > 0) ==> vstd::utf8::is_char_boundary(
                vstd::utf8::encode_utf8(html@),
                program_block_end(html@, marks, k - 1),
            ),
        decreases ms.len() - k,
    {
        assert(gm[k as int] == ms@[k as int]@);
        let id_str = group_of(html, &ms[k], 1);
        let start: usize = match ms[k][0] {
            Some(sp) => sp.1,
            None => 0,
        };
        assert(marks[k as int] == (id_str@, start as int));
        let end: usize = if k + 1 < ms.len() {
            assert(gm[k + 1] == ms@[k + 1]@);
            assert(crate::pattern::match_end(gm[k as int]) <= crate::pattern::match_start(gm[k + 1]));
            match ms[k + 1][0] {
                Some(sp) => sp.1,
                None => 0,
            }
        } else if start < len && len - start > 4000 {
            start + 4000
        } else {
            len
        };
        proof {
            assert(crate::pattern::valid_span(html@, ms@[k as int]@[0]->0));
            if k + 1 < ms.len() {
                assert(marks[k + 1] == (group_text(html@, gm[k + 1], 1), crate::pattern::match_end(gm[k + 1]) as int));
                assert(crate::pattern::valid_span(html@, ms@[k + 1]@[0]->0));
            }
        }
        assert(end == program_block_end(html@, marks, k as int));
        let chunk = match crate::pattern::str_get(html, start, end) {
            Some(c) => c,
            None => {
                proof {
                    assert(start <= end <= len);
                    assert(vstd::utf8::is_char_boundary(vstd::utf8::encode_utf8(html@), start as int));
                    assert(k + 1 == ms.len());
                    assert(!vstd::utf8::is_char_boundary(vstd::utf8::encode_utf8(html@), end as int));
                    assert(!program_marks_cuttable(html@, marks));
                }
                return None;
            },
        };
        let ghost prev = tally_view(st@);
        match catalog_entry_exec(chunk, id_str) {
            Some((id, name, dj)) => {
                match tally_find(&st, id.as_str()) {
                    Some(i) => {
                        proof {
                            lemma_tally_index_bounds(prev, id@);
                        }
                        let entry = st.remove(i);
                        let new_dj = if entry.2.is_none() {
                            dj
                        } else {
                            entry.2
                        };
                        assert(entry.3 <= k);
                        st.insert(i, (entry.0, entry.1, new_dj, entry.3 + 1));
                        proof {
                            assert(tally_view(st@) =~= tally_add(prev, (id@, name@, opt_view(dj))));
                        }
                    },
                    None => {
                        st.push((id, name, dj, 1));
                        proof {
                            assert(tally_view(st@) =~= tally_add(prev, (id@, name@, opt_view(dj))));
                        }
                    },
                }
            },
            None => {},
        }
        k = k + 1;
    }
    let mut shows: Vec<ParsedShow> = Vec::new();
    let mut j: usize = 0;
    let ghost fin = tally_view(st@);
    while j < st.len()
        invariant
            j <= st.len(),
            fin == tally_view(st@),
            shows_view(shows@) == fin.take(j as int).map_values(
                |t: (Seq<char>, Seq<char>, Option<Seq<char>>, int)|
                    ShowModel { id: t.0, name: t.1, dj: t.2, on_air: t.3 > 1 },
            ),
        decreases st.len() - j,
    {
        let t = &st[j];
        let show = ParsedShow {
            id: t.0.clone(),
            name: t.1.clone(),
            dj: clone_opt(&t.2),
            on_air: t.3 > 1,
        };
        let ghost before = shows@;
        shows.push(show);
        assert(shows_view(shows@) =~= shows_view(before).push(show@));
        assert(fin.take(j + 1) =~= fin.take(j as int).push(fin[j as int]));
        j = j + 1;
    }
    assert(fin.take(st.len() as int) =~= fin);
    Some(shows)
}

/// A copy of an optional string.
pub fn clone_opt(o: &Option<String>) -> (r: Option<String>)
    ensures
        opt_view(r) == opt_view(*o),
{
    match o {
        Some(s) => Some(s.clone()),
        None => None,
    }
}

/// Parses the full catalogue from `https://wfmu.org/playlists/`: one show per
/// programme id, in order of first listing, named by its first block and
/// given the first DJ any of its blocks names; shows listed more than once
/// are currently on air.
pub fn parse_catalog(html: &str) -> (r: Vec<ParsedShow>)
    requires
        catalog_cuttable(html@),
    ensures
        shows_view(r@) == catalog_spec(html@),
{
    match try_parse_catalog(html) {
        Some(v) => v,
        None => {
            proof {
                assert(false);
            }
            Vec::new()
        },
    }
}

/// The view of a recently played track reported by Radio Rethink.
pub struct RecentTrackModel {
    pub source_id: Seq<char>,
    pub artist: Option<Seq<char>>,
    pub title: Option<Seq<char>>,
    pub album: Option<Seq<char>>,
    pub played_at: i64,
    pub air_date: Seq<char>,
}

/// A recently played track from the Radio Rethink station history.
#[derive(Debug, Clone, PartialEq, Eq)]
pub struct ParsedRecentTrack {
    pub source_id: String,
    pub artist: Option<String>,
    pub title: Option<String>,
    pub album: Option<String>,
    pub played_at: i64,
    pub air_date: String,
}

impl View for ParsedRecentTrack {
    type V = RecentTrackModel;

    open spec fn view(&self) -> RecentTrackModel {
        RecentTrackModel {
            source_id: self.source_id@,
            artist: opt_view(self.artist),
            title: opt_view(self.title),
            album: opt_view(self.album),
            played_at: self.played_at,
            air_date: self.air_date@,
        }
    }
}

/// The view of a scheduled programme.
pub struct ProgramModel {
    pub show_id: Option<Seq<char>>,
    pub name: Seq<char>,
    pub host: Option<Seq<char>>,
    pub description: Option<Seq<char>>,
    pub starts_at: Option<Seq<char>>,
    pub ends_at: Option<Seq<char>>,
    pub day: Option<Seq<char>>,
    pub current: bool,
}

/// A programme of a live station's schedule.
#[derive(Debug, Clone, PartialEq, Eq)]
pub struct ParsedLiveProgram {
    pub show_id: Option<String>,
    pub name: String,
    pub host: Option<String>,
    pub description: Option<String>,
    pub starts_at: Option<String>,
    pub ends_at: Option<String>,
    pub day: Option<String>,
    pub current: bool,
}

impl View for ParsedLiveProgram {
    type V = ProgramModel;

    open spec fn view(&self) -> ProgramModel {
        ProgramModel {
            show_id: opt_view(self.show_id),
            name: self.name@,
            host: opt_view(self.host),
            description: opt_view(self.description),
            starts_at: opt_view(self.starts_at),
            ends_at: opt_view(self.ends_at),
            day: opt_view(self.day),
            current: self.current,
        }
    }
}

/// The views of a list of programmes.
pub open spec fn programs_view(v: Seq<ParsedLiveProgram>) -> Seq<ProgramModel> {
    v.map_values(|p: ParsedLiveProgram| p@)
}

/// The view of an optional programme.
pub open spec fn opt_program_view(p: Option<ParsedLiveProgram>) -> Option<ProgramModel> {
    match p {
        Some(p) => Some(p@),
        None => None,
    }
}

/// A copy of a programme.
pub fn clone_program(p: &ParsedLiveProgram) -> (r: ParsedLiveProgram)
    ensures
        r@ == p@,
{
    ParsedLiveProgram {
        show_id: clone_opt(&p.show_id),
        name: p.name.clone(),
        host: clone_opt(&p.host),
        description: clone_opt(&p.description),
        starts_at: clone_opt(&p.starts_at),
        ends_at: clone_opt(&p.ends_at),
        day: clone_opt(&p.day),
        current: p.current,
    }
}

/// A live station's recent history and its current and next programmes.
#[derive(Debug, Clone)]
pub struct ParsedLivePage {
    pub tracks: Vec<ParsedRecentTrack>,
    pub current_show: Option<ParsedLiveProgram>,
    pub next_show: Option<ParsedLiveProgram>,
    pub updated_at: Option<i64>,
}

/// The view of a parsed playlist row.
pub struct TrackModel {
    pub artist: Option<Seq<char>>,
    pub title: Option<Seq<char>>,
    pub album: Option<Seq<char>>,
    pub label: Option<Seq<char>>,
    pub comments: Option<Seq<char>>,
    pub start_sec: Option<i64>,
}

/// One row of a playlist.
#[derive(Debug, Clone)]
pub struct ParsedTrack {
    pub artist: Option<String>,
    pub title: Option<String>,
    pub album: Option<String>,
    pub label: Option<String>,
    pub comments: Option<String>,
    pub start_sec: Option<i64>,
}

impl View for ParsedTrack {
    type V = TrackModel;

    open spec fn view(&self) -> TrackModel {
        TrackModel {
            artist: opt_view(self.artist),
            title: opt_view(self.title),
            album: opt_view(self.album),
            label: opt_view(self.label),
            comments: opt_view(self.comments),
            start_sec: self.start_sec,
        }
    }
}

/// The views of a list of playlist rows.
pub open spec fn tracks_view(v: Seq<ParsedTrack>) -> Seq<TrackModel> {
    v.map_values(|t: ParsedTrack| t@)
}

/// The view of the show and episode context of a playlist page.
pub struct PlaylistMetaModel {
    pub show_id: Option<Seq<char>>,
    pub show_name: Option<Seq<char>>,
    pub air_date: Option<Seq<char>>,
    pub title: Option<Seq<char>>,
}

/// The show and episode context of a playlist page.
#[derive(Debug, Clone)]
pub struct ParsedPlaylistMeta {
    pub show_id: Option<String>,
    pub show_name: Option<String>,
    pub air_date: Option<String>,
    pub title: Option<String>,
}

impl View for ParsedPlaylistMeta {
    type V = PlaylistMetaModel;

    open spec fn view(&self) -> PlaylistMetaModel {
        PlaylistMetaModel {
            show_id: opt_view(self.show_id),
            show_name: opt_view(self.show_name),
            air_date: opt_view(self.air_date),
            title: opt_view(self.title),
        }
    }
}

/// The view of a live station's current status.
pub struct LiveStatusModel {
    pub episode_id: Option<i64>,
    pub show_id: Option<Seq<char>>,
    pub show_name: Option<Seq<char>>,
    pub artist: Option<Seq<char>>,
    pub title: Option<Seq<char>>,
}

/// Current state of a live station. During a hosted show `episode_id`
/// points at the normal append-only playlist; between shows only artist and
/// title are published, which the app records in a synthetic live episode.
#[derive(Debug, Clone, PartialEq, Eq)]
pub struct ParsedLiveStatus {
    pub episode_id: Option<i64>,
    pub show_id: Option<String>,
    pub show_name: Option<String>,
    pub artist: Option<String>,
    pub title: Option<String>,
}

impl View for ParsedLiveStatus {
    type V = LiveStatusModel;

    open spec fn view(&self) -> LiveStatusModel {
        LiveStatusModel {
            episode_id: self.episode_id,
            show_id: opt_view(self.show_id),
            show_name: opt_view(self.show_name),
            artist: opt_view(self.artist),
            title: opt_view(self.title),
        }
    }
}

/// The view of an optional live status.
pub open spec fn opt_status_view(s: Option<ParsedLiveStatus>) -> Option<LiveStatusModel> {
    match s {
        Some(s) => Some(s@),
        None => None,
    }
}

} // verus!
