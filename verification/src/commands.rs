//! What the application's commands answer with, and the decisions they
//! make between fetching and storing: the live status of a station, its
//! live page, and the search over shows and tracks.
use vstd::prelude::*;
use crate::dates::{ts_to_iso, ts_to_iso_spec};
use crate::num::parse_i64_spec;
use crate::db::{Download, Episode, Show, Track};
use crate::live::{
    synthetic_episode_id_spec, synthetic_id_in_range, synthetic_live_episode_id,
    useful_live_show_name, useful_name_spec,
};
use crate::text::{
    chars_of, collapse_whitespace, concat_str, find_in, push_all, split_once_spec,
    string_from_chars, trim_chars, trim_spaces, words,
};
use crate::wfmu::{
    clone_opt, opt_view, ParsedLiveProgram, ParsedLiveStatus, ParsedRecentTrack, LiveStatusModel,
    ProgramModel, RecentTrackModel,
};

verus! {

/// A show with its episodes.
pub struct ShowDetail {
    pub show: Show,
    pub episodes: Vec<Episode>,
}

/// Where an episode's audio plays from.
pub struct AudioSource {
    pub url: String,
    pub local: bool,
    /// Archive pre-roll offset in seconds (0 when unknown).
    pub offset_sec: i64,
}

/// A track found by a search, with its show and air date.
pub struct TrackHit {
    pub track: Track,
    pub show_id: String,
    pub show_name: String,
    pub air_date: Option<String>,
}

/// What a search finds.
pub struct SearchResults {
    pub shows: Vec<Show>,
    pub tracks: Vec<TrackHit>,
}

/// The song a live station is playing.
#[derive(Clone)]
pub struct LiveSong {
    pub artist: Option<String>,
    pub title: Option<String>,
}

/// A live station's current status, as the player shows it.
pub struct LiveStatus {
    pub episode: Episode,
    pub show_name: String,
    pub current_song: Option<LiveSong>,
    pub tracks: Vec<Track>,
    pub current_track_id: Option<i64>,
    pub playlist_needs_load: bool,
}

/// A programme as the live page shows it.
#[derive(Debug, Clone)]
pub struct LiveProgram {
    pub show_id: Option<String>,
    pub name: String,
    pub host: Option<String>,
    pub description: Option<String>,
    pub starts_at: Option<String>,
    pub ends_at: Option<String>,
}

impl From<ParsedLiveProgram> for LiveProgram {
    fn from(program: ParsedLiveProgram) -> (r: LiveProgram) {
        LiveProgram {
            show_id: program.show_id,
            name: program.name,
            host: program.host,
            description: program.description,
            starts_at: program.starts_at,
            ends_at: program.ends_at,
        }
    }
}

impl vstd::std_specs::convert::FromSpecImpl<ParsedLiveProgram> for LiveProgram {
    open spec fn obeys_from_spec() -> bool {
        true
    }

    open spec fn from_spec(program: ParsedLiveProgram) -> LiveProgram {
        LiveProgram {
            show_id: program.show_id,
            name: program.name,
            host: program.host,
            description: program.description,
            starts_at: program.starts_at,
            ends_at: program.ends_at,
        }
    }
}

/// A station's live page.
pub struct LivePage {
    pub tracks: Vec<Track>,
    pub current_track_id: Option<i64>,
    pub current_show: Option<LiveProgram>,
    pub upcoming_shows: Vec<LiveProgram>,
    pub history_source: String,
    pub warning: Option<String>,
    pub updated_at: i64,
}

/// A favourite episode.
pub struct FavouriteEpisode {
    pub episode: Episode,
    pub show_name: String,
    pub added_at: i64,
}

/// A favourite track, with its show and air date.
pub struct FavouriteTrack {
    pub track: Track,
    pub show_id: String,
    pub show_name: String,
    pub air_date: Option<String>,
    pub added_at: i64,
}

/// A favourite show.
pub struct FavouriteShow {
    pub show: Show,
    pub added_at: i64,
}

/// All favourites.
pub struct Favourites {
    pub shows: Vec<FavouriteShow>,
    pub episodes: Vec<FavouriteEpisode>,
    pub tracks: Vec<FavouriteTrack>,
}

/// Listening time of one show.
pub struct ShowStat {
    pub show_id: String,
    pub show_name: String,
    pub seconds: i64,
    pub plays: i64,
}

/// Listening time of one episode.
pub struct EpisodeStat {
    pub episode_id: i64,
    pub show_name: String,
    pub air_date: Option<String>,
    pub title: Option<String>,
    pub seconds: i64,
    pub plays: i64,
}

/// Listening statistics.
pub struct Stats {
    pub total_seconds: i64,
    pub total_sessions: i64,
    pub shows: Vec<ShowStat>,
    pub episodes: Vec<EpisodeStat>,
}

/// A download with its episode's context.
pub struct DownloadRow {
    pub download: Download,
    pub show_id: Option<String>,
    pub show_name: Option<String>,
    pub air_date: Option<String>,
    pub title: Option<String>,
    pub has_audio: bool,
}

/// What a status poll of a live station records.
pub struct LiveStatusPlan {
    /// The playlist's episode: the hosted show's, or the stream's synthetic
    /// episode of the day.
    pub episode_id: i64,
    /// The show's id, or `live-{stream}` for a stream without one.
    pub show_id: String,
    /// Whether the show row is a synthetic live row.
    pub synthetic_show: bool,
    pub show_name: String,
    /// The UTC date of the poll, "YYYY-MM-DD".
    pub air_date: String,
    pub episode_title: String,
    pub current_song: Option<LiveSong>,
    /// Whether a hosted show's playlist carries the songs.
    pub hosted: bool,
}

/// The view of a [`LiveStatusPlan`]: episode id, show id, synthetic show,
/// show name, air date, episode title, current song, hosted.
pub open spec fn plan_view(p: LiveStatusPlan) -> (i64, Seq<char>, bool, Seq<char>, Seq<char>, Seq<char>, Option<(Option<Seq<char>>, Option<Seq<char>>)>, bool) {
    (
        p.episode_id,
        p.show_id@,
        p.synthetic_show,
        p.show_name@,
        p.air_date@,
        p.episode_title@,
        match p.current_song {
            Some(s) => Some((opt_view(s.artist), opt_view(s.title))),
            None => None,
        },
        p.hosted,
    )
}

/// The text before the first space (`split(' ').next()`).
pub open spec fn date_part(s: Seq<char>) -> Seq<char> {
    match split_once_spec(s, " "@) {
        Some((d, _)) => d,
        None => s,
    }
}

/// What a status poll records: an error when the station names neither an
/// episode nor a song; otherwise the episode (the hosted one, or the
/// stream's synthetic episode of the day), the show (its id, or the
/// synthetic `live-{stream}`), a useful show name (else the fallback), the
/// poll's UTC date, the episode title and the current song.
pub open spec fn live_status_plan_spec(
    stream_id: Seq<char>,
    status: LiveStatusModel,
    fallback_name: Seq<char>,
    now: int,
) -> Result<(i64, Seq<char>, bool, Seq<char>, Seq<char>, Seq<char>, Option<(Option<Seq<char>>, Option<Seq<char>>)>, bool), Seq<char>> {
    let hosted = status.episode_id is Some;
    if !hosted && status.artist is None && status.title is None {
        Err("the station has no current track yet"@)
    } else {
        Ok(
            (
                match status.episode_id {
                    Some(e) => e,
                    None => synthetic_episode_id_spec(stream_id, now) as i64,
                },
                match status.show_id {
                    Some(s) => s,
                    None => "live-"@ + stream_id,
                },
                status.show_id is None,
                match useful_name_spec(Some(status)) {
                    Some(n) => n,
                    None => fallback_name,
                },
                date_part(ts_to_iso_spec(now)),
                if hosted {
                    "Live broadcast"@
                } else {
                    "Live stream"@
                },
                if status.artist is Some || status.title is Some {
                    Some((status.artist, status.title))
                } else {
                    None
                },
                hosted,
            ),
        )
    }
}

/// Decides what a status poll of a live station records.
pub fn live_status_plan(stream_id: &str, status: &ParsedLiveStatus, fallback_name: String, now: i64) -> (r:
    Result<LiveStatusPlan, String>)
    requires
        status.episode_id is None ==> synthetic_id_in_range(now as int),
    ensures
        match r {
            Ok(p) => live_status_plan_spec(stream_id@, status@, fallback_name@, now as int) == Ok::<
                _,
                Seq<char>,
            >(plan_view(p)),
            Err(e) => live_status_plan_spec(stream_id@, status@, fallback_name@, now as int) == Err::<
                (i64, Seq<char>, bool, Seq<char>, Seq<char>, Seq<char>, Option<(Option<Seq<char>>, Option<Seq<char>>)>, bool),
                Seq<char>,
            >(e@),
        },
{
    proof {
        reveal_strlit("the station has no current track yet");
        reveal_strlit("live-");
        reveal_strlit("Live broadcast");
        reveal_strlit("Live stream");
    }
    let hosted = status.episode_id.is_some();
    if !hosted && status.artist.is_none() && status.title.is_none() {
        return Err("the station has no current track yet".to_string());
    }
    let episode_id = match status.episode_id {
        Some(e) => e,
        None => synthetic_live_episode_id(stream_id, now),
    };
    let synthetic_show = status.show_id.is_none();
    let show_id = match &status.show_id {
        Some(s) => s.clone(),
        None => concat_str("live-", stream_id),
    };
    let show_name = match useful_live_show_name(Some(status)) {
        Some(n) => n,
        None => fallback_name,
    };
    let iso = ts_to_iso(now);
    let ic = chars_of(iso.as_str());
    let sp = chars_of(" ");
    proof {
        reveal_strlit(" ");
    }
    let air_date = match crate::text::split_once(ic.as_slice(), sp.as_slice()) {
        Some((d, _)) => string_from_chars(d.as_slice()),
        None => iso,
    };
    let episode_title = if hosted {
        "Live broadcast".to_string()
    } else {
        "Live stream".to_string()
    };
    let current_song = if status.artist.is_some() || status.title.is_some() {
        Some(LiveSong { artist: clone_opt(&status.artist), title: clone_opt(&status.title) })
    } else {
        None
    };
    Ok(
        LiveStatusPlan {
            episode_id,
            show_id,
            synthetic_show,
            show_name,
            air_date,
            episode_title,
            current_song,
            hosted,
        },
    )
}

/// The song fields of a stored track.
pub open spec fn track_song(t: Track) -> (Option<Seq<char>>, Option<Seq<char>>) {
    (opt_view(t.artist), opt_view(t.title))
}

/// The last index from `n` down whose track is `song`.
pub open spec fn last_song_index(tracks: Seq<Track>, song: (Option<Seq<char>>, Option<Seq<char>>), n: int) -> Option<int>
    decreases n,
{
    if n <= 0 {
        None
    } else if track_song(tracks[n - 1]) == song {
        Some(n - 1)
    } else {
        last_song_index(tracks, song, n - 1)
    }
}

/// The id of the last track, if any.
pub open spec fn last_track_id(tracks: Seq<Track>) -> Option<i64> {
    if tracks.len() > 0 {
        Some(tracks.last().id)
    } else {
        None
    }
}

/// The track a live status points at: the latest one with the current
/// song's artist and title, else the latest track.
pub open spec fn status_track_spec(tracks: Seq<Track>, song: Option<(Option<Seq<char>>, Option<Seq<char>>)>) -> Option<i64> {
    match song {
        Some(s) => match last_song_index(tracks, s, tracks.len() as int) {
            Some(k) => Some(tracks[k].id),
            None => last_track_id(tracks),
        },
        None => last_track_id(tracks),
    }
}

fn same_opt_text(a: &Option<String>, b: &Option<String>) -> (r: bool)
    ensures
        r == (opt_view(*a) == opt_view(*b)),
{
    match (a, b) {
        (Some(x), Some(y)) => crate::text::str_eq(x.as_str(), y.as_str()),
        (None, None) => true,
        _ => false,
    }
}

/// The id of the track a live status points at.
pub fn current_track_id(tracks: &[Track], song: &Option<LiveSong>) -> (r: Option<i64>)
    ensures
        r == status_track_spec(
            tracks@,
            match song {
                Some(s) => Some((opt_view(s.artist), opt_view(s.title))),
                None => None,
            },
        ),
{
    let last: Option<i64> = if tracks.len() > 0 {
        Some(tracks[tracks.len() - 1].id)
    } else {
        None
    };
    match song {
        Some(s) => {
            let ghost sv = (opt_view(s.artist), opt_view(s.title));
            let ghost whole = match song {
                Some(s) => Some((opt_view(s.artist), opt_view(s.title))),
                None => None,
            };
            assert(whole == Some(sv));
            let mut i: usize = tracks.len();
            while i > 0
                invariant
                    i <= tracks.len(),
                    sv == (opt_view(s.artist), opt_view(s.title)),
                    whole == Some(sv),
                    whole == match song {
                        Some(s) => Some((opt_view(s.artist), opt_view(s.title))),
                        None => None,
                    },
                    last == last_track_id(tracks@),
                    last_song_index(tracks@, sv, tracks.len() as int) == last_song_index(
                        tracks@,
                        sv,
                        i as int,
                    ),
                decreases i,
            {
                let t = &tracks[i - 1];
                if same_opt_text(&t.artist, &s.artist) && same_opt_text(&t.title, &s.title) {
                    return Some(t.id);
                }
                i = i - 1;
            }
            last
        },
        None => last,
    }
}

/// The provider's identity of a history track: `{provider}:{source_id}`.
pub open spec fn provider_source_spec(provider: Seq<char>, source_id: Seq<char>) -> Seq<char> {
    provider + seq![':'] + source_id
}

/// Builds the provider's identity of a history track.
pub fn provider_source(provider: &str, source_id: &str) -> (r: String)
    ensures
        r@ == provider_source_spec(provider@, source_id@),
{
    let mut c = chars_of(provider);
    c.push(':');
    push_all(&mut c, chars_of(source_id).as_slice());
    assert(c@ =~= provider@ + seq![':'] + source_id@);
    string_from_chars(c.as_slice())
}

/// The first index from `i` on whose track has the source `source`.
pub open spec fn source_from(tracks: Seq<Track>, source: Seq<char>, i: int) -> Option<int>
    decreases tracks.len() - i,
{
    if i < 0 || i >= tracks.len() {
        None
    } else if opt_view(tracks[i].source_id) == Some(source) {
        Some(i)
    } else {
        source_from(tracks, source, i + 1)
    }
}

/// The track a live page points at: the first with the provider's latest
/// source, else the latest track.
pub open spec fn page_track_spec(tracks: Seq<Track>, source: Option<Seq<char>>) -> Option<i64> {
    match source {
        Some(s) => match source_from(tracks, s, 0) {
            Some(k) => Some(tracks[k].id),
            None => last_track_id(tracks),
        },
        None => last_track_id(tracks),
    }
}

/// The id of the track a live page points at.
pub fn page_track_id(tracks: &[Track], source: &Option<String>) -> (r: Option<i64>)
    ensures
        r == page_track_spec(tracks@, opt_view(*source)),
{
    let last: Option<i64> = if tracks.len() > 0 {
        Some(tracks[tracks.len() - 1].id)
    } else {
        None
    };
    match source {
        Some(src) => {
            let mut i: usize = 0;
            while i < tracks.len()
                invariant
                    i <= tracks.len(),
                    opt_view(*source) == Some(src@),
                    last == last_track_id(tracks@),
                    source_from(tracks@, src@, 0) == source_from(tracks@, src@, i as int),
                decreases tracks.len() - i,
            {
                match &tracks[i].source_id {
                    Some(x) => {
                        if crate::text::str_eq(x.as_str(), src.as_str()) {
                            return Some(tracks[i].id);
                        }
                    },
                    None => {},
                }
                i = i + 1;
            }
            last
        },
        None => last,
    }
}

/// One day of a stream's history: its synthetic episode, the date of its
/// first track, and its tracks in arrival order.
pub struct HistoryDay {
    pub episode_id: i64,
    pub air_date: String,
    pub tracks: Vec<ParsedRecentTrack>,
}

/// The view of a [`HistoryDay`].
pub open spec fn day_view(d: HistoryDay) -> (i64, Seq<char>, Seq<RecentTrackModel>) {
    (d.episode_id, d.air_date@, crate::rethink::recent_view(d.tracks@))
}

/// The views of a list of days.
pub open spec fn days_view(v: Seq<HistoryDay>) -> Seq<(i64, Seq<char>, Seq<RecentTrackModel>)> {
    v.map_values(|d: HistoryDay| day_view(d))
}

/// Where episode `id` belongs among days kept in ascending order: the
/// first day whose id is not below it.
pub open spec fn day_pos(days: Seq<(i64, Seq<char>, Seq<RecentTrackModel>)>, id: i64) -> int
    decreases days.len(),
{
    if days.len() == 0 {
        0
    } else if days[0].0 >= id {
        0
    } else {
        1 + day_pos(days.drop_first(), id)
    }
}

/// Files one track under the day of episode `id`, starting that day when
/// there is none yet.
pub open spec fn add_to_days(
    days: Seq<(i64, Seq<char>, Seq<RecentTrackModel>)>,
    id: i64,
    t: RecentTrackModel,
) -> Seq<(i64, Seq<char>, Seq<RecentTrackModel>)> {
    let p = day_pos(days, id);
    if p < days.len() && days[p].0 == id {
        days.update(p, (id, days[p].1, days[p].2.push(t)))
    } else {
        days.insert(p, (id, t.air_date, seq![t]))
    }
}

/// A stream's history grouped by the synthetic episode of each track's UTC
/// day, in ascending episode order.
pub open spec fn history_days(station_id: Seq<char>, tracks: Seq<RecentTrackModel>, n: int) -> Seq<(i64, Seq<char>, Seq<RecentTrackModel>)>
    decreases n,
{
    if n <= 0 {
        Seq::empty()
    } else {
        add_to_days(
            history_days(station_id, tracks, n - 1),
            synthetic_episode_id_spec(station_id, tracks[n - 1].played_at as int) as i64,
            tracks[n - 1],
        )
    }
}

fn day_pos_exec(days: &Vec<HistoryDay>, id: i64) -> (r: usize)
    ensures
        r as int == day_pos(days_view(days@), id),
        r <= days.len(),
{
    let ghost dv = days_view(days@);
    let mut i: usize = 0;
    assert(dv.skip(0) =~= dv);
    while i < days.len() && days[i].episode_id < id
        invariant
            i <= days.len(),
            dv == days_view(days@),
            day_pos(dv, id) == i + day_pos(dv.skip(i as int), id),
        decreases days.len() - i,
    {
        assert(dv.skip(i as int)[0] == day_view(days@[i as int]));
        assert(dv.skip(i as int).drop_first() =~= dv.skip(i + 1));
        i = i + 1;
    }
    if i < days.len() {
        assert(dv.skip(i as int)[0] == day_view(days@[i as int]));
    }
    i
}

/// Groups a stream's recent history into the synthetic episodes of its
/// days.
pub fn group_live_history(station_id: &str, tracks: &[ParsedRecentTrack]) -> (r: Vec<HistoryDay>)
    requires
        forall|k: int| 0 <= k < tracks.len() ==> synthetic_id_in_range(#[trigger] tracks@[k].played_at as int),
    ensures
        days_view(r@) == history_days(station_id@, crate::rethink::recent_view(tracks@), tracks.len() as int),
{
    let ghost tv = crate::rethink::recent_view(tracks@);
    let mut days: Vec<HistoryDay> = Vec::new();
    let mut i: usize = 0;
    while i < tracks.len()
        invariant
            i <= tracks.len(),
            tv == crate::rethink::recent_view(tracks@),
            forall|k: int| 0 <= k < tracks.len() ==> synthetic_id_in_range(#[trigger] tracks@[k].played_at as int),
            days_view(days@) == history_days(station_id@, tv, i as int),
        decreases tracks.len() - i,
    {
        let t = &tracks[i];
        assert(tv[i as int] == t@);
        assert(synthetic_id_in_range(tracks@[i as int].played_at as int));
        let id = synthetic_live_episode_id(station_id, t.played_at);
        let p = day_pos_exec(&days, id);
        let ghost dv = days_view(days@);
        if p < days.len() && days[p].episode_id == id {
            let mut g = days.remove(p);
            let ghost gv = day_view(g);
            assert(gv == dv[p as int]);
            g.tracks.push(clone_recent_track(t));
            assert(crate::rethink::recent_view(g.tracks@) =~= gv.2.push(t@));
            days.insert(p, g);
            assert(days_view(days@) =~= dv.update(p as int, (id, dv[p as int].1, dv[p as int].2.push(t@))));
        } else {
            let mut ts: Vec<ParsedRecentTrack> = Vec::new();
            ts.push(clone_recent_track(t));
            assert(crate::rethink::recent_view(ts@) =~= seq![t@]);
            let g = HistoryDay { episode_id: id, air_date: t.air_date.clone(), tracks: ts };
            days.insert(p, g);
            assert(days_view(days@) =~= dv.insert(p as int, (id, t@.air_date, seq![t@])));
        }
        i = i + 1;
    }
    days
}

fn clone_recent_track(t: &ParsedRecentTrack) -> (r: ParsedRecentTrack)
    ensures
        r@ == t@,
{
    ParsedRecentTrack {
        source_id: t.source_id.clone(),
        artist: clone_opt(&t.artist),
        title: clone_opt(&t.title),
        album: clone_opt(&t.album),
        played_at: t.played_at,
        air_date: t.air_date.clone(),
    }
}

/// Days kept in strictly ascending episode order.
pub open spec fn days_ascending(days: Seq<(i64, Seq<char>, Seq<RecentTrackModel>)>) -> bool {
    forall|i: int, j: int| 0 <= i < j < days.len() ==> (#[trigger] days[i]).0 < (#[trigger] days[j]).0
}

proof fn lemma_day_pos(days: Seq<(i64, Seq<char>, Seq<RecentTrackModel>)>, id: i64)
    ensures
        0 <= day_pos(days, id) <= days.len(),
        forall|k: int| 0 <= k < day_pos(days, id) ==> (#[trigger] days[k]).0 < id,
        day_pos(days, id) < days.len() ==> days[day_pos(days, id)].0 >= id,
    decreases days.len(),
{
    if days.len() > 0 && days[0].0 < id {
        let rest = days.drop_first();
        lemma_day_pos(rest, id);
        assert forall|k: int| 0 <= k < day_pos(days, id) implies (#[trigger] days[k]).0 < id by {
            if k > 0 {
                assert(days[k] == rest[k - 1]);
            }
        }
    }
}

proof fn lemma_add_to_days_ascending(days: Seq<(i64, Seq<char>, Seq<RecentTrackModel>)>, id: i64, t: RecentTrackModel)
    requires
        days_ascending(days),
    ensures
        days_ascending(add_to_days(days, id, t)),
{
    lemma_day_pos(days, id);
    let p = day_pos(days, id);
    if p < days.len() && days[p].0 == id {
        let r = add_to_days(days, id, t);
        assert forall|i: int, j: int| 0 <= i < j < r.len() implies (#[trigger] r[i]).0 < (#[trigger] r[j]).0 by {
            assert(r[i].0 == days[i].0);
            assert(r[j].0 == days[j].0);
        }
    } else {
        let r = add_to_days(days, id, t);
        assert forall|i: int, j: int| 0 <= i < j < r.len() implies (#[trigger] r[i]).0 < (#[trigger] r[j]).0 by {
            if j < p {
                assert(r[i] == days[i] && r[j] == days[j]);
            } else if j == p {
                assert(r[i] == days[i]);
            } else if i == p {
                assert(r[j] == days[j - 1]);
                if j - 1 > p {
                    assert(days[p].0 < days[j - 1].0);
                }
            } else if i < p {
                assert(r[i] == days[i] && r[j] == days[j - 1]);
                assert(days[i].0 < id);
                assert(days[j - 1].0 >= days[p].0);
            } else {
                assert(r[i] == days[i - 1] && r[j] == days[j - 1]);
            }
        }
    }
}

/// A stream's history days come in strictly ascending episode order, one
/// day per episode.
pub proof fn history_days_are_ordered(station_id: Seq<char>, tracks: Seq<RecentTrackModel>, n: int)
    requires
        0 <= n <= tracks.len(),
    ensures
        days_ascending(history_days(station_id, tracks, n)),
    decreases n,
{
    if n > 0 {
        history_days_are_ordered(station_id, tracks, n - 1);
        lemma_add_to_days_ascending(
            history_days(station_id, tracks, n - 1),
            synthetic_episode_id_spec(station_id, tracks[n - 1].played_at as int) as i64,
            tracks[n - 1],
        );
    }
}

/// `s` without any `c`.
pub open spec fn without_char(s: Seq<char>, c: char) -> Seq<char>
    decreases s.len(),
{
    if s.len() == 0 {
        s
    } else if s.last() == c {
        without_char(s.drop_last(), c)
    } else {
        without_char(s.drop_last(), c).push(s.last())
    }
}

fn without_char_exec(s: &[char], c: char) -> (r: Vec<char>)
    ensures
        r@ == without_char(s@, c),
{
    let mut out: Vec<char> = Vec::new();
    let mut i: usize = 0;
    while i < s.len()
        invariant
            i <= s.len(),
            out@ == without_char(s@.take(i as int), c),
        decreases s.len() - i,
    {
        assert(s@.take(i + 1).drop_last() =~= s@.take(i as int));
        if s[i] != c {
            out.push(s[i]);
        }
        i = i + 1;
    }
    assert(s@.take(s.len() as int) =~= s@);
    out
}

/// The whitespace-separated words of `s` (`str::split_whitespace`).
pub fn split_words(s: &[char]) -> (r: Vec<Vec<char>>)
    ensures
        crate::text::views_of(r@) == words(s@),
{
    let mut out: Vec<Vec<char>> = Vec::new();
    let mut i: usize = 0;
    while i < s.len()
        invariant
            i <= s.len(),
            crate::text::views_of(out@) == words(s@.take(i as int)),
        decreases s.len() - i,
    {
        let ghost t = s@.take(i + 1);
        assert(t.drop_last() =~= s@.take(i as int));
        assert(t.last() == s@[i as int]);
        let c = s[i];
        let ghost before = crate::text::views_of(out@);
        if crate::text::space_char(c) {
        } else if i > 0 && !crate::text::space_char(s[i - 1]) {
            assert(s@.take(i as int).last() == s@[i - 1]);
            proof {
                crate::text::lemma_words_nonempty(s@.take(i as int));
            }
            let k = out.len() - 1;
            let mut w = out.remove(k);
            let ghost wv = w@;
            assert(wv == before[k as int]);
            w.push(c);
            out.push(w);
            assert(crate::text::views_of(out@) =~= before.update(k as int, before[k as int].push(c)));
        } else {
            let mut w: Vec<char> = Vec::new();
            w.push(c);
            out.push(w);
            assert(crate::text::views_of(out@) =~= before.push(seq![c]));
        }
        i = i + 1;
    }
    assert(s@.take(s.len() as int) =~= s@);
    out
}

/// A search term for the full-text index: quotes removed, then quoted, so
/// no term acts as an operator.
pub open spec fn fts_term(w: Seq<char>) -> Seq<char> {
    seq!['"'] + without_char(w, '"') + seq!['"']
}

/// The full-text query for a search: each word of it as a quoted term,
/// separated by spaces.
pub open spec fn fts_query_spec(q: Seq<char>) -> Seq<char> {
    crate::text::join_words(words(q).map_values(|w: Seq<char>| fts_term(w)))
}

/// Builds the full-text query for a search.
pub fn fts_query(q: &str) -> (r: String)
    ensures
        r@ == fts_query_spec(q@),
{
    let qc = chars_of(q);
    let ws = split_words(qc.as_slice());
    let ghost terms = words(q@).map_values(|w: Seq<char>| fts_term(w));
    let mut out: Vec<char> = Vec::new();
    let mut i: usize = 0;
    while i < ws.len()
        invariant
            i <= ws.len(),
            crate::text::views_of(ws@) == words(q@),
            terms == words(q@).map_values(|w: Seq<char>| fts_term(w)),
            out@ == crate::text::join_words(terms.take(i as int)),
        decreases ws.len() - i,
    {
        let mut term: Vec<char> = Vec::new();
        term.push('"');
        let inner = without_char_exec(ws[i].as_slice(), '"');
        push_all(&mut term, inner.as_slice());
        term.push('"');
        assert(crate::text::views_of(ws@)[i as int] == ws@[i as int]@);
        assert(term@ =~= terms[i as int]);
        let ghost before = out@;
        if i > 0 {
            out.push(' ');
        }
        push_all(&mut out, term.as_slice());
        let ghost t = terms.take(i + 1);
        assert(t.drop_last() =~= terms.take(i as int));
        assert(t.last() == terms[i as int]);
        if i == 0 {
            assert(t.len() == 1);
            assert(out@ =~= t[0]);
        } else {
            assert(out@ =~= crate::text::join_words(terms.take(i as int)) + seq![' '] + terms[i as int]);
        }
        i = i + 1;
    }
    assert(terms.take(ws.len() as int) =~= terms);
    string_from_chars(out.as_slice())
}

/// The `LIKE` pattern for a search: `%` removed, `_` read as a space, and
/// the rest matched anywhere.
pub open spec fn like_pattern_spec(q: Seq<char>) -> Seq<char> {
    seq!['%'] + without_char(q, '%').map_values(|c: char| if c == '_' { ' ' } else { c }) + seq!['%']
}

/// Builds the `LIKE` pattern for a search.
pub fn like_pattern(q: &str) -> (r: String)
    ensures
        r@ == like_pattern_spec(q@),
{
    let qc = chars_of(q);
    let kept = without_char_exec(qc.as_slice(), '%');
    let mut out: Vec<char> = Vec::new();
    out.push('%');
    let mut i: usize = 0;
    while i < kept.len()
        invariant
            i <= kept.len(),
            out@ == seq!['%'] + kept@.take(i as int).map_values(|c: char| if c == '_' { ' ' } else { c }),
        decreases kept.len() - i,
    {
        let c = if kept[i] == '_' {
            ' '
        } else {
            kept[i]
        };
        out.push(c);
        i = i + 1;
        assert(out@ =~= seq!['%'] + kept@.take(i as int).map_values(|c: char| if c == '_' { ' ' } else { c }));
    }
    out.push('%');
    assert(kept@.take(kept.len() as int) =~= kept@);
    string_from_chars(out.as_slice())
}

/// Unicode lower case of a string, as `str::to_lowercase` gives it.
pub uninterp spec fn lowercase(s: Seq<char>) -> Seq<char>;

/// `str::to_lowercase` (Unicode case mapping). The contract names the
/// result.
#[verifier::external_body]
fn to_lowercase(s: &str) -> (r: String)
    ensures
        r@ == lowercase(s@),
{
    s.to_lowercase()
}

/// Whether a show matches a search: its name or its DJ contains the query,
/// compared in lower case.
pub open spec fn show_matches_spec(name: Seq<char>, dj: Option<Seq<char>>, q: Seq<char>) -> bool {
    find_in(lowercase(name), lowercase(q)) is Some || match dj {
        Some(d) => find_in(lowercase(d), lowercase(q)) is Some,
        None => false,
    }
}

/// Whether `needle` occurs somewhere in `hay`.
pub open spec fn contains_text(hay: Seq<char>, needle: Seq<char>) -> bool {
    exists|i: int| crate::text::occurs_at(hay, i, needle)
}

/// A show matches a search exactly when its name or its DJ contains the
/// query, both compared in lower case: a DJ that contains the query makes
/// the show match whatever its name, and a show with no DJ matches only by
/// its name.
pub proof fn shows_match_by_name_or_dj(name: Seq<char>, dj: Option<Seq<char>>, q: Seq<char>)
    ensures
        contains_text(lowercase(name), lowercase(q)) ==> show_matches_spec(name, dj, q),
        dj matches Some(d) && contains_text(lowercase(d), lowercase(q)) ==> show_matches_spec(name, dj, q),
        show_matches_spec(name, dj, q) ==> contains_text(lowercase(name), lowercase(q)) || (
        dj matches Some(d) && contains_text(lowercase(d), lowercase(q))),
        dj is None ==> (show_matches_spec(name, dj, q) == contains_text(lowercase(name), lowercase(q))),
{
}

fn contains_exec(hay: &str, needle: &str) -> (r: bool)
    ensures
        r == (find_in(hay@, needle@) is Some),
{
    let h = chars_of(hay);
    let n = chars_of(needle);
    assert(h@.skip(0) =~= h@);
    crate::text::find_from(h.as_slice(), 0, n.as_slice()).is_some()
}

/// Whether a show matches a search query.
pub fn show_matches(show: &Show, q: &str) -> (r: bool)
    ensures
        r == show_matches_spec(show.name@, opt_view(show.dj), q@),
{
    let lq = to_lowercase(q);
    let ln = to_lowercase(show.name.as_str());
    if contains_exec(ln.as_str(), lq.as_str()) {
        return true;
    }
    match &show.dj {
        Some(d) => {
            let ld = to_lowercase(d.as_str());
            contains_exec(ld.as_str(), lq.as_str())
        },
        None => false,
    }
}

/// How many recent live tracks a station page lists.
pub const RECENT_LIVE_TRACKS: i64 = 20;

/// The error for a live station that is not configured.
pub fn unknown_live_station(stream_id: &str) -> (r: String)
    ensures
        r@ == "unknown live station "@ + stream_id@,
{
    concat_str("unknown live station ", stream_id)
}

/// Where a station page's history comes from: the provider when it sent
/// tracks, else the local cache.
pub open spec fn history_source_spec(provider_has_tracks: bool) -> Seq<char> {
    if provider_has_tracks {
        "radio_rethink"@
    } else {
        "local_cache"@
    }
}

/// [`history_source_spec`].
pub fn history_source(provider_has_tracks: bool) -> (r: String)
    ensures
        r@ == history_source_spec(provider_has_tracks),
{
    if provider_has_tracks {
        "radio_rethink".to_string()
    } else {
        "local_cache".to_string()
    }
}

/// The parts of a station page's warning, in order: the provider's error,
/// a provider track time out of range, the schedule's error.
pub open spec fn live_warning_parts(provider_error: Option<Seq<char>>, out_of_range: bool, schedule_error: Option<Seq<char>>) -> Seq<Seq<char>> {
    let a: Seq<Seq<char>> = match provider_error {
        Some(e) => seq!["Recent-song service: "@ + e],
        None => Seq::empty(),
    };
    let b: Seq<Seq<char>> = if out_of_range {
        seq!["Recent-song service: a track time is out of range"@]
    } else {
        Seq::empty()
    };
    let c: Seq<Seq<char>> = match schedule_error {
        Some(e) => seq!["Schedule: "@ + e],
        None => Seq::empty(),
    };
    a + b + c
}

/// `parts` joined by `sep`.
pub open spec fn join_with(parts: Seq<Seq<char>>, sep: Seq<char>) -> Seq<char>
    decreases parts.len(),
{
    if parts.len() == 0 {
        Seq::empty()
    } else if parts.len() == 1 {
        parts[0]
    } else {
        join_with(parts.drop_last(), sep) + sep + parts.last()
    }
}

/// A station page's warning: its parts joined by " · ", or none.
pub open spec fn live_warning_spec(provider_error: Option<Seq<char>>, out_of_range: bool, schedule_error: Option<Seq<char>>) -> Option<Seq<char>> {
    let parts = live_warning_parts(provider_error, out_of_range, schedule_error);
    if parts.len() == 0 {
        None
    } else {
        Some(join_with(parts, " · "@))
    }
}

/// [`live_warning_spec`].
pub fn live_warning(provider_error: Option<&str>, out_of_range: bool, schedule_error: Option<&str>) -> (r: Option<String>)
    ensures
        opt_view(r) == live_warning_spec(
            match provider_error {
                Some(e) => Some(e@),
                None => None,
            },
            out_of_range,
            match schedule_error {
                Some(e) => Some(e@),
                None => None,
            },
        ),
{
    let ghost pe = match provider_error {
        Some(e) => Some(e@),
        None => None::<Seq<char>>,
    };
    let ghost se = match schedule_error {
        Some(e) => Some(e@),
        None => None::<Seq<char>>,
    };
    let ghost parts = live_warning_parts(pe, out_of_range, se);
    let mut out: Vec<char> = Vec::new();
    let mut n: usize = 0;
    let sep = chars_of(" · ");
    let mut pieces: Vec<String> = Vec::new();
    match provider_error {
        Some(e) => pieces.push(concat_str("Recent-song service: ", e)),
        None => {},
    }
    if out_of_range {
        pieces.push("Recent-song service: a track time is out of range".to_string());
    }
    match schedule_error {
        Some(e) => pieces.push(concat_str("Schedule: ", e)),
        None => {},
    }
    proof {
        reveal_strlit("Recent-song service: a track time is out of range");
    }
    assert(pieces@.map_values(|s: String| s@) =~= parts);
    if pieces.len() == 0 {
        return None;
    }
    while n < pieces.len()
        invariant
            n <= pieces.len(),
            pieces@.map_values(|s: String| s@) == parts,
            sep@ == " · "@,
            out@ == join_with(parts.take(n as int), " · "@),
        decreases pieces.len() - n,
    {
        let ghost before = out@;
        assert(parts.take(n + 1).drop_last() =~= parts.take(n as int));
        assert(parts[n as int] == pieces@[n as int]@);
        if n > 0 {
            push_all(&mut out, sep.as_slice());
        }
        push_all(&mut out, chars_of(pieces[n].as_str()).as_slice());
        proof {
            if n == 0 {
                assert(out@ =~= parts.take(1)[0]);
            } else {
                assert(out@ =~= join_with(parts.take(n as int), " · "@) + " · "@ + parts.take(n + 1).last());
            }
        }
        n = n + 1;
    }
    assert(parts.take(pieces.len() as int) =~= parts);
    Some(string_from_chars(out.as_slice()))
}

/// The name of the first show with id `show_id`, or the empty string.
pub open spec fn show_name_spec(shows: Seq<Show>, show_id: Seq<char>) -> Seq<char>
    decreases shows.len(),
{
    if shows.len() == 0 {
        Seq::empty()
    } else if shows[0].id@ == show_id {
        shows[0].name@
    } else {
        show_name_spec(shows.drop_first(), show_id)
    }
}

/// The name of the show `show_id` among `shows`, empty when it is unknown.
pub fn show_name(shows: &[Show], show_id: &str) -> (r: String)
    ensures
        r@ == show_name_spec(shows@, show_id@),
{
    let mut i: usize = 0;
    assert(shows@.skip(0) =~= shows@);
    while i < shows.len()
        invariant
            i <= shows.len(),
            show_name_spec(shows@, show_id@) == show_name_spec(shows@.skip(i as int), show_id@),
        decreases shows.len() - i,
    {
        assert(shows@.skip(i as int)[0] == shows@[i as int]);
        assert(shows@.skip(i as int).drop_first() =~= shows@.skip(i + 1));
        if crate::text::str_eq(shows[i].id.as_str(), show_id) {
            return shows[i].name.clone();
        }
        i = i + 1;
    }
    String::new()
}

/// What a stored favourite points at: a show by id, an episode or a track
/// by number; a reference that does not read as a number, or an unknown
/// kind, points at nothing.
#[derive(Debug, Clone, PartialEq, Eq)]
pub enum FavouriteRef {
    Show(String),
    Episode(i64),
    Track(i64),
    Nothing,
}

/// The view of a [`FavouriteRef`].
pub enum FavouriteRefModel {
    Show(Seq<char>),
    Episode(i64),
    Track(i64),
    Nothing,
}

/// What the favourite `(kind, ref_id)` points at.
pub open spec fn favourite_ref_spec(kind: Seq<char>, ref_id: Seq<char>) -> FavouriteRefModel {
    if kind == "show"@ {
        FavouriteRefModel::Show(ref_id)
    } else if kind == "episode"@ {
        match parse_i64_spec(ref_id) {
            Some(n) => FavouriteRefModel::Episode(n),
            None => FavouriteRefModel::Nothing,
        }
    } else if kind == "track"@ {
        match parse_i64_spec(ref_id) {
            Some(n) => FavouriteRefModel::Track(n),
            None => FavouriteRefModel::Nothing,
        }
    } else {
        FavouriteRefModel::Nothing
    }
}

/// [`favourite_ref_spec`].
pub fn favourite_ref(kind: &str, ref_id: &str) -> (r: FavouriteRef)
    ensures
        match r {
            FavouriteRef::Show(s) => favourite_ref_spec(kind@, ref_id@) == FavouriteRefModel::Show(s@),
            FavouriteRef::Episode(n) => favourite_ref_spec(kind@, ref_id@) == FavouriteRefModel::Episode(n),
            FavouriteRef::Track(n) => favourite_ref_spec(kind@, ref_id@) == FavouriteRefModel::Track(n),
            FavouriteRef::Nothing => favourite_ref_spec(kind@, ref_id@) == FavouriteRefModel::Nothing,
        },
{
    if crate::text::str_eq(kind, "show") {
        FavouriteRef::Show(ref_id.to_string())
    } else if crate::text::str_eq(kind, "episode") {
        match crate::wfmu::parse_i64_str(ref_id) {
            Some(n) => FavouriteRef::Episode(n),
            None => FavouriteRef::Nothing,
        }
    } else if crate::text::str_eq(kind, "track") {
        match crate::wfmu::parse_i64_str(ref_id) {
            Some(n) => FavouriteRef::Track(n),
            None => FavouriteRef::Nothing,
        }
    } else {
        FavouriteRef::Nothing
    }
}

} // verus!
