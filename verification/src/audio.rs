//! Resolving an episode's audio: the local download, a cached archive
//! address, or a fresh one read from the archive player (with `listen.m3u`
//! as the fallback). The caller performs each fetch and hands back what it
//! got; these decisions are taken here.
use vstd::prelude::*;
use crate::num::int_decimal;
use crate::text::concat_str;
use crate::wfmu::{
    archiveplayer_spec, archiveplayer_url, base_url, first_group_i64, m3u_url, opt_view,
    parse_archiveplayer, parse_archiveplayer_offset, parse_m3u, parse_m3u_spec,
    parse_playlist_archive, playlist_archive_spec, playlist_url, OFFSET_RE,
};

verus! {

/// What `reqwest::Url::parse` makes of a string: its scheme and its
/// serialization, or the parser's message.
pub uninterp spec fn url_parsed(url: Seq<char>) -> Result<(Seq<char>, Seq<char>), Seq<char>>;

/// Parses `url` with `reqwest::Url::parse` (the `url` crate's WHATWG
/// parser) and returns the scheme (`Url::scheme`) and the serialized URL
/// (`Url::to_string`), or the error's message. The contract names the
/// result.
#[verifier::external_body]
fn url_parse(url: &str) -> (r: Result<(String, String), String>)
    ensures
        match r {
            Ok((scheme, text)) => url_parsed(url@) == Ok::<_, Seq<char>>((scheme@, text@)),
            Err(e) => url_parsed(url@) == Err::<(Seq<char>, Seq<char>), _>(e@),
        },
{
    reqwest::Url::parse(url).map(|u| (u.scheme().to_string(), u.to_string())).map_err(|e| e.to_string())
}

/// An archive audio address is accepted when it parses and uses http or
/// https; it is then used in its serialized form.
pub open spec fn validate_audio_url_spec(url: Seq<char>) -> Result<Seq<char>, Seq<char>> {
    match url_parsed(url) {
        Err(e) => Err("invalid audio URL: "@ + e),
        Ok((scheme, text)) => if scheme == "http"@ || scheme == "https"@ {
            Ok(text)
        } else {
            Err("unsupported audio URL scheme: "@ + scheme)
        },
    }
}

/// Accepts an archive audio address that parses and uses http or https,
/// returning it serialized.
pub fn validate_audio_url(url: &str) -> (r: Result<String, String>)
    ensures
        match r {
            Ok(s) => validate_audio_url_spec(url@) == Ok::<_, Seq<char>>(s@),
            Err(e) => validate_audio_url_spec(url@) == Err::<Seq<char>, _>(e@),
        },
{
    match url_parse(url) {
        Err(e) => Err(concat_str("invalid audio URL: ", e.as_str())),
        Ok((scheme, text)) => {
            proof {
                reveal_strlit("http");
                reveal_strlit("https");
            }
            if crate::text::str_eq(scheme.as_str(), "http") || crate::text::str_eq(scheme.as_str(), "https") {
                Ok(text)
            } else {
                Err(concat_str("unsupported audio URL scheme: ", scheme.as_str()))
            }
        },
    }
}

/// Where an episode's pre-roll offset comes from: it is known, it is read
/// from the archive player page at `url`, or it is unknown (0).
#[derive(Debug)]
pub enum OffsetSource {
    Known(i64),
    FetchPlayer { url: String },
    Unknown,
}

/// The view of an [`OffsetSource`].
pub enum OffsetSourceModel {
    Known(i64),
    FetchPlayer { url: Seq<char> },
    Unknown,
}

impl View for OffsetSource {
    type V = OffsetSourceModel;

    open spec fn view(&self) -> OffsetSourceModel {
        match self {
            OffsetSource::Known(o) => OffsetSourceModel::Known(*o),
            OffsetSource::FetchPlayer { url } => OffsetSourceModel::FetchPlayer { url: url@ },
            OffsetSource::Unknown => OffsetSourceModel::Unknown,
        }
    }
}

/// The archive player page of an episode.
pub open spec fn player_url_spec(episode_id: i64, archive_id: i64) -> Seq<char> {
    base_url() + "/archiveplayer/?show="@ + int_decimal(episode_id as int) + "&archive="@
        + int_decimal(archive_id as int)
}

/// The playlist page of an episode.
pub open spec fn playlist_url_spec(episode_id: i64) -> Seq<char> {
    base_url() + "/playlists/shows/"@ + int_decimal(episode_id as int)
}

/// The `listen.m3u` feed of an episode.
pub open spec fn m3u_url_spec(episode_id: i64, archive_id: i64) -> Seq<char> {
    base_url() + "/listen.m3u?show="@ + int_decimal(episode_id as int) + "&archive="@
        + int_decimal(archive_id as int)
}

/// An offset already stored is used; else it is read from the player page
/// when the archive is known; else it is unknown.
pub open spec fn offset_source_spec(episode_id: i64, offset_sec: Option<i64>, archive_id: Option<i64>) -> OffsetSourceModel {
    match offset_sec {
        Some(o) => OffsetSourceModel::Known(o),
        None => match archive_id {
            Some(a) => OffsetSourceModel::FetchPlayer { url: player_url_spec(episode_id, a) },
            None => OffsetSourceModel::Unknown,
        },
    }
}

/// The offset that an archive player page gives: its `data-offset`, else 0.
pub open spec fn player_offset_spec(html: Seq<char>) -> i64 {
    match first_group_i64(OFFSET_RE@, html, 1) {
        Some(o) => o,
        None => 0,
    }
}

/// The pre-roll offset an archive player page gives, 0 when it gives none.
pub fn player_offset(html: &str) -> (r: i64)
    ensures
        r == player_offset_spec(html@),
{
    match parse_archiveplayer_offset(html) {
        Some(o) => o,
        None => 0,
    }
}

/// Where resolving an episode's audio stands.
#[derive(Debug, Clone, Copy, PartialEq, Eq, Structural)]
pub enum AudioResolveState {
    /// Nothing known yet but the episode.
    Start { episode_id: i64 },
    /// Waiting for the episode's playlist page, to find its archive.
    AwaitPlaylist { episode_id: i64 },
    /// Waiting for the archive player page.
    AwaitPlayer { episode_id: i64, archive_id: i64 },
    /// Waiting for the `listen.m3u` feed; the player page gave this offset.
    AwaitM3u { episode_id: i64, archive_id: i64, offset_sec: i64 },
    /// Resolved or failed.
    Done,
}

/// What the caller learned: the stored episode, or a page it fetched.
pub enum AudioEvent {
    /// The episode as stored, and whether its downloaded file exists.
    Episode {
        downloaded: bool,
        download_path: Option<String>,
        file_exists: bool,
        audio_url: Option<String>,
        archive_id: Option<i64>,
        offset_sec: Option<i64>,
    },
    PlaylistPage(String),
    PlayerPage(String),
    M3uBody(String),
}

/// The view of an [`AudioEvent`].
pub enum AudioEventModel {
    Episode {
        downloaded: bool,
        download_path: Option<Seq<char>>,
        file_exists: bool,
        audio_url: Option<Seq<char>>,
        archive_id: Option<i64>,
        offset_sec: Option<i64>,
    },
    PlaylistPage(Seq<char>),
    PlayerPage(Seq<char>),
    M3uBody(Seq<char>),
}

impl View for AudioEvent {
    type V = AudioEventModel;

    open spec fn view(&self) -> AudioEventModel {
        match self {
            AudioEvent::Episode { downloaded, download_path, file_exists, audio_url, archive_id, offset_sec } =>
                AudioEventModel::Episode {
                downloaded: *downloaded,
                download_path: opt_view(*download_path),
                file_exists: *file_exists,
                audio_url: opt_view(*audio_url),
                archive_id: *archive_id,
                offset_sec: *offset_sec,
            },
            AudioEvent::PlaylistPage(h) => AudioEventModel::PlaylistPage(h@),
            AudioEvent::PlayerPage(h) => AudioEventModel::PlayerPage(h@),
            AudioEvent::M3uBody(b) => AudioEventModel::M3uBody(b@),
        }
    }
}

/// What the caller does next.
#[derive(Debug)]
pub enum AudioAction {
    /// Play the downloaded file, with the offset from `offset`.
    UseLocal { path: String, offset: OffsetSource },
    /// Play the cached archive address, with the offset from `offset`.
    UseCached { url: String, offset: OffsetSource },
    /// Fetch the episode's playlist page and hand it back.
    FetchPlaylist { url: String },
    /// Store `discovered` as the episode's archive when it is set, then
    /// fetch the archive player page and hand it back.
    FetchPlayer { url: String, discovered: Option<i64> },
    /// Fetch the `listen.m3u` feed and hand it back.
    FetchM3u { url: String },
    /// Store and play this address with this offset.
    Resolved { url: String, offset_sec: i64 },
    /// Give up with this message.
    Fail { message: String },
}

/// The view of an [`AudioAction`].
pub enum AudioActionModel {
    UseLocal { path: Seq<char>, offset: OffsetSourceModel },
    UseCached { url: Seq<char>, offset: OffsetSourceModel },
    FetchPlaylist { url: Seq<char> },
    FetchPlayer { url: Seq<char>, discovered: Option<i64> },
    FetchM3u { url: Seq<char> },
    Resolved { url: Seq<char>, offset_sec: i64 },
    Fail { message: Seq<char> },
}

impl View for AudioAction {
    type V = AudioActionModel;

    open spec fn view(&self) -> AudioActionModel {
        match self {
            AudioAction::UseLocal { path, offset } => AudioActionModel::UseLocal { path: path@, offset: offset@ },
            AudioAction::UseCached { url, offset } => AudioActionModel::UseCached { url: url@, offset: offset@ },
            AudioAction::FetchPlaylist { url } => AudioActionModel::FetchPlaylist { url: url@ },
            AudioAction::FetchPlayer { url, discovered } => AudioActionModel::FetchPlayer { url: url@, discovered: *discovered },
            AudioAction::FetchM3u { url } => AudioActionModel::FetchM3u { url: url@ },
            AudioAction::Resolved { url, offset_sec } => AudioActionModel::Resolved { url: url@, offset_sec: *offset_sec },
            AudioAction::Fail { message } => AudioActionModel::Fail { message: message@ },
        }
    }
}

/// The end of a resolution: a found address is validated, then stored and
/// played, or its refusal is the failure.
pub open spec fn finish_spec(url: Seq<char>, offset_sec: i64) -> (AudioResolveState, AudioActionModel) {
    match validate_audio_url_spec(url) {
        Ok(v) => (AudioResolveState::Done, AudioActionModel::Resolved { url: v, offset_sec }),
        Err(m) => (AudioResolveState::Done, AudioActionModel::Fail { message: m }),
    }
}

/// One step of resolving an episode's audio.
/// - The episode: a downloaded file that still exists is played; else a
///   cached address that validates is played; else the archive player is
///   fetched when the archive is known, and the playlist page otherwise.
/// - The playlist page names the archive, or the episode has none.
/// - The player page gives the offset (0 when absent) and the address, or
///   else `listen.m3u` is fetched; the m3u body gives the address or the
///   resolution fails.
/// - Any other event at any other point fails.
pub open spec fn resolve_audio_step_spec(state: AudioResolveState, event: AudioEventModel) -> (
    AudioResolveState,
    AudioActionModel,
) {
    match (state, event) {
        (
            AudioResolveState::Start { episode_id },
            AudioEventModel::Episode { downloaded, download_path, file_exists, audio_url, archive_id, offset_sec },
        ) => {
            let offset = offset_source_spec(episode_id, offset_sec, archive_id);
            if downloaded && download_path is Some && file_exists {
                (AudioResolveState::Done, AudioActionModel::UseLocal { path: download_path->0, offset })
            } else if audio_url is Some && validate_audio_url_spec(audio_url->0) is Ok {
                (
                    AudioResolveState::Done,
                    AudioActionModel::UseCached { url: validate_audio_url_spec(audio_url->0)->Ok_0, offset },
                )
            } else {
                match archive_id {
                    Some(a) => (
                        AudioResolveState::AwaitPlayer { episode_id, archive_id: a },
                        AudioActionModel::FetchPlayer { url: player_url_spec(episode_id, a), discovered: None },
                    ),
                    None => (
                        AudioResolveState::AwaitPlaylist { episode_id },
                        AudioActionModel::FetchPlaylist { url: playlist_url_spec(episode_id) },
                    ),
                }
            }
        },
        (AudioResolveState::AwaitPlaylist { episode_id }, AudioEventModel::PlaylistPage(html)) => {
            match playlist_archive_spec(html) {
                Some(a) => (
                    AudioResolveState::AwaitPlayer { episode_id, archive_id: a },
                    AudioActionModel::FetchPlayer { url: player_url_spec(episode_id, a), discovered: Some(a) },
                ),
                None => (
                    AudioResolveState::Done,
                    AudioActionModel::Fail { message: "this episode has no audio archive (playlist only)"@ },
                ),
            }
        },
        (AudioResolveState::AwaitPlayer { episode_id, archive_id }, AudioEventModel::PlayerPage(html)) => {
            let offset_sec = player_offset_spec(html);
            match archiveplayer_spec(html) {
                Some(u) => finish_spec(u, offset_sec),
                None => (
                    AudioResolveState::AwaitM3u { episode_id, archive_id, offset_sec },
                    AudioActionModel::FetchM3u { url: m3u_url_spec(episode_id, archive_id) },
                ),
            }
        },
        (AudioResolveState::AwaitM3u { offset_sec, .. }, AudioEventModel::M3uBody(body)) => {
            match parse_m3u_spec(body) {
                Some(u) => finish_spec(u, offset_sec),
                None => (
                    AudioResolveState::Done,
                    AudioActionModel::Fail { message: "could not resolve an audio URL for this episode"@ },
                ),
            }
        },
        _ => (AudioResolveState::Done, AudioActionModel::Fail { message: "unexpected step while resolving audio"@ }),
    }
}

fn offset_source(episode_id: i64, offset_sec: Option<i64>, archive_id: Option<i64>) -> (r: OffsetSource)
    ensures
        r@ == offset_source_spec(episode_id, offset_sec, archive_id),
{
    match offset_sec {
        Some(o) => OffsetSource::Known(o),
        None => match archive_id {
            Some(a) => OffsetSource::FetchPlayer { url: archiveplayer_url(episode_id, a) },
            None => OffsetSource::Unknown,
        },
    }
}

fn finish(url: &str, offset_sec: i64) -> (r: (AudioResolveState, AudioAction))
    ensures
        (r.0, r.1@) == finish_spec(url@, offset_sec),
{
    match validate_audio_url(url) {
        Ok(v) => (AudioResolveState::Done, AudioAction::Resolved { url: v, offset_sec }),
        Err(m) => (AudioResolveState::Done, AudioAction::Fail { message: m }),
    }
}

/// One step of resolving an episode's audio, as
/// [`resolve_audio_step_spec`] says.
pub fn resolve_audio_step(state: &AudioResolveState, event: AudioEvent) -> (r: (AudioResolveState, AudioAction))
    ensures
        (r.0, r.1@) == resolve_audio_step_spec(*state, event@),
{
    match (*state, event) {
        (
            AudioResolveState::Start { episode_id },
            AudioEvent::Episode { downloaded, download_path, file_exists, audio_url, archive_id, offset_sec },
        ) => {
            let offset = offset_source(episode_id, offset_sec, archive_id);
            if downloaded && download_path.is_some() && file_exists {
                match download_path {
                    Some(path) => (AudioResolveState::Done, AudioAction::UseLocal { path, offset }),
                    None => (AudioResolveState::Done, AudioAction::UseLocal { path: String::new(), offset }),
                }
            } else {
                let cached = match &audio_url {
                    Some(u) => validate_audio_url(u.as_str()),
                    None => Err(String::new()),
                };
                match cached {
                    Ok(v) if audio_url.is_some() => (AudioResolveState::Done, AudioAction::UseCached { url: v, offset }),
                    _ => match archive_id {
                        Some(a) => (
                            AudioResolveState::AwaitPlayer { episode_id, archive_id: a },
                            AudioAction::FetchPlayer { url: archiveplayer_url(episode_id, a), discovered: None },
                        ),
                        None => (
                            AudioResolveState::AwaitPlaylist { episode_id },
                            AudioAction::FetchPlaylist { url: playlist_url(episode_id) },
                        ),
                    },
                }
            }
        },
        (AudioResolveState::AwaitPlaylist { episode_id }, AudioEvent::PlaylistPage(html)) => {
            match parse_playlist_archive(html.as_str()) {
                Some(a) => (
                    AudioResolveState::AwaitPlayer { episode_id, archive_id: a },
                    AudioAction::FetchPlayer { url: archiveplayer_url(episode_id, a), discovered: Some(a) },
                ),
                None => (
                    AudioResolveState::Done,
                    AudioAction::Fail { message: "this episode has no audio archive (playlist only)".to_string() },
                ),
            }
        },
        (AudioResolveState::AwaitPlayer { episode_id, archive_id }, AudioEvent::PlayerPage(html)) => {
            let offset_sec = player_offset(html.as_str());
            match parse_archiveplayer(html.as_str()) {
                Some(u) => finish(u.as_str(), offset_sec),
                None => (
                    AudioResolveState::AwaitM3u { episode_id, archive_id, offset_sec },
                    AudioAction::FetchM3u { url: m3u_url(episode_id, archive_id) },
                ),
            }
        },
        (AudioResolveState::AwaitM3u { offset_sec, .. }, AudioEvent::M3uBody(body)) => {
            match parse_m3u(body.as_str()) {
                Some(u) => finish(u.as_str(), offset_sec),
                None => (
                    AudioResolveState::Done,
                    AudioAction::Fail { message: "could not resolve an audio URL for this episode".to_string() },
                ),
            }
        },
        _ => (
            AudioResolveState::Done,
            AudioAction::Fail { message: "unexpected step while resolving audio".to_string() },
        ),
    }
}

} // verus!
