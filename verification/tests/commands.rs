use archiplayer::commands::{
    current_track_id, fts_query, group_live_history, like_pattern, live_status_plan,
    page_track_id, provider_source, show_matches, LiveProgram, LiveSong,
};
use archiplayer::commands::FavouriteRef;
use archiplayer::dates::{air_date_to_iso, cache_is_stale, is_iso_date, ts_to_iso};
use archiplayer::db::{Show, Track};
use archiplayer::downloads::{audio_extension, build_name, sanitize_filename};
use archiplayer::export::{
    export_header, favourite_row, listen_row, stats_row, FavouriteSubject,
    is_export_kind, is_favourite_kind, neutralize_csv_cell, write_csv_record, CsvSink,
};
use archiplayer::live::{
    enrich_program, live_lineup, matching_program_index, polled_live_track, same_program,
    synthetic_live_episode_id, useful_live_show_name,
};
use archiplayer::wfmu::{ParsedLiveProgram, ParsedLiveStatus, ParsedRecentTrack};

#[test]
fn cache_freshness_handles_boundaries_and_bad_timestamps() {
    let now = 10_000;
    let max_age = 300;
    assert!(cache_is_stale(None, now, max_age));
    assert!(!cache_is_stale(Some(now - max_age + 1), now, max_age));
    assert!(cache_is_stale(Some(now - max_age), now, max_age));
    assert!(cache_is_stale(Some(now + 1), now, max_age));
}

#[test]
fn csv_cells_that_can_start_formulas_are_neutralized() {
    for value in [
        "=1+1",
        "+cmd",
        "-2",
        "@SUM(A1:A2)",
        "\t=1+1",
        "\r=1+1",
        "\n=1+1",
    ] {
        assert_eq!(neutralize_csv_cell(value), format!("'{value}"));
    }
    assert_eq!(neutralize_csv_cell("plain text"), "plain text");

    let mut writer = CsvSink::new();
    write_csv_record(
        &mut writer,
        &["=1+1", "+cmd", "-2", "@SUM(A1:A2)", "plain text"],
    )
    .expect("write safe row");
    let data = String::from_utf8(writer.into_bytes().expect("flush row")).expect("UTF-8 CSV");
    assert_eq!(data, "'=1+1,'+cmd,'-2,'@SUM(A1:A2),plain text\n");
}

#[test]
fn download_names_are_portable_and_distinct() {
    assert_eq!(
        build_name("Show: A/B?", Some("July 24, 2026"), Some("Title"), 42),
        "Show- A-B- - July 24, 2026 - Title - 42"
    );
    assert_eq!(build_name("Show", None, None, 42), "Show - 42");
    assert_eq!(build_name("...   ", None, None, 42), "download - 42");

    let long_show = "A".repeat(200);
    let first = build_name(&long_show, None, None, 42);
    let second = build_name(&long_show, None, None, 43);
    assert!(first.chars().count() <= 120);
    assert!(first.ends_with(" - 42"));
    assert!(second.ends_with(" - 43"));
    assert_ne!(first, second);
}

#[test]
fn sanitized_names_drop_illegal_and_control_characters() {
    assert_eq!(sanitize_filename("a\u{7}b\tc", 50), "a b c");
    assert_eq!(sanitize_filename("<>:\"|?*", 50), "-------");
    assert_eq!(sanitize_filename(". . .", 50), "download");
    assert_eq!(sanitize_filename("abcdef.", 4), "abcd");
    assert_eq!(sanitize_filename("abc.def", 4), "abc");
    assert_eq!(build_name("", Some("  "), Some("T"), -7), "Episode - T - -7");
}

#[test]
fn negative_and_extreme_ids_stay_within_the_name_limit() {
    let long_show = "B".repeat(300);
    let name = build_name(&long_show, Some("x"), Some("y"), i64::MIN);
    assert!(name.chars().count() <= 120);
    assert!(name.ends_with(&format!(" - {}", i64::MIN)));
    assert_ne!(
        build_name("Same", None, None, 2),
        build_name("Same", None, None, 12)
    );
}

#[test]
fn timestamps_format_as_utc_text() {
    assert_eq!(ts_to_iso(0), "1970-01-01 00:00:00");
    assert_eq!(ts_to_iso(1_784_029_491), "2026-07-14 11:44:51");
    assert_eq!(ts_to_iso(-1), "1969-12-31 23:59:59");
    assert_eq!(ts_to_iso(951_782_400), "2000-02-29 00:00:00");
}

#[test]
fn air_dates_become_iso_dates() {
    assert_eq!(air_date_to_iso("July 9, 2026").as_deref(), Some("2026-07-09"));
    assert_eq!(air_date_to_iso("  december 31, 1999 ").as_deref(), Some("1999-12-31"));
    assert_eq!(air_date_to_iso("2026-07-09").as_deref(), Some("2026-07-09"));
    assert_eq!(air_date_to_iso("July 32, 2026"), None);
    assert_eq!(air_date_to_iso("July 9, 1850"), None);
    assert_eq!(air_date_to_iso("Smarch 9, 2026"), None);
    assert_eq!(air_date_to_iso("unknown"), None);
    assert!(is_iso_date("2026-07-09"));
    assert!(!is_iso_date("2026/07/09"));
}

#[test]
fn synthetic_episode_ids_are_negative_and_daily() {
    let a = synthetic_live_episode_id("drummer", 86_400 * 20_000 + 5);
    let b = synthetic_live_episode_id("drummer", 86_400 * 20_000 + 80_000);
    let c = synthetic_live_episode_id("drummer", 86_400 * 20_001);
    let d = synthetic_live_episode_id("sheena", 86_400 * 20_000);
    assert!(a < 0);
    assert_eq!(a, b);
    assert_ne!(a, c);
    assert_ne!(a, d);
    // 20_000 days * 1_000_000 + channel + 1, negated; "a" hashes to 97.
    assert_eq!(synthetic_live_episode_id("a", 86_400 * 20_000), -(20_000 * 1_000_000 + 97 + 1));
    assert_eq!(synthetic_live_episode_id("", 0), -1);
}

fn program(show_id: Option<&str>, name: &str, day: Option<&str>, current: bool) -> ParsedLiveProgram {
    ParsedLiveProgram {
        show_id: show_id.map(str::to_string),
        name: name.to_string(),
        host: None,
        description: None,
        starts_at: None,
        ends_at: None,
        day: day.map(str::to_string),
        current,
    }
}

#[test]
fn programmes_match_by_id_then_name() {
    let a = program(Some("tc"), "Tony", None, false);
    let b = program(Some("TC"), "Someone else", None, false);
    let c = program(None, "TONY", None, false);
    assert!(same_program(&a, &b));
    assert!(same_program(&a, &c));
    assert!(!same_program(&b, &c));
    let schedule = vec![c.clone(), b.clone()];
    assert_eq!(matching_program_index(&schedule, &a), Some(0));
    assert_eq!(matching_program_index(&schedule, &program(None, "x", None, false)), None);
}

#[test]
fn enrichment_fills_only_missing_fields() {
    let mut target = program(None, "Tony Coulter", None, true);
    let mut source = program(Some("TC"), "tony coulter", None, false);
    source.description = Some("Freeform".to_string());
    enrich_program(&mut target, &[source]);
    assert_eq!(target.show_id.as_deref(), Some("TC"));
    assert_eq!(target.description.as_deref(), Some("Freeform"));
    let mut kept = program(Some("XX"), "Tony Coulter", None, true);
    kept.description = Some("Own".to_string());
    let other = program(None, "Tony Coulter", None, false);
    enrich_program(&mut kept, &[other]);
    assert_eq!(kept.show_id.as_deref(), Some("XX"));
    assert_eq!(kept.description.as_deref(), Some("Own"));
}

#[test]
fn lineup_starts_after_the_current_programme_without_repeats() {
    let schedule = vec![
        program(Some("A"), "Morning", Some("Tuesday"), false),
        program(Some("B"), "Noon", Some("tuesday"), true),
        program(Some("C"), "Evening", Some("Tuesday"), false),
        program(Some("C"), "Evening again", Some("Tuesday"), false),
        program(Some("D"), "Wednesday show", Some("Wednesday"), false),
    ];
    let lineup = live_lineup(None, None, schedule.clone());
    assert_eq!(lineup.current.as_ref().unwrap().name, "Noon");
    let names: Vec<&str> = lineup.upcoming.iter().map(|p| p.name.as_str()).collect();
    assert_eq!(names, vec!["Evening"]);

    let next = program(Some("C"), "Evening", None, false);
    let provider_now = program(Some("B"), "Noon", Some("Tuesday"), true);
    let lineup = live_lineup(Some(provider_now), Some(next), schedule);
    let names: Vec<&str> = lineup.upcoming.iter().map(|p| p.name.as_str()).collect();
    assert_eq!(names, vec!["Evening"]);
    assert_eq!(lineup.upcoming[0].day, None);
}

#[test]
fn status_names_and_observations() {
    let mut status = ParsedLiveStatus {
        episode_id: None,
        show_id: None,
        show_name: Some("GTD Radio Stream".to_string()),
        artist: Some("Artist".to_string()),
        title: None,
    };
    assert_eq!(useful_live_show_name(Some(&status)), None);
    status.show_name = Some("WFMU".to_string());
    assert_eq!(useful_live_show_name(Some(&status)), None);
    status.show_name = Some("Wake".to_string());
    assert_eq!(useful_live_show_name(Some(&status)).as_deref(), Some("Wake"));
    let track = polled_live_track(&status).expect("observed");
    assert_eq!(track.artist.as_deref(), Some("Artist"));
    assert_eq!(track.title, None);
    status.artist = None;
    assert!(polled_live_track(&status).is_none());
}

#[test]
fn status_plans_record_hosted_and_stream_polls() {
    let hosted = ParsedLiveStatus {
        episode_id: Some(166_344),
        show_id: Some("GT".to_string()),
        show_name: Some("Garbage Time".to_string()),
        artist: None,
        title: None,
    };
    let plan = live_status_plan("freeform", &hosted, "WFMU 91.1".to_string(), 1_784_029_491)
        .expect("hosted");
    assert_eq!(plan.episode_id, 166_344);
    assert_eq!(plan.show_id, "GT");
    assert!(!plan.synthetic_show);
    assert_eq!(plan.show_name, "Garbage Time");
    assert_eq!(plan.air_date, "2026-07-14");
    assert_eq!(plan.episode_title, "Live broadcast");
    assert!(plan.current_song.is_none());

    let stream = ParsedLiveStatus {
        episode_id: None,
        show_id: None,
        show_name: Some("GTD Radio Stream".to_string()),
        artist: Some("Artist".to_string()),
        title: Some("Song".to_string()),
    };
    let plan = live_status_plan("drummer", &stream, "Give the Drummer Radio".to_string(), 86_400 * 20_000)
        .expect("stream");
    assert_eq!(plan.episode_id, synthetic_live_episode_id("drummer", 86_400 * 20_000));
    assert_eq!(plan.show_id, "live-drummer");
    assert!(plan.synthetic_show);
    assert_eq!(plan.show_name, "Give the Drummer Radio");
    assert_eq!(plan.episode_title, "Live stream");

    let silent = ParsedLiveStatus { artist: None, title: None, ..stream };
    assert_eq!(
        live_status_plan("drummer", &silent, String::new(), 0).err().as_deref(),
        Some("the station has no current track yet")
    );
}

fn track(id: i64, artist: Option<&str>, title: Option<&str>, source: Option<&str>) -> Track {
    Track {
        id,
        episode_id: 1,
        seq: id,
        artist: artist.map(str::to_string),
        title: title.map(str::to_string),
        album: None,
        label: None,
        comments: None,
        start_sec: None,
        source_id: source.map(str::to_string),
        played_at: None,
        favourite: false,
    }
}

#[test]
fn current_tracks_are_found_by_song_or_source() {
    let tracks = vec![
        track(1, Some("A"), Some("x"), Some("wfmu:1")),
        track(2, Some("B"), Some("y"), None),
        track(3, Some("A"), Some("x"), Some("wfmu:3")),
        track(4, Some("C"), Some("z"), None),
    ];
    let song = Some(LiveSong { artist: Some("A".to_string()), title: Some("x".to_string()) });
    assert_eq!(current_track_id(&tracks, &song), Some(3));
    let unknown = Some(LiveSong { artist: None, title: Some("q".to_string()) });
    assert_eq!(current_track_id(&tracks, &unknown), Some(4));
    assert_eq!(current_track_id(&[], &song), None);
    assert_eq!(page_track_id(&tracks, &Some(provider_source("wfmu", "1"))), Some(1));
    assert_eq!(page_track_id(&tracks, &Some("wfmu:9".to_string())), Some(4));
    assert_eq!(page_track_id(&tracks, &None), Some(4));
}

fn recent(source: &str, played_at: i64, date: &str) -> ParsedRecentTrack {
    ParsedRecentTrack {
        source_id: source.to_string(),
        artist: None,
        title: Some(source.to_string()),
        album: None,
        played_at,
        air_date: date.to_string(),
    }
}

#[test]
fn history_groups_by_day_in_episode_order() {
    let day = 86_400 * 20_000;
    let tracks = vec![
        recent("a", day + 10, "2024-10-04"),
        recent("b", day - 10, "2024-10-03"),
        recent("c", day + 20, "2024-10-04"),
    ];
    let days = group_live_history("drummer", &tracks);
    assert_eq!(days.len(), 2);
    assert!(days[0].episode_id < days[1].episode_id);
    assert_eq!(days[0].episode_id, synthetic_live_episode_id("drummer", day + 10));
    assert_eq!(days[0].air_date, "2024-10-04");
    let sources: Vec<&str> = days[0].tracks.iter().map(|t| t.source_id.as_str()).collect();
    assert_eq!(sources, vec!["a", "c"]);
    assert_eq!(days[1].tracks.len(), 1);
}

#[test]
fn search_queries_are_quoted_and_escaped() {
    assert_eq!(fts_query("  kenny  \"g\" hour "), "\"kenny\" \"g\" \"hour\"");
    assert_eq!(fts_query(""), "");
    assert_eq!(like_pattern("50%_off"), "%50 off%");
    let show = Show {
        id: "KG".to_string(),
        name: "Kenny G's Hour of Pain".to_string(),
        dj: Some("Kenny G".to_string()),
        description: None,
        on_air: false,
        episode_count: 0,
        favourite: false,
        last_scraped: None,
    };
    assert!(show_matches(&show, "hour OF"));
    assert!(show_matches(&show, "kenny g"));
    assert!(!show_matches(&show, "wake"));
}

#[test]
fn kinds_are_validated() {
    assert!(is_export_kind("stats"));
    assert!(!is_export_kind("tracks"));
    assert!(is_favourite_kind("episode"));
    assert!(!is_favourite_kind("album"));
}

#[test]
fn live_programmes_convert_for_the_page() {
    let p = program(Some("TC"), "Tony", Some("Tuesday"), true);
    let shown: LiveProgram = p.into();
    assert_eq!(shown.show_id.as_deref(), Some("TC"));
    assert_eq!(shown.name, "Tony");
}

#[test]
fn neutralizing_a_cell_twice_changes_nothing() {
    let once = neutralize_csv_cell("=SUM(A1:A9)");
    assert_eq!(once, "'=SUM(A1:A9)");
    assert_eq!(neutralize_csv_cell(&once), once);
    assert_eq!(neutralize_csv_cell(""), "");
}

#[test]
fn download_extensions_keep_known_audio_types() {
    assert_eq!(audio_extension(Some("M4A")), "m4a");
    assert_eq!(audio_extension(Some("aac")), "aac");
    assert_eq!(audio_extension(Some("ogg")), "mp3");
    assert_eq!(audio_extension(Some("Mp4")), "mp4");
    assert_eq!(audio_extension(None), "mp3");
}

#[test]
fn export_rows_follow_the_header_columns() {
    assert_eq!(export_header("favourites"), vec!["kind", "name", "detail", "show", "date_added"]);
    assert_eq!(
        export_header("listens"),
        vec!["session", "show", "episode_date", "episode_title", "started_at", "seconds", "completed"]
    );
    assert_eq!(export_header("stats"), vec!["rank", "show", "seconds_listened", "hours", "plays"]);
    let track = FavouriteSubject::Track {
        artist: Some("Sun Ra".into()),
        title: Some("Space Is the Place".into()),
        show: "Shrunken Planet".into(),
    };
    assert_eq!(
        favourite_row("track", "7", 0, track),
        vec!["track", "Space Is the Place", "Sun Ra", "Shrunken Planet", "1970-01-01 00:00:00"]
    );
    assert_eq!(
        favourite_row("show", "XY", 86400, FavouriteSubject::Missing),
        vec!["show", "XY", "", "", "1970-01-02 00:00:00"]
    );
    assert_eq!(
        listen_row("s1".into(), "Show".into(), None, Some("T".into()), 60, 125, 1),
        vec!["s1", "Show", "", "T", "1970-01-01 00:01:00", "125", "true"]
    );
    assert_eq!(
        stats_row(0, "Show".into(), 7200, "2.00".into(), 3),
        vec!["1", "Show", "7200", "2.00", "3"]
    );
}

#[test]
fn csv_sink_refuses_a_record_of_another_width_and_stays_failed() {
    let mut writer = CsvSink::new();
    assert!(write_csv_record(&mut writer, &["a", "b"]).is_ok());
    assert!(!writer.failed());
    assert!(write_csv_record(&mut writer, &["c"]).is_err());
    assert!(writer.failed());
}

#[test]
fn entities_decode_ampersand_last() {
    use_decode("&amp;lt;b&amp;gt;", "&lt;b&gt;");
    use_decode("a &lt; b &amp;&amp; c", "a < b && c");
}

fn use_decode(input: &str, expected: &str) {
    let chars: Vec<char> = input.chars().collect();
    let out: String = archiplayer::text::decode_entities(&chars).into_iter().collect();
    assert_eq!(out, expected);
}

#[test]
fn script_and_style_bodies_are_removed_before_tags() {
    assert_eq!(
        archiplayer::text::clean_text("<script>var a=1;</script><style>b{c:d}</style>Song"),
        "Song"
    );
    assert_eq!(
        archiplayer::text::clean_text("<SCRIPT type=\"x\">x<y</SCRIPT> Title <b>Bold</b>"),
        "Title Bold"
    );
    assert_eq!(archiplayer::text::clean_text("<scripts>kept</scripts>"), "kept");
    assert_eq!(archiplayer::text::clean_text("<script>never closed"), "never closed");
}

#[test]
fn converted_air_dates_convert_to_themselves() {
    let iso = air_date_to_iso("July 9, 2026").unwrap();
    assert_eq!(iso, "2026-07-09");
    assert!(is_iso_date(&iso));
    assert_eq!(air_date_to_iso(&iso), Some(iso.clone()));
    assert_eq!(air_date_to_iso("  2026-07-09 "), Some("2026-07-09".to_string()));
}

#[test]
fn download_names_hold_only_portable_characters() {
    let name = build_name("A\u{7}B<C>", Some("D|E"), Some("F*G?"), -5);
    assert!(name.ends_with(" - -5"));
    assert!(!name.chars().any(|c| "\\/:*?\"<>|".contains(c) || c.is_control()));
}

fn warning_of(p: Option<&str>, oor: bool, sch: Option<&str>) -> Option<String> {
    archiplayer::commands::live_warning(p, oor, sch)
}

#[test]
fn live_page_footer_is_decided_by_the_library() {
    assert_eq!(warning_of(None, false, None), None);
    assert_eq!(warning_of(Some("timeout"), false, None), Some("Recent-song service: timeout".to_string()));
    assert_eq!(
        warning_of(None, true, Some("HTTP 500")),
        Some("Recent-song service: a track time is out of range · Schedule: HTTP 500".to_string())
    );
    assert_eq!(archiplayer::commands::history_source(true), "radio_rethink");
    assert_eq!(archiplayer::commands::history_source(false), "local_cache");
    assert_eq!(archiplayer::commands::unknown_live_station("x"), "unknown live station x");
}

#[test]
fn favourites_point_at_shows_episodes_and_tracks() {
    assert_eq!(archiplayer::commands::favourite_ref("show", "WA"), FavouriteRef::Show("WA".to_string()));
    assert_eq!(archiplayer::commands::favourite_ref("episode", "166195"), FavouriteRef::Episode(166195));
    assert_eq!(archiplayer::commands::favourite_ref("track", "-3"), FavouriteRef::Track(-3));
    assert_eq!(archiplayer::commands::favourite_ref("track", "x1"), FavouriteRef::Nothing);
    assert_eq!(archiplayer::commands::favourite_ref("album", "1"), FavouriteRef::Nothing);
    let shows = vec![
        Show { id: "WA".into(), name: "Wake".into(), dj: None, description: None, on_air: true,
               episode_count: 0, favourite: false, last_scraped: None },
    ];
    assert_eq!(archiplayer::commands::show_name(&shows, "WA"), "Wake");
    assert_eq!(archiplayer::commands::show_name(&shows, "KG"), "");
}
