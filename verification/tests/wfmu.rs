use archiplayer::archive::parse_show_archive_years;
use archiplayer::live_pages::parse_live_nowplaying;
use archiplayer::playlist::parse_playlist;
use archiplayer::rethink::parse_rethink_live_page;
use archiplayer::schedule::parse_live_schedule;
use archiplayer::wfmu::{
    channel_nowplaying_url, live_station, parse_archiveplayer, parse_archiveplayer_offset,
    parse_channel_id, parse_current_playlist, parse_hms, parse_m3u, parse_show_description,
    parse_show_page, rethink_playlist_url, LiveStatusSource,
};

fn json_string(s: &str) -> String {
    serde_json::to_string(s).unwrap()
}

#[test]
fn rethink_snapshot_parses_tracks_and_show_context() {
    let playlist = r#"{"COLUMNS":["id","artist","track","album","trackPlayedAtStationTimezone"],"DATA":[["new","","The New Band - Last Song","Newest","07-14-2026 12:34:51 -0400"],["old","An Artist","First Song","Older","07-14-2026 12:30:00 -0400"]]}"#;
    let now = r#"{"COLUMNS":["showName","showHost","showDescription","showURL","day","showStartTime","showEndTime"],"DATA":[["Tony Coulter","Tony","A freeform show","http://www.wfmu.org/playlists/TC","Tuesday","07-14-2026 12:00:00 -0400","07-14-2026 15:00:00 -0400"]]}"#;
    let next = r#"{"COLUMNS":["showName","showURL","day","showStartTime","showEndTime"],"DATA":[["Dark Night","https://wfmu.org/playlists/JQ","Tuesday","07-14-2026 15:00:00 -0400","07-14-2026 19:00:00 -0400"]]}"#;
    let body = format!(
        r#"{{"playListDataJson":{},"onNowJSON":{},"onNextJSON":{}}}"#,
        json_string(playlist),
        json_string(now),
        json_string(next)
    );
    let parsed = parse_rethink_live_page(&body).unwrap();
    assert_eq!(parsed.tracks.len(), 2);
    assert_eq!(parsed.tracks[0].source_id, "old");
    assert_eq!(parsed.tracks[1].artist.as_deref(), Some("The New Band"));
    assert_eq!(parsed.tracks[1].title.as_deref(), Some("Last Song"));
    assert_eq!(
        parsed.current_show.as_ref().unwrap().show_id.as_deref(),
        Some("TC")
    );
    assert_eq!(
        parsed.next_show.as_ref().unwrap().show_id.as_deref(),
        Some("JQ")
    );
    assert!(parsed
        .current_show
        .unwrap()
        .starts_at
        .unwrap()
        .contains('T'));
}

#[test]
fn channel_schedule_preserves_day_links_and_descriptions() {
    let html = r#"<div id="section_upcoming"><table>
          <tr><td><div class="upcoming_dow">Tuesday</div></td></tr>
          <tr class="upcoming_current_slot"><td>12-3pm</td><td>
            <a href="/playlists/TC">Tony Coulter</a>
            <span id="expander_target_1"><i>Rhino and psychedelic fork.</i></span>
            <a href="/playlists/shows/166313">Live playlist</a></td></tr>
          <tr class="upcoming_even_slot"><td>3-7pm</td><td>
            <a href="/playlists/JQ">Dark Night of the Soul</a></td></tr>
          <tr><td><div class="upcoming_dow">Wednesday</div></td></tr>
        </table></div>"#;
    let programs = parse_live_schedule(html);
    assert_eq!(programs.len(), 2);
    assert!(programs[0].current);
    assert_eq!(programs[0].show_id.as_deref(), Some("TC"));
    assert_eq!(
        programs[0].description.as_deref(),
        Some("Rhino and psychedelic fork.")
    );
    assert_eq!(programs[1].day.as_deref(), Some("Tuesday"));
}

#[test]
fn homepage_schedule_uses_the_highlighted_current_row() {
    let html = r##"<div id="playingtoday"><table>
          <tr bgcolor="#000000"><td colspan="2"><b>Tuesday</b></td></tr>
          <tr style="background-color: #DFBE3F;"><td>Noon&nbsp;to&nbsp;3pm</td>
            <td><a href="/playlists/CM">Feelings with Michele</a>
            <a href="/playlists/shows/166351">See playlist</a></td></tr>
          <tr style="background-color: #FFFFFF;"><td>3pm&nbsp;to&nbsp;6pm</td>
            <td><a href="/playlists/ED">The Evan Davies Show</a></td></tr>
        </table></div>"##;
    let programs = parse_live_schedule(html);
    assert_eq!(programs.len(), 2);
    assert!(programs[0].current);
    assert_eq!(programs[0].show_id.as_deref(), Some("CM"));
    assert_eq!(programs[1].starts_at.as_deref(), Some("3pm to 6pm"));
}

#[test]
fn every_live_station_has_a_canonical_provider() {
    for id in ["freeform", "drummer", "rocknsoul", "sheena"] {
        let station = live_station(id).unwrap();
        assert!(rethink_playlist_url(station.rethink_code).ends_with(".json"));
        assert!(station.info_url.starts_with("https://wfmu.org/"));
    }
    assert!(live_station("unknown").is_none());
}

#[test]
fn deep_archive_short_dates_are_parsed() {
    let html = r#"
<span class="KDBFavIcon KDBepisode" id="KDBepisode-37520"></span>
<a href="/playlists/shows/37520">09.30.10 playlist</a>
| Listen: <a href="/flashplayer.php?version=3&amp;show=37520&amp;archive=99">Pop-up</a>
<span class="KDBFavIcon KDBepisode" id="KDBepisode-58274"></span>
<a href="/playlists/shows/58274">11.26.14 playlist</a>
<span class="KDBFavIcon KDBepisode" id="KDBepisode-136"></span>
<a href="https://www.wfmu.org/Playlists/KG/playlists/01/02.15.01.html">02.15.01 playlist</a>
<span class="KDBFavIcon KDBepisode" id="KDBepisode-888"></span>
&gt;
10.11.01
| Listen: <img src="/flashplayer/playbuttont.gif">
"#;
    let eps = parse_show_page(html);
    assert_eq!(eps.len(), 4);
    assert_eq!(eps[0].air_date.as_deref(), Some("September 30, 2010"));
    assert_eq!(eps[1].air_date.as_deref(), Some("November 26, 2014"));
    assert_eq!(eps[2].air_date.as_deref(), Some("February 15, 2001"));
    assert_eq!(eps[3].air_date.as_deref(), Some("October 11, 2001"));
}

#[test]
fn archiveplayer_extracts_audio_url() {
    let html = r#"<audio autoplay preload="metadata" src="https://s3.amazonaws.com/arch.wfmu.org/BT/bt010116r.mp4"></audio>"#;
    assert_eq!(
        parse_archiveplayer(html).as_deref(),
        Some("https://s3.amazonaws.com/arch.wfmu.org/BT/bt010116r.mp4")
    );
    let html2 =
        r#"<audio src="https://mp3archives.wfmu.org/archive/WA/wa260709.mp3" controls></audio>"#;
    assert_eq!(
        parse_archiveplayer(html2).as_deref(),
        Some("https://mp3archives.wfmu.org/archive/WA/wa260709.mp3")
    );
    assert_eq!(parse_archiveplayer("<p>no audio</p>"), None);
}

#[test]
fn archiveplayer_extracts_offset() {
    let html = r#"<body
    data-offset="370"

    data-archiveid="275956"
    data-showid="155909"
>"#;
    assert_eq!(parse_archiveplayer_offset(html), Some(370));
    assert_eq!(parse_archiveplayer_offset("<body data-showid=\"1\">"), None);
}

#[test]
fn show_description_skips_leading_image() {
    let html = r##"<div class="everything">
        <p align="center">
        <img src="https://wfmu.org/Gfx/playlist_images/AU/x.jpg" alt="" >
        </p>
        <p><font size="-1">
        <b>The world is bound with secret knots. Everyday magic; magic every day.
        </b>
        </font></p>
        <div><b>Sunday Midnight - 3am | On <a href="https://wfmu.org/">WFMU</a></b></div>"##;
    assert_eq!(
        parse_show_description(html).as_deref(),
        Some("The world is bound with secret knots. Everyday magic; magic every day.")
    );
}

#[test]
fn modern_playlist_cells_parse_without_nested_fonts() {
    let html = r#"
            <table><tbody>
              <tr>
                <td class="col_artist"><a>Artist One</a></td>
                <td class="col_song_title"><strong>Song One</strong></td>
                <td class="col_album_title">Album One</td>
                <td class="col_record_label">Label One</td>
                <td class="col_comments"><span>DJ note</span></td>
                <td class="col_live_timestamps_flag">0:00:05</td>
              </tr>
              <tr>
                <td class="col_artist">Artist Two</td>
                <td class="col_song_title">Song Two</td>
                <td class="col_album_title"></td>
                <td class="col_record_label">Label Two</td>
                <td class="col_comments"></td>
                <td class="col_live_timestamps_flag">0:03:10</td>
              </tr>
            </tbody></table>
        "#;
    let tracks = parse_playlist(html);
    assert_eq!(tracks.len(), 2);
    assert_eq!(tracks[0].artist.as_deref(), Some("Artist One"));
    assert_eq!(tracks[0].title.as_deref(), Some("Song One"));
    assert_eq!(tracks[0].album.as_deref(), Some("Album One"));
    assert_eq!(tracks[0].comments.as_deref(), Some("DJ note"));
    assert_eq!(tracks[0].start_sec, Some(5));
    assert_eq!(tracks[1].start_sec, Some(190));
}

#[test]
fn current_station_playlist_skips_recent_archive_links() {
    let html = r#"
            <a href="/playlists/shows/111">recent archive</a>
            <h2>Playing Today</h2>
            <a href="/playlists/WA">Wake</a>
            <a href="/playlists/shows/222">See the playlist</a>
        "#;
    assert_eq!(parse_current_playlist(html), Some(222));
}

#[test]
fn channel_page_config_builds_minimal_poll_url() {
    let html = r#"KDBchlnd.initialize({"poll_url":"channel_landing.php","cid":4});"#;
    assert_eq!(parse_channel_id(html), Some(4));
    assert_eq!(
        channel_nowplaying_url("https://wfmu.org/drummer", 4).as_deref(),
        Some("https://wfmu.org/channel_landing.php?cid=4&hashes%5Bnowplaying%5D=stale")
    );
}

#[test]
fn homepage_status_uses_only_the_current_playlist_row() {
    let html = r#"
          <a href="/playlists/shows/111">Recent archive</a>
          <div id="playingtoday"><table>
            <tr><td><a href="/playlists/WA">Wake</a></td></tr>
            <tr style="background-color: #DFBE3F"><td>
              <a href="/playlists/GT">Garbage Time with Matt Warwick</a>
              <a href="/playlists/shows/166344">See the playlist</a>
            </td></tr>
          </table></div>
        "#;
    let status = LiveStatusSource::Homepage.parse(html).unwrap();
    assert_eq!(status.episode_id, Some(166344));
    assert_eq!(status.show_id.as_deref(), Some("GT"));
    assert_eq!(
        status.show_name.as_deref(),
        Some("Garbage Time with Matt Warwick")
    );
    assert_eq!(status.artist, None);
}

#[test]
fn freeform_comment_playlist_parses_tracks() {
    let html = r#"
| <font size="-1">Approx. start time</font>
<br><br><br>
<span style="color: red">&gt;</span>
Nachum Segal
| Kenny G is Next
<span class="KDBFavIcon KDBsong" id="KDBsong-1456397"><a href="x">star</a></span>
<br><br>
<span style="color: red">&gt;</span>
Peter Sellers
| Singing in the rain
<span class="KDBFavIcon KDBsong" id="KDBsong-1456406"><a href="x">star</a></span>
|
0:32:14 <a href="/flashplayer.php?version=3&amp;show=58274&amp;archive=118775&amp;starttime=0:32:14">Pop-up</a>)
<br><br>
"#;
    let tracks = parse_playlist(html);
    assert_eq!(tracks.len(), 2);
    assert_eq!(tracks[0].artist.as_deref(), Some("Nachum Segal"));
    assert_eq!(tracks[0].title.as_deref(), Some("Kenny G is Next"));
    assert_eq!(tracks[0].start_sec, None);
    assert_eq!(tracks[1].artist.as_deref(), Some("Peter Sellers"));
    assert_eq!(tracks[1].title.as_deref(), Some("Singing in the rain"));
    assert_eq!(tracks[1].start_sec, Some(32 * 60 + 14));
}

#[test]
fn title_with_nested_markup_is_stripped() {
    let html = r##"<span class="KDBFavIcon KDBepisode" id="KDBepisode-15110"></span>
        May 19, 2005:
        <b><h2><font face="Verdana, Arial, Helvetica, sans-serif"><b><font color="#EE0022">Death by vinyl!!!!</font></b></font></h2></b>
        | <a href="/playlists/shows/15110">See the playlist</a>
        | Listen: <a href="/flashplayer.php?version=3&amp;show=15110&amp;archive=122625">Pop-up</a>"##;
    let eps = parse_show_page(html);
    let ep = eps.iter().find(|e| e.id == 15110).expect("episode parsed");
    assert_eq!(ep.title.as_deref(), Some("Death by vinyl!!!!"));
    assert_eq!(ep.archive_id, Some(122625));
}

#[test]
fn archive_years_extracted_from_dropdown() {
    let html = r##"<SELECT NAME="Ubu_Nav_Popup" ONCHANGE="goto_URL(this.form.Ubu_Nav_Popup)" SIZE="-3">
<OPTION VALUE="">OLDER PLAYLISTS</option>
<OPTION VALUE="">------</option>
<option value="/playlists/KG2010">2010</option>
<option value="/playlists/KG2009">2009</option>
<option value="/playlists/KG2008">2008</option>
</SELECT>"##;
    let years = parse_show_archive_years(html, "KG");
    assert_eq!(
        years,
        vec![
            "/playlists/KG2010".to_string(),
            "/playlists/KG2009".to_string(),
            "/playlists/KG2008".to_string(),
        ]
    );
}

#[test]
fn archive_years_are_newest_first() {
    let html = r##"<a href="/playlists/BK2003">2003 playlists</a> |
<a href="/playlists/BK2001">2001 playlists</a> |
<a href="/playlists/BK2002">2002 playlists</a> |"##;
    let years = parse_show_archive_years(html, "BK");
    assert_eq!(
        years,
        vec![
            "/playlists/BK2003".to_string(),
            "/playlists/BK2002".to_string(),
            "/playlists/BK2001".to_string(),
        ]
    );
}

#[test]
fn archive_years_deduped_across_dropdown_and_anchors() {
    let html = r##"<SELECT NAME="Ubu_Nav_Popup">
<option value="/playlists/KG2009">2009</option>
<option value="/playlists/KG2008">2008</option>
</SELECT>
<a href="/playlists/KG2009">2009 playlists</a> |
<a href="https://wfmu.org/playlists/KG2007">2007 playlists</a>"##;
    let years = parse_show_archive_years(html, "KG");
    assert_eq!(
        years,
        vec![
            "/playlists/KG2009".to_string(),
            "/playlists/KG2008".to_string(),
            "/playlists/KG2007".to_string(),
        ]
    );
}

#[test]
fn archive_years_tolerate_uppercase_option_markup() {
    let html = r##"<SELECT NAME="Ubu_Nav_Popup">
<OPTION VALUE="">OLDER PLAYLISTS</OPTION>
<OPTION SELECTED VALUE="/Playlists/KG2009">2009</OPTION>
<OPTION VALUE='/playlists/KG2008'>2008</OPTION>
</SELECT>"##;
    let years = parse_show_archive_years(html, "KG");
    assert_eq!(
        years,
        vec![
            "/playlists/KG2009".to_string(),
            "/playlists/KG2008".to_string(),
        ]
    );
}

#[test]
fn archive_years_ignores_non_matching_urls() {
    let html = r##"<SELECT NAME="Ubu_Nav_Popup">
<option value="/playlists/KG2009">2009</option>
<option value="/~kennyg/playlists/00.html">2000</option>
<option value="/playlists/WA2009">WA 2009 (wrong show)</option>
</SELECT>"##;
    let years = parse_show_archive_years(html, "KG");
    assert_eq!(years, vec!["/playlists/KG2009".to_string()]);
}

#[test]
fn archive_years_empty_when_no_dropdown() {
    let html = "<html><body>No dropdown here</body></html>";
    let years = parse_show_archive_years(html, "KG");
    assert!(years.is_empty());
}

#[test]
fn hms_parsing() {
    assert_eq!(parse_hms("0:05:56"), Some(356));
    assert_eq!(parse_hms("1:02:03"), Some(3723));
    assert_eq!(parse_hms("5:56"), Some(356));
    assert_eq!(parse_hms("junk"), None);
}

#[test]
fn m3u_body_resolves() {
    assert_eq!(
        parse_m3u("https://mp3archives.wfmu.org/x/y.mp3\n"),
        Some("https://mp3archives.wfmu.org/x/y.mp3".to_string())
    );
    assert_eq!(
        parse_m3u("#EXTM3U\nhttps://a/b.mp3"),
        Some("https://a/b.mp3".into())
    );
    assert_eq!(parse_m3u(""), None);
}

#[test]
fn nowplaying_fragment_reads_show_and_song() {
    let html = r#"<div class="nowplaying_program_title">"Contagious Orgasm" by Heart Station</div>
        <div class="nowplaying_live_song">on <a href="/playlists/WL">Wound Liquor with Olleh</a></div>
        <a href="/playlists/shows/166500">See the playlist</a>"#;
    let status = parse_live_nowplaying(html).expect("live status");
    assert_eq!(status.episode_id, Some(166500));
    assert_eq!(status.show_id.as_deref(), Some("WL"));
    assert_eq!(status.show_name.as_deref(), Some("Wound Liquor with Olleh"));
    assert_eq!(status.artist.as_deref(), Some("Heart Station"));
    assert_eq!(status.title.as_deref(), Some("Contagious Orgasm"));
}

#[test]
fn channel_landing_reads_the_nowplaying_section() {
    let fragment = r#"<div class="nowplaying_program_title">"Illaiyaraaja - Yennadi Meenakshi"</div>"#;
    let body = format!(
        r#"{{"changes":{{"nowplaying":{{"content":{}}}}}}}"#,
        json_string(fragment)
    );
    let status = LiveStatusSource::Channel { channel_id: 4 }
        .parse(&body)
        .expect("channel status");
    assert_eq!(status.episode_id, None);
    assert_eq!(status.artist.as_deref(), Some("Illaiyaraaja"));
    assert_eq!(status.title.as_deref(), Some("Yennadi Meenakshi"));
    assert!(LiveStatusSource::Channel { channel_id: 4 }
        .parse("not json")
        .is_none());
    assert!(LiveStatusSource::Channel { channel_id: 4 }
        .parse(r#"{"changes":{"nowplaying":{"content":5}}}"#)
        .is_none());
}

#[test]
fn configured_live_source_urls() {
    for (channel_id, expected) in [(4, "cid=4"), (6, "cid=6"), (8, "cid=8")] {
        let source = LiveStatusSource::Channel { channel_id };
        let url = source.url();
        assert!(url.contains("channel_landing.php"));
        assert!(url.contains(expected));
    }
    assert_eq!(LiveStatusSource::Homepage.url(), "https://wfmu.org/");
}

fn element(outer: &str, text: &str, attrs: &[(&str, &str)]) -> archiplayer::html::HtmlElement {
    archiplayer::html::HtmlElement {
        inner_html: text.to_string(),
        outer_html: outer.to_string(),
        text: text.to_string(),
        attrs: attrs.iter().map(|(k, v)| (k.to_string(), v.to_string())).collect(),
    }
}

#[test]
fn homepage_status_reads_selected_rows() {
    let rows = vec![
        element("<tr><td>7pm</td></tr>", "7pm", &[]),
        element(
            "<tr><td><a href=\"/playlists/WA\">Wake</a> <a href=\"/playlists/shows/166195\">see</a></td></tr>",
            "Wake see",
            &[],
        ),
    ];
    let links = vec![
        vec![],
        vec![
            element("<a href=\"/playlists/shows/166195\">see</a>", "see", &[("href", "/playlists/shows/166195")]),
            element("<a href=\"/playlists/WA\">Wake</a>", " Wake ", &[("href", "/playlists/WA")]),
        ],
    ];
    let status = archiplayer::live_pages::homepage_status_of(&rows, &links).unwrap();
    assert_eq!(status.episode_id, Some(166195));
    assert_eq!(status.show_id.as_deref(), Some("WA"));
    assert_eq!(status.show_name.as_deref(), Some("Wake"));
    let plain = vec![element("<tr><td>7pm</td></tr>", "7pm", &[])];
    assert!(archiplayer::live_pages::homepage_status_of(&plain, &vec![vec![]]).is_none());
}

#[test]
fn nowplaying_reads_selected_blocks() {
    let titles = vec![element("<div>x</div>", "\"Contagious Orgasm\" by Heart Station", &[])];
    let status = archiplayer::live_pages::nowplaying_of(Some(166500), &vec![], &vec![], &titles).unwrap();
    assert_eq!(status.episode_id, Some(166500));
    assert_eq!(status.title.as_deref(), Some("Contagious Orgasm"));
    assert_eq!(status.artist.as_deref(), Some("Heart Station"));
    assert!(archiplayer::live_pages::nowplaying_of(None, &vec![], &vec![], &vec![]).is_none());
}

#[test]
fn live_page_keeps_the_latest_twenty_tracks_in_order() {
    let history: Vec<archiplayer::wfmu::ParsedRecentTrack> = (0..22)
        .rev()
        .map(|n| archiplayer::wfmu::ParsedRecentTrack {
            source_id: format!("row-{n}"),
            artist: None,
            title: Some(format!("T{n}")),
            album: None,
            played_at: 1_000 + n,
            air_date: "2026-07-14".to_string(),
        })
        .collect();
    let page = archiplayer::rethink::live_page_from(history, None, None);
    assert_eq!(page.tracks.len(), 20);
    assert_eq!(page.tracks[0].played_at, 1_002);
    assert_eq!(page.tracks[19].played_at, 1_021);
    assert_eq!(page.updated_at, Some(1_021));
}
