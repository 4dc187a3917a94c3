use archiplayer::audio::{
    player_offset, resolve_audio_step, validate_audio_url, AudioAction, AudioEvent,
    AudioResolveState, OffsetSource,
};

fn episode(
    downloaded: bool,
    path: Option<&str>,
    exists: bool,
    audio_url: Option<&str>,
    archive_id: Option<i64>,
    offset_sec: Option<i64>,
) -> AudioEvent {
    AudioEvent::Episode {
        downloaded,
        download_path: path.map(str::to_string),
        file_exists: exists,
        audio_url: audio_url.map(str::to_string),
        archive_id,
        offset_sec,
    }
}

#[test]
fn audio_urls_must_be_http() {
    assert_eq!(
        validate_audio_url("https://mp3archives.wfmu.org/a/b.mp3"),
        Ok("https://mp3archives.wfmu.org/a/b.mp3".to_string())
    );
    assert_eq!(validate_audio_url("HTTP://Example.org"), Ok("http://example.org/".to_string()));
    assert_eq!(
        validate_audio_url("ftp://example.org/x.mp3"),
        Err("unsupported audio URL scheme: ftp".to_string())
    );
    assert!(validate_audio_url("not a url").unwrap_err().starts_with("invalid audio URL: "));
}

#[test]
fn a_downloaded_file_that_exists_is_played_first() {
    let start = AudioResolveState::Start { episode_id: 7 };
    let (next, action) = resolve_audio_step(
        &start,
        episode(true, Some("/tmp/x.mp3"), true, Some("https://a/b.mp3"), Some(9), Some(12)),
    );
    assert_eq!(next, AudioResolveState::Done);
    assert!(matches!(action, AudioAction::UseLocal { ref path, offset: OffsetSource::Known(12) } if path == "/tmp/x.mp3"));
}

#[test]
fn a_valid_cached_url_is_played_and_the_offset_is_fetched_when_missing() {
    let start = AudioResolveState::Start { episode_id: 7 };
    let (next, action) =
        resolve_audio_step(&start, episode(true, Some("/gone.mp3"), false, Some("https://a/b.mp3"), Some(9), None));
    assert_eq!(next, AudioResolveState::Done);
    match action {
        AudioAction::UseCached { url, offset: OffsetSource::FetchPlayer { url: player } } => {
            assert_eq!(url, "https://a/b.mp3");
            assert_eq!(player, "https://wfmu.org/archiveplayer/?show=7&archive=9");
        }
        other => panic!("unexpected {other:?}"),
    }
}

#[test]
fn an_episode_without_archive_goes_through_its_playlist_and_player() {
    let start = AudioResolveState::Start { episode_id: 7 };
    let (s1, a1) = resolve_audio_step(&start, episode(false, None, false, Some("ftp://x"), None, None));
    assert_eq!(s1, AudioResolveState::AwaitPlaylist { episode_id: 7 });
    assert!(matches!(a1, AudioAction::FetchPlaylist { ref url } if url == "https://wfmu.org/playlists/shows/7"));

    let (s2, a2) = resolve_audio_step(&s1, AudioEvent::PlaylistPage("<p>nothing</p>".into()));
    assert_eq!(s2, AudioResolveState::Done);
    assert!(matches!(a2, AudioAction::Fail { ref message } if message == "this episode has no audio archive (playlist only)"));

    let s3 = AudioResolveState::AwaitPlayer { episode_id: 7, archive_id: 9 };
    let page = r#"<body data-offset="370"><audio src="https://s3.amazonaws.com/arch.wfmu.org/BT/bt.mp4"></audio>"#;
    let (s4, a4) = resolve_audio_step(&s3, AudioEvent::PlayerPage(page.into()));
    assert_eq!(s4, AudioResolveState::Done);
    assert!(matches!(a4, AudioAction::Resolved { ref url, offset_sec: 370 } if url == "https://s3.amazonaws.com/arch.wfmu.org/BT/bt.mp4"));
}

#[test]
fn the_m3u_feed_is_the_fallback() {
    let s = AudioResolveState::AwaitPlayer { episode_id: 7, archive_id: 9 };
    let (s1, a1) = resolve_audio_step(&s, AudioEvent::PlayerPage("<p>no audio</p>".into()));
    assert_eq!(s1, AudioResolveState::AwaitM3u { episode_id: 7, archive_id: 9, offset_sec: 0 });
    assert!(matches!(a1, AudioAction::FetchM3u { ref url } if url == "https://wfmu.org/listen.m3u?show=7&archive=9"));
    let (_, a2) = resolve_audio_step(&s1, AudioEvent::M3uBody("#EXTM3U\nhttps://a/b.mp3\n".into()));
    assert!(matches!(a2, AudioAction::Resolved { ref url, offset_sec: 0 } if url == "https://a/b.mp3"));
    let (_, a3) = resolve_audio_step(&s1, AudioEvent::M3uBody(String::new()));
    assert!(matches!(a3, AudioAction::Fail { .. }));
    assert_eq!(player_offset("<body>"), 0);
}
