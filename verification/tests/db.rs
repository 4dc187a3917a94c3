use archiplayer::history::{provider_sync_plan, ProviderStep, RowRef};
use archiplayer::db::{episode_order, observation_plan, snapshot_plan, tracks_stale, TrackSyncMode};
use archiplayer::wfmu::ParsedTrack;

#[test]
fn refreshed_episodes_keep_page_order_then_cached_tail() {
    assert_eq!(episode_order(&[5, 4, 5, 3], &[9, 4, 8, 3]), vec![5, 4, 3, 9, 8]);
    assert_eq!(episode_order(&[], &[2, 1]), vec![2, 1]);
    assert_eq!(episode_order(&[7], &[]), vec![7]);
}

#[test]
fn snapshot_reuses_rows_and_drops_a_shrunken_tail() {
    let existing = [(0, 100), (1, 101), (2, 102), (3, 103)];
    let plan = snapshot_plan(&existing, 2);
    assert_eq!(plan.reuse, vec![Some(100), Some(101)]);
    assert_eq!(plan.remove, vec![102, 103]);
    let grown = snapshot_plan(&existing, 5);
    assert_eq!(grown.reuse, vec![Some(100), Some(101), Some(102), Some(103), None]);
    assert!(grown.remove.is_empty());
}

#[test]
fn an_empty_snapshot_keeps_the_cached_playlist() {
    let existing = [(0, 100), (1, 101)];
    let plan = snapshot_plan(&existing, 0);
    assert!(plan.reuse.is_empty());
    assert!(plan.remove.is_empty());
}

fn song(artist: Option<&str>, title: Option<&str>) -> ParsedTrack {
    ParsedTrack {
        artist: artist.map(str::to_string),
        title: title.map(str::to_string),
        album: None,
        label: None,
        comments: None,
        start_sec: None,
    }
}

#[test]
fn observations_only_append_changed_songs() {
    let polled = [
        song(Some("A"), Some("x")),
        song(Some("A"), Some("x")),
        song(Some("B"), Some("y")),
        song(Some("A"), Some("x")),
    ];
    assert_eq!(observation_plan(None, &polled), vec![(0, 0), (1, 2), (2, 3)]);
    let previous = Some((6, Some("A".to_string()), Some("x".to_string())));
    assert_eq!(observation_plan(previous, &polled), vec![(7, 2), (8, 3)]);
}

#[test]
fn stale_playlists_are_refreshed() {
    assert!(tracks_stale(None, 100, 30));
    assert!(tracks_stale(Some(70), 100, 30));
    assert!(!tracks_stale(Some(71), 100, 30));
    assert!(!tracks_stale(Some(200), 100, 30));
    assert_ne!(TrackSyncMode::Snapshot, TrackSyncMode::AppendObservations);
}

fn row(id: i64, seq: i64, artist: &str, title: &str, source: Option<&str>) -> archiplayer::history::TrackRow {
    archiplayer::history::TrackRow {
        id,
        seq,
        artist: Some(artist.to_string()),
        title: Some(title.to_string()),
        source_id: source.map(str::to_string),
    }
}

fn recent(source: &str, artist: &str, title: &str) -> archiplayer::wfmu::ParsedRecentTrack {
    archiplayer::wfmu::ParsedRecentTrack {
        source_id: source.to_string(),
        artist: Some(artist.to_string()),
        title: Some(title.to_string()),
        album: None,
        played_at: 1_752_500_000,
        air_date: "2026-07-14".to_string(),
    }
}

#[test]
fn provider_history_updates_upgrades_and_inserts_once() {
    let rows = vec![
        row(1, 0, "Alice", "Signal", None),
        row(2, 1, "Alice", "Signal", None),
        row(3, 2, "Bob", "Noise", Some("wfmugtd:row-9")),
    ];
    let tracks = vec![
        recent("row-9", "Bob", "Noise (edit)"),
        recent("row-1", "Alice", "Signal"),
        recent("row-2", "Carol", "Transmission"),
        recent("row-2", "Carol", "Transmission"),
    ];
    let steps = provider_sync_plan(&rows, "wfmugtd", &tracks, 3);
    assert_eq!(
        steps,
        vec![
            ProviderStep::Update { row: RowRef::Stored(3), track: 0 },
            ProviderStep::Update { row: RowRef::Stored(2), track: 1 },
            ProviderStep::Insert { seq: 3, track: 2 },
            ProviderStep::Update { row: RowRef::Added(0), track: 3 },
        ]
    );
    // The rows as stored after that merge: a second merge only updates.
    let merged = vec![
        row(1, 0, "Alice", "Signal", None),
        row(2, 1, "Alice", "Signal", Some("wfmugtd:row-1")),
        row(3, 2, "Bob", "Noise (edit)", Some("wfmugtd:row-9")),
        row(4, 3, "Carol", "Transmission", Some("wfmugtd:row-2")),
    ];
    let again = provider_sync_plan(&merged, "wfmugtd", &tracks, 4);
    assert!(again.iter().all(|s| matches!(s, ProviderStep::Update { .. })));
}
