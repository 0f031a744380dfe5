use vapor_forge_hooks::playtime_downlink::{
    apply_stream_snapshot, cached_entry, current_runtime_key, local_playtime_view, overlay_games,
    playtime_games, playtime_view, response_playtime_view, runtime_key, runtime_key_is_current,
    steam_game, AccountPlaytimeSnapshot, CachedPlaytime, GameTable, NotificationNumbers,
    PlayerLastPlayedGame, PlaytimeCache, PlaytimeEntry, PlaytimeView,
    LAST_PLAYED_TIMES_NOTIFICATION_JOB_NAME,
};

const NUMBERS: NotificationNumbers =
    NotificationNumbers { send_to_client: 152, proto_flag: 0x8000_0000 };

fn entries_with(apps: &[(u32, u32)]) -> Vec<PlaytimeEntry> {
    apps.iter()
        .copied()
        .map(|(app_id, minutes)| PlaytimeEntry {
            app_id,
            playtime_minutes: minutes,
            playtime_2weeks_minutes: 7,
            last_played_at: Some(1_800_000_000),
            observed_at: 1_800_000_001,
        })
        .collect()
}

fn view_with(apps: &[(u32, u32)]) -> PlaytimeView {
    PlaytimeView::Known(playtime_games(&entries_with(apps)))
}

fn view(minutes: u32) -> PlaytimeView {
    view_with(&[(480, minutes)])
}

fn empty_view() -> PlaytimeView {
    PlaytimeView::Known(GameTable::new())
}

fn stream_snapshot(app_id: u32, revision: u64, minutes: u32) -> AccountPlaytimeSnapshot {
    AccountPlaytimeSnapshot {
        steam_id64: "76561198000000001".to_owned(),
        playtime_revision: revision,
        origin_client_id: Some("7".to_owned()),
        playtime: entries_with(&[(app_id, minutes)]),
    }
}

fn game(app_id: i32, minutes: i32) -> PlayerLastPlayedGame {
    PlayerLastPlayedGame {
        app_id: Some(app_id),
        playtime_forever: Some(minutes),
        ..PlayerLastPlayedGame::default()
    }
}

#[test]
fn last_played_response_replaces_existing_controlled_apps() {
    let games = [
        PlayerLastPlayedGame {
            app_id: Some(480),
            playtime_forever: Some(12),
            playtime_2weeks: Some(1),
            last_playtime: Some(10),
            ..PlayerLastPlayedGame::default()
        },
        game(999, 99),
    ];

    let games = overlay_games(&games, &[480], &view(180), true).unwrap();
    assert_eq!(games.len(), 2);
    assert_eq!(games[0].app_id, Some(480));
    assert_eq!(games[0].playtime_forever, Some(180));
    assert_eq!(games[0].playtime_2weeks, Some(7));
    assert_eq!(games[0].last_playtime, Some(1_800_000_000));
    assert_eq!(games[1].app_id, Some(999));
    assert_eq!(games[1].playtime_forever, Some(99));
}

#[test]
fn last_played_response_appends_missing_controlled_apps_from_backend() {
    let games = overlay_games(&[game(999, 99)], &[480], &view(180), true).unwrap();
    assert_eq!(games.len(), 2);
    assert_eq!(games[0].app_id, Some(999));
    assert_eq!(games[1].app_id, Some(480));
    assert_eq!(games[1].playtime_forever, Some(180));
}

#[test]
fn last_played_notification_does_not_append_missing_controlled_apps() {
    assert!(overlay_games(&[game(999, 99)], &[480], &view(180), false).is_none());
}

#[test]
fn owned_controlled_app_keeps_steam_last_played_entry() {
    // An app that the account owns does not need the backend's playtime.
    let games = [PlayerLastPlayedGame {
        app_id: Some(482),
        playtime_forever: Some(12),
        playtime_2weeks: Some(1),
        last_playtime: Some(10),
        ..PlayerLastPlayedGame::default()
    }];
    assert!(overlay_games(&games, &[], &view_with(&[(482, 180)]), true).is_none());
}

#[test]
fn last_played_overlay_removes_controlled_apps_the_backend_does_not_hold() {
    let games = [game(480, 12), game(999, 99)];
    let games = overlay_games(&games, &[480], &empty_view(), true).unwrap();
    assert_eq!(games.len(), 1);
    assert_eq!(games[0].app_id, Some(999));
}

#[test]
fn cold_cache_leaves_steam_persisted_entries_untouched() {
    let games = [game(480, 12)];
    // A cold cache must not be read as "the backend holds nothing".
    assert!(overlay_games(&games, &[480], &PlaytimeView::Cold, true).is_none());
    assert!(
        overlay_games(&games, &[480], &empty_view(), true).is_some(),
        "a backend that holds nothing must still drop the entry"
    );
}

#[test]
fn cache_is_bound_to_runtime_fingerprint_generation_and_client() {
    let mut cache = PlaytimeCache::new();
    let key = runtime_key("credential-a".to_owned(), 76561198000000001, 2, 7, 1);
    assert!(cache
        .store_backend_playtime(key.duplicate(), 1, &entries_with(&[(480, 240)]))
        .is_some());
    assert!(cache.key.as_ref().unwrap().same(&key));
    assert_eq!(cache.games.get(480).unwrap().playtime_minutes, 240);
    let others = [
        runtime_key("credential-b".to_owned(), 76561198000000001, 2, 7, 1),
        runtime_key("credential-a".to_owned(), 76561198000000002, 2, 7, 1),
        runtime_key("credential-a".to_owned(), 76561198000000001, 3, 7, 1),
        runtime_key("credential-a".to_owned(), 76561198000000001, 2, 8, 1),
        runtime_key("credential-a".to_owned(), 76561198000000001, 2, 7, 2),
    ];
    for other in &others {
        assert!(!key.same(other));
        assert!(!runtime_key_is_current(&key, Some(other)));
        assert!(matches!(playtime_view(&cache, Some(other)), PlaytimeView::Cold));
    }
    assert!(matches!(playtime_view(&cache, Some(&key)), PlaytimeView::Known(_)));
    assert!(matches!(playtime_view(&cache, None), PlaytimeView::Cold));
    cache.clear();
    assert!(matches!(playtime_view(&cache, Some(&key)), PlaytimeView::Cold));
}

#[test]
fn stream_snapshot_builds_native_last_played_notification() {
    let mut cache = PlaytimeCache::new();
    let app_id = 246_813_579;
    let key = runtime_key("credential-stream".to_owned(), 76561198000000001, 9, 7, 1);
    let packet =
        apply_stream_snapshot(&mut cache, key, &stream_snapshot(app_id, 4, 321), &[app_id], NUMBERS)
            .unwrap();

    assert_eq!(packet.emsg, NUMBERS.send_to_client | NUMBERS.proto_flag);
    assert_eq!(packet.steam_id64, 76561198000000001);
    assert_eq!(packet.target_job_name, LAST_PLAYED_TIMES_NOTIFICATION_JOB_NAME);
    assert_eq!(packet.games.len(), 1);
    assert_eq!(packet.games[0].app_id, Some(app_id as i32));
    assert_eq!(packet.games[0].playtime_forever, Some(321));
    assert_eq!(packet.games[0].playtime_2weeks, Some(7));
}

#[test]
fn older_stream_revision_cannot_replace_newer_cache() {
    let mut cache = PlaytimeCache::new();
    let app_id = 246_813_580;
    let key = runtime_key("credential-order".to_owned(), 76561198000000001, 10, 8, 1);
    assert!(apply_stream_snapshot(
        &mut cache,
        key.duplicate(),
        &stream_snapshot(app_id, 8, 500),
        &[app_id],
        NUMBERS,
    )
    .is_some());
    assert!(apply_stream_snapshot(
        &mut cache,
        key,
        &stream_snapshot(app_id, 7, 100),
        &[app_id],
        NUMBERS,
    )
    .is_none());
    assert_eq!(cache.revision, 8);
    assert_eq!(cache.games.get(app_id).unwrap().playtime_minutes, 500);
}

#[test]
fn an_overlaid_list_is_not_changed_again() {
    let games = overlay_games(&[game(480, 12), game(999, 99)], &[480], &view(180), true).unwrap();
    assert!(overlay_games(&games, &[480], &view(180), true).is_none());
}

#[test]
fn entries_that_steam_cannot_show_are_left_out() {
    let mut entry = entries_with(&[(480, u32::MAX)])[0];
    let cached = cached_entry(&entry).unwrap();
    assert_eq!(
        cached,
        CachedPlaytime {
            app_id: 480,
            playtime_minutes: u32::MAX,
            playtime_2weeks_minutes: 7,
            last_played_at: Some(1_800_000_000),
        }
    );
    assert_eq!(steam_game(cached).unwrap().playtime_forever, Some(i32::MAX));
    entry.app_id = 0;
    assert!(cached_entry(&entry).is_none());
}

#[test]
fn a_key_needs_a_credential_a_device_and_an_account() {
    let known = current_runtime_key(Some("a".to_owned()), Some(7), 1, 2, 3).unwrap();
    assert!(known.same(&runtime_key("a".to_owned(), 1, 2, 7, 3)));
    assert!(current_runtime_key(None, Some(7), 1, 2, 3).is_none());
    assert!(current_runtime_key(Some("a".to_owned()), None, 1, 2, 3).is_none());
    assert!(current_runtime_key(Some("a".to_owned()), Some(7), 0, 2, 3).is_none());
}

#[test]
fn a_local_cloud_answers_only_for_the_opened_account() {
    let key = runtime_key("a".to_owned(), 76561198000000001, 2, 7, 1);
    let entries = entries_with(&[(480, 5)]);
    let known = local_playtime_view(Some(&key), Some("a"), Some(&entries), true);
    assert!(matches!(known, PlaytimeView::Known(_)));
    let stale = local_playtime_view(Some(&key), Some("a"), Some(&entries), false);
    assert!(matches!(stale, PlaytimeView::Cold));
    let unread = local_playtime_view(Some(&key), Some("a"), None, true);
    assert!(matches!(unread, PlaytimeView::Cold));
    let cache = PlaytimeCache::new();
    let remote = response_playtime_view(false, &cache, Some(&key), None, None, true);
    assert!(matches!(remote, PlaytimeView::Cold));
}

#[test]
fn changes_are_announced_by_ascending_app_id() {
    let mut cache = PlaytimeCache::new();
    let key = runtime_key("credential-a".to_owned(), 76561198000000001, 2, 7, 1);
    let changed =
        cache.store_backend_playtime(key.duplicate(), 1, &entries_with(&[(620, 1), (480, 2)]));
    let ids: Vec<u32> = changed.unwrap().iter().map(|entry| entry.app_id).collect();
    assert_eq!(ids, vec![480, 620]);
    let changed =
        cache.store_backend_playtime(key, 2, &entries_with(&[(620, 5), (480, 2), (0, 9)])).unwrap();
    assert_eq!(changed.len(), 1);
    assert_eq!((changed[0].app_id, changed[0].playtime_minutes), (620, 5));
    assert_eq!(cache.games.app_ids(), vec![480, 620]);
    assert_eq!(LAST_PLAYED_TIMES_NOTIFICATION_JOB_NAME, "PlayerClient.NotifyLastPlayedTimes#1");
}
