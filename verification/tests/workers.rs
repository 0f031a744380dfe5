use vapor_forge_hooks::account_downlink_worker::{
    baseline_stats_apps, ensure_started as ensure_downlink_started, finish_run, finish_start,
    notify_context_changed as follow_context, process_baseline, process_event, process_playtime,
    process_stats_wakeup, receive_event, snapshot_is_valid, wakeup_is_valid, AccountStatsWakeup,
    AccountStreamEvent, AccountSyncState, ActiveStreams, RetryBackoff, RunAction, RunEvent,
    RunState, StreamEnd, WorkerState,
};
use vapor_forge_hooks::achievement_worker::{
    decode_store_commit, ensure_started, finish_official_snapshot, finish_start as finish_upload,
    finish_store_commit, has_pending_stats, next_achievement_attempt_at, notify_context_changed,
    notify_principal_available,
    official_achievements, persist_store_commit, queue_official_snapshot, queue_schema,
    refresh_is_due, refused_app_result, snapshot_verdict, stats_awaiting_snapshot, unlocked_at,
    upload_delay, upload_identity, AchievementState, AppStatsUploadResult, DeviceBindingGate,
    DeviceDescriptor, SchemaBackend, SchemaVerdict, SnapshotVerdict, StartAction, StatsCommit,
    StatsOwner, StoreCommitPersistence, StoreStatsRequest, UploadAction, UploadEvent, UploadState,
    WorkerSlot,
};
use vapor_forge_hooks::playtime_downlink::{
    playtime_view, runtime_key, AccountPlaytimeSnapshot, NotificationNumbers, PlaytimeCache,
    PlaytimeEntry,
    PlaytimeView, RuntimeKey,
};
use vapor_forge_hooks::steam_session::{AchievementSnapshot, StatState};

const ACHIEVEMENT_UNLOCK_TIME_UNKNOWN: u32 = u32::MAX;

const NUMBERS: NotificationNumbers =
    NotificationNumbers { send_to_client: 152, proto_flag: 0x8000_0000 };

const EMSG_STORE_USERSTATS2: u32 = 5466;

fn entry(app_id: u32) -> PlaytimeEntry {
    PlaytimeEntry {
        app_id,
        playtime_minutes: 42,
        playtime_2weeks_minutes: 3,
        last_played_at: Some(100),
        observed_at: 101,
    }
}

fn snapshot(revision: u64) -> AccountPlaytimeSnapshot {
    AccountPlaytimeSnapshot {
        steam_id64: "76561198000000001".to_owned(),
        playtime_revision: revision,
        origin_client_id: Some("7".to_owned()),
        playtime: vec![entry(480)],
    }
}

fn wakeup(steam_id64: &str, app_ids: Vec<u32>) -> AccountStatsWakeup {
    AccountStatsWakeup {
        steam_id64: steam_id64.to_owned(),
        origin_client_id: Some("91".to_owned()),
        app_ids,
    }
}

#[test]
fn retry_backoff_is_bounded_and_resettable() {
    let mut retry = RetryBackoff::new();
    assert_eq!(retry.take_delay(), 2);
    assert_eq!(retry.take_delay(), 4);
    assert_eq!(retry.take_delay(), 8);
    assert_eq!(retry.take_delay(), 16);
    assert_eq!(retry.take_delay(), 30);
    assert_eq!(retry.take_delay(), 30);

    retry.reset();
    assert_eq!(retry.take_delay(), 2);
}

#[test]
fn validates_exact_account_revision_and_unique_apps() {
    assert!(snapshot_is_valid(76_561_198_000_000_001, &snapshot(1)));
    assert!(!snapshot_is_valid(76_561_198_000_000_002, &snapshot(1)));
    assert!(!snapshot_is_valid(76_561_198_000_000_001, &snapshot(0)));

    let mut duplicate = snapshot(2);
    let first = duplicate.playtime[0];
    duplicate.playtime.push(first);
    assert!(!snapshot_is_valid(76_561_198_000_000_001, &duplicate));
}

#[test]
fn validates_stats_wakeup_identity_and_unique_apps() {
    let good = wakeup("76561198000000001", vec![620, 480]);
    assert!(wakeup_is_valid(76_561_198_000_000_001, &good));

    let duplicate = wakeup("76561198000000001", vec![620, 620]);
    assert!(!wakeup_is_valid(76_561_198_000_000_001, &duplicate));

    let wrong_account = wakeup("76561198000000002", vec![620, 480]);
    assert!(!wakeup_is_valid(76_561_198_000_000_001, &wrong_account));
}

#[test]
fn a_wakeup_wakes_the_controlled_apps_of_its_account() {
    let good = wakeup("76561198000000001", vec![620, 480, 10]);
    assert_eq!(process_stats_wakeup(76_561_198_000_000_001, &good, &[480, 620]), vec![620, 480]);
    assert!(process_stats_wakeup(76_561_198_000_000_002, &good, &[480, 620]).is_empty());
}

#[test]
fn a_baseline_names_each_app_once() {
    let state = AccountSyncState {
        stats_crc_apps: vec![620, 480],
        achievement_apps: vec![480, 10],
        stat_apps: vec![10, 570],
        playtime_revision: 4,
        playtime: vec![entry(480)],
    };
    assert_eq!(baseline_stats_apps(&state), vec![10, 480, 570, 620]);
    let (playtime, stats) = process_baseline(76_561_198_000_000_001, state);
    assert_eq!(playtime.steam_id64, "76561198000000001");
    assert_eq!(playtime.playtime_revision, 4);
    assert!(playtime.origin_client_id.is_none());
    assert_eq!(stats.unwrap().app_ids, vec![10, 480, 570, 620]);
}

#[test]
fn a_worker_is_spawned_once() {
    let mut state = WorkerState::Stopped;
    assert!(ensure_downlink_started(&mut state));
    assert!(!ensure_downlink_started(&mut state));
    finish_start(&mut state, true);
    assert!(!ensure_downlink_started(&mut state));

    let mut failed = WorkerState::Stopped;
    assert!(ensure_downlink_started(&mut failed));
    finish_start(&mut failed, false);
    assert!(ensure_downlink_started(&mut failed));
}

#[test]
fn a_stream_that_received_something_retries_from_the_start() {
    let mut state = RunState::new(1);
    assert_eq!(state.run(RunEvent::Resumed, 1), RunAction::CheckPrerequisites);
    assert_eq!(state.run(RunEvent::Prerequisites { met: true }, 1), RunAction::ResolvePrincipal);
    assert_eq!(
        state.run(RunEvent::PrincipalFailed { retryable: true }, 1),
        RunAction::WaitForRetry { revision: 1, seconds: 2 }
    );
    assert_eq!(state.run(RunEvent::Resumed, 1), RunAction::CheckPrerequisites);
    assert_eq!(
        state.run(
            RunEvent::StreamEnded {
                received_event: true,
                end: StreamEnd::Failed { retryable: true },
            },
            1,
        ),
        RunAction::WaitForRetry { revision: 1, seconds: 2 }
    );
}

#[test]
fn a_stream_of_another_account_is_cancelled() {
    let mut streams = ActiveStreams::new();
    let key = || runtime_key("credential-a".to_owned(), 76561198000000001, 2, 7, 1);
    let other = runtime_key("credential-b".to_owned(), 76561198000000001, 2, 7, 1);
    let token = streams.activate_stream(key());
    assert_eq!(streams.cancel_active_stream_if_stale(Some(&key())), None);
    assert_eq!(streams.cancel_active_stream_if_stale(Some(&other)), Some(token));
    assert_eq!(streams.cancel_active_stream_if_stale(None), Some(token));
    streams.finish_stream(token);
    assert_eq!(streams.cancel_active_stream_if_stale(None), None);
}

#[test]
fn unlock_time_is_kept_only_when_it_is_authoritative() {
    let unknown = ACHIEVEMENT_UNLOCK_TIME_UNKNOWN;
    assert_eq!(unlocked_at(true, 1_515_505_966, unknown), Some(1_515_505_966));
    assert_eq!(unlocked_at(true, 0, unknown), None);
    assert_eq!(unlocked_at(true, ACHIEVEMENT_UNLOCK_TIME_UNKNOWN, unknown), None);
    // ClearAchievement leaves Steam's per-bit time behind, so a time read
    // back for a locked achievement describes the previous unlock.
    assert_eq!(unlocked_at(false, 1_515_505_966, unknown), None);
    assert_eq!(unlocked_at(false, 0, unknown), None);
}

fn store_request(stat_ids: Vec<Option<u32>>) -> StoreStatsRequest {
    StoreStatsRequest { settee_steam_id: Some(11), crc_stats: Some(19), stat_ids }
}

#[test]
fn store_stats2_rejects_another_settee() {
    let request = store_request(Vec::new());
    let store = EMSG_STORE_USERSTATS2;
    assert!(decode_store_commit(store, EMSG_STORE_USERSTATS2, Some(&request), 11).is_ok());
    assert!(decode_store_commit(store, EMSG_STORE_USERSTATS2, Some(&request), 12).is_err());
}

#[test]
fn a_store_needs_a_readable_request() {
    let request = store_request(vec![Some(3), None, Some(1), Some(3)]);
    let store = EMSG_STORE_USERSTATS2;
    assert_eq!(
        decode_store_commit(store, EMSG_STORE_USERSTATS2, Some(&request), 11),
        Ok((Some(19), vec![3, 1, 3]))
    );
    assert!(decode_store_commit(store, EMSG_STORE_USERSTATS2, None, 11).is_err());
    assert_eq!(
        decode_store_commit(7, EMSG_STORE_USERSTATS2, Some(&request), 12),
        Ok((None, Vec::new()))
    );
}

fn owner(is_current: bool) -> StatsOwner {
    StatsOwner { is_current, principal_scope: "scope".to_owned(), steam_id64: 11 }
}

fn persisted(
    request: Option<&StoreStatsRequest>,
    owner: &StatsOwner,
    journal_available: bool,
) -> Result<StatsCommit, StoreCommitPersistence> {
    let store = EMSG_STORE_USERSTATS2;
    let id = "c1".to_owned();
    persist_store_commit(480, store, store, request, owner, journal_available, id, 100)
}

#[test]
fn a_commit_is_persisted_only_for_its_owner() {
    let request = StoreStatsRequest {
        settee_steam_id: Some(11),
        crc_stats: Some(19),
        stat_ids: vec![Some(3), None, Some(1), Some(3)],
    };
    let commit = match persisted(Some(&request), &owner(true), true) {
        Ok(commit) => commit,
        Err(_) => panic!("expected a commit"),
    };
    assert_eq!(commit.owner_scope, "scope");
    assert_eq!(commit.owner_steam_id64, "11");
    assert_eq!((commit.commit_id.as_str(), commit.app_id), ("c1", 480));
    assert_eq!(commit.base_crc_stats, Some(19));
    assert_eq!(commit.dirty_stat_ids, vec![1, 3]);
    assert_eq!(commit.observed_at, 100);
    assert_eq!(
        persisted(Some(&request), &owner(false), true).err(),
        Some(StoreCommitPersistence::Stale)
    );
    assert_eq!(
        persisted(None, &owner(true), true).err(),
        Some(StoreCommitPersistence::InvalidRequest)
    );
    assert_eq!(
        persisted(Some(&request), &owner(true), false).err(),
        Some(StoreCommitPersistence::Failed)
    );
    assert_eq!(finish_store_commit(true, true, true), StoreCommitPersistence::Persisted);
    assert_eq!(finish_store_commit(false, true, true), StoreCommitPersistence::Stale);
    assert_eq!(finish_store_commit(true, true, false), StoreCommitPersistence::Failed);
}

#[test]
fn permanent_device_binding_failure_waits_for_a_context_change() {
    let mut gate = DeviceBindingGate::default();
    gate.record_failure(7, false);

    assert!(!gate.allows(7));
    assert_eq!(gate.deadline(7, Some(10)), None);
    assert!(gate.allows(8));
    assert_eq!(gate.deadline(8, Some(10)), Some(10));

    gate.record_failure(8, true);
    assert!(gate.allows(8));
    assert_eq!(gate.deadline(8, Some(10)), Some(10));

    gate.record_failure(8, false);
    gate.record_success();
    assert!(gate.allows(8));
}

#[test]
fn the_upload_worker_needs_a_journal() {
    assert_eq!(ensure_started(WorkerSlot::Running, false), StartAction::Use);
    assert_eq!(ensure_started(WorkerSlot::Absent, false), StartAction::Unavailable);
    assert_eq!(ensure_started(WorkerSlot::Absent, true), StartAction::Spawn);
    let mut slot = WorkerSlot::Absent;
    assert!(!finish_upload(&mut slot, false));
    assert_eq!(slot, WorkerSlot::Absent);
    assert!(finish_upload(&mut slot, true));
    assert_eq!(slot, WorkerSlot::Running);
    assert_eq!(ensure_started(slot, true), StartAction::Use);
    let notice = notify_context_changed(WorkerSlot::Absent, 7);
    assert_eq!((notice.generation, notice.wakes), (8, false));
    let notice = notify_context_changed(slot, u64::MAX);
    assert_eq!((notice.generation, notice.wakes), (0, true));
}

#[test]
fn an_upload_burst_settles_schemas_before_snapshots() {
    let mut state = UploadState::new();
    assert_eq!(state.upload_loop(UploadEvent::Woken), UploadAction::StartBurst);
    let due = UploadEvent::Deadline { generation: 3, next: Some(5), now: 5 };
    assert_eq!(state.upload_loop(due), UploadAction::FindBackend);
    assert_eq!(
        state.upload_loop(UploadEvent::Backend { available: true }),
        UploadAction::BindDevice
    );
    assert_eq!(state.upload_loop(UploadEvent::Bound), UploadAction::AttributeSchemas);
    assert_eq!(
        state.upload_loop(UploadEvent::Attributed { ok: true }),
        UploadAction::ListSchemas
    );
    assert_eq!(
        state.upload_loop(UploadEvent::Schemas { count: Some(1) }),
        UploadAction::UploadSchema { index: 0 }
    );
    assert_eq!(
        state.upload_loop(UploadEvent::SchemaUploaded { verdict: SchemaVerdict::Accepted }),
        UploadAction::SettleSchema { index: 0, acknowledge: true }
    );
    assert_eq!(state.upload_loop(UploadEvent::Settled), UploadAction::FindIdentity);
    assert_eq!(
        state.upload_loop(UploadEvent::Identity { identity: true, scope: true }),
        UploadAction::ListSnapshots
    );
    assert_eq!(
        state.upload_loop(UploadEvent::Snapshots { count: Some(1) }),
        UploadAction::UploadSnapshot { index: 0 }
    );
    assert_eq!(
        state.upload_loop(UploadEvent::SnapshotUploaded { verdict: SnapshotVerdict::Stored }),
        UploadAction::SettleSnapshot { index: 0, acknowledge: true }
    );
}

#[test]
fn a_permanent_binding_failure_ends_the_burst() {
    let mut state = UploadState::new();
    state.upload_loop(UploadEvent::Woken);
    state.upload_loop(UploadEvent::Deadline { generation: 3, next: Some(5), now: 5 });
    state.upload_loop(UploadEvent::Backend { available: true });
    state.upload_loop(UploadEvent::BindingFailed { retryable: false });
    assert!(!state.gate.allows(3));
    assert!(state.gate.allows(4));
    assert_eq!(
        state.upload_loop(UploadEvent::Deadline { generation: 3, next: Some(5), now: 5 }),
        UploadAction::Wait { next_attempt_at: None }
    );
    state.upload_loop(UploadEvent::Woken);
    assert_eq!(
        state.upload_loop(UploadEvent::Deadline { generation: 3, next: Some(5), now: 5 }),
        UploadAction::ReadNextDeadline
    );
}

#[test]
fn a_refused_snapshot_is_reopened_and_read_again() {
    let mut state = UploadState::new();
    state.upload_loop(UploadEvent::Woken);
    state.upload_loop(UploadEvent::Deadline { generation: 3, next: Some(5), now: 5 });
    state.upload_loop(UploadEvent::Backend { available: true });
    state.upload_loop(UploadEvent::Bound);
    state.upload_loop(UploadEvent::Attributed { ok: true });
    assert_eq!(
        state.upload_loop(UploadEvent::Schemas { count: Some(0) }),
        UploadAction::FindIdentity
    );
    state.upload_loop(UploadEvent::Identity { identity: true, scope: true });
    state.upload_loop(UploadEvent::Snapshots { count: Some(2) });
    let refused = AppStatsUploadResult { app_id: 480, out_of_date: true, crc_stats: 9 };
    let verdict = snapshot_verdict(480, &[refused]);
    assert_eq!(
        state.upload_loop(UploadEvent::SnapshotUploaded { verdict }),
        UploadAction::ReopenSnapshot { index: 0, crc_stats: 9 }
    );
    assert_eq!(
        state.upload_loop(UploadEvent::Reopened { reopened: true }),
        UploadAction::RefreshSnapshot { index: 0 }
    );
    assert_eq!(
        state.upload_loop(UploadEvent::Settled),
        UploadAction::UploadSnapshot { index: 1 }
    );
    let verdict = SnapshotVerdict::Failed { retryable: true };
    assert_eq!(
        state.upload_loop(UploadEvent::SnapshotUploaded { verdict }),
        UploadAction::SettleSnapshot { index: 1, acknowledge: false }
    );
    assert_eq!(state.upload_loop(UploadEvent::Settled), UploadAction::ReadDeadline);
}

#[test]
fn the_next_upload_is_the_earliest_deadline() {
    assert_eq!(upload_delay(None, 10), None);
    assert_eq!(upload_delay(Some(15), 10), Some(5));
    assert_eq!(upload_delay(Some(5), 10), Some(2));
    assert_eq!(
        next_achievement_attempt_at(true, Some(Some(9)), Some(None), true, Some(Some(7))),
        Some(7)
    );
    assert_eq!(
        next_achievement_attempt_at(true, Some(Some(9)), Some(Some(8)), false, None),
        Some(8)
    );
}

#[test]
fn a_refused_app_is_found_among_the_results() {
    let stored = AppStatsUploadResult { app_id: 480, out_of_date: false, crc_stats: 1 };
    let refused = AppStatsUploadResult { app_id: 620, out_of_date: true, crc_stats: 2 };
    assert_eq!(refused_app_result(620, &[stored, refused]), Some(refused));
    assert_eq!(refused_app_result(480, &[stored, refused]), None);
    assert_eq!(snapshot_verdict(480, &[stored, refused]), SnapshotVerdict::Stored);
}

#[test]
fn a_snapshot_keeps_the_times_that_are_known() {
    let states = [
        AchievementState { key: "A".to_owned(), unlocked: true, unlock_time: 12 },
        AchievementState { key: "B".to_owned(), unlocked: false, unlock_time: 12 },
    ];
    let official = official_achievements(&states, ACHIEVEMENT_UNLOCK_TIME_UNKNOWN);
    assert_eq!(official.len(), 2);
    assert_eq!((official[0].key.as_str(), official[0].unlocked_at), ("A", Some(12)));
    assert_eq!((official[1].unlocked, official[1].unlocked_at), (false, None));
}

fn commit(app_id: u32) -> StatsCommit {
    StatsCommit {
        owner_scope: "scope".to_owned(),
        owner_steam_id64: "11".to_owned(),
        commit_id: "c1".to_owned(),
        app_id,
        base_crc_stats: Some(19),
        dirty_stat_ids: vec![1, 3],
        observed_at: 100,
    }
}

fn held() -> AchievementSnapshot {
    AchievementSnapshot {
        app_id: 480,
        achievements: vec![AchievementState {
            key: "A".to_owned(),
            unlocked: true,
            unlock_time: 12,
        }],
        stats: vec![StatState {
            key: "S".to_owned(),
            value_type: "int".to_owned(),
            value: "5".to_owned(),
        }],
    }
}

#[test]
fn a_snapshot_is_written_only_for_a_current_controlled_app() {
    let unknown = ACHIEVEMENT_UNLOCK_TIME_UNKNOWN;
    let queue = |app_id: u32, current: bool, controlled: bool, journal: bool| {
        queue_official_snapshot(held(), &commit(app_id), current, controlled, journal, unknown, 200)
    };
    let official = match queue(480, true, true, true) {
        Ok(official) => official,
        Err(_) => panic!("expected a snapshot"),
    };
    assert_eq!(official.commit_id, "c1");
    assert_eq!((official.owner_scope.as_str(), official.owner_steam_id64.as_str()), ("scope", "11"));
    assert_eq!((official.app_id, official.base_crc_stats), (480, Some(19)));
    assert_eq!(official.dirty_stat_ids, vec![1, 3]);
    assert_eq!(official.achievements[0].unlocked_at, Some(12));
    assert_eq!(official.stats[0].value, "5");
    assert_eq!(official.observed_at, 200);
    assert_eq!(queue(620, true, true, true).err(), Some(true));
    assert_eq!(queue(480, false, true, true).err(), Some(true));
    assert_eq!(queue(480, true, false, true).err(), Some(true));
    assert_eq!(queue(480, true, true, false).err(), Some(false));
    assert!(finish_official_snapshot(true, Some(true)));
    assert!(!finish_official_snapshot(true, None));
    let markers = || Some(vec![Some(commit(480)), None, Some(commit(620))]);
    let waiting = stats_awaiting_snapshot(true, true, true, markers());
    let apps: Vec<u32> = waiting.iter().map(|commit| commit.app_id).collect();
    assert_eq!(apps, vec![480, 620]);
    assert!(stats_awaiting_snapshot(true, true, false, markers()).is_empty());
    assert!(stats_awaiting_snapshot(true, true, true, None).is_empty());
    assert!(has_pending_stats(true, Some(true)));
    assert!(!has_pending_stats(false, Some(true)));
}

#[test]
fn a_refresh_is_due_for_the_commit_that_was_refused() {
    assert!(refresh_is_due(Some("scope"), 7, "scope", "7", Some("c1"), "c1"));
    assert!(!refresh_is_due(Some("other"), 7, "scope", "7", Some("c1"), "c1"));
    assert!(!refresh_is_due(Some("scope"), 8, "scope", "7", Some("c1"), "c1"));
    assert!(!refresh_is_due(Some("scope"), 7, "scope", "7", Some("c2"), "c1"));
    assert!(!refresh_is_due(None, 7, "scope", "7", Some("c1"), "c1"));
}

#[test]
fn a_schema_goes_to_the_backend_that_takes_schemas() {
    let backend =
        SchemaBackend { accepts_schemas: true, endpoint_scope: "scope".to_owned() };
    let schema = queue_schema(480, Some("3".to_owned()), vec![1, 2], Some(&backend), true).unwrap();
    assert_eq!((schema.app_id, schema.owner_scope.as_str()), (480, "scope"));
    assert_eq!(schema.content, vec![1, 2]);
    let closed =
        SchemaBackend { accepts_schemas: false, endpoint_scope: "scope".to_owned() };
    assert!(queue_schema(480, None, vec![1], Some(&closed), true).is_none());
    assert!(queue_schema(480, None, vec![1], Some(&backend), false).is_none());
    assert!(queue_schema(480, None, Vec::new(), Some(&backend), true).is_none());
    assert_eq!(queue_schema(480, None, vec![1], None, true).unwrap().owner_scope, "");
}

#[test]
fn an_upload_is_signed_by_device_and_account() {
    let device = || DeviceDescriptor {
        client_id: 7,
        machine_name: "deck".to_owned(),
        os_type: 20,
        device_type: 1,
    };
    let identity = upload_identity(76561198000000001, Some(device())).unwrap();
    assert_eq!(identity.steam_id64, "76561198000000001");
    assert_eq!(identity.client_id, 7);
    assert!(identity.persona_name.is_none());
    assert!(upload_identity(76561198000000001, None).is_none());
    assert!(upload_identity(0, Some(device())).is_none());
}

fn account_key(steam_id64: u64) -> RuntimeKey {
    runtime_key("fingerprint".to_owned(), steam_id64, 1, 7, 1)
}

#[test]
fn a_changed_context_starts_the_worker_and_cancels_the_stream() {
    let mut state = WorkerState::Stopped;
    let mut streams = ActiveStreams::new();
    let old_key = account_key(1);
    let new_key = account_key(2);
    assert_eq!(follow_context(&mut state, &streams, false, None), (false, None));
    assert_eq!(state, WorkerState::Stopped);
    assert_eq!(follow_context(&mut state, &streams, true, None), (true, None));
    assert_eq!(state, WorkerState::Starting);
    finish_start(&mut state, true);
    let token = streams.activate_stream(account_key(1));
    assert_eq!(follow_context(&mut state, &streams, true, Some(&old_key)), (false, None));
    assert_eq!(follow_context(&mut state, &streams, true, Some(&new_key)), (false, Some(token)));
    finish_run(&mut state);
    assert_eq!(state, WorkerState::Stopped);
}

#[test]
fn an_event_is_stored_and_announced() {
    let steam_id64 = 76561198000000001;
    let mut cache = PlaytimeCache::new();
    let event = AccountStreamEvent::Playtime(snapshot(2));
    let outcome = process_event(&mut cache, account_key(steam_id64), event, &[480], NUMBERS);
    let packet = outcome.packet.unwrap();
    assert_eq!(packet.steam_id64, steam_id64);
    assert_eq!(packet.games[0].playtime_forever, Some(42));
    assert!(outcome.refresh.is_empty());
    let key = account_key(steam_id64);
    assert!(matches!(playtime_view(&cache, Some(&key)), PlaytimeView::Known(_)));
    let other = account_key(2);
    assert!(matches!(playtime_view(&cache, Some(&other)), PlaytimeView::Cold));
    // the same revision again changes nothing
    let repeated = process_playtime(&mut cache, account_key(steam_id64), &snapshot(2), &[480], NUMBERS);
    assert!(repeated.is_none());

    let baseline = AccountSyncState {
        stats_crc_apps: vec![620, 0],
        achievement_apps: vec![480],
        stat_apps: vec![620],
        playtime_revision: 3,
        playtime: vec![entry(730)],
    };
    let event = AccountStreamEvent::Baseline(baseline);
    let outcome = process_event(&mut cache, account_key(steam_id64), event, &[620, 730], NUMBERS);
    assert_eq!(outcome.packet.unwrap().games[0].app_id, Some(730));
    assert_eq!(outcome.refresh, vec![620]);
    assert_eq!(cache.revision, 3);

    let foreign = AccountStreamEvent::StatsWakeup(wakeup("76561198000000002", vec![620]));
    let outcome = process_event(&mut cache, account_key(steam_id64), foreign, &[620], NUMBERS);
    assert!(outcome.packet.is_none());
    assert!(outcome.refresh.is_empty());
}

#[test]
fn an_event_counts_only_under_the_current_key() {
    let steam_id64 = 76561198000000001;
    let mut cache = PlaytimeCache::new();
    let mut received = false;
    let other = account_key(2);
    let stale = receive_event(
        &mut cache,
        &mut received,
        account_key(steam_id64),
        Some(&other),
        AccountStreamEvent::Playtime(snapshot(2)),
        &[480],
        NUMBERS,
    );
    assert!(stale.is_none());
    assert!(!received);
    assert_eq!(cache.revision, 0);
    let key = account_key(steam_id64);
    let taken = receive_event(
        &mut cache,
        &mut received,
        account_key(steam_id64),
        Some(&key),
        AccountStreamEvent::Playtime(snapshot(2)),
        &[480],
        NUMBERS,
    );
    assert!(taken.unwrap().packet.is_some());
    assert!(received);
    assert_eq!(cache.revision, 2);
}

#[test]
fn the_upload_worker_ends_once_nothing_can_wake_it() {
    let mut state = UploadState::new();
    assert_eq!(state.upload_loop(UploadEvent::Woken), UploadAction::StartBurst);
    let none = UploadEvent::Deadline { generation: 1, next: None, now: 0 };
    assert_eq!(state.upload_loop(none), UploadAction::ReadNextDeadline);
    assert_eq!(state.upload_loop(none), UploadAction::Wait { next_attempt_at: None });
    assert_eq!(state.upload_loop(UploadEvent::Closed), UploadAction::End);
    assert!(notify_principal_available(WorkerSlot::Running));
    assert!(!notify_principal_available(WorkerSlot::Absent));
}
