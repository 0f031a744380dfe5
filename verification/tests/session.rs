use vapor_forge_hooks::callback_dispatch::{
    AppMinutesPlayedDataNotice, APP_MINUTES_PLAYED_DATA_NOTICE, USER_STATS_RECEIVED,
};
use vapor_forge_hooks::callback_notify::CallbackNotify;
use vapor_forge_hooks::client_id::{
    client_id_read, is_client_id_key, site_license_client_id, streaming_client_id,
    ClientIdCapture, ClientIdSource, ClientIdStep, ConfigWrite, CLIENT_ID_KEY, INSTALL_CONFIG_STORE, SITE_LICENSE_KEY,
};
use vapor_forge_hooks::internal_callbacks::InternalEvents;
use vapor_forge_hooks::maps::ReadableMapping;
use vapor_forge_hooks::steam_context::{
    find_owner_member, CheckedCallDepth, ContextEffects, Identity, OwnerImage, OwnerMembers, SteamContext,
    OWNER_INTERFACE_SLOTS,
};
use vapor_forge_hooks::steam_session::{
    begin_request_stats, connect, finish_request_stats, playtime_snapshot, read_snapshot,
    read_stats_probe,    sample_achievements, sample_stats, slot_of, stat_key, stats_counts, AchievementReading,
    MinutesAnswer, PlaytimeGame, PlaytimeSnapshot, SessionError, StatKind, StatReading,
    StatsCounts, StatsMethod,
};

const ACCOUNT: Identity = Identity { generation: 4, steam_id: 76_561_198_000_000_001 };

fn ready_context() -> SteamContext {
    let mut context = SteamContext::new();
    context.observe_user_interface(0x1000, ACCOUNT.steam_id, true, ACCOUNT);
    context.observe_packet_identity(ACCOUNT.steam_id, true, ACCOUNT);
    let members = OwnerMembers { user: 0x1000, stats: 0x2000, config_store: 0x3000 };
    context.observe_owner(0x4000, 3, Some(members), ACCOUNT);
    context
}

fn ready_notify() -> CallbackNotify {
    let mut notify = CallbackNotify::new();
    notify.set_hooks_ready(true);
    notify
}

#[test]
fn matches_the_live_interface_slots() {
    assert_eq!(slot_of(StatsMethod::GetNumStats), 0);
    assert_eq!(slot_of(StatsMethod::GetStatName), 1);
    assert_eq!(slot_of(StatsMethod::GetStatType), 2);
    assert_eq!(slot_of(StatsMethod::GetNumAchievements), 3);
    assert_eq!(slot_of(StatsMethod::GetAchievementName), 4);
    assert_eq!(slot_of(StatsMethod::RequestCurrentStats), 5);
    assert_eq!(slot_of(StatsMethod::GetStatInt), 7);
    assert_eq!(slot_of(StatsMethod::GetStatFloat), 8);
    assert_eq!(slot_of(StatsMethod::GetAchievement), 12);
    assert_eq!(slot_of(StatsMethod::RequestUserStats), 22);
}

#[test]
fn a_session_needs_hooks_a_context_and_a_table() {
    let context = ready_context();
    let mut notify = ready_notify();
    let session = connect(&mut notify, &context, ACCOUNT, Some(true)).unwrap();
    assert_eq!(notify.calls.session, Some(session.revision));
    assert_eq!(session.values.stats, 0x2000);

    let mut off = CallbackNotify::new();
    assert_eq!(
        connect(&mut off, &context, ACCOUNT, Some(true)).err(),
        Some(SessionError::HooksUnavailable)
    );
    let mut other = ready_notify();
    assert_eq!(
        connect(&mut other, &SteamContext::new(), ACCOUNT, Some(true)).err(),
        Some(SessionError::ContextUnavailable)
    );
    assert_eq!(
        connect(&mut other, &context, ACCOUNT, Some(false)).err(),
        Some(SessionError::VtableUnavailable)
    );
    assert_eq!(
        connect(&mut other, &context, ACCOUNT, None).err(),
        Some(SessionError::ContextChanged)
    );
    assert_eq!(SessionError::HooksUnavailable.message(), "callback hooks are unavailable");
    assert_eq!(SessionError::GetStatFloatFailed.message(), "GetStat(float) failed");
}

#[test]
fn playtime_is_read_or_says_why_not() {
    let read = Some(MinutesAnswer::Read { total: 42, two_weeks: 3 });
    assert_eq!(
        playtime_snapshot(480, Some(7), read, Some(Some(100))),
        Ok(PlaytimeSnapshot {
            steam_id64: 7,
            game: PlaytimeGame {
                app_id: 480,
                playtime_minutes: 42,
                playtime_2weeks_minutes: 3,
                last_played_at: Some(100),
            },
        })
    );
    let game = playtime_snapshot(480, Some(7), read, Some(Some(0))).unwrap().game;
    assert_eq!(game.last_played_at, None);
    let failures = [
        (0, Some(7), read, Some(None), SessionError::InvalidApp),
        (480, None, read, Some(None), SessionError::ContextChanged),
        (480, Some(7), None, Some(None), SessionError::ContextChanged),
        (480, Some(7), read, None, SessionError::ContextChanged),
        (480, Some(7), Some(MinutesAnswer::Refused), Some(None), SessionError::MinutesRefused),
        (
            480,
            Some(7),
            Some(MinutesAnswer::Unavailable),
            Some(None),
            SessionError::MinutesUnavailable,
        ),
        (
            480,
            Some(7),
            Some(MinutesAnswer::Read { total: -1, two_weeks: 0 }),
            Some(None),
            SessionError::NegativeTotal,
        ),
        (
            480,
            Some(7),
            Some(MinutesAnswer::Read { total: 1, two_weeks: -1 }),
            Some(None),
            SessionError::NegativeTwoWeeks,
        ),
    ];
    for (app_id, steam_id64, minutes, last, error) in failures {
        assert_eq!(playtime_snapshot(app_id, steam_id64, minutes, last), Err(error));
    }
}

#[test]
fn a_stats_request_registers_its_handle() {
    let mut notify = ready_notify();
    notify.calls.activate(7);
    assert_eq!(begin_request_stats(&mut notify, 7, 0, 1), Err(SessionError::InvalidApp));
    assert_eq!(begin_request_stats(&mut notify, 7, 480, 0), Err(SessionError::NoSteamId));
    assert_eq!(begin_request_stats(&mut notify, 7, 480, 1), Ok(()));
    assert_eq!(
        begin_request_stats(&mut notify, 7, 480, 1),
        Err(SessionError::WindowNotRegistered)
    );
    assert_eq!(finish_request_stats(&mut notify, 7, Some(14)), Ok(14));
    assert_eq!(notify.calls.registered_session(14, USER_STATS_RECEIVED), Some(7));

    assert_eq!(begin_request_stats(&mut notify, 7, 480, 1), Ok(()));
    assert_eq!(finish_request_stats(&mut notify, 7, Some(0)), Err(SessionError::NoCallHandle));
    assert_eq!(begin_request_stats(&mut notify, 7, 480, 1), Ok(()));
    assert_eq!(finish_request_stats(&mut notify, 7, None), Err(SessionError::ContextChanged));
    assert_eq!(
        finish_request_stats(&mut notify, 7, Some(15)),
        Err(SessionError::HandleNotRegistered)
    );
}

#[test]
fn counts_that_make_no_sense_are_refused() {
    assert_eq!(stats_counts(Some(3), Some(4)), Ok(StatsCounts { stats: 3, achievements: 4 }));
    assert_eq!(stats_counts(Some(10_001), Some(4)), Err(SessionError::CountInvalid));
    assert_eq!(stats_counts(Some(3), Some(10_001)), Err(SessionError::CountInvalid));
    assert_eq!(stats_counts(None, Some(4)), Err(SessionError::ContextChanged));
}

fn achievement(key: Option<&str>, read: bool, unlocked: bool, time: u32) -> AchievementReading {
    AchievementReading {
        interrupted: false,
        key: key.map(str::to_owned),
        read,
        unlocked,
        unlock_time: time,
    }
}

fn stat(key: Option<&str>, kind: StatKind, declared: i32) -> StatReading {
    StatReading {
        interrupted: false,
        key: key.map(str::to_owned),
        kind,
        declared_type: declared,
        int_read: true,
        int_value: -3,
        float_read: true,
        float_text: "1.5".to_owned(),
    }
}

#[test]
fn a_snapshot_holds_what_was_read() {
    let achievements = vec![achievement(Some("A"), true, true, 12)];
    let stats = vec![
        stat(Some("S"), StatKind::Int, 0),
        stat(Some("R"), StatKind::Dynamic, 3),
        stat(Some("F"), StatKind::Dynamic, 2),
        stat(Some("U"), StatKind::Dynamic, 9),
    ];
    let snapshot = match read_snapshot(480, &achievements, &stats, true) {
        Ok(snapshot) => snapshot,
        Err(_) => panic!("expected a snapshot"),
    };
    assert_eq!(snapshot.app_id, 480);
    assert_eq!(snapshot.achievements.len(), 1);
    assert_eq!(snapshot.achievements[0].unlock_time, 12);
    let stats: Vec<(&str, &str, &str)> = snapshot
        .stats
        .iter()
        .map(|stat| (stat.key.as_str(), stat.value_type.as_str(), stat.value.as_str()))
        .collect();
    assert_eq!(
        stats,
        vec![("S", "int", "-3"), ("R", "average_rate", "1.5"), ("F", "float", "1.5")]
    );
}

#[test]
fn the_first_failed_reading_decides() {
    let fine = || vec![achievement(Some("A"), true, true, 12)];
    let none: Vec<StatReading> = Vec::new();
    assert_eq!(read_snapshot(0, &fine(), &none, true).err(), Some(SessionError::InvalidApp));
    let unnamed = vec![achievement(None, true, true, 0), achievement(Some("A"), false, true, 0)];
    assert_eq!(
        read_snapshot(480, &unnamed, &none, true).err(),
        Some(SessionError::AchievementNameInvalid)
    );
    let unread = vec![achievement(Some("A"), false, true, 0)];
    assert_eq!(
        read_snapshot(480, &unread, &none, true).err(),
        Some(SessionError::GetAchievementFailed)
    );
    let nameless = vec![stat(None, StatKind::Int, 0)];
    assert_eq!(
        read_snapshot(480, &fine(), &nameless, true).err(),
        Some(SessionError::StatNameInvalid)
    );
    let mut no_int = stat(Some("S"), StatKind::Int, 0);
    no_int.int_read = false;
    assert_eq!(
        read_snapshot(480, &fine(), &vec![no_int], true).err(),
        Some(SessionError::GetStatIntFailed)
    );
    let mut no_float = stat(Some("S"), StatKind::Float, 0);
    no_float.float_read = false;
    assert_eq!(
        read_snapshot(480, &fine(), &vec![no_float], true).err(),
        Some(SessionError::GetStatFloatFailed)
    );
    let many: Vec<AchievementReading> =
        (0..10_001).map(|_| achievement(Some("A"), true, true, 12)).collect();
    assert_eq!(
        read_snapshot(480, &many, &none, true).err(),
        Some(SessionError::AchievementCountInvalid)
    );
    assert_eq!(
        read_snapshot(480, &unread, &none, false).err(),
        Some(SessionError::ContextChanged)
    );
    let mut cut = fine();
    cut[0].interrupted = true;
    assert_eq!(read_snapshot(480, &cut, &none, true).err(), Some(SessionError::ContextChanged));
    assert_eq!(sample_achievements(&cut).err(), Some(SessionError::ContextChanged));
    let mut cut_stat = stat(None, StatKind::Int, 1);
    cut_stat.interrupted = true;
    let cut_stats = vec![cut_stat];
    assert_eq!(
        read_snapshot(480, &fine(), &cut_stats, true).err(),
        Some(SessionError::ContextChanged)
    );
    assert_eq!(sample_stats(&cut_stats).err(), Some(SessionError::ContextChanged));
}

#[test]
fn samples_show_a_total_and_every_unlocked_achievement() {
    let mut readings: Vec<AchievementReading> =
        (0..9).map(|_| achievement(Some("L"), true, false, 0)).collect();
    readings.push(achievement(Some("U"), true, true, 7));
    readings.push(achievement(None, true, true, 7));
    let lines = sample_achievements(&readings).unwrap();
    assert_eq!(lines.len(), 10);
    assert_eq!(lines[0], "unlocked 1/11");
    assert_eq!(lines[1], "ach[0] L ok=true unlocked=false at=0");
    assert_eq!(lines[9], "ach[9] U ok=true unlocked=true at=7");
}

#[test]
fn stat_samples_count_the_types() {
    let mut readings: Vec<StatReading> =
        (0..4).map(|_| stat(Some("N"), StatKind::Dynamic, 1)).collect();
    let mut zero = stat(Some("Z"), StatKind::Dynamic, 1);
    zero.int_read = false;
    zero.int_value = 0;
    readings.push(zero);
    readings.push(stat(Some("F"), StatKind::Dynamic, 2));
    readings.push(stat(Some("O"), StatKind::Dynamic, -4));
    assert_eq!(
        sample_stats(&readings).unwrap(),
        vec![
            "types -4=1 1=5 2=1",
            "int[0] N ok=true value=-3",
            "int[1] N ok=true value=-3",
            "int[2] N ok=true value=-3",
            "int[4] Z ok=false value=0",
            "float2[5] F ok=true value=1.5",
        ]
    );
}

#[test]
fn a_failed_reading_shows_what_the_getter_left() {
    let mut whole = stat(Some("W"), StatKind::Dynamic, 1);
    whole.int_read = false;
    whole.int_value = 7;
    let mut part = stat(Some("P"), StatKind::Dynamic, 3);
    part.float_read = false;
    part.float_text = "0.25".to_owned();
    assert_eq!(
        sample_stats(&vec![whole, part]).unwrap(),
        vec!["types 1=1 3=1", "int[0] W ok=false value=7", "float3[1] P ok=false value=0.25"]
    );
}

#[test]
fn a_probe_shows_samples_where_there_are_any() {
    let none = match read_stats_probe(9, 1, Some(0), Some(0), &Vec::new(), &Vec::new()) {
        Ok(probe) => probe,
        Err(_) => panic!("expected a probe"),
    };
    assert_eq!((none.api_call, none.stat_count, none.achievement_count), (9, 0, 0));
    assert_eq!(none.samples, vec!["api_call result 1 via SetAPICallResult event"]);

    let stats = vec![stat(Some("S"), StatKind::Dynamic, 1)];
    let one = match read_stats_probe(10, -2, Some(1), Some(0), &Vec::new(), &stats) {
        Ok(probe) => probe,
        Err(_) => panic!("expected a probe"),
    };
    assert_eq!((one.stat_count, one.achievement_count), (1, 0));
    assert_eq!(
        one.samples,
        vec![
            "api_call result -2 via SetAPICallResult event",
            "unlocked 0/0",
            "types 1=1",
            "int[0] S ok=true value=-3",
        ]
    );

    let mut cut = vec![achievement(Some("A"), true, true, 12)];
    cut[0].interrupted = true;
    assert_eq!(
        read_stats_probe(10, 1, Some(1), Some(1), &cut, &stats).err(),
        Some(SessionError::ContextChanged)
    );
    assert_eq!(
        read_stats_probe(10, 1, Some(10_001), Some(1), &cut, &stats).err(),
        Some(SessionError::CountInvalid)
    );
}

#[test]
fn a_stat_key_ends_in_time() {
    assert_eq!(stat_key(Some(b"kills\0")), Some("kills".to_owned()));
    assert_eq!(stat_key(Some(b"\0")), None);
    assert_eq!(stat_key(Some(&[b'A'; 255])), None);
    assert_eq!(stat_key(None), None);
}

/// Reads the client id from a store with these two values, and counts the reads.
fn read_client_id(streaming: u64, site_license: u64) -> (Option<u64>, usize) {
    let value = |source| {
        let read = client_id_read(source);
        assert_eq!(read.store, INSTALL_CONFIG_STORE);
        match read.key.as_slice() {
            b"streaming/ClientID\0" => streaming,
            b"sitelicense/ClientID\0" => site_license,
            _ => read.default,
        }
    };
    match streaming_client_id(value(ClientIdSource::Streaming)) {
        ClientIdStep::Found(found) => (Some(found), 1),
        ClientIdStep::Absent => (None, 1),
        ClientIdStep::Read(next) => match site_license_client_id(value(next)) {
            ClientIdStep::Found(found) => (Some(found), 2),
            _ => (None, 2),
        },
    }
}

#[test]
fn streaming_client_id_avoids_site_license_read() {
    assert_eq!(streaming_client_id(7), ClientIdStep::Found(7));
    assert_eq!(read_client_id(7, 9), (Some(7), 1));
}

#[test]
fn site_license_is_read_only_after_zero_streaming_value() {
    assert_eq!(streaming_client_id(0), ClientIdStep::Read(ClientIdSource::SiteLicense));
    assert_eq!(site_license_client_id(9), ClientIdStep::Found(9));
    assert_eq!(site_license_client_id(0), ClientIdStep::Absent);
    assert_eq!(read_client_id(0, 9), (Some(9), 2));
    assert_eq!(read_client_id(0, 0), (None, 2));
}

#[test]
fn a_client_id_is_taken_from_one_write() {
    let context = ready_context();
    let captured = context.capture(ACCOUNT).unwrap();
    let mut capture = ClientIdCapture::new();
    let key = CLIENT_ID_KEY.to_vec();
    assert!(is_client_id_key(Some(&key)));
    assert!(!is_client_id_key(Some(b"other")));
    assert!(!is_client_id_key(None));
    assert_ne!(CLIENT_ID_KEY.to_vec(), SITE_LICENSE_KEY.to_vec());
    let write = ConfigWrite {
        receiver: 0x3000,
        store: INSTALL_CONFIG_STORE,
        key: Some(&key),
        value: 7,
    };
    assert_eq!(capture.observe_write(&write, true, &context, ACCOUNT), None);
    capture.arm_capture(&captured);
    assert_eq!(capture.observe_write(&write, true, &context, ACCOUNT), Some(7));
    assert_eq!(capture.observe_write(&write, true, &context, ACCOUNT), None);
    capture.arm_capture(&captured);
    capture.cancel_capture();
    assert_eq!(capture.observe_write(&write, true, &context, ACCOUNT), None);
}

#[test]
fn a_capture_goes_stale_with_the_account() {
    let mut context = ready_context();
    let captured = context.capture(ACCOUNT).unwrap();
    assert!(context.is_current(&captured, ACCOUNT));
    assert!(context.checked_call(&captured, ACCOUNT).is_ok());
    let other = Identity { generation: 5, steam_id: 76_561_198_000_000_002 };
    assert!(!context.is_current(&captured, other));
    let effects = context.invalidate_identity();
    assert!(effects.cancel_client_id && effects.clear_account && !effects.notify);
    let again = context.invalidate_identity();
    assert!(again.cancel_client_id && !again.clear_account);
    assert!(!context.is_current(&captured, ACCOUNT));
    assert!(context.checked_call(&captured, ACCOUNT).is_err());
    assert_eq!(context.callback_identity(3, ACCOUNT), None);
    let ready = ready_context();
    assert_eq!(ready.callback_identity(3, ACCOUNT), Some(ACCOUNT));
    assert_eq!(ready.callback_identity(9, ACCOUNT), None);
    let mut depth = CheckedCallDepth { depth: 0 };
    depth.enter();
    assert!(depth.checked_call_active());
    depth.leave();
    assert!(!depth.checked_call_active());
}

#[test]
fn what_is_seen_of_the_context_has_effects() {
    let mut context = SteamContext::new();
    let members = OwnerMembers { user: 0x1000, stats: 0x2000, config_store: 0x3000 };
    let first = context.observe_owner(0x4000, 3, Some(members), ACCOUNT);
    assert!(first.cancel_client_id && first.clear_account && !first.notify);
    assert_eq!(first.observe_user, Some(3));
    let same = context.observe_owner(0x4000, 3, Some(members), ACCOUNT);
    assert!(!same.cancel_client_id && !same.clear_account);
    assert_eq!(same.observe_user, Some(3));
    let alias = OwnerMembers { stats: 0x1000, ..members };
    assert_eq!(context.observe_owner(0x5000, 3, Some(alias), ACCOUNT), ContextEffects::none());
    assert_eq!(context.observe_owner(0x5000, 3, None, ACCOUNT), ContextEffects::none());
    let seen = context.observe_packet_identity(ACCOUNT.steam_id, true, ACCOUNT);
    assert_eq!(seen, ContextEffects { notify: true, ..ContextEffects::none() });
    let again = context.observe_user_interface(0x1000, ACCOUNT.steam_id, true, ACCOUNT);
    assert_eq!(again, ContextEffects::none());
}

#[test]
fn an_owner_member_is_found_by_its_table() {
    let mut members = vec![0usize; OWNER_INTERFACE_SLOTS];
    let mut first_words = vec![0usize; OWNER_INTERFACE_SLOTS];
    members[5] = 0x2000;
    first_words[5] = 0x9000;
    let image = OwnerImage { members, first_words };
    let mappings = vec![ReadableMapping { start: 0x1000, end: 0x5000 }];
    let found = find_owner_member(0x1000, 0x9000, &mappings, &image, 8).unwrap();
    assert_eq!(found.member, 0x2000);
    assert!(find_owner_member(0x1000, 0x9001, &mappings, &image, 8).is_none());
    assert!(find_owner_member(0x1000, 0x9000, &Vec::new(), &image, 8).is_none());
}

#[test]
fn a_read_settles_the_wait_for_a_client_id() {
    let context = ready_context();
    let captured = context.capture(ACCOUNT).unwrap();
    let mut capture = ClientIdCapture::new();
    capture.arm_capture(&captured);
    assert_eq!(capture.settle_read(true, None), Ok(None));
    assert!(capture.armed);
    assert_eq!(capture.settle_read(true, Some(7)), Ok(Some(7)));
    assert!(!capture.armed);
    capture.arm_capture(&captured);
    assert_eq!(capture.settle_read(false, Some(7)), Err(()));
    assert!(!capture.armed);
}

#[test]
fn an_owner_that_goes_away_is_forgotten() {
    let mut context = ready_context();
    let captured = context.capture(ACCOUNT).unwrap();
    assert_eq!(context.invalidate_owner(0), ContextEffects::none());
    assert_eq!(context.invalidate_owner(0x5000), ContextEffects::none());
    assert!(context.is_current(&captured, ACCOUNT));
    let effects = context.invalidate_owner(0x4000);
    assert!(effects.cancel_client_id && effects.clear_account && !effects.notify);
    assert_eq!(effects.observe_user, None);
    assert!(!context.is_current(&captured, ACCOUNT));
    assert!(context.capture(ACCOUNT).is_none());
}

#[test]
fn the_context_is_described_in_one_line() {
    let context = ready_context();
    assert_eq!(
        context.diagnostic_status(),
        format!(
            "context_revision={} steam_user=3 owner=0x4000 user_ptr=0x1000 stats_ptr=0x2000 \
             config_store_ptr=0x3000",
            context.revision
        )
    );
    assert!(context.config_store_is_current(context.revision, 0x3000, ACCOUNT));
    assert!(!context.config_store_is_current(context.revision, 0x3001, ACCOUNT));
    assert!(!context.config_store_is_current(0, 0x3000, ACCOUNT));
    assert_eq!(
        SteamContext::new().diagnostic_status(),
        "context_revision=0 steam_user=0 owner=0x0 user_ptr=0x0 stats_ptr=0x0 config_store_ptr=0x0"
    );
    let mut notify = CallbackNotify::new();
    notify.calls.activate(9);
    assert_eq!(
        notify.diagnostic_status(),
        "api_results=0 registered_api_results=0 last_api_result_id=0 registered_calls=0 \
         api_pending=0 issuing=false session=9"
    );
}

#[test]
fn a_client_id_is_read_through_a_known_method() {
    let context = ready_context();
    let captured = context.capture(ACCOUNT).unwrap();
    let mut capture = ClientIdCapture::new();
    let error = capture.read_or_arm(&captured, None).unwrap_err();
    assert_eq!(error.message(), "IClientConfigStore::GetUint64 semantic validation failed");
    let error = capture.read_or_arm(&captured, Some(0)).unwrap_err();
    assert_eq!(error.message(), "IClientConfigStore::GetUint64 address is invalid");
    assert!(!capture.armed);
    assert_eq!(capture.read_or_arm(&captured, Some(0x7000)), Ok(0x7000));
    assert!(capture.armed);
    assert_eq!(capture.config_store, 0x3000);
}

#[test]
fn a_callback_is_filed_for_the_account_that_is_logged_on() {
    let context = ready_context();
    let mut events = InternalEvents::<8>::new();
    let payload = 480u32.to_le_bytes();
    let minutes = APP_MINUTES_PLAYED_DATA_NOTICE;
    assert!(!events.run_internal_callback(9, minutes, &context, ACCOUNT, Some(&payload)));
    assert!(!events.run_internal_callback(3, 42, &context, ACCOUNT, Some(&payload)));
    assert!(!events.run_internal_callback(3, minutes, &context, ACCOUNT, None));
    assert!(events.run_internal_callback(3, minutes, &context, ACCOUNT, Some(&payload)));
    assert!(!events.run_internal_callback(3, minutes, &context, ACCOUNT, Some(&payload)));
    let taken = events.take_events(8);
    assert_eq!(taken.len(), 1);
    assert_eq!(taken[0].steam_id64, ACCOUNT.steam_id);
    let notice: AppMinutesPlayedDataNotice = taken[0].decode().unwrap();
    assert_eq!(notice.app_id, 480);
}
