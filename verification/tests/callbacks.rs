use vapor_forge_hooks::callback_dispatch::{
    is_api_result_registered, registration, ApiCallResultEvent, AppMinutesPlayedDataNotice,
    CallbackEvent, UserStatsReceived, APP_MINUTES_PLAYED_DATA_NOTICE, USER_STATS_RECEIVED,
};
use vapor_forge_hooks::callback_notify::{joined_handle, ApiCallState, CallbackNotify, IssueOutcome};
use vapor_forge_hooks::internal_callbacks::{
    CoalescedEvents, EventQueue, InternalEvents, ObservedUsers, APP_EVENT_CAPACITY, EVENT_CAPACITY,
};

fn app_event(app_id: u32, generation: u64) -> CallbackEvent {
    CallbackEvent::from_bytes(
        3,
        generation,
        76_561_198_000_000_001,
        APP_MINUTES_PLAYED_DATA_NOTICE,
        &app_id.to_le_bytes(),
    )
}

#[test]
fn registry_filters_unregistered_callbacks() {
    assert_eq!(registration(APP_MINUTES_PLAYED_DATA_NOTICE).unwrap().payload_size, 4);
    assert!(registration(703).is_none());
    assert!(registration(USER_STATS_RECEIVED).is_none());
    assert!(is_api_result_registered(USER_STATS_RECEIVED));
    assert!(!is_api_result_registered(703));
}

#[test]
fn fixed_callback_decoder_rejects_wrong_contract() {
    let short = CallbackEvent::from_bytes(3, 1, 7, APP_MINUTES_PLAYED_DATA_NOTICE, &[0; 3]);
    assert_eq!(short.decode::<AppMinutesPlayedDataNotice>(), None);
    let wrong = CallbackEvent::from_bytes(3, 1, 7, 42, &480u32.to_le_bytes());
    assert_eq!(wrong.decode::<AppMinutesPlayedDataNotice>(), None);
}

#[test]
fn payloads_are_read_in_little_endian_order() {
    let notice = app_event(480, 1).decode::<AppMinutesPlayedDataNotice>();
    assert_eq!(notice, Some(AppMinutesPlayedDataNotice { app_id: 480 }));

    let mut payload = Vec::new();
    payload.extend_from_slice(&480u64.to_le_bytes());
    payload.extend_from_slice(&1i32.to_le_bytes());
    payload.extend_from_slice(&76_561_198_000_000_001u64.to_le_bytes());
    let event = ApiCallResultEvent::new(14, USER_STATS_RECEIVED, 20, payload);
    assert_eq!(
        event.decode::<UserStatsReceived>(),
        Some(UserStatsReceived { game_id: 480, result: 1, steam_id: 76_561_198_000_000_001 })
    );
}

#[test]
fn explicit_session_owns_registered_handles() {
    let mut state = ApiCallState::new();
    state.activate(7);
    assert!(state.register(7, 14, USER_STATS_RECEIVED));
    assert!(!state.register(8, 15, USER_STATS_RECEIVED));
    assert_eq!(state.registered_session(14, USER_STATS_RECEIVED), Some(7));
    state.clear(7);
    assert_eq!(state.registered_session(14, USER_STATS_RECEIVED), None);
}

#[test]
fn completion_during_request_issue_is_matched_after_handle_return() {
    let mut state = ApiCallState::new();
    state.activate(7);
    assert!(state.begin_issue(7, USER_STATS_RECEIVED));
    let event = ApiCallResultEvent::new(14, USER_STATS_RECEIVED, 20, vec![0; 20]);
    assert_eq!(state.accepted_session(14, USER_STATS_RECEIVED), Some(7));
    assert!(!state.publish(7, event));
    assert_eq!(state.finish_issue(7, 14, USER_STATS_RECEIVED), IssueOutcome::Completed);
    assert_eq!(state.take(1)[0].api_call, 14);
    assert!(state.api_calls.is_empty());
}

#[test]
fn a_handle_completes_once() {
    let mut state = ApiCallState::new();
    state.activate(7);
    assert!(state.register(7, 14, USER_STATS_RECEIVED));
    let event = || ApiCallResultEvent::new(14, USER_STATS_RECEIVED, 20, vec![0; 20]);
    assert!(state.publish(7, event()));
    assert!(!state.publish(7, event()));
    assert_eq!(state.take(8).len(), 1);
    assert!(state.take(8).is_empty());
}

#[test]
fn a_window_that_failed_is_closed() {
    let mut state = ApiCallState::new();
    state.activate(7);
    assert!(state.begin_issue(7, USER_STATS_RECEIVED));
    assert!(!state.begin_issue(7, USER_STATS_RECEIVED));
    state.cancel_issue(7, USER_STATS_RECEIVED);
    assert!(state.begin_issue(7, USER_STATS_RECEIVED));
    assert_eq!(state.finish_issue(8, 14, USER_STATS_RECEIVED), IssueOutcome::Rejected);
}

#[test]
fn an_answer_that_is_waited_for_wakes_the_session() {
    let mut notify = CallbackNotify::new();
    notify.set_hooks_ready(true);
    notify.calls.activate(7);
    assert!(notify.calls.begin_issue(7, USER_STATS_RECEIVED));
    assert!(notify.finish_api_call(7, 14, USER_STATS_RECEIVED));
    let epoch = notify.epoch;
    let prepared =
        notify.prepare_registered_api_result(14, USER_STATS_RECEIVED, Some(&[0; 20]), 20);
    assert!(prepared.is_some());
    notify.publish_registered_api_result(prepared);
    assert_eq!(notify.epoch, epoch.wrapping_add(1));
    let stray = notify.prepare_registered_api_result(15, USER_STATS_RECEIVED, Some(&[0; 20]), 20);
    assert!(stray.is_none());
    notify.clear_account();
    assert!(notify.calls.session.is_none());
    assert_eq!(joined_handle(0x5566_7788, 0x1122_3344), 0x1122_3344_5566_7788);
}

#[test]
fn minutes_notices_coalesce_until_consumed() {
    let mut events = CoalescedEvents::<8>::new();
    let event = app_event(480, 7);

    assert!(events.enqueue(event));
    assert!(!events.enqueue(event));
    assert_eq!(events.pending(), 1);

    let mut drained = Vec::new();
    events.take_into(&mut drained, 8);
    assert_eq!(drained, vec![event]);
    assert_eq!(events.pending(), 0);

    assert!(events.enqueue(event));
    events.take_into(&mut drained, 8);
    assert_eq!(drained, vec![event, event]);
}

#[test]
fn different_apps_in_one_generation_remain_distinct() {
    let mut events = CoalescedEvents::<8>::new();
    assert!(events.enqueue(app_event(480, 7)));
    assert!(events.enqueue(app_event(620, 7)));

    let mut drained = Vec::new();
    events.take_into(&mut drained, 8);
    assert_eq!(drained.len(), 2);
}

#[test]
fn new_generation_reclaims_a_full_stale_table() {
    let mut events = CoalescedEvents::<1>::new();
    assert!(events.enqueue(app_event(480, 7)));
    assert!(events.enqueue(app_event(620, 8)));

    let mut drained = Vec::new();
    events.take_into(&mut drained, 1);
    assert_eq!(drained, vec![app_event(620, 8)]);
    assert_eq!(events.used(), 1);
    assert_eq!(events.dropped, 0);
}

#[test]
fn burst_larger_than_the_generic_queue_drains_without_loss() {
    let burst: usize = EVENT_CAPACITY + 17;
    let mut events = CoalescedEvents::<512>::new();
    for app_id in 1..=burst as u32 {
        assert!(events.enqueue(app_event(app_id, 7)));
    }

    let mut drained = Vec::new();
    while drained.len() < burst {
        let mut batch = Vec::new();
        events.take_into(&mut batch, 64);
        assert!(!batch.is_empty());
        drained.extend(batch);
    }
    drained.sort_by_key(|event| event.decode::<AppMinutesPlayedDataNotice>().unwrap().app_id);
    assert_eq!(drained.len(), burst);
    assert_eq!(events.dropped, 0);
    assert_eq!(events.pending(), 0);
}

#[test]
fn a_full_table_of_the_same_generation_drops_the_event() {
    let mut events = CoalescedEvents::<1>::new();
    assert!(events.enqueue(app_event(480, 7)));
    let before = events.slots.clone();
    assert!(!events.enqueue(app_event(620, 7)));
    assert_eq!(events.dropped, 1);
    assert_eq!(events.slots, before);
}

#[test]
fn the_generic_queue_hands_out_what_it_took() {
    let mut queue = EventQueue::new();
    let first = CallbackEvent::from_bytes(3, 1, 7, 42, &[1]);
    let second = CallbackEvent::from_bytes(3, 1, 7, 43, &[2]);
    assert!(queue.enqueue(first));
    assert!(queue.enqueue(second));
    assert_eq!(queue.pending(), 2);
    assert_eq!(queue.take(1), vec![first]);
    assert_eq!(queue.take(8), vec![second]);
    assert!(queue.take(8).is_empty());
}

#[test]
fn handlers_are_missing_for_users_without_one() {
    let mut users = ObservedUsers::new();
    assert!(users.observe_user(3));
    assert!(!users.observe_user(3));
    assert!(users.observe_user(4));
    assert_eq!(users.observed_users(), vec![3, 4]);
    assert_eq!(users.missing_handlers(&[(3, 42)], 42), vec![4]);
}

#[test]
fn internal_events_go_to_the_place_of_their_kind() {
    let mut events = InternalEvents::<APP_EVENT_CAPACITY>::new();
    assert!(events.publish(app_event(480, 7)));
    assert!(!events.publish(app_event(480, 7)));
    let other = CallbackEvent::from_bytes(3, 7, 7, 42, &[1]);
    assert!(events.publish(other));
    assert_eq!(
        events.diagnostic_status(4),
        "internal_users=0 internal_handlers=4 internal_pending=2 internal_app_slots=1 \
         internal_merged=1 internal_dropped=0"
    );
    assert_eq!(events.take_events(8).len(), 2);
    assert!(events.take_events(8).is_empty());
}
