use std::collections::VecDeque;

use vapor_forge_hooks::network::{
    admit_work_item_site, claim_drain, complete_work_item, drain_injections, enqueue,
    fires_selftest, follow_transition, format_optional_word, format_resolved_addr,
    keeps_inbound_body, lies_in_data, needs_recapture, next_injection_generation,
    own_thread_test_reply, packet_step, response_delivery_ready, send_frame_action,
    take_next_dispatchable, usable_body_size, warmup_flush_due, ActiveDispatch, AddressSpan,
    BeginDispatch, CaptureOutcome, CaptureStep, CompletionAction, DispatchContext,
    DispatchCoordinator, DrainAction, DrainResult, EnqueueOutcome, FollowUps, InvalidateStep,
    NativeFunctions, PacketAction, PacketStage, QueuedInjection, SendFrameAction,
    SendFrameDecision, TransitionCause, TransitionOutcome, WorkItemSite, MAX_QUEUED_INJECTIONS,
    WEBSOCKET_BINARY,
};
use vapor_forge_hooks::playtime_downlink::{runtime_key, RuntimeKey};
use vapor_forge_hooks::work_item::{allocate, generation, layout};

fn key(
    credential_fingerprint: &str,
    steam_id64: u64,
    identity_generation: u64,
    client_id: u64,
    runtime_generation: u64,
) -> RuntimeKey {
    runtime_key(
        credential_fingerprint.to_owned(),
        steam_id64,
        identity_generation,
        client_id,
        runtime_generation,
    )
}

fn playtime(body: u8, context: RuntimeKey) -> QueuedInjection {
    QueuedInjection { body: vec![body], generation: 7, playtime_context: Some(context) }
}

fn ordinary(body: u8, generation: u64) -> QueuedInjection {
    QueuedInjection { body: vec![body], generation, playtime_context: None }
}

fn context(receiver: usize, conn_id: u32, recv_pthread: usize) -> DispatchContext {
    DispatchContext { receiver, conn_id, recv_pthread }
}

fn captured(step: CaptureStep) -> CaptureOutcome {
    match step {
        CaptureStep::Done(outcome) => outcome,
        _ => panic!("capture has to wait"),
    }
}

fn invalidated(step: InvalidateStep) -> TransitionOutcome {
    match step {
        InvalidateStep::Done(outcome) => outcome,
        _ => panic!("invalidation is not done"),
    }
}

fn begun(begin: BeginDispatch) -> ActiveDispatch {
    match begin {
        BeginDispatch::Ready { active, .. } => active,
        _ => panic!("dispatch did not start"),
    }
}

#[test]
fn queued_playtime_is_discarded_across_every_runtime_boundary() {
    let current = key("credential-a", 76_561_198_000_000_001, 4, 7, 9);
    let mut queue = VecDeque::from([
        playtime(1, key("credential-b", current.steam_id64, 4, 7, 9)),
        playtime(2, key("credential-a", 76_561_198_000_000_002, 4, 7, 9)),
        playtime(3, key("credential-a", current.steam_id64, 5, 7, 9)),
        playtime(4, key("credential-a", current.steam_id64, 4, 8, 9)),
        playtime(7, key("credential-a", current.steam_id64, 4, 7, 10)),
        ordinary(5, 7),
        playtime(6, current.duplicate()),
    ]);

    let (ordinary, discarded) = take_next_dispatchable(&mut queue, 7, Some(&current));
    assert_eq!(discarded, 5);
    assert_eq!(ordinary.unwrap().body, vec![5]);

    let (current_playtime, discarded) = take_next_dispatchable(&mut queue, 7, Some(&current));
    assert_eq!(discarded, 0);
    assert_eq!(current_playtime.unwrap().body, vec![6]);
    assert!(queue.is_empty());
}

#[test]
fn queued_playtime_is_discarded_when_backend_is_disabled() {
    let mut queue =
        VecDeque::from([playtime(1, key("credential-a", 76_561_198_000_000_001, 4, 7, 9))]);

    let (queued, discarded) = take_next_dispatchable(&mut queue, 7, None);
    assert!(queued.is_none());
    assert_eq!(discarded, 1);
}

#[test]
fn queued_response_is_discarded_after_connection_generation_changes() {
    let mut queue = VecDeque::from([ordinary(1, 6)]);

    let (queued, discarded) = take_next_dispatchable(&mut queue, 7, None);
    assert!(queued.is_none());
    assert_eq!(discarded, 1);
}

#[test]
fn stale_work_item_cannot_disarm_the_current_generation() {
    let mut coordinator = DispatchCoordinator::new();
    let mut queue = VecDeque::new();
    assert!(captured(coordinator.capture(context(1, 10, 100), 100, 1, &mut queue)).published);
    assert!(coordinator.enqueue_if_current(&mut queue, ordinary(1, 1)).is_ok());
    assert_eq!(coordinator.claim_posted(&queue), Some(1));

    let outcome = invalidated(coordinator.invalidate_generation(None, 200, &mut queue));
    assert_eq!(outcome.previous_generation, 1);
    assert!(coordinator.enqueue_if_current(&mut queue, ordinary(9, 1)).is_err());
    assert!(captured(coordinator.capture(context(2, 20, 200), 200, 2, &mut queue)).published);
    assert!(coordinator.enqueue_if_current(&mut queue, ordinary(2, 2)).is_ok());
    assert_eq!(coordinator.claim_posted(&queue), Some(2));

    assert!(!coordinator.disarm_posted(1));
    assert_eq!(coordinator.posted_generation, 2);
    assert!(coordinator.disarm_posted(2));
}

#[test]
fn invalidation_waits_for_a_dequeued_dispatch_to_finish() {
    let mut coordinator = DispatchCoordinator::new();
    let mut queue = VecDeque::new();
    assert!(captured(coordinator.capture(context(1, 10, 100), 100, 1, &mut queue)).published);
    assert!(coordinator.enqueue_if_current(&mut queue, ordinary(1, 1)).is_ok());
    assert!(coordinator.claim_posted(&queue).is_some());
    let lease = begun(coordinator.begin_dispatch(&mut queue, 1, 100, None));

    let step = coordinator.invalidate_generation(None, 200, &mut queue);
    assert!(matches!(step, InvalidateStep::Draining));
    assert!(coordinator.context().is_none());
    assert_eq!(coordinator.current_generation(), 1);
    assert!(coordinator.resume_invalidation(&mut queue).is_none());

    coordinator.finish_dispatch(lease);
    let outcome = coordinator.resume_invalidation(&mut queue).unwrap();
    assert_eq!(outcome.previous_generation, 1);
    assert_eq!(coordinator.current_generation(), 2);
}

#[test]
fn connection_replacement_waits_for_a_dequeued_dispatch_to_finish() {
    let mut coordinator = DispatchCoordinator::new();
    let mut queue = VecDeque::new();
    let old = context(1, 10, 100);
    let new = context(2, 20, 200);
    assert!(captured(coordinator.capture(old, 100, 1, &mut queue)).published);
    assert!(coordinator.enqueue_if_current(&mut queue, ordinary(1, 1)).is_ok());
    assert!(coordinator.claim_posted(&queue).is_some());
    let lease = begun(coordinator.begin_dispatch(&mut queue, 1, 100, None));

    let step = coordinator.capture(new, 200, 1, &mut queue);
    assert!(matches!(step, CaptureStep::Draining));
    assert!(coordinator.context().is_none());
    assert_eq!(coordinator.current_generation(), 1);
    assert!(coordinator.resume_capture(new, &mut queue).is_none());

    coordinator.finish_dispatch(lease);
    let outcome = coordinator.resume_capture(new, &mut queue).unwrap();
    assert_eq!((outcome.connection_changed, outcome.published), (true, true));
    assert_eq!(coordinator.current_generation(), 2);
    assert_eq!(coordinator.context(), Some(new));
}

#[test]
fn reentrant_invalidation_is_released_after_dispatch_returns() {
    let mut coordinator = DispatchCoordinator::new();
    let mut queue = VecDeque::new();
    assert!(captured(coordinator.capture(context(1, 10, 100), 100, 1, &mut queue)).published);
    assert!(coordinator.enqueue_if_current(&mut queue, ordinary(1, 1)).is_ok());
    assert!(coordinator.claim_posted(&queue).is_some());
    let lease = begun(coordinator.begin_dispatch(&mut queue, 1, 100, None));

    let outcome = invalidated(coordinator.invalidate_generation(None, 100, &mut queue));
    assert_eq!(outcome.previous_generation, 1);
    assert!(coordinator.transition_in_progress);
    assert!(coordinator.context().is_none());
    assert_eq!(coordinator.current_generation(), 1);

    coordinator.finish_dispatch(lease);
    assert!(!coordinator.transition_in_progress);
    assert_eq!(coordinator.current_generation(), 2);
}

#[test]
fn invalidation_does_not_publish_the_old_connection_in_the_new_generation() {
    let mut coordinator = DispatchCoordinator::new();
    let mut queue = VecDeque::new();
    let old = context(1, 10, 100);
    let new = context(2, 20, 200);
    assert!(captured(coordinator.capture(old, 100, 1, &mut queue)).published);

    invalidated(coordinator.invalidate_generation(None, 200, &mut queue));
    assert_eq!(coordinator.current_generation(), 2);
    assert!(coordinator.context().is_none());
    assert!(!captured(coordinator.capture(old, 100, 1, &mut queue)).published);
    assert!(coordinator.context().is_none());

    assert!(captured(coordinator.capture(new, 200, 2, &mut queue)).published);
    assert_eq!(coordinator.context(), Some(new));
}

#[test]
fn enqueue_between_empty_drain_and_disarm_gets_a_successor_post() {
    let mut coordinator = DispatchCoordinator::new();
    let mut queue = VecDeque::new();
    assert!(captured(coordinator.capture(context(1, 10, 100), 100, 1, &mut queue)).published);
    assert!(coordinator.enqueue_if_current(&mut queue, ordinary(1, 1)).is_ok());
    assert!(coordinator.claim_posted(&queue).is_some());
    queue.clear();

    assert!(coordinator.enqueue_if_current(&mut queue, ordinary(2, 1)).is_ok());
    assert!(coordinator.disarm_posted(1));
    assert_eq!(coordinator.claim_posted(&queue), Some(1));
}

#[test]
fn connection_generation_never_uses_the_unarmed_value() {
    assert_eq!(next_injection_generation(u64::MAX), 1);
    assert_eq!(next_injection_generation(7), 8);
}

fn functions() -> NativeFunctions {
    NativeFunctions {
        site_known: true,
        add_work_item: 1,
        packet_alloc: 2,
        packet_init: 3,
        packet_release: 4,
    }
}

#[test]
fn a_drain_delivers_on_the_thread_that_receives() {
    let mut coordinator = DispatchCoordinator::new();
    let mut queue = VecDeque::new();
    assert!(captured(coordinator.capture(context(1, 10, 100), 100, 1, &mut queue)).published);
    assert!(coordinator.enqueue_if_current(&mut queue, ordinary(1, 1)).is_ok());
    assert_eq!(coordinator.claim_posted(&queue), Some(1));
    let wrong = drain_injections(&mut coordinator, &mut queue, &functions(), true, 1, 200, None);
    assert!(matches!(
        wrong,
        DrainAction::Stop(DrainResult::WrongThread { expected: 100 })
    ));
    let stale = drain_injections(&mut coordinator, &mut queue, &functions(), true, 9, 100, None);
    assert!(matches!(stale, DrainAction::Stop(DrainResult::Stale)));
    match drain_injections(&mut coordinator, &mut queue, &functions(), true, 1, 100, None) {
        DrainAction::Deliver { injection, active, .. } => {
            assert_eq!(injection.body, vec![1]);
            coordinator.finish_dispatch(active);
        },
        _ => panic!("nothing to deliver"),
    }
    let done = drain_injections(&mut coordinator, &mut queue, &functions(), true, 1, 100, None);
    assert!(matches!(done, DrainAction::Stop(DrainResult::Complete)));
    assert_eq!(
        complete_work_item(&mut coordinator, 0, DrainResult::Complete),
        CompletionAction::Nothing
    );
}

#[test]
fn a_packet_that_was_not_allocated_ends_the_generation() {
    assert_eq!(
        packet_step(PacketStage::Allocated { null: true }, true),
        PacketAction::Terminate { result: DrainResult::Stale }
    );
    for stage in [PacketStage::Allocated { null: false }, PacketStage::Initialised] {
        assert_eq!(
            packet_step(stage, false),
            PacketAction::ReleaseAndStop { result: DrainResult::Stale }
        );
    }
    assert_eq!(
        packet_step(PacketStage::Allocated { null: false }, true),
        PacketAction::Initialise
    );
    assert_eq!(packet_step(PacketStage::Initialised, true), PacketAction::Receive);
    assert_eq!(packet_step(PacketStage::Received, true), PacketAction::ReleaseAndContinue);
}

#[test]
fn a_frame_is_forwarded_unless_it_was_judged() {
    let untouched = send_frame_action(true, WEBSOCKET_BINARY, true, 8, SendFrameDecision::Pass);
    assert!(matches!(untouched, SendFrameAction::Forward));
    let dropped = send_frame_action(true, WEBSOCKET_BINARY, true, 8, SendFrameDecision::Drop);
    assert!(matches!(dropped, SendFrameAction::Answer(true)));
    let rewritten = send_frame_action(
        true,
        WEBSOCKET_BINARY,
        true,
        8,
        SendFrameDecision::Rewrite(vec![1, 2]),
    );
    assert!(matches!(rewritten, SendFrameAction::ForwardBytes(bytes) if bytes == vec![1, 2]));
    let text = send_frame_action(true, 1, true, 8, SendFrameDecision::Drop);
    assert!(matches!(text, SendFrameAction::Forward));
}

#[test]
fn a_warm_connection_is_flushed_once() {
    let mut done = false;
    assert!(!warmup_flush_due(&mut done, false));
    assert!(warmup_flush_due(&mut done, true));
    assert!(!warmup_flush_due(&mut done, true));
    assert!(needs_recapture(true, 1, 2));
    assert!(!needs_recapture(true, 2, 2));
    assert!(!usable_body_size(true, 0));
    assert!(usable_body_size(true, 4));
}

fn site() -> WorkItemSite {
    WorkItemSite {
        add_work_item: 0x100,
        pool_slot: 0x2000,
        timer_vtable: 0x2010,
        item_size: 64,
        refcount_offset: 8,
        timer_vptr_offsets: vec![16],
        sentinel_offsets: vec![(32, 0xff)],
    }
}

#[test]
fn a_site_outside_the_data_is_not_admitted() {
    let data = [AddressSpan { base: 0x2000, end: 0x3000 }];
    assert!(admit_work_item_site(&site(), Some(0x100), &data, 8));
    assert!(!admit_work_item_site(&site(), Some(0x101), &data, 8));
    assert!(!admit_work_item_site(&site(), None, &data, 8));
    assert!(!admit_work_item_site(&site(), Some(0x100), &[], 8));
    assert!(lies_in_data(&data, 0x2000, 8));
    assert!(!lies_in_data(&data, 0x2004, 8));
    assert!(!lies_in_data(&data, 0x3000, 8));
    assert_eq!(format_resolved_addr(Some(0x2f)), "0x2f");
    assert_eq!(format_optional_word(None), "unreadable");
}

#[test]
fn a_work_item_remembers_its_generation() {
    let image = allocate(&site(), 0x5000, 9, 8);
    assert_eq!(layout(64), Some(72));
    assert_eq!(image.len(), 72);
    assert_eq!(generation(&image, Some(64)), 9);
    assert_eq!(image[32], 0xff);
    assert_eq!(&image[0..8], &0x5000u64.to_le_bytes());
}

#[test]
fn a_response_is_kept_however_long_the_queue_is() {
    let mut coordinator = DispatchCoordinator::new();
    let mut queue = VecDeque::new();
    assert!(captured(coordinator.capture(context(1, 10, 100), 100, 1, &mut queue)).published);
    assert_eq!(enqueue(&coordinator, &mut queue, ordinary(1, 9)), EnqueueOutcome::Discarded);
    assert!(queue.is_empty());
    for _ in 0..MAX_QUEUED_INJECTIONS {
        assert_eq!(
            enqueue(&coordinator, &mut queue, ordinary(1, 1)),
            EnqueueOutcome::Queued { over_bound: false }
        );
    }
    assert_eq!(
        enqueue(&coordinator, &mut queue, ordinary(2, 1)),
        EnqueueOutcome::Queued { over_bound: true }
    );
    assert_eq!(queue.len(), MAX_QUEUED_INJECTIONS + 1);
    assert_eq!(queue.back().unwrap().body, vec![2]);
}

#[test]
fn a_drain_is_claimed_once_and_only_where_delivery_is_possible() {
    let mut coordinator = DispatchCoordinator::new();
    let mut queue = VecDeque::new();
    assert!(!response_delivery_ready(true, &functions(), &coordinator, 5));
    assert!(captured(coordinator.capture(context(1, 10, 100), 100, 1, &mut queue)).published);
    assert!(response_delivery_ready(true, &functions(), &coordinator, 5));
    assert!(!response_delivery_ready(false, &functions(), &coordinator, 5));
    assert!(!response_delivery_ready(true, &functions(), &coordinator, 0));
    let unresolved = NativeFunctions { packet_init: 0, ..functions() };
    assert!(!response_delivery_ready(true, &unresolved, &coordinator, 5));

    assert_eq!(claim_drain(true, &functions(), 5, &mut coordinator, &queue), None);
    assert!(coordinator.enqueue_if_current(&mut queue, ordinary(1, 1)).is_ok());
    assert_eq!(claim_drain(true, &functions(), 0, &mut coordinator, &queue), None);
    assert_eq!(claim_drain(false, &functions(), 5, &mut coordinator, &queue), None);
    assert_eq!(claim_drain(true, &unresolved, 5, &mut coordinator, &queue), None);
    assert_eq!(claim_drain(true, &functions(), 5, &mut coordinator, &queue), Some(1));
    assert_eq!(claim_drain(true, &functions(), 5, &mut coordinator, &queue), None);
}

#[test]
fn an_old_generation_finds_nothing_to_deliver() {
    let mut coordinator = DispatchCoordinator::new();
    let mut queue = VecDeque::new();
    assert!(captured(coordinator.capture(context(1, 10, 100), 100, 1, &mut queue)).published);
    assert!(coordinator.enqueue_if_current(&mut queue, ordinary(1, 1)).is_ok());
    assert_eq!(coordinator.claim_posted(&queue), Some(1));
    let outcome = invalidated(coordinator.invalidate_generation(None, 200, &mut queue));
    assert_eq!(outcome.discarded.len(), 1);
    assert!(matches!(
        coordinator.begin_dispatch(&mut queue, 1, 100, None),
        BeginDispatch::Stale
    ));
}

#[test]
fn the_end_of_a_generation_is_followed_by_its_cause() {
    let all = FollowUps { reset_warmup: true, cancel_conflicts: true, notify_stats: true };
    let none = FollowUps { reset_warmup: false, cancel_conflicts: false, notify_stats: false };
    assert_eq!(follow_transition(TransitionCause::Captured, true), all);
    assert_eq!(follow_transition(TransitionCause::Captured, false), none);
    assert_eq!(
        follow_transition(TransitionCause::Invalidated, true),
        FollowUps { cancel_conflicts: false, ..all }
    );
    assert_eq!(
        follow_transition(TransitionCause::Invalidated, false),
        FollowUps { reset_warmup: true, ..none }
    );
    assert_eq!(follow_transition(TransitionCause::Terminated, true), all);
    assert_eq!(follow_transition(TransitionCause::Terminated, false), none);
    assert_eq!(
        follow_transition(TransitionCause::PostRejected, true),
        FollowUps { notify_stats: false, ..all }
    );
}

#[test]
fn a_selftest_fires_once_on_a_usable_packet() {
    let mut armed = true;
    assert!(!fires_selftest(&mut armed, false, true, 5));
    assert!(!fires_selftest(&mut armed, true, true, 0));
    assert!(!fires_selftest(&mut armed, true, false, 5));
    assert!(fires_selftest(&mut armed, true, true, 5));
    assert!(!fires_selftest(&mut armed, true, true, 5));
    let mut kept = false;
    assert!(!keeps_inbound_body(&mut kept, true, 1048577));
    assert!(keeps_inbound_body(&mut kept, true, 1048576));
    assert!(!keeps_inbound_body(&mut kept, true, 5));
    assert_eq!(
        own_thread_test_reply(false, Some(5), true),
        "err dispatch context not ready (needs a prior inbound packet)"
    );
    assert_eq!(
        own_thread_test_reply(true, None, true),
        "err no captured inbound body yet (waiting for first inbound packet)"
    );
    assert_eq!(
        own_thread_test_reply(true, Some(5), false),
        "err failed to spawn dispatch thread"
    );
    assert_eq!(
        own_thread_test_reply(true, Some(5), true),
        "ok spawned own-thread dispatch of 5B; watch logs for execute + dispatched"
    );
}

#[test]
fn a_stale_run_disarms_while_a_delivery_is_active() {
    let mut coordinator = DispatchCoordinator::new();
    let mut queue = VecDeque::new();
    assert!(captured(coordinator.capture(context(1, 10, 100), 100, 1, &mut queue)).published);
    assert!(coordinator.enqueue_if_current(&mut queue, ordinary(1, 1)).is_ok());
    assert!(coordinator.enqueue_if_current(&mut queue, ordinary(2, 1)).is_ok());
    assert_eq!(coordinator.claim_posted(&queue), Some(1));
    let begun = coordinator.begin_dispatch(&mut queue, 1, 100, None);
    let active = match begun {
        BeginDispatch::Ready { active, .. } => active,
        _ => panic!("expected a delivery"),
    };
    assert!(matches!(
        coordinator.begin_dispatch(&mut queue, 1, 100, None),
        BeginDispatch::Stale
    ));
    assert_eq!(
        complete_work_item(&mut coordinator, 1, DrainResult::Stale),
        CompletionAction::Nothing
    );
    assert_eq!(coordinator.posted_generation, 0);
    assert_eq!(coordinator.claim_posted(&queue), Some(1));
    coordinator.finish_dispatch(active);
    assert!(coordinator.active_dispatch.is_none());
}
