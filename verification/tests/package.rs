use vapor_forge_hooks::network::AddressSpan;
use vapor_forge_hooks::package::{
    admit_engine_site, all_functions_resolved, apply_reload_diff, engine_queue_step,
    get_package_info_addr, inject, package_contents, package_is_usable, queue_reload,
    queue_storage_is_usable, resolve_functions, run_initial_update, run_pending_ownership_refresh,
    run_reload_update, settle_post, update_item, update_kind, AppId, LicenseRefresh,
    OwnershipFinding, FoundPackage, PackageFunctions, PackageHeader, PackageState, PostConditions,
    QueueStep, ReloadDiff,
    UpdateDispatch, UpdateKind, MAX_LICENSE_REFRESH_ATTEMPTS, PKG_STATUS_AVAILABLE,
};

fn dispatch() -> UpdateDispatch {
    UpdateDispatch { pending: None, posted_generation: None }
}

#[test]
fn reload_dispatch_keeps_only_the_latest_state() {
    let mut dispatch = dispatch();
    dispatch.replace_pending(vec![AppId(1)], 7);
    dispatch.replace_pending(vec![AppId(2), AppId(3)], 7);
    assert!(dispatch.arm(7));
    assert_eq!(dispatch.take_for(7), Some(vec![AppId(2), AppId(3)]));
}

#[test]
fn reload_arriving_during_execution_arms_a_second_item() {
    let mut dispatch = dispatch();
    dispatch.replace_pending(vec![AppId(1)], 7);
    assert!(dispatch.arm(7));
    assert_eq!(dispatch.take_for(7), Some(vec![AppId(1)]));

    dispatch.replace_pending(vec![AppId(2)], 7);
    assert!(!dispatch.arm(7));
    assert!(dispatch.complete(7));
    assert!(dispatch.arm(7));
    assert_eq!(dispatch.take_for(7), Some(vec![AppId(2)]));
}

#[test]
fn stale_item_cannot_disarm_a_new_generation() {
    let mut dispatch = dispatch();
    dispatch.replace_pending(vec![AppId(1)], 7);
    assert!(dispatch.arm(7));
    dispatch.pending = None;
    dispatch.posted_generation = None;

    dispatch.replace_pending(vec![AppId(2)], 8);
    assert!(dispatch.arm(8));
    assert!(!dispatch.complete(7));
    assert_eq!(dispatch.posted_generation, Some(8));
    assert_eq!(dispatch.take_for(8), Some(vec![AppId(2)]));
}

#[test]
fn rejected_post_is_terminal_for_its_generation() {
    let mut dispatch = dispatch();
    dispatch.replace_pending(vec![AppId(1)], 7);
    assert!(dispatch.arm(7));
    dispatch.reject_post(7);
    assert!(dispatch.pending.is_none());
    assert!(dispatch.posted_generation.is_none());
}

fn ready(generation: u64) -> PostConditions {
    PostConditions { capability_ready: true, site_known: true, generation }
}

fn closed(generation: u64) -> PostConditions {
    PostConditions { capability_ready: false, ..ready(generation) }
}

fn header(package_id: u32, status: u32, size: i32, memory_is_valid: bool) -> PackageHeader {
    PackageHeader { package_id, status, size, capacity: 8, memory_is_valid }
}

fn resolved_functions() -> PackageFunctions {
    PackageFunctions {
        mark_license: Some(1),
        process_updates: Some(2),
        grow: Some(3),
        get_package_info: None,
        work_item_site: false,
    }
}

#[test]
fn an_update_is_posted_for_the_captured_account() {
    let mut state = PackageState::new();
    assert!(state.account_state_is_clear());
    assert_eq!(state.capture_cuser(0x10, ready(7), vec![AppId(480)]), None);
    assert!(state.dispatch.pending.is_none());
    state.capture_pkg_info_this(0x20);
    assert!(state.cuser_captured());
    let usable = header(0, 0, 3, true);
    assert_eq!(state.capture_validated_pkg0(0x30, usable, closed(7), vec![AppId(480)]), None);
    assert!(state.pkg0_captured());
    assert_eq!(state.try_post_update(closed(7)), None);
    assert_eq!(state.try_post_update(ready(7)), Some(7));
    assert_eq!(state.try_post_update(ready(7)), None);
    let functions = resolved_functions();
    assert_eq!(update_kind(&state, &functions, 7, true), Some(UpdateKind::Initial));
    assert_eq!(state.run_update_work_item(7, 7, Some(7)), Some(vec![AppId(480)]));
    state.reset_account_state();
    assert!(state.account_state_is_clear());
}

#[test]
fn binding_the_last_piece_posts_the_first_update() {
    let mut state = PackageState::new();
    let usable = header(0, 0, 0, true);
    assert_eq!(state.capture_validated_pkg0(0x30, usable, ready(7), vec![AppId(1)]), None);
    assert_eq!(state.capture_cuser(0x10, ready(7), vec![AppId(480)]), Some(7));
    assert_eq!(state.dispatch.posted_generation, Some(7));
    state.finish_post(7, true);
    assert_eq!(state.run_update_work_item(7, 7, Some(7)), Some(vec![AppId(480)]));
    assert_eq!(state.complete_update_work_item(7, ready(7)), None);
    state.injected = true;
    assert_eq!(state.capture_cuser(0x11, ready(7), vec![AppId(620)]), None);
    assert!(state.dispatch.pending.is_none());
    assert_eq!(queue_reload(&mut state, vec![AppId(730)], ready(7)), Some(7));
    state.finish_post(7, false);
    assert!(state.dispatch.pending.is_none() && state.dispatch.posted_generation.is_none());
}

#[test]
fn only_the_available_base_package_is_used() {
    assert!(package_is_usable(&header(0, 0, 3, true)));
    let refused = [
        header(5, 0, 3, true),
        header(0, 1, 3, true),
        header(0, 0, -1, true),
        header(0, 0, 9, true),
        header(0, 0, 3, false),
    ];
    for header in refused {
        assert!(!package_is_usable(&header));
        let mut state = PackageState::new();
        assert_eq!(state.capture_validated_pkg0(0x30, header, ready(7), vec![AppId(1)]), None);
        assert!(!state.pkg0_captured());
    }
    let mut state = PackageState::new();
    assert_eq!(state.capture_validated_pkg0(0, header(0, 0, 3, true), ready(7), vec![]), None);
    assert!(!state.pkg0_captured());
}

#[test]
fn a_base_package_is_looked_up_until_one_is_known() {
    let mut state = PackageState::new();
    assert_eq!(state.try_capture_pkg0_from_package_info(0x20, None, ready(7), vec![]), None);
    assert_eq!(state.package_store, 0x20);
    assert!(!state.pkg0_captured());
    let found = Some(FoundPackage { package: 0x30, header: header(0, 0, 3, true) });
    state.capture_cuser(0x10, ready(7), vec![]);
    let apps = vec![AppId(480)];
    assert_eq!(state.try_capture_pkg0_from_package_info(0x21, found, ready(7), apps), Some(7));
    assert_eq!((state.package_store, state.pkg0), (0x20, 0x30));
    let other = Some(FoundPackage { package: 0x31, header: header(0, 0, 3, true) });
    assert_eq!(state.try_capture_pkg0_from_package_info(0x21, other, ready(7), vec![]), None);
    assert_eq!(state.pkg0, 0x30);
}

#[test]
fn an_update_needs_access_to_the_package() {
    let functions = resolved_functions();
    let mut state = PackageState::new();
    state.cuser_generation = 7;
    assert_eq!(update_kind(&state, &functions, 7, true), None);
    state.cuser = 0x10;
    assert_eq!(update_kind(&state, &functions, 7, true), None);
    state.pkg0 = 0x30;
    assert_eq!(update_kind(&state, &functions, 7, true), Some(UpdateKind::Initial));
    assert_eq!(update_kind(&state, &functions, 8, true), None);
    for missing in [
        PackageFunctions { mark_license: None, ..functions },
        PackageFunctions { process_updates: None, ..functions },
        PackageFunctions { grow: None, ..functions },
    ] {
        assert_eq!(update_kind(&state, &missing, 7, true), None);
    }
    state.injected = true;
    assert_eq!(update_kind(&state, &functions, 7, true), Some(UpdateKind::Reload));
    assert_eq!(update_kind(&state, &functions, 7, false), None);
}

#[test]
fn what_was_resolved_before_is_kept() {
    let none = PackageFunctions {
        mark_license: None,
        process_updates: None,
        grow: None,
        get_package_info: None,
        work_item_site: false,
    };
    let mut functions = PackageFunctions { mark_license: Some(1), ..none };
    let resolved = PackageFunctions {
        mark_license: None,
        process_updates: Some(2),
        grow: Some(3),
        get_package_info: Some(4),
        work_item_site: true,
    };
    assert!(!all_functions_resolved(&functions));
    resolve_functions(&mut functions, &resolved);
    assert_eq!(functions.mark_license, Some(1));
    assert_eq!(get_package_info_addr(&functions), Some(4));
    assert!(all_functions_resolved(&functions));
}

#[test]
fn a_queue_grows_before_it_takes_more() {
    assert_eq!(engine_queue_step(3, 8, false), QueueStep::Append { at: 3 });
    assert_eq!(engine_queue_step(8, 8, false), QueueStep::Grow);
    assert_eq!(engine_queue_step(8, 8, true), QueueStep::Refuse);
    assert_eq!(engine_queue_step(-1, 8, false), QueueStep::Refuse);
    let data = [AddressSpan { base: 0x2000, end: 0x3000 }];
    assert!(admit_engine_site(0x1000, 0x100, 0x1010, 0x2000, &data, 8));
    assert!(!admit_engine_site(0x1000, 0x100, 0x1100, 0x2000, &data, 8));
    assert!(!admit_engine_site(0x1000, 0x100, 0x1010, 0x2001, &data, 8));
}

#[test]
fn a_complete_list_holds_every_app() {
    let mut list = vec![10];
    let result = inject(&mut list, &[AppId(10), AppId(20), AppId(30)], &[true, true, false]);
    assert_eq!(result.appended, vec![AppId(20)]);
    assert!(!result.complete);
    assert_eq!(list, vec![10, 20]);
    let again = inject(&mut list, &[AppId(10), AppId(20)], &[true, true]);
    assert!(again.appended.is_empty());
    assert!(again.complete);
}

#[test]
fn a_reload_applies_what_is_possible() {
    let mut list = vec![10, 20, 30];
    let diff = ReloadDiff {
        additions: vec![AppId(40), AppId(50)],
        removals: vec![AppId(10), AppId(99)],
    };
    let applied = apply_reload_diff(&mut list, &diff, &[true, false]);
    assert_eq!(applied.additions, vec![AppId(40)]);
    assert_eq!(applied.removals, vec![AppId(10)]);
    list.sort();
    assert_eq!(list, vec![20, 30, 40]);
}

#[test]
fn licenses_are_looked_up_until_they_are_known() {
    let mut refresh = LicenseRefresh::new();
    assert!(refresh.begin(true).is_none());
    refresh.note_license_list(vec![(1, 7), (2, 8)]);
    assert!(refresh.begin(false).is_none());
    assert_eq!(refresh.begin(true), Some(vec![(1, 7), (2, 8)]));
    assert_eq!(refresh.finish(false), 1);
    assert!(refresh.begin(true).is_some());
    refresh.finish(true);
    assert!(refresh.begin(true).is_none());

    refresh.note_license_list(vec![(1, 7)]);
    let mut rounds = 0;
    while refresh.begin(true).is_some() {
        refresh.finish(false);
        rounds += 1;
        assert!(rounds <= MAX_LICENSE_REFRESH_ATTEMPTS);
    }
    assert_eq!(rounds, MAX_LICENSE_REFRESH_ATTEMPTS);
}

#[test]
fn a_complete_refresh_judges_every_app() {
    let infos = [Some(vec![480, 620]), Some(vec![10])];
    let result = run_pending_ownership_refresh(&infos, &[AppId(480), AppId(999)]);
    assert!(result.complete);
    assert_eq!(result.missing, 0);
    assert_eq!(
        result.findings,
        vec![
            OwnershipFinding { app_id: AppId(480), owned: true },
            OwnershipFinding { app_id: AppId(999), owned: false },
        ]
    );
    let partial = run_pending_ownership_refresh(&[Some(vec![480]), None], &[AppId(480), AppId(999)]);
    assert!(!partial.complete);
    assert_eq!(partial.missing, 1);
}

#[test]
fn a_reload_waits_for_the_present_account() {
    let mut state = PackageState::new();
    assert_eq!(queue_reload(&mut state, vec![AppId(480)], ready(0)), None);
    assert!(state.dispatch.pending.is_none());
    assert_eq!(queue_reload(&mut state, vec![AppId(480)], ready(7)), None);
    assert_eq!(queue_reload(&mut state, vec![AppId(570)], ready(7)), None);
    let pending = state.dispatch.pending.as_ref().unwrap();
    assert_eq!(pending.controlled, vec![AppId(570)]);
    assert_eq!(pending.generation, 7);
}

#[test]
fn a_package_work_item_is_five_words_long() {
    let image = update_item(40, 0x1122, 7, 0x3344, 0x5566, 8).unwrap();
    let mut expected = Vec::new();
    for word in [0x1122u64, 7, 0, 0x3344, 0x5566] {
        expected.extend_from_slice(&word.to_le_bytes());
    }
    assert_eq!(image, expected);
    let image = update_item(20, 0x1122, 0x1_0000_0007, 0x3344, 0x5566, 4).unwrap();
    let mut expected = Vec::new();
    for word in [0x1122u32, 7, 1, 0x3344, 0x5566] {
        expected.extend_from_slice(&word.to_le_bytes());
    }
    assert_eq!(image, expected);
    assert!(update_item(32, 0x1122, 7, 0x3344, 0x5566, 8).is_none());
}

#[test]
fn a_first_update_is_done_when_every_app_found_its_place() {
    let mut state = PackageState::new();
    let mut list = vec![7];
    let plan = [AppId(480), AppId(7), AppId(620)];
    let update = run_initial_update(&mut state, &mut list, false, &plan, &[true; 3]);
    assert!(!update.done && !update.publish && !state.injected);
    assert_eq!(list, vec![7]);
    let update = run_initial_update(&mut state, &mut list, true, &plan, &[true, true, false]);
    assert_eq!(update.appended, vec![AppId(480)]);
    assert!(update.publish && !update.done && !state.injected);
    let update = run_initial_update(&mut state, &mut list, true, &plan, &[true; 3]);
    assert_eq!(update.appended, vec![AppId(620)]);
    assert!(update.done && state.injected);
    assert_eq!(list, vec![7, 480, 620]);
}

#[test]
fn a_reload_tells_what_it_changed() {
    let mut list = vec![480, 620];
    let diff = ReloadDiff { additions: vec![AppId(730)], removals: vec![AppId(480), AppId(5)] };
    assert!(run_reload_update(&mut list, false, &diff, &[true]).is_none());
    let (applied, publish) = run_reload_update(&mut list, true, &diff, &[true]).unwrap();
    assert_eq!(applied.removals, vec![AppId(480)]);
    assert_eq!(applied.additions, vec![AppId(730)]);
    assert!(publish);
    assert_eq!(list, vec![620, 730]);
    let (_, publish) = run_reload_update(&mut list, true, &diff, &[true]).unwrap();
    assert!(!publish);
}

#[test]
fn a_successor_carries_what_arrived_meanwhile() {
    let mut state = PackageState::new();
    state.capture_cuser(0x10, ready(7), vec![]);
    state.pkg0 = 0x30;
    let ready = ready(7);
    assert_eq!(queue_reload(&mut state, vec![AppId(480)], ready), Some(7));
    assert_eq!(state.run_update_work_item(7, 7, Some(7)), Some(vec![AppId(480)]));
    assert_eq!(queue_reload(&mut state, vec![AppId(620)], ready), None);
    assert_eq!(state.complete_update_work_item(8, ready), None);
    assert_eq!(state.complete_update_work_item(7, ready), Some(7));
    assert_eq!(state.run_update_work_item(7, 7, Some(7)), Some(vec![AppId(620)]));
    assert_eq!(state.complete_update_work_item(7, ready), None);
}

#[test]
fn an_item_is_freed_unless_the_queue_took_it() {
    assert_eq!(settle_post(true, true, true, true), (true, false));
    assert_eq!(settle_post(true, true, true, false), (false, false));
    assert_eq!(settle_post(true, false, true, true), (false, true));
    assert_eq!(settle_post(false, true, true, true), (false, true));
    assert!(queue_storage_is_usable(0x1000, 8));
    assert!(!queue_storage_is_usable(0, 8));
    assert!(!queue_storage_is_usable(0x1004, 8));
    assert_eq!(package_contents(Some(PKG_STATUS_AVAILABLE), vec![1]), Some(vec![1]));
    assert_eq!(package_contents(Some(PKG_STATUS_AVAILABLE + 1), vec![1]), None);
    assert_eq!(package_contents(None, vec![1]), None);
}

#[test]
fn package_zero_is_never_consulted() {
    let mut refresh = LicenseRefresh::new();
    refresh.note_license_list(vec![(0, 3), (1, 7), (0, 9), (2, 8)]);
    assert_eq!(refresh.begin(true), Some(vec![(1, 7), (2, 8)]));
    assert_eq!(refresh.pending.as_ref().unwrap().packages.len(), 4);
    refresh.note_license_list(vec![(0, 3)]);
    assert_eq!(refresh.begin(true), Some(Vec::new()));
    let result = run_pending_ownership_refresh(&[], &[AppId(480)]);
    assert!(result.complete);
    assert_eq!(result.findings, vec![OwnershipFinding { app_id: AppId(480), owned: false }]);
}
