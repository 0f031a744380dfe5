use vapor_forge_hooks::account::answered_steam_id;
use vapor_forge_hooks::legacy_cdkey::{
    requires_legacy_cdkey, resolve_implementation, suppresses_legacy_cdkey, AppAuthority,
    LegacyKeyStep,
};
use vapor_forge_hooks::ownership::{
    check_app_ownership, dlc_answer, get_subscribed_apps, starts_stats_worker, OwnershipAnswer,
    OwnershipDecision, SubscribedStep,
};

const GRANT: OwnershipDecision = OwnershipDecision {
    result: true,
    grant_spoofed_ownership: true,
    clear_family_shared: true,
};

#[test]
fn ownership_passes_through_until_the_capability_is_ready() {
    let answer = check_app_ownership(false, false, true, false, GRANT, true, 7);
    assert_eq!(
        answer,
        OwnershipAnswer {
            result: false,
            captures_user: false,
            records_genuine: false,
            grant: false,
            clear_shared: false,
            stamp: None,
        }
    );
}

#[test]
fn a_call_without_a_record_only_captures_the_user() {
    let answer = check_app_ownership(true, false, false, false, GRANT, true, 7);
    assert!(answer.captures_user);
    assert!(!answer.result && !answer.records_genuine && !answer.grant && !answer.clear_shared);
    assert_eq!(answer.stamp, None);
}

#[test]
fn injected_apps_get_their_purchase_time() {
    let answer = check_app_ownership(true, false, true, false, GRANT, true, 1_700_000_000);
    assert!(answer.result && answer.grant && answer.clear_shared && answer.records_genuine);
    assert_eq!(answer.stamp, Some(1_700_000_000));
    assert_eq!(check_app_ownership(true, true, true, false, GRANT, true, 0).stamp, None);
    let owned = check_app_ownership(true, true, true, false, GRANT, false, 9);
    assert_eq!(owned.stamp, None);
    assert!(!owned.records_genuine);
}

#[test]
fn subscriptions_are_sized_before_they_are_filled() {
    assert_eq!(get_subscribed_apps(false, false, 0, 5, 3), SubscribedStep::Pass(5));
    assert_eq!(get_subscribed_apps(true, false, 0, 5, 3), SubscribedStep::Report(8));
    assert_eq!(get_subscribed_apps(true, true, 0, 5, 3), SubscribedStep::Report(8));
    assert_eq!(get_subscribed_apps(true, true, 4, 5, 3), SubscribedStep::Report(8));
    assert_eq!(get_subscribed_apps(true, true, 8, 5, 3), SubscribedStep::Fill(5));
    assert_eq!(get_subscribed_apps(true, true, 8, 5, u32::MAX), SubscribedStep::Fill(5));
    assert_eq!(get_subscribed_apps(false, false, 0, 5, u32::MAX), SubscribedStep::Pass(5));
}

#[test]
fn other_answers_wait_for_their_capability() {
    assert!(dlc_answer(true, false, true));
    assert!(!dlc_answer(false, false, true));
    assert!(starts_stats_worker(true, true));
    assert!(!starts_stats_worker(true, false));
    assert!(!starts_stats_worker(false, true));
    assert_eq!(answered_steam_id(true, 5, 7), 5);
    assert_eq!(answered_steam_id(true, 0, 7), 7);
    assert_eq!(answered_steam_id(false, 5, 7), 7);
}

#[test]
fn resolves_addresses_relative_to_the_code_base() {
    const BASE: usize = 0x10_0000;
    assert_eq!(resolve_implementation(BASE, BASE + 0x10, Some(0x10)), Some(BASE + 0x10));
    assert_eq!(resolve_implementation(BASE, BASE - 1, Some(0x10)), None);
    assert_eq!(resolve_implementation(BASE, BASE + 0x10, None), None);
    assert_eq!(resolve_implementation(BASE, BASE + 0x10, Some(usize::MAX)), None);
}

#[test]
fn only_controlled_apps_are_suppressed() {
    assert!(suppresses_legacy_cdkey(AppAuthority::Controlled));
    assert!(!suppresses_legacy_cdkey(AppAuthority::Uncontrolled));
    assert_eq!(
        requires_legacy_cdkey(true, AppAuthority::Controlled, true),
        LegacyKeyStep::NotNeeded { clears_flag: true }
    );
    assert_eq!(
        requires_legacy_cdkey(false, AppAuthority::Controlled, true),
        LegacyKeyStep::Forward
    );
    assert_eq!(
        requires_legacy_cdkey(true, AppAuthority::Uncontrolled, true),
        LegacyKeyStep::Forward
    );
}
