use vapor_forge_hooks::capability::{Capability, CapabilityRegistry, FailurePolicy};
use vapor_forge_hooks::code_shape::CodeRegion;
use vapor_forge_hooks::install::{
    begin_package_capture, binary_family_for_code_region, current_hook_architecture,
    disable_hook_batch_capabilities, do_install, find_steamclient_exec_mapping,
    finish_hook_batch, finish_install, finish_package_capture, hook_name, install_hook_batch,
    is_hook_batch_finished, load_pattern_registry, publish_capabilities,
    resolve_cuser_adapter, resolve_interface_method_address, retain_complete_groups, steam_binary_family_from_path,
    steam_hook_batch_supported, validate_hotfix_candidate_content, validate_live_hotfix,
    vtable_slot_count, BatchAction, BatchState, Callables, ConfigStoreMethods,
    HookBatch, HotfixProbe, InterfaceTable,
    MethodCandidate, PackageInfoStep, PatternSource, ProcMapsEntry, SteamBinaryFamily, HOOK_COUNT,
};
use vapor_forge_hooks::code_shape::Arch;
use vapor_forge_hooks::package::PKG0_ACCESS_TOKEN;

fn mapping(base: usize, end: usize, path: &str) -> ProcMapsEntry {
    ProcMapsEntry { base, end, permissions: "r-xp".to_owned(), path: path.to_owned() }
}

const CODE_BYTES: [u8; 0x100] = [0; 0x100];

#[test]
fn classifies_ordinary_and_steamrt_paths() {
    assert_eq!(
        steam_binary_family_from_path("/home/user/.steam/ubuntu12_32/steamclient.so"),
        Some(SteamBinaryFamily::Ordinary)
    );
    assert_eq!(
        steam_binary_family_from_path("/home/user/.steam/linux64/steamclient.so"),
        Some(SteamBinaryFamily::Ordinary)
    );
    assert_eq!(
        steam_binary_family_from_path("/home/user/.steam/steamrt64/steamclient.so"),
        Some(SteamBinaryFamily::SteamRt)
    );
    assert_eq!(steam_binary_family_from_path("/tmp/steamclient.so"), None);
}

#[test]
fn target_family_uses_the_mapping_that_contains_the_code_region() {
    let entries = vec![
        mapping(0x1000, 0x2000, "/home/user/.steam/linux64/steamclient.so"),
        mapping(0x3000, 0x4000, "/home/user/.steam/steamrt64/steamclient.so"),
    ];
    let code = CodeRegion { base: 0x3000, bytes: &CODE_BYTES };

    assert_eq!(
        binary_family_for_code_region(&entries, "steamclient", &code),
        Some(SteamBinaryFamily::SteamRt)
    );
}

#[test]
fn target_family_rejects_a_different_module_mapping() {
    let entries = vec![mapping(0x3000, 0x4000, "/home/user/.steam/steamrt64/steamui.so")];
    let code = CodeRegion { base: 0x3000, bytes: &CODE_BYTES };

    assert_eq!(binary_family_for_code_region(&entries, "steamclient", &code), None);
}

#[test]
fn the_mapping_that_runs_is_the_executable_one() {
    let mut data = mapping(0x1000, 0x2000, "/home/user/.steam/linux64/steamclient.so");
    data.permissions = "rw-p".to_owned();
    let entries = vec![
        data,
        mapping(0x2000, 0x3000, "/home/user/.steam/linux64/libsteamclient.so"),
        mapping(0x3000, 0x4000, "/home/user/.steam/linux64/steamclient.so"),
    ];
    assert_eq!(find_steamclient_exec_mapping(&entries), Some(2));
    assert_eq!(find_steamclient_exec_mapping(&Vec::new()), None);
}

#[test]
fn records_ready_and_disabled_capabilities() {
    let mut registry = CapabilityRegistry::new();
    registry.set(Capability::LaunchEnvironment, true, String::new());
    registry.disable_all(&[Capability::OverviewMetadata], "missing FillInAppOverview");

    assert!(registry.is_ready(Capability::LaunchEnvironment));
    assert!(!registry.is_ready(Capability::OverviewMetadata));
    let statuses = registry.statuses();
    assert!(statuses.iter().any(|status| {
        status.capability == Capability::OverviewMetadata
            && status.initialized
            && status.reason.as_deref() == Some("missing FillInAppOverview")
    }));
}

#[test]
fn requirement_failures_name_every_missing_dependency() {
    let mut registry = CapabilityRegistry::new();
    let ready = registry.set_from_requirements(
        Capability::LibrarySnapshot,
        &[("BuildComplete", false), ("RepeatedField::Add", false)],
    );
    assert!(!ready);
    let status = registry
        .statuses()
        .into_iter()
        .find(|status| status.capability == Capability::LibrarySnapshot)
        .unwrap();
    assert_eq!(status.reason.as_deref(), Some("missing BuildComplete, RepeatedField::Add"));
}

#[test]
fn met_requirements_make_a_capability_ready() {
    let mut registry = CapabilityRegistry::new();
    assert!(registry.statuses().iter().all(|status| !status.initialized && !status.ready));
    assert!(registry
        .set_from_requirements(Capability::LibrarySnapshot, &[("BuildComplete", true)]));
    assert!(registry.is_ready(Capability::LibrarySnapshot));
    let names: Vec<&str> = Capability::all().iter().map(|item| item.name()).collect();
    let mut sorted = names.clone();
    sorted.sort();
    sorted.dedup();
    assert_eq!(sorted.len(), names.len());
    assert!(Capability::all()
        .iter()
        .any(|item| item.failure_policy() == FailurePolicy::FailClosed));
}

#[test]
fn a_batch_is_installed_once() {
    let mut state = BatchState::new();
    let mut registry = CapabilityRegistry::new();
    let batch = HookBatch::SteamClient;
    assert!(!is_hook_batch_finished(&state, batch));
    assert_eq!(
        install_hook_batch(&mut state, &mut registry, batch, true, true),
        BatchAction::Install
    );
    assert_eq!(
        install_hook_batch(&mut state, &mut registry, batch, true, true),
        BatchAction::Leave
    );
    finish_hook_batch(&mut state, batch);
    assert!(is_hook_batch_finished(&state, batch));
    assert!(!is_hook_batch_finished(&state, HookBatch::SteamUi));
}

#[test]
fn a_batch_without_a_runtime_is_rejected() {
    let mut state = BatchState::new();
    let mut registry = CapabilityRegistry::new();
    assert_eq!(
        install_hook_batch(&mut state, &mut registry, HookBatch::SteamClient, false, true),
        BatchAction::Rejected
    );
    assert!(steam_hook_batch_supported(HookBatch::SteamClient, true, true));
    assert!(!steam_hook_batch_supported(HookBatch::SteamClient, false, false));
    assert!(!steam_hook_batch_supported(HookBatch::SteamUi, true, true));
    assert_eq!(current_hook_architecture(64), "x86_64");
    assert_eq!(current_hook_architecture(32), "x86");
    disable_hook_batch_capabilities(&mut registry, HookBatch::SteamUi, "off");
    assert!(registry.statuses().iter().any(|status| status.reason.as_deref() == Some("off")));
}

fn all_callables() -> Callables {
    Callables { native_packets: true, packages: true, set_cloud: true, set_env: true }
}

#[test]
fn groups_of_hooks_stand_or_fall_together() {
    let mut found: Vec<Option<usize>> = vec![Some(0x1000); HOOK_COUNT];
    assert_eq!(retain_complete_groups(&found, all_callables()), found);
    found[16] = None;
    let kept = retain_complete_groups(&found, all_callables());
    assert_eq!(kept[16], None);
    assert_eq!(kept[17], None);
    assert_eq!(kept[0], Some(0x1000));
}

#[test]
fn capabilities_follow_what_was_installed() {
    let mut registry = CapabilityRegistry::new();
    let found: Vec<Option<usize>> = vec![Some(0x1000); HOOK_COUNT];
    let plan = do_install(&mut registry, true, true, &found, all_callables(), Some(0x2000)).unwrap();
    assert!(plan.len() >= HOOK_COUNT);
    assert!(plan.iter().any(|hook| hook.name == hook_name(0) && hook.addr == 0x1000));
    let installed = vec![true; HOOK_COUNT];
    assert!(publish_capabilities(&mut registry, &installed, all_callables()));
    assert!(registry.is_ready(Capability::CallbackEvents));
    assert!(registry.is_ready(Capability::CmInterception));
    let none = vec![false; HOOK_COUNT];
    assert!(!publish_capabilities(&mut registry, &none, all_callables()));
    assert!(!registry.is_ready(Capability::CallbackEvents));

    let mut unmapped = CapabilityRegistry::new();
    assert!(do_install(&mut unmapped, false, true, &found, all_callables(), None).is_none());
    assert!(!unmapped.is_ready(Capability::CmInterception));
}

fn probe(name: &str) -> HotfixProbe {
    HotfixProbe { name: name.to_owned(), present: true, address: Some(0x3010), complaint: None }
}

#[test]
fn a_hotfix_has_to_hold_for_every_pattern() {
    assert_eq!(validate_live_hotfix(&vec![probe("A"), probe("B")], 0x3000), Ok(()));
    let gone = HotfixProbe { present: false, ..probe("B\"x") };
    assert_eq!(
        validate_live_hotfix(&vec![probe("A"), gone], 0x3000),
        Err("hotfix entry \"B\\\"x\" disappeared".to_owned())
    );
    let many = HotfixProbe { address: None, ..probe("A") };
    assert_eq!(
        validate_live_hotfix(&vec![many], 0x3000),
        Err("hotfix pattern \"A\" did not resolve uniquely".to_owned())
    );
    let outside = HotfixProbe { address: Some(0x2fff), ..probe("A") };
    assert_eq!(
        validate_live_hotfix(&vec![outside], 0x3000),
        Err("hotfix pattern \"A\" resolved outside the module".to_owned())
    );
    let wrong = HotfixProbe { complaint: Some("no call".to_owned()), ..probe("A") };
    assert_eq!(
        validate_live_hotfix(&vec![wrong], 0x3000),
        Err("hotfix pattern \"A\": no call".to_owned())
    );
    assert_eq!(load_pattern_registry(true, true, true), Some(PatternSource::Hotfix));
    assert_eq!(load_pattern_registry(true, true, false), Some(PatternSource::Embedded));
}

#[test]
fn an_interface_method_is_taken_from_a_table_of_its_own() {
    let code = CodeRegion { base: 0x3000, bytes: &CODE_BYTES };
    let none = ConfigStoreMethods { get: None, set: None };
    let table = InterfaceTable { slots: vec![4], methods: vec![None, None, None, None, Some(0x3010)] };
    assert_eq!(
        resolve_interface_method_address(&code, "IClientUser", "GetSteamID", &none, &table),
        Some(0x3010)
    );
    let outside =
        InterfaceTable { slots: vec![4], methods: vec![None, None, None, None, Some(0x9000)] };
    assert_eq!(
        resolve_interface_method_address(&code, "IClientUser", "GetSteamID", &none, &outside),
        None
    );
    let candidates = vec![
        MethodCandidate { offset_to_top: 0, vtable_va: 0x10, slot: 3, func_va: 0x3000 },
        MethodCandidate { offset_to_top: 0, vtable_va: 0x10, slot: 7, func_va: 0x3001 },
        MethodCandidate { offset_to_top: 0, vtable_va: 0x20, slot: 9, func_va: 0x3002 },
    ];
    assert_eq!(vtable_slot_count(&candidates, 0x10), 8);
    assert_eq!(vtable_slot_count(&candidates, 0x30), 0);
}

#[test]
fn the_base_package_is_captured_once() {
    let mut captured = false;
    let first = begin_package_capture(&mut captured, Arch::X64, true, Some(0), 5);
    assert_ne!(first, PackageInfoStep::Pass);
    finish_package_capture(&mut captured, true);
    assert_eq!(
        begin_package_capture(&mut captured, Arch::X64, true, Some(0), 5),
        PackageInfoStep::Pass
    );
    let mut off = false;
    assert_eq!(
        begin_package_capture(&mut off, Arch::X64, false, Some(0), 5),
        PackageInfoStep::Pass
    );
}

#[test]
fn candidate_content_passes_through_the_live_semantic_gate() {
    let content = "[hotfix]\nformat = 1\nrevision = 1\narchitecture = \"x86_64\"\n\
        binary_family = \"steamrt\"\n\n[steamclient.\"CUser::CheckAppOwnership\"]\n\
        pattern = \"C3 C2 C1 C0\"\n";
    let wrong =
        HotfixProbe { complaint: Some("no prologue".to_owned()), ..probe("CUser::CheckAppOwnership") };
    let error = validate_hotfix_candidate_content(content.as_bytes(), Ok(&vec![wrong]), 0x3000)
        .unwrap_err();
    assert!(error.contains("semantic validation failed"));
    assert!(error.contains("\"CUser::CheckAppOwnership\": no prologue"));
}

#[test]
fn a_candidate_is_refused_by_the_first_thing_that_is_wrong() {
    let probes = vec![probe("A")];
    assert_eq!(validate_hotfix_candidate_content(b"text", Ok(&probes), 0x3000), Ok(()));
    assert_eq!(
        validate_hotfix_candidate_content(&[0xff], Ok(&probes), 0x3000),
        Err(format!(
            "candidate is not UTF-8: {}",
            std::str::from_utf8(&[0xff]).unwrap_err()
        ))
    );
    assert_eq!(
        validate_hotfix_candidate_content(b"text", Err("no table"), 0x3000),
        Err("candidate rejected: no table".to_owned())
    );
}

#[test]
fn the_base_package_is_looked_up_with_its_token() {
    let base = PackageInfoStep::LookUpBase {
        package_id: 0,
        access_token: 10660652434190618804,
    };
    let mut captured = false;
    assert_eq!(begin_package_capture(&mut captured, Arch::X64, true, Some(7), 7), base);
    finish_package_capture(&mut captured, false);
    assert_eq!(begin_package_capture(&mut captured, Arch::X64, true, None, 7), base);
    let mut narrow = false;
    assert_eq!(
        begin_package_capture(&mut narrow, Arch::X86, true, None, 7),
        PackageInfoStep::CaptureReceiver
    );
    assert_eq!(PKG0_ACCESS_TOKEN, 10660652434190618804);
}

#[test]
fn a_plan_is_settled_by_what_was_put_in_place() {
    let mut registry = CapabilityRegistry::new();
    let found: Vec<Option<usize>> = vec![Some(0x1000); HOOK_COUNT];
    let plan = do_install(&mut registry, true, true, &found, all_callables(), Some(0x2000)).unwrap();
    let (report, callbacks) =
        finish_install(&mut registry, &plan, &vec![true; HOOK_COUNT], all_callables());
    assert!(callbacks);
    assert!(report.iter().all(|hook| hook.installed));
    assert!(registry.is_ready(Capability::CmInterception));
    let (report, callbacks) =
        finish_install(&mut registry, &plan, &vec![false; HOOK_COUNT], all_callables());
    assert!(!callbacks);
    assert!(report.iter().all(|hook| !hook.installed));
    assert!(report.iter().any(|hook| hook.addr == 0x1000));
    assert!(!registry.is_ready(Capability::CmInterception));
}

#[test]
fn an_implementation_is_taken_from_the_table_as_wide_as_the_interface() {
    let code = CodeRegion { base: 0x3000, bytes: &CODE_BYTES };
    let entry = |vtable_va: usize, slot: usize, func_va: usize| MethodCandidate {
        offset_to_top: -8,
        vtable_va,
        slot,
        func_va,
    };
    let candidates = vec![
        MethodCandidate { offset_to_top: 0, vtable_va: 0x10, slot: 1, func_va: 0x3000 },
        entry(0x20, 1, 0x3010),
        entry(0x20, 2, 0x3020),
        entry(0x30, 1, 0x3030),
    ];
    let resolve = |slots: Vec<usize>, width: Option<usize>| {
        resolve_cuser_adapter(Arch::X64, &code, "Other", &slots, width, &candidates, None)
    };
    assert_eq!(resolve(vec![1], Some(3)), Some(0x3010));
    assert_eq!(resolve(vec![1], Some(2)), Some(0x3030));
    assert_eq!(resolve(vec![1], Some(4)), None);
    assert_eq!(resolve(vec![1], None), None);
    assert_eq!(resolve(vec![1, 2], Some(3)), None);
}
