use vapor_forge_hooks::env::{
    bounded_cstr_to_string, evaluate_launch, helper_candidates, hold_preload,
    inject_spawn_environment, launched_app, merges_preload, release_preload, resolve_helper_path,
    touches_environment, BridgeLaunch, EnvWrite, Injection, PendingPreload,
};
use vapor_forge_hooks::runtime::{
    after_template, build_script_dirs_for, config_failure_text, config_path_for_home,
    config_verdict, ensure_runtime_initialized, ensure_runtime_services_for_config, game_bridge_required,
    home_root_candidates, load_config_for_home, merge_avatars, merge_script_apps,
    resolve_steam_install_root, steam_root_from_executable, AvatarEntry, BridgeStep,
    ConfigFailure, ConfigStep, InitStep, InjectApp, RuntimeConfig, RuntimeInit, TemplateOutcome,
    TemplateStep,
};
use vapor_forge_hooks::ticket::TicketMode;

#[test]
fn steam_root_is_inferred_from_the_running_steam_executable() {
    let executable = "/home/user/.steam/debian-installation/ubuntu12_32/steam";

    assert_eq!(
        steam_root_from_executable(executable),
        Some("/home/user/.steam/debian-installation".to_owned())
    );
    assert_eq!(steam_root_from_executable("/usr/bin/steam"), None);
}

#[test]
fn runtime_config_path_is_canonical_for_the_home_directory() {
    assert_eq!(
        config_path_for_home(Some("/home/user")),
        Some("/home/user/.config/vapor-forge/config.toml".to_owned())
    );
    assert_eq!(config_path_for_home(None), None);
}

#[test]
fn missing_home_rejects_runtime_initialization() {
    assert_eq!(load_config_for_home(false, false), ConfigStep::NoHome);
    let error = config_failure_text(ConfigFailure::NoHome, "", "");
    assert!(error.contains("HOME is unavailable"));
}

#[test]
fn a_configuration_that_does_not_load_is_terminal() {
    assert_eq!(load_config_for_home(true, true), ConfigStep::Load);
    let error = config_failure_text(
        ConfigFailure::NotLoaded,
        "/home/.config/vapor-forge/config.toml",
        "unknown field",
    );
    assert!(error.contains("unknown field"));
}

#[test]
fn a_missing_configuration_is_written_and_loaded() {
    assert_eq!(load_config_for_home(true, false), ConfigStep::WriteTemplate);
    assert_eq!(after_template(TemplateOutcome::Written), TemplateStep::LoadGenerated);
    assert_eq!(after_template(TemplateOutcome::AlreadyExists), TemplateStep::LoadExisting);
    assert_eq!(after_template(TemplateOutcome::Failed), TemplateStep::Reject);
}

#[test]
fn the_steam_root_comes_from_the_first_source_that_knows() {
    let candidates = home_root_candidates("/home");
    assert!(candidates.contains(&"/home/.steam/root".to_owned()));
    let install = "/debian-installation".to_owned();
    assert_eq!(
        resolve_steam_install_root(None, None, &vec![None, Some(install.clone())]),
        Some(install.clone())
    );
    assert_eq!(
        resolve_steam_install_root(
            Some("/opt/steam/ubuntu12_32/steam"),
            None,
            &vec![Some(install.clone())],
        ),
        Some("/opt/steam".to_owned())
    );
    assert_eq!(resolve_steam_install_root(Some("/usr/bin/steam"), None, &Vec::new()), None);
}

#[test]
fn script_directories_exclude_undocumented_steam_paths() {
    let dirs = build_script_dirs_for(
        Some("/steam"),
        Some("/home/user"),
        &vec!["/explicit/scripts".to_owned()],
    );

    assert_eq!(
        dirs,
        [
            "/steam/config/lua",
            "/home/user/.config/vapor-forge/scripts",
            "/explicit/scripts",
        ]
    );
    assert!(!dirs.iter().any(|path| path.ends_with("config/scripts")));
}

#[test]
fn a_script_directory_is_listed_once() {
    let dirs = build_script_dirs_for(
        Some("/steam"),
        None,
        &vec!["/steam/config/lua".to_owned(), "/a".to_owned(), "/a".to_owned()],
    );
    assert_eq!(dirs, ["/steam/config/lua", "/a"]);
}

#[test]
fn script_apps_never_mutate_the_base_config() {
    let base = RuntimeConfig { inject: Vec::new(), rest: "everything else" };
    let effective = merge_script_apps(base.clone(), &[480], TicketMode::Forge);

    assert!(base.inject.is_empty());
    assert_eq!(effective.inject.len(), 1);
    assert_eq!(effective.inject[0].id, 480);
    assert_eq!(effective.rest, base.rest);

    let after_script_removal = merge_script_apps(base.clone(), &[], TicketMode::Forge);
    assert!(after_script_removal.inject.is_empty());
}

#[test]
fn a_configured_app_is_not_added_again() {
    let app =
        InjectApp { id: 480, dlc: vec![481], ticket: TicketMode::Delegate, purchase_time: 7 };
    let config = RuntimeConfig { inject: vec![app], rest: () };
    let merged = merge_script_apps(config, &[480, 620], TicketMode::Forge).inject;
    assert_eq!(merged[0].ticket, TicketMode::Delegate);
    assert_eq!(merged[1].ticket, TicketMode::Forge);
    assert!(merged[1].dlc.is_empty());
    assert_eq!(merged.iter().map(|app| app.id).collect::<Vec<_>>(), vec![480, 620]);
    assert_eq!((merged[0].dlc.clone(), merged[0].purchase_time), (vec![481], 7));
    assert_eq!(merged[1].purchase_time, 0);
}

#[test]
fn runtime_snapshot_merges_avatar_map_with_lua_precedence() {
    let configured = [
        AvatarEntry { app_id: 480, avatar: 10 },
        AvatarEntry { app_id: 481, avatar: 11 },
    ];
    let avatars = merge_avatars(&configured, &[AvatarEntry { app_id: 480, avatar: 20 }]);

    assert_eq!(avatars.get(&480), Some(&20));
    assert_eq!(avatars.get(&481), Some(&11));
}

#[test]
fn game_bridge_is_only_required_for_auto_delegate() {
    assert!(!game_bridge_required(false));
    let cumulus = ensure_runtime_services_for_config(false, true, false, false, true);
    assert!(cumulus.start_workers);
    assert_eq!(cumulus.bridge, BridgeStep::Leave);
    assert!(game_bridge_required(true));
    let delegate = ensure_runtime_services_for_config(false, true, true, false, true);
    assert_eq!(delegate.bridge, BridgeStep::Start);
    let helpless = ensure_runtime_services_for_config(false, true, true, false, false);
    assert_eq!(helpless.bridge, BridgeStep::NoHelper);
}

#[test]
fn the_runtime_is_set_up_once() {
    let mut init = RuntimeInit::new();
    assert_eq!(ensure_runtime_initialized(&mut init), InitStep::SetUp);
    assert!(init.finish(true));
    assert_eq!(ensure_runtime_initialized(&mut init), InitStep::Done(true));
    let first = init.take_generation();
    assert_eq!(init.take_generation(), first + 1);

    let mut failed = RuntimeInit::new();
    assert_eq!(ensure_runtime_initialized(&mut failed), InitStep::SetUp);
    assert!(!failed.finish(false));
    assert_eq!(ensure_runtime_initialized(&mut failed), InitStep::Done(false));
}

fn value_of<'a>(writes: &'a [EnvWrite], key: &str) -> Option<&'a str> {
    writes.iter().find(|write| write.key == key).map(|write| write.value.as_str())
}

#[test]
fn a_launch_gets_its_libraries_and_the_helper_on_demand() {
    let native = Some(Injection {
        native_libs: vec!["/a.so".to_owned(), "/b.so".to_owned()],
        proton_dll: None,
        loader_fix: false,
    });
    let plan = inject_spawn_environment(&native, &None, Some("/helper.so"), true).unwrap();
    assert_eq!(value_of(&plan.writes, "LD_PRELOAD"), Some("/a.so:/b.so"));
    assert_eq!(value_of(&plan.writes, "LD_AUDIT"), None);

    let proton = Some(Injection {
        native_libs: Vec::new(),
        proton_dll: Some("/c.dll".to_owned()),
        loader_fix: false,
    });
    let plan = inject_spawn_environment(&proton, &None, Some("/helper.so"), true).unwrap();
    assert_eq!(value_of(&plan.writes, "LD_AUDIT"), Some("/helper.so"));
    assert_eq!(value_of(&plan.writes, "VAPOR_FORGE_INJECT_DLL"), Some("/c.dll"));

    let bridge = Some(BridgeLaunch {
        token_key: "TOKEN".to_owned(),
        socket_key: "SOCKET".to_owned(),
        socket_path: "/tmp/sock".to_owned(),
        token: Some("secret".to_owned()),
    });
    let plan = inject_spawn_environment(&None, &bridge, Some("/helper.so"), true).unwrap();
    assert_eq!(value_of(&plan.writes, "TOKEN"), Some("secret"));
    assert_eq!(value_of(&plan.writes, "SOCKET"), Some("/tmp/sock"));
    assert!(plan.registers_token);

    assert!(inject_spawn_environment(&None, &None, Some("/helper.so"), true).is_none());
}

#[test]
fn a_preload_is_held_for_one_environment() {
    let mut pending: Option<PendingPreload> = None;
    hold_preload(&mut pending, 0x10, Some(vec!["/a.so".to_owned()]));
    assert!(merges_preload(&pending, 0x10, Some("LD_PRELOAD"), true));
    assert!(!merges_preload(&pending, 0x20, Some("LD_PRELOAD"), true));
    assert!(!merges_preload(&pending, 0x10, Some("PATH"), true));
    assert!(!merges_preload(&pending, 0x10, Some("LD_PRELOAD"), false));
    release_preload(&mut pending, true);
    assert!(!merges_preload(&pending, 0x10, Some("LD_PRELOAD"), true));
}

#[test]
fn a_launch_is_read_out_of_its_arguments() {
    assert_eq!(launched_app(0x0100_01e0), 480);
    assert_eq!(bounded_cstr_to_string(b"-novid\0rest", 4096), "-novid");
    assert_eq!(bounded_cstr_to_string(b"-novid", 3), "-no");
    assert_eq!(bounded_cstr_to_string(&[0x61, 0xff, 0x00], 16), "a\u{fffd}");
    let evaluation =
        evaluate_launch(true, Some(480), Some(b"-windowed\0"), true, false).unwrap();
    assert_eq!((evaluation.app_id, evaluation.options.as_str()), (480, "-windowed"));
    assert!(evaluation.avatar_rules);
    assert!(!evaluation.library_rules);
    assert!(evaluate_launch(false, Some(480), None, true, true).is_none());
    assert!(evaluate_launch(true, None, None, true, true).is_none());
    assert!(touches_environment(true, true, true));
    assert!(!touches_environment(true, false, true));
}

#[test]
fn the_first_helper_that_is_there_is_used() {
    let candidates = helper_candidates("/configured.so", Some("/lib"));
    assert_eq!(candidates[0], "/configured.so");
    let present = vec![false; candidates.len()];
    assert_eq!(resolve_helper_path(&candidates, &present), None);
    let mut second = present.clone();
    second[1] = true;
    assert_eq!(resolve_helper_path(&candidates, &second), Some(candidates[1].clone()));
}

#[test]
fn a_configuration_fails_by_the_step_that_failed() {
    let written = TemplateOutcome::Written;
    let raced = TemplateOutcome::AlreadyExists;
    assert_eq!(config_verdict(ConfigStep::NoHome, written, true), Err(ConfigFailure::NoHome));
    assert_eq!(config_verdict(ConfigStep::Load, written, true), Ok(()));
    assert_eq!(config_verdict(ConfigStep::Load, written, false), Err(ConfigFailure::NotLoaded));
    let template = ConfigStep::WriteTemplate;
    assert_eq!(config_verdict(template, written, true), Ok(()));
    assert_eq!(config_verdict(template, written, false), Err(ConfigFailure::GeneratedNotLoaded));
    assert_eq!(config_verdict(template, raced, false), Err(ConfigFailure::NotLoaded));
    assert_eq!(
        config_verdict(template, TemplateOutcome::Failed, true),
        Err(ConfigFailure::TemplateNotWritten)
    );
}
