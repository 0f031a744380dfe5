use vapor_forge_hooks::account::{follow_identity, publishes_steam_id};
use vapor_forge_hooks::achievement_adapters::{
    achievement_identity, bounded_key, explicit_app_id, follows_progress, owner_and_app,
    validate_adapter_target, NoSchema, MAX_ACHIEVEMENT_KEY_LEN, SET_ACHIEVEMENT_NAME,
    SET_STAT_INT_NAME,
};
use vapor_forge_hooks::bytes::{find_seq_from, has_seq, le_i32, le_number, le_u32, same_bytes, to_le_bytes};
use vapor_forge_hooks::cloud::{
    filters_vdf, is_cloud_enabled_for_app, shader_cache_depot, sweep_controlled_apps,
    sweep_is_reported, CloudSweep, CloudWrite, PlannedApp, SweepStep,
};
use vapor_forge_hooks::cloud_http::{
    admit_local_transfer, complete_job, deliver_outcome, http_job_start, http_layout,
    prepare_download_handler, probe_request_identity, read_string, unset_response_status, Delivery,
    JobImage, JobStart, TransferBody, TransferContract, TransferOutcome, MAX_LOCAL_TRANSFER_BYTES,
};
use vapor_forge_hooks::code_shape::{Arch, CodeRegion};
use vapor_forge_hooks::current_app::{
    current_app_id, parse_resolver, CurrentAppResolver, HELPER_TAIL, X64_HELPER_HEAD,
    X64_HELPER_TABLE, X86_HELPER_HEAD, X86_HELPER_TABLE,
};
use vapor_forge_hooks::depot::{
    build_depot_dependency, extract_depot_id_from_raw, requested_depot_key, serve_depot_key,
    DepotEntry, ManifestPatch,
};
use vapor_forge_hooks::lists::{contains_u32, find_and_fast_remove, insert_ascending, remove_ascending};
use vapor_forge_hooks::maps::{is_readable, parse_hex_address, parse_mapping, readable_mappings, ReadableMapping};
use vapor_forge_hooks::paths::{join_path, path_components, path_has_component};
use vapor_forge_hooks::text::{
    chars_of, decimal, ends_with_text, has_char, hexadecimal, parse_u64, signed_decimal,
    starts_with_text, text_eq, text_of,
};

#[test]
fn extracts_cgameid_app_id_and_bounded_key() {
    let game_id = (1u64 << 24) | 736260;
    assert_eq!(explicit_app_id(Some(game_id)), Some(736260));
    assert_eq!(
        bounded_key(Some(b"BABA_ABSTRACT\0"), MAX_ACHIEVEMENT_KEY_LEN),
        Some("BABA_ABSTRACT".to_owned())
    );
}

#[test]
fn rejects_missing_or_unterminated_arguments() {
    let unterminated = [b'A'; MAX_ACHIEVEMENT_KEY_LEN];
    assert_eq!(explicit_app_id(None), None);
    assert_eq!(bounded_key(None, MAX_ACHIEVEMENT_KEY_LEN), None);
    assert_eq!(bounded_key(Some(&unterminated), MAX_ACHIEVEMENT_KEY_LEN), None);
}

#[test]
fn keys_that_are_no_utf8_are_replaced() {
    assert_eq!(
        bounded_key(Some(&[0x41, 0xff, 0x42, 0x00]), MAX_ACHIEVEMENT_KEY_LEN),
        Some("A\u{fffd}B".to_owned())
    );
    let identity = achievement_identity(7, Some(480), Some(b"KEY\0")).unwrap();
    assert_eq!((identity.owner, identity.app_id, identity.key.as_str()), (7, 480, "KEY"));
    assert!(achievement_identity(0, Some(480), Some(b"KEY\0")).is_none());
    assert_eq!(owner_and_app(7, Some(480)), Some((7, 480)));
    assert_eq!(owner_and_app(7, None), None);
    assert!(follows_progress(1, true, 3, 3));
    assert!(!follows_progress(1, true, 4, 3));
    assert!(!follows_progress(1, true, 0, 0));
    assert!(!follows_progress(1, false, 3, 3));
    assert!(!follows_progress(0, true, 3, 3));
}

#[test]
fn an_app_without_a_schema_is_noted_once() {
    let mut apps = NoSchema::new();
    assert!(apps.note_schema_unavailable(480).first);
    let again = apps.note_schema_unavailable(480);
    assert!(again.removes_schema && !again.first);
    assert!(apps.register_packet_schema(480, &[1], true));
    assert!(apps.note_schema_unavailable(480).first);
    assert!(!apps.register_packet_schema(480, &[], true));
    assert!(!apps.note_schema_unavailable(480).first);
    assert!(!apps.register_packet_schema(480, &[1], false));
    assert!(apps.note_schema_unavailable(480).first);
    let none = apps.note_schema_unavailable(0);
    assert!(!none.removes_schema && !none.first);
}

#[test]
fn numbers_survive_their_bytes() {
    for value in [0, 1, 255, 256, 0x0102_0304_0506_0708, u64::MAX] {
        assert_eq!(to_le_bytes(value, 8), value.to_le_bytes().to_vec());
        assert_eq!(le_number(&to_le_bytes(value, 8)), value);
    }
    assert_eq!(le_u32(&[1, 2, 3, 4]), 0x0403_0201);
    assert_eq!(le_i32(&[0xff, 0xff, 0xff, 0xff]), -1);
    assert_eq!(find_seq_from(&[1, 2, 1, 2], &[1, 2], 1), Some(2));
    assert!(has_seq(&[1, 2, 3], &[2, 3]));
    assert!(!has_seq(&[1, 2, 3], &[3, 2]));
    assert!(same_bytes(&[1], &[1]));
}

#[test]
fn rows_keep_what_was_not_removed() {
    let mut row = vec![1, 2, 3, 4];
    assert!(find_and_fast_remove(&mut row, 2));
    assert_eq!(row, vec![1, 4, 3]);
    assert!(!find_and_fast_remove(&mut row, 2));
    assert!(contains_u32(&row, 4));
    let mut sorted = vec![1, 5];
    insert_ascending(&mut sorted, 3);
    insert_ascending(&mut sorted, 3);
    assert_eq!(sorted, vec![1, 3, 5]);
    remove_ascending(&mut sorted, 1);
    assert_eq!(sorted, vec![3, 5]);
}

#[test]
fn texts_are_formatted_and_compared() {
    assert_eq!(decimal(0), "0");
    assert_eq!(decimal(u64::MAX), u64::MAX.to_string());
    assert_eq!(signed_decimal(i64::MIN), i64::MIN.to_string());
    assert_eq!(hexadecimal(0xdead), "dead");
    assert_eq!(parse_u64("42"), Some(42));
    assert_eq!(parse_u64(&decimal(u64::MAX)), Some(u64::MAX));
    assert_eq!(parse_u64("x"), None);
    assert!(text_eq("a\u{e9}", "a\u{e9}"));
    assert!(!text_eq("a", "b"));
    assert!(ends_with_text("/steamclient.so", "client.so"));
    assert!(!ends_with_text("so", "client.so"));
    assert!(starts_with_text("ok [1]", "ok "));
    assert!(has_char("r-xp", 'x'));
    assert_eq!(text_of(&chars_of("h\u{fffd}")), "h\u{fffd}");
}

#[test]
fn paths_are_made_of_components() {
    assert_eq!(path_components("/home//user/x"), vec!["home", "user", "x"]);
    assert!(path_has_component("/a/steamrt64/b", "steamrt64"));
    assert!(!path_has_component("/a/steamrt642/b", "steamrt64"));
    assert_eq!(join_path("/home/", "x"), "/home/x");
    assert_eq!(join_path("/home", "x"), "/home/x");
}

#[test]
fn mappings_are_read_line_by_line() {
    let address = |text: &str| parse_hex_address(&chars_of(text));
    assert_eq!(address("7f00"), Some(0x7f00));
    assert_eq!(address(""), None);
    assert_eq!(address("xyz"), None);
    let line = chars_of("1000-2000 r-xp 00000000 08:01 1 /steamclient.so");
    assert_eq!(parse_mapping(&line), Some(ReadableMapping { start: 0x1000, end: 0x2000 }));
    let contents = b"1000-2000 r-xp 0 0 0 /a\n2000-3000 ---p 0 0 0\n3000-4000 rw-p 0 0 0\n";
    let mappings = readable_mappings(contents).unwrap();
    assert_eq!(
        mappings,
        vec![
            ReadableMapping { start: 0x1000, end: 0x2000 },
            ReadableMapping { start: 0x3000, end: 0x4000 },
        ]
    );
    assert!(is_readable(0x1ff8, 8, &mappings));
    assert!(!is_readable(0x1ff9, 8, &mappings));
    assert!(!is_readable(0x2000, 8, &mappings));
    let wide = "1000-2000\u{2003}r-xp 0\r\n";
    assert_eq!(
        readable_mappings(wide.as_bytes()).unwrap(),
        vec![ReadableMapping { start: 0x1000, end: 0x2000 }]
    );
    assert!(readable_mappings(b"1000-2000 r-xp 0 \xff\n").is_none());
    // 1400 characters of three bytes each are too long a line.
    let long = format!("1000-2000 r-xp 0 {}", "\u{2603}".repeat(1400));
    assert!(readable_mappings(long.as_bytes()).unwrap().is_empty());
    let short = format!("1000-2000 r-xp 0 {}", "\u{2603}".repeat(1300));
    assert_eq!(readable_mappings(short.as_bytes()).unwrap().len(), 1);
}

#[test]
fn a_sweep_is_made_once_per_generation() {
    let mut sweep = CloudSweep::new();
    let first = sweep.begin(0x10, 1, 1);
    assert!(matches!(first, SweepStep::Sweep { .. }));
    assert_eq!(sweep.begin(0x10, 1, 1), SweepStep::Busy);
    sweep.finish(1, 1);
    assert_eq!(sweep.begin(0x10, 1, 1), SweepStep::UpToDate);
    assert_eq!(sweep.begin(0x10, 2, 1), SweepStep::Sweep { receiver_changed: false });
}

#[test]
fn a_sweep_writes_what_changes() {
    let disable = [
        PlannedApp { app_id: 1, changes: true },
        PlannedApp { app_id: 2, changes: false },
    ];
    let enable = [PlannedApp { app_id: 3, changes: true }];
    let result = sweep_controlled_apps(&disable, &enable, true);
    assert_eq!(
        result.writes,
        vec![
            CloudWrite { app_id: 1, enabled: false },
            CloudWrite { app_id: 3, enabled: true },
        ]
    );
    assert_eq!((result.disabled, result.restored), (1, 1));
    assert!(sweep_is_reported(&result, false));
    assert!(filters_vdf(true, true, 4));
    assert!(!filters_vdf(true, false, 4));
    assert_eq!(shader_cache_depot(7, true, true), 0);
    assert_eq!(shader_cache_depot(7, true, false), 7);
    let gate = is_cloud_enabled_for_app(true, true, true, true, true, true);
    assert!(gate.answer);
    assert_eq!(gate.write, Some(false));
    let off = is_cloud_enabled_for_app(false, true, true, true, true, true);
    assert!(off.answer);
    assert_eq!(off.write, None);
}

#[test]
fn a_transfer_is_admitted_by_its_contract() {
    let layout = http_layout(Arch::X64);
    assert_eq!(probe_request_identity(0, &layout), None);
    assert_eq!(probe_request_identity(0x1000, &layout), Some(0x1000 + layout.request_host));
    assert_eq!(layout.request_path, layout.request_host + layout.word);
    assert_eq!(
        read_string(0x1000, Some(b"host.example\0")),
        Some("host.example".to_owned())
    );
    assert_eq!(read_string(0, None), Some(String::new()));
    assert_eq!(read_string(0x1000, Some(&[0xff, 0x00])), None);
    assert_eq!(read_string(0x1000, Some(b"endless")), None);
    assert_eq!(read_string(0x1000, None), None);
    let upload = TransferContract::Upload { transfer_size: 5 };
    assert_eq!(
        admit_local_transfer(upload, 0x2000, 5, None),
        Some(TransferBody::Upload { address: 0x2000, size: 5 })
    );
    assert_eq!(admit_local_transfer(upload, 0x2000, 6, None), None);
    assert_eq!(admit_local_transfer(upload, 0, 5, None), None);
    let size = MAX_LOCAL_TRANSFER_BYTES as i32 + 1;
    let huge = TransferContract::Upload { transfer_size: size as u64 };
    assert_eq!(admit_local_transfer(huge, 0x2000, size, None), None);
    assert_eq!(
        admit_local_transfer(TransferContract::Download, 0, 0, Some(0x3000)),
        Some(TransferBody::Download { handler: 0x3000 })
    );
    assert_eq!(http_job_start(true, true, true), JobStart::Answer);
    assert_eq!(http_job_start(true, true, false), JobStart::Forward);
    assert_eq!(complete_job(true).success, 1);
    assert_eq!(complete_job(false).success, 0);
    assert_eq!(
        deliver_outcome(TransferOutcome::Upload { ok: true }, false),
        Delivery::Complete { success: true }
    );
    assert_eq!(
        deliver_outcome(TransferOutcome::Download { body_len: Some(5) }, true),
        Delivery::CallHandler { put: 5 }
    );
    assert_eq!(
        deliver_outcome(
            TransferOutcome::Download { body_len: Some(i32::MAX as usize + 1) },
            true,
        ),
        Delivery::Complete { success: false }
    );
}

#[test]
fn pins_change_manifests_and_no_depots() {
    let entry = DepotEntry { depot_id: 481, manifest_gid: 1, manifest_size: 10 };
    let other = DepotEntry { depot_id: 999, manifest_gid: 2, manifest_size: 20 };
    let patch = ManifestPatch { depot_id: 481, new_gid: 7, new_size: None };
    let mut entries = vec![entry, other];
    build_depot_dependency(&mut entries, 8, &[patch], true, true);
    assert_eq!(
        entries,
        vec![DepotEntry { manifest_gid: 7, ..entry }, other]
    );
    let mut untouched = vec![entry, other];
    build_depot_dependency(&mut untouched, 8, &[patch], false, true);
    assert_eq!(untouched, vec![entry, other]);
    assert_eq!(extract_depot_id_from_raw(b"xx\\depots\\481\\DecryptionKey\0"), Some(481));
    assert_eq!(extract_depot_id_from_raw(b"nothing\0"), None);
}

#[test]
fn the_account_is_followed() {
    assert!(publishes_steam_id(true, false, 7, true));
    assert!(!publishes_steam_id(true, true, 7, true));
    assert!(publishes_steam_id(true, false, 0, false));
    assert!(!publishes_steam_id(true, false, 7, false));
    let switched = follow_identity(true, 7, 0);
    assert!(switched.reset);
    let same = follow_identity(false, 7, 7);
    assert!(!same.reset);
    assert_eq!(current_app_id(480), Some(480));
    assert_eq!(current_app_id(0), None);
}

#[test]
fn an_adapter_is_known_by_its_slot_and_its_game_id() {
    // mov rax, [rsi]; mov rax, [rdi+1e0h]
    let mut bytes = vec![0x48, 0x8b, 0x06, 0x48, 0x8b, 0x87, 0xe0, 0x01, 0x00, 0x00, 0xc3];
    {
        let code = CodeRegion { base: 0x1000, bytes: &bytes };
        assert!(validate_adapter_target(Arch::X64, &code, SET_ACHIEVEMENT_NAME, 0x1000));
        assert!(!validate_adapter_target(Arch::X64, &code, SET_STAT_INT_NAME, 0x1000));
        assert!(!validate_adapter_target(Arch::X64, &code, "CUserStats::Other", 0x1000));
        assert!(!validate_adapter_target(Arch::X64, &code, SET_ACHIEVEMENT_NAME, 0x1003));
        assert!(!validate_adapter_target(Arch::X64, &code, SET_ACHIEVEMENT_NAME, 0x0fff));
        assert!(!validate_adapter_target(Arch::X64, &code, SET_ACHIEVEMENT_NAME, 0x2000));
    }
    // mov rax, [rdi] does not read the game id
    bytes[2] = 0x07;
    let code = CodeRegion { base: 0x1000, bytes: &bytes };
    assert!(!validate_adapter_target(Arch::X64, &code, SET_ACHIEVEMENT_NAME, 0x1000));
}

fn place(code: &mut [u8], at: usize, bytes: &[u8]) {
    code[at..at + bytes.len()].copy_from_slice(bytes);
}

#[test]
fn a_64_bit_adapter_leads_to_the_helper() {
    let mut bytes = vec![0x90u8; 0x400];
    // lea rax, [rip+2000h]; mov rdi, [rax]; call helper
    place(&mut bytes, 0x20, &[0x48, 0x8d, 0x05, 0x00, 0x20, 0x00, 0x00, 0x48, 0x8b, 0x38, 0xe8]);
    place(&mut bytes, 0x2b, &(0x300i32 - 0x2f).to_le_bytes());
    let unknown = CodeRegion { base: 0x1000, bytes: &bytes };
    assert_eq!(parse_resolver(Arch::X64, &unknown, 0x1000), None);

    let mut bytes = bytes.clone();
    place(&mut bytes, 0x300, &X64_HELPER_HEAD);
    place(&mut bytes, 0x320, &X64_HELPER_TABLE);
    place(&mut bytes, 0x330, &HELPER_TAIL);
    let code = CodeRegion { base: 0x1000, bytes: &bytes };
    assert_eq!(
        parse_resolver(Arch::X64, &code, 0x1000),
        Some(CurrentAppResolver { engine_slot: 0x1027 + 0x2000, helper: 0x1300 })
    );
    assert_eq!(parse_resolver(Arch::X64, &code, 0x0fff), None);
    assert_eq!(parse_resolver(Arch::X64, &code, 0x1300), None);
}

#[test]
fn a_32_bit_adapter_leads_to_the_helper() {
    let mut bytes = vec![0x90u8; 0x400];
    // push ebp, edi, esi, ebx; call; add ebx, 5000h
    place(&mut bytes, 0x10, &[0x55, 0x57, 0x56, 0x53, 0xe8, 1, 2, 3, 4, 0x81, 0xc3, 0x00, 0x50, 0, 0]);
    // lea eax, [ebx-100h]; push [eax]; call helper
    place(&mut bytes, 0x30, &[0x8d, 0x83]);
    place(&mut bytes, 0x32, &(-0x100i32).to_le_bytes());
    place(&mut bytes, 0x38, &[0xff, 0x30, 0xe8]);
    place(&mut bytes, 0x3b, &(0x300i32 - 0x3f).to_le_bytes());
    place(&mut bytes, 0x300, &X86_HELPER_HEAD);
    place(&mut bytes, 0x320, &X86_HELPER_TABLE);
    place(&mut bytes, 0x330, &HELPER_TAIL);
    let code = CodeRegion { base: 0x1000, bytes: &bytes };
    assert_eq!(
        parse_resolver(Arch::X86, &code, 0x1000),
        Some(CurrentAppResolver { engine_slot: 0x1019 + 0x5000 - 0x100, helper: 0x1300 })
    );
    let mut unanchored = bytes.clone();
    unanchored[0x10] = 0x90;
    let code = CodeRegion { base: 0x1000, bytes: &unanchored };
    assert_eq!(parse_resolver(Arch::X86, &code, 0x1000), None);
}

#[test]
fn a_download_handler_is_prepared_from_readable_memory() {
    let layout = http_layout(Arch::X64);
    let prepared = prepare_download_handler(&layout, 0x1000, Some(0x2000), Some(0x3000)).unwrap();
    assert_eq!((prepared.handler, prepared.body), (0x1000, 0x3000));
    let spans: Vec<(usize, usize)> =
        prepared.demands.iter().map(|demand| (demand.address, demand.len)).collect();
    assert_eq!(spans, vec![(0x1000, 8), (0x2000, 0x40), (0x3000, 1)]);
    assert_eq!(prepared.demands[1].write, Some(false));
    assert!(prepared.demands[1].file_backed);
    assert_eq!(prepared.demands[2].execute, Some(true));
    assert!(prepare_download_handler(&layout, 0, Some(0x2000), Some(0x3000)).is_none());
    assert!(prepare_download_handler(&layout, 0x1000, None, Some(0x3000)).is_none());
    assert!(prepare_download_handler(&layout, 0x1000, Some(0x2000), None).is_none());
    assert!(prepare_download_handler(&layout, 0x1000, Some(usize::MAX), Some(0x3000)).is_none());
}

#[test]
fn a_status_is_written_only_to_a_sound_job() {
    let layout = http_layout(Arch::X64);
    let sound = JobImage {
        request: Some(0x2000),
        complete: Some(0),
        success: Some(1),
        response: Some(0x3000),
        status: Some(599),
    };
    let slot = unset_response_status(0x1000, 0x2000, &layout, &sound).unwrap();
    assert_eq!(slot.status_address, 0x300c);
    let spans: Vec<(usize, usize)> =
        slot.demands.iter().map(|demand| (demand.address, demand.len)).collect();
    assert_eq!(spans, vec![(0x1022, 2), (0x300c, 4)]);
    assert!(unset_response_status(0, 0x2000, &layout, &sound).is_none());
    assert!(unset_response_status(0x1000, 0x2001, &layout, &sound).is_none());
    let flagged = JobImage { complete: Some(2), ..sound };
    assert!(unset_response_status(0x1000, 0x2000, &layout, &flagged).is_none());
    let beyond = JobImage { status: Some(600), ..sound };
    assert!(unset_response_status(0x1000, 0x2000, &layout, &beyond).is_none());
    let empty = JobImage { response: Some(0), ..sound };
    assert!(unset_response_status(0x1000, 0x2000, &layout, &empty).is_none());
}

#[test]
fn depot_keys_are_served_where_a_script_has_one() {
    let name: &[u8] = b"depots\\481\\DecryptionKey\0";
    assert_eq!(requested_depot_key(true, Some(name), true, 32), Some(481));
    assert_eq!(requested_depot_key(false, Some(name), true, 32), None);
    assert_eq!(requested_depot_key(true, Some(name), true, 31), None);
    assert_eq!(requested_depot_key(true, Some(name), false, 32), None);
    assert_eq!(requested_depot_key(true, None, true, 32), None);
    let mut buffer = vec![1u8; 40];
    assert_eq!(serve_depot_key(None, &mut buffer), None);
    assert_eq!(buffer, vec![1u8; 40]);
    assert_eq!(serve_depot_key(Some([7; 32]), &mut buffer), Some(32));
    assert_eq!(buffer[..32], [7u8; 32]);
    assert_eq!(buffer[32..], [1u8; 8]);
}
