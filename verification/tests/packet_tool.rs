use std::collections::HashMap;

use vapor_forge_hooks::json::JsonReading;
use vapor_forge_hooks::packet_dump::{byte_from_hex, parse_hex_dump};
use vapor_forge_hooks::packet_simulation::{
    avatar_from_static_config, default_ref_steamid, explain_routes, explain_text, format_summary,
    redirect_legacy_stats, redirect_service_stats, rewrite_games, simulate_recv, simulate_send,
    simulation_text, CallHeader, LegacyStatsRequest, MessageNumbers, PacketSummary, PacketType,
    SendFrame, ServiceNames, ServiceStatsRequest, SimConfig, SimDecision, SimulationResult,
};
use vapor_forge_hooks::packet_report::{
    decode_offline, explain_offline, simulate_offline, simulation_fields, summary_fields,
    summary_json,
};
use vapor_forge_hooks::packet_tool::{
    capture_command, default_socket_path, filter_suffix, ok_payload, parse_filters,
    printed_response, request_text, resolve_socket, Args, CaptureCommand, Command, Filters, Input,
    OutputFormat, PacketDirection, ToolError, USAGE,
};
use vapor_forge_hooks::packet_watch::{
    format_summary_json, new_packets, read_row, watch_request, watch_round, SummaryRow,
};
use vapor_forge_hooks::text::{parse_number, NumberError};

fn words(list: &[&str]) -> Vec<String> {
    list.iter().map(|word| (*word).to_owned()).collect()
}

fn message(list: &[&str]) -> String {
    match Args::parse(&words(list)) {
        Ok(_) => panic!("expected an error"),
        Err(error) => error.message(),
    }
}

fn command(list: &[&str]) -> Command<String> {
    Args::parse(&words(list)).unwrap().command
}

#[test]
fn the_lines_of_a_dump_are_read_apart() {
    let first = "0000: 01 02\nnote: [03]";
    let second = "0x04=05";
    let both = parse_hex_dump(&format!("{first}\n{second}")).unwrap();
    let mut apart = parse_hex_dump(first).unwrap();
    apart.extend(parse_hex_dump(second).unwrap());
    assert_eq!(both, apart);
    assert_eq!(both, vec![1, 2, 3, 5]);
}

#[test]
fn parses_hex_dump_with_offsets_and_punctuation() {
    assert_eq!(
        parse_hex_dump("0000: 01 02 0x03, bytes=04\n0004: 0506").unwrap(),
        vec![1, 2, 3, 4, 5, 6]
    );
}

#[test]
fn capture_commands_honor_output_format() {
    assert_eq!(
        capture_command(&CaptureCommand::Status, OutputFormat::Text),
        "packet capture status"
    );
    assert_eq!(
        capture_command(&CaptureCommand::Status, OutputFormat::Json),
        "packet capture status --json"
    );
    assert_eq!(
        capture_command(&CaptureCommand::Off, OutputFormat::Json),
        "packet capture off --json"
    );
}

#[test]
fn explain_command_defaults_to_recv() {
    let args =
        Args::parse(&["--format", "json", "explain", "--hex", "010203"].map(str::to_owned)).unwrap();
    assert_eq!(args.format, OutputFormat::Json);
    match args.command {
        Command::Explain { direction, .. } => assert_eq!(direction, PacketDirection::Recv),
        _ => panic!("expected explain command"),
    }
}

#[test]
fn explain_command_accepts_send_direction_prefix() {
    let args = Args::parse(&["explain", "send", "--hex", "010203"].map(str::to_owned)).unwrap();
    match args.command {
        Command::Explain { direction, .. } => assert_eq!(direction, PacketDirection::Send),
        _ => panic!("expected explain command"),
    }
}

#[test]
fn simulate_command_defaults_to_send_and_accepts_config() {
    let args = Args::parse(
        &["simulate", "--config", "config.toml", "--hex", "010203"].map(str::to_owned),
    )
    .unwrap();
    match args.command {
        Command::Simulate { direction, config, .. } => {
            assert_eq!(direction, PacketDirection::Send);
            assert_eq!(config.as_deref(), Some("config.toml"));
        },
        _ => panic!("expected simulate command"),
    }
}

const NUMBERS: MessageNumbers = MessageNumbers {
    proto_flag: 0x8000_0000,
    service_method: 151,
    user_stats: 818,
    games_played: 742,
    games_played_with_data: 5410,
    rich_presence: 7501,
    pics: 8903,
};

fn names() -> ServiceNames {
    ServiceNames {
        manifest_code: "ContentServerDirectory.GetManifestRequestCode#1".to_owned(),
        stats: "Player.GetUserStats#1".to_owned(),
    }
}

fn sim_config(controlled: &[u32]) -> SimConfig {
    SimConfig { controlled: controlled.to_vec(), offline_schema: false, avatars: HashMap::new() }
}

fn frame(emsg: u32) -> SendFrame {
    SendFrame {
        emsg_raw: emsg | NUMBERS.proto_flag,
        header: None,
        manifest_app: None,
        stats: None,
        legacy_stats: None,
        games: None,
        rewritten_len: 64,
    }
}

fn call(method: &str, job_id: Option<u64>) -> SendFrame {
    let mut call = frame(NUMBERS.service_method);
    call.header = Some(CallHeader { method: Some(method.to_owned()), job_id });
    call
}

fn simulate(frame: SendFrame, config: &SimConfig) -> SimulationResult {
    simulate_send(&Some(frame), &NUMBERS, &names(), config)
}

#[test]
fn simulate_manifest_request_for_controlled_app_drops() {
    let mut packet = call(&names().manifest_code, Some(42));
    packet.manifest_app = Some(Some(480));
    let result = simulate(packet, &sim_config(&[480]));
    assert_eq!(result.decision, SimDecision::Drop);
    assert_eq!(result.handler, "manifest-request-code");
    assert_eq!(result.final_len, Some(0));
}

#[test]
fn a_manifest_request_passes_when_it_cannot_be_answered() {
    let method = names().manifest_code;
    let reason = |job_id, app: Option<Option<u32>>| {
        let mut packet = call(&method, job_id);
        packet.manifest_app = app;
        let result = simulate(packet, &sim_config(&[480]));
        assert_eq!(result.decision, SimDecision::Pass);
        result.reason
    };
    assert_eq!(
        reason(Some(42), None),
        "manifest request body failed to decode; send hook passes the frame through"
    );
    assert_eq!(
        reason(None, Some(Some(480))),
        "missing jobid_source; send hook cannot queue a response"
    );
    assert_eq!(
        reason(Some(0), Some(Some(480))),
        "zero jobid_source; send hook cannot queue a response"
    );
    assert_eq!(reason(Some(42), Some(None)), "app 0 is not controlled by config");
}

#[test]
fn stats_requests_are_answered_offline_or_redirected() {
    let method = names().stats;
    let mut config = sim_config(&[480]);
    let request = |job_id| {
        let mut packet = call(&method, job_id);
        packet.stats =
            Some(ServiceStatsRequest { app_id: Some(480), sha_schema: None, steam_id: None });
        packet
    };
    let result = simulate(request(Some(1)), &config);
    assert_eq!(result.decision, SimDecision::Rewrite);
    assert_eq!(
        result.reason,
        "controlled app 480 stats request would be redirected to a reference SteamID"
    );
    assert_eq!(result.final_len, Some(64));
    assert_eq!(
        simulate(request(None), &config).reason,
        "missing jobid_source; achievement redirect cannot track the response"
    );
    config.offline_schema = true;
    let offline = simulate(request(Some(1)), &config);
    assert_eq!(offline.decision, SimDecision::Drop);
    assert_eq!(
        offline.assumptions,
        vec!["controlled apps are treated as unowned in offline simulation"]
    );
}

#[test]
fn legacy_stats_requests_are_judged_by_their_version() {
    let config = sim_config(&[480]);
    let legacy = |game_id, version| {
        let mut packet = frame(NUMBERS.user_stats);
        packet.legacy_stats =
            Some(LegacyStatsRequest {
                game_id,
                schema_local_version: version,
                steam_id_for_user: None,
            });
        simulate(packet, &config)
    };
    assert_eq!(legacy(None, Some(-1)).reason, "legacy stats request has no game_id");
    assert_eq!(legacy(Some(480), Some(3)).reason, "schema_local_version is not -1");
    assert_eq!(legacy(Some(480), None).reason, "schema_local_version is not -1");
    assert_eq!(legacy(Some(620), Some(-1)).reason, "app 620 is not controlled by config");
    let high = (1u64 << 32) | 480;
    assert_eq!(legacy(Some(high), Some(-1)).decision, SimDecision::Rewrite);
}

#[test]
fn played_games_are_replaced_by_their_avatars() {
    let mut config = sim_config(&[]);
    config.avatars.insert(480, 10);
    let mut packet = frame(NUMBERS.games_played);
    packet.games = Some(vec![Some(480), None, Some(620)]);
    let result = simulate(packet, &config);
    assert_eq!(result.decision, SimDecision::Rewrite);
    assert_eq!(result.reason, "static app_avatar mapping rewrites 480->10");

    config.avatars.insert(0, 7);
    let (games, pairs) = rewrite_games(&vec![Some(480), None, Some(620)], &config.avatars);
    assert_eq!(games, vec![Some(10), None, Some(7)]);
    assert_eq!(pairs, vec!["480->10", "620->7"]);
    assert_eq!(avatar_from_static_config(&config.avatars, 999), Some(7));

    let mut plain = frame(NUMBERS.games_played_with_data);
    plain.games = Some(vec![Some(480)]);
    assert_eq!(
        simulate(plain, &sim_config(&[])).reason,
        "no static app_avatar mapping matched"
    );
}

#[test]
fn other_packets_are_named() {
    let config = sim_config(&[]);
    let none = simulate_send(&None, &NUMBERS, &names(), &config);
    assert_eq!((none.decision, none.handler), (SimDecision::Pass, "decode"));
    let mut plain = frame(NUMBERS.pics);
    plain.emsg_raw = NUMBERS.pics;
    assert_eq!(simulate(plain, &config).handler, "non-proto");
    assert_eq!(
        simulate(frame(NUMBERS.pics), &config).decision,
        SimDecision::NeedsRuntimeState
    );
    assert_eq!(simulate(frame(NUMBERS.rich_presence), &config).handler, "rich-presence-capture");
    assert_eq!(simulate(frame(1), &config).handler, "unknown");
    assert_eq!(
        simulate(call("A.\"B\"#1", None), &config).reason,
        "unhandled service method \"A.\\\"B\\\"#1\""
    );
    assert_eq!(simulate_recv(PacketType::Persona).handler, "persona-rich-presence");
    assert_eq!(simulate_recv(PacketType::Pics).decision, SimDecision::Pass);
    assert_eq!(SimDecision::NeedsRuntimeState.label(), "needs-runtime-state");
}

fn summary() -> PacketSummary<String> {
    PacketSummary {
        id: 0,
        direction_label: "send".to_owned(),
        emsg_raw: Some(2147483799),
        emsg: Some(151),
        proto: Some(true),
        type_label: "stats".to_owned(),
        app_ids: vec![480, 620],
        steamid: Some(76561198000000001),
        job: None,
        eresult: Some(-1),
        change_label: "unchanged".to_owned(),
        original_len: 12,
        final_len: None,
        header_len: Some(4),
        body_len: Some(0),
        decode_error: Some("bad \"varint\"".to_owned()),
    }
}

#[test]
fn explanations_and_simulations_are_printed_in_lines() {
    let line = format_summary(&summary());
    assert_eq!(line, "send emsg=151 type=stats app=[480, 620] change=unchanged len=12");
    let mut bare = summary();
    bare.emsg = None;
    bare.app_ids = Vec::new();
    assert_eq!(format_summary(&bare), "send emsg=- type=stats app=- change=unchanged len=12");

    let routes = explain_routes(PacketDirection::Send, PacketType::RichPresence);
    assert_eq!(
        explain_text("line", &routes),
        vec![
            "line",
            "  handler routes:",
            "    - send: rich-presence KV capture",
            "  note: offline explain does not simulate runtime state",
        ]
    );
    let none = explain_routes(PacketDirection::Recv, PacketType::Pics);
    assert_eq!(explain_text("line", &none)[1], "  explain: no known handler route");

    let result = simulate_recv(PacketType::Stats);
    assert_eq!(
        simulation_text("line", &result),
        vec![
            "line",
            "  simulate: decision=needs-runtime-state handler=achievement-stats-response final_len=-",
            "  reason: recv stats rewriting depends on pending request state",
        ]
    );
}

#[test]
fn options_come_before_the_command() {
    let args = Args::parse(&words(&["--socket", "/s", "show", "7"])).unwrap();
    assert_eq!(args.socket.as_deref(), Some("/s"));
    assert_eq!(args.format, OutputFormat::Text);
    assert_eq!(
        request_text(&args.command, OutputFormat::Json),
        Some("packet show 7 --json".to_owned())
    );
    assert_eq!(
        request_text(&command(&["save", "+7", "/tmp/p"]), OutputFormat::Text),
        Some("packet save 7 /tmp/p".to_owned())
    );
    assert_eq!(
        request_text(&command(&["list", "--app", "480", "dir=send"]), OutputFormat::Text),
        Some("packet list direction=send app=480".to_owned())
    );
    assert_eq!(request_text(&command(&["watch"]), OutputFormat::Text), None);
}

#[test]
fn capture_words_can_stand_anywhere() {
    match command(&["capture", "on", "--raw", "type=stats", "summary", "--change", "drop"]) {
        Command::Capture(capture) => assert_eq!(
            capture_command(&capture, OutputFormat::Text),
            "packet capture on summary type=stats changed=drop"
        ),
        _ => panic!("expected capture command"),
    }
    match command(&["capture", "limit", "12"]) {
        Command::Capture(capture) => assert_eq!(
            capture_command(&capture, OutputFormat::Json),
            "packet capture limit 12 --json"
        ),
        _ => panic!("expected capture command"),
    }
    assert!(matches!(
        command(&["capture"]),
        Command::Capture(CaptureCommand::Status)
    ));
    assert!(matches!(
        command(&["capture", "filter-clear"]),
        Command::Capture(CaptureCommand::FilterClear)
    ));
}

#[test]
fn a_watch_takes_its_interval_from_anywhere() {
    match command(&["watch", "--type", "--interval-ms", "50", "stats"]) {
        Command::Watch { filters, interval_ms } => {
            assert_eq!(interval_ms, 50);
            assert_eq!(watch_request(&filters), "packet list type=stats --json");
        },
        _ => panic!("expected watch command"),
    }
    match command(&["watch"]) {
        Command::Watch { filters, interval_ms } => {
            assert_eq!(interval_ms, 1000);
            assert_eq!(filter_suffix(&filters), "");
        },
        _ => panic!("expected watch command"),
    }
}

#[test]
fn an_explanation_goes_by_the_direction_in_front() {
    match command(&["explain", "--direction", "send", "--file", "/p"]) {
        Command::Explain { input, direction } => {
            assert_eq!(direction, PacketDirection::Recv);
            assert!(matches!(input, Input::File(path) if path == "/p"));
        },
        _ => panic!("expected explain command"),
    }
    match command(&["decode", "--direction", "send"]) {
        Command::Decode { input, direction } => {
            assert_eq!(direction, PacketDirection::Send);
            assert!(matches!(input, Input::StdinHex));
        },
        _ => panic!("expected decode command"),
    }
}

#[test]
fn each_mistake_has_its_message() {
    let with_usage = |text: &str| format!("{text}\n{USAGE}");
    assert_eq!(message(&[]), USAGE);
    assert_eq!(message(&["--help"]), USAGE);
    assert_eq!(message(&["show"]), USAGE);
    assert_eq!(message(&["--socket"]), with_usage("--socket requires a value"));
    assert_eq!(message(&["--format"]), with_usage("--format requires a value"));
    assert_eq!(message(&["--format", "xml"]), with_usage("unsupported format \"xml\""));
    assert_eq!(message(&["fly"]), with_usage("unknown command \"fly\""));
    assert_eq!(message(&["show", "x"]), "invalid packet id: invalid digit found in string");
    assert_eq!(message(&["save", "7"]), USAGE);
    assert_eq!(
        message(&["capture", "limit", ""]),
        "invalid limit: cannot parse integer from empty string"
    );
    assert_eq!(message(&["capture", "fly"]), with_usage("unknown capture command \"fly\""));
    assert_eq!(
        message(&["watch", "--interval-ms", "18446744073709551616"]),
        "invalid interval: number too large to fit in target type"
    );
    assert_eq!(message(&["watch", "--interval-ms"]), "--interval-ms requires a value");
    assert_eq!(message(&["list", "--app"]), "--app-id requires a value");
    assert_eq!(message(&["list", "fly"]), with_usage("unknown filter \"fly\""));
    assert_eq!(message(&["list", "fly=1"]), "unknown filter key \"fly\"");
    assert_eq!(message(&["decode", "--direction", "up"]), "invalid direction \"up\"");
    assert_eq!(message(&["decode", "--config", "x"]), with_usage("unknown offline option \"--config\""));
    assert_eq!(
        message(&["simulate", "--direction", "x"]),
        with_usage("unknown simulate option \"--direction\"")
    );
    assert_eq!(message(&["simulate", "--hex"]), "--hex requires a value");
    assert_eq!(
        parse_hex_dump("label: ; ()").unwrap_err().message(),
        "hex input did not contain any bytes"
    );
    let not_json: ToolError<String> = ToolError::NotJson("x".to_owned());
    assert_eq!(not_json.message(), "parse JSON failed: x");
}

#[test]
fn numbers_are_read_like_std_reads_them() {
    let texts = [
        "", "+", "-", "0", "+7", "-7", "007", "18446744073709551615", "18446744073709551616",
        "99999999999999999999x", "9999x", "1 2", "\u{663}",
    ];
    for text in texts {
        let ours = parse_number(text, u64::MAX).map_err(|error| error.message().to_owned());
        let std = text.parse::<u64>().map_err(|error| error.to_string());
        assert_eq!(ours, std, "{text}");
    }
    assert_eq!(parse_number("300", 255), Err(NumberError::TooLarge));
    assert_eq!("300".parse::<u8>().unwrap_err().to_string(), NumberError::TooLarge.message());
}

#[test]
fn dumps_pass_over_what_is_no_byte() {
    assert_eq!(parse_hex_dump("  00: 1f").unwrap(), vec![0x1f]);
    assert_eq!(parse_hex_dump("  00 : 1f").unwrap(), vec![0x00, 0x1f]);
    assert_eq!(parse_hex_dump("zz: 1f").unwrap(), vec![0x1f]);
    assert_eq!(parse_hex_dump("a=b=0XFF; [0a] 1 123 0x\u{3000}7f\r\n").unwrap(), vec![0xff, 0x0a, 0x7f]);
    assert_eq!(parse_hex_dump("deadBEEF").unwrap(), vec![0xde, 0xad, 0xbe, 0xef]);
    assert!(parse_hex_dump("").is_err());
    assert_eq!(byte_from_hex('f', '0'), 0xf0);
    for code in 0u32..=0x10ffff {
        if let Some(ch) = char::from_u32(code) {
            let split = parse_hex_dump(&format!("01{ch}02"))
                .map(|bytes| bytes == vec![1, 2])
                .unwrap_or(false);
            assert_eq!(split, ch.is_whitespace(), "{code:x}");
        }
    }
}

#[test]
fn answers_are_taken_apart() {
    assert_eq!(ok_payload("ok [1]").unwrap(), "[1]");
    assert_eq!(ok_payload("err no").unwrap_err().message(), "err no");
    assert_eq!(printed_response("err no", OutputFormat::Text).unwrap(), "err no");
    assert_eq!(printed_response("ok []", OutputFormat::Json).unwrap(), "[]");
    assert!(printed_response("err no", OutputFormat::Json).is_err());
    let filters: Filters<String> = Filters::new();
    assert_eq!(filter_suffix(&filters), "");
    assert_eq!(
        filter_suffix(&parse_filters(&words(&["emsg=1=2"])).unwrap()),
        " emsg=1=2"
    );
}

#[test]
fn the_socket_is_named_or_derived() {
    let some = |text: &str| Some(text.to_owned());
    assert_eq!(default_socket_path(some("/s"), None).unwrap(), "/s");
    assert_eq!(
        default_socket_path(some(""), some("/run/user/1000")).unwrap(),
        "/tmp/vapor-forge-1000/debug.sock"
    );
    assert_eq!(
        default_socket_path(None, None).unwrap_err().message(),
        "XDG_RUNTIME_DIR is not set"
    );
    for directory in ["/run/user/", "/run/user/me", ""] {
        assert_eq!(
            default_socket_path(None, some(directory)).unwrap_err().message(),
            "could not derive uid from XDG_RUNTIME_DIR"
        );
    }
    assert_eq!(resolve_socket(some("/x"), None, None).unwrap(), "/x");
    assert_eq!(
        resolve_socket(None, None, some("7")).unwrap(),
        "/tmp/vapor-forge-7/debug.sock"
    );
}

fn row(id: u64) -> Option<SummaryRow<String>> {
    Some(SummaryRow {
        id: Some(id),
        direction: None,
        emsg: None,
        packet_type: None,
        changed: None,
        app_ids: None,
    })
}

#[test]
fn a_watch_prints_each_packet_once() {
    let rows = vec![row(3), None, row(2), row(5)];
    let round = new_packets(&rows, 2);
    assert_eq!(round.lines.len(), 2);
    assert_eq!(round.last_id, 5);
    assert!(new_packets(&rows, round.last_id).lines.is_empty());
}

fn reading(number: Option<u64>, text: Option<&str>, json: &str) -> Option<JsonReading<String>> {
    Some(JsonReading { number, text: text.map(str::to_owned), json: json.to_owned() })
}

#[test]
fn a_row_is_read_from_its_places() {
    let mut readings = vec![
        reading(None, None, "{}"),
        reading(Some(7), None, "7"),
        reading(None, Some("send"), "\"send\""),
        reading(None, Some("151"), "\"151\""),
        None,
        reading(Some(3), None, "3"),
        reading(Some(480), None, "480"),
    ];
    let row = read_row(&readings).unwrap();
    assert_eq!((row.id, row.emsg), (Some(7), None));
    assert_eq!((row.direction.as_deref(), row.packet_type), (Some("send"), None));
    assert_eq!((row.changed, row.app_ids.as_deref()), (None, Some("480")));
    readings[0] = None;
    assert!(read_row(&readings).is_none());
}

#[test]
fn a_watch_reads_the_packets_of_an_answer() {
    let response = "ok [{\"summary\":{\"id\":7,\"direction\":\"send\",\"emsg\":151,\"type\":\"stats\",\"change\":\"drop\",\"app_ids\":[480, 620]}},{\"id\":9},{\"summary\":{\"id\":8}}]";
    let round = watch_round(response, 0).unwrap();
    assert_eq!(
        round.lines,
        vec![
            "#7    send emsg=151   type=stats            app=[480,620] change=drop",
            "#8    -    emsg=-     type=-                app=null change=-",
        ]
    );
    assert_eq!(round.last_id, 8);
    let fraction = watch_round("ok [{\"summary\":{\"id\":1,\"app_ids\":480.5}}]", 0).unwrap();
    assert_eq!(
        fraction.lines,
        vec!["#1    -    emsg=-     type=-                app=480.5 change=-"]
    );
    let failure = |text: &str| match watch_round(text, 0) {
        Ok(_) => panic!("expected an error"),
        Err(error) => error,
    };
    assert!(matches!(failure("err no"), ToolError::Refused(text) if text == "err no"));
    assert!(matches!(failure("ok {}"), ToolError::NotAnArray));
    assert!(matches!(failure("ok {"), ToolError::NotJson(_)));
    let line = format_summary_json(&row(12345).unwrap());
    assert_eq!(line, "#12345 -    emsg=-     type=-                app=null change=-");
}

const SUMMARY_JSON: &str = "{\"app_ids\":[480,620],\"body_len\":0,\"change\":\"unchanged\",\
    \"decode_error\":\"bad \\\"varint\\\"\",\"direction\":\"send\",\"emsg\":151,\
    \"emsg_raw\":2147483799,\"eresult\":-1,\"final_len\":null,\"header_len\":4,\"id\":0,\
    \"job\":null,\"original_len\":12,\"proto\":true,\"steamid\":76561198000000001,\
    \"type\":\"stats\"}";

#[test]
fn a_summary_is_printed_as_json() {
    let fields = summary_fields(&summary());
    assert_eq!(fields.len(), 16);
    assert_eq!((fields[0].name.as_str(), fields[0].json.as_str()), ("id", "0"));
    assert_eq!((fields[6].name.as_str(), fields[6].json.as_str()), ("app_ids", "[480,620]"));
    assert_eq!((fields[8].name.as_str(), fields[8].json.as_str()), ("job", "null"));
    assert_eq!(summary_json(&summary()), SUMMARY_JSON);
    assert_eq!(decode_offline(&summary(), OutputFormat::Json), vec![SUMMARY_JSON]);
    assert_eq!(
        decode_offline(&summary(), OutputFormat::Text),
        vec!["send emsg=151 type=stats app=[480, 620] change=unchanged len=12"]
    );
}

#[test]
fn an_explanation_is_printed_as_json() {
    let explain = |direction, packet_type, format| {
        explain_offline(&summary(), direction, packet_type, format)
    };
    assert_eq!(
        explain(PacketDirection::Send, PacketType::RichPresence, OutputFormat::Json),
        vec![format!(
            "{{\"routes\":[\"send: rich-presence KV capture\"],\"runtime_state\":\"not-simulated\",\
             \"summary\":{SUMMARY_JSON}}}"
        )]
    );
    let routed = explain(PacketDirection::Send, PacketType::RichPresence, OutputFormat::Text);
    assert_eq!(routed.len(), 4);
    assert_eq!(routed[2], "    - send: rich-presence KV capture");
    let unrouted = explain(PacketDirection::Recv, PacketType::RichPresence, OutputFormat::Text);
    assert_eq!(unrouted[1], "  explain: no known handler route");
}

#[test]
fn a_simulation_is_printed_as_json() {
    let result = simulate_recv(PacketType::Persona);
    let fields = simulation_fields(&result);
    assert_eq!((fields[0].name.as_str(), fields[1].name.as_str()), ("decision", "handler"));
    assert_eq!(fields[1].json, "\"persona-rich-presence\"");
    let offline = |direction, packet_type, frame: Option<SendFrame>, format| {
        let config = sim_config(&[]);
        simulate_offline(
            &summary(), direction, packet_type, &frame, &NUMBERS, &names(), &config, format,
        )
    };
    let recv = PacketDirection::Recv;
    let lines = offline(recv, PacketType::Persona, None, OutputFormat::Json);
    assert_eq!(lines.len(), 1);
    assert!(lines[0].starts_with("{\"simulation\":{\"assumptions\":["));
    assert!(lines[0].ends_with(&format!("\"summary\":{SUMMARY_JSON}}}")));
    let shown = offline(recv, PacketType::Persona, None, OutputFormat::Text);
    assert_eq!(
        shown[1],
        "  simulate: decision=needs-runtime-state handler=persona-rich-presence final_len=-"
    );
    let sent = Some(frame(NUMBERS.rich_presence));
    let shown = offline(PacketDirection::Send, PacketType::Persona, sent, OutputFormat::Text);
    assert_eq!(
        shown[1],
        "  simulate: decision=pass handler=rich-presence-capture final_len=-"
    );
}

#[test]
fn redirected_requests_name_the_reference_account() {
    assert_eq!(default_ref_steamid(), 76561198028121353);
    let service = redirect_service_stats(ServiceStatsRequest {
        app_id: Some(480),
        sha_schema: Some(vec![1, 2, 3]),
        steam_id: Some(5),
    });
    assert_eq!(service.app_id, Some(480));
    assert_eq!(service.sha_schema, None);
    assert_eq!(service.steam_id, Some(76561198028121353));
    let legacy = LegacyStatsRequest {
        game_id: Some(480),
        schema_local_version: Some(-1),
        steam_id_for_user: None,
    };
    assert_eq!(
        redirect_legacy_stats(legacy),
        LegacyStatsRequest { steam_id_for_user: Some(76561198028121353), ..legacy }
    );
}

#[test]
fn a_written_dump_reads_back_as_its_bytes() {
    let bytes: Vec<u8> = vec![0x0f, 0xa0, 0xff, 0x00];
    for between in ["", " ", "\n", ", "] {
        for pairs in [["0f", "a0", "ff", "00"], ["0F", "A0", "FF", "00"]] {
            assert_eq!(parse_hex_dump(&pairs.join(between)).unwrap(), bytes);
        }
    }
}

#[test]
fn written_filters_read_back_as_they_were() {
    let filters = Filters {
        direction: Some("send".to_owned()),
        packet_type: None,
        emsg: Some("a=b".to_owned()),
        app_id: Some("480".to_owned()),
        changed: Some(String::new()),
    };
    let suffix = filter_suffix(&filters);
    let words: Vec<String> = suffix.split_whitespace().map(str::to_owned).collect();
    let read = match parse_filters(&words) {
        Ok(read) => read,
        Err(error) => panic!("{}", error.message()),
    };
    assert_eq!(read.direction, filters.direction);
    assert_eq!(read.packet_type, filters.packet_type);
    assert_eq!(read.emsg, filters.emsg);
    assert_eq!(read.app_id, filters.app_id);
    assert_eq!(read.changed, filters.changed);
}
