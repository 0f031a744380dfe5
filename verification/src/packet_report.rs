//! What the offline commands print about a packet, as text or as JSON.
use crate::capability::{joined, law_joined_texts_stand_in_order};
use crate::env::join_texts;
use crate::json::{fields_of, json_object, json_object_of, json_string, json_string_of, JsonField};
use crate::packet_simulation::{
    decimal_texts, decimals, explain_routes, explain_text, explanation, format_summary, one_text,
    recv_result, routes_of, send_result, simulate_recv, simulate_send, simulation_lines,
    simulation_text, summary_line, MessageNumbers, PacketSummary, PacketType, SendFrame,
    ServiceNames, SimConfig, SimulationResult, SimulationView,
};
use crate::packet_tool::{OutputFormat, PacketDirection};
use crate::paths::texts_of;
use crate::text::{
    concat, decimal, decimal_of, is_decimal_digit, law_decimals_are_read_back,
    law_signed_numbers_carry_their_sign, signed_decimal, signed_decimal_of, unsigned_body,
    unsigned_value,
};
use vstd::prelude::*;
use vstd::string::*;

verus! {

/// A number as JSON; nothing is `null`.
pub open spec fn number_json(number: Option<u64>) -> Seq<char> {
    match number {
        Some(number) => decimal_of(number as nat),
        None => "null"@,
    }
}

fn number_text(number: Option<u64>) -> (json: String)
    ensures
        json@ == number_json(number),
{
    match number {
        Some(number) => decimal(number),
        None => "null".to_owned(),
    }
}

/// A signed number as JSON; nothing is `null`.
pub open spec fn signed_json(number: Option<i32>) -> Seq<char> {
    match number {
        Some(number) => signed_decimal_of(number as int),
        None => "null"@,
    }
}

fn signed_text(number: Option<i32>) -> (json: String)
    ensures
        json@ == signed_json(number),
{
    match number {
        Some(number) => signed_decimal(number as i64),
        None => "null".to_owned(),
    }
}

/// A flag as JSON; nothing is `null`.
pub open spec fn flag_json(flag: Option<bool>) -> Seq<char> {
    match flag {
        Some(flag) => if flag {
            "true"@
        } else {
            "false"@
        },
        None => "null"@,
    }
}

fn flag_text(flag: Option<bool>) -> (json: String)
    ensures
        json@ == flag_json(flag),
{
    match flag {
        Some(flag) => if flag {
            "true".to_owned()
        } else {
            "false".to_owned()
        },
        None => "null".to_owned(),
    }
}

/// A text as JSON; nothing is `null`.
pub open spec fn text_json(text: Option<String>) -> Seq<char> {
    match text {
        Some(text) => json_string_of(text@),
        None => "null"@,
    }
}

fn maybe_string(text: &Option<String>) -> (json: String)
    ensures
        json@ == text_json(*text),
{
    match text {
        Some(text) => json_string(text.as_str()),
        None => "null".to_owned(),
    }
}

/// Values, each as JSON, as an array.
pub open spec fn array_json(values: Seq<Seq<char>>) -> Seq<char> {
    "["@ + joined(values, ","@) + "]"@
}

fn array_text(values: &Vec<String>) -> (json: String)
    ensures
        json@ == array_json(texts_of(values@)),
{
    let mut json: String = concat("[", join_texts(values, ",").as_str());
    json.append("]");
    json
}

/// Texts, each as JSON.
pub open spec fn strings_json(texts: Seq<Seq<char>>) -> Seq<Seq<char>> {
    texts.map_values(|text: Seq<char>| json_string_of(text))
}

fn string_texts(texts: &Vec<String>) -> (strings: Vec<String>)
    ensures
        texts_of(strings@) == strings_json(texts_of(texts@)),
{
    let mut strings: Vec<String> = Vec::new();
    let mut i: usize = 0;
    while i < texts.len()
        invariant
            i <= texts@.len(),
            strings@.len() == i,
            forall|k: int|
                0 <= k < i ==> (#[trigger] strings@[k])@ == json_string_of(texts@[k]@),
        decreases texts@.len() - i,
    {
        strings.push(json_string(texts[i].as_str()));
        i = i + 1;
    }
    assert(texts_of(strings@) =~= strings_json(texts_of(texts@)));
    strings
}

/// A length that may be unknown, as a number.
pub open spec fn wide(len: Option<usize>) -> Option<u64> {
    match len {
        Some(len) => Some(len as u64),
        None => None,
    }
}

fn widened(len: Option<usize>) -> (number: Option<u64>)
    ensures
        number == wide(len),
{
    match len {
        Some(len) => Some(len as u64),
        None => None,
    }
}

/// A message number that may be unknown.
pub open spec fn wide_number(number: Option<u32>) -> Option<u64> {
    match number {
        Some(number) => Some(number as u64),
        None => None,
    }
}

fn widened_number(number: Option<u32>) -> (wide: Option<u64>)
    ensures
        wide == wide_number(number),
{
    match number {
        Some(number) => Some(number as u64),
        None => None,
    }
}

/// The fields of a packet's summary.
pub open spec fn summary_parts(summary: PacketSummary<String>) -> Seq<(Seq<char>, Seq<char>)> {
    seq![
        ("id"@, decimal_of(summary.id as nat)),
        ("direction"@, json_string_of(summary.direction_label@)),
        ("emsg_raw"@, number_json(wide_number(summary.emsg_raw))),
        ("emsg"@, number_json(wide_number(summary.emsg))),
        ("proto"@, flag_json(summary.proto)),
        ("type"@, json_string_of(summary.type_label@)),
        ("app_ids"@, array_json(decimals(summary.app_ids@))),
        ("steamid"@, number_json(summary.steamid)),
        ("job"@, text_json(summary.job)),
        ("eresult"@, signed_json(summary.eresult)),
        ("change"@, json_string_of(summary.change_label@)),
        ("original_len"@, decimal_of(summary.original_len as nat)),
        ("final_len"@, number_json(wide(summary.final_len))),
        ("header_len"@, number_json(wide(summary.header_len))),
        ("body_len"@, number_json(wide(summary.body_len))),
        ("decode_error"@, text_json(summary.decode_error)),
    ]
}

fn field(name: &str, json: String) -> (field: JsonField)
    ensures
        field.name@ == name@,
        field.json == json,
{
    JsonField { name: name.to_owned(), json }
}

/// The fields of a packet's summary, each value as JSON.
pub fn summary_fields(summary: &PacketSummary<String>) -> (fields: Vec<JsonField>)
    ensures
        fields_of(fields@) == summary_parts(*summary),
{
    let fields: Vec<JsonField> = vec![
        field("id", decimal(summary.id)),
        field("direction", json_string(summary.direction_label.as_str())),
        field("emsg_raw", number_text(widened_number(summary.emsg_raw))),
        field("emsg", number_text(widened_number(summary.emsg))),
        field("proto", flag_text(summary.proto)),
        field("type", json_string(summary.type_label.as_str())),
        field("app_ids", array_text(&decimal_texts(&summary.app_ids))),
        field("steamid", number_text(summary.steamid)),
        field("job", maybe_string(&summary.job)),
        field("eresult", signed_text(summary.eresult)),
        field("change", json_string(summary.change_label.as_str())),
        field("original_len", decimal(summary.original_len as u64)),
        field("final_len", number_text(widened(summary.final_len))),
        field("header_len", number_text(widened(summary.header_len))),
        field("body_len", number_text(widened(summary.body_len))),
        field("decode_error", maybe_string(&summary.decode_error)),
    ];
    assert(fields_of(fields@) =~= summary_parts(*summary));
    fields
}

/// A packet's summary as JSON.
pub fn summary_json(summary: &PacketSummary<String>) -> (json: String)
    ensures
        json@ == json_object_of(summary_parts(*summary)),
{
    json_object(&summary_fields(summary))
}

/// The fields of a simulation's result.
pub open spec fn simulation_parts(result: SimulationView) -> Seq<(Seq<char>, Seq<char>)> {
    seq![
        ("decision"@, json_string_of(result.decision.text())),
        ("handler"@, json_string_of(result.handler)),
        ("reason"@, json_string_of(result.reason)),
        ("final_len"@, number_json(wide(result.final_len))),
        ("assumptions"@, array_json(strings_json(result.assumptions))),
    ]
}

/// The fields of a simulation's result, each value as JSON.
pub fn simulation_fields(result: &SimulationResult) -> (fields: Vec<JsonField>)
    ensures
        fields_of(fields@) == simulation_parts(result@),
{
    let fields: Vec<JsonField> = vec![
        field("decision", json_string(result.decision.label())),
        field("handler", json_string(result.handler)),
        field("reason", json_string(result.reason.as_str())),
        field("final_len", number_text(widened(result.final_len))),
        field("assumptions", array_text(&string_texts(&result.assumptions))),
    ];
    assert(fields_of(fields@) =~= simulation_parts(result@));
    fields
}

/// A simulation's result as JSON.
pub fn simulation_json(result: &SimulationResult) -> (json: String)
    ensures
        json@ == json_object_of(simulation_parts(result@)),
{
    json_object(&simulation_fields(result))
}

/// What the decode command prints.
pub open spec fn decode_lines(summary: PacketSummary<String>, format: OutputFormat) -> Seq<
    Seq<char>,
> {
    match format {
        OutputFormat::Text => seq![summary_line(summary)],
        OutputFormat::Json => seq![json_object_of(summary_parts(summary))],
    }
}

pub fn decode_offline(summary: &PacketSummary<String>, format: OutputFormat) -> (lines: Vec<String>)
    ensures
        texts_of(lines@) == decode_lines(*summary, format),
{
    match format {
        OutputFormat::Text => one_text(format_summary(summary).as_str()),
        OutputFormat::Json => one_text(summary_json(summary).as_str()),
    }
}

/// What the explain command prints.
pub open spec fn explain_lines(
    summary: PacketSummary<String>,
    routes: Seq<Seq<char>>,
    format: OutputFormat,
) -> Seq<Seq<char>> {
    match format {
        OutputFormat::Text => explanation(summary_line(summary), routes),
        OutputFormat::Json => seq![
            json_object_of(
                seq![
                    ("summary"@, json_object_of(summary_parts(summary))),
                    ("routes"@, array_json(strings_json(routes))),
                    ("runtime_state"@, json_string_of("not-simulated"@)),
                ],
            ),
        ],
    }
}

/// Explains a packet: the routes are those of its direction and type.
pub fn explain_offline(
    summary: &PacketSummary<String>,
    direction: PacketDirection,
    packet_type: PacketType,
    format: OutputFormat,
) -> (lines: Vec<String>)
    ensures
        texts_of(lines@) == explain_lines(*summary, routes_of(direction, packet_type), format),
{
    let routes: Vec<String> = explain_routes(direction, packet_type);
    match format {
        OutputFormat::Text => explain_text(format_summary(summary).as_str(), &routes),
        OutputFormat::Json => {
            let fields: Vec<JsonField> = vec![
                field("summary", summary_json(summary)),
                field("routes", array_text(&string_texts(&routes))),
                field("runtime_state", json_string("not-simulated")),
            ];
            assert(fields_of(fields@) =~= seq![
                ("summary"@, json_object_of(summary_parts(*summary))),
                ("routes"@, array_json(strings_json(texts_of(routes@)))),
                ("runtime_state"@, json_string_of("not-simulated"@)),
            ]);
            one_text(json_object(&fields).as_str())
        },
    }
}

/// What the simulate command prints.
pub open spec fn simulate_lines(
    summary: PacketSummary<String>,
    result: SimulationView,
    format: OutputFormat,
) -> Seq<Seq<char>> {
    match format {
        OutputFormat::Text => simulation_lines(summary_line(summary), result),
        OutputFormat::Json => seq![
            json_object_of(
                seq![
                    ("summary"@, json_object_of(summary_parts(summary))),
                    ("simulation"@, json_object_of(simulation_parts(result))),
                ],
            ),
        ],
    }
}

/// What would happen to a packet: a sent one is judged by its frame, a received one by its
/// type.
pub open spec fn offline_result(
    direction: PacketDirection,
    packet_type: PacketType,
    frame: Option<SendFrame>,
    numbers: MessageNumbers,
    names: ServiceNames,
    config: SimConfig,
) -> SimulationView {
    match direction {
        PacketDirection::Send => send_result(frame, numbers, names, config),
        PacketDirection::Recv => recv_result(packet_type),
    }
}

/// Simulates a packet and tells what would happen to it.
pub fn simulate_offline(
    summary: &PacketSummary<String>,
    direction: PacketDirection,
    packet_type: PacketType,
    frame: &Option<SendFrame>,
    numbers: &MessageNumbers,
    names: &ServiceNames,
    config: &SimConfig,
    format: OutputFormat,
) -> (lines: Vec<String>)
    ensures
        texts_of(lines@) == simulate_lines(
            *summary,
            offline_result(direction, packet_type, *frame, *numbers, *names, *config),
            format,
        ),
{
    let result: SimulationResult = match direction {
        PacketDirection::Send => simulate_send(frame, numbers, names, config),
        PacketDirection::Recv => simulate_recv(packet_type),
    };
    match format {
        OutputFormat::Text => simulation_text(format_summary(summary).as_str(), &result),
        OutputFormat::Json => {
            let fields: Vec<JsonField> = vec![
                field("summary", summary_json(summary)),
                field("simulation", simulation_json(&result)),
            ];
            assert(fields_of(fields@) =~= seq![
                ("summary"@, json_object_of(summary_parts(*summary))),
                ("simulation"@, json_object_of(simulation_parts(result@))),
            ]);
            one_text(json_object(&fields).as_str())
        },
    }
}

/// A value that is missing is `null`, and one that is there is spelled for what it is: no
/// value is `null`.
pub proof fn law_only_missing_values_are_null(
    number: Option<u64>,
    signed: Option<i32>,
    flag: Option<bool>,
)
    ensures
        number_json(number) == "null"@ <==> number is None,
        signed_json(signed) == "null"@ <==> signed is None,
        flag_json(flag) == "null"@ <==> flag is None,
        flag_json(flag) == "true"@ <==> flag == Some(true),
        number is Some ==> unsigned_value(number_json(number), u64::MAX as nat) == Some(
            number->0 as nat,
        ),
{
    reveal_strlit("null");
    reveal_strlit("true");
    reveal_strlit("false");
    assert("null"@[0] == 'n' && "true"@[0] == 't' && "false"@[0] == 'f');
    if number is Some {
        law_decimals_are_read_back(number->0 as nat, u64::MAX as nat);
        if number_json(number) == "null"@ {
            assert(unsigned_body("null"@) == "null"@);
            assert(!is_decimal_digit("null"@[0]));
        }
    }
    if signed is Some {
        let value = signed->0 as int;
        law_signed_numbers_carry_their_sign(value);
        if value >= 0 {
            law_decimals_are_read_back(value as nat, value as nat);
            if decimal_of(value as nat) == "null"@ {
                assert(unsigned_body("null"@) == "null"@);
                assert(!is_decimal_digit("null"@[0]));
            }
        }
    }
}

/// Every part of a summary stands in it under its own name, and there are no others.
pub proof fn law_summaries_tell_every_part(summary: PacketSummary<String>)
    ensures
        ({
            let parts = summary_parts(summary);
            &&& parts.len() == 16
            &&& parts.contains(("id"@, decimal_of(summary.id as nat)))
            &&& parts.contains(("direction"@, json_string_of(summary.direction_label@)))
            &&& parts.contains(
                (
                    "emsg_raw"@,
                    match summary.emsg_raw {
                        Some(emsg) => decimal_of(emsg as nat),
                        None => "null"@,
                    },
                ),
            )
            &&& parts.contains(
                (
                    "emsg"@,
                    match summary.emsg {
                        Some(emsg) => decimal_of(emsg as nat),
                        None => "null"@,
                    },
                ),
            )
            &&& parts.contains(("proto"@, flag_json(summary.proto)))
            &&& parts.contains(("type"@, json_string_of(summary.type_label@)))
            &&& parts.contains(("app_ids"@, array_json(decimals(summary.app_ids@))))
            &&& parts.contains(("steamid"@, number_json(summary.steamid)))
            &&& parts.contains(("job"@, text_json(summary.job)))
            &&& parts.contains(("eresult"@, signed_json(summary.eresult)))
            &&& parts.contains(("change"@, json_string_of(summary.change_label@)))
            &&& parts.contains(("original_len"@, decimal_of(summary.original_len as nat)))
            &&& parts.contains(
                (
                    "final_len"@,
                    match summary.final_len {
                        Some(len) => decimal_of(len as nat),
                        None => "null"@,
                    },
                ),
            )
            &&& parts.contains(
                (
                    "header_len"@,
                    match summary.header_len {
                        Some(len) => decimal_of(len as nat),
                        None => "null"@,
                    },
                ),
            )
            &&& parts.contains(
                (
                    "body_len"@,
                    match summary.body_len {
                        Some(len) => decimal_of(len as nat),
                        None => "null"@,
                    },
                ),
            )
            &&& parts.contains(("decode_error"@, text_json(summary.decode_error)))
        }),
{
    let parts = summary_parts(summary);
    assert(parts[0].0 == "id"@ && parts[1].0 == "direction"@ && parts[2].0 == "emsg_raw"@
        && parts[3].0 == "emsg"@ && parts[4].0 == "proto"@ && parts[5].0 == "type"@ && parts[6].0
        == "app_ids"@ && parts[7].0 == "steamid"@ && parts[8].0 == "job"@ && parts[9].0
        == "eresult"@ && parts[10].0 == "change"@ && parts[11].0 == "original_len"@ && parts[12].0
        == "final_len"@ && parts[13].0 == "header_len"@ && parts[14].0 == "body_len"@ && parts[15].0
        == "decode_error"@);
}

/// Every part of a result stands in it under its own name, and there are no others.
pub proof fn law_results_tell_every_part(result: SimulationView)
    ensures
        ({
            let parts = simulation_parts(result);
            &&& parts.len() == 5
            &&& parts.contains(("decision"@, json_string_of(result.decision.text())))
            &&& parts.contains(("handler"@, json_string_of(result.handler)))
            &&& parts.contains(("reason"@, json_string_of(result.reason)))
            &&& parts.contains(
                (
                    "final_len"@,
                    match result.final_len {
                        Some(len) => decimal_of(len as nat),
                        None => "null"@,
                    },
                ),
            )
            &&& parts.contains(("assumptions"@, array_json(strings_json(result.assumptions))))
        }),
{
    let parts = simulation_parts(result);
    assert(parts[0].0 == "decision"@ && parts[1].0 == "handler"@ && parts[2].0 == "reason"@
        && parts[3].0 == "final_len"@ && parts[4].0 == "assumptions"@);
}

/// As JSON every command prints one line, and an array is its values between brackets with
/// commas between them.
pub proof fn law_json_is_one_line(
    summary: PacketSummary<String>,
    routes: Seq<Seq<char>>,
    result: SimulationView,
    values: Seq<Seq<char>>,
    more: Seq<Seq<char>>,
)
    ensures
        decode_lines(summary, OutputFormat::Json).len() == 1,
        decode_lines(summary, OutputFormat::Text).len() == 1,
        explain_lines(summary, routes, OutputFormat::Json).len() == 1,
        simulate_lines(summary, result, OutputFormat::Json).len() == 1,
        explain_lines(summary, routes, OutputFormat::Text)[0] == decode_lines(
            summary,
            OutputFormat::Text,
        )[0],
        simulate_lines(summary, result, OutputFormat::Text)[0] == decode_lines(
            summary,
            OutputFormat::Text,
        )[0],
        array_json(Seq::empty()) == "["@ + "]"@,
        values.len() > 0 && more.len() > 0 ==> array_json(values + more) == "["@ + joined(
            values,
            ","@,
        ) + ","@ + joined(more, ","@) + "]"@,
{
    law_joined_texts_stand_in_order(values, more, ","@, Seq::empty());
    assert("["@ + Seq::<char>::empty() + "]"@ =~= "["@ + "]"@);
    if values.len() > 0 && more.len() > 0 {
        assert(array_json(values + more) =~= "["@ + joined(values, ","@) + ","@ + joined(
            more,
            ","@,
        ) + "]"@);
    }
}

/// A sent packet is judged by its frame alone, a received one by its type alone.
pub proof fn law_directions_are_judged_apart(
    packet_type: PacketType,
    other_type: PacketType,
    frame: Option<SendFrame>,
    other_frame: Option<SendFrame>,
    numbers: MessageNumbers,
    names: ServiceNames,
    config: SimConfig,
)
    ensures
        offline_result(PacketDirection::Send, packet_type, frame, numbers, names, config)
            == offline_result(PacketDirection::Send, other_type, frame, numbers, names, config),
        offline_result(PacketDirection::Recv, packet_type, frame, numbers, names, config)
            == offline_result(
            PacketDirection::Recv,
            packet_type,
            other_frame,
            numbers,
            names,
            config,
        ),
        frame is None ==> offline_result(
            PacketDirection::Send,
            packet_type,
            frame,
            numbers,
            names,
            config,
        ).decision is Pass,
{
}

} // verus!
