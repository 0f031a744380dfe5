//! Explaining offline what the client would do with a packet.
use crate::capability::joined;
use crate::env::join_texts;
use crate::lists::contains_u32;
use crate::packet_tool::PacketDirection;
use crate::paths::texts_of;
use crate::text::{concat, decimal, decimal_of, quoted, quoted_of, text_eq};
use std::collections::HashMap;
use vstd::prelude::*;
use vstd::string::*;

verus! {

/// What a packet is about.
#[derive(Clone, Copy, Debug, PartialEq, Eq, Structural)]
pub enum PacketType {
    ManifestCode,
    Stats,
    GamesPlayed,
    RichPresence,
    Pics,
    EncryptedTicket,
    Persona,
    Other,
}

/// The handlers that look at a packet.
pub open spec fn routes_of(direction: PacketDirection, packet_type: PacketType) -> Seq<Seq<char>> {
    match (direction, packet_type) {
        (PacketDirection::Send, PacketType::ManifestCode) => seq![
            "send: manifest request-code intercept/drop depends on config"@,
        ],
        (PacketDirection::Send, PacketType::Stats) => seq![
            "send: achievement stats offline response decision depends on config"@,
        ],
        (PacketDirection::Send, PacketType::GamesPlayed) => seq![
            "send: games-played avatar rewrite and delegate-window reset"@,
        ],
        (PacketDirection::Send, PacketType::RichPresence) => seq![
            "send: rich-presence KV capture"@,
        ],
        (PacketDirection::Send, PacketType::Pics) => seq![
            "send: PICS access-token injection depends on script state"@,
        ],
        (PacketDirection::Recv, PacketType::Stats) => seq![
            "recv: achievement stats response patch depends on pending offline state"@,
        ],
        (PacketDirection::Recv, PacketType::EncryptedTicket) => seq![
            "recv: encrypted ticket cache/injection depends on ticket cache and script state"@,
        ],
        (PacketDirection::Recv, PacketType::Persona) => seq![
            "recv: PersonaState cache/patch depends on rich-presence tracking state"@,
        ],
        _ => Seq::empty(),
    }
}

pub fn one_text(text: &str) -> (texts: Vec<String>)
    ensures
        texts_of(texts@) == seq![text@],
{
    let mut texts: Vec<String> = Vec::new();
    texts.push(text.to_owned());
    assert(texts_of(texts@) =~= seq![text@]);
    texts
}

fn no_texts() -> (texts: Vec<String>)
    ensures
        texts_of(texts@) == Seq::<Seq<char>>::empty(),
{
    let texts: Vec<String> = Vec::new();
    assert(texts_of(texts@) =~= Seq::empty());
    texts
}

pub fn explain_routes(direction: PacketDirection, packet_type: PacketType) -> (routes: Vec<String>)
    ensures
        texts_of(routes@) == routes_of(direction, packet_type),
{
    match (direction, packet_type) {
        (PacketDirection::Send, PacketType::ManifestCode) => one_text(
            "send: manifest request-code intercept/drop depends on config",
        ),
        (PacketDirection::Send, PacketType::Stats) => one_text(
            "send: achievement stats offline response decision depends on config",
        ),
        (PacketDirection::Send, PacketType::GamesPlayed) => one_text(
            "send: games-played avatar rewrite and delegate-window reset",
        ),
        (PacketDirection::Send, PacketType::RichPresence) => one_text(
            "send: rich-presence KV capture",
        ),
        (PacketDirection::Send, PacketType::Pics) => one_text(
            "send: PICS access-token injection depends on script state",
        ),
        (PacketDirection::Recv, PacketType::Stats) => one_text(
            "recv: achievement stats response patch depends on pending offline state",
        ),
        (PacketDirection::Recv, PacketType::EncryptedTicket) => one_text(
            "recv: encrypted ticket cache/injection depends on ticket cache and script state",
        ),
        (PacketDirection::Recv, PacketType::Persona) => one_text(
            "recv: PersonaState cache/patch depends on rich-presence tracking state",
        ),
        _ => no_texts(),
    }
}

/// What is known of a packet by itself.
pub struct PacketSummary<T> {
    pub id: u64,
    pub direction_label: T,
    pub emsg_raw: Option<u32>,
    pub emsg: Option<u32>,
    pub proto: Option<bool>,
    pub type_label: T,
    pub app_ids: Vec<u32>,
    pub steamid: Option<u64>,
    pub job: Option<T>,
    pub eresult: Option<i32>,
    pub change_label: T,
    pub original_len: usize,
    pub final_len: Option<usize>,
    pub header_len: Option<usize>,
    pub body_len: Option<usize>,
    pub decode_error: Option<T>,
}

/// Numbers in base ten.
pub open spec fn decimals(numbers: Seq<u32>) -> Seq<Seq<char>> {
    numbers.map_values(|number: u32| decimal_of(number as nat))
}

/// The line about a packet.
pub open spec fn summary_line(summary: PacketSummary<String>) -> Seq<char> {
    summary.direction_label@ + " emsg="@ + (match summary.emsg {
        Some(emsg) => decimal_of(emsg as nat),
        None => "-"@,
    }) + " type="@ + summary.type_label@ + " app="@ + (if summary.app_ids@.len() == 0 {
        "-"@
    } else {
        "["@ + joined(decimals(summary.app_ids@), ", "@) + "]"@
    }) + " change="@ + summary.change_label@ + " len="@ + decimal_of(summary.original_len as nat)
}

pub fn decimal_texts(numbers: &Vec<u32>) -> (texts: Vec<String>)
    ensures
        texts_of(texts@) == decimals(numbers@),
{
    let mut texts: Vec<String> = Vec::new();
    let mut i: usize = 0;
    while i < numbers.len()
        invariant
            i <= numbers@.len(),
            texts@.len() == i,
            forall|k: int|
                0 <= k < i ==> (#[trigger] texts@[k])@ == decimal_of(numbers@[k] as nat),
        decreases numbers@.len() - i,
    {
        texts.push(decimal(numbers[i] as u64));
        i = i + 1;
    }
    assert(texts_of(texts@) =~= decimals(numbers@));
    texts
}

fn apps_text(app_ids: &Vec<u32>) -> (text: String)
    ensures
        text@ == if app_ids@.len() == 0 {
            "-"@
        } else {
            "["@ + joined(decimals(app_ids@), ", "@) + "]"@
        },
{
    if app_ids.len() == 0 {
        return "-".to_owned();
    }
    let parts: Vec<String> = decimal_texts(app_ids);
    let mut text: String = concat("[", join_texts(&parts, ", ").as_str());
    text.append("]");
    text
}

pub fn format_summary(summary: &PacketSummary<String>) -> (line: String)
    ensures
        line@ == summary_line(*summary),
{
    let emsg: String = match summary.emsg {
        Some(emsg) => decimal(emsg as u64),
        None => "-".to_owned(),
    };
    let mut line: String = concat(summary.direction_label.as_str(), " emsg=");
    line.append(emsg.as_str());
    line.append(" type=");
    line.append(summary.type_label.as_str());
    line.append(" app=");
    line.append(apps_text(&summary.app_ids).as_str());
    line.append(" change=");
    line.append(summary.change_label.as_str());
    line.append(" len=");
    line.append(decimal(summary.original_len as u64).as_str());
    line
}

/// Each text as a point of a list.
pub open spec fn points(texts: Seq<Seq<char>>) -> Seq<Seq<char>> {
    texts.map_values(|text: Seq<char>| "    - "@ + text)
}

/// What an explanation prints.
pub open spec fn explanation(line: Seq<char>, routes: Seq<Seq<char>>) -> Seq<Seq<char>> {
    seq![line] + (if routes.len() == 0 {
        seq!["  explain: no known handler route"@]
    } else {
        seq!["  handler routes:"@] + points(routes)
    }) + seq!["  note: offline explain does not simulate runtime state"@]
}

fn push_text(lines: &mut Vec<String>, text: &str)
    ensures
        texts_of(final(lines)@) == texts_of(old(lines)@).push(text@),
{
    let ghost before = texts_of(lines@);
    lines.push(text.to_owned());
    assert(texts_of(lines@) =~= before.push(text@));
}

fn push_points(lines: &mut Vec<String>, texts: &Vec<String>)
    ensures
        texts_of(final(lines)@) == texts_of(old(lines)@) + points(texts_of(texts@)),
{
    let ghost before = texts_of(lines@);
    let ghost all = points(texts_of(texts@));
    let mut i: usize = 0;
    assert(all.take(0) =~= Seq::empty());
    assert(before + Seq::<Seq<char>>::empty() =~= before);
    while i < texts.len()
        invariant
            i <= texts@.len(),
            all == points(texts_of(texts@)),
            texts_of(lines@) == before + all.take(i as int),
        decreases texts@.len() - i,
    {
        let point: String = concat("    - ", texts[i].as_str());
        assert(all[i as int] == point@);
        push_text(lines, point.as_str());
        assert(before + all.take(i + 1) =~= (before + all.take(i as int)).push(all[i as int]));
        i = i + 1;
    }
    assert(all.take(i as int) =~= all);
}

/// The lines that explain a packet by the handlers that look at it.
pub fn explain_text(line: &str, routes: &Vec<String>) -> (lines: Vec<String>)
    ensures
        texts_of(lines@) == explanation(line@, texts_of(routes@)),
{
    let mut lines: Vec<String> = one_text(line);
    if routes.len() == 0 {
        push_text(&mut lines, "  explain: no known handler route");
    } else {
        push_text(&mut lines, "  handler routes:");
        push_points(&mut lines, routes);
    }
    push_text(&mut lines, "  note: offline explain does not simulate runtime state");
    assert(texts_of(lines@) =~= explanation(line@, texts_of(routes@)));
    lines
}

/// What would happen to a packet.
#[derive(Clone, Copy, Debug, PartialEq, Eq, Structural)]
pub enum SimDecision {
    Pass,
    Drop,
    Rewrite,
    NeedsRuntimeState,
}

impl SimDecision {
    pub open spec fn text(self) -> Seq<char> {
        match self {
            SimDecision::Pass => "pass"@,
            SimDecision::Drop => "drop"@,
            SimDecision::Rewrite => "rewrite"@,
            SimDecision::NeedsRuntimeState => "needs-runtime-state"@,
        }
    }

    pub fn label(self) -> (label: &'static str)
        ensures
            label@ == self.text(),
    {
        match self {
            SimDecision::Pass => "pass",
            SimDecision::Drop => "drop",
            SimDecision::Rewrite => "rewrite",
            SimDecision::NeedsRuntimeState => "needs-runtime-state",
        }
    }
}

/// What a simulation found. The length of a rewritten packet is known once it is written.
#[derive(Debug)]
pub struct SimulationResult {
    pub decision: SimDecision,
    pub handler: &'static str,
    pub reason: String,
    pub final_len: Option<usize>,
    pub assumptions: Vec<String>,
}

/// The values of a result.
#[verifier::ext_equal]
pub struct SimulationView {
    pub decision: SimDecision,
    pub handler: Seq<char>,
    pub reason: Seq<char>,
    pub final_len: Option<usize>,
    pub assumptions: Seq<Seq<char>>,
}

impl View for SimulationResult {
    type V = SimulationView;

    open spec fn view(&self) -> SimulationView {
        SimulationView {
            decision: self.decision,
            handler: self.handler@,
            reason: self.reason@,
            final_len: self.final_len,
            assumptions: texts_of(self.assumptions@),
        }
    }
}

/// A result that assumes nothing.
pub open spec fn plain_result(
    decision: SimDecision,
    handler: Seq<char>,
    reason: Seq<char>,
    final_len: Option<usize>,
) -> SimulationView {
    SimulationView { decision, handler, reason, final_len, assumptions: Seq::empty() }
}

pub fn sim_result(
    decision: SimDecision,
    handler: &'static str,
    reason: String,
    final_len: Option<usize>,
) -> (result: SimulationResult)
    ensures
        result@ == plain_result(decision, handler@, reason@, final_len),
{
    SimulationResult { decision, handler, reason, final_len, assumptions: no_texts() }
}

fn pass(handler: &'static str, reason: &str) -> (result: SimulationResult)
    ensures
        result@ == plain_result(SimDecision::Pass, handler@, reason@, None),
{
    sim_result(SimDecision::Pass, handler, reason.to_owned(), None)
}

fn pass_with(handler: &'static str, reason: String) -> (result: SimulationResult)
    ensures
        result@ == plain_result(SimDecision::Pass, handler@, reason@, None),
{
    sim_result(SimDecision::Pass, handler, reason, None)
}

pub fn sim_result_with_assumption(
    decision: SimDecision,
    handler: &'static str,
    reason: String,
    final_len: Option<usize>,
    assumption: &str,
) -> (result: SimulationResult)
    ensures
        result@ == (SimulationView {
            decision,
            handler: handler@,
            reason: reason@,
            final_len,
            assumptions: seq![assumption@],
        }),
{
    SimulationResult { decision, handler, reason, final_len, assumptions: one_text(assumption) }
}

/// What a simulation goes by.
pub struct SimConfig {
    pub controlled: Vec<u32>,
    pub offline_schema: bool,
    pub avatars: HashMap<u32, u32>,
}

/// The numbers of the messages that have a handler, and the flag of protobuf messages.
#[derive(Clone, Copy, Debug, PartialEq, Eq, Structural)]
pub struct MessageNumbers {
    pub proto_flag: u32,
    pub service_method: u32,
    pub user_stats: u32,
    pub games_played: u32,
    pub games_played_with_data: u32,
    pub rich_presence: u32,
    pub pics: u32,
}

/// The names of the service methods that have a handler.
pub struct ServiceNames {
    pub manifest_code: String,
    pub stats: String,
}

/// The header of a service call.
pub struct CallHeader {
    pub method: Option<String>,
    pub job_id: Option<u64>,
}

/// A request for the stats of an app.
pub struct ServiceStatsRequest {
    pub app_id: Option<u32>,
    pub sha_schema: Option<Vec<u8>>,
    pub steam_id: Option<u64>,
}

/// A request for the stats of an app in the older form.
#[derive(Clone, Copy, Debug, PartialEq, Eq, Structural)]
pub struct LegacyStatsRequest {
    pub game_id: Option<u64>,
    pub schema_local_version: Option<i32>,
    pub steam_id_for_user: Option<u64>,
}

/// The account whose stats stand for those of an app that is not owned.
pub const REFERENCE_STEAM_ID: u64 = 76561198028121353;

pub fn default_ref_steamid() -> (steam_id: u64)
    ensures
        steam_id == REFERENCE_STEAM_ID,
{
    REFERENCE_STEAM_ID
}

/// Redirects a request for stats to the reference account; the schema is asked for anew.
pub fn redirect_service_stats(request: ServiceStatsRequest) -> (redirected: ServiceStatsRequest)
    ensures
        redirected == (ServiceStatsRequest {
            sha_schema: None,
            steam_id: Some(REFERENCE_STEAM_ID),
            ..request
        }),
{
    ServiceStatsRequest {
        app_id: request.app_id,
        sha_schema: None,
        steam_id: Some(default_ref_steamid()),
    }
}

/// Redirects a request for stats in the older form to the reference account.
pub fn redirect_legacy_stats(request: LegacyStatsRequest) -> (redirected: LegacyStatsRequest)
    ensures
        redirected == (LegacyStatsRequest {
            steam_id_for_user: Some(REFERENCE_STEAM_ID),
            ..request
        }),
{
    LegacyStatsRequest {
        game_id: request.game_id,
        schema_local_version: request.schema_local_version,
        steam_id_for_user: Some(default_ref_steamid()),
    }
}

/// A sent packet. Each body is what the packet gives when it is read as that message, and
/// is missing where it cannot be.
pub struct SendFrame {
    pub emsg_raw: u32,
    pub header: Option<CallHeader>,
    pub manifest_app: Option<Option<u32>>,
    pub stats: Option<ServiceStatsRequest>,
    pub legacy_stats: Option<LegacyStatsRequest>,
    pub games: Option<Vec<Option<u64>>>,
    /// The length of the packet once its body is rewritten and it is assembled anew.
    pub rewritten_len: usize,
}

/// The app of a game id.
pub open spec fn app_of_game(game_id: u64) -> u32 {
    game_id as u32
}

/// What is assumed of apps when nothing runs.
pub open spec fn unowned_assumption() -> Seq<char> {
    "controlled apps are treated as unowned in offline simulation"@
}

pub open spec fn not_controlled_reason(app_id: u32) -> Seq<char> {
    "app "@ + decimal_of(app_id as nat) + " is not controlled by config"@
}

fn not_controlled(handler: &'static str, app_id: u32) -> (result: SimulationResult)
    ensures
        result@ == plain_result(SimDecision::Pass, handler@, not_controlled_reason(app_id), None),
{
    let mut reason: String = concat("app ", decimal(app_id as u64).as_str());
    reason.append(" is not controlled by config");
    pass_with(handler, reason)
}

/// What would happen to a request for a manifest code.
pub open spec fn manifest_result(
    job_id: Option<u64>,
    request: Option<Option<u32>>,
    controlled: Seq<u32>,
) -> SimulationView {
    let handler = "manifest-request-code"@;
    if request is None {
        plain_result(
            SimDecision::Pass,
            handler,
            "manifest request body failed to decode; send hook passes the frame through"@,
            None,
        )
    } else if job_id is None {
        plain_result(
            SimDecision::Pass,
            handler,
            "missing jobid_source; send hook cannot queue a response"@,
            None,
        )
    } else if job_id->0 == 0 {
        plain_result(
            SimDecision::Pass,
            handler,
            "zero jobid_source; send hook cannot queue a response"@,
            None,
        )
    } else {
        let app_id = match request->0 {
            Some(app_id) => app_id,
            None => 0,
        };
        if controlled.contains(app_id) {
            plain_result(
                SimDecision::Drop,
                handler,
                "controlled app "@ + decimal_of(app_id as nat)
                    + " will be fetched through manifest providers"@,
                Some(0),
            )
        } else {
            plain_result(SimDecision::Pass, handler, not_controlled_reason(app_id), None)
        }
    }
}

pub fn simulate_manifest_request(
    job_id: Option<u64>,
    request: Option<Option<u32>>,
    config: &SimConfig,
) -> (result: SimulationResult)
    ensures
        result@ == manifest_result(job_id, request, config.controlled@),
{
    let app_id: u32 = match request {
        None => {
            return pass(
                "manifest-request-code",
                "manifest request body failed to decode; send hook passes the frame through",
            );
        },
        Some(Some(app_id)) => app_id,
        Some(None) => 0,
    };
    match job_id {
        None => {
            return pass(
                "manifest-request-code",
                "missing jobid_source; send hook cannot queue a response",
            );
        },
        Some(job_id) => {
            if job_id == 0 {
                return pass(
                    "manifest-request-code",
                    "zero jobid_source; send hook cannot queue a response",
                );
            }
        },
    }
    if contains_u32(config.controlled.as_slice(), app_id) {
        let mut reason: String = concat("controlled app ", decimal(app_id as u64).as_str());
        reason.append(" will be fetched through manifest providers");
        return sim_result(SimDecision::Drop, "manifest-request-code", reason, Some(0));
    }
    not_controlled("manifest-request-code", app_id)
}

/// The result for a controlled app's stats: an offline answer, or a request that is
/// redirected.
pub open spec fn controlled_stats_result(
    handler: Seq<char>,
    app_id: u32,
    offline_schema: bool,
    redirected: Seq<char>,
    rewritten_len: usize,
) -> SimulationView {
    if offline_schema {
        SimulationView {
            decision: SimDecision::Drop,
            handler,
            reason: "offline_schema is enabled; controlled app "@ + decimal_of(app_id as nat)
                + " gets an offline response"@,
            final_len: Some(0),
            assumptions: seq![unowned_assumption()],
        }
    } else {
        SimulationView {
            decision: SimDecision::Rewrite,
            handler,
            reason: "controlled app "@ + decimal_of(app_id as nat) + redirected,
            final_len: Some(rewritten_len),
            assumptions: seq![unowned_assumption()],
        }
    }
}

fn controlled_stats(
    handler: &'static str,
    app_id: u32,
    offline_schema: bool,
    redirected: &str,
    rewritten_len: usize,
) -> (result: SimulationResult)
    ensures
        result@ == controlled_stats_result(
            handler@,
            app_id,
            offline_schema,
            redirected@,
            rewritten_len,
        ),
{
    let number: String = decimal(app_id as u64);
    if offline_schema {
        let mut reason: String = concat(
            "offline_schema is enabled; controlled app ",
            number.as_str(),
        );
        reason.append(" gets an offline response");
        sim_result_with_assumption(
            SimDecision::Drop,
            handler,
            reason,
            Some(0),
            "controlled apps are treated as unowned in offline simulation",
        )
    } else {
        let mut reason: String = concat("controlled app ", number.as_str());
        reason.append(redirected);
        sim_result_with_assumption(
            SimDecision::Rewrite,
            handler,
            reason,
            Some(rewritten_len),
            "controlled apps are treated as unowned in offline simulation",
        )
    }
}

/// What would happen to a request for stats.
pub open spec fn service_stats_result(
    job_id: Option<u64>,
    request: Option<ServiceStatsRequest>,
    controlled: Seq<u32>,
    offline_schema: bool,
    rewritten_len: usize,
) -> SimulationView {
    let handler = "achievement-service-stats"@;
    if request is None {
        plain_result(
            SimDecision::Pass,
            handler,
            "stats request body failed to decode; send hook passes the frame through"@,
            None,
        )
    } else if request->0.app_id is None {
        plain_result(SimDecision::Pass, handler, "stats request has no appid"@, None)
    } else {
        let app_id = request->0.app_id->0;
        if !controlled.contains(app_id) {
            plain_result(SimDecision::Pass, handler, not_controlled_reason(app_id), None)
        } else if job_id is None {
            plain_result(
                SimDecision::Pass,
                handler,
                "missing jobid_source; achievement redirect cannot track the response"@,
                None,
            )
        } else {
            controlled_stats_result(
                handler,
                app_id,
                offline_schema,
                " stats request would be redirected to a reference SteamID"@,
                rewritten_len,
            )
        }
    }
}

pub fn simulate_service_stats(
    job_id: Option<u64>,
    request: &Option<ServiceStatsRequest>,
    config: &SimConfig,
    rewritten_len: usize,
) -> (result: SimulationResult)
    ensures
        result@ == service_stats_result(
            job_id,
            *request,
            config.controlled@,
            config.offline_schema,
            rewritten_len,
        ),
{
    let app_id: u32 = match request {
        None => {
            return pass(
                "achievement-service-stats",
                "stats request body failed to decode; send hook passes the frame through",
            );
        },
        Some(request) => match request.app_id {
            None => {
                return pass("achievement-service-stats", "stats request has no appid");
            },
            Some(app_id) => app_id,
        },
    };
    if !contains_u32(config.controlled.as_slice(), app_id) {
        return not_controlled("achievement-service-stats", app_id);
    }
    if job_id.is_none() {
        return pass(
            "achievement-service-stats",
            "missing jobid_source; achievement redirect cannot track the response",
        );
    }
    controlled_stats(
        "achievement-service-stats",
        app_id,
        config.offline_schema,
        " stats request would be redirected to a reference SteamID",
        rewritten_len,
    )
}

/// What would happen to a request for stats in the older form.
pub open spec fn legacy_stats_result(
    request: Option<LegacyStatsRequest>,
    controlled: Seq<u32>,
    offline_schema: bool,
    rewritten_len: usize,
) -> SimulationView {
    let handler = "achievement-legacy-stats"@;
    if request is None {
        plain_result(
            SimDecision::Pass,
            handler,
            "legacy stats request body failed to decode; send hook passes the frame through"@,
            None,
        )
    } else if request->0.game_id is None {
        plain_result(SimDecision::Pass, handler, "legacy stats request has no game_id"@, None)
    } else if request->0.schema_local_version != Some(-1i32) {
        plain_result(SimDecision::Pass, handler, "schema_local_version is not -1"@, None)
    } else {
        let app_id = app_of_game(request->0.game_id->0);
        if !controlled.contains(app_id) {
            plain_result(SimDecision::Pass, handler, not_controlled_reason(app_id), None)
        } else {
            controlled_stats_result(
                handler,
                app_id,
                offline_schema,
                " legacy stats request would be redirected to a reference SteamID"@,
                rewritten_len,
            )
        }
    }
}

pub fn simulate_legacy_stats(
    request: Option<LegacyStatsRequest>,
    config: &SimConfig,
    rewritten_len: usize,
) -> (result: SimulationResult)
    ensures
        result@ == legacy_stats_result(
            request,
            config.controlled@,
            config.offline_schema,
            rewritten_len,
        ),
{
    let request: LegacyStatsRequest = match request {
        Some(request) => request,
        None => {
            return pass(
                "achievement-legacy-stats",
                "legacy stats request body failed to decode; send hook passes the frame through",
            );
        },
    };
    let game_id: u64 = match request.game_id {
        Some(game_id) => game_id,
        None => {
            return pass("achievement-legacy-stats", "legacy stats request has no game_id");
        },
    };
    let from_scratch: bool = match request.schema_local_version {
        Some(version) => version == -1,
        None => false,
    };
    if !from_scratch {
        return pass("achievement-legacy-stats", "schema_local_version is not -1");
    }
    let app_id: u32 = game_id as u32;
    if !contains_u32(config.controlled.as_slice(), app_id) {
        return not_controlled("achievement-legacy-stats", app_id);
    }
    controlled_stats(
        "achievement-legacy-stats",
        app_id,
        config.offline_schema,
        " legacy stats request would be redirected to a reference SteamID",
        rewritten_len,
    )
}

/// The app that stands for another: its own entry, or the one for every app.
pub open spec fn avatar_of(avatars: Map<u32, u32>, app_id: u32) -> Option<u32> {
    if avatars.contains_key(app_id) {
        Some(avatars[app_id])
    } else if avatars.contains_key(0) {
        Some(avatars[0])
    } else {
        None
    }
}

pub fn avatar_from_static_config(avatars: &HashMap<u32, u32>, app_id: u32) -> (avatar: Option<u32>)
    ensures
        avatar == avatar_of(avatars@, app_id),
{
    match avatars.get(&app_id) {
        Some(avatar) => Some(*avatar),
        None => match avatars.get(&0) {
            Some(avatar) => Some(*avatar),
            None => None,
        },
    }
}

/// The avatar that a game is replaced by.
pub open spec fn game_avatar(game: Option<u64>, avatars: Map<u32, u32>) -> Option<u32> {
    match game {
        Some(game_id) => avatar_of(avatars, app_of_game(game_id)),
        None => None,
    }
}

/// The games with each one that has an avatar replaced.
pub open spec fn games_after(games: Seq<Option<u64>>, avatars: Map<u32, u32>) -> Seq<Option<u64>> {
    games.map_values(
        |game: Option<u64>|
            match game_avatar(game, avatars) {
                Some(avatar) => Some(avatar as u64),
                None => game,
            },
    )
}

/// What was replaced by what, in words.
pub open spec fn rewrites_of(games: Seq<Option<u64>>, avatars: Map<u32, u32>) -> Seq<Seq<char>>
    decreases games.len(),
{
    if games.len() == 0 {
        Seq::empty()
    } else {
        let before = rewrites_of(games.drop_last(), avatars);
        match game_avatar(games.last(), avatars) {
            Some(avatar) => before.push(
                decimal_of(app_of_game(games.last()->0) as nat) + "->"@ + decimal_of(avatar as nat),
            ),
            None => before,
        }
    }
}

/// What would happen to a message about the games being played.
pub open spec fn games_played_result(
    games: Option<Seq<Option<u64>>>,
    avatars: Map<u32, u32>,
    rewritten_len: usize,
) -> SimulationView {
    let handler = "games-played-avatar"@;
    let assumptions = seq!["runtime launch-flag avatar rules are not simulated"@];
    match games {
        None => plain_result(
            SimDecision::Pass,
            handler,
            "games-played body failed to decode; send hook passes the frame through"@,
            None,
        ),
        Some(games) => if rewrites_of(games, avatars).len() == 0 {
            SimulationView {
                decision: SimDecision::Pass,
                handler,
                reason: "no static app_avatar mapping matched"@,
                final_len: None,
                assumptions,
            }
        } else {
            SimulationView {
                decision: SimDecision::Rewrite,
                handler,
                reason: "static app_avatar mapping rewrites "@ + joined(
                    rewrites_of(games, avatars),
                    ", "@,
                ),
                final_len: Some(rewritten_len),
                assumptions,
            }
        },
    }
}

/// The games of a message, if it can be read.
pub open spec fn games_view(games: Option<Vec<Option<u64>>>) -> Option<Seq<Option<u64>>> {
    match games {
        Some(games) => Some(games@),
        None => None,
    }
}

/// Replaces each game that has an avatar, and says in words what was replaced.
pub fn rewrite_games(games: &Vec<Option<u64>>, avatars: &HashMap<u32, u32>) -> (rewritten: (
    Vec<Option<u64>>,
    Vec<String>,
))
    ensures
        rewritten.0@ == games_after(games@, avatars@),
        texts_of(rewritten.1@) == rewrites_of(games@, avatars@),
{
    let mut after: Vec<Option<u64>> = Vec::new();
    let mut words: Vec<String> = Vec::new();
    let mut i: usize = 0;
    assert(games@.take(0) =~= Seq::empty());
    assert(texts_of(words@) =~= Seq::empty());
    while i < games.len()
        invariant
            i <= games@.len(),
            after@.len() == i,
            forall|k: int| 0 <= k < i ==> #[trigger] after@[k] == games_after(games@, avatars@)[k],
            texts_of(words@) == rewrites_of(games@.take(i as int), avatars@),
        decreases games@.len() - i,
    {
        assert(games@.take(i + 1).drop_last() =~= games@.take(i as int));
        assert(games@.take(i + 1).last() == games@[i as int]);
        let mut game: Option<u64> = games[i];
        if let Some(game_id) = games[i] {
            let app_id: u32 = game_id as u32;
            if let Some(avatar) = avatar_from_static_config(avatars, app_id) {
                game = Some(avatar as u64);
                let mut word: String = concat(decimal(app_id as u64).as_str(), "->");
                word.append(decimal(avatar as u64).as_str());
                let ghost before = texts_of(words@);
                words.push(word);
                assert(texts_of(words@) =~= before.push(word@));
            }
        }
        after.push(game);
        i = i + 1;
    }
    assert(games@.take(i as int) =~= games@);
    assert(after@ =~= games_after(games@, avatars@));
    (after, words)
}

pub fn simulate_games_played(
    games: &Option<Vec<Option<u64>>>,
    config: &SimConfig,
    rewritten_len: usize,
) -> (result: SimulationResult)
    ensures
        result@ == games_played_result(games_view(*games), config.avatars@, rewritten_len),
{
    let games: &Vec<Option<u64>> = match games {
        Some(games) => games,
        None => {
            return pass(
                "games-played-avatar",
                "games-played body failed to decode; send hook passes the frame through",
            );
        },
    };
    let (_, words): (Vec<Option<u64>>, Vec<String>) = rewrite_games(games, &config.avatars);
    assert(texts_of(words@).len() == words@.len());
    if words.len() == 0 {
        return sim_result_with_assumption(
            SimDecision::Pass,
            "games-played-avatar",
            "no static app_avatar mapping matched".to_owned(),
            None,
            "runtime launch-flag avatar rules are not simulated",
        );
    }
    let reason: String = concat(
        "static app_avatar mapping rewrites ",
        join_texts(&words, ", ").as_str(),
    );
    sim_result_with_assumption(
        SimDecision::Rewrite,
        "games-played-avatar",
        reason,
        Some(rewritten_len),
        "runtime launch-flag avatar rules are not simulated",
    )
}

/// What would happen to a service call.
pub open spec fn service_result(
    frame: SendFrame,
    names: ServiceNames,
    config: SimConfig,
) -> SimulationView {
    let handler = "service-method"@;
    if frame.header is None {
        plain_result(
            SimDecision::Pass,
            handler,
            "protobuf header failed to decode; send hook passes the frame through"@,
            None,
        )
    } else if frame.header->0.method is None {
        plain_result(
            SimDecision::Pass,
            handler,
            "missing target_job_name; send hook passes the frame through"@,
            None,
        )
    } else {
        let method = frame.header->0.method->0@;
        let job_id = frame.header->0.job_id;
        if method == names.manifest_code@ {
            manifest_result(job_id, frame.manifest_app, config.controlled@)
        } else if method == names.stats@ {
            service_stats_result(
                job_id,
                frame.stats,
                config.controlled@,
                config.offline_schema,
                frame.rewritten_len,
            )
        } else {
            plain_result(
                SimDecision::Pass,
                handler,
                "unhandled service method "@ + quoted_of(method),
                None,
            )
        }
    }
}

pub fn simulate_send_service_method(
    frame: &SendFrame,
    names: &ServiceNames,
    config: &SimConfig,
) -> (result: SimulationResult)
    ensures
        result@ == service_result(*frame, *names, *config),
{
    let header: &CallHeader = match &frame.header {
        Some(header) => header,
        None => {
            return pass(
                "service-method",
                "protobuf header failed to decode; send hook passes the frame through",
            );
        },
    };
    let method: &String = match &header.method {
        Some(method) => method,
        None => {
            return pass(
                "service-method",
                "missing target_job_name; send hook passes the frame through",
            );
        },
    };
    if text_eq(method.as_str(), names.manifest_code.as_str()) {
        return simulate_manifest_request(header.job_id, frame.manifest_app, config);
    }
    if text_eq(method.as_str(), names.stats.as_str()) {
        return simulate_service_stats(
            header.job_id,
            &frame.stats,
            config,
            frame.rewritten_len,
        );
    }
    pass_with(
        "service-method",
        concat("unhandled service method ", quoted(method.as_str()).as_str()),
    )
}

/// What would happen to a sent packet; none is one that has no valid framing.
pub open spec fn send_result(
    frame: Option<SendFrame>,
    numbers: MessageNumbers,
    names: ServiceNames,
    config: SimConfig,
) -> SimulationView {
    match frame {
        None => plain_result(
            SimDecision::Pass,
            "decode"@,
            "invalid Steam packet framing; send hook passes the frame through"@,
            None,
        ),
        Some(frame) => {
            let emsg = frame.emsg_raw & !numbers.proto_flag;
            if frame.emsg_raw & numbers.proto_flag == 0 {
                plain_result(
                    SimDecision::Pass,
                    "non-proto"@,
                    "non-protobuf packet; send hook does not mutate it"@,
                    None,
                )
            } else if emsg == numbers.service_method {
                service_result(frame, names, config)
            } else if emsg == numbers.user_stats {
                legacy_stats_result(
                    frame.legacy_stats,
                    config.controlled@,
                    config.offline_schema,
                    frame.rewritten_len,
                )
            } else if emsg == numbers.games_played || emsg == numbers.games_played_with_data {
                games_played_result(
                    games_view(frame.games),
                    config.avatars@,
                    frame.rewritten_len,
                )
            } else if emsg == numbers.rich_presence {
                plain_result(
                    SimDecision::Pass,
                    "rich-presence-capture"@,
                    "rich presence upload only updates runtime tracking state"@,
                    None,
                )
            } else if emsg == numbers.pics {
                plain_result(
                    SimDecision::NeedsRuntimeState,
                    "pics-access-token"@,
                    "PICS access-token injection depends on Lua/script runtime state"@,
                    None,
                )
            } else {
                plain_result(SimDecision::Pass, "unknown"@, "no send-side handler matched"@, None)
            }
        },
    }
}

/// Says what would happen to a sent packet.
pub fn simulate_send(
    frame: &Option<SendFrame>,
    numbers: &MessageNumbers,
    names: &ServiceNames,
    config: &SimConfig,
) -> (result: SimulationResult)
    ensures
        result@ == send_result(*frame, *numbers, *names, *config),
{
    let frame: &SendFrame = match frame {
        Some(frame) => frame,
        None => {
            return pass(
                "decode",
                "invalid Steam packet framing; send hook passes the frame through",
            );
        },
    };
    let emsg: u32 = frame.emsg_raw & !numbers.proto_flag;
    if frame.emsg_raw & numbers.proto_flag == 0 {
        return pass("non-proto", "non-protobuf packet; send hook does not mutate it");
    }
    if emsg == numbers.service_method {
        return simulate_send_service_method(frame, names, config);
    }
    if emsg == numbers.user_stats {
        return simulate_legacy_stats(frame.legacy_stats, config, frame.rewritten_len);
    }
    if emsg == numbers.games_played || emsg == numbers.games_played_with_data {
        return simulate_games_played(&frame.games, config, frame.rewritten_len);
    }
    if emsg == numbers.rich_presence {
        return pass(
            "rich-presence-capture",
            "rich presence upload only updates runtime tracking state",
        );
    }
    if emsg == numbers.pics {
        return sim_result(
            SimDecision::NeedsRuntimeState,
            "pics-access-token",
            "PICS access-token injection depends on Lua/script runtime state".to_owned(),
            None,
        );
    }
    pass("unknown", "no send-side handler matched")
}

/// What would happen to a received packet.
pub open spec fn recv_result(packet_type: PacketType) -> SimulationView {
    match packet_type {
        PacketType::Stats => plain_result(
            SimDecision::NeedsRuntimeState,
            "achievement-stats-response"@,
            "recv stats rewriting depends on pending request state"@,
            None,
        ),
        PacketType::EncryptedTicket => plain_result(
            SimDecision::NeedsRuntimeState,
            "encrypted-ticket"@,
            "encrypted ticket rewriting depends on cache and Lua/script state"@,
            None,
        ),
        PacketType::Persona => plain_result(
            SimDecision::NeedsRuntimeState,
            "persona-rich-presence"@,
            "PersonaState patching depends on cached self persona and tracked rich presence"@,
            None,
        ),
        _ => plain_result(
            SimDecision::Pass,
            "unknown"@,
            "no recv-side handler can be verified offline for this packet"@,
            None,
        ),
    }
}

/// Says what would happen to a received packet.
pub fn simulate_recv(packet_type: PacketType) -> (result: SimulationResult)
    ensures
        result@ == recv_result(packet_type),
{
    match packet_type {
        PacketType::Stats => sim_result(
            SimDecision::NeedsRuntimeState,
            "achievement-stats-response",
            "recv stats rewriting depends on pending request state".to_owned(),
            None,
        ),
        PacketType::EncryptedTicket => sim_result(
            SimDecision::NeedsRuntimeState,
            "encrypted-ticket",
            "encrypted ticket rewriting depends on cache and Lua/script state".to_owned(),
            None,
        ),
        PacketType::Persona => sim_result(
            SimDecision::NeedsRuntimeState,
            "persona-rich-presence",
            "PersonaState patching depends on cached self persona and tracked rich presence".to_owned(),
            None,
        ),
        _ => pass("unknown", "no recv-side handler can be verified offline for this packet"),
    }
}

/// What a simulation prints.
pub open spec fn simulation_lines(line: Seq<char>, result: SimulationView) -> Seq<Seq<char>> {
    seq![
        line,
        "  simulate: decision="@ + result.decision.text() + " handler="@ + result.handler
            + " final_len="@ + (match result.final_len {
            Some(len) => decimal_of(len as nat),
            None => "-"@,
        }),
        "  reason: "@ + result.reason,
    ] + (if result.assumptions.len() == 0 {
        Seq::empty()
    } else {
        seq!["  assumptions:"@] + points(result.assumptions)
    })
}

/// The lines that tell what a simulation found.
pub fn simulation_text(line: &str, result: &SimulationResult) -> (lines: Vec<String>)
    ensures
        texts_of(lines@) == simulation_lines(line@, result@),
{
    let len: String = match result.final_len {
        Some(len) => decimal(len as u64),
        None => "-".to_owned(),
    };
    let mut verdict: String = concat("  simulate: decision=", result.decision.label());
    verdict.append(" handler=");
    verdict.append(result.handler);
    verdict.append(" final_len=");
    verdict.append(len.as_str());
    let reason: String = concat("  reason: ", result.reason.as_str());
    let mut lines: Vec<String> = one_text(line);
    push_text(&mut lines, verdict.as_str());
    push_text(&mut lines, reason.as_str());
    assert(result@.assumptions.len() == result.assumptions@.len());
    if result.assumptions.len() > 0 {
        push_text(&mut lines, "  assumptions:");
        push_points(&mut lines, &result.assumptions);
    }
    assert(texts_of(lines@) =~= simulation_lines(line@, result@));
    lines
}

/// A sent packet that is dropped has length zero, one that is rewritten the length it is
/// assembled with, and any other is given none.
pub proof fn law_lengths_follow_the_decision(
    frame: Option<SendFrame>,
    numbers: MessageNumbers,
    names: ServiceNames,
    config: SimConfig,
)
    ensures
        ({
            let result = send_result(frame, numbers, names, config);
            &&& result.decision is Drop ==> result.final_len == Some(0usize)
            &&& result.decision is Rewrite ==> frame is Some && result.final_len == Some(
                frame->0.rewritten_len,
            )
            &&& result.final_len is Some ==> result.decision is Drop || result.decision is Rewrite
        }),
{
}

/// A request for a manifest code is dropped exactly where it can be read, its answer can be
/// sent back and its app is controlled; a missing app counts as zero. Otherwise it passes.
pub proof fn law_controlled_manifest_requests_are_dropped(
    job_id: Option<u64>,
    request: Option<Option<u32>>,
    controlled: Seq<u32>,
)
    ensures
        ({
            let result = manifest_result(job_id, request, controlled);
            let dropped = request is Some && job_id is Some && job_id->0 > 0 && (match request->0 {
                Some(app_id) => controlled.contains(app_id),
                None => controlled.contains(0),
            });
            &&& dropped ==> result.decision is Drop
            &&& !dropped ==> result.decision is Pass
        }),
{
}

/// A request for stats that can be read, answered and concerns a controlled app is answered
/// offline where that is set, and redirected where it is not; any other passes.
pub proof fn law_controlled_stats_requests_are_handled(
    job_id: Option<u64>,
    request: Option<ServiceStatsRequest>,
    controlled: Seq<u32>,
    rewritten_len: usize,
)
    ensures
        ({
            let offline = service_stats_result(job_id, request, controlled, true, rewritten_len);
            let online = service_stats_result(job_id, request, controlled, false, rewritten_len);
            let handled = request is Some && request->0.app_id is Some && controlled.contains(
                request->0.app_id->0,
            ) && job_id is Some;
            &&& handled ==> offline.decision is Drop && online.decision is Rewrite
            &&& handled ==> offline.assumptions.len() == 1 && online.assumptions
                == offline.assumptions
            &&& !handled ==> offline.decision is Pass && online == offline
                && online.assumptions.len() == 0
        }),
{
}

/// The same holds of the older form, where the schema is asked for anew and the app is the low
/// 32 bits of the game id.
pub proof fn law_controlled_legacy_requests_are_handled(
    request: Option<LegacyStatsRequest>,
    controlled: Seq<u32>,
    rewritten_len: usize,
    app_id: u32,
)
    requires
        request is Some && request->0.game_id is Some ==> app_id == request->0.game_id->0
            % 0x1_0000_0000,
    ensures
        ({
            let offline = legacy_stats_result(request, controlled, true, rewritten_len);
            let online = legacy_stats_result(request, controlled, false, rewritten_len);
            let handled = request is Some && request->0.game_id is Some
                && request->0.schema_local_version is Some && request->0.schema_local_version->0
                == -1 && controlled.contains(app_id);
            &&& handled ==> offline.decision is Drop && online.decision is Rewrite
            &&& !handled ==> offline.decision is Pass && online == offline
        }),
{
    if request is Some && request->0.game_id is Some {
        let game_id = request->0.game_id->0;
        assert(game_id as u32 == game_id % 0x1_0000_0000) by (bit_vector);
    }
}

/// An app's own avatar goes before the one for every app; without both it has none.
pub proof fn law_own_avatars_go_first(avatars: Map<u32, u32>, app_id: u32, avatar: u32, common: u32)
    ensures
        avatar_of(avatars.insert(app_id, avatar), app_id) == Some(avatar),
        app_id != 0 && !avatars.contains_key(app_id) ==> avatar_of(
            avatars.insert(0, common),
            app_id,
        ) == Some(common),
        avatar_of(avatars.remove(app_id).remove(0), app_id) is None,
{
}

proof fn lemma_rewrites_tell(games: Seq<Option<u64>>, avatars: Map<u32, u32>, place: int)
    requires
        0 <= place < games.len(),
        game_avatar(games[place], avatars) is Some,
    ensures
        rewrites_of(games, avatars).contains(
            decimal_of(app_of_game(games[place]->0) as nat) + "->"@ + decimal_of(
                game_avatar(games[place], avatars)->0 as nat,
            ),
        ),
    decreases games.len(),
{
    let rest = games.drop_last();
    let told = decimal_of(app_of_game(games[place]->0) as nat) + "->"@ + decimal_of(
        game_avatar(games[place], avatars)->0 as nat,
    );
    let all = rewrites_of(games, avatars);
    if place == games.len() - 1 {
        assert(games.last() == games[place]);
        assert(all[all.len() - 1] == told);
    } else {
        lemma_rewrites_tell(rest, avatars, place);
        let before = rewrites_of(rest, avatars);
        let k = choose|k: int| 0 <= k < before.len() && before[k] == told;
        assert(all[k] == told);
    }
}

proof fn lemma_no_rewrites(games: Seq<Option<u64>>, avatars: Map<u32, u32>)
    requires
        forall|place: int|
            0 <= place < games.len() ==> game_avatar(#[trigger] games[place], avatars) is None,
    ensures
        rewrites_of(games, avatars).len() == 0,
    decreases games.len(),
{
    if games.len() > 0 {
        let rest = games.drop_last();
        assert forall|place: int| 0 <= place < rest.len() implies game_avatar(
            #[trigger] rest[place],
            avatars,
        ) is None by {
            assert(rest[place] == games[place]);
        }
        lemma_no_rewrites(rest, avatars);
        assert(games.last() == games[games.len() - 1]);
    }
}

/// A message about games is rewritten exactly where one of them has an avatar: each such game
/// is replaced by its avatar and told of, and every other stays what and where it was.
pub proof fn law_games_with_avatars_are_replaced(
    games: Vec<Option<u64>>,
    avatars: HashMap<u32, u32>,
    rewritten: (Vec<Option<u64>>, Vec<String>),
    place: int,
    app_id: u32,
    rewritten_len: usize,
)
    requires
        call_ensures(rewrite_games, (&games, &avatars), rewritten),
        0 <= place < games@.len(),
        games@[place] is Some ==> app_id == games@[place]->0 % 0x1_0000_0000,
    ensures
        rewritten.0@.len() == games@.len(),
        ({
            let result = games_played_result(Some(games@), avatars@, rewritten_len);
            let avatar = if avatars@.contains_key(app_id) {
                avatars@[app_id]
            } else {
                avatars@[0]
            };
            let replaced = games@[place] is Some && (avatars@.contains_key(app_id)
                || avatars@.contains_key(0));
            &&& !replaced ==> rewritten.0@[place] == games@[place]
            &&& replaced ==> rewritten.0@[place] == Some(avatar as u64) && texts_of(
                rewritten.1@,
            ).contains(decimal_of(app_id as nat) + "->"@ + decimal_of(avatar as nat))
            &&& replaced ==> result.decision is Rewrite
            &&& rewritten.1@.len() == 0 <==> result.decision is Pass
        }),
{
    let result = games_played_result(Some(games@), avatars@, rewritten_len);
    if games@[place] is Some {
        let game_id = games@[place]->0;
        assert(game_id as u32 == game_id % 0x1_0000_0000) by (bit_vector);
        if game_avatar(games@[place], avatars@) is Some {
            lemma_rewrites_tell(games@, avatars@, place);
            assert(rewrites_of(games@, avatars@).len() > 0);
        }
    }
    assert(texts_of(rewritten.1@).len() == rewritten.1@.len());
}

/// Games without an avatar are left alone as a whole.
pub proof fn law_games_without_avatars_pass(
    games: Seq<Option<u64>>,
    avatars: Map<u32, u32>,
    rewritten_len: usize,
)
    requires
        !avatars.contains_key(0),
        forall|place: int|
            0 <= place < games.len() && (#[trigger] games[place]) is Some ==> !avatars.contains_key(
                games[place]->0 as u32,
            ),
    ensures
        games_played_result(Some(games), avatars, rewritten_len).decision is Pass,
        games_after(games, avatars) == games,
{
    lemma_no_rewrites(games, avatars);
    assert(games_after(games, avatars) =~= games);
}

/// Every kind of message goes to its own handler, and one without the flag of protobuf
/// messages, without framing or without a handler passes as it is.
pub proof fn law_messages_go_to_their_handlers(
    frame: SendFrame,
    numbers: MessageNumbers,
    names: ServiceNames,
    config: SimConfig,
    emsg: u32,
)
    requires
        emsg == frame.emsg_raw & !numbers.proto_flag,
        seq![
            numbers.service_method,
            numbers.user_stats,
            numbers.games_played,
            numbers.games_played_with_data,
            numbers.rich_presence,
            numbers.pics,
        ].no_duplicates(),
    ensures
        ({
            let result = send_result(Some(frame), numbers, names, config);
            let proto = frame.emsg_raw & numbers.proto_flag != 0;
            &&& !proto ==> result.decision is Pass
            &&& proto && emsg == numbers.service_method ==> result == service_result(
                frame,
                names,
                config,
            )
            &&& proto && emsg == numbers.user_stats ==> result == legacy_stats_result(
                frame.legacy_stats,
                config.controlled@,
                config.offline_schema,
                frame.rewritten_len,
            )
            &&& proto && (emsg == numbers.games_played || emsg == numbers.games_played_with_data)
                ==> result == games_played_result(
                games_view(frame.games),
                config.avatars@,
                frame.rewritten_len,
            )
            &&& result.decision is NeedsRuntimeState <==> proto && emsg == numbers.pics
            &&& proto && emsg == numbers.rich_presence ==> result.decision is Pass
            &&& result.decision is Drop || result.decision is Rewrite ==> proto && (emsg
                == numbers.service_method || emsg == numbers.user_stats || emsg
                == numbers.games_played || emsg == numbers.games_played_with_data)
        }),
        send_result(None, numbers, names, config).decision is Pass,
{
    let all = seq![
        numbers.service_method,
        numbers.user_stats,
        numbers.games_played,
        numbers.games_played_with_data,
        numbers.rich_presence,
        numbers.pics,
    ];
    assert(all[0] == numbers.service_method && all[1] == numbers.user_stats && all[2]
        == numbers.games_played && all[3] == numbers.games_played_with_data && all[4]
        == numbers.rich_presence && all[5] == numbers.pics);
    assert(all[0] != all[1] && all[0] != all[2] && all[0] != all[3] && all[0] != all[4] && all[0]
        != all[5] && all[1] != all[2] && all[1] != all[3] && all[1] != all[4] && all[1] != all[5]
        && all[2] != all[4] && all[2] != all[5] && all[3] != all[4] && all[3] != all[5] && all[4]
        != all[5]);
}

/// A service call is handled by the method it names.
pub proof fn law_service_calls_go_by_their_method(
    frame: SendFrame,
    names: ServiceNames,
    config: SimConfig,
)
    ensures
        ({
            let result = service_result(frame, names, config);
            let named = frame.header is Some && frame.header->0.method is Some;
            let method = frame.header->0.method->0@;
            &&& named && method == names.manifest_code@ ==> result == manifest_result(
                frame.header->0.job_id,
                frame.manifest_app,
                config.controlled@,
            )
            &&& named && method == names.stats@ && names.stats@ != names.manifest_code@ ==> result
                == service_stats_result(
                frame.header->0.job_id,
                frame.stats,
                config.controlled@,
                config.offline_schema,
                frame.rewritten_len,
            )
            &&& !(result.decision is Pass) ==> named && (method == names.manifest_code@ || method
                == names.stats@)
        }),
{
}

/// What is explained and what is simulated agree: a received packet has a route exactly where
/// the simulation says that it depends on what runs, and a sent one has at most one.
pub proof fn law_routes_agree_with_the_simulation(packet_type: PacketType)
    ensures
        routes_of(PacketDirection::Recv, packet_type).len() > 0 <==> recv_result(
            packet_type,
        ).decision is NeedsRuntimeState,
        recv_result(packet_type).decision is NeedsRuntimeState <==> packet_type is Stats
            || packet_type is EncryptedTicket || packet_type is Persona,
        recv_result(packet_type).decision is Pass || recv_result(
            packet_type,
        ).decision is NeedsRuntimeState,
        routes_of(PacketDirection::Send, packet_type).len() > 0 <==> packet_type is ManifestCode
            || packet_type is Stats || packet_type is GamesPlayed || packet_type is RichPresence
            || packet_type is Pics,
        routes_of(PacketDirection::Send, packet_type).len() <= 1,
{
}

/// An explanation begins with the packet's line and tells every route, in order.
pub proof fn law_explanations_tell_every_route(
    line: &str,
    routes: Vec<String>,
    lines: Vec<String>,
    k: int,
)
    requires
        call_ensures(explain_text, (line, &routes), lines),
    ensures
        lines@.len() == if routes@.len() == 0 {
            3
        } else {
            routes@.len() + 3
        },
        lines@[0]@ == line@,
        0 <= k < routes@.len() ==> lines@[k + 2]@ == "    - "@ + routes@[k]@,
{
    let told = texts_of(lines@);
    let named = texts_of(routes@);
    assert(told.len() == lines@.len());
    assert(told[0] == lines@[0]@);
    if 0 <= k < routes@.len() {
        assert(points(named)[k] == "    - "@ + named[k]);
        assert(named[k] == routes@[k]@);
        assert(told[k + 2] == points(named)[k]);
        assert(told[k + 2] == lines@[k + 2]@);
    }
}

/// What a simulation found is told whole: its decision, its reason and every assumption.
pub proof fn law_simulations_tell_every_assumption(
    line: &str,
    result: SimulationResult,
    lines: Vec<String>,
    k: int,
)
    requires
        call_ensures(simulation_text, (line, &result), lines),
    ensures
        lines@.len() >= 3,
        lines@[0]@ == line@,
        lines@[2]@ == "  reason: "@ + result.reason@,
        0 <= k < result.assumptions@.len() ==> lines@.len() == result.assumptions@.len() + 4
            && lines@[k + 4]@ == "    - "@ + result.assumptions@[k]@,
{
    let told = texts_of(lines@);
    let named = texts_of(result.assumptions@);
    assert(told.len() == lines@.len());
    assert(told[0] == lines@[0]@ && told[2] == lines@[2]@);
    assert(named.len() == result.assumptions@.len());
    if 0 <= k < result.assumptions@.len() {
        assert(points(named)[k] == "    - "@ + named[k]);
        assert(named[k] == result.assumptions@[k]@);
        assert(told[k + 4] == points(named)[k]);
        assert(told[k + 4] == lines@[k + 4]@);
    }
}

} // verus!
