//! A session on Steam's user and stats interfaces: what is read, and what a reading means.
use crate::achievement_adapters::{bounded_key, key_of};
use crate::achievement_worker::AchievementState;
use crate::callback_dispatch::USER_STATS_RECEIVED;
use crate::callback_notify::{ApiCallView, CallbackNotify, IssuingView};
use crate::capability::joined;
use crate::env::join_texts;
use crate::paths::texts_of;
use crate::steam_context::{CapturedInterfaces, Identity, SteamContext};
use crate::text::{concat, decimal, decimal_of, lossy_text_of, signed_decimal, signed_decimal_of};
use vstd::prelude::*;
use vstd::string::*;

verus! {

pub const MAX_ACHIEVEMENTS: u32 = 10000;

pub const MAX_STATS: u32 = 10000;

/// How long a key may be with its terminator.
pub const MAX_KEY_LEN: usize = 255;

/// The methods of the stats interface that are called.
#[derive(Clone, Copy, Debug, PartialEq, Eq, Structural)]
pub enum StatsMethod {
    GetNumStats,
    GetStatName,
    GetStatType,
    GetNumAchievements,
    GetAchievementName,
    RequestCurrentStats,
    GetStatInt,
    GetStatFloat,
    GetAchievement,
    RequestUserStats,
}

/// The place of a method in the interface's table. The places between belong to methods
/// that are not called.
pub open spec fn stats_slot(method: StatsMethod) -> usize {
    match method {
        StatsMethod::GetNumStats => 0,
        StatsMethod::GetStatName => 1,
        StatsMethod::GetStatType => 2,
        StatsMethod::GetNumAchievements => 3,
        StatsMethod::GetAchievementName => 4,
        StatsMethod::RequestCurrentStats => 5,
        StatsMethod::GetStatInt => 7,
        StatsMethod::GetStatFloat => 8,
        StatsMethod::GetAchievement => 12,
        StatsMethod::RequestUserStats => 22,
    }
}

pub fn slot_of(method: StatsMethod) -> (slot: usize)
    ensures
        slot == stats_slot(method),
{
    match method {
        StatsMethod::GetNumStats => 0,
        StatsMethod::GetStatName => 1,
        StatsMethod::GetStatType => 2,
        StatsMethod::GetNumAchievements => 3,
        StatsMethod::GetAchievementName => 4,
        StatsMethod::RequestCurrentStats => 5,
        StatsMethod::GetStatInt => 7,
        StatsMethod::GetStatFloat => 8,
        StatsMethod::GetAchievement => 12,
        StatsMethod::RequestUserStats => 22,
    }
}

/// No two methods share a place.
pub proof fn law_slots_are_distinct(left: StatsMethod, right: StatsMethod)
    requires
        left != right,
    ensures
        stats_slot(left) != stats_slot(right),
{
}

/// Why a session or one of its readings failed.
#[derive(Clone, Copy, Debug, PartialEq, Eq, Structural)]
pub enum SessionError {
    HooksUnavailable,
    ContextUnavailable,
    VtableUnavailable,
    ContextChanged,
    InvalidApp,
    NoSteamId,
    MinutesUnavailable,
    MinutesRefused,
    NegativeTotal,
    NegativeTwoWeeks,
    WindowNotRegistered,
    NoCallHandle,
    HandleNotRegistered,
    CountInvalid,
    AchievementCountInvalid,
    AchievementNameInvalid,
    GetAchievementFailed,
    StatNameInvalid,
    GetStatIntFailed,
    GetStatFloatFailed,
}

impl SessionError {
    pub open spec fn text(self) -> Seq<char> {
        match self {
            SessionError::HooksUnavailable => "callback hooks are unavailable"@,
            SessionError::ContextUnavailable => "Steam interface context unavailable"@,
            SessionError::VtableUnavailable => "IClientUserStats vtable is unavailable"@,
            SessionError::ContextChanged => "Steam interface context changed"@,
            SessionError::InvalidApp => "AppID is invalid"@,
            SessionError::NoSteamId => "SteamID is unavailable"@,
            SessionError::MinutesUnavailable =>
                "IClientUser::BGetAppMinutesPlayed is unavailable"@,
            SessionError::MinutesRefused => "BGetAppMinutesPlayed returned false"@,
            SessionError::NegativeTotal => "BGetAppMinutesPlayed returned negative total"@,
            SessionError::NegativeTwoWeeks =>
                "BGetAppMinutesPlayed returned negative two-week total"@,
            SessionError::WindowNotRegistered =>
                "RequestUserStats issue window could not be registered"@,
            SessionError::NoCallHandle => "RequestUserStats returned no call handle"@,
            SessionError::HandleNotRegistered =>
                "RequestUserStats handle could not be registered"@,
            SessionError::CountInvalid => "stats map count is invalid"@,
            SessionError::AchievementCountInvalid => "achievement count is invalid"@,
            SessionError::AchievementNameInvalid => "achievement name is invalid"@,
            SessionError::GetAchievementFailed => "GetAchievement failed"@,
            SessionError::StatNameInvalid => "stat name is invalid"@,
            SessionError::GetStatIntFailed => "GetStat(int32) failed"@,
            SessionError::GetStatFloatFailed => "GetStat(float) failed"@,
        }
    }

    pub fn message(self) -> (message: &'static str)
        ensures
            message@ == self.text(),
    {
        match self {
            SessionError::HooksUnavailable => "callback hooks are unavailable",
            SessionError::ContextUnavailable => "Steam interface context unavailable",
            SessionError::VtableUnavailable => "IClientUserStats vtable is unavailable",
            SessionError::ContextChanged => "Steam interface context changed",
            SessionError::InvalidApp => "AppID is invalid",
            SessionError::NoSteamId => "SteamID is unavailable",
            SessionError::MinutesUnavailable => "IClientUser::BGetAppMinutesPlayed is unavailable",
            SessionError::MinutesRefused => "BGetAppMinutesPlayed returned false",
            SessionError::NegativeTotal => "BGetAppMinutesPlayed returned negative total",
            SessionError::NegativeTwoWeeks =>
                "BGetAppMinutesPlayed returned negative two-week total",
            SessionError::WindowNotRegistered =>
                "RequestUserStats issue window could not be registered",
            SessionError::NoCallHandle => "RequestUserStats returned no call handle",
            SessionError::HandleNotRegistered => "RequestUserStats handle could not be registered",
            SessionError::CountInvalid => "stats map count is invalid",
            SessionError::AchievementCountInvalid => "achievement count is invalid",
            SessionError::AchievementNameInvalid => "achievement name is invalid",
            SessionError::GetAchievementFailed => "GetAchievement failed",
            SessionError::StatNameInvalid => "stat name is invalid",
            SessionError::GetStatIntFailed => "GetStat(int32) failed",
            SessionError::GetStatFloatFailed => "GetStat(float) failed",
        }
    }
}

/// Why no session can be had, if none can. `vtable_known` is none where the context did not
/// survive the look at the table.
pub open spec fn connect_obstacle(
    hooks_ready: bool,
    context: SteamContext,
    identity: Identity,
    vtable_known: Option<bool>,
) -> Option<SessionError> {
    if !hooks_ready {
        Some(SessionError::HooksUnavailable)
    } else if !context.is_complete(identity) {
        Some(SessionError::ContextUnavailable)
    } else if vtable_known is None {
        Some(SessionError::ContextChanged)
    } else if vtable_known == Some(false) {
        Some(SessionError::VtableUnavailable)
    } else {
        None
    }
}

/// Opens a session on the interfaces of now. It owns the calls from then on.
pub fn connect(
    notify: &mut CallbackNotify,
    context: &SteamContext,
    identity: Identity,
    vtable_known: Option<bool>,
) -> (session: Result<CapturedInterfaces, SessionError>)
    requires
        old(notify).wf(),
    ensures
        final(notify).wf(),
        *final(notify) == (CallbackNotify { calls: final(notify).calls, ..*old(notify) }),
        ({
            let obstacle = connect_obstacle(
                old(notify).hooks_ready,
                *context,
                identity,
                vtable_known,
            );
            match session {
                Ok(captured) => obstacle is None && captured == (CapturedInterfaces {
                    revision: context.revision,
                    values: context.values,
                }) && final(notify).calls@ == (if old(notify).calls@.session == Some(
                    context.revision,
                ) {
                    old(notify).calls@
                } else {
                    ApiCallView::idle(Some(context.revision))
                }),
                Err(error) => obstacle == Some(error) && final(notify).calls@ == old(notify).calls@,
            }
        }),
{
    if !notify.hooks_ready {
        return Err(SessionError::HooksUnavailable);
    }
    let captured: CapturedInterfaces = match context.capture(identity) {
        Some(captured) => captured,
        None => {
            return Err(SessionError::ContextUnavailable);
        },
    };
    match vtable_known {
        None => {
            return Err(SessionError::ContextChanged);
        },
        Some(known) => {
            if !known {
                return Err(SessionError::VtableUnavailable);
            }
        },
    }
    notify.calls.activate(captured.revision);
    Ok(captured)
}

/// What Steam answered when it was asked for the minutes.
#[derive(Clone, Copy, Debug, PartialEq, Eq, Structural)]
pub enum MinutesAnswer {
    Unavailable,
    Refused,
    Read { total: i32, two_weeks: i32 },
}

/// The playtime of one app.
#[derive(Clone, Copy, Debug, PartialEq, Eq, Structural)]
pub struct PlaytimeGame {
    pub app_id: u32,
    pub playtime_minutes: u32,
    pub playtime_2weeks_minutes: u32,
    pub last_played_at: Option<i64>,
}

/// The playtime of an account's app.
#[derive(Clone, Copy, Debug, PartialEq, Eq, Structural)]
pub struct PlaytimeSnapshot {
    pub steam_id64: u64,
    pub game: PlaytimeGame,
}

/// What readings of the playtime amount to.
pub open spec fn playtime_of(
    app_id: u32,
    steam_id64: Option<u64>,
    minutes: Option<MinutesAnswer>,
    last_played: Option<Option<u32>>,
) -> Result<PlaytimeSnapshot, SessionError> {
    if app_id == 0 {
        Err(SessionError::InvalidApp)
    } else if steam_id64 is None || minutes is None {
        Err(SessionError::ContextChanged)
    } else {
        match minutes->0 {
            MinutesAnswer::Unavailable => Err(SessionError::MinutesUnavailable),
            MinutesAnswer::Refused => Err(SessionError::MinutesRefused),
            MinutesAnswer::Read { total, two_weeks } => if total < 0 {
                Err(SessionError::NegativeTotal)
            } else if two_weeks < 0 {
                Err(SessionError::NegativeTwoWeeks)
            } else {
                match last_played {
                    None => Err(SessionError::ContextChanged),
                    Some(last) => Ok(
                        PlaytimeSnapshot {
                            steam_id64: steam_id64->0,
                            game: PlaytimeGame {
                                app_id,
                                playtime_minutes: total as u32,
                                playtime_2weeks_minutes: two_weeks as u32,
                                last_played_at: if last is Some && last->0 != 0 {
                                    Some(last->0 as i64)
                                } else {
                                    None
                                },
                            },
                        },
                    ),
                }
            },
        }
    }
}

/// Reads the playtime of an app. An outer `None` is a reading that the context did not
/// survive; an inner one of the last time is a method that Steam does not have.
pub fn playtime_snapshot(
    app_id: u32,
    steam_id64: Option<u64>,
    minutes: Option<MinutesAnswer>,
    last_played: Option<Option<u32>>,
) -> (snapshot: Result<PlaytimeSnapshot, SessionError>)
    ensures
        snapshot == playtime_of(app_id, steam_id64, minutes, last_played),
{
    if app_id == 0 {
        return Err(SessionError::InvalidApp);
    }
    let steam_id64: u64 = match steam_id64 {
        Some(steam_id64) => steam_id64,
        None => {
            return Err(SessionError::ContextChanged);
        },
    };
    let (total, two_weeks): (i32, i32) = match minutes {
        None => {
            return Err(SessionError::ContextChanged);
        },
        Some(MinutesAnswer::Unavailable) => {
            return Err(SessionError::MinutesUnavailable);
        },
        Some(MinutesAnswer::Refused) => {
            return Err(SessionError::MinutesRefused);
        },
        Some(MinutesAnswer::Read { total, two_weeks }) => (total, two_weeks),
    };
    if total < 0 {
        return Err(SessionError::NegativeTotal);
    }
    if two_weeks < 0 {
        return Err(SessionError::NegativeTwoWeeks);
    }
    let last_played_at: Option<i64> = match last_played {
        None => {
            return Err(SessionError::ContextChanged);
        },
        Some(Some(time)) => if time != 0 {
            Some(time as i64)
        } else {
            None
        },
        Some(None) => None,
    };
    Ok(
        PlaytimeSnapshot {
            steam_id64,
            game: PlaytimeGame {
                app_id,
                playtime_minutes: total as u32,
                playtime_2weeks_minutes: two_weeks as u32,
                last_played_at,
            },
        },
    )
}

/// Opens the window of a stats request.
pub fn begin_request_stats(
    notify: &mut CallbackNotify,
    session: u64,
    app_id: u32,
    steam_id64: u64,
) -> (verdict: Result<(), SessionError>)
    requires
        old(notify).wf(),
    ensures
        final(notify).wf(),
        *final(notify) == (CallbackNotify { calls: final(notify).calls, ..*old(notify) }),
        ({
            let free = old(notify).calls@.session == Some(session) && old(notify).calls@.issuing is None;
            &&& verdict == if app_id == 0 {
                Err::<(), SessionError>(SessionError::InvalidApp)
            } else if steam_id64 == 0 {
                Err(SessionError::NoSteamId)
            } else if !free {
                Err(SessionError::WindowNotRegistered)
            } else {
                Ok(())
            }
            &&& final(notify).calls@ == if verdict is Ok {
                ApiCallView {
                    issuing: Some(
                        IssuingView {
                            session,
                            callback: USER_STATS_RECEIVED,
                            candidates: Seq::empty(),
                        },
                    ),
                    ..old(notify).calls@
                }
            } else {
                old(notify).calls@
            }
        }),
{
    if app_id == 0 {
        return Err(SessionError::InvalidApp);
    }
    if steam_id64 == 0 {
        return Err(SessionError::NoSteamId);
    }
    if !notify.calls.begin_issue(session, USER_STATS_RECEIVED) {
        return Err(SessionError::WindowNotRegistered);
    }
    Ok(())
}

/// Settles a stats request with the handle that Steam returned; `None` is a context that
/// changed. A request that failed closes its window.
pub fn finish_request_stats(notify: &mut CallbackNotify, session: u64, call: Option<u64>) -> (handle:
    Result<u64, SessionError>)
    requires
        old(notify).wf(),
    ensures
        final(notify).wf(),
        ({
            let before = old(notify).calls@;
            let own = before.issuing is Some && before.issuing->0.session == session
                && before.issuing->0.callback == USER_STATS_RECEIVED;
            let cancelled = if own {
                ApiCallView { issuing: None, ..before }
            } else {
                before
            };
            let (issued, outcome) = before.issue_finished(session, call->0, USER_STATS_RECEIVED);
            let returned = call is Some && call->0 != 0;
            let woken = returned && outcome is Completed;
            &&& handle == if call is None {
                Err::<u64, SessionError>(SessionError::ContextChanged)
            } else if !returned {
                Err(SessionError::NoCallHandle)
            } else if outcome is Rejected {
                Err(SessionError::HandleNotRegistered)
            } else {
                Ok(call->0)
            }
            &&& final(notify).calls@ == if returned {
                issued
            } else {
                cancelled
            }
            &&& *final(notify) == (CallbackNotify {
                calls: final(notify).calls,
                epoch: if woken {
                    old(notify).epoch.wrapping_add(1)
                } else {
                    old(notify).epoch
                },
                registered_api_results: if woken {
                    old(notify).registered_api_results.wrapping_add(1)
                } else {
                    old(notify).registered_api_results
                },
                ..*old(notify)
            })
        }),
{
    let call: u64 = match call {
        Some(call) => call,
        None => {
            notify.calls.cancel_issue(session, USER_STATS_RECEIVED);
            return Err(SessionError::ContextChanged);
        },
    };
    if call == 0 {
        notify.calls.cancel_issue(session, USER_STATS_RECEIVED);
        return Err(SessionError::NoCallHandle);
    }
    if !notify.finish_api_call(session, call, USER_STATS_RECEIVED) {
        return Err(SessionError::HandleNotRegistered);
    }
    Ok(call)
}

/// How much Steam holds for an app.
#[derive(Clone, Copy, Debug, PartialEq, Eq, Structural)]
pub struct StatsCounts {
    pub stats: u32,
    pub achievements: u32,
}

/// Why two counts cannot be used, if they cannot; `None` is a context that changed.
pub open spec fn count_obstacle(stats: Option<u32>, achievements: Option<u32>) -> Option<
    SessionError,
> {
    if stats is None || achievements is None {
        Some(SessionError::ContextChanged)
    } else if stats->0 > MAX_STATS || achievements->0 > MAX_ACHIEVEMENTS {
        Some(SessionError::CountInvalid)
    } else {
        None
    }
}

/// Checks the counts that Steam reports; `None` is a context that changed.
pub fn stats_counts(stats: Option<u32>, achievements: Option<u32>) -> (counts: Result<
    StatsCounts,
    SessionError,
>)
    ensures
        counts == match count_obstacle(stats, achievements) {
            Some(error) => Err::<StatsCounts, SessionError>(error),
            None => Ok(StatsCounts { stats: stats->0, achievements: achievements->0 }),
        },
{
    match (stats, achievements) {
        (Some(stats), Some(achievements)) => if stats > MAX_STATS || achievements
            > MAX_ACHIEVEMENTS {
            Err(SessionError::CountInvalid)
        } else {
            Ok(StatsCounts { stats, achievements })
        },
        _ => Err(SessionError::ContextChanged),
    }
}

/// Reads the key that Steam returned; none without one, for an empty one, and where it does
/// not end in time.
pub fn stat_key(memory: Option<&[u8]>) -> (key: Option<String>)
    ensures
        key is Some <==> memory is Some && key_of(memory->0@, MAX_KEY_LEN as int) is Some,
        key is Some ==> key->0@ == lossy_text_of(key_of(memory->0@, MAX_KEY_LEN as int)->0),
{
    bounded_key(memory, MAX_KEY_LEN)
}

/// What was read of one achievement.
pub struct AchievementReading {
    /// The context did not survive the reading.
    pub interrupted: bool,
    pub key: Option<String>,
    pub read: bool,
    pub unlocked: bool,
    pub unlock_time: u32,
}

/// What kind of value a stat has. A dynamic one is as Steam declares it.
#[derive(Clone, Copy, Debug, PartialEq, Eq, Structural)]
pub enum StatKind {
    Int,
    Float,
    AverageRate,
    Dynamic,
}

/// What was read of one stat: of each getter whether it succeeded, and the value it left
/// behind, which is zero where it left none. The text of a floating-point value is taken over
/// as it is.
pub struct StatReading {
    /// The context did not survive the reading.
    pub interrupted: bool,
    pub key: Option<String>,
    pub kind: StatKind,
    pub declared_type: i32,
    pub int_read: bool,
    pub int_value: i32,
    pub float_read: bool,
    pub float_text: String,
}

/// One stat as it stands.
pub struct StatState {
    pub key: String,
    pub value_type: String,
    pub value: String,
}

/// Everything that Steam holds for an app.
pub struct AchievementSnapshot {
    pub app_id: u32,
    pub achievements: Vec<AchievementState>,
    pub stats: Vec<StatState>,
}

/// The values of one achievement.
#[verifier::ext_equal]
pub struct AchievementView {
    pub key: Seq<char>,
    pub unlocked: bool,
    pub unlock_time: u32,
}

/// The values of one stat.
#[verifier::ext_equal]
pub struct StatView {
    pub key: Seq<char>,
    pub value_type: Seq<char>,
    pub value: Seq<char>,
}

/// The values of a row of achievements.
pub open spec fn achievement_views(states: Seq<AchievementState>) -> Seq<AchievementView> {
    states.map_values(
        |state: AchievementState|
            AchievementView {
                key: state.key@,
                unlocked: state.unlocked,
                unlock_time: state.unlock_time,
            },
    )
}

/// The values of a row of stats.
pub open spec fn stat_views(states: Seq<StatState>) -> Seq<StatView> {
    states.map_values(
        |state: StatState|
            StatView { key: state.key@, value_type: state.value_type@, value: state.value@ },
    )
}

/// What is wrong with the reading of an achievement.
pub open spec fn achievement_error(reading: AchievementReading) -> Option<SessionError> {
    if reading.interrupted {
        Some(SessionError::ContextChanged)
    } else if reading.key is None {
        Some(SessionError::AchievementNameInvalid)
    } else if !reading.read {
        Some(SessionError::GetAchievementFailed)
    } else {
        None
    }
}

/// The kind that a stat turns out to have; none where Steam declares one that is unknown.
pub open spec fn resolved_kind(reading: StatReading) -> Option<StatKind> {
    match reading.kind {
        StatKind::Dynamic => if reading.declared_type == 1 {
            Some(StatKind::Int)
        } else if reading.declared_type == 2 {
            Some(StatKind::Float)
        } else if reading.declared_type == 3 {
            Some(StatKind::AverageRate)
        } else {
            None
        },
        kind => Some(kind),
    }
}

/// What is wrong with the reading of a stat.
pub open spec fn stat_error(reading: StatReading) -> Option<SessionError> {
    if reading.interrupted {
        Some(SessionError::ContextChanged)
    } else if reading.key is None {
        Some(SessionError::StatNameInvalid)
    } else {
        match resolved_kind(reading) {
            None => None,
            Some(StatKind::Int) => if !reading.int_read {
                Some(SessionError::GetStatIntFailed)
            } else {
                None
            },
            Some(_) => if !reading.float_read {
                Some(SessionError::GetStatFloatFailed)
            } else {
                None
            },
        }
    }
}

/// The first thing that is wrong with achievements, from `from` on.
pub open spec fn first_achievement_error(readings: Seq<AchievementReading>, from: int) -> Option<
    SessionError,
>
    decreases readings.len() - from,
{
    if from < 0 || from >= readings.len() {
        None
    } else if achievement_error(readings[from]) is Some {
        achievement_error(readings[from])
    } else {
        first_achievement_error(readings, from + 1)
    }
}

/// The first thing that is wrong with stats, from `from` on.
pub open spec fn first_stat_error(readings: Seq<StatReading>, from: int) -> Option<SessionError>
    decreases readings.len() - from,
{
    if from < 0 || from >= readings.len() {
        None
    } else if stat_error(readings[from]) is Some {
        stat_error(readings[from])
    } else {
        first_stat_error(readings, from + 1)
    }
}

/// The achievements that readings give.
pub open spec fn read_achievements(readings: Seq<AchievementReading>) -> Seq<AchievementView> {
    readings.map_values(
        |reading: AchievementReading|
            AchievementView {
                key: reading.key->0@,
                unlocked: reading.unlocked,
                unlock_time: reading.unlock_time,
            },
    )
}

/// The stats that readings give: those of a known kind.
pub open spec fn read_stats(readings: Seq<StatReading>) -> Seq<StatView>
    decreases readings.len(),
{
    if readings.len() == 0 {
        Seq::empty()
    } else {
        let before = read_stats(readings.drop_last());
        let last = readings.last();
        match resolved_kind(last) {
            None => before,
            Some(StatKind::Int) => before.push(
                StatView {
                    key: last.key->0@,
                    value_type: "int"@,
                    value: signed_decimal_of(last.int_value as int),
                },
            ),
            Some(kind) => before.push(
                StatView {
                    key: last.key->0@,
                    value_type: if kind is AverageRate {
                        "average_rate"@
                    } else {
                        "float"@
                    },
                    value: last.float_text@,
                },
            ),
        }
    }
}

/// Why readings of an app do not make a snapshot, if they do not. Where one look covers all
/// of them, `survived` tells whether the context survived it; that counts before anything
/// that was read.
pub open spec fn snapshot_obstacle(
    app_id: u32,
    achievements: Seq<AchievementReading>,
    stats: Seq<StatReading>,
    survived: bool,
) -> Option<SessionError> {
    if app_id == 0 {
        Some(SessionError::InvalidApp)
    } else if achievements.len() > MAX_ACHIEVEMENTS {
        Some(SessionError::AchievementCountInvalid)
    } else if !survived {
        Some(SessionError::ContextChanged)
    } else if first_achievement_error(achievements, 0) is Some {
        first_achievement_error(achievements, 0)
    } else {
        first_stat_error(stats, 0)
    }
}

fn kind_of(reading: &StatReading) -> (kind: Option<StatKind>)
    ensures
        kind == resolved_kind(*reading),
{
    match reading.kind {
        StatKind::Dynamic => if reading.declared_type == 1 {
            Some(StatKind::Int)
        } else if reading.declared_type == 2 {
            Some(StatKind::Float)
        } else if reading.declared_type == 3 {
            Some(StatKind::AverageRate)
        } else {
            None
        },
        kind => Some(kind),
    }
}

fn take_achievements(readings: &Vec<AchievementReading>) -> (states: Result<
    Vec<AchievementState>,
    SessionError,
>)
    ensures
        match states {
            Ok(states) => first_achievement_error(readings@, 0) is None && achievement_views(
                states@,
            ) == read_achievements(readings@),
            Err(error) => first_achievement_error(readings@, 0) == Some(error),
        },
{
    let mut states: Vec<AchievementState> = Vec::new();
    let mut i: usize = 0;
    while i < readings.len()
        invariant
            i <= readings@.len(),
            first_achievement_error(readings@, 0) == first_achievement_error(readings@, i as int),
            achievement_views(states@) == read_achievements(readings@.take(i as int)),
        decreases readings@.len() - i,
    {
        let reading: &AchievementReading = &readings[i];
        assert(readings@.take(i + 1) =~= readings@.take(i as int).push(readings@[i as int]));
        let ghost before = achievement_views(states@);
        if reading.interrupted {
            return Err(SessionError::ContextChanged);
        }
        match &reading.key {
            None => {
                return Err(SessionError::AchievementNameInvalid);
            },
            Some(key) => {
                if !reading.read {
                    return Err(SessionError::GetAchievementFailed);
                }
                states.push(
                    AchievementState {
                        key: key.clone(),
                        unlocked: reading.unlocked,
                        unlock_time: reading.unlock_time,
                    },
                );
            },
        }
        assert(achievement_views(states@) =~= before.push(achievement_views(states@).last()));
        assert(read_achievements(readings@.take(i + 1)) =~= before.push(
            read_achievements(readings@.take(i + 1)).last(),
        ));
        i = i + 1;
    }
    assert(readings@.take(i as int) =~= readings@);
    Ok(states)
}

fn take_stats(readings: &Vec<StatReading>) -> (states: Result<Vec<StatState>, SessionError>)
    ensures
        match states {
            Ok(states) => first_stat_error(readings@, 0) is None && stat_views(states@)
                == read_stats(readings@),
            Err(error) => first_stat_error(readings@, 0) == Some(error),
        },
{
    let mut states: Vec<StatState> = Vec::new();
    let mut i: usize = 0;
    assert(readings@.take(0) =~= Seq::empty());
    assert(stat_views(states@) =~= Seq::empty());
    while i < readings.len()
        invariant
            i <= readings@.len(),
            first_stat_error(readings@, 0) == first_stat_error(readings@, i as int),
            stat_views(states@) == read_stats(readings@.take(i as int)),
        decreases readings@.len() - i,
    {
        let reading: &StatReading = &readings[i];
        assert(readings@.take(i + 1).drop_last() =~= readings@.take(i as int));
        assert(readings@.take(i + 1).last() == *reading);
        let ghost before = stat_views(states@);
        if reading.interrupted {
            return Err(SessionError::ContextChanged);
        }
        let key: &String = match &reading.key {
            Some(key) => key,
            None => {
                return Err(SessionError::StatNameInvalid);
            },
        };
        match kind_of(reading) {
            None => {},
            Some(StatKind::Int) => {
                if !reading.int_read {
                    return Err(SessionError::GetStatIntFailed);
                }
                states.push(
                    StatState {
                        key: key.clone(),
                        value_type: "int".to_owned(),
                        value: signed_decimal(reading.int_value as i64),
                    },
                );
                assert(stat_views(states@) =~= before.push(stat_views(states@).last()));
            },
            Some(kind) => {
                let value_type: String = match kind {
                    StatKind::AverageRate => "average_rate".to_owned(),
                    _ => "float".to_owned(),
                };
                if !reading.float_read {
                    return Err(SessionError::GetStatFloatFailed);
                }
                states.push(
                    StatState { key: key.clone(), value_type, value: reading.float_text.clone() },
                );
                assert(stat_views(states@) =~= before.push(stat_views(states@).last()));
            },
        }
        i = i + 1;
    }
    assert(readings@.take(i as int) =~= readings@);
    Ok(states)
}

/// Makes a snapshot of what was read for an app. The first reading that failed decides.
pub fn read_snapshot(
    app_id: u32,
    achievements: &Vec<AchievementReading>,
    stats: &Vec<StatReading>,
    survived: bool,
) -> (snapshot: Result<AchievementSnapshot, SessionError>)
    ensures
        match snapshot {
            Ok(snapshot) => {
                &&& snapshot_obstacle(app_id, achievements@, stats@, survived) is None
                &&& snapshot.app_id == app_id
                &&& achievement_views(snapshot.achievements@) == read_achievements(achievements@)
                &&& stat_views(snapshot.stats@) == read_stats(stats@)
                &&& snapshot.achievements@.len() == achievements@.len()
                &&& forall|i: int|
                    0 <= i < achievements@.len() ==> (#[trigger] snapshot.achievements@[i]).key@
                        == achievements@[i].key->0@ && snapshot.achievements@[i].unlocked
                        == achievements@[i].unlocked && snapshot.achievements@[i].unlock_time
                        == achievements@[i].unlock_time
            },
            Err(error) => snapshot_obstacle(app_id, achievements@, stats@, survived) == Some(error),
        },
{
    if app_id == 0 {
        return Err(SessionError::InvalidApp);
    }
    if achievements.len() > MAX_ACHIEVEMENTS as usize {
        return Err(SessionError::AchievementCountInvalid);
    }
    if !survived {
        return Err(SessionError::ContextChanged);
    }
    match take_achievements(achievements) {
        Err(error) => Err(error),
        Ok(states) => match take_stats(stats) {
            Err(error) => Err(error),
            Ok(stats) => {
                proof {
                    let views = achievement_views(states@);
                    assert(views.len() == states@.len());
                    assert forall|i: int| 0 <= i < states@.len() implies (
                    #[trigger] states@[i]).key@ == achievements@[i].key->0@ && states@[i].unlocked
                        == achievements@[i].unlocked && states@[i].unlock_time
                        == achievements@[i].unlock_time by {
                        assert(views[i] == read_achievements(achievements@)[i]);
                    }
                }
                Ok(AchievementSnapshot { app_id, achievements: states, stats })
            },
        },
    }
}

/// The readings whose value can be told: all but those of a type that Steam declares and
/// nobody knows.
pub open spec fn tellable(readings: Seq<StatReading>) -> Seq<StatReading> {
    readings.filter(
        |reading: StatReading| reading.kind !is Dynamic || 1 <= reading.declared_type <= 3,
    )
}

proof fn lemma_told_stats(readings: Seq<StatReading>)
    ensures
        read_stats(readings).len() == tellable(readings).len(),
        forall|i: int|
            0 <= i < tellable(readings).len() ==> ({
                let reading = #[trigger] tellable(readings)[i];
                let stat = read_stats(readings)[i];
                let whole = reading.kind is Int || (reading.kind is Dynamic
                    && reading.declared_type == 1);
                let rate = reading.kind is AverageRate || (reading.kind is Dynamic
                    && reading.declared_type == 3);
                &&& stat.key == reading.key->0@
                &&& stat.value_type == if whole {
                    "int"@
                } else if rate {
                    "average_rate"@
                } else {
                    "float"@
                }
                &&& stat.value == if whole {
                    signed_decimal_of(reading.int_value as int)
                } else {
                    reading.float_text@
                }
            }),
    decreases readings.len(),
{
    reveal(Seq::filter);
    if readings.len() > 0 {
        lemma_told_stats(readings.drop_last());
        let before = tellable(readings.drop_last());
        let all = tellable(readings);
        let stats = read_stats(readings);
        assert forall|i: int| 0 <= i < before.len() implies all[i] == before[i] && stats[i]
            == read_stats(readings.drop_last())[i] by {}
    }
}

proof fn lemma_achievement_errors(readings: Seq<AchievementReading>, from: int)
    requires
        0 <= from <= readings.len(),
    ensures
        first_achievement_error(readings, from) is None <==> forall|i: int|
            from <= i < readings.len() ==> !(#[trigger] readings[i]).interrupted
                && readings[i].key is Some && readings[i].read,
        first_achievement_error(readings, from) matches Some(error) ==> exists|i: int|
            from <= i < readings.len() && achievement_error(#[trigger] readings[i]) == Some(error)
                && forall|k: int|
                from <= k < i ==> achievement_error(#[trigger] readings[k]) is None,
    decreases readings.len() - from,
{
    if from < readings.len() {
        lemma_achievement_errors(readings, from + 1);
        if achievement_error(readings[from]) is None {
            if let Some(error) = first_achievement_error(readings, from + 1) {
                let i = choose|i: int|
                    from + 1 <= i < readings.len() && achievement_error(#[trigger] readings[i])
                        == Some(error) && forall|k: int|
                        from + 1 <= k < i ==> achievement_error(#[trigger] readings[k]) is None;
                assert(achievement_error(readings[i]) == Some(error));
            }
        } else {
            assert(achievement_error(readings[from]) == first_achievement_error(readings, from));
        }
    }
}

proof fn lemma_stat_errors(readings: Seq<StatReading>, from: int)
    requires
        0 <= from <= readings.len(),
    ensures
        first_stat_error(readings, from) is None <==> forall|i: int|
            from <= i < readings.len() ==> stat_error(#[trigger] readings[i]) is None,
        first_stat_error(readings, from) matches Some(error) ==> exists|i: int|
            from <= i < readings.len() && stat_error(#[trigger] readings[i]) == Some(error)
                && forall|k: int| from <= k < i ==> stat_error(#[trigger] readings[k]) is None,
    decreases readings.len() - from,
{
    if from < readings.len() {
        lemma_stat_errors(readings, from + 1);
        if stat_error(readings[from]) is None {
            if let Some(error) = first_stat_error(readings, from + 1) {
                let i = choose|i: int|
                    from + 1 <= i < readings.len() && stat_error(#[trigger] readings[i]) == Some(
                        error,
                    ) && forall|k: int|
                        from + 1 <= k < i ==> stat_error(#[trigger] readings[k]) is None;
                assert(stat_error(readings[i]) == Some(error));
            }
        } else {
            assert(stat_error(readings[from]) == first_stat_error(readings, from));
        }
    }
}

/// Whether a stat was read without a fault: it has a name, the context survived, and the
/// getter of its kind succeeded.
pub open spec fn stat_is_read(reading: StatReading) -> bool {
    let declared = reading.kind is Dynamic;
    &&& !reading.interrupted
    &&& reading.key is Some
    &&& (reading.kind is Int || (declared && reading.declared_type == 1)) ==> reading.int_read
    &&& (reading.kind is Float || reading.kind is AverageRate || (declared && 2
        <= reading.declared_type <= 3)) ==> reading.float_read
}

/// A snapshot is exactly what was read. Each achievement has the key, the flag and the time
/// of its reading, in their order; each stat of a known type has the key of its reading and
/// the value of the getter of its kind. One comes about exactly where there is an app, the
/// counts are in bounds, and every reading succeeded; the first reading that did not gives
/// the error.
pub proof fn law_snapshot_is_what_was_read(
    app_id: u32,
    achievements: &Vec<AchievementReading>,
    stats: &Vec<StatReading>,
    survived: bool,
    result: Result<AchievementSnapshot, SessionError>,
)
    requires
        call_ensures(read_snapshot, (app_id, achievements, stats, survived), result),
    ensures
        result is Ok <==> {
            &&& app_id != 0
            &&& achievements@.len() <= 10000
            &&& survived
            &&& forall|i: int|
                0 <= i < achievements@.len() ==> !(#[trigger] achievements@[i]).interrupted
                    && achievements@[i].key is Some && achievements@[i].read
            &&& forall|i: int| 0 <= i < stats@.len() ==> stat_is_read(#[trigger] stats@[i])
        },
        result matches Ok(snapshot) ==> {
            &&& snapshot.app_id == app_id
            &&& snapshot.achievements@.len() == achievements@.len()
            &&& forall|i: int|
                0 <= i < achievements@.len() ==> ({
                    let state = #[trigger] snapshot.achievements@[i];
                    let reading = achievements@[i];
                    &&& state.key@ == reading.key->0@
                    &&& state.unlocked == reading.unlocked
                    &&& state.unlock_time == reading.unlock_time
                })
            &&& snapshot.stats@.len() == tellable(stats@).len()
            &&& forall|i: int|
                0 <= i < snapshot.stats@.len() ==> ({
                    let state = #[trigger] snapshot.stats@[i];
                    let reading = tellable(stats@)[i];
                    let whole = reading.kind is Int || (reading.kind is Dynamic
                        && reading.declared_type == 1);
                    let rate = reading.kind is AverageRate || (reading.kind is Dynamic
                        && reading.declared_type == 3);
                    &&& state.key@ == reading.key->0@
                    &&& state.value_type@ == if whole {
                        "int"@
                    } else if rate {
                        "average_rate"@
                    } else {
                        "float"@
                    }
                    &&& state.value@ == if whole {
                        signed_decimal_of(reading.int_value as int)
                    } else {
                        reading.float_text@
                    }
                })
        },
        result matches Err(error) ==> match error {
            SessionError::InvalidApp => app_id == 0,
            SessionError::AchievementCountInvalid => app_id != 0 && achievements@.len() > 10000,
            SessionError::AchievementNameInvalid => exists|i: int|
                0 <= i < achievements@.len() && (#[trigger] achievements@[i]).key is None
                    && !achievements@[i].interrupted,
            SessionError::GetAchievementFailed => exists|i: int|
                0 <= i < achievements@.len() && !(#[trigger] achievements@[i]).read
                    && achievements@[i].key is Some && !achievements@[i].interrupted,
            SessionError::StatNameInvalid => exists|i: int|
                0 <= i < stats@.len() && (#[trigger] stats@[i]).key is None
                    && !stats@[i].interrupted,
            SessionError::GetStatIntFailed => exists|i: int|
                0 <= i < stats@.len() && !(#[trigger] stats@[i]).int_read && (stats@[i].kind is Int
                    || (stats@[i].kind is Dynamic && stats@[i].declared_type == 1)),
            SessionError::GetStatFloatFailed => exists|i: int|
                0 <= i < stats@.len() && !(#[trigger] stats@[i]).float_read && !(
                stats@[i].kind is Int) && (stats@[i].kind is Dynamic ==> 2
                    <= stats@[i].declared_type <= 3),
            SessionError::ContextChanged => !survived || (exists|i: int|
                0 <= i < achievements@.len() && (#[trigger] achievements@[i]).interrupted) || (
            exists|i: int| 0 <= i < stats@.len() && (#[trigger] stats@[i]).interrupted),
            _ => false,
        },
{
    lemma_achievement_errors(achievements@, 0);
    lemma_stat_errors(stats@, 0);
    lemma_told_stats(stats@);
    assert forall|i: int| 0 <= i < stats@.len() implies (stat_error(#[trigger] stats@[i]) is None
        <==> stat_is_read(stats@[i])) by {}
    if let Ok(snapshot) = result {
        let states = achievement_views(snapshot.achievements@);
        assert(states.len() == achievements@.len());
        assert forall|i: int| 0 <= i < achievements@.len() implies ({
            let state = #[trigger] snapshot.achievements@[i];
            let reading = achievements@[i];
            &&& state.key@ == reading.key->0@
            &&& state.unlocked == reading.unlocked
            &&& state.unlock_time == reading.unlock_time
        }) by {
            assert(states[i] == read_achievements(achievements@)[i]);
        }
        let views = stat_views(snapshot.stats@);
        assert(views.len() == tellable(stats@).len());
        assert forall|i: int| 0 <= i < snapshot.stats@.len() implies views[i].key
            == (#[trigger] snapshot.stats@[i]).key@ && views[i].value_type
            == snapshot.stats@[i].value_type@ && views[i].value == snapshot.stats@[i].value@
            && tellable(stats@)[i] == tellable(stats@)[i] by {}
    }
}

/// A flag in words.
pub open spec fn flag_text(flag: bool) -> Seq<char> {
    if flag {
        "true"@
    } else {
        "false"@
    }
}

fn flag_word(flag: bool) -> (word: &'static str)
    ensures
        word@ == flag_text(flag),
{
    if flag {
        "true"
    } else {
        "false"
    }
}

/// How many achievements are shown, unlocked ones apart.
pub const MAX_ACHIEVEMENT_SAMPLES: usize = 8;

/// The line about one achievement.
pub open spec fn achievement_line(reading: AchievementReading, index: nat) -> Seq<char> {
    "ach["@ + decimal_of(index) + "] "@ + reading.key->0@ + " ok="@ + flag_text(reading.read)
        + " unlocked="@ + flag_text(reading.unlocked) + " at="@ + decimal_of(
        reading.unlock_time as nat,
    )
}

/// The lines about the first `count` achievements.
pub open spec fn achievement_lines(readings: Seq<AchievementReading>, count: int) -> Seq<Seq<char>>
    decreases count,
{
    if count <= 0 {
        Seq::empty()
    } else {
        let before = achievement_lines(readings, count - 1);
        let reading = readings[count - 1];
        if reading.key is Some && (before.len() < MAX_ACHIEVEMENT_SAMPLES || reading.unlocked) {
            before.push(achievement_line(reading, (count - 1) as nat))
        } else {
            before
        }
    }
}

/// How many of the first `count` achievements are unlocked.
pub open spec fn unlocked_count(readings: Seq<AchievementReading>, count: int) -> nat
    decreases count,
{
    if count <= 0 {
        0
    } else {
        unlocked_count(readings, count - 1) + if readings[count - 1].key is Some && readings[count
            - 1].unlocked {
            1nat
        } else {
            0nat
        }
    }
}

/// Lines about the achievements: a total, the first ones, and every unlocked one. A reading
/// that the context did not survive leaves nothing to show.
pub fn sample_achievements(readings: &Vec<AchievementReading>) -> (lines: Result<
    Vec<String>,
    SessionError,
>)
    ensures
        match lines {
            Ok(lines) => (forall|i: int|
                0 <= i < readings@.len() ==> !(#[trigger] readings@[i]).interrupted) && texts_of(
                lines@,
            ) == seq![
                "unlocked "@ + decimal_of(unlocked_count(readings@, readings@.len() as int)) + "/"@
                    + decimal_of(readings@.len()),
            ] + achievement_lines(readings@, readings@.len() as int),
            Err(error) => error is ContextChanged && exists|i: int|
                0 <= i < readings@.len() && (#[trigger] readings@[i]).interrupted,
        },
{
    let size: usize = readings.len();
    let mut lines: Vec<String> = Vec::new();
    let mut unlocked_total: u64 = 0;
    let mut i: usize = 0;
    assert(texts_of(lines@) =~= Seq::empty());
    while i < size
        invariant
            i <= size == readings@.len(),
            forall|k: int| 0 <= k < i ==> !(#[trigger] readings@[k]).interrupted,
            unlocked_total <= i,
            unlocked_total == unlocked_count(readings@, i as int),
            texts_of(lines@) == achievement_lines(readings@, i as int),
        decreases size - i,
    {
        let reading: &AchievementReading = &readings[i];
        if reading.interrupted {
            return Err(SessionError::ContextChanged);
        }
        let ghost before = texts_of(lines@);
        assert(before.len() == lines@.len());
        if let Some(key) = &reading.key {
            if reading.unlocked {
                unlocked_total = unlocked_total + 1;
            }
            if lines.len() < MAX_ACHIEVEMENT_SAMPLES || reading.unlocked {
                let mut line: String = concat("ach[", decimal(i as u64).as_str());
                line.append("] ");
                line.append(key.as_str());
                line.append(" ok=");
                line.append(flag_word(reading.read));
                line.append(" unlocked=");
                line.append(flag_word(reading.unlocked));
                line.append(" at=");
                line.append(decimal(reading.unlock_time as u64).as_str());
                assert(line@ == achievement_line(*reading, i as nat));
                lines.push(line);
                assert(texts_of(lines@) =~= before.push(line@));
            }
        }
        i = i + 1;
    }
    let mut total: String = concat("unlocked ", decimal(unlocked_total).as_str());
    total.append("/");
    total.append(decimal(size as u64).as_str());
    let ghost rest = texts_of(lines@);
    lines.insert(0, total);
    assert(texts_of(lines@) =~= seq![total@] + rest);
    Ok(lines)
}

/// How often a stat type was declared.
#[derive(Clone, Copy, Debug, PartialEq, Eq, Structural)]
pub struct TypeCount {
    pub kind: i32,
    pub count: u32,
}

/// The counts with one more of a type, in the order of the types.
pub open spec fn bumped(counts: Seq<TypeCount>, kind: i32) -> Seq<TypeCount>
    decreases counts.len(),
{
    if counts.len() == 0 {
        seq![TypeCount { kind, count: 1 }]
    } else if counts[0].kind == kind {
        seq![TypeCount { kind, count: (counts[0].count + 1) as u32 }] + counts.skip(1)
    } else if counts[0].kind > kind {
        seq![TypeCount { kind, count: 1 }] + counts
    } else {
        seq![counts[0]] + bumped(counts.skip(1), kind)
    }
}

fn bump(counts: &mut Vec<TypeCount>, kind: i32)
    requires
        forall|k: int|
            0 <= k < old(counts)@.len() ==> (#[trigger] old(counts)@[k]).count < u32::MAX,
    ensures
        final(counts)@ == bumped(old(counts)@, kind),
{
    let ghost before = counts@;
    let mut at: usize = 0;
    assert(before.take(0) + bumped(before.skip(0), kind) =~= bumped(before, kind)) by {
        assert(before.skip(0) =~= before);
    }
    while at < counts.len() && counts[at].kind < kind
        invariant
            counts@ == before,
            at <= before.len(),
            before.take(at as int) + bumped(before.skip(at as int), kind) == bumped(before, kind),
        decreases before.len() - at,
    {
        proof {
            let rest = before.skip(at as int);
            assert(rest[0] == before[at as int]);
            assert(rest.skip(1) =~= before.skip(at + 1));
            assert(before.take(at as int) + (seq![rest[0]] + bumped(rest.skip(1), kind))
                =~= before.take(at + 1) + bumped(before.skip(at + 1), kind));
        }
        at = at + 1;
    }
    let ghost rest = before.skip(at as int);
    if at < counts.len() && counts[at].kind == kind {
        assert(rest[0] == before[at as int]);
        let count: u32 = counts[at].count + 1;
        counts.set(at, TypeCount { kind, count });
        assert(counts@ =~= before.take(at as int) + (seq![TypeCount { kind, count }] + rest.skip(1)));
    } else {
        proof {
            if at < before.len() {
                assert(rest[0] == before[at as int]);
            }
        }
        counts.insert(at, TypeCount { kind, count: 1 });
        assert(counts@ =~= before.take(at as int) + (seq![TypeCount { kind, count: 1 }] + rest));
    }
}

/// A type and its count.
pub open spec fn count_text(count: TypeCount) -> Seq<char> {
    signed_decimal_of(count.kind as int) + "="@ + decimal_of(count.count as nat)
}

/// How many stats are shown of a kind.
pub const SAMPLES_PER_BUCKET: usize = 3;

/// What a look at the stats has gathered.
#[verifier::ext_equal]
pub struct StatSamples {
    pub counts: Seq<TypeCount>,
    pub nonzero: Seq<Seq<char>>,
    pub zero: Seq<Seq<char>>,
    pub floats: Seq<Seq<char>>,
}

/// The line about one whole-number stat, with what the getter left behind.
pub open spec fn int_line(reading: StatReading, index: nat) -> Seq<char> {
    "int["@ + decimal_of(index) + "] "@ + reading.key->0@ + " ok="@ + flag_text(
        reading.int_read,
    ) + " value="@ + signed_decimal_of(reading.int_value as int)
}

/// The line about one floating-point stat, with what the getter left behind.
pub open spec fn float_line(reading: StatReading, index: nat) -> Seq<char> {
    "float"@ + signed_decimal_of(reading.declared_type as int) + "["@ + decimal_of(index) + "] "@
        + reading.key->0@ + " ok="@ + flag_text(reading.float_read) + " value="@ + reading.float_text@
}

impl StatSamples {
    pub open spec fn none() -> StatSamples {
        StatSamples {
            counts: Seq::empty(),
            nonzero: Seq::empty(),
            zero: Seq::empty(),
            floats: Seq::empty(),
        }
    }

    /// One stat further. Stats without a name are passed over.
    pub open spec fn with(self, reading: StatReading, index: nat) -> StatSamples {
        if reading.key is None {
            self
        } else {
            let counted = StatSamples { counts: bumped(self.counts, reading.declared_type), ..self };
            if reading.declared_type == 1 {
                if reading.int_value != 0 {
                    if self.nonzero.len() < SAMPLES_PER_BUCKET {
                        StatSamples {
                            nonzero: self.nonzero.push(int_line(reading, index)),
                            ..counted
                        }
                    } else {
                        counted
                    }
                } else if self.zero.len() < SAMPLES_PER_BUCKET {
                    StatSamples { zero: self.zero.push(int_line(reading, index)), ..counted }
                } else {
                    counted
                }
            } else if (reading.declared_type == 2 || reading.declared_type == 3)
                && self.floats.len() < SAMPLES_PER_BUCKET * 2 {
                StatSamples { floats: self.floats.push(float_line(reading, index)), ..counted }
            } else {
                counted
            }
        }
    }

    /// What the first `count` stats give.
    pub open spec fn of(readings: Seq<StatReading>, count: int) -> StatSamples
        decreases count,
    {
        if count <= 0 {
            StatSamples::none()
        } else {
            StatSamples::of(readings, count - 1).with(readings[count - 1], (count - 1) as nat)
        }
    }

    /// The lines of what was gathered.
    pub open spec fn lines(self) -> Seq<Seq<char>> {
        seq![
            "types "@ + joined(
                self.counts.map_values(|count: TypeCount| count_text(count)),
                " "@,
            ),
        ] + self.nonzero + self.zero + self.floats
    }
}

proof fn lemma_counts_stay_small(counts: Seq<TypeCount>, kind: i32, bound: int)
    requires
        forall|k: int| 0 <= k < counts.len() ==> (#[trigger] counts[k]).count <= bound,
        0 <= bound < u32::MAX,
    ensures
        forall|k: int|
            0 <= k < bumped(counts, kind).len() ==> (#[trigger] bumped(counts, kind)[k]).count
                <= bound + 1,
    decreases counts.len(),
{
    if counts.len() > 0 {
        let rest = counts.skip(1);
        assert forall|k: int| 0 <= k < rest.len() implies (#[trigger] rest[k]).count <= bound by {
            assert(rest[k] == counts[k + 1]);
        }
        lemma_counts_stay_small(rest, kind, bound);
        let after = bumped(counts, kind);
        assert forall|k: int| 0 <= k < after.len() implies (#[trigger] after[k]).count <= bound
            + 1 by {
            if counts[0].kind == kind {
                if k > 0 {
                    assert(after[k] == counts[k]);
                }
            } else if counts[0].kind > kind {
                if k > 0 {
                    assert(after[k] == counts[k - 1]);
                }
            } else if k > 0 {
                assert(after[k] == bumped(rest, kind)[k - 1]);
            }
        }
    }
}

fn int_sample(reading: &StatReading, key: &String, index: usize) -> (line: String)
    requires
        reading.key is Some,
        reading.key->0@ == key@,
    ensures
        line@ == int_line(*reading, index as nat),
{
    let mut line: String = concat("int[", decimal(index as u64).as_str());
    line.append("] ");
    line.append(key.as_str());
    line.append(" ok=");
    line.append(flag_word(reading.int_read));
    line.append(" value=");
    line.append(signed_decimal(reading.int_value as i64).as_str());
    line
}

fn float_sample(reading: &StatReading, key: &String, index: usize) -> (line: String)
    requires
        reading.key is Some,
        reading.key->0@ == key@,
    ensures
        line@ == float_line(*reading, index as nat),
{
    let mut line: String = concat("float", signed_decimal(reading.declared_type as i64).as_str());
    line.append("[");
    line.append(decimal(index as u64).as_str());
    line.append("] ");
    line.append(key.as_str());
    line.append(" ok=");
    line.append(flag_word(reading.float_read));
    line.append(" value=");
    line.append(reading.float_text.as_str());
    line
}

fn counts_line(counts: &Vec<TypeCount>) -> (line: String)
    ensures
        line@ == "types "@ + joined(
            counts@.map_values(|count: TypeCount| count_text(count)),
            " "@,
        ),
{
    let mut parts: Vec<String> = Vec::new();
    let mut i: usize = 0;
    while i < counts.len()
        invariant
            i <= counts@.len(),
            parts@.len() == i,
            forall|k: int| 0 <= k < i ==> (#[trigger] parts@[k])@ == count_text(counts@[k]),
        decreases counts@.len() - i,
    {
        let mut part: String = concat(signed_decimal(counts[i].kind as i64).as_str(), "=");
        part.append(decimal(counts[i].count as u64).as_str());
        parts.push(part);
        i = i + 1;
    }
    assert(texts_of(parts@) =~= counts@.map_values(|count: TypeCount| count_text(count)));
    concat("types ", join_texts(&parts, " ").as_str())
}

fn append_all(lines: &mut Vec<String>, more: Vec<String>)
    ensures
        texts_of(final(lines)@) == texts_of(old(lines)@) + texts_of(more@),
{
    let ghost before = lines@;
    let mut rest: Vec<String> = more;
    lines.append(&mut rest);
    assert(texts_of(lines@) =~= texts_of(before) + texts_of(more@));
}

/// Lines about the stats: how many of which type, and a few of each. A reading that the
/// context did not survive leaves nothing to show.
#[verifier::rlimit(60)]
pub fn sample_stats(readings: &Vec<StatReading>) -> (lines: Result<Vec<String>, SessionError>)
    requires
        readings@.len() <= u32::MAX,
    ensures
        match lines {
            Ok(lines) => (forall|i: int|
                0 <= i < readings@.len() ==> !(#[trigger] readings@[i]).interrupted) && texts_of(
                lines@,
            ) == StatSamples::of(readings@, readings@.len() as int).lines(),
            Err(error) => error is ContextChanged && exists|i: int|
                0 <= i < readings@.len() && (#[trigger] readings@[i]).interrupted,
        },
{
    let mut counts: Vec<TypeCount> = Vec::new();
    let mut nonzero: Vec<String> = Vec::new();
    let mut zero: Vec<String> = Vec::new();
    let mut floats: Vec<String> = Vec::new();
    let mut i: usize = 0;
    assert(texts_of(nonzero@) =~= Seq::empty());
    assert(counts@ =~= Seq::empty());
    while i < readings.len()
        invariant
            i <= readings@.len() <= u32::MAX,
            forall|k: int| 0 <= k < i ==> !(#[trigger] readings@[k]).interrupted,
            forall|k: int| 0 <= k < counts@.len() ==> (#[trigger] counts@[k]).count <= i,
            ({
                let samples = StatSamples::of(readings@, i as int);
                &&& samples.counts == counts@
                &&& samples.nonzero == texts_of(nonzero@)
                &&& samples.zero == texts_of(zero@)
                &&& samples.floats == texts_of(floats@)
            }),
        decreases readings@.len() - i,
    {
        let reading: &StatReading = &readings[i];
        if reading.interrupted {
            return Err(SessionError::ContextChanged);
        }
        let ghost samples = StatSamples::of(readings@, i as int);
        assert(texts_of(nonzero@).len() == nonzero@.len());
        assert(texts_of(zero@).len() == zero@.len());
        assert(texts_of(floats@).len() == floats@.len());
        if let Some(key) = &reading.key {
            proof {
                lemma_counts_stay_small(counts@, reading.declared_type, i as int);
            }
            bump(&mut counts, reading.declared_type);
            if reading.declared_type == 1 {
                if reading.int_value != 0 {
                    if nonzero.len() < SAMPLES_PER_BUCKET {
                        nonzero.push(int_sample(reading, key, i));
                        assert(texts_of(nonzero@) =~= samples.nonzero.push(
                            int_line(*reading, i as nat),
                        ));
                    }
                } else if zero.len() < SAMPLES_PER_BUCKET {
                    zero.push(int_sample(reading, key, i));
                    assert(texts_of(zero@) =~= samples.zero.push(int_line(*reading, i as nat)));
                }
            } else if (reading.declared_type == 2 || reading.declared_type == 3) && floats.len()
                < SAMPLES_PER_BUCKET * 2 {
                floats.push(float_sample(reading, key, i));
                assert(texts_of(floats@) =~= samples.floats.push(float_line(*reading, i as nat)));
            }
        }
        i = i + 1;
    }
    let mut lines: Vec<String> = Vec::new();
    lines.push(counts_line(&counts));
    let ghost first = texts_of(lines@);
    assert(first =~= seq![lines@[0]@]);
    append_all(&mut lines, nonzero);
    append_all(&mut lines, zero);
    append_all(&mut lines, floats);
    assert(texts_of(lines@) =~= StatSamples::of(readings@, readings@.len() as int).lines());
    Ok(lines)
}

/// What a look at an app's stats after a completed call shows.
pub struct UserStatsProbe {
    pub api_call: u64,
    pub stat_count: u32,
    pub achievement_count: u32,
    pub samples: Vec<String>,
}

/// Whether the context did not survive some reading.
pub open spec fn cut_short(achievements: Seq<AchievementReading>, stats: Seq<StatReading>) -> bool {
    (exists|i: int| 0 <= i < achievements.len() && (#[trigger] achievements[i]).interrupted) || (
    exists|i: int| 0 <= i < stats.len() && (#[trigger] stats[i]).interrupted)
}

/// The lines of a probe: the result of the call, and samples where there is anything to
/// sample.
pub open spec fn probe_lines(
    result: i32,
    achievements: Seq<AchievementReading>,
    stats: Seq<StatReading>,
) -> Seq<Seq<char>> {
    let first = seq![
        "api_call result "@ + signed_decimal_of(result as int) + " via SetAPICallResult event"@,
    ];
    if achievements.len() > 0 || stats.len() > 0 {
        first + (seq![
            "unlocked "@ + decimal_of(unlocked_count(achievements, achievements.len() as int))
                + "/"@ + decimal_of(achievements.len()),
        ] + achievement_lines(achievements, achievements.len() as int)) + StatSamples::of(
            stats,
            stats.len() as int,
        ).lines()
    } else {
        first
    }
}

/// Shows what a completed call left behind. There are as many readings as the two counts
/// say.
pub fn read_stats_probe(
    call: u64,
    result: i32,
    stat_count: Option<u32>,
    achievement_count: Option<u32>,
    achievements: &Vec<AchievementReading>,
    stats: &Vec<StatReading>,
) -> (probe: Result<UserStatsProbe, SessionError>)
    requires
        count_obstacle(stat_count, achievement_count) is None ==> stats@.len() == stat_count->0
            && achievements@.len() == achievement_count->0,
    ensures
        match probe {
            Ok(probe) => {
                &&& count_obstacle(stat_count, achievement_count) is None
                &&& !cut_short(achievements@, stats@)
                &&& probe.api_call == call
                &&& stat_count == Some(probe.stat_count)
                &&& achievement_count == Some(probe.achievement_count)
                &&& texts_of(probe.samples@) == probe_lines(result, achievements@, stats@)
            },
            Err(error) => match count_obstacle(stat_count, achievement_count) {
                Some(obstacle) => error == obstacle,
                None => error is ContextChanged && cut_short(achievements@, stats@),
            },
        },
{
    let counts: StatsCounts = match stats_counts(stat_count, achievement_count) {
        Ok(counts) => counts,
        Err(error) => {
            return Err(error);
        },
    };
    let mut line: String = concat("api_call result ", signed_decimal(result as i64).as_str());
    line.append(" via SetAPICallResult event");
    let mut samples: Vec<String> = Vec::new();
    samples.push(line);
    assert(texts_of(samples@) =~= seq![line@]);
    if counts.achievements > 0 || counts.stats > 0 {
        let shown: Vec<String> = match sample_achievements(achievements) {
            Ok(shown) => shown,
            Err(error) => {
                return Err(error);
            },
        };
        append_all(&mut samples, shown);
        let shown: Vec<String> = match sample_stats(stats) {
            Ok(shown) => shown,
            Err(error) => {
                return Err(error);
            },
        };
        append_all(&mut samples, shown);
    }
    Ok(
        UserStatsProbe {
            api_call: call,
            stat_count: counts.stats,
            achievement_count: counts.achievements,
            samples,
        },
    )
}

/// A session can be had exactly where the hooks are there, every interface of the account is
/// known and the table was recognised; otherwise the first thing that is missing is told.
pub proof fn law_sessions_need_hooks_interfaces_and_table(
    hooks_ready: bool,
    context: SteamContext,
    identity: Identity,
    vtable_known: Option<bool>,
)
    ensures
        ({
            let obstacle = connect_obstacle(hooks_ready, context, identity, vtable_known);
            &&& obstacle is None <==> hooks_ready && context.is_complete(identity) && vtable_known
                is Some && vtable_known->0
            &&& obstacle == Some(SessionError::HooksUnavailable) <==> !hooks_ready
            &&& obstacle == Some(SessionError::ContextUnavailable) <==> hooks_ready
                && !context.is_complete(identity)
            &&& obstacle == Some(SessionError::VtableUnavailable) <==> hooks_ready
                && context.is_complete(identity) && vtable_known is Some && !vtable_known->0
        }),
{
    assert(vtable_known is Some ==> vtable_known == Some(vtable_known->0));
}

/// A playtime is read exactly where the app, the account and both readings are there and no
/// minutes are negative; it tells the minutes as they were read, and a last time unless that
/// is zero.
pub proof fn law_playtimes_are_what_was_read(
    app_id: u32,
    steam_id64: Option<u64>,
    minutes: Option<MinutesAnswer>,
    last_played: Option<Option<u32>>,
    snapshot: Result<PlaytimeSnapshot, SessionError>,
)
    requires
        call_ensures(playtime_snapshot, (app_id, steam_id64, minutes, last_played), snapshot),
    ensures
        snapshot is Ok <==> app_id != 0 && steam_id64 is Some && last_played is Some && minutes
            is Some && minutes->0 is Read && minutes->0->total >= 0 && minutes->0->two_weeks >= 0,
        snapshot is Ok ==> {
            let game = snapshot->Ok_0.game;
            &&& snapshot->Ok_0.steam_id64 == steam_id64->0
            &&& game.app_id == app_id
            &&& game.playtime_minutes == minutes->0->total
            &&& game.playtime_2weeks_minutes == minutes->0->two_weeks
            &&& game.last_played_at is Some <==> last_played->0 is Some && last_played->0->0 > 0
            &&& game.last_played_at is Some ==> game.last_played_at->0 == last_played->0->0
        },
{
}

/// The unlocked achievements are counted: those with a name that are unlocked, each once.
pub proof fn law_unlocked_achievements_are_counted(readings: Seq<AchievementReading>)
    ensures
        unlocked_count(readings, readings.len() as int) == readings.filter(
            |reading: AchievementReading| reading.key is Some && reading.unlocked,
        ).len(),
    decreases readings.len(),
{
    reveal(Seq::filter);
    if readings.len() > 0 {
        let rest = readings.drop_last();
        law_unlocked_achievements_are_counted(rest);
        lemma_counts_agree(readings, rest, rest.len() as int);
        assert(readings.last() == readings[readings.len() - 1]);
    }
}

proof fn lemma_counts_agree(
    readings: Seq<AchievementReading>,
    others: Seq<AchievementReading>,
    count: int,
)
    requires
        count <= readings.len(),
        count <= others.len(),
        forall|k: int| 0 <= k < count ==> readings[k] == others[k],
    ensures
        unlocked_count(readings, count) == unlocked_count(others, count),
    decreases count,
{
    if count > 0 {
        lemma_counts_agree(readings, others, count - 1);
    }
}

/// Every unlocked achievement with a name is shown, whatever number it has, and the first ones
/// with a name are; one without a name is not, and of locked ones no more than the first.
pub proof fn law_unlocked_achievements_are_shown(
    readings: Seq<AchievementReading>,
    count: int,
    place: int,
)
    requires
        0 <= count <= readings.len(),
    ensures
        0 <= place < count && readings[place].key is Some && (readings[place].unlocked || place
            < MAX_ACHIEVEMENT_SAMPLES) ==> achievement_lines(readings, count).contains(
            achievement_line(readings[place], place as nat),
        ),
        achievement_lines(readings, count).len() <= count,
        (forall|k: int| 0 <= k < count ==> (#[trigger] readings[k]).key is None)
            ==> achievement_lines(readings, count).len() == 0,
        (forall|k: int| 0 <= k < count ==> !(#[trigger] readings[k]).unlocked)
            ==> achievement_lines(readings, count).len() <= MAX_ACHIEVEMENT_SAMPLES,
    decreases count,
{
    if count > 0 {
        law_unlocked_achievements_are_shown(readings, count - 1, place);
        let before = achievement_lines(readings, count - 1);
        let after = achievement_lines(readings, count);
        if place == count - 1 && readings[place].key is Some && (readings[place].unlocked || place
            < MAX_ACHIEVEMENT_SAMPLES) {
            assert(after[before.len() as int] == achievement_line(readings[place], place as nat));
        } else if 0 <= place < count - 1 && before.contains(
            achievement_line(readings[place], place as nat),
        ) {
            let k = choose|k: int|
                0 <= k < before.len() && before[k] == achievement_line(
                    readings[place],
                    place as nat,
                );
            assert(after[k] == before[k]);
        }
    }
}

/// How often a type stands in counts.
pub open spec fn times_of(counts: Seq<TypeCount>, kind: i32) -> nat
    decreases counts.len(),
{
    if counts.len() == 0 {
        0
    } else {
        (if counts[0].kind == kind {
            counts[0].count as nat
        } else {
            0nat
        }) + times_of(counts.skip(1), kind)
    }
}

/// Whether the types of counts ascend.
pub open spec fn types_ascend(counts: Seq<TypeCount>) -> bool {
    forall|i: int, j: int|
        0 <= i < j < counts.len() ==> (#[trigger] counts[i]).kind < (#[trigger] counts[j]).kind
}

proof fn lemma_absent_types(counts: Seq<TypeCount>, kind: i32)
    requires
        forall|k: int| 0 <= k < counts.len() ==> (#[trigger] counts[k]).kind != kind,
    ensures
        times_of(counts, kind) == 0,
    decreases counts.len(),
{
    if counts.len() > 0 {
        assert(counts[0].kind != kind);
        lemma_absent_types(counts.skip(1), kind);
    }
}

/// One more of a type counts for that type and for no other, and the types stay in order, each
/// once.
pub proof fn law_types_are_counted_apart(counts: Seq<TypeCount>, kind: i32, other: i32)
    requires
        types_ascend(counts),
        forall|k: int| 0 <= k < counts.len() ==> (#[trigger] counts[k]).count < u32::MAX,
    ensures
        types_ascend(bumped(counts, kind)),
        times_of(bumped(counts, kind), kind) == times_of(counts, kind) + 1,
        other != kind ==> times_of(bumped(counts, kind), other) == times_of(counts, other),
        forall|k: int|
            0 <= k < bumped(counts, kind).len() ==> (#[trigger] bumped(counts, kind)[k]).kind
                == kind || (counts.len() > 0 && bumped(counts, kind)[k].kind >= counts[0].kind),
    decreases counts.len(),
{
    let after = bumped(counts, kind);
    if counts.len() == 0 {
        assert(after.skip(1) =~= Seq::empty());
        assert(times_of(after.skip(1), kind) == 0);
        assert(times_of(after.skip(1), other) == 0);
    } else if counts[0].kind == kind {
        assert(after.skip(1) =~= counts.skip(1));
        assert forall|i: int, j: int| 0 <= i < j < after.len() implies (#[trigger] after[i]).kind
            < (#[trigger] after[j]).kind by {
            assert(counts[i].kind < counts[j].kind);
        }
    } else if counts[0].kind > kind {
        assert(after.skip(1) =~= counts);
        assert forall|k: int| 0 <= k < counts.len() implies (#[trigger] counts[k]).kind != kind by {
            if k > 0 {
                assert(counts[0].kind < counts[k].kind);
            }
        }
        lemma_absent_types(counts, kind);
        assert forall|i: int, j: int| 0 <= i < j < after.len() implies (#[trigger] after[i]).kind
            < (#[trigger] after[j]).kind by {
            if i == 0 {
                if j > 1 {
                    assert(counts[0].kind < counts[j - 1].kind);
                }
            } else {
                assert(counts[i - 1].kind < counts[j - 1].kind);
            }
        }
        assert forall|k: int| 0 <= k < after.len() implies (#[trigger] after[k]).kind == kind
            || after[k].kind >= counts[0].kind by {
            if k > 1 {
                assert(counts[0].kind < counts[k - 1].kind);
            }
        }
    } else {
        let rest = counts.skip(1);
        assert forall|i: int, j: int| 0 <= i < j < rest.len() implies (#[trigger] rest[i]).kind < (
        #[trigger] rest[j]).kind by {
            assert(counts[i + 1].kind < counts[j + 1].kind);
        }
        assert forall|k: int| 0 <= k < rest.len() implies (#[trigger] rest[k]).count
            < u32::MAX by {
            assert(rest[k] == counts[k + 1]);
        }
        law_types_are_counted_apart(rest, kind, other);
        let more = bumped(rest, kind);
        assert(after.skip(1) =~= more);
        assert(after[0] == counts[0]);
        assert forall|k: int| 0 <= k < more.len() implies (#[trigger] more[k]).kind
            > counts[0].kind by {
            if rest.len() > 0 {
                assert(counts[0].kind < counts[1].kind);
                assert(rest[0] == counts[1]);
            }
        }
        assert forall|i: int, j: int| 0 <= i < j < after.len() implies (#[trigger] after[i]).kind
            < (#[trigger] after[j]).kind by {
            assert(after[j] == more[j - 1]);
            if i > 0 {
                assert(after[i] == more[i - 1]);
            }
        }
        assert forall|k: int| 0 <= k < after.len() implies (#[trigger] after[k]).kind == kind
            || after[k].kind >= counts[0].kind by {
            if k > 0 {
                assert(after[k] == more[k - 1]);
            }
        }
    }
}

/// Every stat with a name is counted under its type, and no other is.
pub proof fn law_named_stats_are_counted(readings: Seq<StatReading>, count: int, kind: i32)
    requires
        0 <= count <= readings.len(),
        count < u32::MAX,
    ensures
        times_of(StatSamples::of(readings, count).counts, kind) == readings.take(count).filter(
            |reading: StatReading| reading.key is Some && reading.declared_type == kind,
        ).len(),
        types_ascend(StatSamples::of(readings, count).counts),
        forall|k: int|
            0 <= k < StatSamples::of(readings, count).counts.len() ==> (
            #[trigger] StatSamples::of(readings, count).counts[k]).count <= count,
    decreases count,
{
    reveal(Seq::filter);
    let named = |reading: StatReading| reading.key is Some && reading.declared_type == kind;
    let row = readings.take(count);
    if count > 0 {
        law_named_stats_are_counted(readings, count - 1, kind);
        assert(row.drop_last() =~= readings.take(count - 1));
        let reading = readings[count - 1];
        assert(row.last() == reading);
        let before = StatSamples::of(readings, count - 1).counts;
        if reading.key is Some {
            law_types_are_counted_apart(before, reading.declared_type, kind);
            lemma_counts_stay_small(before, reading.declared_type, count - 1);
        }
    } else {
        assert(row =~= Seq::empty());
        assert(StatSamples::of(readings, count).counts =~= Seq::empty());
    }
}

/// A stat that found room in its bucket stays in it: a whole number among those that are zero
/// or those that are not, a floating-point one, whichever of the two types it has, among its
/// own. No bucket outgrows its room.
pub proof fn law_samples_stay_in_their_bucket(readings: Seq<StatReading>, count: int, place: int)
    requires
        0 <= count <= readings.len(),
    ensures
        ({
            let after = StatSamples::of(readings, count);
            let before = StatSamples::of(readings, place);
            let reading = readings[place];
            &&& after.nonzero.len() <= 3 && after.zero.len() <= 3 && after.floats.len() <= 6
            &&& 0 <= place < count && reading.key is Some && reading.declared_type == 1
                && reading.int_value != 0 && before.nonzero.len() < 3 ==> after.nonzero.contains(
                int_line(reading, place as nat),
            )
            &&& 0 <= place < count && reading.key is Some && reading.declared_type == 1
                && reading.int_value == 0 && before.zero.len() < 3 ==> after.zero.contains(
                int_line(reading, place as nat),
            )
            &&& 0 <= place < count && reading.key is Some && (reading.declared_type == 2
                || reading.declared_type == 3) && before.floats.len() < 6 ==> after.floats.contains(
                float_line(reading, place as nat),
            )
        }),
    decreases count,
{
    if count > 0 {
        law_samples_stay_in_their_bucket(readings, count - 1, place);
        let earlier = StatSamples::of(readings, count - 1);
        let after = StatSamples::of(readings, count);
        let reading = readings[place];
        let whole = int_line(reading, place as nat);
        let broken = float_line(reading, place as nat);
        assert(earlier.nonzero.is_prefix_of(after.nonzero));
        assert(earlier.zero.is_prefix_of(after.zero));
        assert(earlier.floats.is_prefix_of(after.floats));
        if place == count - 1 {
            if after.nonzero.len() > earlier.nonzero.len() {
                assert(after.nonzero[earlier.nonzero.len() as int] == whole);
            }
            if after.zero.len() > earlier.zero.len() {
                assert(after.zero[earlier.zero.len() as int] == whole);
            }
            if after.floats.len() > earlier.floats.len() {
                assert(after.floats[earlier.floats.len() as int] == broken);
            }
        } else {
            lemma_prefix_keeps(earlier.nonzero, after.nonzero, whole);
            lemma_prefix_keeps(earlier.zero, after.zero, whole);
            lemma_prefix_keeps(earlier.floats, after.floats, broken);
        }
    }
}

proof fn lemma_prefix_keeps(before: Seq<Seq<char>>, after: Seq<Seq<char>>, line: Seq<char>)
    requires
        before.is_prefix_of(after),
    ensures
        before.contains(line) ==> after.contains(line),
{
    if before.contains(line) {
        let k = choose|k: int| 0 <= k < before.len() && before[k] == line;
        assert(after[k] == before[k]);
    }
}

/// Counts are used exactly where both were read and neither is beyond its bound; readings are
/// shown exactly where the context survived every one of them, of either kind.
pub proof fn law_only_whole_readings_are_shown(
    stats: Option<u32>,
    achievements: Option<u32>,
    readings: Seq<AchievementReading>,
    stat_readings: Seq<StatReading>,
)
    ensures
        count_obstacle(stats, achievements) is None <==> stats is Some && achievements is Some
            && stats->0 <= MAX_STATS && achievements->0 <= MAX_ACHIEVEMENTS,
        count_obstacle(stats, achievements) == Some(SessionError::ContextChanged) <==> stats is None
            || achievements is None,
        !cut_short(readings, stat_readings) <==> (forall|i: int|
            0 <= i < readings.len() ==> !(#[trigger] readings[i]).interrupted) && (forall|i: int|
            0 <= i < stat_readings.len() ==> !(#[trigger] stat_readings[i]).interrupted),
{
}

/// A probe begins with the result of the call and, where there is anything to show, tells the
/// total, every line about the achievements and every line about the stats, in this order.
pub proof fn law_probes_show_everything_sampled(
    result: i32,
    achievements: Seq<AchievementReading>,
    stats: Seq<StatReading>,
    k: int,
)
    ensures
        ({
            let lines = probe_lines(result, achievements, stats);
            let shown = achievement_lines(achievements, achievements.len() as int);
            let sampled = StatSamples::of(stats, stats.len() as int).lines();
            &&& achievements.len() == 0 && stats.len() == 0 ==> lines.len() == 1
            &&& achievements.len() > 0 || stats.len() > 0 ==> lines.len() == 2 + shown.len()
                + sampled.len()
            &&& (achievements.len() > 0 || stats.len() > 0) && 0 <= k < shown.len() ==> lines[2 + k]
                == shown[k]
            &&& (achievements.len() > 0 || stats.len() > 0) && 0 <= k < sampled.len() ==> lines[2
                + shown.len() + k] == sampled[k]
        }),
{
}

} // verus!
