//! The account event stream: when it runs, how failures are paced, and which
//! events are accepted.
use crate::lists::{ascends, contains_u32, insert_ascending};
use crate::playtime_downlink::{
    apply_stream_snapshot, is_applied, key_ref_view, runtime_key_is_current,
    AccountPlaytimeSnapshot, NotificationNumbers, PlaytimeCache, PlaytimeEntry,
    PlaytimeNotification, RuntimeKey,
};
use crate::text::{decimal, decimal_of, law_decimals_are_read_back, parse_u64, unsigned_value};
use vstd::prelude::*;
use vstd::string::*;

verus! {

/// Seconds before the first retry.
pub const RETRY_INITIAL: u64 = 2;

/// Seconds between retries at most.
pub const RETRY_MAX: u64 = 30;

/// The most entries that one event may carry.
pub const MAX_EVENT_ENTRIES: usize = 5000;

/// The pace of retries: each delay doubles the one before, up to a bound.
#[derive(Clone, Copy, Debug, PartialEq, Eq, Structural)]
pub struct RetryBackoff {
    pub next: u64,
}

/// The delay behind `delay`.
pub open spec fn doubled(delay: u64) -> u64 {
    if delay * 2 <= RETRY_MAX {
        (delay * 2) as u64
    } else {
        RETRY_MAX
    }
}

impl RetryBackoff {
    pub open spec fn wf(self) -> bool {
        RETRY_INITIAL <= self.next <= RETRY_MAX
    }

    pub fn new() -> (retry: Self)
        ensures
            retry.wf(),
            retry.next == RETRY_INITIAL,
    {
        RetryBackoff { next: RETRY_INITIAL }
    }

    pub fn reset(&mut self)
        ensures
            final(self).wf(),
            final(self).next == RETRY_INITIAL,
    {
        self.next = RETRY_INITIAL;
    }

    /// The seconds to wait now.
    pub fn take_delay(&mut self) -> (delay: u64)
        requires
            old(self).wf(),
        ensures
            final(self).wf(),
            delay == old(self).next,
            final(self).next == doubled(old(self).next),
    {
        let delay: u64 = self.next;
        self.next = if delay * 2 <= RETRY_MAX {
            delay * 2
        } else {
            RETRY_MAX
        };
        delay
    }
}

/// The delay after `retries` retries without a reset.
pub open spec fn delay_after(retries: nat) -> u64
    decreases retries,
{
    if retries == 0 {
        RETRY_INITIAL
    } else {
        doubled(delay_after((retries - 1) as nat))
    }
}

/// Delays stay between the first one and the bound, never shrink, and stand at the
/// bound from the fifth on.
pub proof fn law_delays_are_bounded(retries: nat)
    ensures
        RETRY_INITIAL <= delay_after(retries) <= RETRY_MAX,
        delay_after(retries) <= delay_after(retries + 1),
        retries >= 4 ==> delay_after(retries) == RETRY_MAX,
    decreases retries,
{
    reveal_with_fuel(delay_after, 6);
    if retries > 0 {
        law_delays_are_bounded((retries - 1) as nat);
    }
}

/// Whether the worker thread runs.
#[derive(Clone, Copy, Debug, PartialEq, Eq, Structural)]
pub enum WorkerState {
    Stopped,
    Starting,
    Running,
}

/// Whether a thread has to be spawned now. A worker that starts or runs stays alone.
pub fn ensure_started(state: &mut WorkerState) -> (spawn: bool)
    ensures
        spawn == (*old(state) is Stopped),
        *final(state) == if spawn {
            WorkerState::Starting
        } else {
            *old(state)
        },
{
    if *state == WorkerState::Stopped {
        *state = WorkerState::Starting;
        true
    } else {
        false
    }
}

/// Settles the start: the worker runs if its thread was spawned.
pub fn finish_start(state: &mut WorkerState, spawned: bool)
    ensures
        *final(state) == if spawned {
            WorkerState::Running
        } else {
            WorkerState::Stopped
        },
{
    *state = if spawned {
        WorkerState::Running
    } else {
        WorkerState::Stopped
    };
}

/// Settles the end of the worker's thread: it may be started again.
pub fn finish_run(state: &mut WorkerState)
    ensures
        *final(state) == WorkerState::Stopped,
{
    *state = WorkerState::Stopped;
}

/// How a stream ended.
#[derive(Clone, Copy, Debug, PartialEq, Eq, Structural)]
pub enum StreamEnd {
    Stopped,
    Unsupported,
    Failed { retryable: bool },
}

/// What the worker just learnt.
#[derive(Clone, Copy, Debug, PartialEq, Eq, Structural)]
pub enum RunEvent {
    /// The worker begins, or a wait is over.
    Resumed,
    Prerequisites { met: bool },
    PrincipalResolved { key_current: bool },
    PrincipalFailed { retryable: bool },
    DeviceBound { key_current: bool },
    DeviceFailed { retryable: bool },
    StreamEnded { received_event: bool, end: StreamEnd },
}

/// What the worker does next.
#[derive(Clone, Copy, Debug, PartialEq, Eq, Structural)]
pub enum RunAction {
    CheckPrerequisites,
    ResolvePrincipal,
    BindDevice,
    Stream,
    /// Sleep until the context changes from this revision on.
    WaitForContext { revision: u64 },
    /// The same, but for these seconds at most.
    WaitForRetry { revision: u64, seconds: u64 },
}

/// What the worker remembers between its steps.
#[derive(Clone, Copy, Debug, PartialEq, Eq, Structural)]
pub struct RunState {
    pub retry: RetryBackoff,
    pub observed_revision: u64,
    pub signal_revision: u64,
}

impl RunState {
    pub open spec fn wf(self) -> bool {
        self.retry.wf()
    }

    /// A new round at a revision: a changed context starts the pace anew.
    pub open spec fn round(self, revision: u64) -> RunState {
        RunState {
            retry: if revision != self.observed_revision {
                RetryBackoff { next: RETRY_INITIAL }
            } else {
                self.retry
            },
            observed_revision: revision,
            signal_revision: revision,
        }
    }

    /// What a failure leads to: a paced retry, or a wait for another context.
    pub open spec fn failed(self, retryable: bool) -> (RunState, RunAction) {
        if retryable {
            (
                RunState { retry: RetryBackoff { next: doubled(self.retry.next) }, ..self },
                RunAction::WaitForRetry {
                    revision: self.signal_revision,
                    seconds: self.retry.next,
                },
            )
        } else {
            (self, RunAction::WaitForContext { revision: self.signal_revision })
        }
    }

    /// The step that an event leads to, at the present context revision.
    pub open spec fn stepped(self, event: RunEvent, revision: u64) -> (RunState, RunAction) {
        let again = (self.round(revision), RunAction::CheckPrerequisites);
        match event {
            RunEvent::Resumed => again,
            RunEvent::Prerequisites { met } => if met {
                (self, RunAction::ResolvePrincipal)
            } else {
                self.failed(false)
            },
            RunEvent::PrincipalResolved { key_current } => if key_current {
                (self, RunAction::BindDevice)
            } else {
                again
            },
            RunEvent::PrincipalFailed { retryable } => self.failed(retryable),
            RunEvent::DeviceBound { key_current } => if key_current {
                (self, RunAction::Stream)
            } else {
                again
            },
            RunEvent::DeviceFailed { retryable } => self.failed(retryable),
            RunEvent::StreamEnded { received_event, end } => {
                let settled = if received_event {
                    RunState { retry: RetryBackoff { next: RETRY_INITIAL }, ..self }
                } else {
                    self
                };
                match end {
                    StreamEnd::Stopped => (
                        settled.round(revision),
                        RunAction::CheckPrerequisites,
                    ),
                    StreamEnd::Unsupported => settled.failed(false),
                    StreamEnd::Failed { retryable } => settled.failed(retryable),
                }
            },
        }
    }

    pub fn new(revision: u64) -> (state: Self)
        ensures
            state.wf(),
            state == (RunState {
                retry: RetryBackoff { next: RETRY_INITIAL },
                observed_revision: revision,
                signal_revision: revision,
            }),
    {
        RunState {
            retry: RetryBackoff::new(),
            observed_revision: revision,
            signal_revision: revision,
        }
    }

    fn begin_round(&mut self, revision: u64) -> (action: RunAction)
        requires
            old(self).wf(),
        ensures
            final(self).wf(),
            *final(self) == old(self).round(revision),
            action is CheckPrerequisites,
    {
        if revision != self.observed_revision {
            self.retry.reset();
            self.observed_revision = revision;
        }
        self.signal_revision = revision;
        RunAction::CheckPrerequisites
    }

    /// Waits after a failure.
    pub fn wait_for_retry(&mut self, retryable: bool) -> (action: RunAction)
        requires
            old(self).wf(),
        ensures
            final(self).wf(),
            (*final(self), action) == old(self).failed(retryable),
    {
        if retryable {
            let seconds: u64 = self.retry.take_delay();
            RunAction::WaitForRetry { revision: self.signal_revision, seconds }
        } else {
            RunAction::WaitForContext { revision: self.signal_revision }
        }
    }

    /// Takes one step of the worker.
    pub fn run(&mut self, event: RunEvent, revision: u64) -> (action: RunAction)
        requires
            old(self).wf(),
        ensures
            final(self).wf(),
            (*final(self), action) == old(self).stepped(event, revision),
    {
        match event {
            RunEvent::Resumed => self.begin_round(revision),
            RunEvent::Prerequisites { met } => if met {
                RunAction::ResolvePrincipal
            } else {
                self.wait_for_retry(false)
            },
            RunEvent::PrincipalResolved { key_current } => if key_current {
                RunAction::BindDevice
            } else {
                self.begin_round(revision)
            },
            RunEvent::PrincipalFailed { retryable } => self.wait_for_retry(retryable),
            RunEvent::DeviceBound { key_current } => if key_current {
                RunAction::Stream
            } else {
                self.begin_round(revision)
            },
            RunEvent::DeviceFailed { retryable } => self.wait_for_retry(retryable),
            RunEvent::StreamEnded { received_event, end } => {
                if received_event {
                    self.retry.reset();
                }
                match end {
                    StreamEnd::Stopped => self.begin_round(revision),
                    StreamEnd::Unsupported => self.wait_for_retry(false),
                    StreamEnd::Failed { retryable } => self.wait_for_retry(retryable),
                }
            },
        }
    }
}

/// A changed context, and a stream that brought an event, start the pace of retries anew.
pub proof fn law_progress_starts_the_pace_anew(
    state: RunState,
    revision: u64,
    end: StreamEnd,
)
    requires
        state.wf(),
    ensures
        revision != state.observed_revision ==> state.stepped(
            RunEvent::Resumed,
            revision,
        ).0.retry.next == RETRY_INITIAL,
        ({
            let action = state.stepped(
                RunEvent::StreamEnded { received_event: true, end },
                revision,
            ).1;
            action is WaitForRetry ==> action->seconds == RETRY_INITIAL
        }),
{
}

/// An open stream: its token, and the key it was opened for.
pub struct ActiveStreamState {
    pub token: u64,
    pub key: RuntimeKey,
}

/// The stream that is open, if one is.
pub struct ActiveStreams {
    pub next_token: u64,
    pub active: Option<ActiveStreamState>,
}

impl ActiveStreams {
    pub fn new() -> (streams: Self)
        ensures
            streams.active is None,
            streams.next_token == 0,
    {
        ActiveStreams { next_token: 0, active: None }
    }

    /// Registers a new stream in place of any other, under a token of its own.
    pub fn activate_stream(&mut self, key: RuntimeKey) -> (token: u64)
        ensures
            token == old(self).next_token,
            final(self).active == Some(ActiveStreamState { token, key }),
            final(self).next_token == old(self).next_token.wrapping_add(1),
    {
        let token: u64 = self.next_token;
        self.next_token = self.next_token.wrapping_add(1);
        self.active = Some(ActiveStreamState { token, key });
        token
    }

    /// Forgets a stream that ended, unless another one took its place.
    pub fn finish_stream(&mut self, token: u64)
        ensures
            final(self).next_token == old(self).next_token,
            final(self).active == if old(self).active is Some && old(self).active->0.token == token {
                None
            } else {
                old(self).active
            },
    {
        let own: bool = match &self.active {
            Some(current) => current.token == token,
            None => false,
        };
        if own {
            self.active = None;
        }
    }

    /// The token of the open stream that no longer fits the present key.
    pub fn cancel_active_stream_if_stale(&self, current: Option<&RuntimeKey>) -> (token: Option<u64>)
        ensures
            token == if self.active is Some && key_ref_view(current) != Some(self.active->0.key@) {
                Some(self.active->0.token)
            } else {
                None
            },
    {
        match &self.active {
            Some(active) => if runtime_key_is_current(&active.key, current) {
                None
            } else {
                Some(active.token)
            },
            None => None,
        }
    }
}

/// Follows a change of context: the worker starts where a cloud is configured, and an open
/// stream of another context is cancelled. Returns whether a thread has to be spawned, and
/// the token of the stream to cancel.
pub fn notify_context_changed(
    state: &mut WorkerState,
    streams: &ActiveStreams,
    cloud_configured: bool,
    current: Option<&RuntimeKey>,
) -> (followed: (bool, Option<u64>))
    ensures
        followed.0 == (cloud_configured && *old(state) is Stopped),
        *final(state) == if followed.0 {
            WorkerState::Starting
        } else {
            *old(state)
        },
        followed.1 == if streams.active is Some && key_ref_view(current) != Some(
            streams.active->0.key@,
        ) {
            Some(streams.active->0.token)
        } else {
            None
        },
{
    let spawn: bool = if cloud_configured {
        ensure_started(state)
    } else {
        false
    };
    (spawn, streams.cancel_active_stream_if_stale(current))
}

/// A call to refresh the stats of some apps.
pub struct AccountStatsWakeup {
    pub steam_id64: String,
    pub origin_client_id: Option<String>,
    pub app_ids: Vec<u32>,
}

/// The whole state of an account, as a stream starts with it.
pub struct AccountSyncState {
    pub stats_crc_apps: Vec<u32>,
    pub achievement_apps: Vec<u32>,
    pub stat_apps: Vec<u32>,
    pub playtime_revision: u64,
    pub playtime: Vec<PlaytimeEntry>,
}

/// Whether a text names exactly this account.
pub open spec fn names_account(text: Seq<char>, steam_id64: u64) -> bool {
    unsigned_value(text, u64::MAX as nat) == Some(steam_id64 as nat)
}

/// Whether an origin is absent or a nonzero client id.
pub open spec fn origin_is_valid(origin: Option<String>) -> bool {
    origin is Some ==> unsigned_value(origin->0@, u64::MAX as nat) is Some && unsigned_value(
        origin->0@,
        u64::MAX as nat,
    )->0 != 0
}

fn account_matches(text: &str, steam_id64: u64) -> (matches: bool)
    ensures
        matches == names_account(text@, steam_id64),
{
    match parse_u64(text) {
        Some(value) => value == steam_id64,
        None => false,
    }
}

fn origin_matches(origin: &Option<String>) -> (valid: bool)
    ensures
        valid == origin_is_valid(*origin),
{
    match origin {
        Some(text) => match parse_u64(text.as_str()) {
            Some(value) => value != 0,
            None => false,
        },
        None => true,
    }
}

/// Whether an entry names an app and sensible times.
pub open spec fn entry_is_valid(entry: PlaytimeEntry) -> bool {
    entry.app_id != 0 && entry.observed_at > 0 && (entry.last_played_at is Some
        ==> entry.last_played_at->0 >= 0)
}

/// Whether a playtime snapshot may be applied for an account.
pub open spec fn snapshot_valid(steam_id64: u64, snapshot: AccountPlaytimeSnapshot) -> bool {
    let entries = snapshot.playtime@;
    &&& entries.len() <= MAX_EVENT_ENTRIES
    &&& names_account(snapshot.steam_id64@, steam_id64)
    &&& origin_is_valid(snapshot.origin_client_id)
    &&& snapshot.playtime_revision == 0 ==> entries.len() == 0
    &&& forall|i: int| 0 <= i < entries.len() ==> entry_is_valid(#[trigger] entries[i])
    &&& forall|i: int, j: int|
        0 <= i < j < entries.len() ==> (#[trigger] entries[i]).app_id != (
        #[trigger] entries[j]).app_id
}

pub fn snapshot_is_valid(expected_steam_id64: u64, snapshot: &AccountPlaytimeSnapshot) -> (valid:
    bool)
    ensures
        valid == snapshot_valid(expected_steam_id64, *snapshot),
{
    if snapshot.playtime.len() > MAX_EVENT_ENTRIES {
        return false;
    }
    if !account_matches(snapshot.steam_id64.as_str(), expected_steam_id64) {
        return false;
    }
    if !origin_matches(&snapshot.origin_client_id) {
        return false;
    }
    if snapshot.playtime_revision == 0 && snapshot.playtime.len() > 0 {
        return false;
    }
    let mut i: usize = 0;
    while i < snapshot.playtime.len()
        invariant
            i <= snapshot.playtime@.len(),
            forall|k: int| 0 <= k < i ==> entry_is_valid(#[trigger] snapshot.playtime@[k]),
            forall|j: int, k: int|
                0 <= j < k < i ==> (#[trigger] snapshot.playtime@[j]).app_id != (
                #[trigger] snapshot.playtime@[k]).app_id,
        decreases snapshot.playtime@.len() - i,
    {
        let entry: PlaytimeEntry = snapshot.playtime[i];
        let late_enough: bool = match entry.last_played_at {
            Some(value) => value >= 0,
            None => true,
        };
        if entry.app_id == 0 || entry.observed_at <= 0 || !late_enough {
            assert(!entry_is_valid(snapshot.playtime@[i as int]));
            return false;
        }
        let mut k: usize = 0;
        while k < i
            invariant
                k <= i < snapshot.playtime@.len(),
                entry == snapshot.playtime@[i as int],
                forall|j: int|
                    0 <= j < k ==> (#[trigger] snapshot.playtime@[j]).app_id != entry.app_id,
            decreases i - k,
        {
            if snapshot.playtime[k].app_id == entry.app_id {
                assert(snapshot.playtime@[k as int].app_id == snapshot.playtime@[i as int].app_id);
                return false;
            }
            k = k + 1;
        }
        i = i + 1;
    }
    true
}

/// Whether a stats wakeup may be followed for an account.
pub open spec fn wakeup_valid(steam_id64: u64, wakeup: AccountStatsWakeup) -> bool {
    &&& names_account(wakeup.steam_id64@, steam_id64)
    &&& origin_is_valid(wakeup.origin_client_id)
    &&& 0 < wakeup.app_ids@.len() <= MAX_EVENT_ENTRIES
    &&& !wakeup.app_ids@.contains(0)
    &&& wakeup.app_ids@.no_duplicates()
}

pub fn wakeup_is_valid(expected_steam_id64: u64, wakeup: &AccountStatsWakeup) -> (valid: bool)
    ensures
        valid == wakeup_valid(expected_steam_id64, *wakeup),
{
    if !account_matches(wakeup.steam_id64.as_str(), expected_steam_id64) {
        return false;
    }
    if !origin_matches(&wakeup.origin_client_id) {
        return false;
    }
    if wakeup.app_ids.len() == 0 || wakeup.app_ids.len() > MAX_EVENT_ENTRIES {
        return false;
    }
    let mut i: usize = 0;
    while i < wakeup.app_ids.len()
        invariant
            i <= wakeup.app_ids@.len(),
            forall|k: int| 0 <= k < i ==> wakeup.app_ids@[k] != 0,
            forall|j: int, k: int|
                0 <= j < k < i ==> wakeup.app_ids@[j] != wakeup.app_ids@[k],
        decreases wakeup.app_ids@.len() - i,
    {
        let app_id: u32 = wakeup.app_ids[i];
        if app_id == 0 {
            assert(wakeup.app_ids@[i as int] == 0);
            return false;
        }
        let mut k: usize = 0;
        while k < i
            invariant
                k <= i < wakeup.app_ids@.len(),
                app_id == wakeup.app_ids@[i as int],
                forall|j: int| 0 <= j < k ==> wakeup.app_ids@[j] != app_id,
            decreases i - k,
        {
            if wakeup.app_ids[k] == app_id {
                assert(wakeup.app_ids@[k as int] == wakeup.app_ids@[i as int]);
                return false;
            }
            k = k + 1;
        }
        i = i + 1;
    }
    true
}

fn insert_apps(apps: &mut Vec<u32>, more: &Vec<u32>)
    requires
        ascends(old(apps)@),
    ensures
        ascends(final(apps)@),
        forall|other: u32| #[trigger]
            final(apps)@.contains(other) <==> old(apps)@.contains(other) || (other != 0
                && more@.contains(other)),
{
    let mut i: usize = 0;
    while i < more.len()
        invariant
            i <= more@.len(),
            ascends(apps@),
            forall|other: u32| #[trigger]
                apps@.contains(other) <==> old(apps)@.contains(other) || (other != 0 && more@.take(
                    i as int,
                ).contains(other)),
        decreases more@.len() - i,
    {
        if more[i] != 0 {
            insert_ascending(apps, more[i]);
        }
        proof {
            let now = more@.take(i as int);
            let next = more@.take(i + 1);
            assert forall|other: u32| #[trigger]
                next.contains(other) <==> now.contains(other) || other == more@[i as int] by {
                if now.contains(other) {
                    let k = choose|k: int| 0 <= k < now.len() && now[k] == other;
                    assert(next[k] == other);
                }
                if next.contains(other) {
                    let k = choose|k: int| 0 <= k < next.len() && next[k] == other;
                    if k < i {
                        assert(now[k] == other);
                    }
                }
                assert(next[i as int] == more@[i as int]);
            }
        }
        i = i + 1;
    }
    assert(more@.take(i as int) =~= more@);
}

/// The apps whose stats a fresh stream concerns, ascending and each once.
pub fn baseline_stats_apps(state: &AccountSyncState) -> (apps: Vec<u32>)
    ensures
        ascends(apps@),
        forall|app_id: u32| #[trigger]
            apps@.contains(app_id) <==> has_stats(*state, app_id),
{
    let mut apps: Vec<u32> = Vec::new();
    insert_apps(&mut apps, &state.stats_crc_apps);
    insert_apps(&mut apps, &state.achievement_apps);
    insert_apps(&mut apps, &state.stat_apps);
    apps
}

/// Whether an app has stats in an account's state.
pub open spec fn has_stats(state: AccountSyncState, app_id: u32) -> bool {
    app_id != 0 && (state.stats_crc_apps@.contains(app_id) || state.achievement_apps@.contains(
        app_id,
    ) || state.stat_apps@.contains(app_id))
}

/// Whether a snapshot is the playtime of an account's state.
pub open spec fn is_baseline_playtime(
    snapshot: AccountPlaytimeSnapshot,
    steam_id64: u64,
    state: AccountSyncState,
) -> bool {
    &&& snapshot.steam_id64@ == decimal_of(steam_id64 as nat)
    &&& snapshot.playtime_revision == state.playtime_revision
    &&& snapshot.origin_client_id is None
    &&& snapshot.playtime == state.playtime
}

/// Whether a wakeup names the apps of an account's state, ascending and each once.
pub open spec fn is_baseline_wakeup(
    wakeup: AccountStatsWakeup,
    steam_id64: u64,
    state: AccountSyncState,
) -> bool {
    &&& wakeup.steam_id64@ == decimal_of(steam_id64 as nat)
    &&& wakeup.origin_client_id is None
    &&& ascends(wakeup.app_ids@)
    &&& forall|app_id: u32| #[trigger]
        wakeup.app_ids@.contains(app_id) <==> has_stats(state, app_id)
}

/// What a fresh stream starts with: its playtime, and a wakeup if any app has stats.
pub fn process_baseline(steam_id64: u64, state: AccountSyncState) -> (parts: (
    AccountPlaytimeSnapshot,
    Option<AccountStatsWakeup>,
))
    ensures
        is_baseline_playtime(parts.0, steam_id64, state),
        parts.1 is Some <==> exists|app_id: u32| #[trigger] has_stats(state, app_id),
        parts.1 is Some ==> is_baseline_wakeup(parts.1->0, steam_id64, state),
{
    let app_ids: Vec<u32> = baseline_stats_apps(&state);
    let wakeup: Option<AccountStatsWakeup> = if app_ids.len() > 0 {
        proof {
            assert(app_ids@.contains(app_ids@[0]));
            assert(has_stats(state, app_ids@[0]));
        }
        Some(
            AccountStatsWakeup { steam_id64: decimal(steam_id64), origin_client_id: None, app_ids },
        )
    } else {
        proof {
            assert forall|app_id: u32| !#[trigger] has_stats(state, app_id) by {
                assert(!app_ids@.contains(app_id));
            }
        }
        None
    };
    let snapshot: AccountPlaytimeSnapshot = AccountPlaytimeSnapshot {
        steam_id64: decimal(steam_id64),
        playtime_revision: state.playtime_revision,
        origin_client_id: None,
        playtime: state.playtime,
    };
    (snapshot, wakeup)
}

/// What an account's own state is turned into passes the checks on events from outside, as
/// far as its entries do and its apps are not too many.
pub proof fn law_baseline_parts_are_valid(
    steam_id64: u64,
    state: AccountSyncState,
    snapshot: AccountPlaytimeSnapshot,
    wakeup: AccountStatsWakeup,
)
    requires
        is_baseline_playtime(snapshot, steam_id64, state),
        is_baseline_wakeup(wakeup, steam_id64, state),
    ensures
        snapshot_valid(steam_id64, snapshot) <==> {
            &&& state.playtime@.len() <= MAX_EVENT_ENTRIES
            &&& state.playtime_revision == 0 ==> state.playtime@.len() == 0
            &&& forall|i: int|
                0 <= i < state.playtime@.len() ==> entry_is_valid(#[trigger] state.playtime@[i])
            &&& forall|i: int, j: int|
                0 <= i < j < state.playtime@.len() ==> (#[trigger] state.playtime@[i]).app_id != (
                #[trigger] state.playtime@[j]).app_id
        },
        wakeup_valid(steam_id64, wakeup) <==> 0 < wakeup.app_ids@.len() <= MAX_EVENT_ENTRIES,
{
    law_decimals_are_read_back(steam_id64 as nat, u64::MAX as nat);
    assert(!has_stats(state, 0));
    assert(wakeup.app_ids@.no_duplicates());
}

/// Whether a playtime snapshot was taken, or left alone where it is not valid.
pub open spec fn is_processed(
    before: PlaytimeCache,
    after: PlaytimeCache,
    key: RuntimeKey,
    snapshot: AccountPlaytimeSnapshot,
    controlled: Seq<u32>,
    numbers: NotificationNumbers,
    packet: Option<PlaytimeNotification>,
) -> bool {
    if snapshot_valid(key.steam_id64, snapshot) {
        is_applied(before, after, key, snapshot, controlled, numbers, packet)
    } else {
        packet is None && after == before
    }
}

/// Stores a valid playtime snapshot and returns what to announce.
pub fn process_playtime(
    cache: &mut PlaytimeCache,
    key: RuntimeKey,
    snapshot: &AccountPlaytimeSnapshot,
    controlled: &[u32],
    numbers: NotificationNumbers,
) -> (packet: Option<PlaytimeNotification>)
    requires
        old(cache).wf(),
    ensures
        final(cache).wf(),
        is_processed(*old(cache), *final(cache), key, *snapshot, controlled@, numbers, packet),
{
    if !snapshot_is_valid(key.steam_id64, snapshot) {
        return None;
    }
    apply_stream_snapshot(cache, key, snapshot, controlled, numbers)
}

/// The apps that a wakeup refreshes.
pub open spec fn refreshed(
    steam_id64: u64,
    wakeup: AccountStatsWakeup,
    controlled: Seq<u32>,
) -> Seq<u32> {
    if wakeup_valid(steam_id64, wakeup) {
        wakeup.app_ids@.filter(|app_id: u32| controlled.contains(app_id))
    } else {
        Seq::empty()
    }
}

/// The apps of a valid wakeup that are refreshed: the controlled ones.
pub fn process_stats_wakeup(
    steam_id64: u64,
    wakeup: &AccountStatsWakeup,
    controlled: &[u32],
) -> (apps: Vec<u32>)
    ensures
        apps@ == refreshed(steam_id64, *wakeup, controlled@),
{
    let mut apps: Vec<u32> = Vec::new();
    if !wakeup_is_valid(steam_id64, wakeup) {
        return apps;
    }
    let ghost keep = |app_id: u32| controlled@.contains(app_id);
    let mut i: usize = 0;
    assert(wakeup.app_ids@.take(0).filter(keep) =~= Seq::empty()) by {
        reveal(Seq::filter);
    }
    while i < wakeup.app_ids.len()
        invariant
            i <= wakeup.app_ids@.len(),
            keep == (|app_id: u32| controlled@.contains(app_id)),
            apps@ == wakeup.app_ids@.take(i as int).filter(keep),
        decreases wakeup.app_ids@.len() - i,
    {
        proof {
            assert(wakeup.app_ids@.take(i + 1).drop_last() =~= wakeup.app_ids@.take(i as int));
            reveal(Seq::filter);
        }
        let app_id: u32 = wakeup.app_ids[i];
        if contains_u32(controlled, app_id) {
            apps.push(app_id);
        }
        i = i + 1;
    }
    assert(wakeup.app_ids@.take(i as int) =~= wakeup.app_ids@);
    apps
}

/// An event of the account stream.
pub enum AccountStreamEvent {
    Baseline(AccountSyncState),
    Playtime(AccountPlaytimeSnapshot),
    StatsWakeup(AccountStatsWakeup),
}

/// What follows from an event: a notification for Steam, and apps whose stats are refreshed.
pub struct EventOutcome {
    pub packet: Option<PlaytimeNotification>,
    pub refresh: Vec<u32>,
}

/// Whether an event of the stream that was opened for `key` was followed.
pub open spec fn is_followed(
    before: PlaytimeCache,
    after: PlaytimeCache,
    key: RuntimeKey,
    event: AccountStreamEvent,
    controlled: Seq<u32>,
    numbers: NotificationNumbers,
    outcome: EventOutcome,
) -> bool {
    match event {
        AccountStreamEvent::Baseline(state) => {
            &&& exists|snapshot: AccountPlaytimeSnapshot| #[trigger]
                is_baseline_playtime(snapshot, key.steam_id64, state) && is_processed(
                    before,
                    after,
                    key,
                    snapshot,
                    controlled,
                    numbers,
                    outcome.packet,
                )
            &&& if exists|app_id: u32| #[trigger] has_stats(state, app_id) {
                exists|wakeup: AccountStatsWakeup| #[trigger]
                    is_baseline_wakeup(wakeup, key.steam_id64, state) && outcome.refresh@
                        == refreshed(key.steam_id64, wakeup, controlled)
            } else {
                outcome.refresh@.len() == 0
            }
        },
        AccountStreamEvent::Playtime(snapshot) => {
            &&& is_processed(before, after, key, snapshot, controlled, numbers, outcome.packet)
            &&& outcome.refresh@.len() == 0
        },
        AccountStreamEvent::StatsWakeup(wakeup) => {
            &&& outcome.refresh@ == refreshed(key.steam_id64, wakeup, controlled)
            &&& outcome.packet is None
            &&& after == before
        },
    }
}

/// Takes an event of the stream that was opened for `key`: it is followed, and counts as
/// progress, only while that key is the current one.
pub fn receive_event(
    cache: &mut PlaytimeCache,
    received: &mut bool,
    key: RuntimeKey,
    current: Option<&RuntimeKey>,
    event: AccountStreamEvent,
    controlled: &[u32],
    numbers: NotificationNumbers,
) -> (outcome: Option<EventOutcome>)
    requires
        old(cache).wf(),
    ensures
        final(cache).wf(),
        outcome is Some <==> key_ref_view(current) == Some(key@),
        outcome is Some ==> *final(received) && is_followed(
            *old(cache),
            *final(cache),
            key,
            event,
            controlled@,
            numbers,
            outcome->0,
        ),
        outcome is None ==> *final(received) == *old(received) && *final(cache) == *old(cache),
{
    if !runtime_key_is_current(&key, current) {
        return None;
    }
    *received = true;
    Some(process_event(cache, key, event, controlled, numbers))
}

/// Follows one event of the stream that was opened for `key`.
pub fn process_event(
    cache: &mut PlaytimeCache,
    key: RuntimeKey,
    event: AccountStreamEvent,
    controlled: &[u32],
    numbers: NotificationNumbers,
) -> (outcome: EventOutcome)
    requires
        old(cache).wf(),
    ensures
        final(cache).wf(),
        is_followed(*old(cache), *final(cache), key, event, controlled@, numbers, outcome),
{
    let steam_id64: u64 = key.steam_id64;
    match event {
        AccountStreamEvent::Baseline(state) => {
            let (snapshot, wakeup) = process_baseline(steam_id64, state);
            let packet: Option<PlaytimeNotification> = process_playtime(
                cache,
                key,
                &snapshot,
                controlled,
                numbers,
            );
            let refresh: Vec<u32> = match &wakeup {
                Some(wakeup) => process_stats_wakeup(steam_id64, wakeup, controlled),
                None => Vec::new(),
            };
            EventOutcome { packet, refresh }
        },
        AccountStreamEvent::Playtime(snapshot) => {
            let packet: Option<PlaytimeNotification> = process_playtime(
                cache,
                key,
                &snapshot,
                controlled,
                numbers,
            );
            EventOutcome { packet, refresh: Vec::new() }
        },
        AccountStreamEvent::StatsWakeup(wakeup) => {
            let refresh: Vec<u32> = process_stats_wakeup(steam_id64, &wakeup, controlled);
            EventOutcome { packet: None, refresh }
        },
    }
}

/// Each delay is twice the one before, cut at the bound.
pub proof fn law_delays_double(retries: nat)
    ensures
        2 * delay_after(retries) <= RETRY_MAX ==> delay_after(retries + 1) == 2 * delay_after(
            retries,
        ),
        2 * delay_after(retries) > RETRY_MAX ==> delay_after(retries + 1) == RETRY_MAX,
        delay_after(0) == RETRY_INITIAL,
{
    law_delays_are_bounded(retries);
}

/// A failure, of whatever step, is waited out: for the delay at hand where a retry may help,
/// else until the context changes; and both waits end with a change from the round's revision
/// on. Only a retry moves the pace.
pub proof fn law_failures_are_waited_out(state: RunState, revision: u64, retryable: bool)
    requires
        state.wf(),
    ensures
        forall|event: RunEvent|
            event == (RunEvent::PrincipalFailed { retryable }) || event == (
            RunEvent::DeviceFailed { retryable }) || event == (RunEvent::StreamEnded {
                received_event: false,
                end: StreamEnd::Failed { retryable },
            }) ==> {
                let after = #[trigger] state.stepped(event, revision);
                &&& after.0.observed_revision == state.observed_revision
                &&& after.0.signal_revision == state.signal_revision
                &&& if retryable {
                    &&& after.1 == RunAction::WaitForRetry {
                        revision: state.signal_revision,
                        seconds: state.retry.next,
                    }
                    &&& after.0.retry.next >= state.retry.next
                    &&& state.retry.next < RETRY_MAX ==> after.0.retry.next > state.retry.next
                } else {
                    &&& after.1 == RunAction::WaitForContext { revision: state.signal_revision }
                    &&& after.0.retry == state.retry
                }
            },
        forall|event: RunEvent|
            event == (RunEvent::Prerequisites { met: false }) || event == (RunEvent::StreamEnded {
                received_event: false,
                end: StreamEnd::Unsupported,
            }) ==> #[trigger] state.stepped(event, revision) == (
                state,
                RunAction::WaitForContext { revision: state.signal_revision },
            ),
{
}

/// What succeeded leads to the next step with nothing else changed, and what no longer belongs
/// to the present context to a new round at the present revision.
pub proof fn law_rounds_go_on(state: RunState, revision: u64, received_event: bool)
    requires
        state.wf(),
    ensures
        state.stepped(RunEvent::Prerequisites { met: true }, revision) == (
            state,
            RunAction::ResolvePrincipal,
        ),
        state.stepped(RunEvent::PrincipalResolved { key_current: true }, revision) == (
            state,
            RunAction::BindDevice,
        ),
        state.stepped(RunEvent::DeviceBound { key_current: true }, revision) == (
            state,
            RunAction::Stream,
        ),
        forall|event: RunEvent|
            event is Resumed || event == (RunEvent::PrincipalResolved { key_current: false })
                || event == (RunEvent::DeviceBound { key_current: false }) || event == (
            RunEvent::StreamEnded { received_event, end: StreamEnd::Stopped }) ==> {
                let after = #[trigger] state.stepped(event, revision);
                &&& after.1 is CheckPrerequisites
                &&& after.0.observed_revision == revision
                &&& after.0.signal_revision == revision
                &&& revision != state.observed_revision ==> after.0.retry.next == RETRY_INITIAL
                &&& revision == state.observed_revision && !(event is StreamEnded
                    && received_event) ==> after.0.retry == state.retry
            },
{
}

/// An account's own number names it, and no other number does. A client id names an origin
/// unless it is zero.
pub proof fn law_accounts_are_told_apart(text: Seq<char>, origin: String, named: u64, account: u64)
    requires
        text == decimal_of(named as nat),
        origin@ == decimal_of(named as nat),
    ensures
        names_account(text, account) <==> named == account,
        origin_is_valid(Some(origin)) <==> named != 0,
        origin_is_valid(None),
{
    law_decimals_are_read_back(named as nat, u64::MAX as nat);
}

/// A playtime snapshot is refused for these reasons alone: it names another account or a
/// worthless origin, has more entries than allowed, has entries without a revision, names an
/// app twice or none, or tells of times that cannot be. What is refused changes nothing and
/// announces nothing.
pub proof fn law_sound_snapshots_are_taken(
    before: PlaytimeCache,
    after: PlaytimeCache,
    key: RuntimeKey,
    snapshot: AccountPlaytimeSnapshot,
    controlled: Seq<u32>,
    numbers: NotificationNumbers,
    packet: Option<PlaytimeNotification>,
)
    requires
        is_processed(before, after, key, snapshot, controlled, numbers, packet),
    ensures
        ({
            let entries = snapshot.playtime@;
            let sound = unsigned_value(snapshot.steam_id64@, u64::MAX as nat) == Some(
                key.steam_id64 as nat,
            ) && (snapshot.origin_client_id is Some ==> unsigned_value(
                snapshot.origin_client_id->0@,
                u64::MAX as nat,
            ) is Some && unsigned_value(snapshot.origin_client_id->0@, u64::MAX as nat)
                != Some(0nat)) && entries.len() <= 5000 && (entries.len() == 0
                || snapshot.playtime_revision > 0) && (forall|i: int|
                0 <= i < entries.len() ==> (#[trigger] entries[i]).app_id != 0
                    && entries[i].observed_at > 0 && !(entries[i].last_played_at is Some
                    && entries[i].last_played_at->0 < 0)) && (forall|i: int, j: int|
                0 <= i < entries.len() && 0 <= j < entries.len() && i != j ==> (
                #[trigger] entries[i]).app_id != (#[trigger] entries[j]).app_id);
            &&& sound ==> is_applied(before, after, key, snapshot, controlled, numbers, packet)
            &&& !sound ==> packet is None && after == before
        }),
{
    let entries = snapshot.playtime@;
    if snapshot_valid(key.steam_id64, snapshot) {
        assert(forall|i: int| 0 <= i < entries.len() ==> entry_is_valid(#[trigger] entries[i]));
    }
}

/// A wakeup refreshes those of its apps that are controlled, in its order, unless it names
/// another account or a worthless origin, no app or too many, an app twice, or the app zero.
pub proof fn law_sound_wakeups_refresh(
    steam_id64: u64,
    wakeup: AccountStatsWakeup,
    controlled: &[u32],
    apps: Vec<u32>,
)
    requires
        call_ensures(process_stats_wakeup, (steam_id64, &wakeup, controlled), apps),
    ensures
        ({
            let named = wakeup.app_ids@;
            let sound = unsigned_value(wakeup.steam_id64@, u64::MAX as nat) == Some(
                steam_id64 as nat,
            ) && (wakeup.origin_client_id is Some ==> unsigned_value(
                wakeup.origin_client_id->0@,
                u64::MAX as nat,
            ) is Some && unsigned_value(wakeup.origin_client_id->0@, u64::MAX as nat)
                != Some(0nat)) && 0 < named.len() <= 5000 && !named.contains(0)
                && named.no_duplicates();
            &&& sound ==> apps@ == named.filter(|app_id: u32| controlled@.contains(app_id))
            &&& !sound ==> apps@.len() == 0
        }),
{
}

/// An event reaches what it speaks of and nothing else: a playtime refreshes no stats, a wakeup
/// leaves the playtime alone, and a fresh stream refreshes exactly the controlled apps that
/// have stats of any kind, as far as they are not too many.
pub proof fn law_events_reach_what_they_speak_of(
    before: PlaytimeCache,
    after: PlaytimeCache,
    key: RuntimeKey,
    event: AccountStreamEvent,
    controlled: Seq<u32>,
    numbers: NotificationNumbers,
    outcome: EventOutcome,
    app_id: u32,
)
    requires
        is_followed(before, after, key, event, controlled, numbers, outcome),
    ensures
        event is Playtime ==> outcome.refresh@.len() == 0,
        event is StatsWakeup ==> outcome.packet is None && after == before,
        event is StatsWakeup && outcome.refresh@.contains(app_id) ==> controlled.contains(app_id)
            && event->StatsWakeup_0.app_ids@.contains(app_id),
        event is Baseline ==> {
            let state = event->Baseline_0;
            let told = app_id != 0 && (state.stats_crc_apps@.contains(app_id)
                || state.achievement_apps@.contains(app_id) || state.stat_apps@.contains(app_id));
            &&& outcome.refresh@.contains(app_id) ==> told && controlled.contains(app_id)
            &&& told && controlled.contains(app_id) && outcome.refresh@.len() == 0 ==> exists|
                wakeup: AccountStatsWakeup,
            | #[trigger]
                is_baseline_wakeup(wakeup, key.steam_id64, state) && wakeup.app_ids@.len() > 5000
            &&& told && controlled.contains(app_id) && outcome.refresh@.len() > 0
                ==> outcome.refresh@.contains(app_id)
        },
{
    reveal(Seq::filter);
    let keep = |app: u32| controlled.contains(app);
    match event {
        AccountStreamEvent::Playtime(_) => {},
        AccountStreamEvent::StatsWakeup(wakeup) => {
            wakeup.app_ids@.filter_lemma(keep);
            if outcome.refresh@.contains(app_id) {
                let k = choose|k: int| 0 <= k < outcome.refresh@.len() && outcome.refresh@[k] == app_id;
                assert(wakeup.app_ids@.filter(keep)[k] == app_id);
                assert(keep(wakeup.app_ids@.filter(keep)[k]));
                lemma_kept_were_there(wakeup.app_ids@, keep, app_id);
            }
        },
        AccountStreamEvent::Baseline(state) => {
            if exists|app: u32| #[trigger] has_stats(state, app) {
                let wakeup = choose|wakeup: AccountStatsWakeup| #[trigger]
                    is_baseline_wakeup(wakeup, key.steam_id64, state) && outcome.refresh@
                        == refreshed(key.steam_id64, wakeup, controlled);
                let snapshot = choose|snapshot: AccountPlaytimeSnapshot| #[trigger]
                    is_baseline_playtime(snapshot, key.steam_id64, state);
                law_baseline_parts_are_valid(key.steam_id64, state, snapshot, wakeup);
                assert(wakeup.app_ids@.contains(app_id) <==> has_stats(state, app_id));
                let apps = wakeup.app_ids@;
                apps.filter_lemma(keep);
                if wakeup_valid(key.steam_id64, wakeup) {
                    assert(outcome.refresh@ == apps.filter(keep));
                    if apps.filter(keep).contains(app_id) {
                        let k = choose|k: int|
                            0 <= k < apps.filter(keep).len() && apps.filter(keep)[k] == app_id;
                        assert(keep(apps.filter(keep)[k]));
                        lemma_kept_were_there(apps, keep, app_id);
                    }
                    if has_stats(state, app_id) && keep(app_id) {
                        let k = choose|k: int| 0 <= k < apps.len() && apps[k] == app_id;
                        assert(apps.filter(keep).contains(apps[k]));
                    }
                } else if has_stats(state, app_id) {
                    assert(apps.len() > 0);
                }
            } else {
                assert(!has_stats(state, app_id));
            }
        },
    }
}

proof fn lemma_kept_were_there(row: Seq<u32>, keep: spec_fn(u32) -> bool, value: u32)
    requires
        row.filter(keep).contains(value),
    ensures
        row.contains(value),
    decreases row.len(),
{
    reveal(Seq::filter);
    if row.len() > 0 {
        let rest = row.drop_last();
        if rest.filter(keep).contains(value) {
            lemma_kept_were_there(rest, keep, value);
            let k = choose|k: int| 0 <= k < rest.len() && rest[k] == value;
            assert(row[k] == value);
        } else {
            let kept = row.filter(keep);
            let k = choose|k: int| 0 <= k < kept.len() && kept[k] == value;
            if k < rest.filter(keep).len() {
                assert(rest.filter(keep)[k] == value);
            }
            assert(row[row.len() - 1] == value);
        }
    }
}

} // verus!
