//! Durable upload of achievement schemas and stats: what is sent when, and how each
//! answer is settled.
use crate::lists::{ascends, insert_ascending};
use crate::steam_session::{AchievementSnapshot, StatState};
use crate::text::{decimal, decimal_of, text_eq};
use vstd::prelude::*;
use vstd::string::*;

verus! {

/// Seconds before work that is due already is tried again.
pub const READY_RETRY_DELAY: u64 = 2;

/// How often one burst looks for due work.
pub const MAX_PASSES: u8 = 10;

/// The generation in which this device may not be bound.
#[derive(Clone, Copy, Debug, PartialEq, Eq, Structural)]
pub struct DeviceBindingGate {
    pub permanently_blocked_generation: Option<u64>,
}

impl Default for DeviceBindingGate {
    fn default() -> (gate: Self)
        ensures
            gate.permanently_blocked_generation is None,
    {
        DeviceBindingGate { permanently_blocked_generation: None }
    }
}

impl DeviceBindingGate {
    /// Whether binding is not blocked in a generation.
    pub open spec fn open_in(self, generation: u64) -> bool {
        self.permanently_blocked_generation != Some(generation)
    }

    pub fn allows(&self, generation: u64) -> (allowed: bool)
        ensures
            allowed == self.open_in(generation),
    {
        match self.permanently_blocked_generation {
            Some(blocked) => blocked != generation,
            None => true,
        }
    }

    /// A failure that is no use retrying blocks its generation.
    pub fn record_failure(&mut self, generation: u64, retryable: bool)
        ensures
            final(self).permanently_blocked_generation == if retryable {
                None
            } else {
                Some(generation)
            },
    {
        self.permanently_blocked_generation = if retryable {
            None
        } else {
            Some(generation)
        };
    }

    pub fn record_success(&mut self)
        ensures
            final(self).permanently_blocked_generation is None,
    {
        self.permanently_blocked_generation = None;
    }

    /// The deadline, as far as binding is possible at all.
    pub fn deadline(&self, generation: u64, deadline: Option<i64>) -> (due: Option<i64>)
        ensures
            due == if self.open_in(generation) {
                deadline
            } else {
                None
            },
    {
        if self.allows(generation) {
            deadline
        } else {
            None
        }
    }
}

/// Whether the upload worker exists.
#[derive(Clone, Copy, Debug, PartialEq, Eq, Structural)]
pub enum WorkerSlot {
    Absent,
    Running,
}

/// What a caller that needs the worker does.
#[derive(Clone, Copy, Debug, PartialEq, Eq, Structural)]
pub enum StartAction {
    /// The worker is there.
    Use,
    /// There is no journal to work on.
    Unavailable,
    /// Spawn the worker, and settle the start with the result.
    Spawn,
}

/// What a caller that needs the worker does: it starts the worker once, when there is a
/// journal.
pub open spec fn start_action(slot: WorkerSlot, journal_available: bool) -> StartAction {
    match slot {
        WorkerSlot::Running => StartAction::Use,
        WorkerSlot::Absent => if journal_available {
            StartAction::Spawn
        } else {
            StartAction::Unavailable
        },
    }
}

/// The slot once a start is settled: a worker whose thread was spawned stays.
pub open spec fn slot_settled(slot: WorkerSlot, spawned: bool) -> WorkerSlot {
    if spawned {
        WorkerSlot::Running
    } else {
        slot
    }
}

/// Starts the worker once, when there is a journal.
pub fn ensure_started(slot: WorkerSlot, journal_available: bool) -> (action: StartAction)
    ensures
        action == start_action(slot, journal_available),
{
    match slot {
        WorkerSlot::Running => StartAction::Use,
        WorkerSlot::Absent => if journal_available {
            StartAction::Spawn
        } else {
            StartAction::Unavailable
        },
    }
}

/// Settles a start: a worker whose thread was spawned stays.
pub fn finish_start(slot: &mut WorkerSlot, spawned: bool) -> (running: bool)
    ensures
        *final(slot) == slot_settled(*old(slot), spawned),
        running == (*final(slot) is Running),
{
    if spawned {
        *slot = WorkerSlot::Running;
    }
    *slot == WorkerSlot::Running
}

/// One attempt to have a worker: whether there is a journal, and whether a thread can be
/// spawned.
pub struct StartAttempt {
    pub journal_available: bool,
    pub spawns: bool,
}

/// Whether an attempt spawns a worker.
pub open spec fn attempt_spawns(slot: WorkerSlot, attempt: StartAttempt) -> bool {
    start_action(slot, attempt.journal_available) is Spawn && attempt.spawns
}

/// The slot after attempts, one after the other, to have a worker where there was none.
pub open spec fn slot_after(attempts: Seq<StartAttempt>) -> WorkerSlot
    decreases attempts.len(),
{
    if attempts.len() == 0 {
        WorkerSlot::Absent
    } else {
        let before = slot_after(attempts.drop_last());
        slot_settled(before, attempt_spawns(before, attempts.last()))
    }
}

/// How many workers attempts have spawned.
pub open spec fn workers_spawned(attempts: Seq<StartAttempt>) -> nat
    decreases attempts.len(),
{
    if attempts.len() == 0 {
        0
    } else {
        workers_spawned(attempts.drop_last()) + if attempt_spawns(
            slot_after(attempts.drop_last()),
            attempts.last(),
        ) {
            1nat
        } else {
            0nat
        }
    }
}

/// At most one upload worker is ever spawned, however often one is asked for; there is one
/// exactly where the slot says so, and the first attempt that could spawn one did.
pub proof fn law_one_upload_worker(attempts: Seq<StartAttempt>)
    ensures
        workers_spawned(attempts) <= 1,
        workers_spawned(attempts) == 1 <==> slot_after(attempts) is Running,
        slot_after(attempts) is Running <==> exists|i: int|
            0 <= i < attempts.len() && (#[trigger] attempts[i]).journal_available
                && attempts[i].spawns,
    decreases attempts.len(),
{
    if attempts.len() > 0 {
        let before = attempts.drop_last();
        law_one_upload_worker(before);
        assert(attempts.last() == attempts[attempts.len() - 1]);
        assert forall|i: int| 0 <= i < before.len() implies #[trigger] before[i]
            == attempts[i] by {}
        if exists|i: int|
            0 <= i < before.len() && (#[trigger] before[i]).journal_available && before[i].spawns {
            let i = choose|i: int|
                0 <= i < before.len() && (#[trigger] before[i]).journal_available
                    && before[i].spawns;
            assert(attempts[i].journal_available && attempts[i].spawns);
        }
        if exists|i: int|
            0 <= i < attempts.len() && (#[trigger] attempts[i]).journal_available
                && attempts[i].spawns {
            let i = choose|i: int|
                0 <= i < attempts.len() && (#[trigger] attempts[i]).journal_available
                    && attempts[i].spawns;
            if i < before.len() {
                assert(before[i].journal_available && before[i].spawns);
            }
        }
    }
}

/// What a change of context comes to.
#[derive(Clone, Copy, Debug, PartialEq, Eq, Structural)]
pub struct ContextNotice {
    pub generation: u64,
    /// Whether the worker is woken.
    pub wakes: bool,
}

/// A change of context begins a new generation and wakes the worker, if one runs. None is
/// started.
pub fn notify_context_changed(slot: WorkerSlot, generation: u64) -> (notice: ContextNotice)
    ensures
        notice.generation == generation.wrapping_add(1),
        notice.wakes == (slot is Running),
{
    ContextNotice {
        generation: generation.wrapping_add(1),
        wakes: slot == WorkerSlot::Running,
    }
}

/// Whether a principal that became known wakes the worker: one that runs. None is started,
/// and the generation stays.
pub fn notify_principal_available(slot: WorkerSlot) -> (wakes: bool)
    ensures
        wakes == (slot is Running),
{
    slot == WorkerSlot::Running
}

/// The backend's answer to one upload.
#[derive(Clone, Copy, Debug, PartialEq, Eq, Structural)]
pub enum SchemaVerdict {
    Accepted,
    Declined,
    Failed { retryable: bool },
}

#[derive(Clone, Copy, Debug, PartialEq, Eq, Structural)]
pub enum SnapshotVerdict {
    Stored,
    /// The backend holds newer stats, of this checksum, and did not store these.
    OutOfDate { crc_stats: u32 },
    Failed { retryable: bool },
}

/// Where the upload worker stands.
#[derive(Clone, Copy, Debug, PartialEq, Eq, Structural)]
pub enum UploadPhase {
    Waiting,
    Deadline,
    Backend,
    Binding,
    Attribution,
    SchemaList,
    SchemaUpload { index: usize, count: usize },
    SchemaSettle { index: usize, count: usize },
    Identity,
    SnapshotList,
    SnapshotUpload { index: usize, count: usize },
    SnapshotReopen { index: usize, count: usize },
    SnapshotSettle { index: usize, count: usize, stop: bool },
    NextDeadline,
    Ended,
}

/// What the upload worker just learnt.
#[derive(Clone, Copy, Debug, PartialEq, Eq, Structural)]
pub enum UploadEvent {
    /// The worker begins, or its wait is over.
    Woken,
    /// Nothing can wake the worker any more.
    Closed,
    /// The context generation, the next deadline of the journal, and the time.
    Deadline { generation: u64, next: Option<i64>, now: i64 },
    /// Whether there are a backend and a device.
    Backend { available: bool },
    Bound,
    BindingFailed { retryable: bool },
    Attributed { ok: bool },
    /// How many schemas are due; none where the journal could not be read.
    Schemas { count: Option<usize> },
    SchemaUploaded { verdict: SchemaVerdict },
    Settled,
    /// Whether there is an account to upload for, and its scope.
    Identity { identity: bool, scope: bool },
    /// How many snapshots are due; none where the journal could not be read.
    Snapshots { count: Option<usize> },
    SnapshotUploaded { verdict: SnapshotVerdict },
    /// Whether the refused snapshot was reopened.
    Reopened { reopened: bool },
}

/// What the upload worker does next.
#[derive(Clone, Copy, Debug, PartialEq, Eq, Structural)]
pub enum UploadAction {
    /// Record the device, then read the deadline.
    StartBurst,
    ReadDeadline,
    FindBackend,
    BindDevice,
    AttributeSchemas,
    ListSchemas,
    UploadSchema { index: usize },
    /// Acknowledge the schema, or defer it.
    SettleSchema { index: usize, acknowledge: bool },
    FindIdentity,
    ListSnapshots,
    UploadSnapshot { index: usize },
    /// Acknowledge the snapshot, or defer it.
    SettleSnapshot { index: usize, acknowledge: bool },
    /// Reopen the commit on the checksum that the backend holds.
    ReopenSnapshot { index: usize, crc_stats: u32 },
    /// Have Steam's stats read anew for a reopened snapshot.
    RefreshSnapshot { index: usize },
    ReadNextDeadline,
    /// Sleep until something arrives, or until the deadline.
    Wait { next_attempt_at: Option<i64> },
    /// Leave the loop.
    End,
}

/// The upload worker between two steps.
#[derive(Clone, Copy, Debug, PartialEq, Eq, Structural)]
pub struct UploadState {
    pub gate: DeviceBindingGate,
    pub generation: u64,
    pub passes: u8,
    pub attempted: bool,
    pub phase: UploadPhase,
}

impl UploadState {
    /// Indices lie inside their lists, and a burst has only so many passes.
    pub open spec fn wf(self) -> bool {
        &&& self.passes <= MAX_PASSES
        &&& match self.phase {
            UploadPhase::SchemaUpload { index, count } => index < count,
            UploadPhase::SchemaSettle { index, count } => index < count,
            UploadPhase::SnapshotUpload { index, count } => index < count,
            UploadPhase::SnapshotReopen { index, count } => index < count,
            UploadPhase::SnapshotSettle { index, count, stop } => index < count,
            _ => true,
        }
    }

    /// Whether this event answers the phase.
    pub open spec fn expects(self, event: UploadEvent) -> bool {
        match self.phase {
            UploadPhase::Waiting => event is Woken || event is Closed,
            UploadPhase::Deadline => event is Deadline,
            UploadPhase::Backend => event is Backend,
            UploadPhase::Binding => event is Bound || event is BindingFailed,
            UploadPhase::Attribution => event is Attributed,
            UploadPhase::SchemaList => event is Schemas,
            UploadPhase::SchemaUpload { index, count } => event is SchemaUploaded,
            UploadPhase::SchemaSettle { index, count } => event is Settled,
            UploadPhase::Identity => event is Identity,
            UploadPhase::SnapshotList => event is Snapshots,
            UploadPhase::SnapshotUpload { index, count } => event is SnapshotUploaded,
            UploadPhase::SnapshotReopen { index, count } => event is Reopened,
            UploadPhase::SnapshotSettle { index, count, stop } => event is Settled,
            UploadPhase::NextDeadline => event is Deadline,
            UploadPhase::Ended => false,
        }
    }

    /// The burst is over.
    pub open spec fn ended(self) -> (UploadState, UploadAction) {
        (
            UploadState { phase: UploadPhase::NextDeadline, ..self },
            UploadAction::ReadNextDeadline,
        )
    }

    /// Another pass begins, unless there were enough.
    pub open spec fn next_pass(self) -> (UploadState, UploadAction) {
        if self.passes >= MAX_PASSES {
            self.ended()
        } else {
            (
                UploadState {
                    passes: (self.passes + 1) as u8,
                    attempted: false,
                    phase: UploadPhase::Deadline,
                    ..self
                },
                UploadAction::ReadDeadline,
            )
        }
    }

    /// The schema at `index` is next, or the account behind the last one.
    pub open spec fn schemas_from(self, index: usize, count: usize) -> (UploadState, UploadAction) {
        if index < count {
            (
                UploadState {
                    attempted: true,
                    phase: UploadPhase::SchemaUpload { index, count },
                    ..self
                },
                UploadAction::UploadSchema { index },
            )
        } else {
            (UploadState { phase: UploadPhase::Identity, ..self }, UploadAction::FindIdentity)
        }
    }

    /// The snapshot at `index` is next; behind the last one the pass is over, and the
    /// burst too if nothing was attempted.
    pub open spec fn snapshots_from(self, index: usize, count: usize) -> (
        UploadState,
        UploadAction,
    ) {
        if index < count {
            (
                UploadState {
                    attempted: true,
                    phase: UploadPhase::SnapshotUpload { index, count },
                    ..self
                },
                UploadAction::UploadSnapshot { index },
            )
        } else if self.attempted {
            self.next_pass()
        } else {
            self.ended()
        }
    }

    /// The step that an event leads to.
    pub open spec fn stepped(self, event: UploadEvent) -> (UploadState, UploadAction) {
        match (self.phase, event) {
            (UploadPhase::Waiting, UploadEvent::Woken) => (
                UploadState {
                    passes: 1,
                    attempted: false,
                    phase: UploadPhase::Deadline,
                    ..self
                },
                UploadAction::StartBurst,
            ),
            (UploadPhase::Waiting, UploadEvent::Closed) => (
                UploadState { phase: UploadPhase::Ended, ..self },
                UploadAction::End,
            ),
            (UploadPhase::Deadline, UploadEvent::Deadline { generation, next, now }) => {
                let bound = UploadState { generation, ..self };
                if self.gate.open_in(generation) && next is Some && next->0 <= now {
                    (
                        UploadState { phase: UploadPhase::Backend, ..bound },
                        UploadAction::FindBackend,
                    )
                } else {
                    bound.ended()
                }
            },
            (UploadPhase::Backend, UploadEvent::Backend { available }) => if available {
                (UploadState { phase: UploadPhase::Binding, ..self }, UploadAction::BindDevice)
            } else {
                self.ended()
            },
            (UploadPhase::Binding, UploadEvent::Bound) => (
                UploadState {
                    gate: DeviceBindingGate { permanently_blocked_generation: None },
                    phase: UploadPhase::Attribution,
                    ..self
                },
                UploadAction::AttributeSchemas,
            ),
            (UploadPhase::Binding, UploadEvent::BindingFailed { retryable }) => (UploadState {
                gate: DeviceBindingGate {
                    permanently_blocked_generation: if retryable {
                        None
                    } else {
                        Some(self.generation)
                    },
                },
                ..self
            }).ended(),
            (UploadPhase::Attribution, UploadEvent::Attributed { ok }) => if ok {
                (UploadState { phase: UploadPhase::SchemaList, ..self }, UploadAction::ListSchemas)
            } else {
                self.ended()
            },
            (UploadPhase::SchemaList, UploadEvent::Schemas { count }) => match count {
                Some(count) => self.schemas_from(0, count),
                None => self.ended(),
            },
            (
                UploadPhase::SchemaUpload { index, count },
                UploadEvent::SchemaUploaded { verdict },
            ) => (
                UploadState { phase: UploadPhase::SchemaSettle { index, count }, ..self },
                UploadAction::SettleSchema {
                    index,
                    acknowledge: verdict != (SchemaVerdict::Failed { retryable: true }),
                },
            ),
            (
                UploadPhase::SchemaSettle { index, count },
                UploadEvent::Settled,
            ) => self.schemas_from((index + 1) as usize, count),
            (UploadPhase::Identity, UploadEvent::Identity { identity, scope }) => if !identity {
                if self.attempted {
                    self.next_pass()
                } else {
                    self.ended()
                }
            } else if !scope {
                self.ended()
            } else {
                (
                    UploadState { phase: UploadPhase::SnapshotList, ..self },
                    UploadAction::ListSnapshots,
                )
            },
            (UploadPhase::SnapshotList, UploadEvent::Snapshots { count }) => match count {
                Some(count) => self.snapshots_from(0, count),
                None => self.ended(),
            },
            (
                UploadPhase::SnapshotUpload { index, count },
                UploadEvent::SnapshotUploaded { verdict },
            ) => match verdict {
                SnapshotVerdict::OutOfDate { crc_stats } => (
                    UploadState { phase: UploadPhase::SnapshotReopen { index, count }, ..self },
                    UploadAction::ReopenSnapshot { index, crc_stats },
                ),
                SnapshotVerdict::Stored => (
                    UploadState {
                        phase: UploadPhase::SnapshotSettle { index, count, stop: false },
                        ..self
                    },
                    UploadAction::SettleSnapshot { index, acknowledge: true },
                ),
                SnapshotVerdict::Failed { retryable } => (
                    UploadState {
                        phase: UploadPhase::SnapshotSettle { index, count, stop: retryable },
                        ..self
                    },
                    UploadAction::SettleSnapshot { index, acknowledge: !retryable },
                ),
            },
            (
                UploadPhase::SnapshotReopen { index, count },
                UploadEvent::Reopened { reopened },
            ) => if reopened {
                (
                    UploadState {
                        phase: UploadPhase::SnapshotSettle { index, count, stop: false },
                        ..self
                    },
                    UploadAction::RefreshSnapshot { index },
                )
            } else {
                self.snapshots_from((index + 1) as usize, count)
            },
            (
                UploadPhase::SnapshotSettle { index, count, stop },
                UploadEvent::Settled,
            ) => if stop {
                self.snapshots_from(count, count)
            } else {
                self.snapshots_from((index + 1) as usize, count)
            },
            (UploadPhase::NextDeadline, UploadEvent::Deadline { generation, next, now }) => (
                UploadState { phase: UploadPhase::Waiting, ..self },
                UploadAction::Wait {
                    next_attempt_at: if self.gate.open_in(generation) {
                        next
                    } else {
                        None
                    },
                },
            ),
            _ => (self, UploadAction::ReadNextDeadline),
        }
    }

    pub fn new() -> (state: Self)
        ensures
            state.wf(),
            state == (UploadState {
                gate: DeviceBindingGate { permanently_blocked_generation: None },
                generation: 0,
                passes: 0,
                attempted: false,
                phase: UploadPhase::Waiting,
            }),
    {
        UploadState {
            gate: DeviceBindingGate::default(),
            generation: 0,
            passes: 0,
            attempted: false,
            phase: UploadPhase::Waiting,
        }
    }

    fn end_burst(&mut self) -> (action: UploadAction)
        requires
            old(self).wf(),
        ensures
            final(self).wf(),
            (*final(self), action) == old(self).ended(),
    {
        self.phase = UploadPhase::NextDeadline;
        UploadAction::ReadNextDeadline
    }

    fn begin_next_pass(&mut self) -> (action: UploadAction)
        requires
            old(self).wf(),
        ensures
            final(self).wf(),
            (*final(self), action) == old(self).next_pass(),
    {
        if self.passes >= MAX_PASSES {
            return self.end_burst();
        }
        self.passes = self.passes + 1;
        self.attempted = false;
        self.phase = UploadPhase::Deadline;
        UploadAction::ReadDeadline
    }

    fn schema_at(&mut self, index: usize, count: usize) -> (action: UploadAction)
        requires
            old(self).wf(),
        ensures
            final(self).wf(),
            (*final(self), action) == old(self).schemas_from(index, count),
    {
        if index < count {
            self.attempted = true;
            self.phase = UploadPhase::SchemaUpload { index, count };
            UploadAction::UploadSchema { index }
        } else {
            self.phase = UploadPhase::Identity;
            UploadAction::FindIdentity
        }
    }

    fn snapshot_at(&mut self, index: usize, count: usize) -> (action: UploadAction)
        requires
            old(self).wf(),
        ensures
            final(self).wf(),
            (*final(self), action) == old(self).snapshots_from(index, count),
    {
        if index < count {
            self.attempted = true;
            self.phase = UploadPhase::SnapshotUpload { index, count };
            UploadAction::UploadSnapshot { index }
        } else if self.attempted {
            self.begin_next_pass()
        } else {
            self.end_burst()
        }
    }

    /// Takes one step of the upload worker.
    pub fn upload_loop(&mut self, event: UploadEvent) -> (action: UploadAction)
        requires
            old(self).wf(),
            old(self).expects(event),
        ensures
            final(self).wf(),
            (*final(self), action) == old(self).stepped(event),
    {
        match (self.phase, event) {
            (UploadPhase::Waiting, UploadEvent::Woken) => {
                self.passes = 1;
                self.attempted = false;
                self.phase = UploadPhase::Deadline;
                UploadAction::StartBurst
            },
            (UploadPhase::Waiting, UploadEvent::Closed) => {
                self.phase = UploadPhase::Ended;
                UploadAction::End
            },
            (UploadPhase::Deadline, UploadEvent::Deadline { generation, next, now }) => {
                self.generation = generation;
                match self.gate.deadline(generation, next) {
                    Some(deadline) => if deadline <= now {
                        self.phase = UploadPhase::Backend;
                        UploadAction::FindBackend
                    } else {
                        self.end_burst()
                    },
                    None => self.end_burst(),
                }
            },
            (UploadPhase::Backend, UploadEvent::Backend { available }) => if available {
                self.phase = UploadPhase::Binding;
                UploadAction::BindDevice
            } else {
                self.end_burst()
            },
            (UploadPhase::Binding, UploadEvent::Bound) => {
                self.gate.record_success();
                self.phase = UploadPhase::Attribution;
                UploadAction::AttributeSchemas
            },
            (UploadPhase::Binding, UploadEvent::BindingFailed { retryable }) => {
                self.gate.record_failure(self.generation, retryable);
                self.end_burst()
            },
            (UploadPhase::Attribution, UploadEvent::Attributed { ok }) => if ok {
                self.phase = UploadPhase::SchemaList;
                UploadAction::ListSchemas
            } else {
                self.end_burst()
            },
            (UploadPhase::SchemaList, UploadEvent::Schemas { count }) => match count {
                Some(count) => self.schema_at(0, count),
                None => self.end_burst(),
            },
            (
                UploadPhase::SchemaUpload { index, count },
                UploadEvent::SchemaUploaded { verdict },
            ) => {
                self.phase = UploadPhase::SchemaSettle { index, count };
                let acknowledge: bool = match verdict {
                    SchemaVerdict::Failed { retryable } => !retryable,
                    _ => true,
                };
                UploadAction::SettleSchema { index, acknowledge }
            },
            (UploadPhase::SchemaSettle { index, count }, UploadEvent::Settled) => self.schema_at(
                index + 1,
                count,
            ),
            (UploadPhase::Identity, UploadEvent::Identity { identity, scope }) => if !identity {
                if self.attempted {
                    self.begin_next_pass()
                } else {
                    self.end_burst()
                }
            } else if !scope {
                self.end_burst()
            } else {
                self.phase = UploadPhase::SnapshotList;
                UploadAction::ListSnapshots
            },
            (UploadPhase::SnapshotList, UploadEvent::Snapshots { count }) => match count {
                Some(count) => self.snapshot_at(0, count),
                None => self.end_burst(),
            },
            (
                UploadPhase::SnapshotUpload { index, count },
                UploadEvent::SnapshotUploaded { verdict },
            ) => match verdict {
                SnapshotVerdict::OutOfDate { crc_stats } => {
                    self.phase = UploadPhase::SnapshotReopen { index, count };
                    UploadAction::ReopenSnapshot { index, crc_stats }
                },
                SnapshotVerdict::Stored => {
                    self.phase = UploadPhase::SnapshotSettle { index, count, stop: false };
                    UploadAction::SettleSnapshot { index, acknowledge: true }
                },
                SnapshotVerdict::Failed { retryable } => {
                    self.phase = UploadPhase::SnapshotSettle { index, count, stop: retryable };
                    UploadAction::SettleSnapshot { index, acknowledge: !retryable }
                },
            },
            (UploadPhase::SnapshotReopen { index, count }, UploadEvent::Reopened { reopened }) =>
            if reopened {
                self.phase = UploadPhase::SnapshotSettle { index, count, stop: false };
                UploadAction::RefreshSnapshot { index }
            } else {
                self.snapshot_at(index + 1, count)
            },
            (UploadPhase::SnapshotSettle { index, count, stop }, UploadEvent::Settled) => if stop {
                self.snapshot_at(count, count)
            } else {
                self.snapshot_at(index + 1, count)
            },
            (UploadPhase::NextDeadline, UploadEvent::Deadline { generation, next, now: _ }) => {
                self.phase = UploadPhase::Waiting;
                UploadAction::Wait { next_attempt_at: self.gate.deadline(generation, next) }
            },
            _ => UploadAction::ReadNextDeadline,
        }
    }
}

/// A snapshot that the backend refused as out of date is reopened on the backend's checksum;
/// it is neither acknowledged nor deferred, so the committed state is not lost.
pub proof fn law_refused_snapshot_is_kept(
    state: UploadState,
    index: usize,
    count: usize,
    crc_stats: u32,
    reopened: bool,
    acknowledge: bool,
)
    requires
        state.wf(),
        state.phase == (UploadPhase::SnapshotUpload { index, count }),
    ensures
        ({
            let refused = state.stepped(
                UploadEvent::SnapshotUploaded { verdict: SnapshotVerdict::OutOfDate { crc_stats } },
            );
            let settled = refused.0.stepped(UploadEvent::Reopened { reopened });
            &&& refused.1 == (UploadAction::ReopenSnapshot { index, crc_stats })
            &&& settled.1 != (UploadAction::SettleSnapshot { index, acknowledge })
            &&& reopened ==> settled.1 == (UploadAction::RefreshSnapshot { index })
                && settled.0.stepped(UploadEvent::Settled) == settled.0.snapshots_from(
                (index + 1) as usize,
                count,
            )
            &&& !reopened ==> settled == refused.0.snapshots_from((index + 1) as usize, count)
        }),
{
}

/// After a binding that is no use retrying the device is not bound again in the same
/// context, whatever is due; in any other context due work goes ahead.
pub proof fn law_blocked_generation_waits_for_a_change(
    state: UploadState,
    later: UploadState,
    generation: u64,
    next: Option<i64>,
    now: i64,
)
    requires
        state.wf(),
        state.phase is Binding,
        later.gate == state.stepped(UploadEvent::BindingFailed { retryable: false }).0.gate,
        later.phase is Deadline,
    ensures
        later.stepped(UploadEvent::Deadline { generation, next, now }).1 == if generation
            != state.generation && next is Some && next->0 <= now {
            UploadAction::FindBackend
        } else {
            UploadAction::ReadNextDeadline
        },
        (UploadState { phase: UploadPhase::NextDeadline, ..later }).stepped(
            UploadEvent::Deadline { generation, next, now },
        ).1 == (UploadAction::Wait {
            next_attempt_at: if generation != state.generation {
                next
            } else {
                None
            },
        }),
{
}

/// A burst comes to an end: each pass but the last brings it closer to the limit.
pub proof fn law_bursts_are_bounded(state: UploadState)
    requires
        state.wf(),
    ensures
        state.next_pass().0.wf(),
        state.next_pass().1 is ReadDeadline ==> state.next_pass().0.passes == state.passes + 1,
        state.passes == MAX_PASSES ==> state.next_pass() == state.ended(),
{
}

/// The seconds to sleep before a deadline; none where nothing is scheduled.
pub fn upload_delay(next_attempt_at: Option<i64>, now: i64) -> (seconds: Option<u64>)
    ensures
        next_attempt_at is None ==> seconds is None,
        next_attempt_at matches Some(next) ==> seconds == Some(
            if next <= now {
                READY_RETRY_DELAY
            } else if next - now <= i64::MAX {
                (next - now) as u64
            } else {
                i64::MAX as u64
            },
        ),
{
    match next_attempt_at {
        None => None,
        Some(next) => if next <= now {
            Some(READY_RETRY_DELAY)
        } else {
            let wide: i128 = next as i128 - now as i128;
            if wide <= i64::MAX as i128 {
                Some(wide as u64)
            } else {
                Some(i64::MAX as u64)
            }
        },
    }
}

/// The earlier of two deadlines that may be absent.
pub open spec fn earlier(left: Option<i64>, right: Option<i64>) -> Option<i64> {
    match (left, right) {
        (Some(left), Some(right)) => Some(
            if left <= right {
                left
            } else {
                right
            },
        ),
        (Some(left), None) => Some(left),
        (None, right) => right,
    }
}

fn earlier_of(left: Option<i64>, right: Option<i64>) -> (deadline: Option<i64>)
    ensures
        deadline == earlier(left, right),
{
    match (left, right) {
        (Some(left), Some(right)) => if left <= right {
            Some(left)
        } else {
            Some(right)
        },
        (Some(left), None) => Some(left),
        (None, right) => right,
    }
}

/// The next deadline of the journal: schemas of the endpoint and unattributed ones,
/// and snapshots where there is an account. An outer `None` is a read that failed.
pub fn next_achievement_attempt_at(
    backend_available: bool,
    scoped_schemas: Option<Option<i64>>,
    orphaned_schemas: Option<Option<i64>>,
    identity: bool,
    snapshots: Option<Option<i64>>,
) -> (deadline: Option<i64>)
    ensures
        deadline == if !backend_available {
            None
        } else {
            let schema = if scoped_schemas is Some && orphaned_schemas is Some {
                earlier(scoped_schemas->0, orphaned_schemas->0)
            } else {
                None
            };
            let stats = if identity && snapshots is Some {
                snapshots->0
            } else {
                None
            };
            earlier(schema, stats)
        },
{
    if !backend_available {
        return None;
    }
    let schema: Option<i64> = match (scoped_schemas, orphaned_schemas) {
        (Some(scoped), Some(orphaned)) => earlier_of(scoped, orphaned),
        _ => None,
    };
    if !identity {
        return schema;
    }
    let stats: Option<i64> = match snapshots {
        Some(next) => next,
        None => None,
    };
    earlier_of(schema, stats)
}

/// The verdict on one app in an upload's result.
#[derive(Clone, Copy, Debug, PartialEq, Eq, Structural)]
pub struct AppStatsUploadResult {
    pub app_id: u32,
    pub out_of_date: bool,
    pub crc_stats: u32,
}

/// The first refusal of an app, from `from` on.
pub open spec fn refusal_from(
    results: Seq<AppStatsUploadResult>,
    app_id: u32,
    from: int,
) -> Option<AppStatsUploadResult>
    decreases results.len() - from,
{
    if from >= results.len() {
        None
    } else if results[from].app_id == app_id && results[from].out_of_date {
        Some(results[from])
    } else {
        refusal_from(results, app_id, from + 1)
    }
}

/// The backend's verdict for an app when it refused to store the snapshot.
pub fn refused_app_result(app_id: u32, results: &[AppStatsUploadResult]) -> (refused: Option<
    AppStatsUploadResult,
>)
    ensures
        refused == refusal_from(results@, app_id, 0),
{
    let mut i: usize = 0;
    while i < results.len()
        invariant
            i <= results@.len(),
            refusal_from(results@, app_id, 0) == refusal_from(results@, app_id, i as int),
        decreases results@.len() - i,
    {
        if results[i].app_id == app_id && results[i].out_of_date {
            return Some(results[i]);
        }
        i = i + 1;
    }
    None
}

/// The verdict on an uploaded snapshot: refused where its app is, and stored otherwise.
pub fn snapshot_verdict(app_id: u32, results: &[AppStatsUploadResult]) -> (verdict: SnapshotVerdict)
    ensures
        verdict == match refusal_from(results@, app_id, 0) {
            Some(refused) => SnapshotVerdict::OutOfDate { crc_stats: refused.crc_stats },
            None => SnapshotVerdict::Stored,
        },
{
    match refused_app_result(app_id, results) {
        Some(refused) => SnapshotVerdict::OutOfDate { crc_stats: refused.crc_stats },
        None => SnapshotVerdict::Stored,
    }
}

/// The authoritative unlock time of an achievement. A locked one has none: Steam
/// leaves the time of an earlier unlock in place. `unknown` is the protocol's mark for
/// a time that is not known.
pub fn unlocked_at(unlocked: bool, unlock_time: u32, unknown: u32) -> (time: Option<i64>)
    ensures
        time == unlock_time_of(unlocked, unlock_time, unknown),
{
    if !unlocked || unlock_time == 0 || unlock_time == unknown {
        return None;
    }
    Some(unlock_time as i64)
}

/// A decoded request to store stats.
pub struct StoreStatsRequest {
    pub settee_steam_id: Option<u64>,
    pub crc_stats: Option<u32>,
    pub stat_ids: Vec<Option<u32>>,
}

/// The ids that are there, in their order.
pub open spec fn present_ids(ids: Seq<Option<u32>>) -> Seq<u32>
    decreases ids.len(),
{
    if ids.len() == 0 {
        Seq::empty()
    } else {
        let before = present_ids(ids.drop_last());
        match ids.last() {
            Some(id) => before.push(id),
            None => before,
        }
    }
}

/// What a request to store stats commits: the base checksum and the touched stats.
/// Requests of another kind commit nothing of that; one that did not decode, or names
/// another account, is an error.
pub fn decode_store_commit(
    emsg: u32,
    store_emsg: u32,
    request: Option<&StoreStatsRequest>,
    owner_steam_id64: u64,
) -> (commit: Result<(Option<u32>, Vec<u32>), ()>)
    ensures
        emsg != store_emsg ==> commit is Ok && commit->Ok_0.0 is None && commit->Ok_0.1@.len()
            == 0,
        emsg == store_emsg ==> (commit is Ok <==> request is Some && (
        request->0.settee_steam_id is Some ==> request->0.settee_steam_id->0
            == owner_steam_id64)),
        emsg == store_emsg && commit is Ok ==> commit->Ok_0.0 == request->0.crc_stats
            && commit->Ok_0.1@ == present_ids(request->0.stat_ids@),
{
    if emsg != store_emsg {
        return Ok((None, Vec::new()));
    }
    let request: &StoreStatsRequest = match request {
        Some(request) => request,
        None => {
            return Err(());
        },
    };
    if let Some(settee) = request.settee_steam_id {
        if settee != owner_steam_id64 {
            return Err(());
        }
    }
    let mut ids: Vec<u32> = Vec::new();
    let mut i: usize = 0;
    assert(request.stat_ids@.take(0) =~= Seq::empty());
    while i < request.stat_ids.len()
        invariant
            i <= request.stat_ids@.len(),
            ids@ == present_ids(request.stat_ids@.take(i as int)),
        decreases request.stat_ids@.len() - i,
    {
        assert(request.stat_ids@.take(i + 1).drop_last() =~= request.stat_ids@.take(i as int));
        if let Some(id) = request.stat_ids[i] {
            ids.push(id);
        }
        i = i + 1;
    }
    assert(request.stat_ids@.take(i as int) =~= request.stat_ids@);
    Ok((request.crc_stats, ids))
}

/// How the persistence of a commit ended.
#[derive(Clone, Copy, Debug, PartialEq, Eq, Structural)]
pub enum StoreCommitPersistence {
    Persisted,
    Stale,
    InvalidRequest,
    Failed,
}

/// A commit of stats that Steam was asked to store.
pub struct StatsCommit {
    pub owner_scope: String,
    pub owner_steam_id64: String,
    pub commit_id: String,
    pub app_id: u32,
    pub base_crc_stats: Option<u32>,
    pub dirty_stat_ids: Vec<u32>,
    pub observed_at: i64,
}

/// Whose stats are committed, and whether that account is still the current one.
pub struct StatsOwner {
    pub is_current: bool,
    pub principal_scope: String,
    pub steam_id64: u64,
}

/// The touched stats, ascending and each once.
fn distinct_ids(ids: &Vec<u32>) -> (distinct: Vec<u32>)
    ensures
        ascends(distinct@),
        forall|id: u32| #[trigger] distinct@.contains(id) <==> ids@.contains(id),
{
    let mut distinct: Vec<u32> = Vec::new();
    let mut i: usize = 0;
    while i < ids.len()
        invariant
            i <= ids@.len(),
            ascends(distinct@),
            forall|id: u32| #[trigger]
                distinct@.contains(id) <==> ids@.take(i as int).contains(id),
        decreases ids@.len() - i,
    {
        insert_ascending(&mut distinct, ids[i]);
        proof {
            let now = ids@.take(i as int);
            let next = ids@.take(i + 1);
            assert forall|id: u32| #[trigger]
                next.contains(id) <==> now.contains(id) || id == ids@[i as int] by {
                if now.contains(id) {
                    let k = choose|k: int| 0 <= k < now.len() && now[k] == id;
                    assert(next[k] == id);
                }
                if next.contains(id) {
                    let k = choose|k: int| 0 <= k < next.len() && next[k] == id;
                    if k < i {
                        assert(now[k] == id);
                    }
                }
                assert(next[i as int] == ids@[i as int]);
            }
        }
        i = i + 1;
    }
    assert(ids@.take(i as int) =~= ids@);
    distinct
}

/// Whether a request can be committed for an account.
pub open spec fn request_is_valid(
    emsg: u32,
    store_emsg: u32,
    request: Option<&StoreStatsRequest>,
    steam_id64: u64,
) -> bool {
    emsg != store_emsg || (request is Some && (request->0.settee_steam_id is Some
        ==> request->0.settee_steam_id->0 == steam_id64))
}

/// The stats that a request touches.
pub open spec fn touched_ids(
    emsg: u32,
    store_emsg: u32,
    request: Option<&StoreStatsRequest>,
) -> Seq<u32> {
    if emsg == store_emsg {
        present_ids(request->0.stat_ids@)
    } else {
        Seq::empty()
    }
}

/// Prepares a commit of the account that is current: refused for another account's
/// moment, for a request that is not valid, and without a journal. The commit's id and the
/// time are the caller's.
pub fn persist_store_commit(
    app_id: u32,
    emsg: u32,
    store_emsg: u32,
    request: Option<&StoreStatsRequest>,
    owner: &StatsOwner,
    journal_available: bool,
    commit_id: String,
    observed_at: i64,
) -> (commit: Result<StatsCommit, StoreCommitPersistence>)
    ensures
        commit is Ok <==> owner.is_current && request_is_valid(
            emsg,
            store_emsg,
            request,
            owner.steam_id64,
        ) && journal_available,
        commit is Err ==> commit->Err_0 == if !owner.is_current {
            StoreCommitPersistence::Stale
        } else if !request_is_valid(emsg, store_emsg, request, owner.steam_id64) {
            StoreCommitPersistence::InvalidRequest
        } else {
            StoreCommitPersistence::Failed
        },
        commit matches Ok(commit) ==> {
            &&& commit.owner_scope@ == owner.principal_scope@
            &&& commit.owner_steam_id64@ == decimal_of(owner.steam_id64 as nat)
            &&& commit.commit_id == commit_id
            &&& commit.app_id == app_id
            &&& commit.base_crc_stats == if emsg == store_emsg {
                request->0.crc_stats
            } else {
                None
            }
            &&& ascends(commit.dirty_stat_ids@)
            &&& forall|id: u32| #[trigger]
                commit.dirty_stat_ids@.contains(id) <==> touched_ids(
                    emsg,
                    store_emsg,
                    request,
                ).contains(id)
            &&& commit.observed_at == observed_at
        },
{
    if !owner.is_current {
        return Err(StoreCommitPersistence::Stale);
    }
    match decode_store_commit(emsg, store_emsg, request, owner.steam_id64) {
        Err(_) => Err(StoreCommitPersistence::InvalidRequest),
        Ok((base_crc_stats, ids)) => {
            if !journal_available {
                return Err(StoreCommitPersistence::Failed);
            }
            assert(ids@ =~= touched_ids(emsg, store_emsg, request));
            Ok(
                StatsCommit {
                    owner_scope: owner.principal_scope.clone(),
                    owner_steam_id64: decimal(owner.steam_id64),
                    commit_id,
                    app_id,
                    base_crc_stats,
                    dirty_stat_ids: distinct_ids(&ids),
                    observed_at,
                },
            )
        },
    }
}

/// Settles a prepared commit once it was offered to the journal.
pub fn finish_store_commit(
    owner_is_current: bool,
    intent_available: bool,
    enqueued: bool,
) -> (outcome: StoreCommitPersistence)
    ensures
        outcome == if !owner_is_current {
            StoreCommitPersistence::Stale
        } else if !intent_available || !enqueued {
            StoreCommitPersistence::Failed
        } else {
            StoreCommitPersistence::Persisted
        },
{
    if !owner_is_current {
        return StoreCommitPersistence::Stale;
    }
    if !intent_available || !enqueued {
        return StoreCommitPersistence::Failed;
    }
    StoreCommitPersistence::Persisted
}

/// One achievement as Steam holds it.
pub struct AchievementState {
    pub key: String,
    pub unlocked: bool,
    pub unlock_time: u32,
}

/// One achievement as it is uploaded.
pub struct OfficialAchievementState {
    pub key: String,
    pub unlocked: bool,
    pub unlocked_at: Option<i64>,
}

/// The authoritative time of an unlock, if there is one.
pub open spec fn unlock_time_of(unlocked: bool, unlock_time: u32, unknown: u32) -> Option<i64> {
    if !unlocked || unlock_time == 0 || unlock_time == unknown {
        None
    } else {
        Some(unlock_time as i64)
    }
}

/// Whether a row is the uploaded form of Steam's achievements, in their order.
pub open spec fn are_official(
    official: Seq<OfficialAchievementState>,
    states: Seq<AchievementState>,
    unknown: u32,
) -> bool {
    &&& official.len() == states.len()
    &&& forall|i: int|
        0 <= i < official.len() ==> {
            let one = #[trigger] official[i];
            &&& one.key@ == states[i].key@
            &&& one.unlocked == states[i].unlocked
            &&& one.unlocked_at == unlock_time_of(
                states[i].unlocked,
                states[i].unlock_time,
                unknown,
            )
        }
}

/// The uploaded form of Steam's achievements.
pub fn official_achievements(states: &[AchievementState], unknown: u32) -> (official: Vec<
    OfficialAchievementState,
>)
    ensures
        are_official(official@, states@, unknown),
{
    let mut official: Vec<OfficialAchievementState> = Vec::new();
    let mut i: usize = 0;
    while i < states.len()
        invariant
            i <= states@.len(),
            are_official(official@, states@.take(i as int), unknown),
        decreases states@.len() - i,
    {
        let state: &AchievementState = &states[i];
        official.push(
            OfficialAchievementState {
                key: state.key.clone(),
                unlocked: state.unlocked,
                unlocked_at: unlocked_at(state.unlocked, state.unlock_time, unknown),
            },
        );
        i = i + 1;
    }
    assert(states@.take(i as int) =~= states@);
    official
}

/// A snapshot as it is uploaded, under the commit that it answers.
pub struct SteamAppSnapshot {
    pub owner_scope: String,
    pub owner_steam_id64: String,
    pub commit_id: String,
    pub app_id: u32,
    pub base_crc_stats: Option<u32>,
    pub dirty_stat_ids: Vec<u32>,
    pub achievements: Vec<OfficialAchievementState>,
    pub stats: Vec<StatState>,
    pub observed_at: i64,
}

/// Whether a snapshot carries what a commit names.
pub open spec fn carries(official: SteamAppSnapshot, commit: StatsCommit) -> bool {
    &&& official.owner_scope@ == commit.owner_scope@
    &&& official.owner_steam_id64@ == commit.owner_steam_id64@
    &&& official.commit_id@ == commit.commit_id@
    &&& official.app_id == commit.app_id
    &&& official.base_crc_stats == commit.base_crc_stats
    &&& official.dirty_stat_ids@ == commit.dirty_stat_ids@
}

/// The snapshot to write for a commit. One for another app or another moment, and one of an
/// app that is Steam's own to sync, is dropped: `Err(true)` says that it need not be read
/// again. Without a journal it has to come again.
pub fn queue_official_snapshot(
    snapshot: AchievementSnapshot,
    commit: &StatsCommit,
    guard_is_current: bool,
    is_controlled: bool,
    journal_available: bool,
    unknown: u32,
    observed_at: i64,
) -> (admission: Result<SteamAppSnapshot, bool>)
    ensures
        admission is Ok <==> commit.app_id == snapshot.app_id && guard_is_current && is_controlled
            && journal_available,
        admission is Err ==> admission->Err_0 == (commit.app_id != snapshot.app_id
            || !guard_is_current || !is_controlled),
        admission matches Ok(official) ==> {
            &&& carries(official, *commit)
            &&& are_official(official.achievements@, snapshot.achievements@, unknown)
            &&& official.stats == snapshot.stats
            &&& official.observed_at == observed_at
        },
{
    if commit.app_id != snapshot.app_id || !guard_is_current {
        return Err(true);
    }
    if !is_controlled {
        return Err(true);
    }
    if !journal_available {
        return Err(false);
    }
    let achievements: Vec<OfficialAchievementState> = official_achievements(
        snapshot.achievements.as_slice(),
        unknown,
    );
    let dirty_stat_ids: Vec<u32> = commit.dirty_stat_ids.clone();
    assert(dirty_stat_ids@ =~= commit.dirty_stat_ids@);
    Ok(
        SteamAppSnapshot {
            owner_scope: commit.owner_scope.clone(),
            owner_steam_id64: commit.owner_steam_id64.clone(),
            commit_id: commit.commit_id.clone(),
            app_id: snapshot.app_id,
            base_crc_stats: commit.base_crc_stats,
            dirty_stat_ids,
            achievements,
            stats: snapshot.stats,
            observed_at,
        },
    )
}

/// Settles a snapshot once the journal has answered; `None` is a failed write.
pub fn finish_official_snapshot(guard_is_current: bool, completed: Option<bool>) -> (settled: bool)
    ensures
        settled == (!guard_is_current || completed is Some),
{
    if !guard_is_current {
        return true;
    }
    completed.is_some()
}

/// The commits that are there, in their order.
pub open spec fn present_commits(markers: Seq<Option<StatsCommit>>) -> Seq<StatsCommit>
    decreases markers.len(),
{
    if markers.len() == 0 {
        Seq::empty()
    } else {
        let before = present_commits(markers.drop_last());
        match markers.last() {
            Some(marker) => before.push(marker),
            None => before,
        }
    }
}

/// The commits that wait for a snapshot: none where the journal could not list their apps,
/// or where the account changed at any of the three looks at it. `markers` holds what the
/// journal has for each listed app; an app whose commit could not be read, or is gone, has
/// none.
pub fn stats_awaiting_snapshot(
    current_at_start: bool,
    current_after_list: bool,
    current_at_end: bool,
    markers: Option<Vec<Option<StatsCommit>>>,
) -> (waiting: Vec<StatsCommit>)
    ensures
        waiting@ == if current_at_start && current_after_list && current_at_end && markers is Some {
            present_commits(markers->0@)
        } else {
            Seq::empty()
        },
{
    let mut waiting: Vec<StatsCommit> = Vec::new();
    if !current_at_start || !current_after_list || !current_at_end {
        return waiting;
    }
    let markers: Vec<Option<StatsCommit>> = match markers {
        Some(markers) => markers,
        None => {
            return waiting;
        },
    };
    let ghost all = markers@;
    assert(all.take(0) =~= Seq::empty());
    for marker in row: markers
        invariant
            row.seq() == all,
            waiting@ == present_commits(all.take(row.index() as int)),
    {
        proof {
            assert(all.take(row.index() + 1).drop_last() =~= all.take(row.index() as int));
        }
        if let Some(commit) = marker {
            waiting.push(commit);
        }
    }
    assert(all.take(all.len() as int) =~= all);
    waiting
}

/// Whether stats of an app wait: unknown counts as waiting, no worker as not.
pub fn has_pending_stats(worker_running: bool, journal_answer: Option<bool>) -> (pending: bool)
    ensures
        pending == (worker_running && (journal_answer is Some ==> journal_answer->0)),
{
    worker_running && match journal_answer {
        Some(answer) => answer,
        None => true,
    }
}

/// Whether Steam's stats are read anew after a refused upload: the account is the
/// snapshot's, and the reopened commit is the one that was refused.
pub fn refresh_is_due(
    owner_scope: Option<&str>,
    owner_steam_id64: u64,
    snapshot_scope: &str,
    snapshot_steam_id64: &str,
    marker_commit: Option<&str>,
    snapshot_commit: &str,
) -> (due: bool)
    ensures
        due == (owner_scope is Some && owner_scope->0@ == snapshot_scope@ && decimal_of(
            owner_steam_id64 as nat,
        ) == snapshot_steam_id64@ && marker_commit is Some && marker_commit->0@
            == snapshot_commit@),
{
    let scope_matches: bool = match owner_scope {
        Some(scope) => text_eq(scope, snapshot_scope),
        None => false,
    };
    if !scope_matches || !text_eq(decimal(owner_steam_id64).as_str(), snapshot_steam_id64) {
        return false;
    }
    match marker_commit {
        Some(commit) => text_eq(commit, snapshot_commit),
        None => false,
    }
}

/// A schema that waits for upload.
pub struct AchievementSchema {
    pub owner_scope: String,
    pub app_id: u32,
    pub language: String,
    pub schema_version: Option<String>,
    pub content: Vec<u8>,
}

/// What is known of the backend that schemas go to.
pub struct SchemaBackend {
    pub accepts_schemas: bool,
    pub endpoint_scope: String,
}

/// The schema to persist: none without content, without a journal, or for a backend
/// that takes no schemas. Without a backend it stays unattributed.
pub fn queue_schema(
    app_id: u32,
    schema_version: Option<String>,
    content: Vec<u8>,
    backend: Option<&SchemaBackend>,
    journal_available: bool,
) -> (schema: Option<AchievementSchema>)
    ensures
        schema is Some <==> content@.len() > 0 && journal_available && (backend is Some
            ==> backend->0.accepts_schemas),
        schema is Some ==> {
            &&& schema->0.owner_scope@ == match backend {
                Some(backend) => backend.endpoint_scope@,
                None => Seq::<char>::empty(),
            }
            &&& schema->0.app_id == app_id
            &&& schema->0.language@ == "english"@
            &&& schema->0.schema_version == schema_version
            &&& schema->0.content == content
        },
{
    if content.len() == 0 {
        return None;
    }
    let owner_scope: String = match backend {
        Some(backend) => {
            if !backend.accepts_schemas {
                return None;
            }
            backend.endpoint_scope.clone()
        },
        None => String::new(),
    };
    if !journal_available {
        return None;
    }
    Some(
        AchievementSchema {
            owner_scope,
            app_id,
            language: "english".to_owned(),
            schema_version,
            content,
        },
    )
}

/// The device that uploads.
pub struct DeviceDescriptor {
    pub client_id: u64,
    pub machine_name: String,
    pub os_type: i32,
    pub device_type: i32,
}

/// Who uploads, and for whom.
pub struct UploadIdentity {
    pub client_id: u64,
    pub machine_name: String,
    pub os_type: i32,
    pub device_type: i32,
    pub steam_id64: String,
    pub persona_name: Option<String>,
}

/// The identity of an upload: it needs an account and a device.
pub fn upload_identity(steam_id: u64, device: Option<DeviceDescriptor>) -> (identity: Option<
    UploadIdentity,
>)
    ensures
        identity is Some <==> steam_id != 0 && device is Some,
        identity matches Some(identity) ==> {
            &&& identity.client_id == device->0.client_id
            &&& identity.machine_name == device->0.machine_name
            &&& identity.os_type == device->0.os_type
            &&& identity.device_type == device->0.device_type
            &&& identity.steam_id64@ == decimal_of(steam_id as nat)
            &&& identity.persona_name is None
        },
{
    if steam_id == 0 {
        return None;
    }
    match device {
        Some(device) => Some(
            UploadIdentity {
                client_id: device.client_id,
                machine_name: device.machine_name,
                os_type: device.os_type,
                device_type: device.device_type,
                steam_id64: decimal(steam_id),
                persona_name: None,
            },
        ),
        None => None,
    }
}

/// An upload is settled by the backend's verdict. A schema stays for another attempt exactly
/// where its failure may pass; a stored snapshot is acknowledged, one whose failure may pass
/// stays and ends the pass, and one whose failure is final is given up.
pub proof fn law_verdicts_settle_uploads(
    state: UploadState,
    index: usize,
    count: usize,
    retryable: bool,
)
    requires
        index < count,
    ensures
        ({
            let schema = UploadState { phase: UploadPhase::SchemaUpload { index, count }, ..state };
            let told = |verdict: SchemaVerdict|
                schema.stepped(UploadEvent::SchemaUploaded { verdict }).1;
            &&& told(SchemaVerdict::Accepted) == (UploadAction::SettleSchema {
                index,
                acknowledge: true,
            })
            &&& told(SchemaVerdict::Declined) == (UploadAction::SettleSchema {
                index,
                acknowledge: true,
            })
            &&& told(SchemaVerdict::Failed { retryable }) == (UploadAction::SettleSchema {
                index,
                acknowledge: !retryable,
            })
        }),
        ({
            let snapshot = UploadState {
                phase: UploadPhase::SnapshotUpload { index, count },
                ..state
            };
            let stored = snapshot.stepped(
                UploadEvent::SnapshotUploaded { verdict: SnapshotVerdict::Stored },
            );
            let failed = snapshot.stepped(
                UploadEvent::SnapshotUploaded { verdict: SnapshotVerdict::Failed { retryable } },
            );
            &&& stored.1 == (UploadAction::SettleSnapshot { index, acknowledge: true })
            &&& index + 1 < count ==> stored.0.stepped(UploadEvent::Settled).1 == (
            UploadAction::UploadSnapshot { index: (index + 1) as usize })
            &&& failed.1 == (UploadAction::SettleSnapshot { index, acknowledge: !retryable })
            &&& retryable ==> !(failed.0.stepped(UploadEvent::Settled).1 is UploadSnapshot)
            &&& !retryable && index + 1 < count ==> failed.0.stepped(UploadEvent::Settled).1 == (
            UploadAction::UploadSnapshot { index: (index + 1) as usize })
        }),
{
}

/// Everything that is due is uploaded: each schema in its order and then each snapshot in its
/// order, none left out and none twice, and behind the last schema the account is looked up.
pub proof fn law_due_uploads_are_all_made(
    state: UploadState,
    index: usize,
    count: usize,
    verdict: SchemaVerdict,
)
    requires
        index < count,
    ensures
        ({
            let listed = UploadState { phase: UploadPhase::SchemaList, ..state };
            let first = listed.stepped(UploadEvent::Schemas { count: Some(count) });
            let none = listed.stepped(UploadEvent::Schemas { count: Some(0) });
            let at = UploadState { phase: UploadPhase::SchemaUpload { index, count }, ..state };
            let next = at.stepped(UploadEvent::SchemaUploaded { verdict }).0.stepped(
                UploadEvent::Settled,
            );
            &&& first.1 == (UploadAction::UploadSchema { index: 0 })
            &&& first.0.phase == (UploadPhase::SchemaUpload { index: 0, count })
            &&& first.0.attempted
            &&& none.1 is FindIdentity
            &&& index + 1 < count ==> next.1 == (UploadAction::UploadSchema {
                index: (index + 1) as usize,
            }) && next.0.phase == (UploadPhase::SchemaUpload {
                index: (index + 1) as usize,
                count,
            })
            &&& index + 1 == count ==> next.1 is FindIdentity && next.0.phase is Identity
        }),
        ({
            let listed = UploadState { phase: UploadPhase::SnapshotList, ..state };
            let first = listed.stepped(UploadEvent::Snapshots { count: Some(count) });
            let at = UploadState { phase: UploadPhase::SnapshotUpload { index, count }, ..state };
            let next = at.stepped(
                UploadEvent::SnapshotUploaded { verdict: SnapshotVerdict::Stored },
            ).0.stepped(UploadEvent::Settled);
            &&& first.1 == (UploadAction::UploadSnapshot { index: 0 })
            &&& first.0.phase == (UploadPhase::SnapshotUpload { index: 0, count })
            &&& first.0.attempted
            &&& index + 1 < count ==> next.1 == (UploadAction::UploadSnapshot {
                index: (index + 1) as usize,
            }) && next.0.phase == (UploadPhase::SnapshotUpload {
                index: (index + 1) as usize,
                count,
            })
        }),
{
}

/// Work that is due goes all the way: with a backend, a device that could be bound, and an
/// account, a burst comes from its deadline to the lists of schemas and snapshots, and what
/// fails on the way ends it without an upload. A pass that uploaded something is followed by
/// another, at most nine times in a burst; one that did not is the last.
pub proof fn law_due_work_goes_ahead(state: UploadState, generation: u64, due: i64, now: i64)
    requires
        state.wf(),
        due <= now,
        state.gate.permanently_blocked_generation != Some(generation),
    ensures
        ({
            let woken = (UploadState { phase: UploadPhase::Waiting, ..state }).stepped(
                UploadEvent::Woken,
            );
            let started = woken.0.stepped(
                UploadEvent::Deadline { generation, next: Some(due), now },
            );
            let found = started.0.stepped(UploadEvent::Backend { available: true });
            let bound = found.0.stepped(UploadEvent::Bound);
            let attributed = bound.0.stepped(UploadEvent::Attributed { ok: true });
            let listed = attributed.0.stepped(UploadEvent::Schemas { count: Some(0) });
            let known = listed.0.stepped(UploadEvent::Identity { identity: true, scope: true });
            &&& woken.1 is StartBurst && woken.0.passes == 1
            &&& started.1 is FindBackend
            &&& found.1 is BindDevice
            &&& bound.1 is AttributeSchemas
            &&& attributed.1 is ListSchemas
            &&& listed.1 is FindIdentity
            &&& known.1 is ListSnapshots
            &&& woken.0.stepped(UploadEvent::Deadline { generation, next: None, now }).1
                is ReadNextDeadline
            &&& started.0.stepped(UploadEvent::Backend { available: false }).1 is ReadNextDeadline
            &&& bound.0.stepped(UploadEvent::Attributed { ok: false }).1 is ReadNextDeadline
            &&& attributed.0.stepped(UploadEvent::Schemas { count: None }).1 is ReadNextDeadline
            &&& listed.0.stepped(UploadEvent::Identity { identity: true, scope: false }).1
                is ReadNextDeadline
            &&& known.0.stepped(UploadEvent::Snapshots { count: None }).1 is ReadNextDeadline
            &&& known.0.stepped(UploadEvent::Snapshots { count: Some(0) }).1 is ReadNextDeadline
        }),
        ({
            let pass = UploadState {
                phase: UploadPhase::SnapshotSettle { index: 0, count: 1, stop: false },
                ..state
            };
            let after = pass.stepped(UploadEvent::Settled);
            &&& state.attempted && state.passes < 10 ==> after.1 is ReadDeadline && after.0.passes
                == state.passes + 1 && !after.0.attempted
            &&& !state.attempted || state.passes == 10 ==> after.1 is ReadNextDeadline
        }),
{
}

/// The backend's verdict on a snapshot is its verdict on the app: refused exactly where some
/// result refuses that app, and then with the checksum of the first such result.
pub proof fn law_refusals_are_found(
    app_id: u32,
    results: &[AppStatsUploadResult],
    verdict: SnapshotVerdict,
)
    requires
        call_ensures(snapshot_verdict, (app_id, results), verdict),
    ensures
        verdict is Stored || verdict is OutOfDate,
        verdict is OutOfDate <==> exists|i: int|
            0 <= i < results@.len() && (#[trigger] results@[i]).app_id == app_id
                && results@[i].out_of_date,
        forall|i: int|
            0 <= i < results@.len() && (#[trigger] results@[i]).app_id == app_id
                && results@[i].out_of_date && (forall|k: int|
                0 <= k < i ==> !((#[trigger] results@[k]).app_id == app_id
                    && results@[k].out_of_date)) ==> verdict == (SnapshotVerdict::OutOfDate {
                crc_stats: results@[i].crc_stats,
            }),
{
    lemma_refusal_from(results@, app_id, 0);
    if let Some(refused) = refusal_from(results@, app_id, 0) {
        let k = choose|k: int|
            0 <= k < results@.len() && #[trigger] results@[k] == refused && results@[k].app_id
                == app_id && results@[k].out_of_date && forall|j: int|
                0 <= j < k ==> !((#[trigger] results@[j]).app_id == app_id
                    && results@[j].out_of_date);
        assert(results@[k].app_id == app_id);
        assert forall|i: int|
            0 <= i < results@.len() && (#[trigger] results@[i]).app_id == app_id
                && results@[i].out_of_date && (forall|j: int|
                0 <= j < i ==> !((#[trigger] results@[j]).app_id == app_id
                    && results@[j].out_of_date)) implies verdict == (SnapshotVerdict::OutOfDate {
            crc_stats: results@[i].crc_stats,
        }) by {
            if i < k {
                assert(!(results@[i].app_id == app_id && results@[i].out_of_date));
            } else if k < i {
                assert(!(results@[k].app_id == app_id && results@[k].out_of_date));
            }
        }
    }
}

proof fn lemma_refusal_from(results: Seq<AppStatsUploadResult>, app_id: u32, from: int)
    requires
        0 <= from <= results.len(),
    ensures
        refusal_from(results, app_id, from) is None ==> forall|i: int|
            from <= i < results.len() ==> !((#[trigger] results[i]).app_id == app_id
                && results[i].out_of_date),
        refusal_from(results, app_id, from) matches Some(refused) ==> exists|k: int|
            from <= k < results.len() && #[trigger] results[k] == refused && results[k].app_id
                == app_id && results[k].out_of_date && forall|j: int|
                from <= j < k ==> !((#[trigger] results[j]).app_id == app_id
                    && results[j].out_of_date),
    decreases results.len() - from,
{
    if from < results.len() {
        if results[from].app_id == app_id && results[from].out_of_date {
            assert(results[from] == refusal_from(results, app_id, from)->0);
        } else {
            lemma_refusal_from(results, app_id, from + 1);
            if let Some(refused) = refusal_from(results, app_id, from + 1) {
                let k = choose|k: int|
                    from + 1 <= k < results.len() && #[trigger] results[k] == refused
                        && results[k].app_id == app_id && results[k].out_of_date && forall|j: int|
                        from + 1 <= j < k ==> !((#[trigger] results[j]).app_id == app_id
                            && results[j].out_of_date);
                assert(results[k] == refused);
            }
        }
    }
}

/// The ids that are there are those of the row, in their order.
pub proof fn law_present_ids_are_those_of_the_row(ids: Seq<Option<u32>>)
    ensures
        present_ids(ids).len() == ids.filter(|id: Option<u32>| id is Some).len(),
        forall|i: int|
            0 <= i < present_ids(ids).len() ==> Some(#[trigger] present_ids(ids)[i]) == ids.filter(
                |id: Option<u32>| id is Some,
            )[i],
        forall|id: u32| #[trigger]
            present_ids(ids).contains(id) <==> ids.contains(Some(id)),
    decreases ids.len(),
{
    reveal(Seq::filter);
    if ids.len() > 0 {
        let rest = ids.drop_last();
        law_present_ids_are_those_of_the_row(rest);
        let before = present_ids(rest);
        let after = present_ids(ids);
        assert forall|id: u32| #[trigger] after.contains(id) <==> ids.contains(Some(id)) by {
            assert(before.contains(id) <==> rest.contains(Some(id)));
            if rest.contains(Some(id)) {
                let k = choose|k: int| 0 <= k < rest.len() && rest[k] == Some(id);
                assert(ids[k] == Some(id));
                let j = choose|j: int| 0 <= j < before.len() && before[j] == id;
                assert(after[j] == id);
            }
            if ids.contains(Some(id)) {
                let k = choose|k: int| 0 <= k < ids.len() && ids[k] == Some(id);
                if k < rest.len() {
                    assert(rest[k] == Some(id));
                } else {
                    assert(after[before.len() as int] == id);
                }
            }
            if after.contains(id) {
                let j = choose|j: int| 0 <= j < after.len() && after[j] == id;
                if j < before.len() {
                    assert(before[j] == id);
                } else {
                    assert(ids[ids.len() - 1] == Some(id));
                }
            }
        }
    }
}

/// A commit names the stats that its request touches, each once and ascending, the checksum
/// of the request, and the account whose request it is; a request of another kind touches
/// nothing. One comes about exactly for the account of the moment, for a request that decoded
/// and names no other account, and with a journal.
pub proof fn law_commits_name_what_requests_touch(
    app_id: u32,
    emsg: u32,
    store_emsg: u32,
    request: Option<&StoreStatsRequest>,
    owner: &StatsOwner,
    journal_available: bool,
    commit_id: String,
    observed_at: i64,
    commit: Result<StatsCommit, StoreCommitPersistence>,
)
    requires
        call_ensures(
            persist_store_commit,
            (
                app_id,
                emsg,
                store_emsg,
                request,
                owner,
                journal_available,
                commit_id,
                observed_at,
            ),
            commit,
        ),
    ensures
        commit is Ok <==> owner.is_current && journal_available && (emsg == store_emsg ==> match request {
            Some(request) => request.settee_steam_id is None || request.settee_steam_id
                == Some(owner.steam_id64),
            None => false,
        }),
        commit matches Ok(commit) ==> {
            &&& commit.app_id == app_id
            &&& commit.owner_scope@ == owner.principal_scope@
            &&& commit.owner_steam_id64@ == decimal_of(owner.steam_id64 as nat)
            &&& commit.commit_id@ == commit_id@
            &&& commit.observed_at == observed_at
            &&& forall|i: int, j: int|
                0 <= i < j < commit.dirty_stat_ids@.len() ==> commit.dirty_stat_ids@[i]
                    < commit.dirty_stat_ids@[j]
            &&& forall|id: u32| #[trigger]
                commit.dirty_stat_ids@.contains(id) <==> emsg == store_emsg
                    && request->0.stat_ids@.contains(Some(id))
            &&& commit.base_crc_stats == if emsg == store_emsg {
                request->0.crc_stats
            } else {
                None
            }
        },
{
    if let Some(request) = request {
        law_present_ids_are_those_of_the_row(request.stat_ids@);
    }
    if let Ok(commit) = commit {
        assert forall|id: u32| #[trigger]
            commit.dirty_stat_ids@.contains(id) <==> emsg == store_emsg
                && request->0.stat_ids@.contains(Some(id)) by {
            assert(commit.dirty_stat_ids@.contains(id) <==> touched_ids(
                emsg,
                store_emsg,
                request,
            ).contains(id));
        }
    }
}

/// What is uploaded for a commit is Steam's snapshot under the names of the commit: every
/// achievement with its key and its flag, an unlocked one with its time where the time is
/// known, a locked one without any; and the stats as they were read.
pub proof fn law_uploads_carry_the_snapshot(
    snapshot: AchievementSnapshot,
    commit: &StatsCommit,
    guard_is_current: bool,
    is_controlled: bool,
    journal_available: bool,
    unknown: u32,
    observed_at: i64,
    admission: Result<SteamAppSnapshot, bool>,
)
    requires
        call_ensures(
            queue_official_snapshot,
            (
                snapshot,
                commit,
                guard_is_current,
                is_controlled,
                journal_available,
                unknown,
                observed_at,
            ),
            admission,
        ),
    ensures
        admission is Ok <==> commit.app_id == snapshot.app_id && guard_is_current && is_controlled
            && journal_available,
        admission matches Ok(official) ==> {
            &&& official.app_id == snapshot.app_id
            &&& official.owner_scope@ == commit.owner_scope@
            &&& official.owner_steam_id64@ == commit.owner_steam_id64@
            &&& official.commit_id@ == commit.commit_id@
            &&& official.base_crc_stats == commit.base_crc_stats
            &&& official.dirty_stat_ids@ == commit.dirty_stat_ids@
            &&& official.stats@ == snapshot.stats@
            &&& official.observed_at == observed_at
            &&& official.achievements@.len() == snapshot.achievements@.len()
            &&& forall|i: int|
                0 <= i < official.achievements@.len() ==> {
                    let one = #[trigger] official.achievements@[i];
                    let state = snapshot.achievements@[i];
                    &&& one.key@ == state.key@
                    &&& one.unlocked == state.unlocked
                    &&& !state.unlocked ==> one.unlocked_at is None
                    &&& state.unlock_time == 0 || state.unlock_time == unknown
                        ==> one.unlocked_at is None
                    &&& state.unlocked && state.unlock_time != 0 && state.unlock_time != unknown
                        ==> (one.unlocked_at matches Some(time) && time == state.unlock_time)
                }
        },
{
}

/// The commits that wait are those that are there, in their order, as long as the account
/// stays the same; nothing waits otherwise.
pub proof fn law_waiting_commits_are_all_there(markers: Seq<Option<StatsCommit>>)
    ensures
        present_commits(markers).len() == markers.filter(
            |marker: Option<StatsCommit>| marker is Some,
        ).len(),
        forall|i: int|
            0 <= i < present_commits(markers).len() ==> Some(
                #[trigger] present_commits(markers)[i],
            ) == markers.filter(|marker: Option<StatsCommit>| marker is Some)[i],
    decreases markers.len(),
{
    reveal(Seq::filter);
    if markers.len() > 0 {
        law_waiting_commits_are_all_there(markers.drop_last());
    }
}

/// The next attempt is the earliest one that is due: no deadline that counts is before it,
/// and it is one of them.
pub proof fn law_next_attempt_is_the_earliest(
    scoped: Option<i64>,
    orphaned: Option<i64>,
    identity: bool,
    snapshots: Option<i64>,
    deadline: Option<i64>,
)
    requires
        call_ensures(
            next_achievement_attempt_at,
            (true, Some(scoped), Some(orphaned), identity, Some(snapshots)),
            deadline,
        ),
    ensures
        deadline is None <==> scoped is None && orphaned is None && (identity
            ==> snapshots is None),
        deadline matches Some(next) ==> {
            &&& scoped is Some ==> next <= scoped->0
            &&& orphaned is Some ==> next <= orphaned->0
            &&& identity && snapshots is Some ==> next <= snapshots->0
            &&& scoped == Some(next) || orphaned == Some(next) || (identity && snapshots
                == Some(next))
        },
{
}

} // verus!
