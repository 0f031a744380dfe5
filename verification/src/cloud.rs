//! Switching Steam's cloud off for controlled apps, and back on.
use vstd::prelude::*;

verus! {

/// What the per-app gate does.
#[derive(Clone, Copy, Debug, PartialEq, Eq, Structural)]
pub struct CloudGate {
    /// The switch that is written, if any.
    pub write: Option<bool>,
    /// Whether the app counts as restored from now on.
    pub restores: bool,
    /// What Steam is taken to have answered.
    pub answer: bool,
}

/// Decides at the per-app gate. An app to be switched off is written the first time, and
/// again whenever Steam still answers yes; one that was switched off and no longer
/// qualifies gets its cloud back.
pub fn is_cloud_enabled_for_app(
    ready: bool,
    answer: bool,
    should_disable: bool,
    first_write: bool,
    forced_off: bool,
    can_write: bool,
) -> (gate: CloudGate)
    ensures
        gate == if !ready {
            CloudGate { write: None, restores: false, answer }
        } else if should_disable {
            CloudGate {
                write: if (first_write || answer) && can_write {
                    Some(false)
                } else {
                    None
                },
                restores: false,
                answer,
            }
        } else if forced_off {
            CloudGate {
                write: if !answer && can_write {
                    Some(true)
                } else {
                    None
                },
                restores: true,
                answer: answer || can_write,
            }
        } else {
            CloudGate { write: None, restores: false, answer }
        },
{
    if !ready {
        return CloudGate { write: None, restores: false, answer };
    }
    if should_disable {
        let write: Option<bool> = if (first_write || answer) && can_write {
            Some(false)
        } else {
            None
        };
        return CloudGate { write, restores: false, answer };
    }
    if forced_off {
        let write: Option<bool> = if !answer && can_write {
            Some(true)
        } else {
            None
        };
        return CloudGate { write, restores: true, answer: answer || can_write };
    }
    CloudGate { write: None, restores: false, answer }
}

/// What the apps were last swept for.
#[derive(Clone, Copy, Debug, PartialEq, Eq, Structural)]
pub struct CloudSweep {
    pub receiver: usize,
    pub generation: u64,
    pub ownership_generation: u64,
    pub active: bool,
}

/// Whether a sweep is due.
#[derive(Clone, Copy, Debug, PartialEq, Eq, Structural)]
pub enum SweepStep {
    /// Nothing changed since the last sweep.
    UpToDate,
    /// A sweep is running.
    Busy,
    Sweep { receiver_changed: bool },
}

/// One switch that a sweep writes.
#[derive(Clone, Copy, Debug, PartialEq, Eq, Structural)]
pub struct CloudWrite {
    pub app_id: u32,
    pub enabled: bool,
}

/// An app of a plan, and whether its switch has to change.
#[derive(Clone, Copy, Debug, PartialEq, Eq, Structural)]
pub struct PlannedApp {
    pub app_id: u32,
    pub changes: bool,
}

/// The writes for a row of planned apps.
pub open spec fn planned_writes(apps: Seq<PlannedApp>, enabled: bool) -> Seq<CloudWrite>
    decreases apps.len(),
{
    if apps.len() == 0 {
        Seq::empty()
    } else {
        let before = planned_writes(apps.drop_last(), enabled);
        if apps.last().changes {
            before.push(CloudWrite { app_id: apps.last().app_id, enabled })
        } else {
            before
        }
    }
}

/// What a sweep writes, and how much of it is which.
pub struct SweepResult {
    pub writes: Vec<CloudWrite>,
    pub disabled: usize,
    pub restored: usize,
}

impl CloudSweep {
    pub fn new() -> (sweep: Self)
        ensures
            sweep == (CloudSweep {
                receiver: 0,
                generation: u64::MAX,
                ownership_generation: u64::MAX,
                active: false,
            }),
    {
        CloudSweep {
            receiver: 0,
            generation: u64::MAX,
            ownership_generation: u64::MAX,
            active: false,
        }
    }

    /// Whether a sweep is due for a receiver and its generations.
    pub open spec fn step_for(
        self,
        receiver: usize,
        generation: u64,
        ownership_generation: u64,
    ) -> SweepStep {
        if receiver == self.receiver && generation == self.generation && ownership_generation
            == self.ownership_generation {
            SweepStep::UpToDate
        } else if self.active {
            SweepStep::Busy
        } else {
            SweepStep::Sweep { receiver_changed: receiver != self.receiver }
        }
    }

    /// The state after a sweep ended.
    pub open spec fn finished(self, generation: u64, ownership_generation: u64) -> CloudSweep {
        CloudSweep { generation, ownership_generation, active: false, ..self }
    }

    /// Begins a sweep where the receiver or one of the generations is new and no other
    /// sweep runs.
    pub fn begin(&mut self, receiver: usize, generation: u64, ownership_generation: u64) -> (step:
        SweepStep)
        ensures
            step == old(self).step_for(receiver, generation, ownership_generation),
            *final(self) == (CloudSweep {
                receiver,
                active: old(self).active || step is Sweep,
                ..*old(self)
            }),
    {
        let receiver_changed: bool = self.receiver != receiver;
        self.receiver = receiver;
        if !receiver_changed && self.generation == generation && self.ownership_generation
            == ownership_generation {
            return SweepStep::UpToDate;
        }
        if self.active {
            return SweepStep::Busy;
        }
        self.active = true;
        SweepStep::Sweep { receiver_changed }
    }

    /// Ends a sweep and remembers what it was for.
    pub fn finish(&mut self, generation: u64, ownership_generation: u64)
        ensures
            *final(self) == old(self).finished(generation, ownership_generation),
    {
        self.generation = generation;
        self.ownership_generation = ownership_generation;
        self.active = false;
    }
}

/// A finished sweep is not repeated for the same receiver and generations, and a new
/// generation is swept again.
pub proof fn law_sweeps_settle(
    sweep: CloudSweep,
    generation: u64,
    ownership_generation: u64,
    next_generation: u64,
)
    ensures
        ({
            let done = sweep.finished(generation, ownership_generation);
            &&& done.step_for(sweep.receiver, generation, ownership_generation) is UpToDate
            &&& next_generation != generation ==> done.step_for(
                sweep.receiver,
                next_generation,
                ownership_generation,
            ) == (SweepStep::Sweep { receiver_changed: false })
        }),
{
}

fn write_planned(writes: &mut Vec<CloudWrite>, apps: &[PlannedApp], enabled: bool) -> (count: usize)
    ensures
        final(writes)@ == old(writes)@ + planned_writes(apps@, enabled),
        count == planned_writes(apps@, enabled).len(),
{
    let ghost before = writes@;
    let mut count: usize = 0;
    let mut i: usize = 0;
    assert(apps@.take(0) =~= Seq::empty());
    assert(before + Seq::<CloudWrite>::empty() =~= before);
    while i < apps.len()
        invariant
            i <= apps@.len(),
            count <= i,
            writes@ == before + planned_writes(apps@.take(i as int), enabled),
            count == planned_writes(apps@.take(i as int), enabled).len(),
        decreases apps@.len() - i,
    {
        assert(apps@.take(i + 1).drop_last() =~= apps@.take(i as int));
        if apps[i].changes {
            let ghost so_far = planned_writes(apps@.take(i as int), enabled);
            writes.push(CloudWrite { app_id: apps[i].app_id, enabled });
            count = count + 1;
            assert(writes@ =~= before + so_far.push(
                CloudWrite { app_id: apps@[i as int].app_id, enabled },
            ));
        }
        i = i + 1;
    }
    assert(apps@.take(i as int) =~= apps@);
    count
}

/// Writes the switches of a plan: first those that go off, then those that come back.
/// Nothing is written where the switch cannot be reached.
pub fn sweep_controlled_apps(
    disable: &[PlannedApp],
    enable: &[PlannedApp],
    can_write: bool,
) -> (result: SweepResult)
    ensures
        can_write ==> {
            &&& result.writes@ == planned_writes(disable@, false) + planned_writes(enable@, true)
            &&& result.disabled == planned_writes(disable@, false).len()
            &&& result.restored == planned_writes(enable@, true).len()
        },
        !can_write ==> result.writes@.len() == 0 && result.disabled == 0 && result.restored == 0,
{
    let mut writes: Vec<CloudWrite> = Vec::new();
    if !can_write {
        return SweepResult { writes, disabled: 0, restored: 0 };
    }
    let disabled: usize = write_planned(&mut writes, disable, false);
    let restored: usize = write_planned(&mut writes, enable, true);
    assert(writes@ =~= planned_writes(disable@, false) + planned_writes(enable@, true));
    SweepResult { writes, disabled, restored }
}

/// Whether a finished sweep is worth a report.
pub fn sweep_is_reported(result: &SweepResult, receiver_changed: bool) -> (reported: bool)
    ensures
        reported == (result.disabled != 0 || result.restored != 0 || receiver_changed),
{
    !(result.disabled == 0 && result.restored == 0 && !receiver_changed)
}

/// Whether a file that Steam writes is filtered first.
pub fn filters_vdf(ready: bool, buffer_known: bool, size: u32) -> (filters: bool)
    ensures
        filters == (ready && buffer_known && size > 0),
{
    ready && buffer_known && size > 0
}

/// The shader depot that Steam is told of: none where it is to be skipped.
pub fn shader_cache_depot(depot_id: u32, ready: bool, skip: bool) -> (answer: u32)
    ensures
        answer == if depot_id != 0 && ready && skip {
            0
        } else {
            depot_id
        },
{
    if depot_id == 0 || !ready {
        return depot_id;
    }
    if !skip {
        return depot_id;
    }
    0
}

proof fn lemma_planned_writes(apps: Seq<PlannedApp>, enabled: bool)
    ensures
        ({
            let changing = apps.filter(|app: PlannedApp| app.changes);
            let writes = planned_writes(apps, enabled);
            &&& writes.len() == changing.len()
            &&& forall|i: int|
                0 <= i < writes.len() ==> (#[trigger] writes[i]).app_id == changing[i].app_id
                    && writes[i].enabled == enabled
        }),
    decreases apps.len(),
{
    reveal(Seq::filter);
    if apps.len() > 0 {
        lemma_planned_writes(apps.drop_last(), enabled);
        let before = planned_writes(apps.drop_last(), enabled);
        let after = planned_writes(apps, enabled);
        assert forall|i: int| 0 <= i < before.len() implies after[i] == before[i] by {}
    }
}

/// A sweep writes the switch of every app whose switch has to change and of no other: first
/// those that go off, in their order, and then those that come back, in theirs. What it
/// counts is what it wrote.
pub proof fn law_sweeps_write_what_changes(
    disable: &[PlannedApp],
    enable: &[PlannedApp],
    can_write: bool,
    result: SweepResult,
)
    requires
        call_ensures(sweep_controlled_apps, (disable, enable, can_write), result),
    ensures
        !can_write ==> result.writes@.len() == 0 && result.disabled == 0 && result.restored == 0,
        can_write ==> {
            let off = disable@.filter(|app: PlannedApp| app.changes);
            let on = enable@.filter(|app: PlannedApp| app.changes);
            &&& result.disabled == off.len()
            &&& result.restored == on.len()
            &&& result.writes@.len() == off.len() + on.len()
            &&& forall|i: int|
                0 <= i < off.len() ==> #[trigger] result.writes@[i] == (CloudWrite {
                    app_id: off[i].app_id,
                    enabled: false,
                })
            &&& forall|i: int|
                off.len() <= i < result.writes@.len() ==> #[trigger] result.writes@[i] == (
                CloudWrite { app_id: on[i - off.len()].app_id, enabled: true })
        },
{
    lemma_planned_writes(disable@, false);
    lemma_planned_writes(enable@, true);
    if can_write {
        let off = planned_writes(disable@, false);
        let on = planned_writes(enable@, true);
        assert forall|i: int| 0 <= i < off.len() implies #[trigger] result.writes@[i]
            == off[i] by {}
        assert forall|i: int| off.len() <= i < result.writes@.len() implies
            #[trigger] result.writes@[i] == on[i - off.len()] by {}
    }
}

/// A sweep is due exactly where the receiver or one of the generations is new and none is
/// running.
pub proof fn law_news_are_swept(
    sweep: CloudSweep,
    receiver: usize,
    generation: u64,
    ownership_generation: u64,
)
    ensures
        ({
            let news = receiver != sweep.receiver || generation != sweep.generation
                || ownership_generation != sweep.ownership_generation;
            let step = sweep.step_for(receiver, generation, ownership_generation);
            &&& !news ==> step is UpToDate
            &&& news && sweep.active ==> step is Busy
            &&& news && !sweep.active ==> step == (SweepStep::Sweep {
                receiver_changed: receiver != sweep.receiver,
            })
        }),
        !sweep.finished(generation, ownership_generation).active,
{
}

} // verus!
