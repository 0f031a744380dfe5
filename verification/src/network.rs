//! Delivery of queued responses on the connection they belong to.
//!
//! Responses wait in a queue; a posted work item hands them to the receiver of the
//! captured connection, one at a time, on the receiver's own thread. Every change of
//! account or connection starts a new generation, and nothing of an older one is
//! delivered. Where a caller has to wait for a delivery under way, the step says so:
//! the caller sleeps until a delivery ends and takes the step up again.
use crate::playtime_downlink::{key_ref_view, KeyView, RuntimeKey};
use crate::text::{decimal, decimal_of, hex_of, hexadecimal};
use std::collections::VecDeque;
use vstd::prelude::*;
use vstd::string::*;

verus! {

/// The queue length from which on a warning is due.
pub const MAX_QUEUED_INJECTIONS: usize = 64;

/// The opcode of a binary WebSocket frame.
pub const WEBSOCKET_BINARY: i32 = 2;

/// One response that waits for delivery.
pub struct QueuedInjection {
    pub body: Vec<u8>,
    pub generation: u64,
    pub playtime_context: Option<RuntimeKey>,
}

impl QueuedInjection {
    /// Whether the response may still be delivered: it belongs to the generation,
    /// and a playtime response also to the present runtime key.
    pub open spec fn dispatchable(self, generation: u64, current: Option<KeyView>) -> bool {
        self.generation == generation && (self.playtime_context is Some ==> current == Some(
            self.playtime_context->0@,
        ))
    }
}

/// The first place of the queue, from `from` on, whose response may be delivered.
pub open spec fn next_dispatchable(
    queue: Seq<QueuedInjection>,
    generation: u64,
    current: Option<KeyView>,
    from: int,
) -> int
    decreases queue.len() - from,
{
    if from >= queue.len() || queue[from].dispatchable(generation, current) {
        from
    } else {
        next_dispatchable(queue, generation, current, from + 1)
    }
}

/// Takes the first response that may be delivered; what stands before it is
/// discarded.
pub fn take_next_dispatchable(
    queue: &mut VecDeque<QueuedInjection>,
    generation: u64,
    current: Option<&RuntimeKey>,
) -> (taken: (Option<QueuedInjection>, usize))
    ensures
        ({
            let before = old(queue)@;
            let place = next_dispatchable(before, generation, key_ref_view(current), 0);
            &&& taken.1 == place
            &&& taken.0 is Some <==> place < before.len()
            &&& taken.0 is Some ==> taken.0->0 == before[place] && final(queue)@ == before.skip(
                place + 1,
            )
            &&& taken.0 is None ==> final(queue)@ == Seq::<QueuedInjection>::empty()
        }),
{
    let ghost before = queue@;
    let total: usize = queue.len();
    let mut discarded: usize = 0;
    proof {
        assert(before.skip(0) =~= before);
    }
    loop
        invariant
            before == old(queue)@,
            before.len() == total,
            discarded + queue@.len() == before.len(),
            queue@ == before.skip(discarded as int),
            next_dispatchable(before, generation, key_ref_view(current), 0) == next_dispatchable(
                before,
                generation,
                key_ref_view(current),
                discarded as int,
            ),
        decreases queue@.len(),
    {
        match queue.pop_front() {
            None => {
                assert(queue@ =~= Seq::<QueuedInjection>::empty());
                return (None, discarded);
            },
            Some(queued) => {
                proof {
                    assert(queued == before[discarded as int]);
                    assert(queue@ =~= before.skip(discarded + 1));
                }
                let in_context: bool = match &queued.playtime_context {
                    None => true,
                    Some(context) => match current {
                        Some(current) => current.same(context),
                        None => false,
                    },
                };
                if queued.generation == generation && in_context {
                    return (Some(queued), discarded);
                }
                discarded = discarded + 1;
            },
        }
    }
}

/// The connection that responses are delivered on.
#[derive(Clone, Copy, Debug, PartialEq, Eq, Structural)]
pub struct DispatchContext {
    pub receiver: usize,
    pub conn_id: u32,
    pub recv_pthread: usize,
}

/// A delivery under way.
#[derive(Clone, Copy, Debug, PartialEq, Eq, Structural)]
pub struct ActiveDispatch {
    pub generation: u64,
    pub pthread: usize,
}

/// Everything that decides what may be delivered where.
#[derive(Clone, Copy, Debug, PartialEq, Eq, Structural)]
pub struct DispatchCoordinator {
    pub generation: u64,
    pub context: Option<DispatchContext>,
    pub posted_generation: u64,
    pub active_dispatch: Option<ActiveDispatch>,
    pub transition_in_progress: bool,
    pub release_transition_on_idle: bool,
    pub published_generation: u64,
}

/// What a change of generation left behind.
pub struct TransitionOutcome {
    pub previous_generation: u64,
    pub discarded: VecDeque<QueuedInjection>,
}

/// How far an invalidation came.
pub enum InvalidateStep {
    /// Nothing happens: another generation is current, or the caller itself is the
    /// delivery that the transition waits for.
    Refused,
    /// Another transition is under way; ask again when it is over.
    Busy,
    /// The transition has begun and waits for the delivery under way.
    Draining,
    /// The new generation has begun.
    Done(TransitionOutcome),
}

/// How a capture ended.
pub struct CaptureOutcome {
    pub connection_changed: bool,
    pub published: bool,
    pub discarded: VecDeque<QueuedInjection>,
}

/// How far a capture came.
pub enum CaptureStep {
    /// Another transition is under way; ask again when it is over.
    Busy,
    /// The old connection is given up and its delivery under way has to end.
    Draining,
    /// The capture is over.
    Done(CaptureOutcome),
}

/// What a work item finds when it starts.
pub enum BeginDispatch {
    Stale,
    WrongThread { expected: usize },
    Empty { discarded: usize },
    Ready {
        context: DispatchContext,
        injection: QueuedInjection,
        discarded: usize,
        active: ActiveDispatch,
    },
}

/// The generation behind `generation`; zero is never one.
pub open spec fn next_generation(generation: u64) -> u64 {
    if generation == u64::MAX {
        1
    } else {
        (generation + 1) as u64
    }
}

pub fn next_injection_generation(generation: u64) -> (next: u64)
    ensures
        next == next_generation(generation),
        next != 0,
{
    let next: u64 = generation.wrapping_add(1);
    if next == 0 {
        1
    } else {
        next
    }
}

impl DispatchCoordinator {
    /// Generations are never zero. An armed item belongs to the current generation.
    /// A transition hides the connection, and only a transition lets the published
    /// generation lag behind. A transition that waits to be released waits for a
    /// delivery.
    pub open spec fn wf(self) -> bool {
        &&& self.generation != 0
        &&& self.published_generation != 0
        &&& self.posted_generation == 0 || self.posted_generation == self.generation
        &&& self.transition_in_progress ==> self.context is None
        &&& !self.transition_in_progress ==> self.published_generation == self.generation
        &&& self.release_transition_on_idle ==> self.transition_in_progress
            && self.active_dispatch is Some
    }

    /// Whether a work item can be claimed for what waits.
    pub open spec fn can_claim(self, queue: Seq<QueuedInjection>) -> bool {
        !self.transition_in_progress && self.context is Some && self.posted_generation == 0
            && queue.len() > 0
    }

    /// With the item of the current generation armed.
    pub open spec fn claimed(self) -> DispatchCoordinator {
        DispatchCoordinator { posted_generation: self.generation, ..self }
    }

    /// With the item of a generation disarmed.
    pub open spec fn disarmed(self, generation: u64) -> DispatchCoordinator {
        if self.posted_generation == generation {
            DispatchCoordinator { posted_generation: 0, ..self }
        } else {
            self
        }
    }

    /// Whether the item of a generation has something to look at here.
    pub open spec fn serves(self, generation: u64) -> bool {
        !self.transition_in_progress && self.generation == generation && self.posted_generation
            == generation && self.active_dispatch is None && self.context is Some
    }

    /// What the item of a generation finds on a thread, and what it leaves.
    pub open spec fn begun(
        self,
        queue: Seq<QueuedInjection>,
        generation: u64,
        pthread: usize,
        current: Option<KeyView>,
    ) -> (DispatchCoordinator, Seq<QueuedInjection>, BeginDispatch) {
        let place = next_dispatchable(queue, generation, current, 0);
        if !self.serves(generation) {
            (self, queue, BeginDispatch::Stale)
        } else if self.context->0.recv_pthread != pthread {
            (
                self,
                queue,
                BeginDispatch::WrongThread { expected: self.context->0.recv_pthread },
            )
        } else if place >= queue.len() {
            (self, Seq::empty(), BeginDispatch::Empty { discarded: place as usize })
        } else {
            let active = ActiveDispatch { generation, pthread };
            (
                DispatchCoordinator { active_dispatch: Some(active), ..self },
                queue.skip(place + 1),
                BeginDispatch::Ready {
                    context: self.context->0,
                    injection: queue[place],
                    discarded: place as usize,
                    active,
                },
            )
        }
    }

    /// With a delivery over; a transition that waited for it is published.
    pub open spec fn delivered(self, active: ActiveDispatch) -> DispatchCoordinator {
        if self.active_dispatch != Some(active) {
            self
        } else if self.release_transition_on_idle {
            DispatchCoordinator {
                active_dispatch: None,
                release_transition_on_idle: false,
                published_generation: self.generation,
                transition_in_progress: false,
                ..self
            }
        } else {
            DispatchCoordinator { active_dispatch: None, ..self }
        }
    }

    /// Whether the delivery under way runs on this thread.
    pub open spec fn delivers_on(self, pthread: usize) -> bool {
        self.active_dispatch is Some && self.active_dispatch->0.pthread == pthread
    }

    /// The state once the transition under way is over.
    pub open spec fn advanced(self) -> DispatchCoordinator {
        DispatchCoordinator {
            generation: next_generation(self.generation),
            posted_generation: 0,
            ..self
        }
    }

    /// The state once the transition is published, or left for the delivery to publish.
    pub open spec fn finished(self, reentrant: bool) -> DispatchCoordinator {
        if reentrant {
            DispatchCoordinator { release_transition_on_idle: true, ..self }
        } else {
            DispatchCoordinator {
                published_generation: self.generation,
                transition_in_progress: false,
                ..self
            }
        }
    }

    /// The state in which a transition hides the connection.
    pub open spec fn hidden(self) -> DispatchCoordinator {
        DispatchCoordinator { transition_in_progress: true, context: None, ..self }
    }

    pub fn new() -> (coordinator: Self)
        ensures
            coordinator.wf(),
            coordinator == (DispatchCoordinator {
                generation: 1,
                context: None,
                posted_generation: 0,
                active_dispatch: None,
                transition_in_progress: false,
                release_transition_on_idle: false,
                published_generation: 1,
            }),
    {
        DispatchCoordinator {
            generation: 1,
            context: None,
            posted_generation: 0,
            active_dispatch: None,
            transition_in_progress: false,
            release_transition_on_idle: false,
            published_generation: 1,
        }
    }

    /// The generation that producers stamp their responses with.
    pub fn current_generation(&self) -> (generation: u64)
        ensures
            generation == self.published_generation,
    {
        self.published_generation
    }

    pub fn generation_is_current(&self, generation: u64) -> (current: bool)
        ensures
            current == (self.generation == generation),
    {
        self.generation == generation
    }

    /// The connection, unless a transition hides it.
    pub fn context(&self) -> (context: Option<DispatchContext>)
        ensures
            context == if self.transition_in_progress {
                None
            } else {
                self.context
            },
    {
        if self.transition_in_progress {
            None
        } else {
            self.context
        }
    }

    fn delivery_runs_on(&self, pthread: usize) -> (runs: bool)
        ensures
            runs == self.delivers_on(pthread),
    {
        match self.active_dispatch {
            Some(active) => active.pthread == pthread,
            None => false,
        }
    }

    /// Starts the next generation: nothing is armed any more, and the queue is emptied.
    fn advance_generation(&mut self, queue: &mut VecDeque<QueuedInjection>) -> (outcome:
        TransitionOutcome)
        ensures
            *final(self) == old(self).advanced(),
            final(queue)@ == Seq::<QueuedInjection>::empty(),
            outcome.previous_generation == old(self).generation,
            outcome.discarded@ == old(queue)@,
    {
        let previous_generation: u64 = self.generation;
        self.generation = next_injection_generation(previous_generation);
        self.posted_generation = 0;
        let mut discarded: VecDeque<QueuedInjection> = VecDeque::new();
        discarded.append(queue);
        assert(discarded@ =~= old(queue)@);
        TransitionOutcome { previous_generation, discarded }
    }

    /// Publishes the new generation, or leaves that to the end of the delivery that
    /// the caller is part of.
    fn finish_transition(&mut self, reentrant: bool)
        ensures
            *final(self) == old(self).finished(reentrant),
    {
        if reentrant {
            self.release_transition_on_idle = true;
        } else {
            self.published_generation = self.generation;
            self.transition_in_progress = false;
        }
    }

    /// Gives the connection up and starts a new generation, once the delivery under
    /// way is over. From inside that delivery the generation starts at once, and is
    /// published when the delivery ends.
    pub fn invalidate_generation(
        &mut self,
        expected_generation: Option<u64>,
        pthread: usize,
        queue: &mut VecDeque<QueuedInjection>,
    ) -> (step: InvalidateStep)
        requires
            old(self).wf(),
        ensures
            final(self).wf(),
            ({
                let before = *old(self);
                let unexpected = expected_generation is Some && expected_generation->0
                    != before.generation;
                if before.transition_in_progress {
                    &&& *final(self) == before
                    &&& final(queue)@ == old(queue)@
                    &&& if before.delivers_on(pthread) {
                        step is Refused
                    } else {
                        step is Busy
                    }
                } else if unexpected {
                    &&& *final(self) == before
                    &&& final(queue)@ == old(queue)@
                    &&& step is Refused
                } else if before.active_dispatch is Some && !before.delivers_on(pthread) {
                    &&& *final(self) == before.hidden()
                    &&& final(queue)@ == old(queue)@
                    &&& step is Draining
                } else {
                    &&& *final(self) == before.hidden().advanced().finished(
                        before.delivers_on(pthread),
                    )
                    &&& final(queue)@ == Seq::<QueuedInjection>::empty()
                    &&& step is Done
                    &&& step->Done_0.previous_generation == before.generation
                    &&& step->Done_0.discarded@ == old(queue)@
                }
            }),
    {
        let reentrant: bool = self.delivery_runs_on(pthread);
        if self.transition_in_progress {
            return if reentrant {
                InvalidateStep::Refused
            } else {
                InvalidateStep::Busy
            };
        }
        if let Some(expected) = expected_generation {
            if self.generation != expected {
                return InvalidateStep::Refused;
            }
        }
        self.transition_in_progress = true;
        self.context = None;
        if self.active_dispatch.is_some() && !reentrant {
            return InvalidateStep::Draining;
        }
        let outcome: TransitionOutcome = self.advance_generation(queue);
        self.finish_transition(reentrant);
        InvalidateStep::Done(outcome)
    }

    /// Takes an invalidation up again that waited for a delivery.
    pub fn resume_invalidation(&mut self, queue: &mut VecDeque<QueuedInjection>) -> (outcome: Option<
        TransitionOutcome,
    >)
        requires
            old(self).wf(),
            old(self).transition_in_progress,
        ensures
            final(self).wf(),
            outcome is None <==> old(self).active_dispatch is Some,
            outcome is None ==> *final(self) == *old(self) && final(queue)@ == old(queue)@,
            outcome is Some ==> {
                &&& *final(self) == old(self).advanced().finished(false)
                &&& final(queue)@ == Seq::<QueuedInjection>::empty()
                &&& outcome->0.previous_generation == old(self).generation
                &&& outcome->0.discarded@ == old(queue)@
            },
    {
        if self.active_dispatch.is_some() {
            return None;
        }
        let outcome: TransitionOutcome = self.advance_generation(queue);
        self.finish_transition(false);
        Some(outcome)
    }

    /// Publishes the connection of a live packet. A packet of another receiver or
    /// connection starts a new generation first, as an invalidation does; from inside
    /// a delivery the new connection is then left to a later packet.
    pub fn capture(
        &mut self,
        context: DispatchContext,
        pthread: usize,
        observed_generation: u64,
        queue: &mut VecDeque<QueuedInjection>,
    ) -> (step: CaptureStep)
        requires
            old(self).wf(),
        ensures
            final(self).wf(),
            ({
                let before = *old(self);
                let changed = before.context is Some && (before.context->0.receiver
                    != context.receiver || before.context->0.conn_id != context.conn_id);
                let none = Seq::<QueuedInjection>::empty();
                if before.transition_in_progress && !before.delivers_on(pthread) {
                    &&& *final(self) == before
                    &&& final(queue)@ == old(queue)@
                    &&& step is Busy
                } else if before.transition_in_progress || before.generation
                    != observed_generation {
                    &&& *final(self) == before
                    &&& final(queue)@ == old(queue)@
                    &&& step matches CaptureStep::Done(done)
                    &&& !done.connection_changed && !done.published && done.discarded@ == none
                } else if !changed {
                    &&& *final(self) == (DispatchCoordinator { context: Some(context), ..before })
                    &&& final(queue)@ == old(queue)@
                    &&& step matches CaptureStep::Done(done)
                    &&& !done.connection_changed && done.published && done.discarded@ == none
                } else if before.delivers_on(pthread) {
                    &&& *final(self) == before.hidden().advanced().finished(true)
                    &&& final(queue)@ == none
                    &&& step matches CaptureStep::Done(done)
                    &&& done.connection_changed && !done.published && done.discarded@
                        == old(queue)@
                } else if before.active_dispatch is Some {
                    &&& *final(self) == before.hidden()
                    &&& final(queue)@ == old(queue)@
                    &&& step is Draining
                } else {
                    &&& *final(self) == (DispatchCoordinator {
                        context: Some(context),
                        ..before.hidden().advanced().finished(false)
                    })
                    &&& final(queue)@ == none
                    &&& step matches CaptureStep::Done(done)
                    &&& done.connection_changed && done.published && done.discarded@
                        == old(queue)@
                }
            }),
    {
        let reentrant: bool = self.delivery_runs_on(pthread);
        if self.transition_in_progress && !reentrant {
            return CaptureStep::Busy;
        }
        if self.transition_in_progress || self.generation != observed_generation {
            return CaptureStep::Done(
                CaptureOutcome {
                    connection_changed: false,
                    published: false,
                    discarded: VecDeque::new(),
                },
            );
        }
        let connection_changed: bool = match self.context {
            Some(previous) => previous.receiver != context.receiver || previous.conn_id
                != context.conn_id,
            None => false,
        };
        if !connection_changed {
            self.context = Some(context);
            return CaptureStep::Done(
                CaptureOutcome {
                    connection_changed: false,
                    published: true,
                    discarded: VecDeque::new(),
                },
            );
        }
        self.transition_in_progress = true;
        self.context = None;
        if self.active_dispatch.is_some() && !reentrant {
            return CaptureStep::Draining;
        }
        let outcome: TransitionOutcome = self.advance_generation(queue);
        if !reentrant {
            self.context = Some(context);
        }
        self.finish_transition(reentrant);
        CaptureStep::Done(
            CaptureOutcome {
                connection_changed: true,
                published: !reentrant,
                discarded: outcome.discarded,
            },
        )
    }

    /// Takes a capture up again that waited for a delivery on the old connection.
    pub fn resume_capture(
        &mut self,
        context: DispatchContext,
        queue: &mut VecDeque<QueuedInjection>,
    ) -> (outcome: Option<CaptureOutcome>)
        requires
            old(self).wf(),
            old(self).transition_in_progress,
        ensures
            final(self).wf(),
            outcome is None <==> old(self).active_dispatch is Some,
            outcome is None ==> *final(self) == *old(self) && final(queue)@ == old(queue)@,
            outcome is Some ==> {
                &&& *final(self) == (DispatchCoordinator {
                    context: Some(context),
                    ..old(self).advanced().finished(false)
                })
                &&& final(queue)@ == Seq::<QueuedInjection>::empty()
                &&& outcome->0.connection_changed && outcome->0.published
                &&& outcome->0.discarded@ == old(queue)@
            },
    {
        if self.active_dispatch.is_some() {
            return None;
        }
        let outcome: TransitionOutcome = self.advance_generation(queue);
        self.context = Some(context);
        self.finish_transition(false);
        Some(
            CaptureOutcome {
                connection_changed: true,
                published: true,
                discarded: outcome.discarded,
            },
        )
    }

    /// Queues a response of the current generation; any other comes back.
    pub fn enqueue_if_current(
        &self,
        queue: &mut VecDeque<QueuedInjection>,
        injection: QueuedInjection,
    ) -> (previous_len: Result<usize, QueuedInjection>)
        ensures
            previous_len is Ok <==> !self.transition_in_progress && injection.generation
                == self.generation,
            previous_len is Ok ==> previous_len->Ok_0 == old(queue)@.len() && final(queue)@ == old(
                queue,
            )@.push(injection),
            previous_len is Err ==> previous_len->Err_0 == injection && final(queue)@ == old(
                queue,
            )@,
    {
        if self.transition_in_progress || injection.generation != self.generation {
            return Err(injection);
        }
        let previous_len: usize = queue.len();
        queue.push_back(injection);
        Ok(previous_len)
    }

    /// Arms one work item for the current generation, if something waits, a
    /// connection is known and no item is armed.
    pub fn claim_posted(&mut self, queue: &VecDeque<QueuedInjection>) -> (generation: Option<u64>)
        requires
            old(self).wf(),
        ensures
            final(self).wf(),
            generation is Some <==> old(self).can_claim(queue@),
            generation is Some ==> generation->0 == old(self).generation && *final(self) == old(
                self,
            ).claimed(),
            generation is None ==> *final(self) == *old(self),
    {
        if self.transition_in_progress || self.context.is_none() || self.posted_generation != 0 {
            return None;
        }
        if queue.len() == 0 {
            return None;
        }
        self.posted_generation = self.generation;
        Some(self.generation)
    }

    /// Ends the generation whose work item was refused.
    pub fn reject_post(&mut self, queue: &mut VecDeque<QueuedInjection>) -> (outcome:
        TransitionOutcome)
        requires
            old(self).wf(),
            !old(self).transition_in_progress,
        ensures
            final(self).wf(),
            *final(self) == old(self).hidden().advanced().finished(false),
            final(queue)@ == Seq::<QueuedInjection>::empty(),
            outcome.previous_generation == old(self).generation,
            outcome.discarded@ == old(queue)@,
    {
        self.transition_in_progress = true;
        self.context = None;
        let outcome: TransitionOutcome = self.advance_generation(queue);
        self.finish_transition(false);
        outcome
    }

    /// Starts a delivery for the armed item of a generation.
    pub fn begin_dispatch(
        &mut self,
        queue: &mut VecDeque<QueuedInjection>,
        generation: u64,
        pthread: usize,
        current: Option<&RuntimeKey>,
    ) -> (begin: BeginDispatch)
        requires
            old(self).wf(),
        ensures
            final(self).wf(),
            (*final(self), final(queue)@, begin) == old(self).begun(
                old(queue)@,
                generation,
                pthread,
                key_ref_view(current),
            ),
    {
        if self.transition_in_progress || self.generation != generation || self.posted_generation
            != generation || self.active_dispatch.is_some() {
            return BeginDispatch::Stale;
        }
        let context: DispatchContext = match self.context {
            Some(context) => context,
            None => {
                return BeginDispatch::Stale;
            },
        };
        if context.recv_pthread != pthread {
            return BeginDispatch::WrongThread { expected: context.recv_pthread };
        }
        proof {
            lemma_place_in_range(old(queue)@, generation, key_ref_view(current), 0);
        }
        let (injection, discarded) = take_next_dispatchable(queue, generation, current);
        match injection {
            None => BeginDispatch::Empty { discarded },
            Some(injection) => {
                let active: ActiveDispatch = ActiveDispatch { generation, pthread };
                self.active_dispatch = Some(active);
                BeginDispatch::Ready { context, injection, discarded, active }
            },
        }
    }

    /// Ends a delivery; a transition that waited for it is published.
    pub fn finish_dispatch(&mut self, active: ActiveDispatch)
        requires
            old(self).wf(),
        ensures
            final(self).wf(),
            *final(self) == old(self).delivered(active),
    {
        let same: bool = match self.active_dispatch {
            Some(current) => current == active,
            None => false,
        };
        if !same {
            return;
        }
        self.active_dispatch = None;
        if self.release_transition_on_idle {
            self.release_transition_on_idle = false;
            self.published_generation = self.generation;
            self.transition_in_progress = false;
        }
    }

    /// Disarms the item of a generation, whether or not a delivery is under way; an item of
    /// another generation changes nothing.
    pub fn disarm_posted(&mut self, generation: u64) -> (disarmed: bool)
        requires
            old(self).wf(),
        ensures
            final(self).wf(),
            disarmed == (old(self).posted_generation == generation),
            *final(self) == old(self).disarmed(generation),
    {
        if self.posted_generation != generation {
            return false;
        }
        self.posted_generation = 0;
        true
    }
}

proof fn lemma_place_in_range(
    queue: Seq<QueuedInjection>,
    generation: u64,
    current: Option<KeyView>,
    from: int,
)
    requires
        0 <= from <= queue.len(),
    ensures
        from <= next_dispatchable(queue, generation, current, from) <= queue.len(),
    decreases queue.len() - from,
{
    if from < queue.len() && !queue[from].dispatchable(generation, current) {
        lemma_place_in_range(queue, generation, current, from + 1);
    }
}

/// A delivered response is the first that may be delivered: it belongs to the current
/// generation, which is the published one, and goes to the connection of that generation on
/// the connection's own thread.
pub proof fn law_only_current_responses_are_delivered(
    before: DispatchCoordinator,
    queue: Seq<QueuedInjection>,
    generation: u64,
    pthread: usize,
    current: Option<KeyView>,
)
    requires
        before.wf(),
        queue.len() <= usize::MAX,
    ensures
        before.begun(queue, generation, pthread, current).2 matches BeginDispatch::Ready {
            context,
            injection,
            discarded,
            active,
        } ==> {
            &&& before.context == Some(context)
            &&& context.recv_pthread == pthread
            &&& generation == before.generation == before.published_generation
            &&& injection == queue[discarded as int]
            &&& injection.dispatchable(generation, current)
            &&& forall|i: int|
                0 <= i < discarded ==> !(#[trigger] queue[i]).dispatchable(generation, current)
        },
{
    lemma_next_dispatchable(queue, generation, current, 0);
}

proof fn lemma_next_dispatchable(
    queue: Seq<QueuedInjection>,
    generation: u64,
    current: Option<KeyView>,
    from: int,
)
    requires
        0 <= from <= queue.len(),
    ensures
        ({
            let place = next_dispatchable(queue, generation, current, from);
            &&& from <= place <= queue.len()
            &&& place < queue.len() ==> queue[place].dispatchable(generation, current)
            &&& forall|i: int|
                from <= i < place ==> !(#[trigger] queue[i]).dispatchable(generation, current)
        }),
    decreases queue.len() - from,
{
    if from < queue.len() && !queue[from].dispatchable(generation, current) {
        lemma_next_dispatchable(queue, generation, current, from + 1);
    }
}

/// Once a generation is given up, nothing is delivered for it any more: its item finds
/// nothing to do, whatever is queued, until and after the change is published.
pub proof fn law_items_of_old_generations_are_stale(
    before: DispatchCoordinator,
    reentrant: bool,
    active: ActiveDispatch,
    queue: Seq<QueuedInjection>,
    pthread: usize,
    current: Option<KeyView>,
)
    requires
        before.wf(),
        !before.transition_in_progress,
    ensures
        ({
            let after = before.hidden().advanced().finished(reentrant);
            &&& after.begun(queue, before.generation, pthread, current) == (
                after,
                queue,
                BeginDispatch::Stale,
            )
            &&& after.delivered(active).begun(queue, before.generation, pthread, current).2
                is Stale
            &&& before.hidden().begun(queue, before.generation, pthread, current).2 is Stale
        }),
{
}

/// A change of generation leaves no connection behind and is a generation of its own.
/// From inside a delivery it stays hidden, under the old published generation, until
/// that delivery ends; otherwise it is published at once.
pub proof fn law_transition_hides_the_old_connection(before: DispatchCoordinator, reentrant: bool)
    requires
        before.wf(),
        !before.transition_in_progress,
        reentrant == (before.active_dispatch is Some),
    ensures
        ({
            let after = before.hidden().advanced().finished(reentrant);
            &&& after.wf()
            &&& after.context is None
            &&& after.generation != before.generation
            &&& after.posted_generation == 0
            &&& reentrant ==> after.transition_in_progress && after.published_generation
                == before.published_generation
            &&& !reentrant ==> !after.transition_in_progress && after.published_generation
                == after.generation
        }),
{
}

/// What became of a response that was to be queued.
#[derive(Clone, Copy, Debug, PartialEq, Eq, Structural)]
pub enum EnqueueOutcome {
    /// It belongs to another connection.
    Discarded,
    /// It waits; a queue beyond its expected bound is worth a warning.
    Queued { over_bound: bool },
}

/// Queues a response, or drops one that came too late. What was accepted is kept, however
/// long the queue is.
pub fn enqueue(
    coordinator: &DispatchCoordinator,
    queue: &mut VecDeque<QueuedInjection>,
    injection: QueuedInjection,
) -> (outcome: EnqueueOutcome)
    ensures
        ({
            let accepted = !coordinator.transition_in_progress && injection.generation
                == coordinator.generation;
            &&& outcome == if accepted {
                EnqueueOutcome::Queued { over_bound: old(queue)@.len() >= MAX_QUEUED_INJECTIONS }
            } else {
                EnqueueOutcome::Discarded
            }
            &&& final(queue)@ == if accepted {
                old(queue)@.push(injection)
            } else {
                old(queue)@
            }
        }),
{
    match coordinator.enqueue_if_current(queue, injection) {
        Ok(previous_len) => EnqueueOutcome::Queued {
            over_bound: previous_len >= MAX_QUEUED_INJECTIONS,
        },
        Err(_) => EnqueueOutcome::Discarded,
    }
}

/// What the native packet functions of the process are known to be.
#[derive(Clone, Copy, Debug, PartialEq, Eq, Structural)]
pub struct NativeFunctions {
    pub site_known: bool,
    pub add_work_item: usize,
    pub packet_alloc: usize,
    pub packet_init: usize,
    pub packet_release: usize,
}

impl NativeFunctions {
    /// Whether every function of a delivery is resolved.
    pub open spec fn ready(self) -> bool {
        self.site_known && self.add_work_item != 0 && self.packet_alloc != 0 && self.packet_init
            != 0 && self.packet_release != 0
    }

    pub fn native_packet_functions_ready(&self) -> (ready: bool)
        ensures
            ready == self.ready(),
    {
        self.site_known && self.add_work_item != 0 && self.packet_alloc != 0 && self.packet_init
            != 0 && self.packet_release != 0
    }
}

/// Whether a delivery could start: the functions are resolved and a connection is
/// known.
pub fn dispatch_ready(functions: &NativeFunctions, coordinator: &DispatchCoordinator) -> (ready:
    bool)
    ensures
        ready == (functions.ready() && !coordinator.transition_in_progress
            && coordinator.context is Some),
{
    functions.native_packet_functions_ready() && coordinator.context().is_some()
}

/// Whether a response would reach Steam: the capability stands, a delivery could start
/// and Steam has published its pool.
pub fn response_delivery_ready(
    capability_ready: bool,
    functions: &NativeFunctions,
    coordinator: &DispatchCoordinator,
    pool: usize,
) -> (ready: bool)
    ensures
        ready == (capability_ready && functions.ready() && !coordinator.transition_in_progress
            && coordinator.context is Some && pool != 0),
{
    capability_ready && dispatch_ready(functions, coordinator) && pool != 0
}

/// Claims a work item to post, when delivery is possible and the pool is there.
pub fn claim_drain(
    capability_ready: bool,
    functions: &NativeFunctions,
    pool: usize,
    coordinator: &mut DispatchCoordinator,
    queue: &VecDeque<QueuedInjection>,
) -> (generation: Option<u64>)
    requires
        old(coordinator).wf(),
    ensures
        final(coordinator).wf(),
        generation is Some <==> capability_ready && functions.ready() && pool != 0 && old(
            coordinator,
        ).can_claim(queue@),
        generation is Some ==> generation->0 == old(coordinator).generation && *final(coordinator)
            == old(coordinator).claimed(),
        generation is None ==> *final(coordinator) == *old(coordinator),
{
    if !capability_ready || !functions.native_packet_functions_ready() || pool == 0 {
        return None;
    }
    coordinator.claim_posted(queue)
}

/// Whether the one flush of what was queued before delivery became possible is due.
pub fn warmup_flush_due(done: &mut bool, ready: bool) -> (due: bool)
    ensures
        due == (!*old(done) && ready),
        *final(done) == (*old(done) || ready),
{
    if *done || !ready {
        return false;
    }
    *done = true;
    true
}

/// How a run over the queue ended.
#[derive(Clone, Copy, Debug, PartialEq, Eq, Structural)]
pub enum DrainResult {
    Complete,
    Stale,
    WrongThread { expected: usize },
}

/// What a run over the queue does next.
pub enum DrainAction {
    /// The run is over.
    Stop(DrainResult),
    /// An empty response: end its delivery and go on.
    Skip { active: ActiveDispatch },
    /// Build a packet for this response.
    Deliver { context: DispatchContext, injection: QueuedInjection, active: ActiveDispatch },
}

/// The next response of a run. A run without the packet functions is stale.
pub fn drain_injections(
    coordinator: &mut DispatchCoordinator,
    queue: &mut VecDeque<QueuedInjection>,
    functions: &NativeFunctions,
    receive_known: bool,
    generation: u64,
    pthread: usize,
    current: Option<&RuntimeKey>,
) -> (action: DrainAction)
    requires
        old(coordinator).wf(),
    ensures
        final(coordinator).wf(),
        ({
            let callable = functions.packet_alloc != 0 && functions.packet_init != 0
                && functions.packet_release != 0 && receive_known;
            let (after, rest, begin) = old(coordinator).begun(
                old(queue)@,
                generation,
                pthread,
                key_ref_view(current),
            );
            if !callable {
                &&& action == DrainAction::Stop(DrainResult::Stale)
                &&& *final(coordinator) == *old(coordinator)
                &&& final(queue)@ == old(queue)@
            } else {
                &&& *final(coordinator) == after
                &&& final(queue)@ == rest
                &&& action == match begin {
                    BeginDispatch::Stale => DrainAction::Stop(DrainResult::Stale),
                    BeginDispatch::WrongThread { expected } => DrainAction::Stop(
                        DrainResult::WrongThread { expected },
                    ),
                    BeginDispatch::Empty { discarded } => DrainAction::Stop(DrainResult::Complete),
                    BeginDispatch::Ready { context, injection, discarded, active } => if injection.body@.len()
                        == 0 {
                        DrainAction::Skip { active }
                    } else {
                        DrainAction::Deliver { context, injection, active }
                    },
                }
            }
        }),
{
    if functions.packet_alloc == 0 || functions.packet_init == 0 || functions.packet_release == 0
        || !receive_known {
        return DrainAction::Stop(DrainResult::Stale);
    }
    match coordinator.begin_dispatch(queue, generation, pthread, current) {
        BeginDispatch::Stale => DrainAction::Stop(DrainResult::Stale),
        BeginDispatch::WrongThread { expected } => DrainAction::Stop(
            DrainResult::WrongThread { expected },
        ),
        BeginDispatch::Empty { discarded } => DrainAction::Stop(DrainResult::Complete),
        BeginDispatch::Ready { context, injection, discarded, active } => {
            if injection.body.len() == 0 {
                DrainAction::Skip { active }
            } else {
                DrainAction::Deliver { context, injection, active }
            }
        },
    }
}

/// A point of the delivery of one packet.
#[derive(Clone, Copy, Debug, PartialEq, Eq, Structural)]
pub enum PacketStage {
    Allocated { null: bool },
    Initialised,
    Received,
}

/// What follows at a point of the delivery of one packet.
#[derive(Clone, Copy, Debug, PartialEq, Eq, Structural)]
pub enum PacketAction {
    /// Give the generation up, since there is no packet, and end the run with this result.
    Terminate { result: DrainResult },
    /// Release the packet, since the generation ended meanwhile, and end the run with this
    /// result.
    ReleaseAndStop { result: DrainResult },
    Initialise,
    Receive,
    /// Release the packet and take the next response.
    ReleaseAndContinue,
}

/// Steam code that builds a packet may end the generation; the old receiver is not
/// entered then. A run whose packet failed or whose generation ended is stale.
pub fn packet_step(stage: PacketStage, generation_is_current: bool) -> (action: PacketAction)
    ensures
        action == match stage {
            PacketStage::Allocated { null } => if null {
                PacketAction::Terminate { result: DrainResult::Stale }
            } else if !generation_is_current {
                PacketAction::ReleaseAndStop { result: DrainResult::Stale }
            } else {
                PacketAction::Initialise
            },
            PacketStage::Initialised => if !generation_is_current {
                PacketAction::ReleaseAndStop { result: DrainResult::Stale }
            } else {
                PacketAction::Receive
            },
            PacketStage::Received => PacketAction::ReleaseAndContinue,
        },
{
    match stage {
        PacketStage::Allocated { null } => if null {
            PacketAction::Terminate { result: DrainResult::Stale }
        } else if !generation_is_current {
            PacketAction::ReleaseAndStop { result: DrainResult::Stale }
        } else {
            PacketAction::Initialise
        },
        PacketStage::Initialised => if !generation_is_current {
            PacketAction::ReleaseAndStop { result: DrainResult::Stale }
        } else {
            PacketAction::Receive
        },
        PacketStage::Received => PacketAction::ReleaseAndContinue,
    }
}

/// What a completed work item leaves to do.
#[derive(Clone, Copy, Debug, PartialEq, Eq, Structural)]
pub enum CompletionAction {
    Nothing,
    /// End the generation: the item ran on the wrong thread.
    Terminate,
    /// Post a successor for what was queued meanwhile.
    Reschedule,
}

/// Settles a completed work item. Producers that raced the run saw an armed item and
/// left their response queued, so the item is disarmed before a successor is due.
pub fn complete_work_item(
    coordinator: &mut DispatchCoordinator,
    generation: u64,
    result: DrainResult,
) -> (action: CompletionAction)
    requires
        old(coordinator).wf(),
    ensures
        final(coordinator).wf(),
        generation == 0 ==> action is Nothing && *final(coordinator) == *old(coordinator),
        generation != 0 ==> {
            &&& *final(coordinator) == old(coordinator).disarmed(generation)
            &&& action == match result {
                DrainResult::Complete => if old(coordinator).published_generation == generation {
                    CompletionAction::Reschedule
                } else {
                    CompletionAction::Nothing
                },
                DrainResult::Stale => CompletionAction::Nothing,
                DrainResult::WrongThread { expected } => CompletionAction::Terminate,
            }
        },
{
    if generation == 0 {
        return CompletionAction::Nothing;
    }
    let _ = coordinator.disarm_posted(generation);
    match result {
        DrainResult::Complete => if coordinator.current_generation() == generation {
            CompletionAction::Reschedule
        } else {
            CompletionAction::Nothing
        },
        DrainResult::Stale => CompletionAction::Nothing,
        DrainResult::WrongThread { expected: _ } => CompletionAction::Terminate,
    }
}

/// A response that arrives between an empty run and its disarming is posted by a
/// successor: while the item is armed the queue cannot be claimed, and once it is settled
/// the queue can be.
pub proof fn law_late_response_gets_a_successor(
    before: DispatchCoordinator,
    queue: Seq<QueuedInjection>,
    late: QueuedInjection,
)
    requires
        before.serves(before.generation),
        before.wf(),
    ensures
        ({
            let after = before.disarmed(before.generation);
            &&& !before.can_claim(queue.push(late))
            &&& after.can_claim(queue.push(late))
            &&& after.claimed().serves(before.generation)
            &&& after.published_generation == before.generation
        }),
{
}

/// Why a generation ended.
#[derive(Clone, Copy, Debug, PartialEq, Eq, Structural)]
pub enum TransitionCause {
    /// A packet of another connection was seen.
    Captured,
    /// The account or the connection went away.
    Invalidated,
    /// A delivery could not go on.
    Terminated,
    /// Steam refused the work item.
    PostRejected,
}

/// What follows from the end of a generation.
#[derive(Clone, Copy, Debug, PartialEq, Eq, Structural)]
pub struct FollowUps {
    /// What waits for a connection is flushed again later.
    pub reset_warmup: bool,
    /// Cloud conflicts that wait for an answer are cancelled.
    pub cancel_conflicts: bool,
    /// The stats worker learns of the change.
    pub notify_stats: bool,
}

/// What follows from an attempt to end a generation; `ended` tells whether it did end.
pub fn follow_transition(cause: TransitionCause, ended: bool) -> (follow_ups: FollowUps)
    ensures
        follow_ups.reset_warmup == (ended || cause is Invalidated),
        follow_ups.cancel_conflicts == (ended && !(cause is Invalidated)),
        follow_ups.notify_stats == (ended && !(cause is PostRejected)),
{
    match cause {
        TransitionCause::Captured => FollowUps {
            reset_warmup: ended,
            cancel_conflicts: ended,
            notify_stats: ended,
        },
        TransitionCause::Invalidated => FollowUps {
            reset_warmup: true,
            cancel_conflicts: false,
            notify_stats: ended,
        },
        TransitionCause::Terminated => FollowUps {
            reset_warmup: ended,
            cancel_conflicts: ended,
            notify_stats: ended,
        },
        TransitionCause::PostRejected => FollowUps {
            reset_warmup: ended,
            cancel_conflicts: ended,
            notify_stats: false,
        },
    }
}

/// What the packet rules decided about an outgoing frame.
pub enum SendFrameDecision {
    Pass,
    Drop,
    Retry,
    Rewrite(Vec<u8>),
}

/// What becomes of an outgoing frame.
pub enum SendFrameAction {
    /// Steam sends the frame as it is.
    Forward,
    /// Steam sends these bytes instead.
    ForwardBytes(Vec<u8>),
    /// The frame is not sent, and Steam is told this.
    Answer(bool),
}

/// Whether an outgoing frame is for the packet rules: a binary frame with bytes.
pub open spec fn carries_packet(opcode: i32, has_data: bool, size: u32) -> bool {
    opcode == WEBSOCKET_BINARY && has_data && size > 0
}

/// Binary frames are blocked while interception is incomplete; otherwise the packet
/// rules decide. Other frames always pass.
pub fn send_frame_action(
    interception_ready: bool,
    opcode: i32,
    has_data: bool,
    size: u32,
    decision: SendFrameDecision,
) -> (action: SendFrameAction)
    ensures
        action == if !carries_packet(opcode, has_data, size) {
            SendFrameAction::Forward
        } else if !interception_ready {
            SendFrameAction::Answer(false)
        } else {
            match decision {
                SendFrameDecision::Pass => SendFrameAction::Forward,
                SendFrameDecision::Drop => SendFrameAction::Answer(true),
                SendFrameDecision::Retry => SendFrameAction::Answer(false),
                SendFrameDecision::Rewrite(bytes) => SendFrameAction::ForwardBytes(bytes),
            }
        },
{
    if !(opcode == WEBSOCKET_BINARY && has_data && size > 0) {
        return SendFrameAction::Forward;
    }
    if !interception_ready {
        return SendFrameAction::Answer(false);
    }
    match decision {
        SendFrameDecision::Pass => SendFrameAction::Forward,
        SendFrameDecision::Drop => SendFrameAction::Answer(true),
        SendFrameDecision::Retry => SendFrameAction::Answer(false),
        SendFrameDecision::Rewrite(bytes) => SendFrameAction::ForwardBytes(bytes),
    }
}

/// Whether the packet just handled has to be captured once more: it was not, or its
/// handling began a new generation.
pub fn needs_recapture(captured: bool, generation_before: u64, generation_after: u64) -> (needed:
    bool)
    ensures
        needed == (!captured || generation_before != generation_after),
{
    !captured || generation_before != generation_after
}

/// Whether an inbound body can be kept: it has bytes and at most a mebibyte of them.
pub fn usable_body_size(has_data: bool, size: u32) -> (usable: bool)
    ensures
        usable == (has_data && 0 < size <= 1048576),
{
    has_data && size != 0 && size <= 1048576
}

/// Whether an armed self-test replays a packet: it waits for a delivery to be possible and
/// for a usable body, and fires once.
pub fn fires_selftest(armed: &mut bool, ready: bool, has_data: bool, size: u32) -> (fires: bool)
    ensures
        fires == (*old(armed) && ready && has_data && 0 < size <= 1048576),
        *final(armed) == (*old(armed) && !fires),
{
    if !*armed || !ready || !usable_body_size(has_data, size) {
        return false;
    }
    *armed = false;
    true
}

/// Whether an inbound body is kept for later tests: the first usable one is.
pub fn keeps_inbound_body(kept: &mut bool, has_data: bool, size: u32) -> (keeps: bool)
    ensures
        keeps == (!*old(kept) && has_data && 0 < size <= 1048576),
        *final(kept) == (*old(kept) || keeps),
{
    if *kept || !usable_body_size(has_data, size) {
        return false;
    }
    *kept = true;
    true
}

/// What a test of delivery from a thread of its own answers: without a connection, without a
/// kept body, without a thread, and otherwise.
pub open spec fn own_thread_reply(ready: bool, kept: Option<usize>, spawned: bool) -> Seq<char> {
    if !ready {
        "err dispatch context not ready (needs a prior inbound packet)"@
    } else if kept is None {
        "err no captured inbound body yet (waiting for first inbound packet)"@
    } else if !spawned {
        "err failed to spawn dispatch thread"@
    } else {
        "ok spawned own-thread dispatch of "@ + decimal_of(kept->0 as nat)
            + "B; watch logs for execute + dispatched"@
    }
}

pub fn own_thread_test_reply(ready: bool, kept: Option<usize>, spawned: bool) -> (reply: String)
    ensures
        reply@ == own_thread_reply(ready, kept, spawned),
{
    if !ready {
        return "err dispatch context not ready (needs a prior inbound packet)".to_owned();
    }
    match kept {
        None => "err no captured inbound body yet (waiting for first inbound packet)".to_owned(),
        Some(len) => {
            if !spawned {
                return "err failed to spawn dispatch thread".to_owned();
            }
            let mut reply: String = "ok spawned own-thread dispatch of ".to_owned();
            reply.append(decimal(len as u64).as_str());
            reply.append("B; watch logs for execute + dispatched");
            reply
        },
    }
}

/// A mapped range of addresses, its end not included.
#[derive(Clone, Copy, Debug, PartialEq, Eq, Structural)]
pub struct AddressSpan {
    pub base: usize,
    pub end: usize,
}

/// Whether an address lies on a word boundary inside one of the spans.
pub open spec fn is_data_word(spans: Seq<AddressSpan>, address: usize, word: usize) -> bool {
    address % word == 0 && exists|i: int|
        0 <= i < spans.len() && (#[trigger] spans[i]).base <= address < spans[i].end
}

/// Whether an address lies on a word boundary inside one of the spans.
pub fn lies_in_data(spans: &[AddressSpan], address: usize, word: usize) -> (inside: bool)
    requires
        word > 0,
    ensures
        inside == is_data_word(spans@, address, word),
{
    if address % word != 0 {
        return false;
    }
    let mut i: usize = 0;
    while i < spans.len()
        invariant
            i <= spans@.len(),
            address % word == 0,
            forall|k: int|
                0 <= k < i ==> !((#[trigger] spans@[k]).base <= address < spans@[k].end),
        decreases spans@.len() - i,
    {
        if spans[i].base <= address && address < spans[i].end {
            assert(spans@[i as int].base <= address);
            return true;
        }
        i = i + 1;
    }
    false
}

/// Where Steam posts its own bare work items, as read back from its code.
pub struct WorkItemSite {
    pub add_work_item: usize,
    pub pool_slot: usize,
    pub timer_vtable: usize,
    pub item_size: usize,
    pub refcount_offset: usize,
    pub timer_vptr_offsets: Vec<usize>,
    pub sentinel_offsets: Vec<(usize, u8)>,
}

/// Whether a decoded site may be used: it calls the separately resolved function, and
/// the two addresses that are used as pointers lie in the module's data.
pub fn admit_work_item_site(
    site: &WorkItemSite,
    add_work_item: Option<usize>,
    data: &[AddressSpan],
    word: usize,
) -> (admitted: bool)
    requires
        word > 0,
    ensures
        admitted == (add_work_item == Some(site.add_work_item) && is_data_word(
            data@,
            site.pool_slot,
            word,
        ) && is_data_word(data@, site.timer_vtable, word)),
{
    let agrees: bool = match add_work_item {
        Some(resolved) => resolved == site.add_work_item,
        None => false,
    };
    agrees && lies_in_data(data, site.pool_slot, word) && lies_in_data(
        data,
        site.timer_vtable,
        word,
    )
}

/// An address, or the word for a missing one.
pub open spec fn address_text(address: Option<usize>, missing: Seq<char>) -> Seq<char> {
    match address {
        Some(address) => "0x"@ + hex_of(address as nat),
        None => missing,
    }
}

pub fn format_resolved_addr(address: Option<usize>) -> (text: String)
    ensures
        text@ == address_text(address, "unresolved"@),
{
    match address {
        Some(address) => {
            let mut text: String = "0x".to_owned();
            text.append(hexadecimal(address as u64).as_str());
            text
        },
        None => "unresolved".to_owned(),
    }
}

pub fn format_optional_word(value: Option<usize>) -> (text: String)
    ensures
        text@ == address_text(value, "unreadable"@),
{
    match value {
        Some(value) => {
            let mut text: String = "0x".to_owned();
            text.append(hexadecimal(value as u64).as_str());
            text
        },
        None => "unreadable".to_owned(),
    }
}

/// A response that may be delivered is delivered: where the armed item of the present
/// generation runs on the connection's thread and no delivery is under way, the first
/// response of that generation, which a playtime response has to be under the present key
/// for, is handed out with the connection; what stands before it is discarded, what stands
/// behind it stays, in its order. A queue without such a response is emptied.
pub proof fn law_deliverable_responses_are_delivered(
    before: DispatchCoordinator,
    queue: Seq<QueuedInjection>,
    generation: u64,
    current: Option<KeyView>,
    place: int,
)
    requires
        before.wf(),
        queue.len() <= usize::MAX,
        !before.transition_in_progress,
        before.generation == generation,
        before.posted_generation == generation,
        before.active_dispatch is None,
        before.context is Some,
        0 <= place <= queue.len(),
        forall|i: int|
            0 <= i < place ==> (#[trigger] queue[i]).generation != generation || (
            queue[i].playtime_context is Some && current != Some(queue[i].playtime_context->0@)),
        place < queue.len() ==> queue[place].generation == generation && (
        queue[place].playtime_context is Some ==> current == Some(
            queue[place].playtime_context->0@,
        )),
    ensures
        ({
            let (after, rest, begin) = before.begun(
                queue,
                generation,
                before.context->0.recv_pthread,
                current,
            );
            if place < queue.len() {
                &&& begin matches BeginDispatch::Ready { context, injection, discarded, active }
                &&& Some(context) == before.context
                &&& injection == queue[place]
                &&& discarded == place
                &&& active.generation == generation
                &&& active.pthread == before.context->0.recv_pthread
                &&& rest == queue.skip(place + 1)
                &&& after.active_dispatch == Some(active)
            } else {
                &&& begin matches BeginDispatch::Empty { discarded }
                &&& discarded == queue.len()
                &&& rest.len() == 0
                &&& after == before
            }
        }),
{
    lemma_next_dispatchable(queue, generation, current, 0);
    let found = next_dispatchable(queue, generation, current, 0);
    if found < place {
        assert(queue[found].dispatchable(generation, current));
    } else if place < found {
        assert(!queue[place].dispatchable(generation, current));
    }
}

/// On any other thread nothing is delivered and nothing is lost: the connection's own thread
/// is named.
pub proof fn law_other_threads_deliver_nothing(
    before: DispatchCoordinator,
    queue: Seq<QueuedInjection>,
    generation: u64,
    pthread: usize,
    current: Option<KeyView>,
)
    requires
        before.wf(),
        before.context is Some,
        before.context->0.recv_pthread != pthread,
    ensures
        ({
            let (after, rest, begin) = before.begun(queue, generation, pthread, current);
            &&& after == before
            &&& rest == queue
            &&& begin is Stale || begin == (BeginDispatch::WrongThread {
                expected: before.context->0.recv_pthread,
            })
        }),
{
}

/// The end of a delivery makes way for the next one: the same item may take another response
/// at once, and a transition that waited for the delivery is published by its end.
pub proof fn law_ended_deliveries_make_way(
    before: DispatchCoordinator,
    active: ActiveDispatch,
    other: ActiveDispatch,
)
    requires
        before.wf(),
        before.active_dispatch == Some(active),
        other != active,
    ensures
        ({
            let after = before.delivered(active);
            &&& after.active_dispatch is None
            &&& before.delivered(other) == before
            &&& !before.transition_in_progress && before.context is Some
                && before.posted_generation == before.generation ==> after.serves(before.generation)
            &&& before.release_transition_on_idle ==> !after.transition_in_progress
                && after.published_generation == after.generation
                && !after.release_transition_on_idle
            &&& !before.release_transition_on_idle ==> after.transition_in_progress
                == before.transition_in_progress && after.published_generation
                == before.published_generation
            &&& after.generation == before.generation && after.context == before.context
                && after.posted_generation == before.posted_generation
        }),
{
}

/// What waits can be claimed exactly once: where a connection is known, nothing is armed and
/// something waits, one item is armed, and no other can be until that one is disarmed.
pub proof fn law_one_item_is_armed(
    before: DispatchCoordinator,
    queue: Seq<QueuedInjection>,
    more: Seq<QueuedInjection>,
    other: u64,
)
    requires
        before.wf(),
        !before.transition_in_progress,
        before.context is Some,
        before.posted_generation == 0,
    ensures
        before.can_claim(queue) <==> queue.len() > 0,
        before.claimed().posted_generation == before.generation,
        !before.claimed().can_claim(more),
        other != before.generation ==> before.claimed().disarmed(other) == before.claimed(),
        before.claimed().disarmed(before.generation) == before,
{
}

/// Generations come one after the other and none is zero; the one behind the last number is
/// the first again.
pub proof fn law_generations_follow_each_other(generation: u64)
    ensures
        next_generation(generation) != 0,
        next_generation(generation) != generation,
        generation < 0xffff_ffff_ffff_ffff ==> next_generation(generation) == generation + 1,
        generation == 0xffff_ffff_ffff_ffff ==> next_generation(generation) == 1,
{
}

/// A frame reaches Steam as the packet rules say: only binary frames with bytes are theirs,
/// and none of those passes while interception is incomplete.
pub proof fn law_frames_follow_the_rules(
    ready: bool,
    opcode: i32,
    has_data: bool,
    size: u32,
    bytes: Vec<u8>,
    action: SendFrameAction,
    decision: SendFrameDecision,
)
    requires
        call_ensures(send_frame_action, (ready, opcode, has_data, size, decision), action),
    ensures
        opcode != 2 || !has_data || size == 0 ==> action is Forward,
        opcode == 2 && has_data && size > 0 ==> {
            &&& !ready ==> action == SendFrameAction::Answer(false)
            &&& ready && decision is Pass ==> action is Forward
            &&& ready && decision is Drop ==> action == SendFrameAction::Answer(true)
            &&& ready && decision is Retry ==> action == SendFrameAction::Answer(false)
            &&& ready && decision == SendFrameDecision::Rewrite(bytes) ==> action
                == SendFrameAction::ForwardBytes(bytes)
        },
{
}

/// An address is used as a pointer only inside the module's data and on a word's boundary.
pub proof fn law_admitted_sites_lie_in_the_data(
    site: &WorkItemSite,
    add_work_item: Option<usize>,
    data: &[AddressSpan],
    word: usize,
    admitted: bool,
)
    requires
        word > 0,
        call_ensures(admit_work_item_site, (site, add_work_item, data, word), admitted),
    ensures
        admitted <==> {
            &&& add_work_item == Some(site.add_work_item)
            &&& site.pool_slot as int % word as int == 0
            &&& site.timer_vtable as int % word as int == 0
            &&& exists|i: int|
                0 <= i < data@.len() && (#[trigger] data@[i]).base <= site.pool_slot < data@[i].end
            &&& exists|i: int|
                0 <= i < data@.len() && (#[trigger] data@[i]).base <= site.timer_vtable
                    < data@[i].end
        },
{
}

/// A test from a thread of its own succeeds exactly where there is a connection, a body to
/// deliver and a thread; its answer then tells the size of the body.
pub proof fn law_own_thread_tests_tell_the_outcome(
    ready: bool,
    kept: Option<usize>,
    spawned: bool,
    reply: String,
)
    requires
        call_ensures(own_thread_test_reply, (ready, kept, spawned), reply),
    ensures
        reply@.len() > 0,
        reply@[0] == 'o' <==> ready && kept is Some && spawned,
        reply@[0] == 'e' <==> !(ready && kept is Some && spawned),
        ready && kept is Some && spawned ==> exists|before: Seq<char>, behind: Seq<char>|
            reply@ == #[trigger] (before + decimal_of(kept->0 as nat) + behind),
{
    reveal_strlit("err dispatch context not ready (needs a prior inbound packet)");
    reveal_strlit("err no captured inbound body yet (waiting for first inbound packet)");
    reveal_strlit("err failed to spawn dispatch thread");
    reveal_strlit("ok spawned own-thread dispatch of ");
    if ready && kept is Some && spawned {
        assert(reply@ == "ok spawned own-thread dispatch of "@ + decimal_of(kept->0 as nat)
            + "B; watch logs for execute + dispatched"@);
        assert("ok spawned own-thread dispatch of "@[0] == 'o');
    }
}

/// A delivery is possible only with all four functions and the site; taking any of them away
/// makes it impossible.
pub proof fn law_deliveries_need_every_function(functions: NativeFunctions)
    ensures
        functions.ready() <==> functions.site_known && functions.add_work_item > 0
            && functions.packet_alloc > 0 && functions.packet_init > 0 && functions.packet_release
            > 0,
        !(NativeFunctions { packet_release: 0, ..functions }).ready(),
        !(NativeFunctions { packet_init: 0, ..functions }).ready(),
        !(NativeFunctions { packet_alloc: 0, ..functions }).ready(),
        !(NativeFunctions { add_work_item: 0, ..functions }).ready(),
        !(NativeFunctions { site_known: false, ..functions }).ready(),
{
}

} // verus!
