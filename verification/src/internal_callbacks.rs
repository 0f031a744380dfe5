//! Steam internal callback delivery: coalesced and queued events, and the users
//! that handlers are registered for.
use crate::callback_dispatch::{
    padded_payload, registration, AppMinutesPlayedDataNotice, CallbackEvent, CallbackHeader,
    CallbackRegistration, SteamPayload, APP_MINUTES_PLAYED_DATA_NOTICE,
};
use crate::steam_context::{Identity, SteamContext};
use crate::text::{decimal, decimal_of, wide_decimal};
use vstd::prelude::*;
use vstd::string::*;

verus! {

/// How many concrete users are remembered.
pub const MAX_OBSERVED_USERS: usize = 16;

/// The places of the plain event queue.
pub const EVENT_CAPACITY: usize = 256;

/// The places for minutes notices. Steam can publish one per library entry in a
/// single refresh; an account reuses the places of the accounts before it.
pub const APP_EVENT_CAPACITY: usize = 65536;

/// One place of the coalescing table: the event last stored there, and whether it
/// still has to be handed out.
#[derive(Clone, Copy, Debug, PartialEq, Eq)]
pub struct CoalescedEventSlot {
    pub event: Option<CallbackEvent>,
    pub pending: bool,
}

/// A table of `N` places in which repeated notices merge until they are consumed.
pub struct CoalescedEvents<const N: usize> {
    pub slots: Vec<CoalescedEventSlot>,
    pub cursor: usize,
    pub ready: bool,
    pub dropped: u32,
    pub merged: u32,
}

/// What a coalescing table holds.
#[verifier::ext_equal]
pub struct CoalescedView {
    pub slots: Seq<CoalescedEventSlot>,
    pub cursor: int,
    pub ready: bool,
    pub dropped: u32,
    pub merged: u32,
}

/// How far one pass over the table came.
#[verifier::ext_equal]
pub struct Scan {
    pub slots: Seq<CoalescedEventSlot>,
    pub taken: Seq<CallbackEvent>,
    pub scanned: int,
}

/// The place `offset` steps behind `start` in a ring of `size` places.
pub open spec fn ring_index(start: int, offset: int, size: int) -> int {
    if start + offset < size {
        start + offset
    } else {
        start + offset - size
    }
}

/// Whether a stored event belongs to another account, generation or user.
pub open spec fn stale_context(existing: CallbackEvent, event: CallbackEvent) -> bool {
    existing.identity_generation != event.identity_generation || existing.steam_id64
        != event.steam_id64 || existing.header.steam_user != event.header.steam_user
}

/// Whether the search for a place stops at this slot.
pub open spec fn accepts(slot: CoalescedEventSlot, event: CallbackEvent) -> bool {
    match slot.event {
        None => true,
        Some(existing) => existing == event || stale_context(existing, event),
    }
}

/// The first accepting place at or behind `offset` steps from `start`.
pub open spec fn landing(
    slots: Seq<CoalescedEventSlot>,
    event: CallbackEvent,
    start: int,
    offset: int,
) -> Option<int>
    decreases slots.len() - offset,
{
    if offset >= slots.len() {
        None
    } else {
        let index = ring_index(start, offset, slots.len() as int);
        if accepts(slots[index], event) {
            Some(index)
        } else {
            landing(slots, event, start, offset + 1)
        }
    }
}

/// The mixing hash that picks the first place to try.
pub open spec fn event_hash_of(event: CallbackEvent, app_id: u32) -> usize {
    let word = (app_id as u64) | (((event.header.steam_user as u32) as u64) << 32);
    let generation = event.identity_generation;
    let account = event.steam_id64;
    let a = word ^ ((generation << 17) | (generation >> 47));
    let b = a ^ ((account << 37) | (account >> 27));
    let c = (b ^ (b >> 30)).wrapping_mul(0xbf58_476d_1ce4_e5b9);
    let d = (c ^ (c >> 27)).wrapping_mul(0x94d0_49bb_1331_11eb);
    (d ^ (d >> 31)) as usize
}

/// The place that an event is tried at first.
pub open spec fn home_of(event: CallbackEvent, size: int) -> int {
    let notice = event.decoded::<AppMinutesPlayedDataNotice>();
    event_hash_of(event, notice->0.app_id) as int % size
}

/// What storing an event does to the table, and whether a consumer has new work.
pub open spec fn enqueued(table: CoalescedView, event: CallbackEvent) -> (CoalescedView, bool) {
    if event.decoded::<AppMinutesPlayedDataNotice>() is None {
        (table, false)
    } else {
        match landing(table.slots, event, home_of(event, table.slots.len() as int), 0) {
            None => (CoalescedView { dropped: table.dropped.wrapping_add(1), ..table }, false),
            Some(index) => {
                let slot = table.slots[index];
                if slot.event == Some(event) && slot.pending {
                    (CoalescedView { merged: table.merged.wrapping_add(1), ..table }, false)
                } else {
                    (
                        CoalescedView {
                            slots: table.slots.update(
                                index,
                                CoalescedEventSlot { event: Some(event), pending: true },
                            ),
                            ready: true,
                            ..table
                        },
                        true,
                    )
                }
            },
        }
    }
}

/// One pass from `start` on: pending events leave their places, in ring order,
/// until `limit` events are at hand.
pub open spec fn scan(
    slots: Seq<CoalescedEventSlot>,
    start: int,
    offset: int,
    taken: Seq<CallbackEvent>,
    limit: int,
) -> Scan
    decreases slots.len() - offset,
    when 0 <= start < slots.len() && 0 <= offset
{
    if offset >= slots.len() || taken.len() >= limit {
        Scan { slots, taken, scanned: offset }
    } else {
        let index = ring_index(start, offset, slots.len() as int);
        let slot = slots[index];
        if slot.pending {
            scan(
                slots.update(index, CoalescedEventSlot { pending: false, ..slot }),
                start,
                offset + 1,
                taken.push(slot.event->0),
                limit,
            )
        } else {
            scan(slots, start, offset + 1, taken, limit)
        }
    }
}

/// What handing events out does to the table, and the events then at hand.
pub open spec fn handed_out(table: CoalescedView, taken: Seq<CallbackEvent>, limit: int) -> (
    CoalescedView,
    Seq<CallbackEvent>,
) {
    if taken.len() >= limit || !table.ready {
        (table, taken)
    } else {
        let size = table.slots.len() as int;
        let pass = scan(table.slots, table.cursor, 0, taken, limit);
        (
            CoalescedView {
                slots: pass.slots,
                cursor: if pass.scanned == 0 {
                    table.cursor
                } else {
                    ring_index(ring_index(table.cursor, pass.scanned - 1, size), 1, size)
                },
                ready: pass.scanned < size,
                ..table
            },
            pass.taken,
        )
    }
}

/// How many places hold an event that has to be handed out.
pub open spec fn pending_count(slots: Seq<CoalescedEventSlot>) -> nat {
    slots.filter(|slot: CoalescedEventSlot| slot.pending).len()
}

impl CoalescedView {
    /// A pending place holds an event, and a table with a pending place is ready.
    pub open spec fn wf(self) -> bool {
        &&& self.slots.len() > 0
        &&& 0 <= self.cursor < self.slots.len()
        &&& forall|i: int|
            0 <= i < self.slots.len() && (#[trigger] self.slots[i]).pending ==> self.slots[i].event
                is Some && self.ready
    }
}

impl<const N: usize> View for CoalescedEvents<N> {
    type V = CoalescedView;

    open spec fn view(&self) -> CoalescedView {
        CoalescedView {
            slots: self.slots@,
            cursor: self.cursor as int,
            ready: self.ready,
            dropped: self.dropped,
            merged: self.merged,
        }
    }
}

fn ring_step(start: usize, offset: usize, size: usize) -> (index: usize)
    requires
        start < size,
        offset < size,
    ensures
        index == ring_index(start as int, offset as int, size as int),
        index < size,
{
    if offset < size - start {
        start + offset
    } else {
        offset - (size - start)
    }
}

/// The mixing hash that picks the first place to try.
pub fn event_hash(event: &CallbackEvent, app_id: u32) -> (hash: usize)
    ensures
        hash == event_hash_of(*event, app_id),
{
    let word: u64 = (app_id as u64) | (((event.header.steam_user as u32) as u64) << 32);
    let generation: u64 = event.identity_generation;
    let account: u64 = event.steam_id64;
    let a: u64 = word ^ ((generation << 17) | (generation >> 47));
    let b: u64 = a ^ ((account << 37) | (account >> 27));
    let c: u64 = (b ^ (b >> 30)).wrapping_mul(0xbf58_476d_1ce4_e5b9);
    let d: u64 = (c ^ (c >> 27)).wrapping_mul(0x94d0_49bb_1331_11eb);
    (d ^ (d >> 31)) as usize
}

impl<const N: usize> CoalescedEvents<N> {
    /// The table has its `N` places and its invariant holds.
    pub open spec fn wf(self) -> bool {
        self.slots@.len() == N && self@.wf()
    }

    pub fn new() -> (table: Self)
        requires
            N > 0,
        ensures
            table.wf(),
            table@.slots == Seq::new(
                N as nat,
                |i: int| CoalescedEventSlot { event: None, pending: false },
            ),
            table@.cursor == 0,
            !table@.ready,
            table@.dropped == 0,
            table@.merged == 0,
    {
        let mut slots: Vec<CoalescedEventSlot> = Vec::new();
        let mut i: usize = 0;
        while i < N
            invariant
                i <= N,
                slots@.len() == i,
                forall|k: int|
                    0 <= k < i ==> slots@[k] == (CoalescedEventSlot {
                        event: None,
                        pending: false,
                    }),
            decreases N - i,
        {
            slots.push(CoalescedEventSlot { event: None, pending: false });
            i = i + 1;
        }
        CoalescedEvents { slots, cursor: 0, ready: false, dropped: 0, merged: 0 }
    }

    /// Stores a minutes notice: merged when it is pending already, in place of a
    /// stale one when it meets one first, dropped when the table is full.
    pub fn enqueue(&mut self, event: CallbackEvent) -> (queued: bool)
        requires
            old(self).wf(),
        ensures
            final(self).wf(),
            final(self)@ == enqueued(old(self)@, event).0,
            queued == enqueued(old(self)@, event).1,
    {
        let notice = match event.decode::<AppMinutesPlayedDataNotice>() {
            Some(notice) => notice,
            None => {
                return false;
            },
        };
        let start: usize = event_hash(&event, notice.app_id) % N;
        let mut offset: usize = 0;
        while offset < N
            invariant
                *self == *old(self),
                self.wf(),
                offset <= N,
                start < N,
                start == home_of(event, N as int),
                event.decoded::<AppMinutesPlayedDataNotice>() is Some,
                landing(self@.slots, event, start as int, 0) == landing(
                    self@.slots,
                    event,
                    start as int,
                    offset as int,
                ),
            decreases N - offset,
        {
            let index: usize = ring_step(start, offset, N);
            let slot: CoalescedEventSlot = self.slots[index];
            let stale: bool = match slot.event {
                None => true,
                Some(existing) => existing.identity_generation != event.identity_generation
                    || existing.steam_id64 != event.steam_id64 || existing.header.steam_user
                    != event.header.steam_user,
            };
            let same: bool = match slot.event {
                None => false,
                Some(existing) => existing.same(&event),
            };
            if same && slot.pending {
                self.merged = self.merged.wrapping_add(1);
                assert(self@ =~= enqueued(old(self)@, event).0);
                return false;
            }
            if same || stale {
                self.slots.set(index, CoalescedEventSlot { event: Some(event), pending: true });
                self.ready = true;
                assert(self@ =~= enqueued(old(self)@, event).0);
                return true;
            }
            offset = offset + 1;
        }
        self.dropped = self.dropped.wrapping_add(1);
        assert(self@ =~= enqueued(old(self)@, event).0);
        false
    }

    /// Hands pending events out behind those already in `events`, up to `limit`
    /// in all, going on where the last pass stopped.
    pub fn take_into(&mut self, events: &mut Vec<CallbackEvent>, limit: usize)
        requires
            old(self).wf(),
        ensures
            final(self).wf(),
            final(self)@ == handed_out(old(self)@, old(events)@, limit as int).0,
            final(events)@ == handed_out(old(self)@, old(events)@, limit as int).1,
    {
        if events.len() >= limit || !self.ready {
            return;
        }
        let start: usize = self.cursor;
        let mut next: usize = start;
        let mut offset: usize = 0;
        while offset < N && events.len() < limit
            invariant
                offset <= N,
                start < N,
                start == old(self).cursor,
                self.slots@.len() == N,
                self.cursor == old(self).cursor,
                self.ready == old(self).ready,
                self.dropped == old(self).dropped,
                self.merged == old(self).merged,
                scan(self.slots@, start as int, offset as int, events@, limit as int) == scan(
                    old(self)@.slots,
                    start as int,
                    0,
                    old(events)@,
                    limit as int,
                ),
                next < N,
                next == if offset == 0 {
                    start as int
                } else {
                    ring_index(ring_index(start as int, offset - 1, N as int), 1, N as int)
                },
                forall|i: int|
                    0 <= i < N && (#[trigger] self.slots@[i]).pending ==> self.slots@[i].event
                        is Some,
                forall|k: int|
                    0 <= k < offset ==> !(#[trigger] self.slots@[ring_index(
                        start as int,
                        k,
                        N as int,
                    )]).pending,
            decreases N - offset,
        {
            let index: usize = ring_step(start, offset, N);
            next = if index + 1 < N {
                index + 1
            } else {
                0
            };
            let slot: CoalescedEventSlot = self.slots[index];
            if slot.pending {
                if let Some(event) = slot.event {
                    events.push(event);
                }
                self.slots.set(index, CoalescedEventSlot { event: slot.event, pending: false });
            }
            offset = offset + 1;
        }
        self.cursor = next;
        self.ready = offset < N;
        proof {
            if !self.ready {
                assert forall|i: int| 0 <= i < N implies !(#[trigger] self.slots@[i]).pending by {
                    let k = if i >= start {
                        i - start
                    } else {
                        i - start + N
                    };
                    assert(ring_index(start as int, k, N as int) == i);
                }
            }
            assert(self@ =~= handed_out(old(self)@, old(events)@, limit as int).0);
        }
    }

    /// How many events wait to be handed out.
    pub fn pending(&self) -> (count: usize)
        ensures
            count == pending_count(self@.slots),
            count <= self@.slots.len(),
    {
        let mut count: usize = 0;
        let mut i: usize = 0;
        let ghost keep = |slot: CoalescedEventSlot| slot.pending;
        assert(self.slots@.take(0).filter(keep) =~= Seq::empty()) by {
            reveal(Seq::filter);
        }
        while i < self.slots.len()
            invariant
                i <= self.slots@.len(),
                count <= i,
                keep == (|slot: CoalescedEventSlot| slot.pending),
                count == self.slots@.take(i as int).filter(keep).len(),
            decreases self.slots@.len() - i,
        {
            proof {
                let before = self.slots@.take(i as int);
                let after = self.slots@.take(i + 1);
                assert(after.drop_last() =~= before);
                reveal(Seq::filter);
            }
            if self.slots[i].pending {
                count = count + 1;
            }
            i = i + 1;
        }
        assert(self.slots@.take(i as int) =~= self.slots@);
        count
    }

    /// How many places hold an event.
    pub fn used(&self) -> (count: usize)
        ensures
            count == self@.slots.filter(|slot: CoalescedEventSlot| slot.event is Some).len(),
    {
        let mut count: usize = 0;
        let mut i: usize = 0;
        let ghost keep = |slot: CoalescedEventSlot| slot.event is Some;
        assert(self.slots@.take(0).filter(keep) =~= Seq::empty()) by {
            reveal(Seq::filter);
        }
        while i < self.slots.len()
            invariant
                i <= self.slots@.len(),
                count <= i,
                keep == (|slot: CoalescedEventSlot| slot.event is Some),
                count == self.slots@.take(i as int).filter(keep).len(),
            decreases self.slots@.len() - i,
        {
            proof {
                let before = self.slots@.take(i as int);
                let after = self.slots@.take(i + 1);
                assert(after.drop_last() =~= before);
                reveal(Seq::filter);
            }
            if self.slots[i].event.is_some() {
                count = count + 1;
            }
            i = i + 1;
        }
        assert(self.slots@.take(i as int) =~= self.slots@);
        count
    }
}

proof fn lemma_count_update(slots: Seq<CoalescedEventSlot>, index: int, slot: CoalescedEventSlot)
    requires
        0 <= index < slots.len(),
    ensures
        pending_count(slots.update(index, slot)) + (if slots[index].pending {
            1int
        } else {
            0
        }) == pending_count(slots) + (if slot.pending {
            1int
        } else {
            0
        }),
    decreases slots.len(),
{
    reveal(Seq::filter);
    let updated = slots.update(index, slot);
    if index == slots.len() - 1 {
        assert(updated.drop_last() =~= slots.drop_last());
    } else {
        assert(updated.drop_last() =~= slots.drop_last().update(index, slot));
        lemma_count_update(slots.drop_last(), index, slot);
    }
}

proof fn lemma_count_zero(slots: Seq<CoalescedEventSlot>)
    requires
        forall|i: int| 0 <= i < slots.len() ==> !(#[trigger] slots[i]).pending,
    ensures
        pending_count(slots) == 0,
    decreases slots.len(),
{
    reveal(Seq::filter);
    if slots.len() > 0 {
        lemma_count_zero(slots.drop_last());
    }
}

proof fn lemma_landing(slots: Seq<CoalescedEventSlot>, event: CallbackEvent, start: int, offset: int)
    requires
        0 <= start < slots.len(),
        0 <= offset,
    ensures
        match landing(slots, event, start, offset) {
            Some(index) => 0 <= index < slots.len() && accepts(slots[index], event),
            None => forall|k: int|
                offset <= k < slots.len() ==> !accepts(
                    slots[#[trigger] ring_index(start, k, slots.len() as int)],
                    event,
                ),
        },
    decreases slots.len() - offset,
{
    if offset < slots.len() {
        lemma_landing(slots, event, start, offset + 1);
    }
}

/// An event whose storing was reported waits in the table, which is ready.
pub proof fn law_stored_event_waits(table: CoalescedView, event: CallbackEvent)
    requires
        table.wf(),
        enqueued(table, event).1,
    ensures
        enqueued(table, event).0.ready,
        exists|i: int|
            0 <= i < table.slots.len() && #[trigger] enqueued(table, event).0.slots[i] == (
            CoalescedEventSlot { event: Some(event), pending: true }),
{
    let home = home_of(event, table.slots.len() as int);
    lemma_landing(table.slots, event, home, 0);
    let index = landing(table.slots, event, home, 0)->0;
    assert(enqueued(table, event).0.slots[index] == (CoalescedEventSlot {
        event: Some(event),
        pending: true,
    }));
}

/// A notice that was not stored anew was waiting already, or met a table in which
/// every place holds another notice of the same account, generation and user. The
/// stored events stay as they were either way.
pub proof fn law_refused_event_leaves_the_table(table: CoalescedView, event: CallbackEvent)
    requires
        table.wf(),
        event.decoded::<AppMinutesPlayedDataNotice>() is Some,
        !enqueued(table, event).1,
    ensures
        enqueued(table, event).0.slots == table.slots,
        ({
            ||| exists|i: int|
                0 <= i < table.slots.len() && #[trigger] table.slots[i] == (CoalescedEventSlot {
                    event: Some(event),
                    pending: true,
                })
            ||| forall|i: int|
                0 <= i < table.slots.len() ==> (#[trigger] table.slots[i]).event is Some
                    && table.slots[i].event->0 != event && !stale_context(
                    table.slots[i].event->0,
                    event,
                )
        }),
{
    let size = table.slots.len() as int;
    let home = home_of(event, size);
    lemma_landing(table.slots, event, home, 0);
    match landing(table.slots, event, home, 0) {
        Some(index) => {
            assert(table.slots[index] == (CoalescedEventSlot {
                event: Some(event),
                pending: true,
            }));
        },
        None => {
            assert forall|i: int| 0 <= i < size implies !accepts(#[trigger] table.slots[i], event) by {
                let k = if i >= home {
                    i - home
                } else {
                    i - home + size
                };
                assert(ring_index(home, k, size) == i);
            }
        },
    }
}

proof fn lemma_scan(
    slots: Seq<CoalescedEventSlot>,
    start: int,
    offset: int,
    taken: Seq<CallbackEvent>,
    limit: int,
)
    requires
        0 <= start < slots.len(),
        0 <= offset <= slots.len(),
        forall|k: int|
            0 <= k < offset ==> !slots[#[trigger] ring_index(
                start,
                k,
                slots.len() as int,
            )].pending,
    ensures
        ({
            let pass = scan(slots, start, offset, taken, limit);
            &&& pass.slots.len() == slots.len()
            &&& offset <= pass.scanned <= slots.len()
            &&& pass.taken.len() >= taken.len()
            &&& pass.taken.take(taken.len() as int) == taken
            &&& pass.taken.len() + pending_count(pass.slots) == taken.len() + pending_count(slots)
            &&& pass.scanned < slots.len() ==> pass.taken.len() >= limit
            &&& pass.scanned == slots.len() ==> pending_count(pass.slots) == 0
            &&& taken.len() < limit ==> pass.taken.len() <= limit
        }),
    decreases slots.len() - offset,
{
    let size = slots.len() as int;
    if offset >= slots.len() || taken.len() >= limit {
        if offset >= slots.len() {
            assert forall|i: int| 0 <= i < size implies !(#[trigger] slots[i]).pending by {
                let k = if i >= start {
                    i - start
                } else {
                    i - start + size
                };
                assert(ring_index(start, k, size) == i);
            }
            lemma_count_zero(slots);
        }
        assert(taken.take(taken.len() as int) =~= taken);
    } else {
        let index = ring_index(start, offset, size);
        let slot = slots[index];
        if slot.pending {
            let cleared = CoalescedEventSlot { pending: false, ..slot };
            lemma_count_update(slots, index, cleared);
            lemma_scan(
                slots.update(index, cleared),
                start,
                offset + 1,
                taken.push(slot.event->0),
                limit,
            );
            let pass = scan(slots, start, offset, taken, limit);
            assert(pass.taken.take(taken.len() as int) =~= pass.taken.take(
                taken.len() as int + 1,
            ).drop_last());
            assert(taken.push(slot.event->0).drop_last() =~= taken);
        } else {
            lemma_scan(slots, start, offset + 1, taken, limit);
        }
    }
}

/// Handing out loses nothing and repeats nothing: what leaves the table stands
/// behind what was at hand, and the events at hand and the waiting ones stay as
/// many as they were.
pub proof fn law_take_conserves_events(
    table: CoalescedView,
    taken: Seq<CallbackEvent>,
    limit: int,
)
    requires
        table.wf(),
    ensures
        ({
            let (after, events) = handed_out(table, taken, limit);
            &&& after.wf()
            &&& events.len() >= taken.len()
            &&& events.take(taken.len() as int) == taken
            &&& events.len() + pending_count(after.slots) == taken.len() + pending_count(
                table.slots,
            )
        }),
{
    assert(taken.take(taken.len() as int) =~= taken);
    if !(taken.len() >= limit || !table.ready) {
        lemma_scan(table.slots, table.cursor, 0, taken, limit);
        lemma_scan_keeps_events(table.slots, table.cursor, 0, taken, limit);
        let pass = scan(table.slots, table.cursor, 0, taken, limit);
        if pass.scanned == table.slots.len() {
            assert forall|i: int| 0 <= i < pass.slots.len() implies !(
            #[trigger] pass.slots[i]).pending by {
                if pass.slots[i].pending {
                    lemma_count_update(
                        pass.slots,
                        i,
                        CoalescedEventSlot { pending: false, ..pass.slots[i] },
                    );
                }
            }
        }
    }
}

proof fn lemma_scan_keeps_events(
    slots: Seq<CoalescedEventSlot>,
    start: int,
    offset: int,
    taken: Seq<CallbackEvent>,
    limit: int,
)
    requires
        0 <= start < slots.len(),
        0 <= offset,
    ensures
        scan(slots, start, offset, taken, limit).slots.len() == slots.len(),
        forall|i: int|
            0 <= i < slots.len() ==> (#[trigger] scan(
                slots,
                start,
                offset,
                taken,
                limit,
            ).slots[i]).event == slots[i].event && (scan(
                slots,
                start,
                offset,
                taken,
                limit,
            ).slots[i].pending ==> slots[i].pending),
    decreases slots.len() - offset,
{
    if !(offset >= slots.len() || taken.len() >= limit) {
        let index = ring_index(start, offset, slots.len() as int);
        let slot = slots[index];
        if slot.pending {
            lemma_scan_keeps_events(
                slots.update(index, CoalescedEventSlot { pending: false, ..slot }),
                start,
                offset + 1,
                taken.push(slot.event->0),
                limit,
            );
        } else {
            lemma_scan_keeps_events(slots, start, offset + 1, taken, limit);
        }
    }
}

/// A pass that did not reach its limit leaves nothing waiting.
pub proof fn law_short_take_empties_the_table(
    table: CoalescedView,
    taken: Seq<CallbackEvent>,
    limit: int,
)
    requires
        table.wf(),
        handed_out(table, taken, limit).1.len() < limit,
    ensures
        pending_count(handed_out(table, taken, limit).0.slots) == 0,
{
    if taken.len() >= limit {
    } else if !table.ready {
        lemma_count_zero(table.slots);
    } else {
        lemma_scan(table.slots, table.cursor, 0, taken, limit);
    }
}

/// The plain queue: events in the order their places are met.
pub struct EventQueue {
    pub slots: Vec<Option<CallbackEvent>>,
    pub hint: usize,
    pub cursor: usize,
    pub dropped: u32,
}

/// The first free place at or behind `offset` steps from `start`.
pub open spec fn free_place(slots: Seq<Option<CallbackEvent>>, start: int, offset: int) -> Option<
    int,
>
    decreases slots.len() - offset,
{
    if offset >= slots.len() {
        None
    } else {
        let index = ring_index(start, offset, slots.len() as int);
        if slots[index] is None {
            Some(index)
        } else {
            free_place(slots, start, offset + 1)
        }
    }
}

/// What leaves the queue in one pass from `start`, and what stays.
pub open spec fn queue_scan(
    slots: Seq<Option<CallbackEvent>>,
    start: int,
    offset: int,
    taken: Seq<CallbackEvent>,
    limit: int,
) -> (Seq<Option<CallbackEvent>>, Seq<CallbackEvent>)
    decreases slots.len() - offset,
    when 0 <= start < slots.len() && 0 <= offset
{
    if offset >= slots.len() || taken.len() >= limit {
        (slots, taken)
    } else {
        let index = ring_index(start, offset, slots.len() as int);
        match slots[index] {
            Some(event) => queue_scan(
                slots.update(index, None),
                start,
                offset + 1,
                taken.push(event),
                limit,
            ),
            None => queue_scan(slots, start, offset + 1, taken, limit),
        }
    }
}

/// How many places of the queue are filled.
pub open spec fn filled_count(slots: Seq<Option<CallbackEvent>>) -> nat {
    slots.filter(|slot: Option<CallbackEvent>| slot is Some).len()
}

impl EventQueue {
    /// The queue has its fixed number of places.
    pub open spec fn wf(self) -> bool {
        self.slots@.len() == EVENT_CAPACITY
    }

    pub fn new() -> (queue: Self)
        ensures
            queue.wf(),
            queue.slots@ == Seq::new(EVENT_CAPACITY as nat, |i: int| None::<CallbackEvent>),
            queue.hint == 0,
            queue.cursor == 0,
            queue.dropped == 0,
    {
        let mut slots: Vec<Option<CallbackEvent>> = Vec::new();
        let mut i: usize = 0;
        while i < EVENT_CAPACITY
            invariant
                i <= EVENT_CAPACITY,
                slots@.len() == i,
                forall|k: int| 0 <= k < i ==> slots@[k] is None,
            decreases EVENT_CAPACITY - i,
        {
            slots.push(None);
            i = i + 1;
        }
        assert(slots@ =~= Seq::new(EVENT_CAPACITY as nat, |i: int| None::<CallbackEvent>));
        EventQueue { slots, hint: 0, cursor: 0, dropped: 0 }
    }

    /// Puts an event at the first free place behind the hint.
    pub fn enqueue(&mut self, event: CallbackEvent) -> (queued: bool)
        requires
            old(self).wf(),
        ensures
            final(self).wf(),
            final(self).hint == old(self).hint.wrapping_add(1),
            final(self).cursor == old(self).cursor,
            match free_place(old(self).slots@, old(self).hint as int % EVENT_CAPACITY as int, 0) {
                Some(index) => queued && final(self).dropped == old(self).dropped
                    && final(self).slots@ == old(self).slots@.update(index, Some(event)),
                None => !queued && final(self).dropped == old(self).dropped.wrapping_add(1)
                    && final(self).slots@ == old(self).slots@,
            },
    {
        let start: usize = self.hint % EVENT_CAPACITY;
        self.hint = self.hint.wrapping_add(1);
        let mut offset: usize = 0;
        while offset < EVENT_CAPACITY
            invariant
                offset <= EVENT_CAPACITY,
                start < EVENT_CAPACITY,
                self.slots@ == old(self).slots@,
                self.slots@.len() == EVENT_CAPACITY,
                self.cursor == old(self).cursor,
                self.dropped == old(self).dropped,
                self.hint == old(self).hint.wrapping_add(1),
                start == old(self).hint as int % EVENT_CAPACITY as int,
                free_place(self.slots@, start as int, 0) == free_place(
                    self.slots@,
                    start as int,
                    offset as int,
                ),
            decreases EVENT_CAPACITY - offset,
        {
            let index: usize = ring_step(start, offset, EVENT_CAPACITY);
            if self.slots[index].is_none() {
                self.slots.set(index, Some(event));
                return true;
            }
            offset = offset + 1;
        }
        self.dropped = self.dropped.wrapping_add(1);
        false
    }

    /// Takes at most `limit` events out, each pass starting one place further.
    pub fn take(&mut self, limit: usize) -> (events: Vec<CallbackEvent>)
        requires
            old(self).wf(),
        ensures
            final(self).wf(),
            final(self).cursor == old(self).cursor.wrapping_add(1),
            final(self).hint == old(self).hint,
            final(self).dropped == old(self).dropped,
            (final(self).slots@, events@) == queue_scan(
                old(self).slots@,
                old(self).cursor as int % EVENT_CAPACITY as int,
                0,
                Seq::empty(),
                limit as int,
            ),
    {
        let mut events: Vec<CallbackEvent> = Vec::new();
        let start: usize = self.cursor % EVENT_CAPACITY;
        self.cursor = self.cursor.wrapping_add(1);
        let mut offset: usize = 0;
        while offset < EVENT_CAPACITY && events.len() < limit
            invariant
                offset <= EVENT_CAPACITY,
                start < EVENT_CAPACITY,
                start == old(self).cursor as int % EVENT_CAPACITY as int,
                self.slots@.len() == EVENT_CAPACITY,
                self.hint == old(self).hint,
                self.dropped == old(self).dropped,
                self.cursor == old(self).cursor.wrapping_add(1),
                queue_scan(self.slots@, start as int, offset as int, events@, limit as int)
                    == queue_scan(
                    old(self).slots@,
                    start as int,
                    0,
                    Seq::empty(),
                    limit as int,
                ),
            decreases EVENT_CAPACITY - offset,
        {
            let index: usize = ring_step(start, offset, EVENT_CAPACITY);
            if let Some(event) = self.slots[index] {
                events.push(event);
                self.slots.set(index, None);
            }
            offset = offset + 1;
        }
        events
    }

    /// How many events wait in the queue.
    pub fn pending(&self) -> (count: usize)
        ensures
            count == filled_count(self.slots@),
            count <= self.slots@.len(),
    {
        let mut count: usize = 0;
        let mut i: usize = 0;
        let ghost keep = |slot: Option<CallbackEvent>| slot is Some;
        assert(self.slots@.take(0).filter(keep) =~= Seq::empty()) by {
            reveal(Seq::filter);
        }
        while i < self.slots.len()
            invariant
                i <= self.slots@.len(),
                count <= i,
                keep == (|slot: Option<CallbackEvent>| slot is Some),
                count == self.slots@.take(i as int).filter(keep).len(),
            decreases self.slots@.len() - i,
        {
            proof {
                assert(self.slots@.take(i + 1).drop_last() =~= self.slots@.take(i as int));
                reveal(Seq::filter);
            }
            if self.slots[i].is_some() {
                count = count + 1;
            }
            i = i + 1;
        }
        assert(self.slots@.take(i as int) =~= self.slots@);
        count
    }
}

/// The concrete Steam users that have been seen, in the order of their first sight.
pub struct ObservedUsers {
    pub users: Vec<i32>,
}

impl ObservedUsers {
    /// No user twice, none of them the unset user, and at most as many as there
    /// is room for.
    pub open spec fn wf(self) -> bool {
        &&& self.users@.len() <= MAX_OBSERVED_USERS
        &&& self.users@.no_duplicates()
        &&& !self.users@.contains(0)
    }

    pub fn new() -> (users: Self)
        ensures
            users.wf(),
            users.users@ == Seq::<i32>::empty(),
    {
        ObservedUsers { users: Vec::new() }
    }

    /// Remembers a user, and says whether it is a new one.
    pub fn observe_user(&mut self, steam_user: i32) -> (added: bool)
        requires
            old(self).wf(),
        ensures
            final(self).wf(),
            added == (steam_user != 0 && !old(self).users@.contains(steam_user) && old(
                self,
            ).users@.len() < MAX_OBSERVED_USERS),
            final(self).users@ == if added {
                old(self).users@.push(steam_user)
            } else {
                old(self).users@
            },
    {
        if steam_user == 0 {
            return false;
        }
        let mut i: usize = 0;
        while i < self.users.len()
            invariant
                *self == *old(self),
                self.wf(),
                i <= self.users@.len(),
                forall|k: int| 0 <= k < i ==> self.users@[k] != steam_user,
            decreases self.users@.len() - i,
        {
            if self.users[i] == steam_user {
                return false;
            }
            i = i + 1;
        }
        if self.users.len() >= MAX_OBSERVED_USERS {
            return false;
        }
        let ghost before = self.users@;
        self.users.push(steam_user);
        assert forall|k: int| 0 <= k < self.users@.len() implies self.users@[k] != 0 by {
            if k < before.len() {
                assert(before.contains(before[k]));
            }
        }
        true
    }

    /// The remembered users.
    pub fn observed_users(&self) -> (users: Vec<i32>)
        ensures
            users@ == self.users@,
    {
        let users: Vec<i32> = self.users.clone();
        assert(users@ =~= self.users@);
        users
    }

    /// The users for which no handler of this callback is registered yet.
    pub fn missing_handlers(&self, handlers: &[(i32, i32)], callback: i32) -> (missing: Vec<i32>)
        ensures
            missing@ == self.users@.filter(|user: i32| !handlers@.contains((user, callback))),
    {
        let ghost keep = |user: i32| !handlers@.contains((user, callback));
        let mut missing: Vec<i32> = Vec::new();
        let mut i: usize = 0;
        assert(self.users@.take(0).filter(keep) =~= Seq::empty()) by {
            reveal(Seq::filter);
        }
        while i < self.users.len()
            invariant
                i <= self.users@.len(),
                keep == (|user: i32| !handlers@.contains((user, callback))),
                missing@ == self.users@.take(i as int).filter(keep),
            decreases self.users@.len() - i,
        {
            let user: i32 = self.users[i];
            let mut exists_already: bool = false;
            let mut k: usize = 0;
            while k < handlers.len()
                invariant
                    k <= handlers@.len(),
                    exists_already == exists|j: int|
                        0 <= j < k && handlers@[j] == (user, callback),
                decreases handlers@.len() - k,
            {
                if handlers[k].0 == user && handlers[k].1 == callback {
                    assert(handlers@[k as int] == (user, callback));
                    exists_already = true;
                }
                k = k + 1;
            }
            proof {
                assert(self.users@.take(i + 1).drop_last() =~= self.users@.take(i as int));
                reveal(Seq::filter);
            }
            if !exists_already {
                missing.push(user);
            }
            i = i + 1;
        }
        assert(self.users@.take(i as int) =~= self.users@);
        missing
    }
}

/// Everything that waits for the in-process consumer.
pub struct InternalEvents<const N: usize> {
    pub queue: EventQueue,
    pub apps: CoalescedEvents<N>,
    pub users: ObservedUsers,
}

/// The line of counters that describes the waiting events.
pub open spec fn status_line(
    users: nat,
    handlers: nat,
    pending: nat,
    app_slots: nat,
    merged: nat,
    dropped: nat,
) -> Seq<char> {
    "internal_users="@ + decimal_of(users) + " internal_handlers="@ + decimal_of(handlers)
        + " internal_pending="@ + decimal_of(pending) + " internal_app_slots="@ + decimal_of(
        app_slots,
    ) + " internal_merged="@ + decimal_of(merged) + " internal_dropped="@ + decimal_of(dropped)
}

impl<const N: usize> InternalEvents<N> {
    pub open spec fn wf(self) -> bool {
        self.queue.wf() && self.apps.wf() && self.users.wf()
    }

    pub fn new() -> (events: Self)
        requires
            N > 0,
        ensures
            events.wf(),
            events.users.users@.len() == 0,
            pending_count(events.apps@.slots) == 0,
            events.apps@.slots == Seq::new(
                N as nat,
                |i: int| CoalescedEventSlot { event: None, pending: false },
            ),
            events.apps@.cursor == 0,
            !events.apps@.ready,
            events.apps@.dropped == 0,
            events.apps@.merged == 0,
            events.queue.slots@ == Seq::new(EVENT_CAPACITY as nat, |i: int| None::<CallbackEvent>),
            events.queue.hint == 0,
            events.queue.cursor == 0,
            events.queue.dropped == 0,
    {
        let events = InternalEvents {
            queue: EventQueue::new(),
            apps: CoalescedEvents::new(),
            users: ObservedUsers::new(),
        };
        proof {
            lemma_count_zero(events.apps@.slots);
        }
        events
    }

    /// Files one callback: minutes notices coalesce, the rest queue. The result says
    /// whether the consumer has to be woken.
    pub fn publish(&mut self, event: CallbackEvent) -> (queued: bool)
        requires
            old(self).wf(),
        ensures
            final(self).wf(),
            final(self).users == old(self).users,
            event.header.callback == APP_MINUTES_PLAYED_DATA_NOTICE ==> final(self).queue == old(
                self,
            ).queue && final(self).apps@ == enqueued(old(self).apps@, event).0 && queued
                == enqueued(old(self).apps@, event).1,
            event.header.callback != APP_MINUTES_PLAYED_DATA_NOTICE ==> final(self).apps == old(
                self,
            ).apps && queued == (free_place(
                old(self).queue.slots@,
                old(self).queue.hint as int % EVENT_CAPACITY as int,
                0,
            ) is Some) && final(self).queue.slots@ == (match free_place(
                old(self).queue.slots@,
                old(self).queue.hint as int % EVENT_CAPACITY as int,
                0,
            ) {
                Some(index) => old(self).queue.slots@.update(index, Some(event)),
                None => old(self).queue.slots@,
            }) && final(self).queue.hint == old(self).queue.hint.wrapping_add(1) && final(self).queue.cursor == old(self).queue.cursor && final(self).queue.dropped == (if queued {
                old(self).queue.dropped
            } else {
                old(self).queue.dropped.wrapping_add(1)
            }),
    {
        if event.header.callback == APP_MINUTES_PLAYED_DATA_NOTICE {
            self.apps.enqueue(event)
        } else {
            self.queue.enqueue(event)
        }
    }

    /// Follows a callback that Steam runs for a user: one that has a consumer, and comes for
    /// the account that is logged on, is filed. The result says whether the consumer has to
    /// be woken.
    pub fn run_internal_callback(
        &mut self,
        steam_user: i32,
        callback: i32,
        context: &SteamContext,
        identity: Identity,
        payload: Option<&[u8]>,
    ) -> (queued: bool)
        requires
            old(self).wf(),
            callback == APP_MINUTES_PLAYED_DATA_NOTICE && payload is Some ==> payload->0@.len()
                == 4,
        ensures
            final(self).wf(),
            ({
                let handled = callback == APP_MINUTES_PLAYED_DATA_NOTICE
                    && context.answers_for(steam_user, identity) && payload is Some;
                if handled {
                    &&& final(self).queue == old(self).queue
                    &&& final(self).users == old(self).users
                    &&& exists|event: CallbackEvent|
                        {
                            &&& event.header == (CallbackHeader {
                                steam_user,
                                callback,
                                payload_size: 4,
                            })
                            &&& event.identity_generation == identity.generation
                            &&& event.steam_id64 == identity.steam_id
                            &&& event.payload@ == padded_payload(payload->0@)
                            &&& (final(self).apps@, queued) == #[trigger] enqueued(
                                old(self).apps@,
                                event,
                            )
                        }
                } else {
                    !queued && *final(self) == *old(self)
                }
            }),
    {
        let registered: CallbackRegistration = match registration(callback) {
            Some(registered) => registered,
            None => {
                return false;
            },
        };
        let account: Identity = match context.callback_identity(steam_user, identity) {
            Some(account) => account,
            None => {
                return false;
            },
        };
        match CallbackEvent::copy_from(
            steam_user,
            account.generation,
            account.steam_id,
            &registered,
            payload,
        ) {
            Some(event) => self.publish(event),
            None => false,
        }
    }

    /// At most `limit` events: queued ones first, then minutes notices.
    pub fn take_events(&mut self, limit: usize) -> (events: Vec<CallbackEvent>)
        requires
            old(self).wf(),
        ensures
            final(self).wf(),
            final(self).users == old(self).users,
            ({
                let (queue, first) = queue_scan(
                    old(self).queue.slots@,
                    old(self).queue.cursor as int % EVENT_CAPACITY as int,
                    0,
                    Seq::empty(),
                    limit as int,
                );
                &&& final(self).queue.slots@ == queue
                &&& final(self).apps@ == handed_out(old(self).apps@, first, limit as int).0
                &&& events@ == handed_out(old(self).apps@, first, limit as int).1
            }),
            final(self).queue.cursor == old(self).queue.cursor.wrapping_add(1),
            final(self).queue.hint == old(self).queue.hint,
            final(self).queue.dropped == old(self).queue.dropped,
    {
        let mut events: Vec<CallbackEvent> = self.queue.take(limit);
        self.apps.take_into(&mut events, limit);
        events
    }

    /// The counters in one line.
    pub fn diagnostic_status(&self, handlers: usize) -> (line: String)
        requires
            self.wf(),
        ensures
            line@ == status_line(
                self.users.users@.len(),
                handlers as nat,
                filled_count(self.queue.slots@) + pending_count(self.apps@.slots),
                self.apps@.slots.filter(|slot: CoalescedEventSlot| slot.event is Some).len(),
                self.apps.merged as nat,
                if self.queue.dropped + self.apps.dropped <= u32::MAX {
                    (self.queue.dropped + self.apps.dropped) as nat
                } else {
                    u32::MAX as nat
                },
            ),
    {
        let pending: u128 = self.queue.pending() as u128 + self.apps.pending() as u128;
        let mut line: String = "internal_users=".to_owned();
        line.append(decimal(self.users.users.len() as u64).as_str());
        line.append(" internal_handlers=");
        line.append(decimal(handlers as u64).as_str());
        line.append(" internal_pending=");
        line.append(wide_decimal(pending).as_str());
        line.append(" internal_app_slots=");
        line.append(decimal(self.apps.used() as u64).as_str());
        line.append(" internal_merged=");
        line.append(decimal(self.apps.merged as u64).as_str());
        line.append(" internal_dropped=");
        line.append(
            decimal(self.queue.dropped.saturating_add(self.apps.dropped) as u64).as_str(),
        );
        line
    }
}

/// Storing a notice displaces nothing that still counts: a place that holds another notice of
/// the same account, generation and user stays as it is, waiting or not, and at most one place
/// changes at all.
pub proof fn law_storing_displaces_only_stale_notices(table: CoalescedView, event: CallbackEvent)
    requires
        table.wf(),
    ensures
        enqueued(table, event).0.slots.len() == table.slots.len(),
        forall|i: int|
            0 <= i < table.slots.len() && (#[trigger] table.slots[i]).event is Some && ({
                let kept = table.slots[i].event->0;
                kept != event && kept.identity_generation == event.identity_generation
                    && kept.steam_id64 == event.steam_id64 && kept.header.steam_user
                    == event.header.steam_user
            }) ==> enqueued(table, event).0.slots[i] == table.slots[i],
        forall|i: int, j: int|
            0 <= i < table.slots.len() && 0 <= j < table.slots.len()
                && #[trigger] enqueued(table, event).0.slots[i] != table.slots[i]
                && #[trigger] enqueued(table, event).0.slots[j] != table.slots[j] ==> i == j,
        event.decoded::<AppMinutesPlayedDataNotice>() is None ==> enqueued(table, event) == (
            table,
            false,
        ),
{
    let size = table.slots.len() as int;
    if event.decoded::<AppMinutesPlayedDataNotice>() is Some {
        assert(0 <= home_of(event, size) < size);
        lemma_landing(table.slots, event, home_of(event, size), 0);
    }
}

/// Whether an event stands among events, from a place on.
pub open spec fn stands_from(events: Seq<CallbackEvent>, from: int, event: CallbackEvent) -> bool {
    exists|k: int| from <= k < events.len() && #[trigger] events[k] == event
}

/// Whether an event was waiting in a place that waits no longer.
pub open spec fn was_waiting(
    before: Seq<CoalescedEventSlot>,
    after: Seq<CoalescedEventSlot>,
    event: CallbackEvent,
) -> bool {
    exists|i: int|
        0 <= i < before.len() && (#[trigger] before[i]).pending && before[i].event == Some(event)
            && !after[i].pending
}

#[verifier::rlimit(40)]
proof fn lemma_scan_moves_events(
    slots: Seq<CoalescedEventSlot>,
    start: int,
    offset: int,
    taken: Seq<CallbackEvent>,
    limit: int,
)
    requires
        0 <= start < slots.len(),
        0 <= offset,
        forall|i: int|
            0 <= i < slots.len() && (#[trigger] slots[i]).pending ==> slots[i].event is Some,
    ensures
        ({
            let pass = scan(slots, start, offset, taken, limit);
            &&& pass.taken.len() >= taken.len()
            &&& forall|k: int| 0 <= k < taken.len() ==> #[trigger] pass.taken[k] == taken[k]
            &&& forall|k: int|
                taken.len() <= k < pass.taken.len() ==> was_waiting(
                    slots,
                    pass.slots,
                    #[trigger] pass.taken[k],
                )
            &&& forall|i: int|
                0 <= i < slots.len() && (#[trigger] slots[i]).pending && !pass.slots[i].pending
                    ==> stands_from(pass.taken, taken.len() as int, slots[i].event->0)
        }),
    decreases slots.len() - offset,
{
    if !(offset >= slots.len() || taken.len() >= limit) {
        let index = ring_index(start, offset, slots.len() as int);
        let slot = slots[index];
        let pass = scan(slots, start, offset, taken, limit);
        if slot.pending {
            let next = slots.update(index, CoalescedEventSlot { pending: false, ..slot });
            let more = taken.push(slot.event->0);
            lemma_scan_moves_events(next, start, offset + 1, more, limit);
            lemma_scan_keeps_events(next, start, offset + 1, more, limit);
            assert(pass == scan(next, start, offset + 1, more, limit));
            assert(!next[index].pending);
            assert(!pass.slots[index].pending);
            assert(pass.taken[taken.len() as int] == more[taken.len() as int]);
            assert forall|k: int| 0 <= k < taken.len() implies #[trigger] pass.taken[k]
                == taken[k] by {
                assert(pass.taken[k] == more[k]);
            }
            assert forall|k: int| taken.len() <= k < pass.taken.len() implies was_waiting(
                slots,
                pass.slots,
                #[trigger] pass.taken[k],
            ) by {
                if k == taken.len() {
                    assert(slots[index].pending && slots[index].event == Some(pass.taken[k]));
                } else {
                    assert(was_waiting(next, pass.slots, pass.taken[k]));
                    let i = choose|i: int|
                        0 <= i < next.len() && (#[trigger] next[i]).pending && next[i].event
                            == Some(pass.taken[k]) && !pass.slots[i].pending;
                    assert(slots[i] == next[i]);
                }
            }
            assert forall|i: int|
                0 <= i < slots.len() && (#[trigger] slots[i]).pending
                    && !pass.slots[i].pending implies stands_from(
                pass.taken,
                taken.len() as int,
                slots[i].event->0,
            ) by {
                if i == index {
                    assert(pass.taken[taken.len() as int] == slots[i].event->0);
                } else {
                    assert(next[i] == slots[i]);
                    assert(stands_from(pass.taken, more.len() as int, next[i].event->0));
                    let k = choose|k: int|
                        more.len() <= k < pass.taken.len() && #[trigger] pass.taken[k]
                            == next[i].event->0;
                    assert(pass.taken[k] == slots[i].event->0);
                }
            }
        } else {
            lemma_scan_moves_events(slots, start, offset + 1, taken, limit);
            assert(pass == scan(slots, start, offset + 1, taken, limit));
        }
    }
}

/// What is handed out is what was waiting: each event behind those at hand was waiting in a
/// place that waits no longer, and each place that waits no longer has its event handed out.
/// No place begins to wait, and none loses the event it holds.
pub proof fn law_waiting_events_are_handed_out(
    table: CoalescedView,
    taken: Seq<CallbackEvent>,
    limit: int,
)
    requires
        table.wf(),
    ensures
        ({
            let (after, events) = handed_out(table, taken, limit);
            &&& after.slots.len() == table.slots.len()
            &&& forall|k: int| 0 <= k < taken.len() ==> #[trigger] events[k] == taken[k]
            &&& forall|k: int|
                taken.len() <= k < events.len() ==> was_waiting(
                    table.slots,
                    after.slots,
                    #[trigger] events[k],
                )
            &&& forall|i: int|
                0 <= i < table.slots.len() && (#[trigger] table.slots[i]).pending
                    && !after.slots[i].pending ==> stands_from(
                    events,
                    taken.len() as int,
                    table.slots[i].event->0,
                )
            &&& forall|i: int|
                0 <= i < table.slots.len() ==> (#[trigger] after.slots[i]).event
                    == table.slots[i].event && (after.slots[i].pending ==> table.slots[i].pending)
            &&& taken.len() <= limit ==> events.len() <= limit
        }),
{
    if !(taken.len() >= limit || !table.ready) {
        lemma_scan(table.slots, table.cursor, 0, taken, limit);
        lemma_scan_moves_events(table.slots, table.cursor, 0, taken, limit);
        lemma_scan_keeps_events(table.slots, table.cursor, 0, taken, limit);
    }
}

proof fn lemma_free_place(slots: Seq<Option<CallbackEvent>>, start: int, offset: int)
    requires
        0 <= start < slots.len(),
        0 <= offset,
    ensures
        match free_place(slots, start, offset) {
            Some(index) => 0 <= index < slots.len() && slots[index] is None,
            None => forall|k: int|
                offset <= k < slots.len() ==> slots[#[trigger] ring_index(
                    start,
                    k,
                    slots.len() as int,
                )] is Some,
        },
    decreases slots.len() - offset,
{
    if offset < slots.len() && slots[ring_index(start, offset, slots.len() as int)] is Some {
        lemma_free_place(slots, start, offset + 1);
    }
}

/// An event is dropped only where every place is filled; otherwise it comes to a free place.
pub proof fn law_events_are_queued_while_there_is_room(
    slots: Seq<Option<CallbackEvent>>,
    start: int,
)
    requires
        0 <= start < slots.len(),
    ensures
        free_place(slots, start, 0) is None <==> forall|i: int|
            0 <= i < slots.len() ==> (#[trigger] slots[i]) is Some,
        free_place(slots, start, 0) matches Some(index) ==> 0 <= index < slots.len()
            && slots[index] is None,
{
    lemma_free_place(slots, start, 0);
    let size = slots.len() as int;
    if free_place(slots, start, 0) is None {
        assert forall|i: int| 0 <= i < size implies (#[trigger] slots[i]) is Some by {
            let k = if i >= start {
                i - start
            } else {
                i - start + size
            };
            assert(ring_index(start, k, size) == i);
        }
    }
}

/// Whether an event left a place empty.
pub open spec fn left_a_place(
    before: Seq<Option<CallbackEvent>>,
    after: Seq<Option<CallbackEvent>>,
    event: CallbackEvent,
) -> bool {
    exists|i: int| 0 <= i < before.len() && #[trigger] before[i] == Some(event) && after[i] is None
}

#[verifier::rlimit(40)]
proof fn lemma_queue_scan(
    slots: Seq<Option<CallbackEvent>>,
    start: int,
    offset: int,
    taken: Seq<CallbackEvent>,
    limit: int,
)
    requires
        0 <= start < slots.len(),
        0 <= offset <= slots.len(),
        forall|k: int|
            0 <= k < offset ==> slots[#[trigger] ring_index(start, k, slots.len() as int)] is None,
    ensures
        ({
            let after = queue_scan(slots, start, offset, taken, limit).0;
            let events = queue_scan(slots, start, offset, taken, limit).1;
            &&& after.len() == slots.len()
            &&& events.len() >= taken.len()
            &&& taken.len() <= limit ==> events.len() <= limit
            &&& forall|k: int| 0 <= k < taken.len() ==> #[trigger] events[k] == taken[k]
            &&& forall|i: int|
                0 <= i < slots.len() ==> (#[trigger] after[i]) is None || after[i] == slots[i]
            &&& forall|k: int|
                taken.len() <= k < events.len() ==> left_a_place(
                    slots,
                    after,
                    #[trigger] events[k],
                )
            &&& forall|i: int|
                0 <= i < slots.len() && (#[trigger] slots[i]) is Some && after[i] is None
                    ==> stands_from(events, taken.len() as int, slots[i]->0)
            &&& events.len() < limit ==> forall|k: int|
                0 <= k < slots.len() ==> after[#[trigger] ring_index(
                    start,
                    k,
                    slots.len() as int,
                )] is None
        }),
    decreases slots.len() - offset,
{
    let size = slots.len() as int;
    if !(offset >= size || taken.len() >= limit) {
        let index = ring_index(start, offset, size);
        let after = queue_scan(slots, start, offset, taken, limit).0;
        let events = queue_scan(slots, start, offset, taken, limit).1;
        match slots[index] {
            Some(event) => {
                let next = slots.update(index, None);
                let more = taken.push(event);
                assert forall|k: int| 0 <= k < offset + 1 implies next[#[trigger] ring_index(
                    start,
                    k,
                    size,
                )] is None by {
                    if k < offset {
                        assert(slots[ring_index(start, k, size)] is None);
                    }
                }
                lemma_queue_scan(next, start, offset + 1, more, limit);
                assert(next[index] is None);
                assert(after[index] is None);
                assert(events[taken.len() as int] == more[taken.len() as int]);
                assert forall|k: int| 0 <= k < taken.len() implies #[trigger] events[k]
                    == taken[k] by {
                    assert(events[k] == more[k]);
                }
                assert forall|k: int| taken.len() <= k < events.len() implies left_a_place(
                    slots,
                    after,
                    #[trigger] events[k],
                ) by {
                    if k == taken.len() {
                        assert(slots[index] == Some(events[k]));
                    } else {
                        assert(left_a_place(next, after, events[k]));
                        let i = choose|i: int|
                            0 <= i < next.len() && #[trigger] next[i] == Some(events[k])
                                && after[i] is None;
                        assert(slots[i] == Some(events[k]));
                    }
                }
                assert forall|i: int|
                    0 <= i < slots.len() && (#[trigger] slots[i]) is Some
                        && after[i] is None implies stands_from(
                    events,
                    taken.len() as int,
                    slots[i]->0,
                ) by {
                    if i == index {
                        assert(events[taken.len() as int] == slots[i]->0);
                    } else {
                        assert(next[i] == slots[i]);
                        assert(stands_from(events, more.len() as int, next[i]->0));
                        let k = choose|k: int|
                            more.len() <= k < events.len() && #[trigger] events[k] == next[i]->0;
                        assert(events[k] == slots[i]->0);
                    }
                }
            },
            None => {
                assert forall|k: int| 0 <= k < offset + 1 implies slots[#[trigger] ring_index(
                    start,
                    k,
                    size,
                )] is None by {}
                lemma_queue_scan(slots, start, offset + 1, taken, limit);
            },
        }
    }
}

/// Taking from the queue loses nothing and repeats nothing: each event taken leaves a filled
/// place empty, each place that becomes empty had its event taken, and the others stay. Fewer
/// than asked for are taken only where the queue is empty afterwards.
pub proof fn law_queued_events_are_taken(
    slots: Seq<Option<CallbackEvent>>,
    start: int,
    limit: int,
)
    requires
        0 <= start < slots.len(),
        0 <= limit,
    ensures
        ({
            let after = queue_scan(slots, start, 0, Seq::empty(), limit).0;
            let events = queue_scan(slots, start, 0, Seq::empty(), limit).1;
            &&& after.len() == slots.len()
            &&& events.len() <= limit
            &&& forall|i: int|
                0 <= i < slots.len() ==> (#[trigger] after[i]) is None || after[i] == slots[i]
            &&& forall|k: int|
                0 <= k < events.len() ==> left_a_place(slots, after, #[trigger] events[k])
            &&& forall|i: int|
                0 <= i < slots.len() && (#[trigger] slots[i]) is Some && after[i] is None
                    ==> stands_from(events, 0, slots[i]->0)
            &&& events.len() < limit ==> forall|i: int|
                0 <= i < slots.len() ==> (#[trigger] after[i]) is None
        }),
{
    let size = slots.len() as int;
    let none = Seq::<CallbackEvent>::empty();
    lemma_queue_scan(slots, start, 0, none, limit);
    let after = queue_scan(slots, start, 0, none, limit).0;
    let events = queue_scan(slots, start, 0, none, limit).1;
    if events.len() < limit {
        assert forall|i: int| 0 <= i < size implies (#[trigger] after[i]) is None by {
            let k = if i >= start {
                i - start
            } else {
                i - start + size
            };
            assert(ring_index(start, k, size) == i);
        }
    }
}

/// A stored event is stale for another exactly where the account, its generation or the user
/// differ; an event is never stale for itself, nor for one of the same account and user.
pub proof fn law_events_of_one_account_are_not_stale(existing: CallbackEvent, event: CallbackEvent)
    ensures
        existing.identity_generation == event.identity_generation && existing.steam_id64
            == event.steam_id64 && existing.header.steam_user == event.header.steam_user
            ==> !stale_context(existing, event),
        existing.identity_generation != event.identity_generation ==> stale_context(existing, event),
        existing.steam_id64 != event.steam_id64 ==> stale_context(existing, event),
        existing.header.steam_user != event.header.steam_user ==> stale_context(existing, event),
        stale_context(existing, event) == stale_context(event, existing),
{
}

proof fn lemma_scan_goes_on(
    slots: Seq<CoalescedEventSlot>,
    start: int,
    offset: int,
    taken: Seq<CallbackEvent>,
    limit: int,
)
    requires
        0 <= start < slots.len(),
        0 <= offset <= slots.len(),
    ensures
        ({
            let pass = scan(slots, start, offset, taken, limit);
            &&& offset <= pass.scanned <= slots.len()
            &&& pass.taken.len() < limit ==> pass.scanned == slots.len()
        }),
    decreases slots.len() - offset,
{
    if offset < slots.len() && taken.len() < limit {
        let index = ring_index(start, offset, slots.len() as int);
        let slot = slots[index];
        if slot.pending {
            lemma_scan_goes_on(
                slots.update(index, CoalescedEventSlot { pending: false, ..slot }),
                start,
                offset + 1,
                taken.push(slot.event->0),
                limit,
            );
        } else {
            lemma_scan_goes_on(slots, start, offset + 1, taken, limit);
        }
    }
}

/// A pass that leaves room has looked at every place, and the table then needs no other until
/// something new is stored.
pub proof fn law_whole_passes_need_no_other(
    table: CoalescedView,
    taken: Seq<CallbackEvent>,
    limit: int,
)
    requires
        table.wf(),
        handed_out(table, taken, limit).1.len() < limit,
    ensures
        !handed_out(table, taken, limit).0.ready,
{
    if taken.len() < limit && table.ready {
        lemma_scan_goes_on(table.slots, table.cursor, 0, taken, limit);
    }
}

} // verus!
