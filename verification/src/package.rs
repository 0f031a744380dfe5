//! Updates of the process's package list: when one is due, who runs it, and what it
//! changes.
use crate::bytes::{byte_bound, law_le_bytes_round_trip, le_bytes, le_value, to_le_bytes};
use crate::lists::{contains_u32, fast_removed, find_and_fast_remove};
use crate::network::{AddressSpan, is_data_word, lies_in_data};
use vstd::prelude::*;

verus! {

/// The status of a package whose info is complete.
pub const PKG_STATUS_AVAILABLE: u32 = 0;

/// How often an incomplete license list is looked at again.
pub const MAX_LICENSE_REFRESH_ATTEMPTS: u32 = 40;

/// A Steam application.
#[derive(Clone, Copy, Debug, PartialEq, Eq, PartialOrd, Ord, Hash, Structural)]
pub struct AppId(pub u32);

/// The access token of package 0.
pub const PKG0_ACCESS_TOKEN: u64 = 10660652434190618804;

/// An update that waits for its work item.
#[derive(Debug)]
pub struct PendingUpdate {
    pub controlled: Vec<AppId>,
    pub generation: u64,
}

/// The newest update, and the generation whose work item is under way.
#[derive(Debug)]
pub struct UpdateDispatch {
    pub pending: Option<PendingUpdate>,
    pub posted_generation: Option<u64>,
}

/// The values of an update that waits.
#[verifier::ext_equal]
pub struct PendingView {
    pub controlled: Seq<AppId>,
    pub generation: u64,
}

/// The values of an update dispatch.
#[verifier::ext_equal]
pub struct DispatchView {
    pub pending: Option<PendingView>,
    pub posted_generation: Option<u64>,
}

impl View for UpdateDispatch {
    type V = DispatchView;

    open spec fn view(&self) -> DispatchView {
        DispatchView {
            pending: match self.pending {
                Some(pending) => Some(
                    PendingView {
                        controlled: pending.controlled@,
                        generation: pending.generation,
                    },
                ),
                None => None,
            },
            posted_generation: self.posted_generation,
        }
    }
}

impl DispatchView {
    /// Whether the waiting update is of this generation.
    pub open spec fn waits_for(self, generation: u64) -> bool {
        self.pending is Some && self.pending->0.generation == generation
    }

    /// Whether a work item can be claimed for a generation.
    pub open spec fn can_arm(self, generation: u64) -> bool {
        self.posted_generation is None && self.waits_for(generation)
    }

    /// With a newer update in place of what waited.
    pub open spec fn replaced(self, controlled: Seq<AppId>, generation: u64) -> DispatchView {
        DispatchView { pending: Some(PendingView { controlled, generation }), ..self }
    }

    /// With the work item of a generation claimed.
    pub open spec fn armed(self, generation: u64) -> DispatchView {
        DispatchView { posted_generation: Some(generation), ..self }
    }

    /// The generation whose work item an attempt to post claims.
    pub open spec fn post_of(self, possible: bool, generation: u64) -> Option<u64> {
        if possible && self.can_arm(generation) {
            Some(generation)
        } else {
            None
        }
    }

    /// After an attempt to post.
    pub open spec fn after_post(self, possible: bool, generation: u64) -> DispatchView {
        if possible && self.can_arm(generation) {
            self.armed(generation)
        } else {
            self
        }
    }

    /// What the work item of a generation finds to do.
    pub open spec fn work_for(self, generation: u64) -> Option<Seq<AppId>> {
        if self.posted_generation == Some(generation) && self.waits_for(generation) {
            Some(self.pending->0.controlled)
        } else {
            None
        }
    }

    /// After the work item of a generation took what waited.
    pub open spec fn taken(self, generation: u64) -> DispatchView {
        if self.posted_generation == Some(generation) {
            DispatchView { pending: None, ..self }
        } else {
            self
        }
    }

    /// After the work item of a generation could not be posted: what waited for it is given
    /// up.
    pub open spec fn rejected(self, generation: u64) -> DispatchView {
        if self.posted_generation != Some(generation) {
            self
        } else if self.waits_for(generation) {
            DispatchView { pending: None, posted_generation: None }
        } else {
            DispatchView { posted_generation: None, ..self }
        }
    }

    /// After the work item of a generation ended.
    pub open spec fn completed(self, generation: u64) -> DispatchView {
        if self.posted_generation == Some(generation) {
            DispatchView { posted_generation: None, ..self }
        } else {
            self
        }
    }
}

/// The values of apps that may be absent.
pub open spec fn apps_of(apps: Option<Vec<AppId>>) -> Option<Seq<AppId>> {
    match apps {
        Some(apps) => Some(apps@),
        None => None,
    }
}

impl UpdateDispatch {
    pub fn new() -> (dispatch: Self)
        ensures
            dispatch@ == (DispatchView { pending: None, posted_generation: None }),
    {
        UpdateDispatch { pending: None, posted_generation: None }
    }

    /// Only the newest state waits.
    pub fn replace_pending(&mut self, controlled: Vec<AppId>, generation: u64)
        ensures
            final(self)@ == old(self)@.replaced(controlled@, generation),
    {
        self.pending = Some(PendingUpdate { controlled, generation });
    }

    /// Claims the one work item for a generation whose update waits.
    pub fn arm(&mut self, generation: u64) -> (armed: bool)
        ensures
            armed == old(self)@.can_arm(generation),
            final(self)@ == if armed {
                old(self)@.armed(generation)
            } else {
                old(self)@
            },
    {
        if self.posted_generation.is_some() {
            return false;
        }
        let waits: bool = match &self.pending {
            Some(pending) => pending.generation == generation,
            None => false,
        };
        if !waits {
            return false;
        }
        self.posted_generation = Some(generation);
        true
    }

    fn is_posted(&self, generation: u64) -> (posted: bool)
        ensures
            posted == (self@.posted_generation == Some(generation)),
    {
        match self.posted_generation {
            Some(current) => current == generation,
            None => false,
        }
    }

    /// Hands the waiting update to the work item of its generation. The work item of a
    /// generation takes whatever waits; an update of another generation is given up.
    pub fn take_for(&mut self, generation: u64) -> (controlled: Option<Vec<AppId>>)
        ensures
            apps_of(controlled) == old(self)@.work_for(generation),
            final(self)@ == old(self)@.taken(generation),
    {
        if !self.is_posted(generation) {
            return None;
        }
        match self.pending.take() {
            Some(pending) => if pending.generation == generation {
                Some(pending.controlled)
            } else {
                None
            },
            None => None,
        }
    }

    /// Ends the work item of a generation; one of another generation changes nothing.
    pub fn complete(&mut self, generation: u64) -> (completed: bool)
        ensures
            completed == (old(self)@.posted_generation == Some(generation)),
            final(self)@ == old(self)@.completed(generation),
    {
        if !self.is_posted(generation) {
            return false;
        }
        self.posted_generation = None;
        true
    }

    /// Gives a generation up whose work item could not be posted.
    pub fn reject_post(&mut self, generation: u64)
        ensures
            final(self)@ == old(self)@.rejected(generation),
    {
        if !self.complete(generation) {
            return;
        }
        let waits: bool = match &self.pending {
            Some(pending) => pending.generation == generation,
            None => false,
        };
        if waits {
            self.pending = None;
        }
    }
}

/// What of Steam's package side has been seen, by address, and the updates for it.
pub struct PackageState {
    pub cuser: usize,
    pub cuser_generation: u64,
    pub package_store: usize,
    pub pkg0: usize,
    pub injected: bool,
    pub dispatch: UpdateDispatch,
}

/// What decides whether a work item can be posted.
#[derive(Clone, Copy, Debug, PartialEq, Eq, Structural)]
pub struct PostConditions {
    pub capability_ready: bool,
    pub site_known: bool,
    pub generation: u64,
}

impl PostConditions {
    /// Whether a work item could be posted at all.
    pub open spec fn hold_for(self, state: PackageState) -> bool {
        self.capability_ready && self.site_known && state.is_bound(self.generation)
    }
}

impl PackageState {
    /// Nothing of an account is known.
    pub open spec fn is_clear(self) -> bool {
        &&& self.cuser == 0
        &&& self.cuser_generation == 0
        &&& self.package_store == 0
        &&& self.pkg0 == 0
        &&& self.dispatch@ == (DispatchView { pending: None, posted_generation: None })
    }

    /// Whether the user of this generation and the package are known.
    pub open spec fn is_bound(self, generation: u64) -> bool {
        self.cuser != 0 && self.cuser_generation == generation && self.pkg0 != 0
    }

    /// Whether everything but the updates is the same.
    pub open spec fn same_bindings(self, other: PackageState) -> bool {
        &&& self.cuser == other.cuser
        &&& self.cuser_generation == other.cuser_generation
        &&& self.package_store == other.package_store
        &&& self.pkg0 == other.pkg0
        &&& self.injected == other.injected
    }

    /// Whether an update is attempted once something was bound: always after the first one,
    /// and before it as soon as everything is bound.
    pub open spec fn attempts_update(self, generation: u64) -> bool {
        self.injected || (generation != 0 && self.is_bound(generation))
    }

    /// The updates once something was bound: before the first update the controlled apps
    /// wait, as soon as everything is bound.
    pub open spec fn initial_queue(self, generation: u64, controlled: Seq<AppId>) -> DispatchView {
        if !self.injected && self.attempts_update(generation) {
            self.dispatch@.replaced(controlled, generation)
        } else {
            self.dispatch@
        }
    }

    /// The generation whose work item is posted once something was bound.
    pub open spec fn initial_post(self, conditions: PostConditions, controlled: Seq<AppId>) -> Option<
        u64,
    > {
        self.initial_queue(conditions.generation, controlled).post_of(
            self.attempts_update(conditions.generation) && conditions.hold_for(self),
            conditions.generation,
        )
    }

    /// The updates once something was bound and the attempt to post was made.
    pub open spec fn initial_dispatch(
        self,
        conditions: PostConditions,
        controlled: Seq<AppId>,
    ) -> DispatchView {
        self.initial_queue(conditions.generation, controlled).after_post(
            self.attempts_update(conditions.generation) && conditions.hold_for(self),
            conditions.generation,
        )
    }

    /// With the user of a generation.
    pub open spec fn with_cuser(self, this: usize, generation: u64) -> PackageState {
        PackageState { cuser: this, cuser_generation: generation, ..self }
    }

    /// With the first package store that was seen.
    pub open spec fn with_store(self, this: usize) -> PackageState {
        PackageState {
            package_store: if self.package_store == 0 {
                this
            } else {
                self.package_store
            },
            ..self
        }
    }

    /// With a base package, if it can be used.
    pub open spec fn with_pkg0(self, package: usize, header: PackageHeader) -> PackageState {
        PackageState {
            pkg0: if package != 0 && header.is_usable() {
                package
            } else {
                self.pkg0
            },
            ..self
        }
    }

    pub fn new() -> (state: Self)
        ensures
            state.is_clear(),
            !state.injected,
    {
        PackageState {
            cuser: 0,
            cuser_generation: 0,
            package_store: 0,
            pkg0: 0,
            injected: false,
            dispatch: UpdateDispatch::new(),
        }
    }

    /// Forgets everything of an account.
    pub fn reset_account_state(&mut self)
        ensures
            final(self).is_clear(),
            final(self).injected == old(self).injected,
    {
        self.cuser = 0;
        self.cuser_generation = 0;
        self.package_store = 0;
        self.pkg0 = 0;
        self.dispatch = UpdateDispatch::new();
    }

    pub fn account_state_is_clear(&self) -> (clear: bool)
        ensures
            clear == self.is_clear(),
    {
        self.cuser == 0 && self.cuser_generation == 0 && self.package_store == 0 && self.pkg0 == 0
            && self.dispatch.pending.is_none() && self.dispatch.posted_generation.is_none()
    }

    pub fn pkg0_captured(&self) -> (captured: bool)
        ensures
            captured == (self.pkg0 != 0),
    {
        self.pkg0 != 0
    }

    pub fn cuser_captured(&self) -> (captured: bool)
        ensures
            captured == (self.cuser != 0),
    {
        self.cuser != 0
    }

    /// Remembers the first package store.
    pub fn capture_pkg_info_this(&mut self, this: usize)
        ensures
            final(self).same_bindings(old(self).with_store(this)),
            final(self).dispatch@ == old(self).dispatch@,
    {
        if self.package_store == 0 {
            self.package_store = this;
        }
    }

    /// Remembers the user of the present generation, and updates once everything is bound.
    pub fn capture_cuser(
        &mut self,
        this: usize,
        conditions: PostConditions,
        controlled: Vec<AppId>,
    ) -> (posts: Option<u64>)
        ensures
            ({
                let bound = old(self).with_cuser(this, conditions.generation);
                &&& final(self).same_bindings(bound)
                &&& posts == bound.initial_post(conditions, controlled@)
                &&& final(self).dispatch@ == bound.initial_dispatch(conditions, controlled@)
            }),
    {
        if self.cuser != this || self.cuser_generation != conditions.generation {
            self.cuser = this;
            self.cuser_generation = conditions.generation;
        }
        self.queue_initial_injection(conditions, controlled)
    }

    /// Remembers a base package that can be used, and updates once everything is bound.
    pub fn capture_validated_pkg0(
        &mut self,
        package: usize,
        header: PackageHeader,
        conditions: PostConditions,
        controlled: Vec<AppId>,
    ) -> (posts: Option<u64>)
        ensures
            ({
                let bound = old(self).with_pkg0(package, header);
                let captured = package != 0 && header.is_usable();
                &&& final(self).same_bindings(bound)
                &&& captured ==> posts == bound.initial_post(conditions, controlled@)
                    && final(self).dispatch@ == bound.initial_dispatch(conditions, controlled@)
                &&& !captured ==> posts is None && final(self).dispatch@ == old(self).dispatch@
            }),
    {
        if package == 0 || !package_is_usable(&header) {
            return None;
        }
        self.pkg0 = package;
        self.queue_initial_injection(conditions, controlled)
    }

    /// Remembers the store, and the base package that was looked up in it, as long as no base
    /// package is known.
    pub fn try_capture_pkg0_from_package_info(
        &mut self,
        this: usize,
        found: Option<FoundPackage>,
        conditions: PostConditions,
        controlled: Vec<AppId>,
    ) -> (posts: Option<u64>)
        ensures
            ({
                let seen = old(self).with_store(this);
                let captured = old(self).pkg0 == 0 && found is Some && found->0.package != 0
                    && found->0.header.is_usable();
                let bound = seen.with_pkg0(found->0.package, found->0.header);
                &&& captured ==> final(self).same_bindings(bound) && posts == bound.initial_post(
                    conditions,
                    controlled@,
                ) && final(self).dispatch@ == bound.initial_dispatch(conditions, controlled@)
                &&& !captured ==> posts is None && final(self).dispatch@ == old(self).dispatch@
                &&& !captured && old(self).pkg0 == 0 ==> final(self).same_bindings(seen)
                &&& old(self).pkg0 != 0 ==> final(self).same_bindings(*old(self))
            }),
    {
        if self.pkg0 != 0 {
            return None;
        }
        self.capture_pkg_info_this(this);
        match found {
            Some(found) => self.capture_validated_pkg0(
                found.package,
                found.header,
                conditions,
                controlled,
            ),
            None => None,
        }
    }

    /// Attempts an update because something was bound. The first update is queued for the
    /// controlled apps once everything is bound; later on, what waits is posted.
    pub fn queue_initial_injection(
        &mut self,
        conditions: PostConditions,
        controlled: Vec<AppId>,
    ) -> (posts: Option<u64>)
        ensures
            final(self).same_bindings(*old(self)),
            posts == old(self).initial_post(conditions, controlled@),
            final(self).dispatch@ == old(self).initial_dispatch(conditions, controlled@),
    {
        if self.injected {
            return self.try_post_update(conditions);
        }
        let generation: u64 = conditions.generation;
        if generation == 0 || self.cuser == 0 || self.cuser_generation != generation || self.pkg0
            == 0 {
            return None;
        }
        self.dispatch.replace_pending(controlled, generation);
        self.try_post_update(conditions)
    }

    /// Settles the posting of a work item that was claimed: where it failed, its generation is
    /// given up.
    pub fn finish_post(&mut self, generation: u64, posted: bool)
        ensures
            final(self).same_bindings(*old(self)),
            final(self).dispatch@ == if posted {
                old(self).dispatch@
            } else {
                old(self).dispatch@.rejected(generation)
            },
    {
        if !posted {
            self.dispatch.reject_post(generation);
        }
    }

    /// Claims a work item to post, if one can be.
    pub fn try_post_update(&mut self, conditions: PostConditions) -> (generation: Option<u64>)
        ensures
            final(self).same_bindings(*old(self)),
            generation == old(self).dispatch@.post_of(
                conditions.hold_for(*old(self)),
                conditions.generation,
            ),
            final(self).dispatch@ == old(self).dispatch@.after_post(
                conditions.hold_for(*old(self)),
                conditions.generation,
            ),
    {
        if !conditions.capability_ready || self.cuser == 0 || self.cuser_generation
            != conditions.generation || self.pkg0 == 0 || !conditions.site_known {
            return None;
        }
        if self.dispatch.arm(conditions.generation) {
            Some(conditions.generation)
        } else {
            None
        }
    }

    /// Starts the work item of a generation: the apps it updates, unless it is stale
    /// or the context it needs is gone.
    pub fn run_update_work_item(
        &mut self,
        generation: u64,
        identity_generation: u64,
        captured_generation: Option<u64>,
    ) -> (controlled: Option<Vec<AppId>>)
        ensures
            apps_of(controlled) == if identity_generation == generation && captured_generation
                == Some(generation) {
                old(self).dispatch@.work_for(generation)
            } else {
                None
            },
            final(self).dispatch@ == old(self).dispatch@.taken(generation),
            final(self).same_bindings(*old(self)),
    {
        let controlled: Vec<AppId> = match self.dispatch.take_for(generation) {
            Some(controlled) => controlled,
            None => {
                return None;
            },
        };
        if generation != identity_generation {
            return None;
        }
        match captured_generation {
            Some(captured) => if captured == generation {
                Some(controlled)
            } else {
                None
            },
            None => None,
        }
    }

    /// Ends the work item of a generation, and claims a successor for what arrived
    /// meanwhile. An item that is not under way ends nothing.
    pub fn complete_update_work_item(&mut self, generation: u64, conditions: PostConditions) -> (next:
        Option<u64>)
        ensures
            final(self).same_bindings(*old(self)),
            ({
                let ended = old(self).dispatch@.completed(generation);
                let possible = old(self).dispatch@.posted_generation == Some(generation)
                    && conditions.hold_for(*old(self));
                &&& next == ended.post_of(possible, conditions.generation)
                &&& final(self).dispatch@ == ended.after_post(possible, conditions.generation)
            }),
    {
        if !self.dispatch.complete(generation) {
            return None;
        }
        self.try_post_update(conditions)
    }
}

/// What a running work item does.
#[derive(Clone, Copy, Debug, PartialEq, Eq, Structural)]
pub enum UpdateKind {
    /// Fill the list for the first time.
    Initial,
    /// Apply the difference to the last update.
    Reload,
}

/// Whether the package can be accessed: the base package and the user are known, and the
/// functions that an update calls are resolved.
pub open spec fn has_access(state: PackageState, functions: PackageFunctions) -> bool {
    state.pkg0 != 0 && state.cuser != 0 && functions.mark_license is Some
        && functions.process_updates is Some && functions.grow is Some
}

fn from_current(state: &PackageState, functions: &PackageFunctions) -> (access: bool)
    ensures
        access == has_access(*state, *functions),
{
    state.pkg0 != 0 && state.cuser != 0 && functions.mark_license.is_some()
        && functions.process_updates.is_some() && functions.grow.is_some()
}

/// What a running work item does, if it can do anything: it needs the user of its
/// generation and access to the package, and a reload needs a list that was filled.
pub fn update_kind(
    state: &PackageState,
    functions: &PackageFunctions,
    generation: u64,
    list_active: bool,
) -> (kind: Option<UpdateKind>)
    ensures
        kind == if state.cuser_generation != generation || !has_access(*state, *functions) {
            None
        } else if !state.injected {
            Some(UpdateKind::Initial)
        } else if list_active {
            Some(UpdateKind::Reload)
        } else {
            None
        },
{
    if state.cuser_generation != generation || !from_current(state, functions) {
        return None;
    }
    if !state.injected {
        return Some(UpdateKind::Initial);
    }
    if list_active {
        Some(UpdateKind::Reload)
    } else {
        None
    }
}

/// Queues a reload for the present account and attempts to post it; without an account
/// nothing waits and nothing is posted.
pub fn queue_reload(
    state: &mut PackageState,
    controlled: Vec<AppId>,
    conditions: PostConditions,
) -> (posts: Option<u64>)
    ensures
        final(state).same_bindings(*old(state)),
        ({
            let generation = conditions.generation;
            let queued = if generation == 0 {
                old(state).dispatch@
            } else {
                old(state).dispatch@.replaced(controlled@, generation)
            };
            let possible = generation != 0 && conditions.hold_for(*old(state));
            &&& posts == queued.post_of(possible, generation)
            &&& final(state).dispatch@ == queued.after_post(possible, generation)
        }),
{
    if conditions.generation == 0 {
        return None;
    }
    state.dispatch.replace_pending(controlled, conditions.generation);
    state.try_post_update(conditions)
}

/// A reload that arrives while a work item runs is carried by a successor: none can be
/// claimed before the item ends, one can be right after, and it finds the newest apps.
pub proof fn law_reload_during_execution_is_not_lost(
    before: DispatchView,
    generation: u64,
    earlier: Seq<AppId>,
    apps: Seq<AppId>,
)
    requires
        before.can_arm(generation),
    ensures
        ({
            let running = before.armed(generation).taken(generation);
            let queued = running.replaced(earlier, generation).replaced(apps, generation);
            let after = queued.completed(generation);
            &&& before.armed(generation).work_for(generation) == Some(
                before.pending->0.controlled,
            )
            &&& !queued.can_arm(generation)
            &&& after.can_arm(generation)
            &&& after.armed(generation).work_for(generation) == Some(apps)
        }),
{
}

/// At most one work item is under way: while one is, none can be claimed, for whatever
/// generation.
pub proof fn law_one_work_item_at_a_time(before: DispatchView, generation: u64, other: u64)
    requires
        before.can_arm(generation),
    ensures
        !before.armed(generation).can_arm(other),
        other != generation ==> {
            &&& before.armed(generation).work_for(other) is None
            &&& before.armed(generation).taken(other) == before.armed(generation)
            &&& before.armed(generation).completed(other) == before.armed(generation)
        },
{
}

/// What a package says of itself.
#[derive(Clone, Copy, Debug, PartialEq, Eq, Structural)]
pub struct PackageHeader {
    pub package_id: u32,
    pub status: u32,
    pub size: i32,
    pub capacity: u32,
    /// Whether the memory of the id vector is there and aligned.
    pub memory_is_valid: bool,
}

/// A package that was looked up: its address, and what it says of itself.
#[derive(Clone, Copy, Debug, PartialEq, Eq, Structural)]
pub struct FoundPackage {
    pub package: usize,
    pub header: PackageHeader,
}

impl PackageHeader {
    /// Whether it is the base package, and the header of its id vector can be right.
    pub open spec fn is_usable(self) -> bool {
        self.package_id == 0 && self.status == PKG_STATUS_AVAILABLE && 0 <= self.size
            <= self.capacity && (self.capacity > 0 ==> self.memory_is_valid)
    }
}

/// Whether a package can serve as the base package.
pub fn package_is_usable(header: &PackageHeader) -> (usable: bool)
    ensures
        usable == header.is_usable(),
{
    header.package_id == 0 && header.status == PKG_STATUS_AVAILABLE && header.size >= 0
        && header.size as u32 <= header.capacity && (header.capacity == 0
        || header.memory_is_valid)
}

/// The addresses of the functions that an update calls, as far as they are resolved.
#[derive(Clone, Copy, Debug, PartialEq, Eq, Structural)]
pub struct PackageFunctions {
    pub mark_license: Option<usize>,
    pub process_updates: Option<usize>,
    pub grow: Option<usize>,
    pub get_package_info: Option<usize>,
    pub work_item_site: bool,
}

/// The newer address, or the older one where there is no newer.
pub open spec fn newer(resolved: Option<usize>, known: Option<usize>) -> Option<usize> {
    if resolved is Some {
        resolved
    } else {
        known
    }
}

fn keep_newer(resolved: Option<usize>, known: Option<usize>) -> (address: Option<usize>)
    ensures
        address == newer(resolved, known),
{
    match resolved {
        Some(address) => Some(address),
        None => known,
    }
}

/// Takes over what was resolved; what was not stays as it was.
pub fn resolve_functions(functions: &mut PackageFunctions, resolved: &PackageFunctions)
    ensures
        *final(functions) == (PackageFunctions {
            mark_license: newer(resolved.mark_license, old(functions).mark_license),
            process_updates: newer(resolved.process_updates, old(functions).process_updates),
            grow: newer(resolved.grow, old(functions).grow),
            get_package_info: newer(resolved.get_package_info, old(functions).get_package_info),
            work_item_site: old(functions).work_item_site || resolved.work_item_site,
        }),
{
    functions.mark_license = keep_newer(resolved.mark_license, functions.mark_license);
    functions.process_updates = keep_newer(resolved.process_updates, functions.process_updates);
    functions.grow = keep_newer(resolved.grow, functions.grow);
    functions.get_package_info = keep_newer(resolved.get_package_info, functions.get_package_info);
    functions.work_item_site = functions.work_item_site || resolved.work_item_site;
}

/// The address of the package lookup.
pub fn get_package_info_addr(functions: &PackageFunctions) -> (address: Option<usize>)
    ensures
        address == functions.get_package_info,
{
    functions.get_package_info
}

/// Whether every function of an update is resolved.
pub fn all_functions_resolved(functions: &PackageFunctions) -> (resolved: bool)
    ensures
        resolved == (functions.mark_license is Some && functions.process_updates is Some
            && functions.grow is Some && functions.work_item_site
            && functions.get_package_info is Some),
{
    functions.mark_license.is_some() && functions.process_updates.is_some()
        && functions.grow.is_some() && functions.work_item_site
        && functions.get_package_info.is_some()
}

/// Whether a discovered queue site may be used: its grow function lies in the code,
/// and its slot is an aligned word of the data.
pub fn admit_engine_site(
    code_base: usize,
    code_len: usize,
    grow: usize,
    engine_slot: usize,
    data: &[AddressSpan],
    word: usize,
) -> (admitted: bool)
    requires
        word > 0,
    ensures
        admitted == (code_base <= grow && grow < (if code_base + code_len <= usize::MAX {
            code_base + code_len
        } else {
            usize::MAX as int
        }) && is_data_word(data@, engine_slot, word)),
{
    let code_end: usize = code_base.saturating_add(code_len);
    if grow < code_base || grow >= code_end {
        return false;
    }
    lies_in_data(data, engine_slot, word)
}

/// What the header of an engine queue allows.
#[derive(Clone, Copy, Debug, PartialEq, Eq, Structural)]
pub enum QueueStep {
    /// The header cannot be right.
    Refuse,
    /// There is room at this place.
    Append { at: usize },
    /// The queue has to grow first.
    Grow,
}

/// Reads the header of an engine queue, before or after it was asked to grow.
pub fn engine_queue_step(count: i32, capacity: i32, grown: bool) -> (step: QueueStep)
    ensures
        step == if count < 0 || capacity < 0 || (!grown && count > capacity) || (grown && capacity
            <= count) {
            QueueStep::Refuse
        } else if count == capacity {
            QueueStep::Grow
        } else {
            QueueStep::Append { at: count as usize }
        },
{
    if count < 0 || capacity < 0 {
        return QueueStep::Refuse;
    }
    if grown {
        if capacity <= count {
            return QueueStep::Refuse;
        }
    } else if count > capacity {
        return QueueStep::Refuse;
    }
    if count == capacity {
        QueueStep::Grow
    } else {
        QueueStep::Append { at: count as usize }
    }
}

/// Whether the storage of an engine queue can be written to.
pub fn queue_storage_is_usable(storage: usize, word: usize) -> (usable: bool)
    requires
        word > 0,
    ensures
        usable == (storage != 0 && storage as int % word as int == 0),
{
    storage != 0 && storage % word == 0
}

/// Settles an attempt to put a work item into the queue: whether it is posted, and whether
/// its memory is still ours to free. The engine that was locked has to be the present one.
pub fn settle_post(locked: bool, same_engine: bool, appended: bool, unlocked: bool) -> (settled: (
    bool,
    bool,
))
    ensures
        settled.0 == (locked && same_engine && appended && unlocked),
        settled.1 == !(locked && same_engine && appended),
{
    let inserted: bool = locked && same_engine && appended;
    (inserted && unlocked, !inserted)
}

/// The image of a package work item: its name, the generation, and the two functions
/// that Steam calls, in five words.
pub open spec fn update_item_of(
    name: usize,
    generation: u64,
    manager: usize,
    invoker: usize,
    word: int,
) -> Seq<u8> {
    let gap = Seq::new((word * 2 - 8) as nat, |i: int| 0u8);
    le_bytes(name as nat, word as nat) + le_bytes(generation as nat, 8) + gap + le_bytes(
        manager as nat,
        word as nat,
    ) + le_bytes(invoker as nat, word as nat)
}

/// Builds the image of a package work item; none where Steam's items are not five
/// words long.
pub fn update_item(
    item_size: usize,
    name: usize,
    generation: u64,
    manager: usize,
    invoker: usize,
    word: usize,
) -> (image: Option<Vec<u8>>)
    requires
        word == 4 || word == 8,
    ensures
        image is Some <==> item_size == word * 5,
        image is Some ==> image->0@ == update_item_of(
            name,
            generation,
            manager,
            invoker,
            word as int,
        ),
{
    if item_size != word * 5 {
        return None;
    }
    let mut image: Vec<u8> = to_le_bytes(name as u64, word);
    let mut generation_bytes: Vec<u8> = to_le_bytes(generation, 8);
    image.append(&mut generation_bytes);
    let ghost front = image@;
    let gap: usize = word * 2 - 8;
    let mut i: usize = 0;
    assert(front + Seq::new(0, |i: int| 0u8) =~= front);
    while i < gap
        invariant
            i <= gap,
            image@ == front + Seq::new(i as nat, |i: int| 0u8),
        decreases gap - i,
    {
        image.push(0);
        assert(image@ =~= front + Seq::new((i + 1) as nat, |i: int| 0u8));
        i = i + 1;
    }
    let mut manager_bytes: Vec<u8> = to_le_bytes(manager as u64, word);
    image.append(&mut manager_bytes);
    let mut invoker_bytes: Vec<u8> = to_le_bytes(invoker as u64, word);
    image.append(&mut invoker_bytes);
    assert(image@ =~= update_item_of(name, generation, manager, invoker, word as int));
    Some(image)
}

/// What filling the list came to.
pub struct InjectionResult {
    pub appended: Vec<AppId>,
    pub complete: bool,
}

/// The list behind the first `count` appends, and the apps that were appended. An app
/// that is there already is passed over; `accepted` tells which appends found room.
pub open spec fn appended_apps(
    list: Seq<u32>,
    apps: Seq<AppId>,
    accepted: Seq<bool>,
    count: int,
) -> (Seq<u32>, Seq<AppId>)
    decreases count,
{
    if count <= 0 {
        (list, Seq::empty())
    } else {
        let (before, done) = appended_apps(list, apps, accepted, count - 1);
        let app = apps[count - 1];
        if before.contains(app.0) || !accepted[count - 1] {
            (before, done)
        } else {
            (before.push(app.0), done.push(app))
        }
    }
}

/// Whether no append was refused.
pub open spec fn all_accepted(
    list: Seq<u32>,
    apps: Seq<AppId>,
    accepted: Seq<bool>,
    count: int,
) -> bool
    decreases count,
{
    count <= 0 || (all_accepted(list, apps, accepted, count - 1) && (accepted[count - 1]
        || appended_apps(list, apps, accepted, count - 1).0.contains(apps[count - 1].0)))
}

/// Appends the apps that are missing from the list.
pub fn inject(list: &mut Vec<u32>, apps: &[AppId], accepted: &[bool]) -> (result: InjectionResult)
    requires
        apps@.len() == accepted@.len(),
    ensures
        (final(list)@, result.appended@) == appended_apps(
            old(list)@,
            apps@,
            accepted@,
            apps@.len() as int,
        ),
        result.complete == all_accepted(old(list)@, apps@, accepted@, apps@.len() as int),
{
    let mut appended: Vec<AppId> = Vec::new();
    let mut complete: bool = true;
    let mut i: usize = 0;
    while i < apps.len()
        invariant
            i <= apps@.len() == accepted@.len(),
            (list@, appended@) == appended_apps(old(list)@, apps@, accepted@, i as int),
            complete == all_accepted(old(list)@, apps@, accepted@, i as int),
        decreases apps@.len() - i,
    {
        let app: AppId = apps[i];
        if !contains_u32(list.as_slice(), app.0) {
            if accepted[i] {
                list.push(app.0);
                appended.push(app);
            } else {
                complete = false;
            }
        }
        i = i + 1;
    }
    InjectionResult { appended, complete }
}

/// The apps that a reload adds and removes.
pub struct ReloadDiff {
    pub additions: Vec<AppId>,
    pub removals: Vec<AppId>,
}

/// The list behind the first `count` removals, and the apps that were there.
pub open spec fn removed_apps(list: Seq<u32>, apps: Seq<AppId>, count: int) -> (
    Seq<u32>,
    Seq<AppId>,
)
    decreases count,
{
    if count <= 0 {
        (list, Seq::empty())
    } else {
        let (before, done) = removed_apps(list, apps, count - 1);
        let app = apps[count - 1];
        if before.contains(app.0) {
            (fast_removed(before, app.0), done.push(app))
        } else {
            (before, done)
        }
    }
}

/// Applies a reload, removals first, and tells what it really changed.
pub fn apply_reload_diff(list: &mut Vec<u32>, diff: &ReloadDiff, accepted: &[bool]) -> (applied:
    ReloadDiff)
    requires
        diff.additions@.len() == accepted@.len(),
    ensures
        ({
            let (shorter, removed) = removed_apps(
                old(list)@,
                diff.removals@,
                diff.removals@.len() as int,
            );
            let (after, added) = appended_apps(
                shorter,
                diff.additions@,
                accepted@,
                diff.additions@.len() as int,
            );
            &&& final(list)@ == after
            &&& applied.removals@ == removed
            &&& applied.additions@ == added
        }),
{
    let mut removals: Vec<AppId> = Vec::new();
    let mut i: usize = 0;
    while i < diff.removals.len()
        invariant
            i <= diff.removals@.len(),
            (list@, removals@) == removed_apps(old(list)@, diff.removals@, i as int),
        decreases diff.removals@.len() - i,
    {
        let app: AppId = diff.removals[i];
        let ghost before = list@;
        if find_and_fast_remove(list, app.0) {
            removals.push(app);
        } else {
            proof {
                crate::lists::law_removal_finds_what_is_there(before, app.0);
            }
        }
        i = i + 1;
    }
    let result: InjectionResult = inject(list, diff.additions.as_slice(), accepted);
    ReloadDiff { additions: result.appended, removals }
}

/// What the first update came to. What was appended is recorded even where the update is
/// not done.
pub struct InitialUpdate {
    pub appended: Vec<AppId>,
    /// Whether Steam has to be told that the package changed.
    pub publish: bool,
    pub done: bool,
}

/// Fills the list for the first time, once the account's own ownership is on record. The
/// update counts as done when every app of the plan found its place.
pub fn run_initial_update(
    state: &mut PackageState,
    list: &mut Vec<u32>,
    ownership_recorded: bool,
    plan: &[AppId],
    accepted: &[bool],
) -> (update: InitialUpdate)
    requires
        plan@.len() == accepted@.len(),
    ensures
        !ownership_recorded ==> final(list)@ == old(list)@ && update.appended@.len() == 0
            && !update.done,
        ownership_recorded ==> (final(list)@, update.appended@) == appended_apps(
            old(list)@,
            plan@,
            accepted@,
            plan@.len() as int,
        ) && update.done == all_accepted(old(list)@, plan@, accepted@, plan@.len() as int),
        update.publish == (update.appended@.len() > 0),
        final(state).injected == (old(state).injected || update.done),
        final(state).cuser == old(state).cuser,
        final(state).cuser_generation == old(state).cuser_generation,
        final(state).package_store == old(state).package_store,
        final(state).pkg0 == old(state).pkg0,
        final(state).dispatch == old(state).dispatch,
{
    if !ownership_recorded {
        return InitialUpdate { appended: Vec::new(), publish: false, done: false };
    }
    let result: InjectionResult = inject(list, plan, accepted);
    let publish: bool = result.appended.len() > 0;
    if result.complete {
        state.injected = true;
    }
    InitialUpdate { appended: result.appended, publish, done: result.complete }
}

/// Applies a reload to a list that was filled before, once the ownership of what is added is
/// on record. Returns what really changed, and whether Steam has to be told.
pub fn run_reload_update(
    list: &mut Vec<u32>,
    ownership_recorded: bool,
    diff: &ReloadDiff,
    accepted: &[bool],
) -> (update: Option<(ReloadDiff, bool)>)
    requires
        diff.additions@.len() == accepted@.len(),
    ensures
        update is Some <==> ownership_recorded,
        update is None ==> final(list)@ == old(list)@,
        update matches Some((applied, publish)) ==> {
            let (shorter, removed) = removed_apps(
                old(list)@,
                diff.removals@,
                diff.removals@.len() as int,
            );
            let (after, added) = appended_apps(
                shorter,
                diff.additions@,
                accepted@,
                diff.additions@.len() as int,
            );
            &&& final(list)@ == after
            &&& applied.removals@ == removed
            &&& applied.additions@ == added
            &&& publish == (removed.len() > 0 || added.len() > 0)
        },
{
    if !ownership_recorded {
        return None;
    }
    let applied: ReloadDiff = apply_reload_diff(list, diff, accepted);
    let publish: bool = applied.additions.len() > 0 || applied.removals.len() > 0;
    Some((applied, publish))
}

/// A filled list holds every app that was asked for, once no append was refused.
pub proof fn law_complete_list_holds_every_app(
    list: Seq<u32>,
    apps: Seq<AppId>,
    accepted: Seq<bool>,
    count: int,
)
    requires
        0 <= count <= apps.len() == accepted.len(),
        all_accepted(list, apps, accepted, count),
    ensures
        forall|i: int|
            0 <= i < count ==> appended_apps(list, apps, accepted, count).0.contains(
                (#[trigger] apps[i]).0,
            ),
        forall|id: u32| #[trigger]
            list.contains(id) ==> appended_apps(list, apps, accepted, count).0.contains(id),
    decreases count,
{
    if count > 0 {
        law_complete_list_holds_every_app(list, apps, accepted, count - 1);
        let before = appended_apps(list, apps, accepted, count - 1).0;
        let after = appended_apps(list, apps, accepted, count).0;
        let app = apps[count - 1];
        assert forall|id: u32| before.contains(id) implies #[trigger] after.contains(id) by {
            let k = choose|k: int| 0 <= k < before.len() && before[k] == id;
            assert(after[k] == id);
        }
        assert(after.contains(app.0)) by {
            if !before.contains(app.0) {
                assert(after[after.len() - 1] == app.0);
            }
        }
    }
}

/// Whether an app is among apps.
pub open spec fn names_id(apps: Seq<AppId>, id: u32) -> bool {
    exists|i: int| 0 <= i < apps.len() && (#[trigger] apps[i]).0 == id
}

/// Whether an app is among the first `count` apps with an append that Steam takes.
pub open spec fn accepts_id(apps: Seq<AppId>, accepted: Seq<bool>, count: int, id: u32) -> bool {
    exists|i: int| 0 <= i < count && (#[trigger] apps[i]).0 == id && accepted[i]
}

/// Appending keeps what the list held and puts behind it, each once, the apps that were
/// missing and that Steam takes; what is reported as appended is exactly what was put there.
pub proof fn law_appended_apps_stand_behind_the_list(
    list: Seq<u32>,
    apps: Seq<AppId>,
    accepted: Seq<bool>,
    count: int,
)
    requires
        0 <= count <= apps.len() == accepted.len(),
    ensures
        ({
            let (after, added) = appended_apps(list, apps, accepted, count);
            &&& after.len() == list.len() + added.len()
            &&& forall|i: int| 0 <= i < list.len() ==> after[i] == #[trigger] list[i]
            &&& forall|i: int|
                0 <= i < added.len() ==> after[list.len() + i] == (#[trigger] added[i]).0
            &&& forall|i: int|
                0 <= i < added.len() ==> !list.contains((#[trigger] added[i]).0) && accepts_id(
                    apps,
                    accepted,
                    count,
                    added[i].0,
                )
            &&& forall|i: int, j: int|
                0 <= i < j < added.len() ==> (#[trigger] added[i]).0 != (#[trigger] added[j]).0
            &&& forall|id: u32| #[trigger]
                after.contains(id) <==> list.contains(id) || accepts_id(apps, accepted, count, id)
            &&& list.no_duplicates() ==> after.no_duplicates()
        }),
    decreases count,
{
    if count > 0 {
        law_appended_apps_stand_behind_the_list(list, apps, accepted, count - 1);
        let (before, done) = appended_apps(list, apps, accepted, count - 1);
        let (after, added) = appended_apps(list, apps, accepted, count);
        let app = apps[count - 1];
        assert forall|id: u32| accepts_id(apps, accepted, count - 1, id) implies #[trigger]
            accepts_id(apps, accepted, count, id) by {
            let i = choose|i: int|
                0 <= i < count - 1 && (#[trigger] apps[i]).0 == id && accepted[i];
            assert(apps[i].0 == id);
        }
        assert forall|id: u32| #[trigger] accepts_id(apps, accepted, count, id) implies accepts_id(
            apps,
            accepted,
            count - 1,
            id,
        ) || (id == app.0 && accepted[count - 1]) by {
            let i = choose|i: int| 0 <= i < count && (#[trigger] apps[i]).0 == id && accepted[i];
            if i < count - 1 {
                assert(apps[i].0 == id);
            }
        }
        if accepted[count - 1] {
            assert(apps[count - 1].0 == app.0);
            assert(accepts_id(apps, accepted, count, app.0));
        }
        if !(before.contains(app.0) || !accepted[count - 1]) {
            assert(after =~= before.push(app.0));
            assert(added =~= done.push(app));
            assert forall|i: int| 0 <= i < done.len() implies (#[trigger] done[i]).0
                != app.0 by {
                assert(before[list.len() + i] == done[i].0);
            }
            assert forall|i: int| 0 <= i < list.len() implies after[i] == #[trigger] list[i] by {
                assert(after[i] == before[i]);
            }
            assert forall|i: int| 0 <= i < added.len() implies after[list.len() + i] == (
            #[trigger] added[i]).0 by {
                if i < done.len() {
                    assert(added[i] == done[i]);
                    assert(after[list.len() + i] == before[list.len() + i]);
                }
            }
            assert(!list.contains(app.0)) by {
                if list.contains(app.0) {
                    let k = choose|k: int| 0 <= k < list.len() && list[k] == app.0;
                    assert(before[k] == app.0);
                }
            }
            assert forall|i: int| 0 <= i < added.len() implies !list.contains(
                (#[trigger] added[i]).0,
            ) && accepts_id(apps, accepted, count, added[i].0) by {
                if i < done.len() {
                    assert(added[i] == done[i]);
                }
            }
            assert forall|i: int, j: int| 0 <= i < j < added.len() implies (
            #[trigger] added[i]).0 != (#[trigger] added[j]).0 by {
                assert(added[i] == done[i]);
                if j < done.len() {
                    assert(added[j] == done[j]);
                }
            }
            assert forall|id: u32| #[trigger] after.contains(id) <==> before.contains(id) || id
                == app.0 by {
                if before.contains(id) {
                    let k = choose|k: int| 0 <= k < before.len() && before[k] == id;
                    assert(after[k] == id);
                }
                assert(after[before.len() as int] == app.0);
            }
        }
    } else {
        assert forall|id: u32| !#[trigger] accepts_id(apps, accepted, count, id) by {}
    }
}

/// A list counts as filled exactly where every app that was asked for stands in it, each
/// being asked for once.
pub proof fn law_filled_means_every_app_is_there(
    list: Seq<u32>,
    apps: Seq<AppId>,
    accepted: Seq<bool>,
    count: int,
)
    requires
        0 <= count <= apps.len() == accepted.len(),
        apps.no_duplicates(),
    ensures
        all_accepted(list, apps, accepted, count) <==> forall|i: int|
            0 <= i < count ==> appended_apps(list, apps, accepted, count).0.contains(
                (#[trigger] apps[i]).0,
            ),
    decreases count,
{
    if count > 0 {
        law_filled_means_every_app_is_there(list, apps, accepted, count - 1);
        law_appended_apps_stand_behind_the_list(list, apps, accepted, count - 1);
        law_appended_apps_stand_behind_the_list(list, apps, accepted, count);
        let before = appended_apps(list, apps, accepted, count - 1).0;
        let after = appended_apps(list, apps, accepted, count).0;
        let app = apps[count - 1];
        assert forall|i: int| 0 <= i < count - 1 implies (before.contains((#[trigger] apps[i]).0)
            <==> after.contains(apps[i].0)) by {
            assert(apps[i] != app);
            assert(before.contains(apps[i].0) || !before.contains(apps[i].0));
            if before.contains(apps[i].0) {
                let k = choose|k: int| 0 <= k < before.len() && before[k] == apps[i].0;
                assert(after[k] == apps[i].0);
            }
            if after.contains(apps[i].0) {
                let k = choose|k: int| 0 <= k < after.len() && after[k] == apps[i].0;
                if k < before.len() {
                    assert(before[k] == apps[i].0);
                }
            }
        }
        if before.contains(app.0) {
            let k = choose|k: int| 0 <= k < before.len() && before[k] == app.0;
            assert(after[k] == app.0);
        }
        if !before.contains(app.0) && accepted[count - 1] {
            assert(after[before.len() as int] == app.0);
        }
        if all_accepted(list, apps, accepted, count) {
            assert(after.contains(app.0));
        }
        if forall|i: int| 0 <= i < count ==> after.contains((#[trigger] apps[i]).0) {
            assert(after.contains(apps[count - 1].0));
            assert forall|i: int| 0 <= i < count - 1 implies before.contains(
                (#[trigger] apps[i]).0,
            ) by {
                assert(after.contains(apps[i].0));
            }
        }
    }
}

/// Removing takes every named app out of a list without repetitions and nothing else; what is
/// reported as removed is exactly what was named and there, each once and in the order in
/// which it was named.
pub proof fn law_removed_apps_are_gone(list: Seq<u32>, apps: Seq<AppId>, count: int)
    requires
        0 <= count <= apps.len(),
        list.no_duplicates(),
    ensures
        ({
            let (after, removed) = removed_apps(list, apps, count);
            &&& after.no_duplicates()
            &&& forall|id: u32| #[trigger]
                after.contains(id) <==> list.contains(id) && !names_id(apps.take(count), id)
            &&& forall|i: int|
                0 <= i < removed.len() ==> list.contains((#[trigger] removed[i]).0) && names_id(
                    apps.take(count),
                    removed[i].0,
                )
            &&& forall|i: int|
                0 <= i < count && list.contains((#[trigger] apps[i]).0) ==> removed.contains(
                    apps[i],
                )
            &&& removed.no_duplicates()
            &&& apps.no_duplicates() ==> removed == apps.take(count).filter(
                |app: AppId| list.contains(app.0),
            )
        }),
    decreases count,
{
    reveal(Seq::filter);
    if count > 0 {
        law_removed_apps_are_gone(list, apps, count - 1);
        let (before, done) = removed_apps(list, apps, count - 1);
        let (after, removed) = removed_apps(list, apps, count);
        let app = apps[count - 1];
        crate::lists::law_removal_takes_nothing_else(before, app.0);
        assert(apps.take(count).drop_last() =~= apps.take(count - 1));
        assert(apps.take(count).last() == app);
        assert forall|id: u32| #[trigger]
            names_id(apps.take(count), id) <==> names_id(apps.take(count - 1), id) || id
                == app.0 by {
            if names_id(apps.take(count - 1), id) {
                let i = choose|i: int|
                    0 <= i < count - 1 && (#[trigger] apps.take(count - 1)[i]).0 == id;
                assert(apps.take(count)[i].0 == id);
            }
            if names_id(apps.take(count), id) {
                let i = choose|i: int| 0 <= i < count && (#[trigger] apps.take(count)[i]).0 == id;
                if i < count - 1 {
                    assert(apps.take(count - 1)[i].0 == id);
                }
            }
            assert(apps.take(count)[count - 1].0 == app.0);
        }
        assert forall|id: u32| #[trigger]
            after.contains(id) <==> list.contains(id) && !names_id(apps.take(count), id) by {
            assert(before.contains(id) <==> list.contains(id) && !names_id(
                apps.take(count - 1),
                id,
            ));
            if before.contains(app.0) {
                assert(after == fast_removed(before, app.0));
            }
        }
        if before.contains(app.0) {
            assert(removed =~= done.push(app));
            assert forall|i: int| 0 <= i < done.len() implies (#[trigger] done[i]).0
                != app.0 by {}
            assert forall|i: int| 0 <= i < removed.len() implies list.contains(
                (#[trigger] removed[i]).0,
            ) && names_id(apps.take(count), removed[i].0) by {
                if i < done.len() {
                    assert(removed[i] == done[i]);
                }
            }
        }
        assert forall|i: int|
            0 <= i < count && list.contains((#[trigger] apps[i]).0) implies removed.contains(
            apps[i],
        ) by {
            if i < count - 1 {
                assert(done.contains(apps[i]));
                let k = choose|k: int| 0 <= k < done.len() && done[k] == apps[i];
                assert(removed[k] == apps[i]);
            } else if before.contains(app.0) {
                assert(removed[done.len() as int] == app);
            } else {
                assert(names_id(apps.take(count - 1), app.0));
                let k = choose|k: int|
                    0 <= k < count - 1 && (#[trigger] apps.take(count - 1)[k]).0 == app.0;
                assert(apps[k] == app);
                assert(done.contains(apps[k]));
            }
        }
        if apps.no_duplicates() && list.contains(app.0) && !before.contains(app.0) {
            let k = choose|k: int|
                0 <= k < count - 1 && (#[trigger] apps.take(count - 1)[k]).0 == app.0;
            assert(apps[k] == app);
            assert(false);
        }
    } else {
        assert(apps.take(0) =~= Seq::empty());
        assert forall|id: u32| !#[trigger] names_id(apps.take(count), id) by {}
    }
}

/// After a reload of a list without repetitions, an app stands in it exactly where it was
/// added, or was there and not removed. What is reported as removed was there, what is
/// reported as added was not there any more, and Steam is told where anything is reported.
pub proof fn law_reloads_do_what_they_name(
    list: Seq<u32>,
    removals: Seq<AppId>,
    additions: Seq<AppId>,
    accepted: Seq<bool>,
)
    requires
        list.no_duplicates(),
        additions.len() == accepted.len(),
    ensures
        ({
            let (shorter, removed) = removed_apps(list, removals, removals.len() as int);
            let (after, added) = appended_apps(
                shorter,
                additions,
                accepted,
                additions.len() as int,
            );
            &&& after.no_duplicates()
            &&& forall|id: u32| #[trigger]
                after.contains(id) <==> (list.contains(id) && !names_id(removals, id))
                    || accepts_id(additions, accepted, additions.len() as int, id)
            &&& forall|id: u32| #[trigger]
                names_id(removed, id) <==> list.contains(id) && names_id(removals, id)
            &&& forall|id: u32| #[trigger]
                names_id(added, id) <==> accepts_id(
                    additions,
                    accepted,
                    additions.len() as int,
                    id,
                ) && (!list.contains(id) || names_id(removals, id))
            &&& removals.no_duplicates() ==> removed == removals.filter(
                |app: AppId| list.contains(app.0),
            )
        }),
{
    let size = removals.len() as int;
    let (shorter, removed) = removed_apps(list, removals, size);
    let (after, added) = appended_apps(shorter, additions, accepted, additions.len() as int);
    law_removed_apps_are_gone(list, removals, size);
    law_appended_apps_stand_behind_the_list(shorter, additions, accepted, additions.len() as int);
    assert(removals.take(size) =~= removals);
    assert forall|id: u32| #[trigger] names_id(removed, id) <==> list.contains(id) && names_id(
        removals,
        id,
    ) by {
        if list.contains(id) && names_id(removals, id) {
            let i = choose|i: int| 0 <= i < removals.len() && (#[trigger] removals[i]).0 == id;
            assert(removed.contains(removals[i]));
            let k = choose|k: int| 0 <= k < removed.len() && removed[k] == removals[i];
            assert(removed[k].0 == id);
        }
    }
    assert forall|id: u32| #[trigger] names_id(added, id) <==> accepts_id(
        additions,
        accepted,
        additions.len() as int,
        id,
    ) && (!list.contains(id) || names_id(removals, id)) by {
        if names_id(added, id) {
            let k = choose|k: int| 0 <= k < added.len() && (#[trigger] added[k]).0 == id;
            assert(!shorter.contains(added[k].0));
        }
        if accepts_id(additions, accepted, additions.len() as int, id) && !shorter.contains(id) {
            assert(after.contains(id));
            let k = choose|k: int| 0 <= k < after.len() && after[k] == id;
            if k < shorter.len() {
                assert(after[k] == shorter[k]);
            } else {
                assert(after[k] == added[k - shorter.len()].0);
            }
        }
        assert(shorter.contains(id) <==> list.contains(id) && !names_id(removals, id));
    }
    assert forall|id: u32| #[trigger] after.contains(id) <==> (list.contains(id) && !names_id(
        removals,
        id,
    )) || accepts_id(additions, accepted, additions.len() as int, id) by {
        assert(shorter.contains(id) <==> list.contains(id) && !names_id(removals, id));
    }
}

/// The packages of the account that still have to be evaluated.
pub struct PendingLicenses {
    pub packages: Vec<(u32, u64)>,
    pub attempts: u32,
}

/// The license list that waits for its package infos.
pub struct LicenseRefresh {
    pub pending: Option<PendingLicenses>,
}

/// The packages of a license list that are consulted: all but package 0, which holds what
/// was injected.
pub open spec fn consulted(packages: Seq<(u32, u64)>) -> Seq<(u32, u64)> {
    packages.filter(|package: (u32, u64)| package.0 != 0)
}

fn consulted_packages(packages: &Vec<(u32, u64)>) -> (kept: Vec<(u32, u64)>)
    ensures
        kept@ == consulted(packages@),
{
    let mut kept: Vec<(u32, u64)> = Vec::new();
    let mut i: usize = 0;
    proof {
        reveal(Seq::filter);
        assert(packages@.take(0) =~= Seq::empty());
    }
    while i < packages.len()
        invariant
            i <= packages@.len(),
            kept@ == consulted(packages@.take(i as int)),
        decreases packages@.len() - i,
    {
        proof {
            reveal(Seq::filter);
            assert(packages@.take(i + 1).drop_last() =~= packages@.take(i as int));
        }
        if packages[i].0 != 0 {
            kept.push(packages[i]);
        }
        i = i + 1;
    }
    assert(packages@.take(i as int) =~= packages@);
    kept
}

impl LicenseRefresh {
    pub open spec fn wf(self) -> bool {
        self.pending is Some ==> self.pending->0.attempts <= MAX_LICENSE_REFRESH_ATTEMPTS
    }

    pub fn new() -> (refresh: Self)
        ensures
            refresh.wf(),
            refresh.pending is None,
    {
        LicenseRefresh { pending: None }
    }

    /// Remembers the account's licenses; the newest list counts.
    pub fn note_license_list(&mut self, packages: Vec<(u32, u64)>)
        ensures
            final(self).wf(),
            final(self).pending == Some(PendingLicenses { packages, attempts: 0 }),
    {
        self.pending = Some(PendingLicenses { packages, attempts: 0 });
    }

    /// Starts one evaluation: the packages to look up, package 0 not among them. Without a
    /// package store the list waits; after too many attempts it is given up.
    pub fn begin(&mut self, store_captured: bool) -> (packages: Option<Vec<(u32, u64)>>)
        requires
            old(self).wf(),
        ensures
            final(self).wf(),
            packages is Some <==> old(self).pending is Some && store_captured && old(
                self,
            ).pending->0.attempts < MAX_LICENSE_REFRESH_ATTEMPTS,
            packages is Some ==> packages->0@ == consulted(old(self).pending->0.packages@) && final(
                self).pending is Some && final(self).pending->0.packages@ == old(
                self,
            ).pending->0.packages@ && final(self).pending->0.attempts == old(
                self,
            ).pending->0.attempts + 1,
            packages is None ==> final(self).pending == if store_captured {
                None
            } else {
                old(self).pending
            },
    {
        if !store_captured {
            return None;
        }
        match self.pending.take() {
            None => None,
            Some(pending) => {
                if pending.attempts >= MAX_LICENSE_REFRESH_ATTEMPTS {
                    return None;
                }
                let packages: Vec<(u32, u64)> = consulted_packages(&pending.packages);
                self.pending = Some(
                    PendingLicenses {
                        packages: pending.packages,
                        attempts: pending.attempts + 1,
                    },
                );
                Some(packages)
            },
        }
    }

    /// Ends one evaluation; a complete one needs no other.
    pub fn finish(&mut self, complete: bool) -> (attempts: u32)
        requires
            old(self).wf(),
        ensures
            final(self).wf(),
            attempts == match old(self).pending {
                Some(pending) => pending.attempts,
                None => 0,
            },
            final(self).pending == if complete {
                None
            } else {
                old(self).pending
            },
    {
        let attempts: u32 = match &self.pending {
            Some(pending) => pending.attempts,
            None => 0,
        };
        if complete {
            self.pending = None;
        }
        attempts
    }
}

/// The contents of a package that was looked up: known only where its info is complete.
pub fn package_contents(status: Option<u32>, apps: Vec<u32>) -> (contents: Option<Vec<u32>>)
    ensures
        contents == if status == Some(PKG_STATUS_AVAILABLE) {
            Some(apps)
        } else {
            None
        },
{
    match status {
        Some(status) => if status == PKG_STATUS_AVAILABLE {
            Some(apps)
        } else {
            None
        },
        None => None,
    }
}

/// What is known of one controlled app after an evaluation.
#[derive(Clone, Copy, Debug, PartialEq, Eq, Structural)]
pub struct OwnershipFinding {
    pub app_id: AppId,
    pub owned: bool,
}

/// Whether a package with known contents holds the app.
pub open spec fn licensed(infos: Seq<Option<Vec<u32>>>, app_id: u32) -> bool {
    exists|i: int|
        0 <= i < infos.len() && (#[trigger] infos[i]) is Some && infos[i]->0@.contains(app_id)
}

/// Whether every package has known contents.
pub open spec fn all_known(infos: Seq<Option<Vec<u32>>>) -> bool {
    forall|i: int| 0 <= i < infos.len() ==> (#[trigger] infos[i]) is Some
}

/// The findings for the controlled apps. While contents are missing only positive
/// findings are safe: an app may be in a package that is not known yet.
pub open spec fn findings_of(infos: Seq<Option<Vec<u32>>>, controlled: Seq<AppId>) -> Seq<
    OwnershipFinding,
>
    decreases controlled.len(),
{
    if controlled.len() == 0 {
        Seq::empty()
    } else {
        let before = findings_of(infos, controlled.drop_last());
        let app_id = controlled.last();
        let owned = licensed(infos, app_id.0);
        if owned || all_known(infos) {
            before.push(OwnershipFinding { app_id, owned })
        } else {
            before
        }
    }
}

/// The result of one evaluation of the license list.
pub struct OwnershipRefresh {
    pub findings: Vec<OwnershipFinding>,
    pub missing: usize,
    pub complete: bool,
}

/// Evaluates which controlled apps the account's own packages hold. The packages'
/// contents are given in order, none for a package whose info is not there yet.
pub fn run_pending_ownership_refresh(infos: &[Option<Vec<u32>>], controlled: &[AppId]) -> (result:
    OwnershipRefresh)
    ensures
        result.complete == all_known(infos@),
        result.missing == infos@.filter(|info: Option<Vec<u32>>| info is None).len(),
        result.findings@ == findings_of(infos@, controlled@),
{
    let mut missing: usize = 0;
    let mut i: usize = 0;
    let ghost unknown = |info: Option<Vec<u32>>| info is None;
    assert(infos@.take(0).filter(unknown) =~= Seq::empty()) by {
        reveal(Seq::filter);
    }
    while i < infos.len()
        invariant
            i <= infos@.len(),
            missing <= i,
            unknown == (|info: Option<Vec<u32>>| info is None),
            missing == infos@.take(i as int).filter(unknown).len(),
            missing == 0 <==> forall|k: int| 0 <= k < i ==> (#[trigger] infos@[k]) is Some,
        decreases infos@.len() - i,
    {
        proof {
            assert(infos@.take(i + 1).drop_last() =~= infos@.take(i as int));
            reveal(Seq::filter);
        }
        if infos[i].is_none() {
            assert(infos@[i as int] is None);
            missing = missing + 1;
        }
        i = i + 1;
    }
    assert(infos@.take(i as int) =~= infos@);
    let complete: bool = missing == 0;
    let mut findings: Vec<OwnershipFinding> = Vec::new();
    let mut a: usize = 0;
    assert(controlled@.take(0) =~= Seq::empty());
    while a < controlled.len()
        invariant
            a <= controlled@.len(),
            complete == all_known(infos@),
            findings@ == findings_of(infos@, controlled@.take(a as int)),
        decreases controlled@.len() - a,
    {
        assert(controlled@.take(a + 1).drop_last() =~= controlled@.take(a as int));
        let app_id: AppId = controlled[a];
        let mut owned: bool = false;
        let mut k: usize = 0;
        while k < infos.len()
            invariant
                k <= infos@.len(),
                owned == exists|j: int|
                    0 <= j < k && (#[trigger] infos@[j]) is Some && infos@[j]->0@.contains(
                        app_id.0,
                    ),
            decreases infos@.len() - k,
        {
            if let Some(ids) = &infos[k] {
                if contains_u32(ids.as_slice(), app_id.0) {
                    assert(infos@[k as int] is Some);
                    owned = true;
                }
            }
            k = k + 1;
        }
        if owned || complete {
            findings.push(OwnershipFinding { app_id, owned });
        }
        a = a + 1;
    }
    assert(controlled@.take(a as int) =~= controlled@);
    OwnershipRefresh { findings, missing, complete }
}

/// The contents of the consulted packages, where `store` gives those of each package.
pub open spec fn infos_from(
    packages: Seq<(u32, u64)>,
    store: spec_fn((u32, u64)) -> Option<Vec<u32>>,
) -> Seq<Option<Vec<u32>>> {
    consulted(packages).map_values(store)
}

/// An evaluation does not depend on what package 0 holds, or on whether it is known: two
/// stores that differ in package 0 alone give the same findings and are complete together.
pub proof fn law_package_zero_does_not_count(
    packages: Seq<(u32, u64)>,
    controlled: Seq<AppId>,
    store: spec_fn((u32, u64)) -> Option<Vec<u32>>,
    other: spec_fn((u32, u64)) -> Option<Vec<u32>>,
)
    requires
        forall|package: (u32, u64)|
            package.0 != 0 ==> #[trigger] store(package) == other(package),
    ensures
        infos_from(packages, store) == infos_from(packages, other),
        findings_of(infos_from(packages, store), controlled) == findings_of(
            infos_from(packages, other),
            controlled,
        ),
        all_known(infos_from(packages, store)) == all_known(infos_from(packages, other)),
{
    let kept = |package: (u32, u64)| package.0 != 0;
    packages.lemma_filter_len(kept);
    assert forall|i: int| 0 <= i < consulted(packages).len() implies #[trigger] consulted(
        packages,
    )[i].0 != 0 by {
        packages.lemma_filter_pred(kept, i);
    }
    assert(infos_from(packages, store) =~= infos_from(packages, other)) by {
        assert forall|i: int| 0 <= i < consulted(packages).len() implies infos_from(
            packages,
            store,
        )[i] == infos_from(packages, other)[i] by {
            assert(consulted(packages)[i].0 != 0);
            assert(store(consulted(packages)[i]) == other(consulted(packages)[i]));
        }
    }
}

/// Once every package is known, every controlled app has its finding.
pub proof fn law_complete_refresh_judges_every_app(
    infos: Seq<Option<Vec<u32>>>,
    controlled: Seq<AppId>,
)
    requires
        all_known(infos),
    ensures
        findings_of(infos, controlled).len() == controlled.len(),
        forall|i: int|
            0 <= i < controlled.len() ==> #[trigger] findings_of(infos, controlled)[i] == (
            OwnershipFinding {
                app_id: controlled[i],
                owned: licensed(infos, controlled[i].0),
            }),
    decreases controlled.len(),
{
    if controlled.len() > 0 {
        law_complete_refresh_judges_every_app(infos, controlled.drop_last());
    }
}

/// While a package is not known, nothing is taken away: every finding is an app that is
/// owned.
pub proof fn law_incomplete_refresh_takes_nothing_away(
    infos: Seq<Option<Vec<u32>>>,
    controlled: Seq<AppId>,
)
    requires
        !all_known(infos),
    ensures
        forall|i: int|
            0 <= i < findings_of(infos, controlled).len() ==> (#[trigger] findings_of(
                infos,
                controlled,
            )[i]).owned,
    decreases controlled.len(),
{
    if controlled.len() > 0 {
        law_incomplete_refresh_takes_nothing_away(infos, controlled.drop_last());
        let before = findings_of(infos, controlled.drop_last());
        assert forall|i: int| 0 <= i < findings_of(infos, controlled).len() implies (
        #[trigger] findings_of(infos, controlled)[i]).owned by {
            if i < before.len() {
                assert(findings_of(infos, controlled)[i] == before[i]);
            }
        }
    }
}

/// Every controlled app that a known package holds is found to be owned, whether or not the
/// other packages are known; an app that no known package holds is never found to be owned;
/// and nothing is found of an app that is not controlled.
pub proof fn law_licensed_apps_are_found_owned(
    infos: Seq<Option<Vec<u32>>>,
    controlled: Seq<AppId>,
)
    ensures
        forall|i: int, k: int|
            #![trigger controlled[i], infos[k]]
            0 <= i < controlled.len() && 0 <= k < infos.len() && infos[k] is Some
                && infos[k]->0@.contains(controlled[i].0) ==> findings_of(
                infos,
                controlled,
            ).contains(OwnershipFinding { app_id: controlled[i], owned: true }),
        forall|j: int|
            0 <= j < findings_of(infos, controlled).len() ==> {
                let finding = #[trigger] findings_of(infos, controlled)[j];
                &&& controlled.contains(finding.app_id)
                &&& finding.owned <==> exists|k: int|
                    0 <= k < infos.len() && (#[trigger] infos[k]) is Some
                        && infos[k]->0@.contains(finding.app_id.0)
                &&& !finding.owned ==> forall|k: int|
                    0 <= k < infos.len() ==> (#[trigger] infos[k]) is Some
            },
        (forall|k: int| 0 <= k < infos.len() ==> (#[trigger] infos[k]) is Some) ==> findings_of(
            infos,
            controlled,
        ).map_values(|finding: OwnershipFinding| finding.app_id) == controlled,
    decreases controlled.len(),
{
    if controlled.len() > 0 {
        let rest = controlled.drop_last();
        law_licensed_apps_are_found_owned(infos, rest);
        let before = findings_of(infos, rest);
        let after = findings_of(infos, controlled);
        let last = controlled.last();
        assert forall|finding: OwnershipFinding|
            before.contains(finding) implies #[trigger] after.contains(finding) by {
            let j = choose|j: int| 0 <= j < before.len() && before[j] == finding;
            assert(after[j] == finding);
        }
        assert forall|i: int, k: int|
            #![trigger controlled[i], infos[k]]
            0 <= i < controlled.len() && 0 <= k < infos.len() && infos[k] is Some
                && infos[k]->0@.contains(controlled[i].0) implies after.contains(
            OwnershipFinding { app_id: controlled[i], owned: true },
        ) by {
            if i < rest.len() {
                assert(rest[i] == controlled[i]);
                assert(before.contains(OwnershipFinding { app_id: rest[i], owned: true }));
            } else {
                assert(licensed(infos, last.0));
                assert(after[before.len() as int] == OwnershipFinding {
                    app_id: last,
                    owned: true,
                });
            }
        }
        assert forall|j: int| 0 <= j < after.len() implies {
            let finding = #[trigger] after[j];
            &&& controlled.contains(finding.app_id)
            &&& finding.owned <==> exists|k: int|
                0 <= k < infos.len() && (#[trigger] infos[k]) is Some && infos[k]->0@.contains(
                    finding.app_id.0,
                )
            &&& !finding.owned ==> forall|k: int|
                0 <= k < infos.len() ==> (#[trigger] infos[k]) is Some
        } by {
            if j < before.len() {
                assert(after[j] == before[j]);
                let k = choose|k: int| 0 <= k < rest.len() && rest[k] == before[j].app_id;
                assert(controlled[k] == before[j].app_id);
            } else {
                assert(controlled[controlled.len() - 1] == last);
            }
        }
        if all_known(infos) {
            let ids = after.map_values(|finding: OwnershipFinding| finding.app_id);
            let earlier = before.map_values(|finding: OwnershipFinding| finding.app_id);
            assert(ids =~= earlier.push(last));
            assert(controlled =~= rest.push(last));
        }
    } else {
        assert(findings_of(infos, controlled).map_values(
            |finding: OwnershipFinding| finding.app_id,
        ) =~= controlled);
    }
}

/// The first update is queued and posted exactly where all it takes has come together: the
/// user of the present account, the base package, the capability and the site of the queue,
/// and no item under way. What is posted finds the controlled apps to do.
pub proof fn law_the_first_update_waits_for_everything(
    state: PackageState,
    conditions: PostConditions,
    controlled: Seq<AppId>,
)
    requires
        !state.injected,
        conditions.generation != 0,
    ensures
        ({
            let generation = conditions.generation;
            let after = state.initial_dispatch(conditions, controlled);
            let bound = state.cuser != 0 && state.cuser_generation == generation && state.pkg0 != 0;
            &&& state.initial_post(conditions, controlled) is Some <==> bound
                && conditions.capability_ready && conditions.site_known
                && state.dispatch@.posted_generation is None
            &&& state.initial_post(conditions, controlled) is Some ==> state.initial_post(
                conditions,
                controlled,
            ) == Some(generation) && after.work_for(generation) == Some(controlled)
            &&& bound ==> after.pending == Some(PendingView { controlled, generation })
            &&& !bound ==> after == state.dispatch@
        }),
{
}

/// After the first update nothing is queued by what is bound later; what waits for the present
/// account is posted then.
pub proof fn law_later_bindings_post_what_waits(
    state: PackageState,
    conditions: PostConditions,
    controlled: Seq<AppId>,
)
    requires
        state.injected,
    ensures
        state.initial_dispatch(conditions, controlled).pending == state.dispatch@.pending,
        state.initial_post(conditions, controlled) is Some <==> conditions.capability_ready
            && conditions.site_known && state.cuser != 0 && state.cuser_generation
            == conditions.generation && state.pkg0 != 0 && state.dispatch@.posted_generation is None
            && state.dispatch@.pending is Some && state.dispatch@.pending->0.generation
            == conditions.generation,
{
}

/// Of a posted item exactly one thing is left to end: it ends as completed or as rejected, in
/// both cases another can be posted, and what waits for another account stays. What waited for
/// a rejected item is given up, for a completed one it stays.
pub proof fn law_items_end_either_way(queue: DispatchView, generation: u64, other: u64)
    requires
        queue.posted_generation == Some(generation),
    ensures
        queue.completed(generation).posted_generation is None,
        queue.rejected(generation).posted_generation is None,
        queue.completed(generation).pending == queue.pending,
        queue.pending is Some && queue.pending->0.generation != generation ==> queue.rejected(
            generation,
        ).pending == queue.pending,
        queue.pending is Some && queue.pending->0.generation == generation ==> queue.rejected(
            generation,
        ).pending is None,
        queue.taken(generation).pending is None,
        queue.taken(generation).posted_generation == Some(generation),
        other != generation ==> queue.rejected(other) == queue && queue.completed(other) == queue
            && queue.taken(other) == queue && queue.work_for(other) is None,
        queue.work_for(generation) == (if queue.pending is Some && queue.pending->0.generation
            == generation {
            Some(queue.pending->0.controlled)
        } else {
            None
        }),
{
}

/// A work item can be claimed exactly where none is and the account's own update waits.
pub proof fn law_waiting_updates_can_be_claimed(
    queue: DispatchView,
    controlled: Seq<AppId>,
    generation: u64,
    other: u64,
)
    ensures
        queue.posted_generation is None ==> queue.replaced(controlled, generation).post_of(
            true,
            generation,
        ) == Some(generation),
        other != generation ==> queue.replaced(controlled, generation).post_of(true, other) is None,
        queue.post_of(false, generation) is None,
        queue.after_post(false, generation) == queue,
        queue.posted_generation is Some ==> queue.post_of(true, generation) is None,
        queue.replaced(controlled, generation).posted_generation == queue.posted_generation,
{
}

/// The first store that is seen stays, the last base package that can be used counts, and the
/// one does not touch the other.
pub proof fn law_bindings_are_kept_apart(
    state: PackageState,
    this: usize,
    other: usize,
    package: usize,
    header: PackageHeader,
)
    ensures
        this != 0 ==> state.with_store(this).with_store(other).package_store == state.with_store(
            this,
        ).package_store,
        state.package_store == 0 ==> state.with_store(this).package_store == this,
        state.package_store != 0 ==> state.with_store(this).package_store == state.package_store,
        state.with_store(this).pkg0 == state.pkg0 && state.with_store(this).cuser == state.cuser,
        state.with_pkg0(package, header).package_store == state.package_store && state.with_pkg0(
            package,
            header,
        ).cuser == state.cuser,
        package != 0 && header.package_id == 0 && header.status == PKG_STATUS_AVAILABLE
            && header.size >= 0 && header.size <= header.capacity && (header.capacity == 0
            || header.memory_is_valid) ==> state.with_pkg0(package, header).pkg0 == package,
        package == 0 || header.package_id != 0 || header.status != PKG_STATUS_AVAILABLE
            || header.size < 0 || header.size > header.capacity || (header.capacity > 0
            && !header.memory_is_valid) ==> state.with_pkg0(package, header).pkg0 == state.pkg0,
{
}

/// What was resolved is never lost to a look that resolves less.
pub proof fn law_resolved_addresses_stay(resolved: Option<usize>, known: Option<usize>)
    ensures
        newer(resolved, known) is Some <==> resolved is Some || known is Some,
        newer(None, known) == known,
        resolved is Some ==> newer(resolved, known) == resolved,
{
}

/// The five words of a package's work item: its name, the generation, and the two functions,
/// each read back from its place.
pub proof fn law_update_items_hold_their_words(
    name: usize,
    number: u64,
    manager: usize,
    invoker: usize,
    word: int,
)
    requires
        word == 4 || word == 8,
        name < byte_bound(word as nat),
        manager < byte_bound(word as nat),
        invoker < byte_bound(word as nat),
    ensures
        ({
            let image = update_item_of(name, number, manager, invoker, word);
            &&& image.len() == 5 * word
            &&& le_value(image.subrange(0, word)) == name
            &&& le_value(image.subrange(word, word + 8)) == number
            &&& le_value(image.subrange(3 * word, 4 * word)) == manager
            &&& le_value(image.subrange(4 * word, 5 * word)) == invoker
        }),
{
    let image = update_item_of(name, number, manager, invoker, word);
    assert(byte_bound(8) == 0x1_0000_0000_0000_0000) by {
        reveal_with_fuel(byte_bound, 9);
    }
    law_le_bytes_round_trip(name as nat, word as nat);
    law_le_bytes_round_trip(number as nat, 8);
    law_le_bytes_round_trip(manager as nat, word as nat);
    law_le_bytes_round_trip(invoker as nat, word as nat);
    assert(image.subrange(0, word) =~= le_bytes(name as nat, word as nat));
    assert(image.subrange(word, word + 8) =~= le_bytes(number as nat, 8));
    assert(image.subrange(3 * word, 4 * word) =~= le_bytes(manager as nat, word as nat));
    assert(image.subrange(4 * word, 5 * word) =~= le_bytes(invoker as nat, word as nat));
}

/// Every package of a license list is consulted but package 0.
pub proof fn law_all_other_packages_are_consulted(
    packages: Seq<(u32, u64)>,
    package: (u32, u64),
)
    ensures
        package.0 != 0 ==> consulted(packages.push(package)) == consulted(packages).push(package),
        package.0 == 0 ==> consulted(packages.push(package)) == consulted(packages),
        consulted(Seq::empty()) == Seq::<(u32, u64)>::empty(),
{
    reveal(Seq::filter);
    assert(packages.push(package).drop_last() =~= packages);
    assert(packages.push(package).last() == package);
}

/// The queue's header leaves exactly one of three things to do: a place behind all that is
/// there, a growth that is asked for once, or nothing where the numbers cannot be right.
pub proof fn law_queues_are_appended_to_at_their_end(
    count: i32,
    capacity: i32,
    step: QueueStep,
    grown_step: QueueStep,
)
    requires
        call_ensures(engine_queue_step, (count, capacity, false), step),
        call_ensures(engine_queue_step, (count, capacity, true), grown_step),
    ensures
        0 <= count < capacity ==> step == (QueueStep::Append { at: count as usize }) && grown_step
            == step,
        0 <= count == capacity ==> step is Grow && grown_step is Refuse,
        count < 0 || capacity < count ==> step is Refuse && grown_step is Refuse,
{
}

/// An update runs for the account it was posted for and with everything it calls, and not
/// otherwise; the first one fills the list, later ones change a list that was filled.
pub proof fn law_updates_run_with_what_they_call(
    state: PackageState,
    functions: PackageFunctions,
    number: u64,
    list_active: bool,
    kind: Option<UpdateKind>,
)
    requires
        call_ensures(update_kind, (&state, &functions, number, list_active), kind),
    ensures
        kind is Some <==> state.cuser_generation == number && state.cuser != 0 && state.pkg0 != 0
            && functions.mark_license is Some && functions.process_updates is Some
            && functions.grow is Some && (!state.injected || list_active),
        kind is Some ==> (kind->0 is Initial <==> !state.injected),
{
}

/// What binds one thing leaves the others as they were.
pub proof fn law_users_are_bound_alone(state: PackageState, this: usize, number: u64)
    ensures
        ({
            let bound = state.with_cuser(this, number);
            &&& bound.cuser == this && bound.cuser_generation == number
            &&& bound.pkg0 == state.pkg0 && bound.package_store == state.package_store
                && bound.injected == state.injected && bound.dispatch == state.dispatch
            &&& state.same_bindings(bound) <==> state.cuser == this && state.cuser_generation
                == number
        }),
{
}

} // verus!
