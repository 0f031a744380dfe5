//! Which hook capabilities the process has, and why it lacks the others.

use vstd::prelude::*;
use vstd::string::*;

verus! {

#[derive(Clone, Copy, Debug, PartialEq, Eq, Structural)]
pub enum Capability {
    CallbackEvents,
    Ownership,
    PackageInjection,
    TicketOverrides,
    DepotInjection,
    ShaderCacheControl,
    DlcOverrides,
    CmInterception,
    NativeResponseDelivery,
    CloudControl,
    CloudHttp,
    LaunchEnvironment,
    LibraryUi,
    OverviewMetadata,
    LibrarySnapshot,
    ConflictUiBridge,
    LegacyCdKeyControl,
}

/// What happens to a feature whose capability is missing.
#[derive(Clone, Copy, Debug, PartialEq, Eq, Structural)]
pub enum FailurePolicy {
    DisableFeature,
    FailClosed,
}

#[derive(Clone, Copy, Debug, PartialEq, Eq, Structural)]
pub enum CapabilityState {
    Unknown,
    Ready,
    Disabled,
}

/// How many capabilities there are.
pub const CAPABILITY_COUNT: usize = 17;

/// The place of a capability in the list of all.
pub open spec fn place_of(capability: Capability) -> int {
    match capability {
        Capability::CallbackEvents => 0,
        Capability::Ownership => 1,
        Capability::PackageInjection => 2,
        Capability::TicketOverrides => 3,
        Capability::DepotInjection => 4,
        Capability::ShaderCacheControl => 5,
        Capability::DlcOverrides => 6,
        Capability::CmInterception => 7,
        Capability::NativeResponseDelivery => 8,
        Capability::CloudControl => 9,
        Capability::CloudHttp => 10,
        Capability::LaunchEnvironment => 11,
        Capability::LibraryUi => 12,
        Capability::OverviewMetadata => 13,
        Capability::LibrarySnapshot => 14,
        Capability::ConflictUiBridge => 15,
        Capability::LegacyCdKeyControl => 16,
    }
}

/// All capabilities, in their order.
pub open spec fn all_capabilities() -> Seq<Capability> {
    seq![
        Capability::CallbackEvents,
        Capability::Ownership,
        Capability::PackageInjection,
        Capability::TicketOverrides,
        Capability::DepotInjection,
        Capability::ShaderCacheControl,
        Capability::DlcOverrides,
        Capability::CmInterception,
        Capability::NativeResponseDelivery,
        Capability::CloudControl,
        Capability::CloudHttp,
        Capability::LaunchEnvironment,
        Capability::LibraryUi,
        Capability::OverviewMetadata,
        Capability::LibrarySnapshot,
        Capability::ConflictUiBridge,
        Capability::LegacyCdKeyControl,
    ]
}

/// The name of a capability in reports.
pub open spec fn name_of(capability: Capability) -> Seq<char> {
    match capability {
        Capability::CallbackEvents => "callback-events"@,
        Capability::Ownership => "ownership"@,
        Capability::PackageInjection => "package-injection"@,
        Capability::TicketOverrides => "ticket-overrides"@,
        Capability::DepotInjection => "depot-injection"@,
        Capability::ShaderCacheControl => "shader-cache-control"@,
        Capability::DlcOverrides => "dlc-overrides"@,
        Capability::CmInterception => "cm-interception"@,
        Capability::NativeResponseDelivery => "native-response-delivery"@,
        Capability::CloudControl => "cloud-control"@,
        Capability::CloudHttp => "cloud-http"@,
        Capability::LaunchEnvironment => "launch-environment"@,
        Capability::LibraryUi => "library-ui"@,
        Capability::OverviewMetadata => "overview-metadata"@,
        Capability::LibrarySnapshot => "library-snapshot"@,
        Capability::ConflictUiBridge => "conflict-ui-bridge"@,
        Capability::LegacyCdKeyControl => "legacy-cdkey-control"@,
    }
}

impl Capability {
    /// All capabilities, in their order.
    pub fn all() -> (list: Vec<Capability>)
        ensures
            list@ == all_capabilities(),
    {
        let list: Vec<Capability> =
            vec![
            Capability::CallbackEvents,
            Capability::Ownership,
            Capability::PackageInjection,
            Capability::TicketOverrides,
            Capability::DepotInjection,
            Capability::ShaderCacheControl,
            Capability::DlcOverrides,
            Capability::CmInterception,
            Capability::NativeResponseDelivery,
            Capability::CloudControl,
            Capability::CloudHttp,
            Capability::LaunchEnvironment,
            Capability::LibraryUi,
            Capability::OverviewMetadata,
            Capability::LibrarySnapshot,
            Capability::ConflictUiBridge,
            Capability::LegacyCdKeyControl,
        ];
        assert(list@ =~= all_capabilities());
        list
    }

    fn index(self) -> (index: usize)
        ensures
            index == place_of(self),
            index < CAPABILITY_COUNT,
    {
        match self {
            Capability::CallbackEvents => 0,
            Capability::Ownership => 1,
            Capability::PackageInjection => 2,
            Capability::TicketOverrides => 3,
            Capability::DepotInjection => 4,
            Capability::ShaderCacheControl => 5,
            Capability::DlcOverrides => 6,
            Capability::CmInterception => 7,
            Capability::NativeResponseDelivery => 8,
            Capability::CloudControl => 9,
            Capability::CloudHttp => 10,
            Capability::LaunchEnvironment => 11,
            Capability::LibraryUi => 12,
            Capability::OverviewMetadata => 13,
            Capability::LibrarySnapshot => 14,
            Capability::ConflictUiBridge => 15,
            Capability::LegacyCdKeyControl => 16,
        }
    }

    pub fn name(self) -> (name: &'static str)
        ensures
            name@ == name_of(self),
    {
        match self {
            Capability::CallbackEvents => "callback-events",
            Capability::Ownership => "ownership",
            Capability::PackageInjection => "package-injection",
            Capability::TicketOverrides => "ticket-overrides",
            Capability::DepotInjection => "depot-injection",
            Capability::ShaderCacheControl => "shader-cache-control",
            Capability::DlcOverrides => "dlc-overrides",
            Capability::CmInterception => "cm-interception",
            Capability::NativeResponseDelivery => "native-response-delivery",
            Capability::CloudControl => "cloud-control",
            Capability::CloudHttp => "cloud-http",
            Capability::LaunchEnvironment => "launch-environment",
            Capability::LibraryUi => "library-ui",
            Capability::OverviewMetadata => "overview-metadata",
            Capability::LibrarySnapshot => "library-snapshot",
            Capability::ConflictUiBridge => "conflict-ui-bridge",
            Capability::LegacyCdKeyControl => "legacy-cdkey-control",
        }
    }

    /// Whether traffic is blocked while the capability is missing.
    pub open spec fn fails_closed(self) -> bool {
        self is CmInterception || self is NativeResponseDelivery || self is CloudControl
            || self is CloudHttp || self is ConflictUiBridge
    }

    pub fn failure_policy(self) -> (policy: FailurePolicy)
        ensures
            policy == if self.fails_closed() {
                FailurePolicy::FailClosed
            } else {
                FailurePolicy::DisableFeature
            },
    {
        match self {
            Capability::CmInterception => FailurePolicy::FailClosed,
            Capability::NativeResponseDelivery => FailurePolicy::FailClosed,
            Capability::CloudControl => FailurePolicy::FailClosed,
            Capability::CloudHttp => FailurePolicy::FailClosed,
            Capability::ConflictUiBridge => FailurePolicy::FailClosed,
            _ => FailurePolicy::DisableFeature,
        }
    }
}

impl FailurePolicy {
    pub fn name(self) -> (name: &'static str)
        ensures
            name@ == match self {
                FailurePolicy::DisableFeature => "disable-feature"@,
                FailurePolicy::FailClosed => "fail-closed"@,
            },
    {
        match self {
            FailurePolicy::DisableFeature => "disable-feature",
            FailurePolicy::FailClosed => "fail-closed",
        }
    }
}

/// What is known of one capability.
#[derive(Debug)]
pub struct CapabilityStatus {
    pub capability: Capability,
    pub ready: bool,
    pub initialized: bool,
    pub reason: Option<String>,
}

/// What is kept of one capability.
pub struct CapabilityEntry {
    pub state: CapabilityState,
    pub reason: Option<String>,
}

/// The values of one entry.
#[verifier::ext_equal]
pub struct EntryView {
    pub state: CapabilityState,
    pub reason: Option<Seq<char>>,
}

/// The characters of a text that may be absent.
pub open spec fn text_view(text: Option<String>) -> Option<Seq<char>> {
    match text {
        Some(text) => Some(text@),
        None => None,
    }
}

impl View for CapabilityEntry {
    type V = EntryView;

    open spec fn view(&self) -> EntryView {
        EntryView { state: self.state, reason: text_view(self.reason) }
    }
}

/// The state of every capability of the process.
pub struct CapabilityRegistry {
    pub entries: Vec<CapabilityEntry>,
}

/// The entry that a report of readiness leaves. Only a missing capability with a
/// stated reason keeps one.
pub open spec fn reported(ready: bool, reason: Seq<char>) -> EntryView {
    EntryView {
        state: if ready {
            CapabilityState::Ready
        } else {
            CapabilityState::Disabled
        },
        reason: if !ready && reason.len() > 0 {
            Some(reason)
        } else {
            None
        },
    }
}

/// Texts with a separator between them.
pub open spec fn joined(parts: Seq<Seq<char>>, separator: Seq<char>) -> Seq<char>
    decreases parts.len(),
{
    if parts.len() == 0 {
        Seq::empty()
    } else if parts.len() == 1 {
        parts[0]
    } else {
        joined(parts.drop_last(), separator) + separator + parts.last()
    }
}

/// The names of the requirements that are not met, in their order.
pub open spec fn missing_names(requirements: Seq<(&str, bool)>) -> Seq<Seq<char>>
    decreases requirements.len(),
{
    if requirements.len() == 0 {
        Seq::empty()
    } else {
        let before = missing_names(requirements.drop_last());
        if requirements.last().1 {
            before
        } else {
            before.push(requirements.last().0@)
        }
    }
}

/// Whether every requirement is met.
pub open spec fn all_met(requirements: Seq<(&str, bool)>) -> bool {
    forall|i: int| 0 <= i < requirements.len() ==> (#[trigger] requirements[i]).1
}

/// The reason that missing requirements give.
pub open spec fn missing_reason(requirements: Seq<(&str, bool)>) -> Seq<char> {
    "missing "@ + joined(missing_names(requirements), ", "@)
}

proof fn lemma_missing_names(requirements: Seq<(&str, bool)>)
    ensures
        missing_names(requirements).len() == 0 <==> all_met(requirements),
    decreases requirements.len(),
{
    if requirements.len() > 0 {
        let before = requirements.drop_last();
        lemma_missing_names(before);
        if all_met(requirements) {
            assert(forall|i: int| 0 <= i < before.len() ==> before[i] == requirements[i]);
            assert(requirements[requirements.len() - 1].1);
        }
        if missing_names(requirements).len() == 0 {
            assert forall|i: int| 0 <= i < requirements.len() implies (
            #[trigger] requirements[i]).1 by {
                if i < before.len() {
                    assert(before[i].1);
                }
            }
        }
    }
}

impl CapabilityRegistry {
    /// One entry for each capability, and a reason only where it is disabled.
    pub open spec fn wf(self) -> bool {
        &&& self.entries@.len() == CAPABILITY_COUNT
        &&& forall|i: int|
            0 <= i < self.entries@.len() ==> ((#[trigger] self.entries@[i])@.reason is Some
                ==> self.entries@[i]@.state is Disabled)
    }

    /// What is known of a capability.
    pub open spec fn entry(self, capability: Capability) -> EntryView {
        self.entries@[place_of(capability)]@
    }

    /// Nothing is known yet.
    pub fn new() -> (registry: Self)
        ensures
            registry.wf(),
            forall|capability: Capability|
                #[trigger] registry.entry(capability) == (EntryView {
                    state: CapabilityState::Unknown,
                    reason: None,
                }),
    {
        let mut entries: Vec<CapabilityEntry> = Vec::new();
        let mut i: usize = 0;
        while i < CAPABILITY_COUNT
            invariant
                i <= CAPABILITY_COUNT,
                entries@.len() == i,
                forall|k: int|
                    0 <= k < i ==> (#[trigger] entries@[k])@ == (EntryView {
                        state: CapabilityState::Unknown,
                        reason: None,
                    }),
            decreases CAPABILITY_COUNT - i,
        {
            entries.push(CapabilityEntry { state: CapabilityState::Unknown, reason: None });
            i = i + 1;
        }
        CapabilityRegistry { entries }
    }

    /// Reports whether a capability is ready, and why not.
    pub fn set(&mut self, capability: Capability, ready: bool, reason: String)
        requires
            old(self).wf(),
        ensures
            final(self).wf(),
            final(self).entry(capability) == reported(ready, reason@),
            forall|other: Capability|
                other != capability ==> #[trigger] final(self).entry(other) == old(self).entry(
                    other,
                ),
    {
        let index: usize = capability.index();
        let entry: CapabilityEntry = if ready {
            CapabilityEntry { state: CapabilityState::Ready, reason: None }
        } else if reason.as_str().unicode_len() == 0 {
            CapabilityEntry { state: CapabilityState::Disabled, reason: None }
        } else {
            CapabilityEntry { state: CapabilityState::Disabled, reason: Some(reason) }
        };
        self.entries.set(index, entry);
        assert forall|other: Capability| other != capability implies place_of(other) != place_of(
            capability,
        ) by {}
    }

    /// Reports a capability as ready when every requirement is met, and otherwise
    /// names all that are not.
    pub fn set_from_requirements(
        &mut self,
        capability: Capability,
        requirements: &[(&str, bool)],
    ) -> (ready: bool)
        requires
            old(self).wf(),
        ensures
            final(self).wf(),
            ready == all_met(requirements@),
            final(self).entry(capability) == if ready {
                reported(true, Seq::empty())
            } else {
                reported(false, missing_reason(requirements@))
            },
            forall|other: Capability|
                other != capability ==> #[trigger] final(self).entry(other) == old(self).entry(
                    other,
                ),
    {
        let mut names: String = String::new();
        let mut count: usize = 0;
        let mut i: usize = 0;
        assert(requirements@.take(0) =~= Seq::empty());
        while i < requirements.len()
            invariant
                i <= requirements@.len(),
                count <= i,
                count == missing_names(requirements@.take(i as int)).len(),
                names@ == joined(missing_names(requirements@.take(i as int)), ", "@),
            decreases requirements@.len() - i,
        {
            assert(requirements@.take(i + 1).drop_last() =~= requirements@.take(i as int));
            let ghost before = missing_names(requirements@.take(i as int));
            let (name, met): (&str, bool) = requirements[i];
            if !met {
                if count > 0 {
                    names.append(", ");
                }
                names.append(name);
                count = count + 1;
                proof {
                    let after = before.push(name@);
                    assert(after.drop_last() =~= before);
                    assert(joined(after, ", "@) =~= names@);
                }
            }
            i = i + 1;
        }
        assert(requirements@.take(i as int) =~= requirements@);
        proof {
            lemma_missing_names(requirements@);
        }
        if count == 0 {
            self.set(capability, true, String::new());
            true
        } else {
            let mut reason: String = "missing ".to_owned();
            reason.append(names.as_str());
            self.set(capability, false, reason);
            false
        }
    }

    /// Reports every listed capability as missing for one reason.
    pub fn disable_all(&mut self, capabilities: &[Capability], reason: &str)
        requires
            old(self).wf(),
        ensures
            final(self).wf(),
            forall|capability: Capability|
                #[trigger] final(self).entry(capability) == if capabilities@.contains(capability) {
                    reported(false, reason@)
                } else {
                    old(self).entry(capability)
                },
    {
        let mut i: usize = 0;
        while i < capabilities.len()
            invariant
                i <= capabilities@.len(),
                self.wf(),
                forall|capability: Capability|
                    #[trigger] self.entry(capability) == if capabilities@.take(
                        i as int,
                    ).contains(capability) {
                        reported(false, reason@)
                    } else {
                        old(self).entry(capability)
                    },
            decreases capabilities@.len() - i,
        {
            let capability: Capability = capabilities[i];
            self.set(capability, false, reason.to_owned());
            proof {
                let before = capabilities@.take(i as int);
                let after = capabilities@.take(i + 1);
                assert(after =~= before.push(capability));
                assert forall|other: Capability| after.contains(other) <==> (before.contains(other)
                    || other == capability) by {
                    if before.contains(other) {
                        let k = choose|k: int| 0 <= k < before.len() && before[k] == other;
                        assert(after[k] == other);
                    }
                    assert(after[i as int] == capability);
                }
            }
            i = i + 1;
        }
        assert(capabilities@.take(i as int) =~= capabilities@);
    }

    pub fn is_ready(&self, capability: Capability) -> (ready: bool)
        requires
            self.wf(),
        ensures
            ready == (self.entry(capability).state is Ready),
    {
        self.entries[capability.index()].state == CapabilityState::Ready
    }

    /// What is known of every capability, in their order.
    pub fn statuses(&self) -> (statuses: Vec<CapabilityStatus>)
        requires
            self.wf(),
        ensures
            statuses@.len() == CAPABILITY_COUNT,
            forall|i: int|
                0 <= i < CAPABILITY_COUNT ==> {
                    let status = #[trigger] statuses@[i];
                    let entry = self.entry(all_capabilities()[i]);
                    &&& status.capability == all_capabilities()[i]
                    &&& status.ready == (entry.state is Ready)
                    &&& status.initialized == !(entry.state is Unknown)
                    &&& text_view(status.reason) == entry.reason
                },
    {
        let list: Vec<Capability> = Capability::all();
        let mut statuses: Vec<CapabilityStatus> = Vec::new();
        let mut i: usize = 0;
        while i < CAPABILITY_COUNT
            invariant
                i <= CAPABILITY_COUNT,
                self.wf(),
                list@ == all_capabilities(),
                statuses@.len() == i,
                forall|k: int|
                    0 <= k < i ==> {
                        let status = #[trigger] statuses@[k];
                        let entry = self.entry(all_capabilities()[k]);
                        &&& status.capability == all_capabilities()[k]
                        &&& status.ready == (entry.state is Ready)
                        &&& status.initialized == !(entry.state is Unknown)
                        &&& text_view(status.reason) == entry.reason
                    },
            decreases CAPABILITY_COUNT - i,
        {
            let capability: Capability = list[i];
            let index: usize = capability.index();
            let state: CapabilityState = self.entries[index].state;
            let reason: Option<String> = match &self.entries[index].reason {
                Some(reason) => Some(reason.clone()),
                None => None,
            };
            statuses.push(
                CapabilityStatus {
                    capability,
                    ready: state == CapabilityState::Ready,
                    initialized: state != CapabilityState::Unknown,
                    reason,
                },
            );
            i = i + 1;
        }
        statuses
    }
}

/// Every capability has a place of its own in the list of all, and is found there.
pub proof fn law_capabilities_have_their_places(left: Capability, right: Capability)
    ensures
        0 <= place_of(left) < all_capabilities().len(),
        all_capabilities()[place_of(left)] == left,
        place_of(left) == place_of(right) ==> left == right,
        all_capabilities().len() == CAPABILITY_COUNT,
{
}

/// A report is what it says: a capability that is ready is ready without a reason, and one
/// that is not is disabled for the reason that is given, if one is.
pub proof fn law_reports_are_taken_over(ready: bool, reason: Seq<char>)
    ensures
        ready ==> reported(ready, reason).state is Ready && reported(ready, reason).reason is None,
        !ready ==> reported(ready, reason).state is Disabled,
        !ready && reason.len() > 0 ==> reported(ready, reason).reason == Some(reason),
        !ready && reason.len() == 0 ==> reported(ready, reason).reason is None,
{
}

/// The names of the missing requirements are those of the requirements that are not met, each
/// in its place.
pub proof fn law_missing_requirements_are_named(requirements: Seq<(&str, bool)>)
    ensures
        ({
            let unmet = requirements.filter(|requirement: (&str, bool)| !requirement.1);
            &&& missing_names(requirements).len() == unmet.len()
            &&& forall|i: int|
                0 <= i < unmet.len() ==> missing_names(requirements)[i] == (
                #[trigger] unmet[i]).0@
        }),
        all_met(requirements) <==> missing_names(requirements).len() == 0,
    decreases requirements.len(),
{
    reveal(Seq::filter);
    lemma_missing_names(requirements);
    if requirements.len() > 0 {
        let rest = requirements.drop_last();
        law_missing_requirements_are_named(rest);
        let met = |requirement: (&str, bool)| !requirement.1;
        let before = rest.filter(met);
        let after = requirements.filter(met);
        assert forall|i: int| 0 <= i < after.len() implies missing_names(requirements)[i] == (
        #[trigger] after[i]).0@ by {
            if i < before.len() {
                assert(after[i] == before[i]);
                assert(missing_names(requirements)[i] == missing_names(rest)[i]);
            }
        }
    }
}

/// Texts are joined with the separator between every two of them and nowhere else: joining
/// two rows, neither of them empty, is joining the two joined texts.
pub proof fn law_joined_texts_stand_in_order(
    left: Seq<Seq<char>>,
    right: Seq<Seq<char>>,
    separator: Seq<char>,
    text: Seq<char>,
)
    ensures
        joined(Seq::empty(), separator) == Seq::<char>::empty(),
        joined(seq![text], separator) == text,
        left.len() > 0 && right.len() > 0 ==> joined(left + right, separator) == joined(
            left,
            separator,
        ) + separator + joined(right, separator),
    decreases right.len(),
{
    if left.len() > 0 && right.len() > 0 {
        let all = left + right;
        assert(all.last() == right.last());
        assert(all.drop_last() =~= left + right.drop_last());
        if right.len() == 1 {
            assert(all.drop_last() =~= left);
        } else {
            law_joined_texts_stand_in_order(left, right.drop_last(), separator, text);
            assert(joined(all, separator) =~= joined(left, separator) + separator + joined(
                right,
                separator,
            ));
        }
    }
}

/// What the process relies on is blocked while it is missing: the connection, what is
/// delivered on it, and the cloud. Everything else is only switched off.
pub proof fn law_traffic_is_blocked_where_it_would_escape(
    capability: Capability,
    policy: FailurePolicy,
)
    requires
        call_ensures(Capability::failure_policy, (capability,), policy),
    ensures
        policy is FailClosed <==> {
            ||| capability is CmInterception
            ||| capability is NativeResponseDelivery
            ||| capability is CloudControl
            ||| capability is CloudHttp
            ||| capability is ConflictUiBridge
        },
{
}

} // verus!
