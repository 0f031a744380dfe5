//! Installing the hooks: batches, groups that stand or fall together, and what they make
//! possible.
use crate::capability::{all_met, missing_reason, reported, Capability, CapabilityRegistry, EntryView};
use crate::code_shape::{Arch, CodeRegion};
use crate::package::PKG0_ACCESS_TOKEN;
use crate::paths::{component_at, has_component, path_has_component};
use crate::text::{
    concat, ends_in, ends_with_text, has_char, quoted, quoted_of, text_eq, utf8_error_of, utf8_text,
};
use crate::ticket::{adapter_implementation, resolve_adapter_implementation, sole_value};
use vstd::prelude::*;
use vstd::string::*;
use vstd::utf8::valid_utf8;

verus! {

#[derive(Clone, Copy, Debug, PartialEq, Eq, Structural)]
pub enum HookBatch {
    SteamClient,
    SteamUi,
}

/// How far one batch is.
#[derive(Clone, Copy, Debug, PartialEq, Eq, Structural)]
pub struct BatchProgress {
    pub started: bool,
    pub finished: bool,
}

/// How far both batches are.
#[derive(Clone, Copy, Debug, PartialEq, Eq, Structural)]
pub struct BatchState {
    pub client: BatchProgress,
    pub ui: BatchProgress,
}

/// What a caller that asks for a batch does.
#[derive(Clone, Copy, Debug, PartialEq, Eq, Structural)]
pub enum BatchAction {
    /// The batch is refused and counts as finished.
    Rejected,
    /// The caller installs the batch and reports that it is finished.
    Install,
    /// It was installed, or is being installed.
    Leave,
}

impl BatchState {
    pub open spec fn progress(self, batch: HookBatch) -> BatchProgress {
        match batch {
            HookBatch::SteamClient => self.client,
            HookBatch::SteamUi => self.ui,
        }
    }

    pub open spec fn with(self, batch: HookBatch, progress: BatchProgress) -> BatchState {
        match batch {
            HookBatch::SteamClient => BatchState { client: progress, ..self },
            HookBatch::SteamUi => BatchState { ui: progress, ..self },
        }
    }

    /// What a caller that asks for a batch does.
    pub open spec fn action_for(
        self,
        batch: HookBatch,
        runtime_ready: bool,
        supported: bool,
    ) -> BatchAction {
        if !runtime_ready || !supported {
            BatchAction::Rejected
        } else if self.progress(batch).started {
            BatchAction::Leave
        } else {
            BatchAction::Install
        }
    }

    /// The state once a caller has begun to install a batch.
    pub open spec fn begun(self, batch: HookBatch) -> BatchState {
        self.with(batch, BatchProgress { started: true, ..self.progress(batch) })
    }

    /// The state once a batch is over.
    pub open spec fn over(self, batch: HookBatch) -> BatchState {
        self.with(batch, BatchProgress { finished: true, ..self.progress(batch) })
    }

    pub fn new() -> (state: Self)
        ensures
            forall|batch: HookBatch|
                #[trigger] state.progress(batch) == (BatchProgress {
                    started: false,
                    finished: false,
                }),
    {
        let fresh: BatchProgress = BatchProgress { started: false, finished: false };
        BatchState { client: fresh, ui: fresh }
    }
}

/// The capabilities of a batch.
pub open spec fn batch_capabilities(batch: HookBatch) -> Seq<Capability> {
    match batch {
        HookBatch::SteamClient => seq![
            Capability::CallbackEvents,
            Capability::Ownership,
            Capability::PackageInjection,
            Capability::TicketOverrides,
            Capability::DepotInjection,
            Capability::ShaderCacheControl,
            Capability::DlcOverrides,
            Capability::CmInterception,
            Capability::NativeResponseDelivery,
            Capability::CloudControl,
            Capability::CloudHttp,
            Capability::LaunchEnvironment,
            Capability::LegacyCdKeyControl,
        ],
        HookBatch::SteamUi => seq![
            Capability::LibraryUi,
            Capability::OverviewMetadata,
            Capability::LibrarySnapshot,
            Capability::ConflictUiBridge,
        ],
    }
}

/// The registry after all capabilities of a batch were reported missing.
pub open spec fn batch_is_disabled(
    before: CapabilityRegistry,
    after: CapabilityRegistry,
    batch: HookBatch,
    reason: Seq<char>,
) -> bool {
    forall|capability: Capability| #[trigger]
        after.entry(capability) == if batch_capabilities(batch).contains(capability) {
            reported(false, reason)
        } else {
            before.entry(capability)
        }
}

pub fn disable_hook_batch_capabilities(
    registry: &mut CapabilityRegistry,
    batch: HookBatch,
    reason: &str,
)
    requires
        old(registry).wf(),
    ensures
        final(registry).wf(),
        batch_is_disabled(*old(registry), *final(registry), batch, reason@),
{
    let capabilities: Vec<Capability> = match batch {
        HookBatch::SteamClient => vec![
            Capability::CallbackEvents,
            Capability::Ownership,
            Capability::PackageInjection,
            Capability::TicketOverrides,
            Capability::DepotInjection,
            Capability::ShaderCacheControl,
            Capability::DlcOverrides,
            Capability::CmInterception,
            Capability::NativeResponseDelivery,
            Capability::CloudControl,
            Capability::CloudHttp,
            Capability::LaunchEnvironment,
            Capability::LegacyCdKeyControl,
        ],
        HookBatch::SteamUi => vec![
            Capability::LibraryUi,
            Capability::OverviewMetadata,
            Capability::LibrarySnapshot,
            Capability::ConflictUiBridge,
        ],
    };
    assert(capabilities@ =~= batch_capabilities(batch));
    registry.disable_all(capabilities.as_slice(), reason);
}

/// Whether a batch can be installed on this system.
pub fn steam_hook_batch_supported(batch: HookBatch, linux: bool, skip_ui: bool) -> (supported: bool)
    ensures
        supported == (linux && (batch is SteamUi ==> !skip_ui)),
{
    match batch {
        HookBatch::SteamClient => linux,
        HookBatch::SteamUi => linux && !skip_ui,
    }
}

/// The architecture that a pointer width stands for.
pub fn current_hook_architecture(pointer_width: u32) -> (name: &'static str)
    ensures
        name@ == if pointer_width == 64 {
            "x86_64"@
        } else if pointer_width == 32 {
            "x86"@
        } else {
            "unknown"@
        },
{
    if pointer_width == 64 {
        "x86_64"
    } else if pointer_width == 32 {
        "x86"
    } else {
        "unknown"
    }
}

fn mark_hook_batch_finished(state: &mut BatchState, batch: HookBatch)
    ensures
        *final(state) == old(state).over(batch),
{
    match batch {
        HookBatch::SteamClient => {
            state.client.finished = true;
        },
        HookBatch::SteamUi => {
            state.ui.finished = true;
        },
    }
}

/// Decides about a batch. It is refused without a runtime or on a system without support,
/// and otherwise installed by the first caller only.
pub fn install_hook_batch(
    state: &mut BatchState,
    registry: &mut CapabilityRegistry,
    batch: HookBatch,
    runtime_ready: bool,
    supported: bool,
) -> (action: BatchAction)
    requires
        old(registry).wf(),
    ensures
        final(registry).wf(),
        action == old(state).action_for(batch, runtime_ready, supported),
        action is Rejected ==> {
            &&& batch_is_disabled(
                *old(registry),
                *final(registry),
                batch,
                if !runtime_ready {
                    "runtime initialization failed"@
                } else {
                    "process architecture is unsupported"@
                },
            )
            &&& *final(state) == old(state).over(batch)
        },
        action is Install ==> *final(registry) == *old(registry) && *final(state) == old(
            state,
        ).begun(batch),
        action is Leave ==> *final(registry) == *old(registry) && *final(state) == *old(state),
{
    if !runtime_ready {
        disable_hook_batch_capabilities(registry, batch, "runtime initialization failed");
        mark_hook_batch_finished(state, batch);
        return BatchAction::Rejected;
    }
    if !supported {
        disable_hook_batch_capabilities(registry, batch, "process architecture is unsupported");
        mark_hook_batch_finished(state, batch);
        return BatchAction::Rejected;
    }
    match batch {
        HookBatch::SteamClient => {
            if state.client.started {
                return BatchAction::Leave;
            }
            state.client.started = true;
        },
        HookBatch::SteamUi => {
            if state.ui.started {
                return BatchAction::Leave;
            }
            state.ui.started = true;
        },
    }
    BatchAction::Install
}

/// Reports that a batch was installed.
pub fn finish_hook_batch(state: &mut BatchState, batch: HookBatch)
    ensures
        *final(state) == old(state).over(batch),
{
    mark_hook_batch_finished(state, batch);
}

pub fn is_hook_batch_finished(state: &BatchState, batch: HookBatch) -> (finished: bool)
    ensures
        finished == state.progress(batch).finished,
{
    match batch {
        HookBatch::SteamClient => state.client.finished,
        HookBatch::SteamUi => state.ui.finished,
    }
}

/// However often a batch is asked for, it is installed once: whoever asks for a batch that
/// was begun, over or not, leaves it alone. The other batch is not touched by that.
pub proof fn law_batches_are_installed_once(
    state: BatchState,
    batch: HookBatch,
    runtime_ready: bool,
    supported: bool,
)
    ensures
        !(state.begun(batch).action_for(batch, runtime_ready, supported) is Install),
        !(state.begun(batch).over(batch).action_for(batch, runtime_ready, supported) is Install),
        state.over(batch).progress(batch).finished,
        forall|other: HookBatch|
            other != batch ==> #[trigger] state.begun(batch).over(batch).progress(other)
                == state.progress(other),
{
}

/// How many hooks the client batch has.
pub const HOOK_COUNT: usize = 27;

/// The name of a hook.
pub open spec fn hook_name_of(index: int) -> &'static str {
    if index == 0 {
        "CSteamEngine::SetAPICallResult"
    } else if index == 1 {
        "CSteamEngine::RegisterInternalCallback"
    } else if index == 2 {
        "IClientUser::GetSteamID"
    } else if index == 3 {
        "IClientConfigStore::SetUint64"
    } else if index == 4 {
        "CUserInterface::Init"
    } else if index == 5 {
        "CUserInterface::~CUserInterface"
    } else if index == 6 {
        "CUser::CheckAppOwnership"
    } else if index == 7 {
        "CUser::GetSubscribedApps"
    } else if index == 8 {
        "IClientRemoteStorage::IsCloudEnabledForApp"
    } else if index == 9 {
        "IClientAppManager::IsAppDlcInstalled"
    } else if index == 10 {
        "IClientAppManager::BIsDlcEnabled"
    } else if index == 11 {
        "CPackageInfo::GetPackageInfo"
    } else if index == 12 {
        "IClientUser::GetAppOwnershipTicketExtendedData"
    } else if index == 13 {
        "IClientUser::BUpdateAppOwnershipTicket"
    } else if index == 14 {
        "IClientUser::IsUserSubscribedAppInTicket"
    } else if index == 15 {
        "IClientUser::GetEncryptedAppTicket"
    } else if index == 16 {
        "BuildDepotDependency"
    } else if index == 17 {
        "LoadDepotDecryptionKey"
    } else if index == 18 {
        "CWebSocketConnection::BBuildAndAsyncSendFrame"
    } else if index == 19 {
        "CCMConnection::RecvPkt"
    } else if index == 20 {
        "CHTTPRequestJob::Start"
    } else if index == 21 {
        "CConfigStore::WriteVdfFile"
    } else if index == 22 {
        "CUser::BuildSpawnEnvBlock"
    } else if index == 23 {
        "CUser::SpawnProcess"
    } else if index == 24 {
        "CShaderCacheManager::GetShaderCacheDepot"
    } else if index == 25 {
        "IClientUser::RequiresLegacyCDKey"
    } else {
        "IClientRemoteStorage::IsCloudEnabledForAccount"
    }
}

pub fn hook_name(index: usize) -> (name: &'static str)
    requires
        index < HOOK_COUNT,
    ensures
        name == hook_name_of(index as int),
{
    match index {
        0 => "CSteamEngine::SetAPICallResult",
        1 => "CSteamEngine::RegisterInternalCallback",
        2 => "IClientUser::GetSteamID",
        3 => "IClientConfigStore::SetUint64",
        4 => "CUserInterface::Init",
        5 => "CUserInterface::~CUserInterface",
        6 => "CUser::CheckAppOwnership",
        7 => "CUser::GetSubscribedApps",
        8 => "IClientRemoteStorage::IsCloudEnabledForApp",
        9 => "IClientAppManager::IsAppDlcInstalled",
        10 => "IClientAppManager::BIsDlcEnabled",
        11 => "CPackageInfo::GetPackageInfo",
        12 => "IClientUser::GetAppOwnershipTicketExtendedData",
        13 => "IClientUser::BUpdateAppOwnershipTicket",
        14 => "IClientUser::IsUserSubscribedAppInTicket",
        15 => "IClientUser::GetEncryptedAppTicket",
        16 => "BuildDepotDependency",
        17 => "LoadDepotDecryptionKey",
        18 => "CWebSocketConnection::BBuildAndAsyncSendFrame",
        19 => "CCMConnection::RecvPkt",
        20 => "CHTTPRequestJob::Start",
        21 => "CConfigStore::WriteVdfFile",
        22 => "CUser::BuildSpawnEnvBlock",
        23 => "CUser::SpawnProcess",
        24 => "CShaderCacheManager::GetShaderCacheDepot",
        25 => "IClientUser::RequiresLegacyCDKey",
        _ => "IClientRemoteStorage::IsCloudEnabledForAccount",
    }
}

/// The plain functions that hooks rely on.
#[derive(Clone, Copy, Debug, PartialEq, Eq, Structural)]
pub struct Callables {
    pub native_packets: bool,
    pub packages: bool,
    pub set_cloud: bool,
    pub set_env: bool,
}

/// Whether all hooks from `first` to `last` were found.
pub open spec fn all_found(found: Seq<Option<usize>>, first: int, last: int) -> bool {
    forall|i: int| first <= i <= last ==> (#[trigger] found[i]) is Some
}

/// Whether the group that a hook belongs to is complete.
pub open spec fn group_is_whole(found: Seq<Option<usize>>, callables: Callables, index: int) -> bool {
    if index <= 5 {
        all_found(found, 0, 5)
    } else if index <= 7 {
        all_found(found, 6, 7)
    } else if index == 8 || index == 21 {
        found[8] is Some && found[21] is Some && callables.set_cloud
    } else if index <= 10 {
        all_found(found, 9, 10)
    } else if 12 <= index <= 15 {
        all_found(found, 12, 15)
    } else if 16 <= index <= 17 {
        all_found(found, 16, 17)
    } else if 18 <= index <= 19 {
        all_found(found, 18, 19)
    } else if 22 <= index <= 23 {
        all_found(found, 22, 23) && callables.set_env
    } else {
        true
    }
}

/// What is left of the hooks that were found: those whose group is complete.
pub open spec fn kept_hooks(found: Seq<Option<usize>>, callables: Callables) -> Seq<Option<usize>> {
    Seq::new(
        found.len(),
        |index: int|
            if group_is_whole(found, callables, index) {
                found[index]
            } else {
                None
            },
    )
}

fn range_is_found(found: &Vec<Option<usize>>, first: usize, last: usize) -> (whole: bool)
    requires
        first <= last < found@.len(),
    ensures
        whole == all_found(found@, first as int, last as int),
{
    let size: usize = found.len();
    let mut i: usize = first;
    while i <= last
        invariant
            first <= i <= last + 1,
            last < size == found@.len(),
            forall|k: int| first <= k < i ==> (#[trigger] found@[k]) is Some,
        decreases last + 1 - i,
    {
        if found[i].is_none() {
            assert(found@[i as int] is None);
            return false;
        }
        i = i + 1;
    }
    true
}

/// Drops every hook whose group is not complete.
pub fn retain_complete_groups(found: &Vec<Option<usize>>, callables: Callables) -> (kept: Vec<
    Option<usize>,
>)
    requires
        found@.len() == HOOK_COUNT,
    ensures
        kept@ == kept_hooks(found@, callables),
{
    let callbacks: bool = range_is_found(found, 0, 5);
    let ownership: bool = range_is_found(found, 6, 7);
    let dlc: bool = range_is_found(found, 9, 10);
    let tickets: bool = range_is_found(found, 12, 15);
    let depots: bool = range_is_found(found, 16, 17);
    let packets: bool = range_is_found(found, 18, 19);
    let cloud: bool = found[8].is_some() && found[21].is_some() && callables.set_cloud;
    let launch: bool = range_is_found(found, 22, 23) && callables.set_env;
    let mut kept: Vec<Option<usize>> = Vec::new();
    let mut i: usize = 0;
    while i < HOOK_COUNT
        invariant
            i <= HOOK_COUNT == found@.len(),
            kept@.len() == i,
            callbacks == all_found(found@, 0, 5),
            ownership == all_found(found@, 6, 7),
            dlc == all_found(found@, 9, 10),
            tickets == all_found(found@, 12, 15),
            depots == all_found(found@, 16, 17),
            packets == all_found(found@, 18, 19),
            cloud == (found@[8] is Some && found@[21] is Some && callables.set_cloud),
            launch == (all_found(found@, 22, 23) && callables.set_env),
            forall|k: int| 0 <= k < i ==> #[trigger] kept@[k] == kept_hooks(found@, callables)[k],
        decreases HOOK_COUNT - i,
    {
        let whole: bool = if i <= 5 {
            callbacks
        } else if i <= 7 {
            ownership
        } else if i == 8 || i == 21 {
            cloud
        } else if i <= 10 {
            dlc
        } else if 12 <= i && i <= 15 {
            tickets
        } else if 16 <= i && i <= 17 {
            depots
        } else if 18 <= i && i <= 19 {
            packets
        } else if 22 <= i && i <= 23 {
            launch
        } else {
            true
        };
        assert(whole == group_is_whole(found@, callables, i as int));
        if whole {
            kept.push(found[i]);
        } else {
            kept.push(None);
        }
        i = i + 1;
    }
    assert(kept@ =~= kept_hooks(found@, callables));
    kept
}

/// Whether two hooks belong to the same group.
pub open spec fn same_group(left: int, right: int) -> bool {
    ||| 0 <= left <= 5 && 0 <= right <= 5
    ||| 6 <= left <= 7 && 6 <= right <= 7
    ||| (left == 8 || left == 21) && (right == 8 || right == 21)
    ||| 9 <= left <= 10 && 9 <= right <= 10
    ||| 12 <= left <= 15 && 12 <= right <= 15
    ||| 16 <= left <= 17 && 16 <= right <= 17
    ||| 18 <= left <= 19 && 18 <= right <= 19
    ||| 22 <= left <= 23 && 22 <= right <= 23
}

/// The hooks of a group are kept together or dropped together.
pub proof fn law_groups_stand_or_fall_together(
    found: Seq<Option<usize>>,
    callables: Callables,
    left: int,
    right: int,
)
    requires
        found.len() == HOOK_COUNT,
        same_group(left, right),
    ensures
        kept_hooks(found, callables)[left] is Some <==> kept_hooks(found, callables)[right] is Some,
{
}

/// What became of one hook.
#[derive(Clone, Copy, Debug)]
pub struct HookResult {
    pub name: &'static str,
    pub installed: bool,
    pub addr: usize,
}

/// What the reports on the hooks say before they are put in place: the package hook is
/// reported at its function's address.
pub open spec fn first_report(
    kept: Seq<Option<usize>>,
    package_info: Option<usize>,
    index: int,
) -> HookResult {
    HookResult {
        name: hook_name_of(index),
        installed: kept[index] is Some,
        addr: if index == 11 {
            match package_info {
                Some(addr) => addr,
                None => 0,
            }
        } else {
            match kept[index] {
                Some(addr) => addr,
                None => 0,
            }
        },
    }
}

fn hook_report(kept: &Vec<Option<usize>>, package_info: Option<usize>) -> (results: Vec<HookResult>)
    requires
        kept@.len() == HOOK_COUNT,
    ensures
        results@.len() == HOOK_COUNT,
        forall|i: int|
            0 <= i < HOOK_COUNT ==> #[trigger] results@[i] == first_report(kept@, package_info, i),
{
    let mut results: Vec<HookResult> = Vec::new();
    let mut i: usize = 0;
    while i < HOOK_COUNT
        invariant
            i <= HOOK_COUNT == kept@.len(),
            results@.len() == i,
            forall|k: int|
                0 <= k < i ==> #[trigger] results@[k] == first_report(kept@, package_info, k),
        decreases HOOK_COUNT - i,
    {
        let source: Option<usize> = if i == 11 {
            package_info
        } else {
            kept[i]
        };
        let addr: usize = match source {
            Some(addr) => addr,
            None => 0,
        };
        results.push(HookResult { name: hook_name(i), installed: kept[i].is_some(), addr });
        i = i + 1;
    }
    results
}

/// Why the client batch cannot begin, if it cannot.
pub open spec fn install_obstacle(code_mapped: bool, patterns_known: bool) -> Option<Seq<char>> {
    if !code_mapped {
        Some("steamclient executable mapping is unavailable"@)
    } else if !patterns_known {
        Some("steamclient pattern target is unavailable"@)
    } else {
        None
    }
}

/// Plans the client batch: which of the hooks that were found are put in place. Without
/// mapped code or known patterns there is no plan, and all that the batch offers is
/// reported missing.
pub fn do_install(
    registry: &mut CapabilityRegistry,
    code_mapped: bool,
    patterns_known: bool,
    found: &Vec<Option<usize>>,
    callables: Callables,
    package_info: Option<usize>,
) -> (plan: Option<Vec<HookResult>>)
    requires
        old(registry).wf(),
        found@.len() == HOOK_COUNT,
    ensures
        final(registry).wf(),
        plan is Some <==> install_obstacle(code_mapped, patterns_known) is None,
        plan is None ==> batch_is_disabled(
            *old(registry),
            *final(registry),
            HookBatch::SteamClient,
            install_obstacle(code_mapped, patterns_known)->0,
        ),
        plan is Some ==> {
            &&& *final(registry) == *old(registry)
            &&& plan->0@.len() == HOOK_COUNT
            &&& forall|i: int|
                0 <= i < HOOK_COUNT ==> #[trigger] plan->0@[i] == first_report(
                    kept_hooks(found@, callables),
                    package_info,
                    i,
                )
        },
{
    if !code_mapped {
        disable_hook_batch_capabilities(
            registry,
            HookBatch::SteamClient,
            "steamclient executable mapping is unavailable",
        );
        return None;
    }
    if !patterns_known {
        disable_hook_batch_capabilities(
            registry,
            HookBatch::SteamClient,
            "steamclient pattern target is unavailable",
        );
        return None;
    }
    let kept: Vec<Option<usize>> = retain_complete_groups(found, callables);
    Some(hook_report(&kept, package_info))
}

/// What a capability of the client batch takes.
pub open spec fn requirements_of(
    capability: Capability,
    installed: Seq<bool>,
    callables: Callables,
) -> Seq<(&'static str, bool)> {
    let cm_ready = installed[18] && installed[19];
    let ownership_ready = cm_ready && installed[6] && installed[7];
    match capability {
        Capability::CallbackEvents => seq![
            (hook_name_of(0), installed[0]),
            (hook_name_of(1), installed[1]),
            (hook_name_of(2), installed[2]),
            (hook_name_of(3), installed[3]),
            (hook_name_of(4), installed[4]),
            (hook_name_of(5), installed[5]),
        ],
        Capability::CmInterception => seq![
            (hook_name_of(18), installed[18]),
            (hook_name_of(19), installed[19]),
        ],
        Capability::NativeResponseDelivery => seq![
            ("cm-interception", cm_ready),
            ("CNetPacket and work-item callables", callables.native_packets),
        ],
        Capability::Ownership => seq![
            ("cm-interception", cm_ready),
            (hook_name_of(6), installed[6]),
            (hook_name_of(7), installed[7]),
        ],
        Capability::PackageInjection => seq![
            ("ownership", ownership_ready),
            (hook_name_of(11), installed[11]),
            ("package callables", callables.packages),
        ],
        Capability::TicketOverrides => seq![
            ("cm-interception", cm_ready),
            (hook_name_of(12), installed[12]),
            (hook_name_of(13), installed[13]),
            (hook_name_of(14), installed[14]),
            (hook_name_of(15), installed[15]),
        ],
        Capability::DepotInjection => seq![
            ("cm-interception", cm_ready),
            (hook_name_of(16), installed[16]),
            (hook_name_of(17), installed[17]),
        ],
        Capability::ShaderCacheControl => seq![(hook_name_of(24), installed[24])],
        Capability::LegacyCdKeyControl => seq![(hook_name_of(25), installed[25])],
        Capability::DlcOverrides => seq![
            ("cm-interception", cm_ready),
            (hook_name_of(9), installed[9]),
            (hook_name_of(10), installed[10]),
        ],
        Capability::CloudControl => seq![
            ("cm-interception", cm_ready),
            (hook_name_of(8), installed[8]),
            ("SetCloudEnabledForApp", callables.set_cloud),
            (hook_name_of(21), installed[21]),
        ],
        Capability::CloudHttp => seq![(hook_name_of(20), installed[20])],
        Capability::LaunchEnvironment => seq![
            (hook_name_of(22), installed[22]),
            (hook_name_of(23), installed[23]),
            ("SetEnvString", callables.set_env),
        ],
        _ => Seq::empty(),
    }
}

/// The entry that requirements leave.
pub open spec fn outcome_of(requirements: Seq<(&str, bool)>) -> EntryView {
    if all_met(requirements) {
        reported(true, Seq::empty())
    } else {
        reported(false, missing_reason(requirements))
    }
}

fn report(
    registry: &mut CapabilityRegistry,
    capability: Capability,
    requirements: Vec<(&'static str, bool)>,
) -> (ready: bool)
    requires
        old(registry).wf(),
    ensures
        final(registry).wf(),
        ready == all_met(requirements@),
        final(registry).entry(capability) == outcome_of(requirements@),
        forall|other: Capability|
            other != capability ==> #[trigger] final(registry).entry(other) == old(registry).entry(
                other,
            ),
{
    registry.set_from_requirements(capability, requirements.as_slice())
}

/// Reports what the hooks that were put in place make possible. Returns whether the
/// callback hooks are all in place.
#[verifier::rlimit(60)]
pub fn publish_capabilities(
    registry: &mut CapabilityRegistry,
    installed: &Vec<bool>,
    callables: Callables,
) -> (callbacks_ready: bool)
    requires
        old(registry).wf(),
        installed@.len() == HOOK_COUNT,
    ensures
        final(registry).wf(),
        callbacks_ready == all_met(
            requirements_of(Capability::CallbackEvents, installed@, callables),
        ),
        forall|capability: Capability| #[trigger]
            final(registry).entry(capability) == if batch_capabilities(
                HookBatch::SteamClient,
            ).contains(capability) {
                outcome_of(requirements_of(capability, installed@, callables))
            } else {
                old(registry).entry(capability)
            },
{
    let ghost all = installed@;
    let callback: Vec<(&'static str, bool)> = vec![
        (hook_name(0), installed[0]),
        (hook_name(1), installed[1]),
        (hook_name(2), installed[2]),
        (hook_name(3), installed[3]),
        (hook_name(4), installed[4]),
        (hook_name(5), installed[5]),
    ];
    assert(callback@ =~= requirements_of(Capability::CallbackEvents, all, callables));
    let callbacks_ready: bool = report(registry, Capability::CallbackEvents, callback);
    let cm: Vec<(&'static str, bool)> = vec![
        (hook_name(18), installed[18]),
        (hook_name(19), installed[19]),
    ];
    assert(cm@ =~= requirements_of(Capability::CmInterception, all, callables));
    proof {
        assert(cm@[0].1 == all[18] && cm@[1].1 == all[19]);
    }
    let cm_ready: bool = report(registry, Capability::CmInterception, cm);
    assert(cm_ready == (all[18] && all[19]));
    let native: Vec<(&'static str, bool)> = vec![
        ("cm-interception", cm_ready),
        ("CNetPacket and work-item callables", callables.native_packets),
    ];
    assert(native@ =~= requirements_of(Capability::NativeResponseDelivery, all, callables));
    report(registry, Capability::NativeResponseDelivery, native);
    let owned: Vec<(&'static str, bool)> = vec![
        ("cm-interception", cm_ready),
        (hook_name(6), installed[6]),
        (hook_name(7), installed[7]),
    ];
    assert(owned@ =~= requirements_of(Capability::Ownership, all, callables));
    proof {
        assert(owned@[0].1 == cm_ready && owned@[1].1 == all[6] && owned@[2].1 == all[7]);
    }
    let ownership_ready: bool = report(registry, Capability::Ownership, owned);
    assert(ownership_ready == (cm_ready && all[6] && all[7]));
    let packages: Vec<(&'static str, bool)> = vec![
        ("ownership", ownership_ready),
        (hook_name(11), installed[11]),
        ("package callables", callables.packages),
    ];
    assert(packages@ =~= requirements_of(Capability::PackageInjection, all, callables));
    report(registry, Capability::PackageInjection, packages);
    let tickets: Vec<(&'static str, bool)> = vec![
        ("cm-interception", cm_ready),
        (hook_name(12), installed[12]),
        (hook_name(13), installed[13]),
        (hook_name(14), installed[14]),
        (hook_name(15), installed[15]),
    ];
    assert(tickets@ =~= requirements_of(Capability::TicketOverrides, all, callables));
    report(registry, Capability::TicketOverrides, tickets);
    let depots: Vec<(&'static str, bool)> = vec![
        ("cm-interception", cm_ready),
        (hook_name(16), installed[16]),
        (hook_name(17), installed[17]),
    ];
    assert(depots@ =~= requirements_of(Capability::DepotInjection, all, callables));
    report(registry, Capability::DepotInjection, depots);
    let shader: Vec<(&'static str, bool)> = vec![(hook_name(24), installed[24])];
    assert(shader@ =~= requirements_of(Capability::ShaderCacheControl, all, callables));
    report(registry, Capability::ShaderCacheControl, shader);
    let legacy: Vec<(&'static str, bool)> = vec![(hook_name(25), installed[25])];
    assert(legacy@ =~= requirements_of(Capability::LegacyCdKeyControl, all, callables));
    report(registry, Capability::LegacyCdKeyControl, legacy);
    let dlc: Vec<(&'static str, bool)> = vec![
        ("cm-interception", cm_ready),
        (hook_name(9), installed[9]),
        (hook_name(10), installed[10]),
    ];
    assert(dlc@ =~= requirements_of(Capability::DlcOverrides, all, callables));
    report(registry, Capability::DlcOverrides, dlc);
    let cloud: Vec<(&'static str, bool)> = vec![
        ("cm-interception", cm_ready),
        (hook_name(8), installed[8]),
        ("SetCloudEnabledForApp", callables.set_cloud),
        (hook_name(21), installed[21]),
    ];
    assert(cloud@ =~= requirements_of(Capability::CloudControl, all, callables));
    report(registry, Capability::CloudControl, cloud);
    let http: Vec<(&'static str, bool)> = vec![(hook_name(20), installed[20])];
    assert(http@ =~= requirements_of(Capability::CloudHttp, all, callables));
    report(registry, Capability::CloudHttp, http);
    let launch: Vec<(&'static str, bool)> = vec![
        (hook_name(22), installed[22]),
        (hook_name(23), installed[23]),
        ("SetEnvString", callables.set_env),
    ];
    assert(launch@ =~= requirements_of(Capability::LaunchEnvironment, all, callables));
    report(registry, Capability::LaunchEnvironment, launch);
    proof {
        let listed = batch_capabilities(HookBatch::SteamClient);
        assert forall|capability: Capability| #[trigger]
            registry.entry(capability) == if listed.contains(capability) {
                outcome_of(requirements_of(capability, installed@, callables))
            } else {
                old(registry).entry(capability)
            } by {
            assert(listed[0] == Capability::CallbackEvents);
            assert(listed[1] == Capability::Ownership);
            assert(listed[2] == Capability::PackageInjection);
            assert(listed[3] == Capability::TicketOverrides);
            assert(listed[4] == Capability::DepotInjection);
            assert(listed[5] == Capability::ShaderCacheControl);
            assert(listed[6] == Capability::DlcOverrides);
            assert(listed[7] == Capability::CmInterception);
            assert(listed[8] == Capability::NativeResponseDelivery);
            assert(listed[9] == Capability::CloudControl);
            assert(listed[10] == Capability::CloudHttp);
            assert(listed[11] == Capability::LaunchEnvironment);
            assert(listed[12] == Capability::LegacyCdKeyControl);
        }
    }
    callbacks_ready
}

/// The report on a hook once it was, or was not, put in place.
pub open spec fn final_report(planned: HookResult, placed: bool) -> HookResult {
    HookResult { installed: planned.installed && placed, ..planned }
}

/// Which hooks of a plan are in place.
pub open spec fn in_place(plan: Seq<HookResult>, placed: Seq<bool>) -> Seq<bool> {
    Seq::new(plan.len(), |i: int| plan[i].installed && placed[i])
}

/// Settles a plan by what was put in place: what the plan left out is not installed, and
/// the capabilities follow. Returns the final report, and whether the callback hooks are
/// all in place.
pub fn finish_install(
    registry: &mut CapabilityRegistry,
    plan: &Vec<HookResult>,
    placed: &Vec<bool>,
    callables: Callables,
) -> (settled: (Vec<HookResult>, bool))
    requires
        old(registry).wf(),
        plan@.len() == HOOK_COUNT,
        placed@.len() == HOOK_COUNT,
    ensures
        final(registry).wf(),
        settled.0@.len() == HOOK_COUNT,
        forall|i: int|
            0 <= i < HOOK_COUNT ==> #[trigger] settled.0@[i] == final_report(plan@[i], placed@[i]),
        settled.1 == all_met(
            requirements_of(Capability::CallbackEvents, in_place(plan@, placed@), callables),
        ),
        forall|capability: Capability| #[trigger]
            final(registry).entry(capability) == if batch_capabilities(
                HookBatch::SteamClient,
            ).contains(capability) {
                outcome_of(requirements_of(capability, in_place(plan@, placed@), callables))
            } else {
                old(registry).entry(capability)
            },
{
    let mut results: Vec<HookResult> = Vec::new();
    let mut installed: Vec<bool> = Vec::new();
    let mut i: usize = 0;
    while i < HOOK_COUNT
        invariant
            i <= HOOK_COUNT == plan@.len(),
            placed@.len() == HOOK_COUNT,
            results@.len() == i,
            installed@.len() == i,
            forall|k: int|
                0 <= k < i ==> #[trigger] results@[k] == final_report(plan@[k], placed@[k]),
            forall|k: int|
                0 <= k < i ==> #[trigger] installed@[k] == in_place(plan@, placed@)[k],
        decreases HOOK_COUNT - i,
    {
        let planned: HookResult = plan[i];
        let here: bool = planned.installed && placed[i];
        results.push(HookResult { name: planned.name, installed: here, addr: planned.addr });
        installed.push(here);
        i = i + 1;
    }
    assert(installed@ =~= in_place(plan@, placed@));
    let callbacks_ready: bool = publish_capabilities(registry, &installed, callables);
    (results, callbacks_ready)
}

/// Whether a capability of the client batch rests on a hook.
pub open spec fn rests_on(capability: Capability, index: int) -> bool {
    match capability {
        Capability::CallbackEvents => 0 <= index <= 5,
        Capability::CmInterception => 18 <= index <= 19,
        Capability::NativeResponseDelivery => 18 <= index <= 19,
        Capability::Ownership => 6 <= index <= 7 || 18 <= index <= 19,
        Capability::PackageInjection => 6 <= index <= 7 || index == 11 || 18 <= index <= 19,
        Capability::TicketOverrides => 12 <= index <= 15 || 18 <= index <= 19,
        Capability::DepotInjection => 16 <= index <= 19,
        Capability::ShaderCacheControl => index == 24,
        Capability::LegacyCdKeyControl => index == 25,
        Capability::DlcOverrides => 9 <= index <= 10 || 18 <= index <= 19,
        Capability::CloudControl => index == 8 || index == 21 || 18 <= index <= 19,
        Capability::CloudHttp => index == 20,
        Capability::LaunchEnvironment => 22 <= index <= 23,
        _ => false,
    }
}

/// A capability is never ready while a hook that it rests on is not in place.
pub proof fn law_ready_capabilities_have_their_hooks(
    capability: Capability,
    installed: Seq<bool>,
    callables: Callables,
    index: int,
)
    requires
        installed.len() == HOOK_COUNT,
        rests_on(capability, index),
        all_met(requirements_of(capability, installed, callables)),
    ensures
        installed[index],
{
    let requirements = requirements_of(capability, installed, callables);
    assert(forall|k: int| 0 <= k < requirements.len() ==> (#[trigger] requirements[k]).1);
    assert(requirements.len() <= 6);
    assert(requirements.len() > 0 ==> requirements[0].1);
    assert(requirements.len() > 1 ==> requirements[1].1);
    assert(requirements.len() > 2 ==> requirements[2].1);
    assert(requirements.len() > 3 ==> requirements[3].1);
    assert(requirements.len() > 4 ==> requirements[4].1);
    assert(requirements.len() > 5 ==> requirements[5].1);
}

/// Which Steam build a binary belongs to.
#[derive(Clone, Copy, Debug, PartialEq, Eq, Structural)]
pub enum SteamBinaryFamily {
    Ordinary,
    SteamRt,
}

/// The family that a path tells of: the runtime's directories win over the others.
pub open spec fn family_of(path: Seq<char>) -> Option<SteamBinaryFamily> {
    if has_component(path, "steamrt32"@) || has_component(path, "steamrt64"@) {
        Some(SteamBinaryFamily::SteamRt)
    } else if has_component(path, "ubuntu12_32"@) || has_component(path, "ubuntu12_64"@)
        || has_component(path, "linux32"@) || has_component(path, "linux64"@) {
        Some(SteamBinaryFamily::Ordinary)
    } else {
        None
    }
}

pub fn steam_binary_family_from_path(path: &str) -> (family: Option<SteamBinaryFamily>)
    ensures
        family == family_of(path@),
{
    if path_has_component(path, "steamrt32") || path_has_component(path, "steamrt64") {
        Some(SteamBinaryFamily::SteamRt)
    } else if path_has_component(path, "ubuntu12_32") || path_has_component(path, "ubuntu12_64")
        || path_has_component(path, "linux32") || path_has_component(path, "linux64") {
        Some(SteamBinaryFamily::Ordinary)
    } else {
        None
    }
}

/// One mapping of the process.
pub struct ProcMapsEntry {
    pub base: usize,
    pub end: usize,
    pub permissions: String,
    pub path: String,
}

impl ProcMapsEntry {
    /// Whether this is executable code of a file of that name.
    pub open spec fn is_code_of(self, file_name: Seq<char>) -> bool {
        self.permissions@.contains('x') && (ends_in(self.path@, "/"@ + file_name) || self.path@
            == file_name)
    }

    pub fn runs_file(&self, file_name: &str) -> (found: bool)
        ensures
            found == self.is_code_of(file_name@),
    {
        let suffix: String = concat("/", file_name);
        has_char(self.permissions.as_str(), 'x') && (ends_with_text(
            self.path.as_str(),
            suffix.as_str(),
        ) || text_eq(self.path.as_str(), file_name))
    }
}

/// The first executable mapping of a file, from `from` on.
pub open spec fn code_mapping_from(
    entries: Seq<ProcMapsEntry>,
    file_name: Seq<char>,
    from: int,
) -> Option<int>
    decreases entries.len() - from,
{
    if from < 0 || from >= entries.len() {
        None
    } else if entries[from].is_code_of(file_name) {
        Some(from)
    } else {
        code_mapping_from(entries, file_name, from + 1)
    }
}

/// The place of Steam's client among the mappings.
pub fn find_steamclient_exec_mapping(entries: &Vec<ProcMapsEntry>) -> (place: Option<usize>)
    ensures
        place is Some <==> code_mapping_from(entries@, "steamclient.so"@, 0) is Some,
        place is Some ==> place->0 == code_mapping_from(entries@, "steamclient.so"@, 0)->0,
{
    let mut i: usize = 0;
    while i < entries.len()
        invariant
            i <= entries@.len(),
            code_mapping_from(entries@, "steamclient.so"@, 0) == code_mapping_from(
                entries@,
                "steamclient.so"@,
                i as int,
            ),
        decreases entries@.len() - i,
    {
        if entries[i].runs_file("steamclient.so") {
            return Some(i);
        }
        i = i + 1;
    }
    None
}

/// Whether a mapping is executable code of a file and holds a run of code.
pub open spec fn maps_code(
    entry: ProcMapsEntry,
    file_name: Seq<char>,
    base: int,
    end: int,
) -> bool {
    entry.is_code_of(file_name) && entry.base <= base && entry.end >= end
}

/// The first mapping of a file that holds a run of code, from `from` on.
pub open spec fn holding_mapping_from(
    entries: Seq<ProcMapsEntry>,
    file_name: Seq<char>,
    base: int,
    end: int,
    from: int,
) -> Option<int>
    decreases entries.len() - from,
{
    if from < 0 || from >= entries.len() {
        None
    } else if maps_code(entries[from], file_name, base, end) {
        Some(from)
    } else {
        holding_mapping_from(entries, file_name, base, end, from + 1)
    }
}

/// The family of the module whose mapping holds a run of code.
pub open spec fn family_of_region(
    entries: Seq<ProcMapsEntry>,
    module: Seq<char>,
    base: int,
    len: int,
) -> Option<SteamBinaryFamily> {
    if base + len > usize::MAX {
        None
    } else {
        match holding_mapping_from(entries, module + ".so"@, base, base + len, 0) {
            Some(place) => family_of(entries[place].path@),
            None => None,
        }
    }
}

pub fn binary_family_for_code_region(
    entries: &Vec<ProcMapsEntry>,
    module: &str,
    code: &CodeRegion,
) -> (family: Option<SteamBinaryFamily>)
    ensures
        family == family_of_region(
            entries@,
            module@,
            code.base as int,
            code.bytes@.len() as int,
        ),
{
    let file_name: String = concat(module, ".so");
    let end: usize = match code.base.checked_add(code.bytes.len()) {
        Some(end) => end,
        None => {
            return None;
        },
    };
    let mut i: usize = 0;
    while i < entries.len()
        invariant
            i <= entries@.len(),
            file_name@ == module@ + ".so"@,
            end == code.base + code.bytes@.len(),
            holding_mapping_from(entries@, file_name@, code.base as int, end as int, 0)
                == holding_mapping_from(
                entries@,
                file_name@,
                code.base as int,
                end as int,
                i as int,
            ),
        decreases entries@.len() - i,
    {
        let entry: &ProcMapsEntry = &entries[i];
        if entry.runs_file(file_name.as_str()) && entry.base <= code.base && entry.end >= end {
            return steam_binary_family_from_path(entry.path.as_str());
        }
        i = i + 1;
    }
    None
}

/// The family of a region is that of the mapping that holds it, whatever else is mapped.
pub proof fn law_other_mappings_do_not_matter(
    entries: Seq<ProcMapsEntry>,
    file_name: Seq<char>,
    base: int,
    end: int,
    from: int,
)
    requires
        0 <= from <= entries.len(),
    ensures
        match holding_mapping_from(entries, file_name, base, end, from) {
            Some(place) => from <= place < entries.len() && maps_code(
                entries[place],
                file_name,
                base,
                end,
            ) && forall|k: int|
                from <= k < place ==> !maps_code(#[trigger] entries[k], file_name, base, end),
            None => forall|k: int|
                from <= k < entries.len() ==> !maps_code(
                    #[trigger] entries[k],
                    file_name,
                    base,
                    end,
                ),
        },
    decreases entries.len() - from,
{
    if from < entries.len() && !maps_code(entries[from], file_name, base, end) {
        law_other_mappings_do_not_matter(entries, file_name, base, end, from + 1);
    }
}

/// The configuration store's methods, as far as they were recognised.
#[derive(Clone, Copy, Debug, PartialEq, Eq, Structural)]
pub struct ConfigStoreMethods {
    pub get: Option<usize>,
    pub set: Option<usize>,
}

/// What is known of an interface: the slots that carry the wanted name, and its methods
/// by slot.
pub struct InterfaceTable {
    pub slots: Vec<usize>,
    pub methods: Vec<Option<usize>>,
}

impl InterfaceTable {
    /// The method at the only slot of that name.
    pub open spec fn sole_method(self) -> Option<usize> {
        if self.slots@.len() == 1 && self.slots@[0] < self.methods@.len() {
            self.methods@[self.slots@[0] as int]
        } else {
            None
        }
    }
}

/// The address that an interface's method is looked up at, before it is checked.
pub open spec fn method_candidate(
    interface: Seq<char>,
    method: Seq<char>,
    config_store: ConfigStoreMethods,
    table: InterfaceTable,
) -> Option<usize> {
    if interface == "IClientConfigStore"@ {
        if method == "GetUint64"@ {
            config_store.get
        } else if method == "SetUint64"@ {
            config_store.set
        } else {
            None
        }
    } else {
        table.sole_method()
    }
}

/// The address of an interface's method, if it lies in the code. The configuration
/// store's methods are recognised by what they do, all others by their one slot.
pub fn resolve_interface_method_address(
    code: &CodeRegion,
    interface: &str,
    method: &str,
    config_store: &ConfigStoreMethods,
    table: &InterfaceTable,
) -> (address: Option<usize>)
    requires
        code.base + code.bytes@.len() <= usize::MAX,
    ensures
        ({
            let candidate = method_candidate(interface@, method@, *config_store, *table);
            address == if candidate is Some && code.holds(candidate->0 as int) {
                candidate
            } else {
                None
            }
        }),
{
    let candidate: Option<usize> = if text_eq(interface, "IClientConfigStore") {
        if text_eq(method, "GetUint64") {
            config_store.get
        } else if text_eq(method, "SetUint64") {
            config_store.set
        } else {
            None
        }
    } else if table.slots.len() == 1 && table.slots[0] < table.methods.len() {
        table.methods[table.slots[0]]
    } else {
        None
    };
    match candidate {
        Some(address) => if address < code.base || address >= code.base + code.bytes.len() {
            None
        } else {
            Some(address)
        },
        None => None,
    }
}

/// One entry of a class's vtables.
#[derive(Clone, Copy, Debug, PartialEq, Eq, Structural)]
pub struct MethodCandidate {
    pub offset_to_top: i64,
    pub vtable_va: usize,
    pub slot: usize,
    pub func_va: usize,
}

/// How many slots a vtable has, as far as its entries show.
pub open spec fn slot_count_of(candidates: Seq<MethodCandidate>, vtable_va: usize) -> int
    decreases candidates.len(),
{
    if candidates.len() == 0 {
        0
    } else {
        let before = slot_count_of(candidates.drop_last(), vtable_va);
        let last = candidates.last();
        if last.vtable_va == vtable_va && last.slot + 1 > before {
            last.slot + 1
        } else {
            before
        }
    }
}

pub fn vtable_slot_count(candidates: &Vec<MethodCandidate>, vtable_va: usize) -> (count: usize)
    requires
        forall|i: int| 0 <= i < candidates@.len() ==> (#[trigger] candidates@[i]).slot < usize::MAX,
    ensures
        count == slot_count_of(candidates@, vtable_va),
{
    let mut count: usize = 0;
    let mut i: usize = 0;
    assert(candidates@.take(0) =~= Seq::empty());
    while i < candidates.len()
        invariant
            i <= candidates@.len(),
            forall|k: int|
                0 <= k < candidates@.len() ==> (#[trigger] candidates@[k]).slot < usize::MAX,
            count == slot_count_of(candidates@.take(i as int), vtable_va),
        decreases candidates@.len() - i,
    {
        assert(candidates@.take(i + 1).drop_last() =~= candidates@.take(i as int));
        let candidate: MethodCandidate = candidates[i];
        if candidate.vtable_va == vtable_va && candidate.slot + 1 > count {
            count = candidate.slot + 1;
        }
        i = i + 1;
    }
    assert(candidates@.take(i as int) =~= candidates@);
    count
}

/// Whether a candidate belongs to a secondary vtable.
pub open spec fn is_secondary(candidate: MethodCandidate) -> bool {
    candidate.offset_to_top < 0
}

/// The candidates of secondary vtables.
pub open spec fn secondary(candidates: Seq<MethodCandidate>) -> Seq<MethodCandidate> {
    candidates.filter(|candidate: MethodCandidate| is_secondary(candidate))
}

fn secondary_candidates(candidates: &Vec<MethodCandidate>) -> (kept: Vec<MethodCandidate>)
    requires
        forall|i: int| 0 <= i < candidates@.len() ==> (#[trigger] candidates@[i]).slot < usize::MAX,
    ensures
        kept@ == secondary(candidates@),
        forall|i: int| 0 <= i < kept@.len() ==> (#[trigger] kept@[i]).slot < usize::MAX,
{
    let mut kept: Vec<MethodCandidate> = Vec::new();
    let mut i: usize = 0;
    proof {
        reveal(Seq::filter);
        assert(candidates@.take(0) =~= Seq::empty());
    }
    while i < candidates.len()
        invariant
            i <= candidates@.len(),
            forall|k: int|
                0 <= k < candidates@.len() ==> (#[trigger] candidates@[k]).slot < usize::MAX,
            kept@ == secondary(candidates@.take(i as int)),
            forall|k: int| 0 <= k < kept@.len() ==> (#[trigger] kept@[k]).slot < usize::MAX,
        decreases candidates@.len() - i,
    {
        proof {
            reveal(Seq::filter);
            assert(candidates@.take(i + 1).drop_last() =~= candidates@.take(i as int));
        }
        if candidates[i].offset_to_top < 0 {
            kept.push(candidates[i]);
        }
        i = i + 1;
    }
    assert(candidates@.take(i as int) =~= candidates@);
    kept
}

/// The implementation behind a vtable entry, or the entry where none is recognised.
pub open spec fn implementation_of(
    arch: Arch,
    code: CodeRegion,
    name: Seq<char>,
    func_va: usize,
    check_ownership: Option<usize>,
) -> usize {
    match adapter_implementation(arch, code, name, func_va, check_ownership) {
        Some(implementation) => implementation,
        None => func_va,
    }
}

/// The implementations at a slot of the vtables that are as wide as the interface, among
/// the first `count` candidates.
pub open spec fn slot_implementations(
    arch: Arch,
    code: CodeRegion,
    name: Seq<char>,
    candidates: Seq<MethodCandidate>,
    slot: usize,
    width: usize,
    check_ownership: Option<usize>,
    count: int,
) -> Seq<usize>
    decreases count,
{
    if count <= 0 {
        Seq::empty()
    } else {
        let before = slot_implementations(
            arch,
            code,
            name,
            candidates,
            slot,
            width,
            check_ownership,
            count - 1,
        );
        let candidate = candidates[count - 1];
        if candidate.slot == slot && slot_count_of(candidates, candidate.vtable_va) == width {
            before.push(implementation_of(arch, code, name, candidate.func_va, check_ownership))
        } else {
            before
        }
    }
}

/// Whether all values of a row are equal.
spec fn agrees(row: Seq<usize>) -> bool {
    forall|k: int| 0 <= k < row.len() ==> #[trigger] row[k] == row[0]
}

/// The one implementation that a class has for an interface's method: found through the
/// method's only slot, in the secondary vtables as wide as the interface.
pub fn resolve_cuser_adapter(
    arch: Arch,
    code: &CodeRegion,
    name: &str,
    slots: &Vec<usize>,
    interface_width: Option<usize>,
    candidates: &Vec<MethodCandidate>,
    check_ownership: Option<usize>,
) -> (implementation: Option<usize>)
    requires
        code.base + code.bytes@.len() <= usize::MAX,
        forall|i: int| 0 <= i < candidates@.len() ==> (#[trigger] candidates@[i]).slot < usize::MAX,
    ensures
        implementation == if slots@.len() != 1 || interface_width is None {
            None
        } else {
            sole_value(
                slot_implementations(
                    arch,
                    *code,
                    name@,
                    secondary(candidates@),
                    slots@[0],
                    interface_width->0,
                    check_ownership,
                    secondary(candidates@).len() as int,
                ),
            )
        },
{
    if slots.len() != 1 {
        return None;
    }
    let slot: usize = slots[0];
    let width: usize = match interface_width {
        Some(width) => width,
        None => {
            return None;
        },
    };
    let kept: Vec<MethodCandidate> = secondary_candidates(candidates);
    let mut found: Option<usize> = None;
    let mut conflict: bool = false;
    let mut i: usize = 0;
    let ghost mut row: Seq<usize> = Seq::empty();
    while i < kept.len()
        invariant
            i <= kept@.len(),
            code.base + code.bytes@.len() <= usize::MAX,
            forall|k: int| 0 <= k < kept@.len() ==> (#[trigger] kept@[k]).slot < usize::MAX,
            row == slot_implementations(
                arch,
                *code,
                name@,
                kept@,
                slot,
                width,
                check_ownership,
                i as int,
            ),
            found is None <==> row.len() == 0,
            found is Some ==> row[0] == found->0,
            conflict <==> !agrees(row),
        decreases kept@.len() - i,
    {
        let candidate: MethodCandidate = kept[i];
        if candidate.slot == slot && vtable_slot_count(&kept, candidate.vtable_va) == width {
            let target: usize = match resolve_adapter_implementation(
                arch,
                code,
                name,
                candidate.func_va,
                check_ownership,
            ) {
                Some(target) => target,
                None => candidate.func_va,
            };
            let ghost before = row;
            proof {
                row = row.push(target);
            }
            match found {
                Some(first) => {
                    if first != target {
                        conflict = true;
                        assert(row[before.len() as int] != row[0]);
                    } else {
                        proof {
                            if !agrees(before) {
                                let k = choose|k: int|
                                    0 <= k < before.len() && #[trigger] before[k] != before[0];
                                assert(row[k] != row[0]);
                            }
                        }
                    }
                },
                None => {
                    found = Some(target);
                },
            }
        }
        i = i + 1;
    }
    if conflict {
        None
    } else {
        found
    }
}

/// What the check of a hot-fixed pattern found: whether the pattern is there, where it
/// resolves to, and what is wrong with the code there, if anything.
pub struct HotfixProbe {
    pub name: String,
    pub present: bool,
    pub address: Option<usize>,
    pub complaint: Option<String>,
}

/// What is wrong with one pattern, in words.
pub open spec fn probe_failure(probe: HotfixProbe, base: usize) -> Option<Seq<char>> {
    let name = quoted_of(probe.name@);
    if !probe.present {
        Some("hotfix entry "@ + name + " disappeared"@)
    } else if probe.address is None {
        Some("hotfix pattern "@ + name + " did not resolve uniquely"@)
    } else if probe.address->0 < base {
        Some("hotfix pattern "@ + name + " resolved outside the module"@)
    } else {
        match probe.complaint {
            Some(complaint) => Some("hotfix pattern "@ + name + ": "@ + complaint@),
            None => None,
        }
    }
}

/// What is wrong with the first wrong pattern, from `from` on.
pub open spec fn first_failure(probes: Seq<HotfixProbe>, base: usize, from: int) -> Option<Seq<char>>
    decreases probes.len() - from,
{
    if from < 0 || from >= probes.len() {
        None
    } else {
        match probe_failure(probes[from], base) {
            Some(failure) => Some(failure),
            None => first_failure(probes, base, from + 1),
        }
    }
}

fn probe_text(probe: &HotfixProbe, base: usize) -> (failure: Option<String>)
    ensures
        failure is Some <==> probe_failure(*probe, base) is Some,
        failure is Some ==> failure->0@ == probe_failure(*probe, base)->0,
{
    let name: String = quoted(probe.name.as_str());
    if !probe.present {
        return Some(
            concat(concat("hotfix entry ", name.as_str()).as_str(), " disappeared"),
        );
    }
    let pattern: String = concat("hotfix pattern ", name.as_str());
    match probe.address {
        None => Some(concat(pattern.as_str(), " did not resolve uniquely")),
        Some(address) => if address < base {
            Some(concat(pattern.as_str(), " resolved outside the module"))
        } else {
            match &probe.complaint {
                Some(complaint) => Some(
                    concat(concat(pattern.as_str(), ": ").as_str(), complaint.as_str()),
                ),
                None => None,
            }
        },
    }
}

/// Checks the patterns of a hot-fix against the live module; the first that is wrong
/// decides.
pub fn validate_live_hotfix(probes: &Vec<HotfixProbe>, base: usize) -> (verdict: Result<(), String>)
    ensures
        verdict is Ok <==> first_failure(probes@, base, 0) is None,
        verdict matches Err(failure) ==> failure@ == first_failure(probes@, base, 0)->0,
{
    let mut i: usize = 0;
    while i < probes.len()
        invariant
            i <= probes@.len(),
            first_failure(probes@, base, 0) == first_failure(probes@, base, i as int),
        decreases probes@.len() - i,
    {
        if let Some(failure) = probe_text(&probes[i], base) {
            return Err(failure);
        }
        i = i + 1;
    }
    Ok(())
}

/// Why the content of a candidate for a hot-fix is refused: it is no text, it could not be
/// read as patterns, or one of them does not hold. `probes` is what was found for the
/// patterns, or what is wrong with the text.
pub open spec fn candidate_failure(
    content: Seq<u8>,
    probes: Result<Seq<HotfixProbe>, Seq<char>>,
    base: usize,
) -> Option<Seq<char>> {
    if !valid_utf8(content) {
        Some("candidate is not UTF-8: "@ + utf8_error_of(content))
    } else {
        match probes {
            Err(error) => Some("candidate rejected: "@ + error),
            Ok(probes) => match first_failure(probes, base, 0) {
                Some(failure) => Some("semantic validation failed: "@ + failure),
                None => None,
            },
        }
    }
}

/// Whether a candidate for a hot-fix may be published.
pub fn validate_hotfix_candidate_content(
    content: &[u8],
    probes: Result<&Vec<HotfixProbe>, &str>,
    base: usize,
) -> (verdict: Result<(), String>)
    ensures
        ({
            let found = match probes {
                Ok(probes) => Ok::<Seq<HotfixProbe>, Seq<char>>(probes@),
                Err(error) => Err(error@),
            };
            &&& verdict is Ok <==> candidate_failure(content@, found, base) is None
            &&& verdict matches Err(failure) ==> failure@ == candidate_failure(
                content@,
                found,
                base,
            )->0
        }),
{
    if let Err(error) = utf8_text(content) {
        return Err(concat("candidate is not UTF-8: ", error.as_str()));
    }
    match probes {
        Err(error) => Err(concat("candidate rejected: ", error)),
        Ok(probes) => match validate_live_hotfix(probes, base) {
            Ok(_) => Ok(()),
            Err(failure) => Err(concat("semantic validation failed: ", failure.as_str())),
        },
    }
}

/// Which patterns are used.
#[derive(Clone, Copy, Debug, PartialEq, Eq, Structural)]
pub enum PatternSource {
    Hotfix,
    Embedded,
}

/// Chooses the patterns: none for an unknown build, a hot-fix that proved itself, and the
/// embedded ones otherwise.
pub fn load_pattern_registry(
    target_known: bool,
    hotfix_loaded: bool,
    hotfix_valid: bool,
) -> (source: Option<PatternSource>)
    ensures
        source == if !target_known {
            None
        } else if hotfix_loaded && hotfix_valid {
            Some(PatternSource::Hotfix)
        } else {
            Some(PatternSource::Embedded)
        },
{
    if !target_known {
        None
    } else if hotfix_loaded && hotfix_valid {
        Some(PatternSource::Hotfix)
    } else {
        Some(PatternSource::Embedded)
    }
}

/// What the package hook does once Steam has answered.
#[derive(Clone, Copy, Debug, PartialEq, Eq, Structural)]
pub enum PackageInfoStep {
    /// Nothing is left to capture.
    Pass,
    /// Only the receiver is captured.
    CaptureReceiver,
    /// The receiver is captured, and the base package is looked up through it, under its id
    /// and access token.
    LookUpBase { package_id: u32, access_token: u64 },
    /// The receiver is captured, and the answer is the base package.
    AnswerIsBase,
}

/// The lookup of the base package: package 0, with the token that is known for it.
pub open spec fn base_lookup() -> PackageInfoStep {
    PackageInfoStep::LookUpBase { package_id: 0, access_token: PKG0_ACCESS_TOKEN }
}

fn look_up_base() -> (step: PackageInfoStep)
    ensures
        step == base_lookup(),
{
    PackageInfoStep::LookUpBase { package_id: 0, access_token: PKG0_ACCESS_TOKEN }
}

/// Decides what to capture on an answer. `answer` is the package that Steam returned.
pub fn begin_package_capture(
    captured: &mut bool,
    arch: Arch,
    injection_ready: bool,
    answer: Option<u32>,
    package_id: u32,
) -> (step: PackageInfoStep)
    ensures
        *final(captured) == (injection_ready || *old(captured)),
        step == if !injection_ready || *old(captured) {
            PackageInfoStep::Pass
        } else {
            match arch {
                Arch::X86 => if answer is Some || package_id == 0 {
                    base_lookup()
                } else {
                    PackageInfoStep::CaptureReceiver
                },
                Arch::X64 => if answer == Some(0u32) {
                    PackageInfoStep::AnswerIsBase
                } else {
                    base_lookup()
                },
            }
        },
{
    if !injection_ready || *captured {
        return PackageInfoStep::Pass;
    }
    *captured = true;
    match arch {
        Arch::X86 => if answer.is_some() || package_id == 0 {
            look_up_base()
        } else {
            PackageInfoStep::CaptureReceiver
        },
        Arch::X64 => match answer {
            Some(id) => if id == 0 {
                PackageInfoStep::AnswerIsBase
            } else {
                look_up_base()
            },
            None => look_up_base(),
        },
    }
}

/// Settles a lookup of the base package: without one, the next answer is tried again.
pub fn finish_package_capture(captured: &mut bool, base_captured: bool)
    ensures
        *final(captured) == (base_captured && *old(captured)),
{
    if !base_captured {
        *captured = false;
    }
}

/// The first caller that asks for a batch installs it, where there is a runtime and the
/// system supports it; without either it is refused.
pub proof fn law_the_first_caller_installs(
    state: BatchState,
    batch: HookBatch,
    runtime_ready: bool,
    supported: bool,
)
    requires
        !state.progress(batch).started,
    ensures
        runtime_ready && supported <==> state.action_for(batch, runtime_ready, supported)
            is Install,
        !(runtime_ready && supported) ==> state.action_for(batch, runtime_ready, supported)
            is Rejected,
        state.begun(batch).progress(batch).started,
        !state.progress(batch).finished ==> !state.begun(batch).progress(batch).finished,
{
}

/// Every capability belongs to one of the two batches, and to one only.
pub proof fn law_batches_share_the_capabilities(capability: Capability)
    ensures
        batch_capabilities(HookBatch::SteamUi).contains(capability) <==> (capability is LibraryUi
            || capability is OverviewMetadata || capability is LibrarySnapshot
            || capability is ConflictUiBridge),
        batch_capabilities(HookBatch::SteamClient).contains(capability) <==> !batch_capabilities(
            HookBatch::SteamUi,
        ).contains(capability),
{
    let client = batch_capabilities(HookBatch::SteamClient);
    let ui = batch_capabilities(HookBatch::SteamUi);
    match capability {
        Capability::CallbackEvents => assert(client[0] == capability),
        Capability::Ownership => assert(client[1] == capability),
        Capability::PackageInjection => assert(client[2] == capability),
        Capability::TicketOverrides => assert(client[3] == capability),
        Capability::DepotInjection => assert(client[4] == capability),
        Capability::ShaderCacheControl => assert(client[5] == capability),
        Capability::DlcOverrides => assert(client[6] == capability),
        Capability::CmInterception => assert(client[7] == capability),
        Capability::NativeResponseDelivery => assert(client[8] == capability),
        Capability::CloudControl => assert(client[9] == capability),
        Capability::CloudHttp => assert(client[10] == capability),
        Capability::LaunchEnvironment => assert(client[11] == capability),
        Capability::LegacyCdKeyControl => assert(client[12] == capability),
        Capability::LibraryUi => assert(ui[0] == capability),
        Capability::OverviewMetadata => assert(ui[1] == capability),
        Capability::LibrarySnapshot => assert(ui[2] == capability),
        Capability::ConflictUiBridge => assert(ui[3] == capability),
    }
}

/// A hook that was found is kept wherever its whole group was found and the functions that
/// the group calls are there; a hook of no group is kept as it is. A hook that is kept is the
/// one that was found.
pub proof fn law_whole_groups_are_kept(
    found: Seq<Option<usize>>,
    callables: Callables,
    index: int,
)
    requires
        found.len() == 27,
        0 <= index < 27,
    ensures
        kept_hooks(found, callables).len() == 27,
        kept_hooks(found, callables)[index] is Some ==> kept_hooks(found, callables)[index]
            == found[index],
        (forall|other: int|
            0 <= other < 27 && same_group(index, other) ==> (#[trigger] found[other]) is Some) && (
        (index == 8 || index == 21) ==> callables.set_cloud) && (22 <= index <= 23
            ==> callables.set_env) ==> kept_hooks(found, callables)[index] == found[index],
        (exists|other: int|
            0 <= other < 27 && same_group(index, other) && (#[trigger] found[other]) is None)
            ==> kept_hooks(found, callables)[index] is None,
        (index == 8 || index == 21) && !callables.set_cloud ==> kept_hooks(found, callables)[index]
            is None,
        22 <= index <= 23 && !callables.set_env ==> kept_hooks(found, callables)[index] is None,
{
    if forall|other: int|
        0 <= other < 27 && same_group(index, other) ==> (#[trigger] found[other]) is Some {
        assert(same_group(8, 8) && same_group(8, 21));
        if index == 8 || index == 21 {
            assert(found[8] is Some && found[21] is Some);
        }
    }
}

/// Which of the plain functions a capability calls.
pub open spec fn calls_are_there(capability: Capability, callables: Callables) -> bool {
    match capability {
        Capability::NativeResponseDelivery => callables.native_packets,
        Capability::PackageInjection => callables.packages,
        Capability::CloudControl => callables.set_cloud,
        Capability::LaunchEnvironment => callables.set_env,
        _ => true,
    }
}

/// A capability of the client batch is ready exactly where every hook that it rests on is in
/// place and the functions that it calls are there; otherwise it is disabled.
pub proof fn law_capabilities_follow_their_hooks(
    capability: Capability,
    installed: Seq<bool>,
    callables: Callables,
)
    requires
        installed.len() == 27,
        !(capability is LibraryUi || capability is OverviewMetadata || capability is LibrarySnapshot
            || capability is ConflictUiBridge),
    ensures
        ({
            let outcome = outcome_of(requirements_of(capability, installed, callables));
            let ready = calls_are_there(capability, callables) && forall|index: int|
                0 <= index < 27 && rests_on(capability, index) ==> #[trigger] installed[index];
            &&& ready ==> outcome.state is Ready && outcome.reason is None
            &&& !ready ==> outcome.state is Disabled
        }),
{
    let requirements = requirements_of(capability, installed, callables);
    if all_met(requirements) {
        assert forall|index: int| 0 <= index < 27 && rests_on(capability, index) implies
            #[trigger] installed[index] by {
            law_ready_capabilities_have_their_hooks(capability, installed, callables, index);
        }
        match capability {
            Capability::NativeResponseDelivery => assert(requirements[1].1),
            Capability::PackageInjection => assert(requirements[2].1),
            Capability::CloudControl => assert(requirements[2].1),
            Capability::LaunchEnvironment => assert(requirements[2].1),
            _ => {},
        }
    }
}

/// The vtable is as wide as its last slot: every entry of it lies inside, and the last place
/// is that of an entry.
pub proof fn law_vtables_hold_their_slots(candidates: Seq<MethodCandidate>, vtable_va: usize)
    ensures
        forall|i: int|
            0 <= i < candidates.len() && (#[trigger] candidates[i]).vtable_va == vtable_va
                ==> candidates[i].slot < slot_count_of(candidates, vtable_va),
        slot_count_of(candidates, vtable_va) == 0 || exists|i: int|
            0 <= i < candidates.len() && (#[trigger] candidates[i]).vtable_va == vtable_va
                && candidates[i].slot + 1 == slot_count_of(candidates, vtable_va),
        slot_count_of(candidates, vtable_va) >= 0,
    decreases candidates.len(),
{
    if candidates.len() > 0 {
        let rest = candidates.drop_last();
        law_vtables_hold_their_slots(rest, vtable_va);
        let before = slot_count_of(rest, vtable_va);
        let after = slot_count_of(candidates, vtable_va);
        assert(candidates[candidates.len() - 1] == candidates.last());
        assert forall|i: int|
            0 <= i < candidates.len() && (#[trigger] candidates[i]).vtable_va
                == vtable_va implies candidates[i].slot < after by {
            if i < rest.len() {
                assert(rest[i] == candidates[i]);
            }
        }
        if after == before && after != 0 {
            let i = choose|i: int|
                0 <= i < rest.len() && (#[trigger] rest[i]).vtable_va == vtable_va && rest[i].slot
                    + 1 == before;
            assert(candidates[i].slot + 1 == after);
        }
    }
}

/// A hot-fix is taken exactly where each of its patterns is there, resolves inside the module
/// and draws no complaint.
pub proof fn law_hotfixes_hold_in_every_pattern(
    probes: &Vec<HotfixProbe>,
    base: usize,
    verdict: Result<(), String>,
)
    requires
        call_ensures(validate_live_hotfix, (probes, base), verdict),
    ensures
        verdict is Ok <==> forall|i: int|
            0 <= i < probes@.len() ==> (#[trigger] probes@[i]).present && probes@[i].address is Some
                && probes@[i].address->0 >= base && probes@[i].complaint is None,
{
    lemma_first_failure(probes@, base, 0);
}

proof fn lemma_first_failure(probes: Seq<HotfixProbe>, base: usize, from: int)
    requires
        0 <= from <= probes.len(),
    ensures
        first_failure(probes, base, from) is None <==> forall|i: int|
            from <= i < probes.len() ==> (#[trigger] probes[i]).present && probes[i].address is Some
                && probes[i].address->0 >= base && probes[i].complaint is None,
    decreases probes.len() - from,
{
    if from < probes.len() {
        lemma_first_failure(probes, base, from + 1);
    }
}

/// A candidate is published exactly where it is a text, reads as patterns, and holds in every
/// one of them.
pub proof fn law_published_candidates_hold(
    content: &[u8],
    probes: Result<&Vec<HotfixProbe>, &str>,
    base: usize,
    verdict: Result<(), String>,
)
    requires
        call_ensures(validate_hotfix_candidate_content, (content, probes, base), verdict),
    ensures
        verdict is Ok <==> valid_utf8(content@) && probes is Ok && forall|i: int|
            0 <= i < probes->Ok_0@.len() ==> (#[trigger] probes->Ok_0@[i]).present
                && probes->Ok_0@[i].address is Some && probes->Ok_0@[i].address->0 >= base
                && probes->Ok_0@[i].complaint is None,
{
    if let Ok(list) = probes {
        lemma_first_failure(list@, base, 0);
    }
}

/// Steam's client is the first executable mapping of its file.
pub proof fn law_the_client_is_found_where_it_runs(
    entries: &Vec<ProcMapsEntry>,
    place: Option<usize>,
)
    requires
        call_ensures(find_steamclient_exec_mapping, (entries,), place),
    ensures
        ({
            let runs = |entry: ProcMapsEntry|
                entry.permissions@.contains('x') && (ends_in(entry.path@, "/steamclient.so"@)
                    || entry.path@ == "steamclient.so"@);
            &&& place is None <==> forall|i: int|
                0 <= i < entries@.len() ==> !runs(#[trigger] entries@[i])
            &&& place matches Some(at) ==> at < entries@.len() && runs(entries@[at as int])
                && forall|i: int| 0 <= i < at ==> !runs(#[trigger] entries@[i])
        }),
{
    reveal_strlit("/");
    reveal_strlit("steamclient.so");
    reveal_strlit("/steamclient.so");
    assert("/"@ + "steamclient.so"@ =~= "/steamclient.so"@);
    lemma_code_mapping_from(entries@, "steamclient.so"@, 0);
}

proof fn lemma_code_mapping_from(entries: Seq<ProcMapsEntry>, file_name: Seq<char>, from: int)
    requires
        0 <= from <= entries.len(),
    ensures
        match code_mapping_from(entries, file_name, from) {
            Some(place) => from <= place < entries.len() && entries[place].is_code_of(file_name)
                && forall|k: int|
                from <= k < place ==> !(#[trigger] entries[k]).is_code_of(file_name),
            None => forall|k: int|
                from <= k < entries.len() ==> !(#[trigger] entries[k]).is_code_of(file_name),
        },
    decreases entries.len() - from,
{
    if from < entries.len() && !entries[from].is_code_of(file_name) {
        lemma_code_mapping_from(entries, file_name, from + 1);
    }
}

proof fn lemma_implementations(
    arch: Arch,
    code: CodeRegion,
    name: Seq<char>,
    candidates: Seq<MethodCandidate>,
    slot: usize,
    width: usize,
    check_ownership: Option<usize>,
    count: int,
    value: usize,
)
    requires
        0 <= count <= candidates.len(),
    ensures
        slot_implementations(
            arch,
            code,
            name,
            candidates,
            slot,
            width,
            check_ownership,
            count,
        ).contains(value) <==> exists|k: int|
            0 <= k < count && (#[trigger] candidates[k]).slot == slot && slot_count_of(
                candidates,
                candidates[k].vtable_va,
            ) == width && implementation_of(
                arch,
                code,
                name,
                candidates[k].func_va,
                check_ownership,
            ) == value,
    decreases count,
{
    if count > 0 {
        lemma_implementations(
            arch,
            code,
            name,
            candidates,
            slot,
            width,
            check_ownership,
            count - 1,
            value,
        );
        let before = slot_implementations(
            arch,
            code,
            name,
            candidates,
            slot,
            width,
            check_ownership,
            count - 1,
        );
        let after = slot_implementations(
            arch,
            code,
            name,
            candidates,
            slot,
            width,
            check_ownership,
            count,
        );
        let last = candidates[count - 1];
        if before.contains(value) {
            let k = choose|k: int| 0 <= k < before.len() && before[k] == value;
            assert(after[k] == value);
        }
        if last.slot == slot && slot_count_of(candidates, last.vtable_va) == width {
            let found = implementation_of(arch, code, name, last.func_va, check_ownership);
            assert(after[before.len() as int] == found);
            if after.contains(value) && !before.contains(value) {
                let k = choose|k: int| 0 <= k < after.len() && after[k] == value;
                if k < before.len() {
                    assert(before[k] == value);
                }
            }
        }
    }
}

/// An interface's method is resolved where all secondary tables as wide as the interface agree
/// on it: every one of their entries at the slot leads to what is resolved, and there is one.
/// Where two disagree nothing is.
pub proof fn law_resolved_methods_are_agreed_on(
    arch: Arch,
    code: CodeRegion,
    name: &str,
    slots: Vec<usize>,
    width: usize,
    candidates: Vec<MethodCandidate>,
    check_ownership: Option<usize>,
    implementation: Option<usize>,
    kept: Seq<MethodCandidate>,
    k: int,
)
    requires
        call_ensures(
            resolve_cuser_adapter,
            (arch, &code, name, &slots, Some(width), &candidates, check_ownership),
            implementation,
        ),
        kept == candidates@.filter(|candidate: MethodCandidate| candidate.offset_to_top < 0),
    ensures
        slots@.len() != 1 ==> implementation is None,
        implementation is Some && 0 <= k < kept.len() && kept[k].slot == slots@[0]
            && slot_count_of(kept, kept[k].vtable_va) == width ==> implementation_of(
            arch,
            code,
            name@,
            kept[k].func_va,
            check_ownership,
        ) == implementation->0,
        implementation is Some ==> exists|other: int|
            0 <= other < kept.len() && (#[trigger] kept[other]).slot == slots@[0] && slot_count_of(
                kept,
                kept[other].vtable_va,
            ) == width,
        slots@.len() == 1 && implementation is None && 0 <= k < kept.len() && kept[k].slot
            == slots@[0] && slot_count_of(kept, kept[k].vtable_va) == width ==> exists|other: int|
            0 <= other < kept.len() && (#[trigger] kept[other]).slot == slots@[0] && slot_count_of(
                kept,
                kept[other].vtable_va,
            ) == width && implementation_of(
                arch,
                code,
                name@,
                kept[other].func_va,
                check_ownership,
            ) != implementation_of(arch, code, name@, kept[k].func_va, check_ownership),
{
    if slots@.len() == 1 {
        assert(secondary(candidates@) == kept) by {
            assert((|candidate: MethodCandidate| is_secondary(candidate)) =~= (|
                candidate: MethodCandidate,
            | candidate.offset_to_top < 0));
        }
        let row = slot_implementations(
            arch,
            code,
            name@,
            kept,
            slots@[0],
            width,
            check_ownership,
            kept.len() as int,
        );
        assert(implementation == sole_value(row));
        if implementation is Some {
            assert(row[0] == implementation->0);
            assert(row.contains(row[0]));
            lemma_implementations(
                arch,
                code,
                name@,
                kept,
                slots@[0],
                width,
                check_ownership,
                kept.len() as int,
                row[0],
            );
        }
        if 0 <= k < kept.len() && kept[k].slot == slots@[0] && slot_count_of(
            kept,
            kept[k].vtable_va,
        ) == width {
            let own = implementation_of(arch, code, name@, kept[k].func_va, check_ownership);
            lemma_implementations(
                arch,
                code,
                name@,
                kept,
                slots@[0],
                width,
                check_ownership,
                kept.len() as int,
                own,
            );
            let at = choose|at: int| 0 <= at < row.len() && row[at] == own;
            assert(row[at] == own);
            if implementation is None {
                let different = choose|d: int| 0 <= d < row.len() && #[trigger] row[d] != row[0];
                let value = if row[0] == own {
                    row[different]
                } else {
                    row[0]
                };
                assert(row.contains(value)) by {
                    assert(row.contains(row[different]));
                    assert(row.contains(row[0]));
                }
                lemma_implementations(
                    arch,
                    code,
                    name@,
                    kept,
                    slots@[0],
                    width,
                    check_ownership,
                    kept.len() as int,
                    value,
                );
            }
        }
    }
}

/// A method is looked up at its only slot: two slots of a name, or a slot behind the methods,
/// give nothing, and neither does what lies outside the code. The configuration store's two
/// methods come from what they do, whatever the table says.
pub proof fn law_methods_are_looked_up_at_their_slot(
    code: CodeRegion,
    interface: &str,
    method: &str,
    config_store: ConfigStoreMethods,
    table: InterfaceTable,
    address: Option<usize>,
)
    requires
        code.base + code.bytes@.len() <= usize::MAX,
        call_ensures(
            resolve_interface_method_address,
            (&code, interface, method, &config_store, &table),
            address,
        ),
    ensures
        address is Some ==> code.base <= address->0 < code.base + code.bytes@.len(),
        interface@ != "IClientConfigStore"@ && address is Some ==> table.slots@.len() == 1
            && table.slots@[0] < table.methods@.len() && table.methods@[table.slots@[0] as int]
            == address,
        interface@ != "IClientConfigStore"@ && table.slots@.len() == 1 && table.slots@[0]
            < table.methods@.len() && table.methods@[table.slots@[0] as int] is Some && code.base
            <= table.methods@[table.slots@[0] as int]->0 < code.base + code.bytes@.len()
            ==> address == table.methods@[table.slots@[0] as int],
        interface@ == "IClientConfigStore"@ && address is Some ==> (method@ == "GetUint64"@
            && address == config_store.get) || (method@ == "SetUint64"@ && address
            == config_store.set),
        interface@ == "IClientConfigStore"@ && method@ == "GetUint64"@ && config_store.get is Some
            && code.base <= config_store.get->0 < code.base + code.bytes@.len() ==> address
            == config_store.get,
        interface@ == "IClientConfigStore"@ && method@ == "SetUint64"@ && config_store.set is Some
            && code.base <= config_store.set->0 < code.base + code.bytes@.len() ==> address
            == config_store.set,
{
    reveal_strlit("GetUint64");
    reveal_strlit("SetUint64");
    assert("GetUint64"@[0] == 'G' && "SetUint64"@[0] == 'S');
}

/// A hook counts as installed exactly where it was planned and put in place, and the report
/// keeps its name and address either way.
pub proof fn law_reports_tell_what_is_in_place(
    kept: Seq<Option<usize>>,
    package_info: Option<usize>,
    index: int,
    placed: bool,
)
    ensures
        ({
            let planned = first_report(kept, package_info, index);
            let settled = final_report(planned, placed);
            &&& planned.installed <==> kept[index] is Some
            &&& settled.installed <==> kept[index] is Some && placed
            &&& settled.addr == planned.addr && settled.name == planned.name
            &&& index != 11 && kept[index] is Some ==> planned.addr == kept[index]->0
            &&& index != 11 && kept[index] is None ==> planned.addr == 0
        }),
{
}

/// Where a batch cannot begin, everything it offers is switched off for that one reason, and
/// nothing else is touched.
pub proof fn law_disabled_batches_leave_the_others(
    before: CapabilityRegistry,
    after: CapabilityRegistry,
    batch: HookBatch,
    reason: Seq<char>,
    capability: Capability,
)
    requires
        batch_is_disabled(before, after, batch, reason),
        reason.len() > 0,
    ensures
        batch_capabilities(batch).contains(capability) ==> after.entry(capability).state is Disabled
            && after.entry(capability).reason == Some(reason),
        !batch_capabilities(batch).contains(capability) ==> after.entry(capability) == before.entry(
            capability,
        ),
{
    assert(after.entry(capability) == after.entry(capability));
}

/// The client batch begins exactly where the code is mapped and its patterns are known, and a
/// hook is in place exactly where it was planned and put there.
pub proof fn law_plans_begin_with_code_and_patterns(
    code_mapped: bool,
    patterns_known: bool,
    plan: Seq<HookResult>,
    placed: Seq<bool>,
    k: int,
)
    requires
        0 <= k < plan.len(),
    ensures
        install_obstacle(code_mapped, patterns_known) is None <==> code_mapped && patterns_known,
        install_obstacle(false, patterns_known) == install_obstacle(false, !patterns_known),
        !patterns_known ==> install_obstacle(true, patterns_known) != install_obstacle(
            false,
            patterns_known,
        ),
        in_place(plan, placed).len() == plan.len(),
        in_place(plan, placed)[k] <==> final_report(plan[k], placed[k]).installed,
{
    reveal_strlit("steamclient executable mapping is unavailable");
    reveal_strlit("steamclient pattern target is unavailable");
    assert("steamclient executable mapping is unavailable"@.len()
        != "steamclient pattern target is unavailable"@.len());
}

/// A path tells the family of its binary: one with a directory of the runtime is the runtime's,
/// whatever other directories it has; one with another of Steam's directories is ordinary; and
/// any other path tells nothing.
pub proof fn law_paths_tell_the_family(path: &str, family: Option<SteamBinaryFamily>)
    requires
        call_ensures(steam_binary_family_from_path, (path,), family),
    ensures
        ({
            let runtime = exists|start: int, end: int| #[trigger]
                component_at(path@, start, end) && (path@.subrange(start, end) == "steamrt32"@
                    || path@.subrange(start, end) == "steamrt64"@);
            let other = exists|start: int, end: int| #[trigger]
                component_at(path@, start, end) && (path@.subrange(start, end) == "ubuntu12_32"@
                    || path@.subrange(start, end) == "ubuntu12_64"@ || path@.subrange(start, end)
                    == "linux32"@ || path@.subrange(start, end) == "linux64"@);
            &&& family is Some <==> runtime || other
            &&& family is Some ==> (family->0 is SteamRt <==> runtime)
        }),
{
}

/// The family of a run of code is told by the first mapping of the module's file that holds all
/// of it.
pub proof fn law_regions_have_the_family_of_their_mapping(
    entries: Vec<ProcMapsEntry>,
    module: &str,
    code: CodeRegion,
    place: int,
    family: Option<SteamBinaryFamily>,
    told: Option<SteamBinaryFamily>,
)
    requires
        call_ensures(binary_family_for_code_region, (&entries, module, &code), family),
        code.base + code.bytes@.len() <= usize::MAX,
        told == family_of(entries@[place].path@),
    ensures
        0 <= place < entries@.len() && entries@[place].is_code_of(module@ + ".so"@)
            && entries@[place].base <= code.base && code.base + code.bytes@.len()
            <= entries@[place].end && (forall|k: int|
            0 <= k < place ==> !maps_code(
                #[trigger] entries@[k],
                module@ + ".so"@,
                code.base as int,
                code.base + code.bytes@.len(),
            )) ==> family == told,
        family is Some ==> exists|k: int|
            0 <= k < entries@.len() && (#[trigger] entries@[k]).is_code_of(module@ + ".so"@)
                && entries@[k].base <= code.base && code.base + code.bytes@.len()
                <= entries@[k].end,
{
    law_other_mappings_do_not_matter(
        entries@,
        module@ + ".so"@,
        code.base as int,
        code.base + code.bytes@.len(),
        0,
    );
    let found = holding_mapping_from(
        entries@,
        module@ + ".so"@,
        code.base as int,
        code.base + code.bytes@.len(),
        0,
    );
    if 0 <= place < entries@.len() {
        assert(entries@[place] == entries@[place]);
    }
}

} // verus!
