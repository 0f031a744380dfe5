//! The environment of a launched game.
use crate::achievement_adapters::{lemma_ends_at, lemma_never_ends, terminated_at};
use crate::capability::joined;
use crate::paths::{join_path, joined_path, texts_of};
use crate::text::{has_char, lossy_text, lossy_text_of, text_eq};
use vstd::prelude::*;
use vstd::string::*;

verus! {

pub const PROTON_HELPER_NAME: &'static str = "libvapor_forge_proton_inject.so";

pub const MAX_LAUNCH_OPTIONS: usize = 4096;

/// One variable that is written, and its value.
pub struct EnvWrite {
    pub key: String,
    pub value: String,
}

/// The characters of one written variable.
#[verifier::ext_equal]
pub struct EnvPair {
    pub key: Seq<char>,
    pub value: Seq<char>,
}

impl View for EnvWrite {
    type V = EnvPair;

    open spec fn view(&self) -> EnvPair {
        EnvPair { key: self.key@, value: self.value@ }
    }
}

/// The values of a list of writes.
pub open spec fn writes_of(writes: Seq<EnvWrite>) -> Seq<EnvPair> {
    writes.map_values(|write: EnvWrite| write@)
}

/// What is injected into one launch.
pub struct Injection {
    pub native_libs: Vec<String>,
    pub proton_dll: Option<String>,
    pub loader_fix: bool,
}

/// The running game bridge: the variables it uses, where it listens, and the token of
/// this launch, if one could be made.
pub struct BridgeLaunch {
    pub token_key: String,
    pub socket_key: String,
    pub socket_path: String,
    pub token: Option<String>,
}

/// Whether a text can be passed as a C string.
pub open spec fn is_c_text(text: Seq<char>) -> bool {
    !text.contains('\0')
}

fn fits_c_text(text: &str) -> (fits: bool)
    ensures
        fits == is_c_text(text@),
{
    !has_char(text, '\0')
}

/// The value that preloads native libraries.
pub open spec fn preload_value(libs: Seq<String>) -> Seq<char> {
    joined(texts_of(libs), ":"@)
}

/// Whether native libraries are preloaded.
pub open spec fn preloads(injection: Option<Injection>) -> bool {
    injection is Some && injection->0.native_libs@.len() > 0 && is_c_text(
        preload_value(injection->0.native_libs@),
    )
}

/// Whether a library is injected through Proton.
pub open spec fn has_proton_dll(injection: Option<Injection>) -> bool {
    injection is Some && injection->0.proton_dll is Some
}

pub open spec fn audit_writes(helper: Option<Seq<char>>) -> Seq<EnvPair> {
    match helper {
        Some(path) => if is_c_text(path) {
            seq![EnvPair { key: "LD_AUDIT"@, value: path }]
        } else {
            Seq::empty()
        },
        None => Seq::empty(),
    }
}

pub open spec fn pair_if_c(key: Seq<char>, value: Seq<char>) -> Seq<EnvPair> {
    if is_c_text(key) && is_c_text(value) {
        seq![EnvPair { key, value }]
    } else {
        Seq::empty()
    }
}

pub open spec fn preload_writes(injection: Option<Injection>) -> Seq<EnvPair> {
    if preloads(injection) {
        seq![
            EnvPair { key: "LD_PRELOAD"@, value: preload_value(injection->0.native_libs@) },
        ]
    } else {
        Seq::empty()
    }
}

/// The loader fix brings the helper itself only where nothing else does.
pub open spec fn loader_fix_writes(
    injection: Option<Injection>,
    helper: Option<Seq<char>>,
    bridge: Option<BridgeLaunch>,
) -> Seq<EnvPair> {
    if injection is Some && injection->0.loader_fix {
        let fix = seq![EnvPair { key: "VAPOR_FORGE_LOADER_FIX"@, value: "1"@ }];
        if !has_proton_dll(injection) && bridge is None {
            fix + audit_writes(helper)
        } else {
            fix
        }
    } else {
        Seq::empty()
    }
}

pub open spec fn token_writes(bridge: BridgeLaunch) -> Seq<EnvPair> {
    match bridge.token {
        Some(token) => pair_if_c(bridge.token_key@, token@) + pair_if_c(
            bridge.socket_key@,
            bridge.socket_path@,
        ),
        None => Seq::empty(),
    }
}

pub open spec fn bridge_writes(
    injection: Option<Injection>,
    helper: Option<Seq<char>>,
    bridge: Option<BridgeLaunch>,
) -> Seq<EnvPair> {
    match bridge {
        Some(bridge) => if has_proton_dll(injection) {
            token_writes(bridge)
        } else {
            token_writes(bridge) + audit_writes(helper)
        },
        None => Seq::empty(),
    }
}

pub open spec fn proton_writes(injection: Option<Injection>, helper: Option<Seq<char>>) -> Seq<
    EnvPair,
> {
    if has_proton_dll(injection) && helper is Some && is_c_text(helper->0) && is_c_text(
        injection->0.proton_dll->0@,
    ) {
        seq![
            EnvPair { key: "LD_AUDIT"@, value: helper->0 },
            EnvPair { key: "VAPOR_FORGE_INJECT_DLL"@, value: injection->0.proton_dll->0@ },
        ]
    } else {
        Seq::empty()
    }
}

/// Everything that a launch writes, in its order.
pub open spec fn spawn_writes(
    injection: Option<Injection>,
    helper: Option<Seq<char>>,
    bridge: Option<BridgeLaunch>,
) -> Seq<EnvPair> {
    preload_writes(injection) + loader_fix_writes(injection, helper, bridge) + bridge_writes(
        injection,
        helper,
        bridge,
    ) + proton_writes(injection, helper)
}

/// What a launch changes in the environment.
pub struct SpawnPlan {
    pub writes: Vec<EnvWrite>,
    /// Whether native libraries are preloaded, which a later write has to keep.
    pub keeps_native_libs: bool,
    /// Whether the bridge learns the launch's token.
    pub registers_token: bool,
}

fn push_write(writes: &mut Vec<EnvWrite>, key: &str, value: &str)
    ensures
        writes_of(final(writes)@) == writes_of(old(writes)@).push(
            (EnvPair { key: key@, value: value@ }),
        ),
{
    let ghost before = writes@;
    writes.push(EnvWrite { key: key.to_owned(), value: value.to_owned() });
    assert(writes_of(writes@) =~= writes_of(before).push(EnvPair { key: key@, value: value@ }));
}

fn push_audit(writes: &mut Vec<EnvWrite>, helper: Option<&str>)
    ensures
        writes_of(final(writes)@) == writes_of(old(writes)@) + audit_writes(helper_text(helper)),
{
    let ghost before = writes_of(writes@);
    if let Some(path) = helper {
        if fits_c_text(path) {
            push_write(writes, "LD_AUDIT", path);
        }
    }
    assert(writes_of(writes@) =~= before + audit_writes(helper_text(helper)));
}

fn push_pair(writes: &mut Vec<EnvWrite>, key: &str, value: &str)
    ensures
        writes_of(final(writes)@) == writes_of(old(writes)@) + pair_if_c(key@, value@),
{
    let ghost before = writes_of(writes@);
    if fits_c_text(key) && fits_c_text(value) {
        push_write(writes, key, value);
    }
    assert(writes_of(writes@) =~= before + pair_if_c(key@, value@));
}

/// The texts of a list with a separator between them.
pub fn join_texts(list: &Vec<String>, separator: &str) -> (text: String)
    ensures
        text@ == joined(texts_of(list@), separator@),
{
    let ghost all = texts_of(list@);
    let mut text: String = String::new();
    let mut i: usize = 0;
    assert(all.take(0) =~= Seq::empty());
    while i < list.len()
        invariant
            i <= list@.len(),
            all == texts_of(list@),
            text@ == joined(all.take(i as int), separator@),
        decreases list@.len() - i,
    {
        let ghost next = all.take(i + 1);
        assert(next.drop_last() =~= all.take(i as int));
        assert(next.last() == list@[i as int]@);
        if i > 0 {
            text.append(separator);
        }
        text.append(list[i].as_str());
        proof {
            if i == 0 {
                assert(next.len() == 1);
                assert(text@ =~= next[0]);
            } else {
                assert(text@ =~= joined(all.take(i as int), separator@) + separator@
                    + next.last());
            }
        }
        i = i + 1;
    }
    assert(all.take(i as int) =~= all);
    text
}

/// The app of a game id: its low 24 bits.
pub fn launched_app(raw_game_id: u32) -> (app_id: u32)
    ensures
        app_id == raw_game_id % 0x100_0000,
{
    raw_game_id % 0x100_0000
}

/// The path of a helper that may be absent.
pub open spec fn helper_text(helper: Option<&str>) -> Option<Seq<char>> {
    match helper {
        Some(path) => Some(path@),
        None => None,
    }
}

fn push_preload(writes: &mut Vec<EnvWrite>, injection: &Option<Injection>) -> (written: bool)
    ensures
        written == preloads(*injection),
        writes_of(final(writes)@) == writes_of(old(writes)@) + preload_writes(*injection),
{
    let ghost before = writes_of(writes@);
    let mut written: bool = false;
    if let Some(injected) = injection {
        if injected.native_libs.len() > 0 {
            let value: String = join_texts(&injected.native_libs, ":");
            if fits_c_text(value.as_str()) {
                push_write(writes, "LD_PRELOAD", value.as_str());
                written = true;
            }
        }
    }
    assert(writes_of(writes@) =~= before + preload_writes(*injection));
    written
}

fn injects_dll(injection: &Option<Injection>) -> (found: bool)
    ensures
        found == has_proton_dll(*injection),
{
    match injection {
        Some(injected) => injected.proton_dll.is_some(),
        None => false,
    }
}

fn push_loader_fix(
    writes: &mut Vec<EnvWrite>,
    injection: &Option<Injection>,
    bridge: &Option<BridgeLaunch>,
    helper: Option<&str>,
)
    ensures
        writes_of(final(writes)@) == writes_of(old(writes)@) + loader_fix_writes(
            *injection,
            helper_text(helper),
            *bridge,
        ),
{
    let ghost before = writes_of(writes@);
    let loader_fix: bool = match injection {
        Some(injected) => injected.loader_fix,
        None => false,
    };
    if loader_fix {
        push_write(writes, "VAPOR_FORGE_LOADER_FIX", "1");
        if !injects_dll(injection) && bridge.is_none() {
            push_audit(writes, helper);
        }
    }
    assert(writes_of(writes@) =~= before + loader_fix_writes(
        *injection,
        helper_text(helper),
        *bridge,
    ));
}

fn push_bridge(
    writes: &mut Vec<EnvWrite>,
    injection: &Option<Injection>,
    bridge: &Option<BridgeLaunch>,
    helper: Option<&str>,
) -> (registers_token: bool)
    ensures
        registers_token == (*bridge is Some && bridge->0.token is Some),
        writes_of(final(writes)@) == writes_of(old(writes)@) + bridge_writes(
            *injection,
            helper_text(helper),
            *bridge,
        ),
{
    let ghost before = writes_of(writes@);
    let mut registers_token: bool = false;
    if let Some(launch) = bridge {
        if let Some(token) = &launch.token {
            registers_token = true;
            push_pair(writes, launch.token_key.as_str(), token.as_str());
            push_pair(writes, launch.socket_key.as_str(), launch.socket_path.as_str());
        }
        assert(writes_of(writes@) =~= before + token_writes(*launch));
        if !injects_dll(injection) {
            push_audit(writes, helper);
        }
    }
    assert(writes_of(writes@) =~= before + bridge_writes(
        *injection,
        helper_text(helper),
        *bridge,
    ));
    registers_token
}

fn push_proton(writes: &mut Vec<EnvWrite>, injection: &Option<Injection>, helper: Option<&str>)
    ensures
        writes_of(final(writes)@) == writes_of(old(writes)@) + proton_writes(
            *injection,
            helper_text(helper),
        ),
{
    let ghost before = writes_of(writes@);
    if let Some(injected) = injection {
        if let Some(dll) = &injected.proton_dll {
            if let Some(path) = helper {
                if fits_c_text(path) && fits_c_text(dll.as_str()) {
                    push_write(writes, "LD_AUDIT", path);
                    push_write(writes, "VAPOR_FORGE_INJECT_DLL", dll.as_str());
                }
            }
        }
    }
    assert(writes_of(writes@) =~= before + proton_writes(*injection, helper_text(helper)));
}

/// Plans what a launch writes into its environment. There is no plan where nothing is
/// injected and no bridge runs, or where the environment cannot be written.
pub fn inject_spawn_environment(
    injection: &Option<Injection>,
    bridge: &Option<BridgeLaunch>,
    helper: Option<&str>,
    writer_available: bool,
) -> (plan: Option<SpawnPlan>)
    ensures
        plan is Some <==> writer_available && (*injection is Some || *bridge is Some),
        plan is Some ==> {
            &&& writes_of(plan->0.writes@) == spawn_writes(
                *injection,
                helper_text(helper),
                *bridge,
            )
            &&& plan->0.keeps_native_libs == preloads(*injection)
            &&& plan->0.registers_token == (*bridge is Some && bridge->0.token is Some)
        },
{
    if injection.is_none() && bridge.is_none() {
        return None;
    }
    if !writer_available {
        return None;
    }
    let mut writes: Vec<EnvWrite> = Vec::new();
    assert(writes_of(writes@) =~= Seq::empty());
    let keeps_native_libs: bool = push_preload(&mut writes, injection);
    push_loader_fix(&mut writes, injection, bridge, helper);
    let registers_token: bool = push_bridge(&mut writes, injection, bridge, helper);
    push_proton(&mut writes, injection, helper);
    assert(writes_of(writes@) =~= spawn_writes(*injection, helper_text(helper), *bridge));
    Some(SpawnPlan { writes, keeps_native_libs, registers_token })
}

/// The helper is never loaded without something that asks for it: the loader fix, the
/// bridge, or a library injected through Proton.
pub proof fn law_helper_is_loaded_on_demand(
    injection: Option<Injection>,
    helper: Option<Seq<char>>,
    bridge: Option<BridgeLaunch>,
    place: int,
)
    requires
        0 <= place < spawn_writes(injection, helper, bridge).len(),
        spawn_writes(injection, helper, bridge)[place].key == "LD_AUDIT"@,
        bridge matches Some(launch) ==> launch.token_key@ != "LD_AUDIT"@ && launch.socket_key@
            != "LD_AUDIT"@,
    ensures
        bridge is Some || (injection is Some && (injection->0.loader_fix
            || injection->0.proton_dll is Some)),
        helper == Some(spawn_writes(injection, helper, bridge)[place].value),
{
    reveal_strlit("LD_AUDIT");
    reveal_strlit("LD_PRELOAD");
    reveal_strlit("VAPOR_FORGE_LOADER_FIX");
    reveal_strlit("VAPOR_FORGE_INJECT_DLL");
    assert("LD_AUDIT"@.len() == 8);
    assert("LD_PRELOAD"@.len() == 10);
    assert("VAPOR_FORGE_LOADER_FIX"@.len() == 22);
    assert("VAPOR_FORGE_INJECT_DLL"@.len() == 22);
    let first = preload_writes(injection);
    let second = loader_fix_writes(injection, helper, bridge);
    let third = bridge_writes(injection, helper, bridge);
    let fourth = proton_writes(injection, helper);
    let all = spawn_writes(injection, helper, bridge);
    assert(all =~= first + second + third + fourth);
    if place < first.len() {
        assert(all[place] == first[place]);
    } else if place < first.len() + second.len() {
        assert(all[place] == second[place - first.len()]);
    } else if place < first.len() + second.len() + third.len() {
        assert(all[place] == third[place - first.len() - second.len()]);
    } else {
        assert(all[place] == fourth[place - first.len() - second.len() - third.len()]);
    }
}

/// Whether writes set a variable to a value.
pub open spec fn sets(writes: Seq<EnvPair>, key: Seq<char>, value: Seq<char>) -> bool {
    exists|i: int|
        0 <= i < writes.len() && (#[trigger] writes[i]).key == key && writes[i].value == value
}

proof fn lemma_parts_of_a_launch(
    injection: Option<Injection>,
    helper: Option<Seq<char>>,
    bridge: Option<BridgeLaunch>,
)
    ensures
        ({
            let all = spawn_writes(injection, helper, bridge);
            let first = preload_writes(injection);
            let second = loader_fix_writes(injection, helper, bridge);
            let third = bridge_writes(injection, helper, bridge);
            let fourth = proton_writes(injection, helper);
            &&& all.len() == first.len() + second.len() + third.len() + fourth.len()
            &&& forall|i: int| 0 <= i < first.len() ==> all[i] == #[trigger] first[i]
            &&& forall|i: int|
                0 <= i < second.len() ==> all[first.len() + i] == #[trigger] second[i]
            &&& forall|i: int|
                0 <= i < third.len() ==> all[first.len() + second.len() + i] == #[trigger] third[i]
            &&& forall|i: int|
                0 <= i < fourth.len() ==> all[first.len() + second.len() + third.len() + i]
                    == #[trigger] fourth[i]
        }),
{
}

/// A launch gets all that it needs. Its native libraries are preloaded; the loader fix is
/// switched on where it is asked for; the helper is loaded wherever the bridge runs, the
/// loader fix is on, or a library goes through Proton; that library is named to the helper;
/// and a bridge with a token makes its socket and token known. Only values that a C string
/// can hold are written.
pub proof fn law_launches_get_what_they_need(
    injection: &Option<Injection>,
    bridge: &Option<BridgeLaunch>,
    helper: Option<&str>,
    plan: Option<SpawnPlan>,
)
    requires
        call_ensures(inject_spawn_environment, (injection, bridge, helper, true), plan),
    ensures
        plan is Some <==> *injection is Some || *bridge is Some,
        plan matches Some(plan) ==> {
            let writes = writes_of(plan.writes@);
            let injected = injection->0;
            let launch = bridge->0;
            let libs = joined(texts_of(injected.native_libs@), ":"@);
            let fixes = *injection is Some && injected.loader_fix;
            let through_proton = *injection is Some && injected.proton_dll is Some;
            let helped = helper is Some && !helper->0@.contains('\0');
            let has_token = *bridge is Some && launch.token is Some;
            &&& *injection is Some && injected.native_libs@.len() > 0 && !libs.contains('\0')
                ==> plan.keeps_native_libs && sets(writes, "LD_PRELOAD"@, libs)
            &&& fixes ==> sets(writes, "VAPOR_FORGE_LOADER_FIX"@, "1"@)
            &&& helped && (*bridge is Some || fixes) && !through_proton ==> sets(
                writes,
                "LD_AUDIT"@,
                helper->0@,
            )
            &&& helped && through_proton && !injected.proton_dll->0@.contains('\0') ==> sets(
                writes,
                "LD_AUDIT"@,
                helper->0@,
            ) && sets(writes, "VAPOR_FORGE_INJECT_DLL"@, injected.proton_dll->0@)
            &&& plan.registers_token == has_token
            &&& has_token && !launch.token_key@.contains('\0') && !launch.token->0@.contains('\0')
                ==> sets(writes, launch.token_key@, launch.token->0@)
            &&& has_token && !launch.socket_key@.contains('\0') && !launch.socket_path@.contains(
                '\0',
            ) ==> sets(writes, launch.socket_key@, launch.socket_path@)
        },
{
    if let Some(plan) = plan {
        let path = helper_text(helper);
        let writes = spawn_writes(*injection, path, *bridge);
        lemma_parts_of_a_launch(*injection, path, *bridge);
        let first = preload_writes(*injection);
        let second = loader_fix_writes(*injection, path, *bridge);
        let third = bridge_writes(*injection, path, *bridge);
        let fourth = proton_writes(*injection, path);
        let at_second: int = first.len() as int;
        let at_third: int = at_second + second.len();
        let at_fourth: int = at_third + third.len();
        assert(first.len() > 0 ==> writes[0] == first[0]);
        assert(second.len() > 0 ==> writes[at_second] == second[0]);
        assert(second.len() > 1 ==> writes[at_second + 1] == second[1]);
        assert(third.len() > 0 ==> writes[at_third] == third[0]);
        assert(third.len() > 1 ==> writes[at_third + 1] == third[1]);
        assert(third.len() > 2 ==> writes[at_third + 2] == third[2]);
        assert(fourth.len() > 0 ==> writes[at_fourth] == fourth[0]);
        assert(fourth.len() > 1 ==> writes[at_fourth + 1] == fourth[1]);
    }
}

/// A launch gets nothing else: each variable that is written is one of those, for its own
/// reason, and none is written twice, as long as the bridge's variables are its own.
#[verifier::rlimit(60)]
pub proof fn law_launches_get_nothing_else(
    injection: Option<Injection>,
    helper: Option<Seq<char>>,
    bridge: Option<BridgeLaunch>,
)
    requires
        bridge matches Some(launch) ==> {
            &&& launch.token_key@ != launch.socket_key@
            &&& launch.token_key@ != "LD_AUDIT"@ && launch.socket_key@ != "LD_AUDIT"@
            &&& launch.token_key@ != "LD_PRELOAD"@ && launch.socket_key@ != "LD_PRELOAD"@
            &&& launch.token_key@ != "VAPOR_FORGE_LOADER_FIX"@ && launch.socket_key@
                != "VAPOR_FORGE_LOADER_FIX"@
            &&& launch.token_key@ != "VAPOR_FORGE_INJECT_DLL"@ && launch.socket_key@
                != "VAPOR_FORGE_INJECT_DLL"@
        },
    ensures
        forall|i: int|
            0 <= i < spawn_writes(injection, helper, bridge).len() ==> {
                let write = #[trigger] spawn_writes(injection, helper, bridge)[i];
                &&& !write.value.contains('\0')
                &&& {
                    ||| write.key == "LD_PRELOAD"@ && injection is Some
                        && injection->0.native_libs@.len() > 0
                    ||| write.key == "VAPOR_FORGE_LOADER_FIX"@ && injection is Some
                        && injection->0.loader_fix
                    ||| write.key == "LD_AUDIT"@ && helper == Some(write.value)
                    ||| write.key == "VAPOR_FORGE_INJECT_DLL"@ && injection is Some
                        && injection->0.proton_dll is Some
                    ||| bridge is Some && bridge->0.token is Some && write.key
                        == bridge->0.token_key@ && write.value == bridge->0.token->0@
                    ||| bridge is Some && bridge->0.token is Some && write.key
                        == bridge->0.socket_key@ && write.value == bridge->0.socket_path@
                }
            },
        forall|i: int, j: int|
            0 <= i < j < spawn_writes(injection, helper, bridge).len() ==> (
            #[trigger] spawn_writes(injection, helper, bridge)[i]).key != (#[trigger] spawn_writes(
                injection,
                helper,
                bridge,
            )[j]).key,
{
    lemma_variables_are_distinct();
    let first = preload_writes(injection);
    let second = loader_fix_writes(injection, helper, bridge);
    let third = bridge_writes(injection, helper, bridge);
    let fourth = proton_writes(injection, helper);
    let all = spawn_writes(injection, helper, bridge);
    let audit = audit_writes(helper);
    assert(all =~= first + second + third + fourth);
    assert(first.len() <= 1);
    assert(audit.len() <= 1);
    assert(second.len() <= 2);
    assert(fourth.len() == 0 || fourth.len() == 2);
    assert(has_proton_dll(injection) ==> second.len() <= 1);
    if let Some(launch) = bridge {
        assert(second.len() <= 1);
        let tokens = token_writes(launch);
        assert(tokens.len() <= 2);
        assert(tokens.len() == 2 ==> tokens[0].key == launch.token_key@ && tokens[1].key
            == launch.socket_key@);
        assert(tokens.len() == 1 ==> tokens[0].key == launch.token_key@ || tokens[0].key
            == launch.socket_key@);
    } else {
        assert(third.len() == 0);
    }
}

proof fn lemma_variables_are_distinct()
    ensures
        "LD_AUDIT"@ != "LD_PRELOAD"@,
        "LD_AUDIT"@ != "VAPOR_FORGE_LOADER_FIX"@,
        "LD_AUDIT"@ != "VAPOR_FORGE_INJECT_DLL"@,
        "LD_PRELOAD"@ != "VAPOR_FORGE_LOADER_FIX"@,
        "LD_PRELOAD"@ != "VAPOR_FORGE_INJECT_DLL"@,
        "VAPOR_FORGE_LOADER_FIX"@ != "VAPOR_FORGE_INJECT_DLL"@,
        !"1"@.contains('\0'),
{
    reveal_strlit("1");
    reveal_strlit("LD_AUDIT");
    reveal_strlit("LD_PRELOAD");
    reveal_strlit("VAPOR_FORGE_LOADER_FIX");
    reveal_strlit("VAPOR_FORGE_INJECT_DLL");
    assert("LD_AUDIT"@.len() == 8);
    assert("LD_PRELOAD"@.len() == 10);
    assert("VAPOR_FORGE_LOADER_FIX"@[12] == 'L');
    assert("VAPOR_FORGE_INJECT_DLL"@[12] == 'I');
    assert("VAPOR_FORGE_LOADER_FIX"@.len() == 22);
    assert("VAPOR_FORGE_INJECT_DLL"@.len() == 22);
}

/// Native libraries that have to survive Steam's own write to an environment.
pub struct PendingPreload {
    pub env_map: usize,
    pub libs: Vec<String>,
}

/// Whether the launch's environment is touched at all.
pub fn touches_environment(ready: bool, game_known: bool, env_known: bool) -> (touches: bool)
    ensures
        touches == (ready && game_known && env_known),
{
    ready && game_known && env_known
}

/// Whether a write has to be merged with pending libraries: it sets the preload value of
/// the very environment that they belong to.
pub fn merges_preload(
    pending: &Option<PendingPreload>,
    env_map: usize,
    key: Option<&str>,
    value_known: bool,
) -> (merges: bool)
    ensures
        merges == (key is Some && value_known && key->0@ == "LD_PRELOAD"@ && *pending is Some
            && pending->0.env_map == env_map),
{
    match key {
        Some(key) => match pending {
            Some(pending) => value_known && text_eq(key, "LD_PRELOAD") && pending.env_map
                == env_map,
            None => false,
        },
        None => false,
    }
}

/// Holds libraries while Steam builds an environment.
pub fn hold_preload(pending: &mut Option<PendingPreload>, env_map: usize, libs: Option<Vec<String>>)
    ensures
        libs is None ==> *final(pending) == *old(pending),
        libs matches Some(held) ==> *final(pending) is Some && final(pending)->0.env_map == env_map
            && final(pending)->0.libs == held,
{
    if let Some(libs) = libs {
        *pending = Some(PendingPreload { env_map, libs });
    }
}

/// Lets go of what a launch held.
pub fn release_preload(pending: &mut Option<PendingPreload>, held: bool)
    ensures
        *final(pending) == if held {
            None
        } else {
            *old(pending)
        },
{
    if held {
        *pending = None;
    }
}

/// The bytes before the terminator, at most `max_len`.
pub open spec fn bounded_text(memory: Seq<u8>, max_len: int) -> Seq<u8> {
    let end = match terminated_at(memory, 0) {
        Some(end) => end,
        None => memory.len() as int,
    };
    if end <= max_len {
        memory.take(end)
    } else {
        memory.take(max_len)
    }
}

/// The bytes of a terminated text, at most `max_len` of them.
pub fn bounded_cstr(memory: &[u8], max_len: usize) -> (bytes: Vec<u8>)
    ensures
        bytes@ == bounded_text(memory@, max_len as int),
{
    let mut bytes: Vec<u8> = Vec::new();
    let mut i: usize = 0;
    while i < memory.len() && i < max_len
        invariant
            i <= memory@.len(),
            i <= max_len,
            bytes@ == memory@.take(i as int),
            terminated_at(memory@, 0) == terminated_at(memory@, i as int),
        decreases memory@.len() - i,
    {
        if memory[i] == 0 {
            return bytes;
        }
        bytes.push(memory[i]);
        assert(memory@.take(i + 1) =~= memory@.take(i as int).push(memory@[i as int]));
        i = i + 1;
    }
    proof {
        lemma_terminated_from(memory@, i as int);
        assert(memory@.take(i as int) =~= bounded_text(memory@, max_len as int));
    }
    bytes
}

proof fn lemma_terminated_from(memory: Seq<u8>, from: int)
    requires
        0 <= from <= memory.len(),
    ensures
        terminated_at(memory, from) matches Some(end) ==> from <= end < memory.len(),
    decreases memory.len() - from,
{
    if from < memory.len() && memory[from] != 0 {
        lemma_terminated_from(memory, from + 1);
    }
}

/// Reads a terminated text, at most `max_len` bytes of it.
pub fn bounded_cstr_to_string(memory: &[u8], max_len: usize) -> (text: String)
    ensures
        text@ == launch_text(memory@, max_len as int),
{
    let bytes: Vec<u8> = bounded_cstr(memory, max_len);
    if bytes.len() == 0 {
        String::new()
    } else {
        lossy_text(bytes.as_slice())
    }
}

/// The text of what stands before the terminator; nothing is the empty text.
pub open spec fn launch_text(memory: Seq<u8>, max_len: int) -> Seq<char> {
    if bounded_text(memory, max_len).len() == 0 {
        Seq::empty()
    } else {
        lossy_text_of(bounded_text(memory, max_len))
    }
}

/// What a launch is looked at for.
pub struct LaunchEvaluation {
    pub app_id: u32,
    pub options: String,
    pub avatar_rules: bool,
    pub library_rules: bool,
}

/// Looks at a launch: not before the hooks are ready, and not without a game.
pub fn evaluate_launch(
    ready: bool,
    raw_game_id: Option<u32>,
    command_line: Option<&[u8]>,
    avatar_rules: bool,
    library_rules: bool,
) -> (evaluation: Option<LaunchEvaluation>)
    ensures
        evaluation is Some <==> ready && raw_game_id is Some,
        evaluation is Some ==> {
            &&& evaluation->0.app_id == raw_game_id->0 % 0x100_0000
            &&& evaluation->0.options@ == match command_line {
                Some(memory) => launch_text(memory@, MAX_LAUNCH_OPTIONS as int),
                None => Seq::<char>::empty(),
            }
            &&& evaluation->0.avatar_rules == avatar_rules
            &&& evaluation->0.library_rules == library_rules
        },
{
    if !ready {
        return None;
    }
    let raw: u32 = match raw_game_id {
        Some(raw) => raw,
        None => {
            return None;
        },
    };
    let options: String = match command_line {
        Some(memory) => bounded_cstr_to_string(memory, MAX_LAUNCH_OPTIONS),
        None => String::new(),
    };
    Some(LaunchEvaluation { app_id: launched_app(raw), options, avatar_rules, library_rules })
}

/// Where the helper is looked for, in that order.
pub open spec fn helper_places(configured: Seq<char>, own_dir: Option<Seq<char>>) -> Seq<Seq<char>> {
    let chosen: Seq<Seq<char>> = if configured.len() > 0 {
        seq![configured]
    } else {
        Seq::empty()
    };
    let own: Seq<Seq<char>> = match own_dir {
        Some(dir) => seq![joined_path(dir, PROTON_HELPER_NAME@)],
        None => Seq::empty(),
    };
    chosen + own + seq![
        joined_path("/usr/lib"@, PROTON_HELPER_NAME@),
        joined_path("/usr/lib64"@, PROTON_HELPER_NAME@),
    ]
}

pub fn helper_candidates(configured: &str, own_dir: Option<&str>) -> (candidates: Vec<String>)
    ensures
        texts_of(candidates@) == helper_places(configured@, helper_text(own_dir)),
{
    let mut candidates: Vec<String> = Vec::new();
    if configured.unicode_len() > 0 {
        candidates.push(configured.to_owned());
    }
    if let Some(dir) = own_dir {
        candidates.push(join_path(dir, PROTON_HELPER_NAME));
    }
    candidates.push(join_path("/usr/lib", PROTON_HELPER_NAME));
    candidates.push(join_path("/usr/lib64", PROTON_HELPER_NAME));
    assert(texts_of(candidates@) =~= helper_places(configured@, helper_text(own_dir)));
    candidates
}

/// The first place that exists, from `from` on.
pub open spec fn first_existing(present: Seq<bool>, from: int) -> Option<int>
    decreases present.len() - from,
{
    if from < 0 || from >= present.len() {
        None
    } else if present[from] {
        Some(from)
    } else {
        first_existing(present, from + 1)
    }
}

/// The helper: the first candidate that exists.
pub fn resolve_helper_path(candidates: &Vec<String>, present: &Vec<bool>) -> (path: Option<String>)
    requires
        candidates@.len() == present@.len(),
    ensures
        path is Some <==> first_existing(present@, 0) is Some,
        path is Some ==> path->0@ == candidates@[first_existing(present@, 0)->0]@,
{
    let mut i: usize = 0;
    while i < candidates.len()
        invariant
            i <= candidates@.len() == present@.len(),
            first_existing(present@, 0) == first_existing(present@, i as int),
        decreases candidates@.len() - i,
    {
        if present[i] {
            return Some(candidates[i].clone());
        }
        i = i + 1;
    }
    None
}

proof fn lemma_first_existing(present: Seq<bool>, from: int, place: int)
    requires
        0 <= from <= place < present.len(),
        present[place],
        forall|k: int| from <= k < place ==> !present[k],
    ensures
        first_existing(present, from) == Some(place),
    decreases place - from,
{
    if from < place {
        lemma_first_existing(present, from + 1, place);
    }
}

proof fn lemma_none_existing(present: Seq<bool>, from: int)
    requires
        0 <= from <= present.len(),
        forall|k: int| from <= k < present.len() ==> !present[k],
    ensures
        first_existing(present, from) is None,
    decreases present.len() - from,
{
    if from < present.len() {
        lemma_none_existing(present, from + 1);
    }
}

/// The helper is the candidate that exists and has none before it that does; there is no helper
/// only where no candidate exists.
pub proof fn law_the_first_existing_helper_is_used(
    candidates: Vec<String>,
    present: Vec<bool>,
    place: int,
    path: Option<String>,
)
    requires
        candidates@.len() == present@.len(),
        call_ensures(resolve_helper_path, (&candidates, &present), path),
    ensures
        0 <= place < present@.len() && present@[place] && (forall|k: int|
            0 <= k < place ==> !present@[k]) ==> path is Some && path->0@ == candidates@[place]@,
        (forall|k: int| 0 <= k < present@.len() ==> !present@[k]) ==> path is None,
{
    if 0 <= place < present@.len() && present@[place] && (forall|k: int|
        0 <= k < place ==> !present@[k]) {
        lemma_first_existing(present@, 0, place);
    }
    if forall|k: int| 0 <= k < present@.len() ==> !present@[k] {
        lemma_none_existing(present@, 0);
    }
}

/// The helper is looked for where it was configured, then beside the library itself, then in
/// the two directories of the system; what is not known is left out.
pub proof fn law_helpers_are_looked_for_in_order(
    configured: &str,
    own_dir: Option<&str>,
    candidates: Vec<String>,
)
    requires
        call_ensures(helper_candidates, (configured, own_dir), candidates),
    ensures
        ({
            let named: int = if configured@.len() > 0 {
                1
            } else {
                0
            };
            let own: int = if own_dir is Some {
                1
            } else {
                0
            };
            &&& candidates@.len() == named + own + 2
            &&& configured@.len() > 0 ==> candidates@[0]@ == configured@
            &&& own_dir is Some ==> candidates@[named]@ == joined_path(
                own_dir->0@,
                PROTON_HELPER_NAME@,
            )
            &&& candidates@[named + own]@ == joined_path("/usr/lib"@, PROTON_HELPER_NAME@)
            &&& candidates@[named + own + 1]@ == joined_path("/usr/lib64"@, PROTON_HELPER_NAME@)
        }),
{
    let places = texts_of(candidates@);
    let first = joined_path("/usr/lib"@, PROTON_HELPER_NAME@);
    let second = joined_path("/usr/lib64"@, PROTON_HELPER_NAME@);
    assert(places.len() == candidates@.len());
    assert(forall|k: int| 0 <= k < places.len() ==> places[k] == candidates@[k]@);
    if own_dir is Some {
        let own = joined_path(own_dir->0@, PROTON_HELPER_NAME@);
        if configured@.len() > 0 {
            assert(places =~= seq![configured@, own, first, second]);
            assert(places[0] == configured@ && places[1] == own && places[2] == first && places[3]
                == second);
        } else {
            assert(places =~= seq![own, first, second]);
            assert(places[0] == own && places[1] == first && places[2] == second);
        }
    } else if configured@.len() > 0 {
        assert(places =~= seq![configured@, first, second]);
        assert(places[0] == configured@ && places[1] == first && places[2] == second);
    } else {
        assert(places =~= seq![first, second]);
        assert(places[0] == first && places[1] == second);
    }
}

/// A text is read up to its terminator, whatever stands behind it; one that is too long, or
/// has none, is cut where the room or the memory ends.
pub proof fn law_launch_texts_end_at_their_terminator(
    text: Seq<u8>,
    behind: Seq<u8>,
    max_len: int,
)
    requires
        forall|k: int| 0 <= k < text.len() ==> text[k] != 0,
        0 <= max_len,
    ensures
        text.len() <= max_len ==> bounded_text(text + seq![0u8] + behind, max_len) == text
            && bounded_text(text, max_len) == text,
        text.len() > max_len ==> bounded_text(text + seq![0u8] + behind, max_len) == text.take(
            max_len,
        ) && bounded_text(text, max_len) == text.take(max_len),
{
    let memory = text + seq![0u8] + behind;
    let end = text.len() as int;
    assert(memory[end] == 0);
    assert(forall|k: int| 0 <= k < end ==> memory[k] == text[k]);
    lemma_ends_at(memory, 0, end);
    lemma_never_ends(text, 0);
    assert(memory.take(end) =~= text);
    assert(text.take(end) =~= text);
    if max_len < end {
        assert(memory.take(max_len) =~= text.take(max_len));
    }
}

} // verus!
