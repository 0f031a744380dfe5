//! Setting up the runtime: where files are looked for, and what is started.
use crate::paths::{
    is_absolute, join_path, joined_path, normal_components, normal_parts, spell_parts, spelled,
    texts_of,
};
use crate::text::{concat, text_eq};
use crate::ticket::TicketMode;
use std::collections::HashMap;
use vstd::prelude::*;
use vstd::string::*;

verus! {

pub const CONFIG_FILENAME: &'static str = "config.toml";

/// Whether a directory is one that Steam runs from.
pub open spec fn is_runtime_dir(name: Seq<char>) -> bool {
    name == "ubuntu12_32"@ || name == "ubuntu12_64"@ || name == "linux32"@ || name == "linux64"@
        || name == "steamrt32"@ || name == "steamrt64"@
}

fn is_runtime_name(name: &str) -> (found: bool)
    ensures
        found == is_runtime_dir(name@),
{
    text_eq(name, "ubuntu12_32") || text_eq(name, "ubuntu12_64") || text_eq(name, "linux32")
        || text_eq(name, "linux64") || text_eq(name, "steamrt32") || text_eq(name, "steamrt64")
}

/// The directory above the runtime directory that holds the executable.
pub open spec fn root_of_executable(executable: Seq<char>) -> Option<Seq<char>> {
    let parts = normal_components(executable);
    let count = parts.len();
    if count >= 2 && parts[count - 1] == "steam"@ && is_runtime_dir(parts[count - 2]) {
        Some(spelled(parts.take(count - 2), is_absolute(executable)))
    } else {
        None
    }
}

/// Steam's root, told from the path of its running executable.
pub fn steam_root_from_executable(executable: &str) -> (root: Option<String>)
    ensures
        root is Some <==> root_of_executable(executable@) is Some,
        root is Some ==> root->0@ == root_of_executable(executable@)->0,
{
    let parts: Vec<String> = normal_parts(executable);
    let count: usize = parts.len();
    let ghost texts = texts_of(parts@);
    if count < 2 {
        return None;
    }
    assert(texts[count - 1] == parts@[count - 1]@);
    assert(texts[count - 2] == parts@[count - 2]@);
    if !text_eq(parts[count - 1].as_str(), "steam") || !is_runtime_name(
        parts[count - 2].as_str(),
    ) {
        return None;
    }
    let absolute: bool = executable.unicode_len() > 0 && executable.get_char(0) == '/';
    Some(spell_parts(&parts, count - 2, absolute))
}

/// Where Steam's root may lie below a home directory, in the order of the search.
pub open spec fn home_roots(home: Seq<char>) -> Seq<Seq<char>> {
    seq![
        joined_path(home, ".steam/root"@),
        joined_path(home, ".steam/steam"@),
        joined_path(home, ".local/share/Steam"@),
        joined_path(home, ".steam/debian-installation"@),
    ]
}

pub fn home_root_candidates(home: &str) -> (candidates: Vec<String>)
    ensures
        texts_of(candidates@) == home_roots(home@),
{
    let candidates: Vec<String> = vec![
        join_path(home, ".steam/root"),
        join_path(home, ".steam/steam"),
        join_path(home, ".local/share/Steam"),
        join_path(home, ".steam/debian-installation"),
    ];
    assert(texts_of(candidates@) =~= home_roots(home@));
    candidates
}

/// The first root that was found, from `from` on.
pub open spec fn first_root(roots: Seq<Option<String>>, from: int) -> Option<Seq<char>>
    decreases roots.len() - from,
{
    if from < 0 || from >= roots.len() {
        None
    } else {
        match roots[from] {
            Some(root) => Some(root@),
            None => first_root(roots, from + 1),
        }
    }
}

/// Steam's root: told from the executable, else the compatibility root, else the first
/// candidate below home that is one. The roots given are those that proved to be one.
pub fn resolve_steam_install_root(
    current_exe: Option<&str>,
    compat_root: Option<String>,
    home_roots: &Vec<Option<String>>,
) -> (root: Option<String>)
    ensures
        ({
            let from_executable = match current_exe {
                Some(executable) => root_of_executable(executable@),
                None => None,
            };
            let expected = if from_executable is Some {
                from_executable
            } else if compat_root is Some {
                Some(compat_root->0@)
            } else {
                first_root(home_roots@, 0)
            };
            &&& root is Some <==> expected is Some
            &&& root is Some ==> root->0@ == expected->0
        }),
{
    if let Some(executable) = current_exe {
        if let Some(root) = steam_root_from_executable(executable) {
            return Some(root);
        }
    }
    if let Some(root) = compat_root {
        return Some(root);
    }
    let mut i: usize = 0;
    while i < home_roots.len()
        invariant
            i <= home_roots@.len(),
            compat_root is None,
            current_exe matches Some(executable) ==> root_of_executable(executable@) is None,
            first_root(home_roots@, 0) == first_root(home_roots@, i as int),
        decreases home_roots@.len() - i,
    {
        if let Some(root) = &home_roots[i] {
            return Some(root.clone());
        }
        i = i + 1;
    }
    None
}

/// The configuration file of a home directory.
pub fn config_path_for_home(home: Option<&str>) -> (path: Option<String>)
    ensures
        path is Some <==> home is Some,
        path is Some ==> path->0@ == joined_path(
            joined_path(home->0@, ".config/vapor-forge"@),
            CONFIG_FILENAME@,
        ),
{
    match home {
        Some(home) => Some(
            join_path(join_path(home, ".config/vapor-forge").as_str(), CONFIG_FILENAME),
        ),
        None => None,
    }
}

/// The extra directories behind those that are there, each once.
pub open spec fn with_extra(dirs: Seq<Seq<char>>, extra: Seq<Seq<char>>) -> Seq<Seq<char>>
    decreases extra.len(),
{
    if extra.len() == 0 {
        dirs
    } else {
        let before = with_extra(dirs, extra.drop_last());
        if before.contains(extra.last()) {
            before
        } else {
            before.push(extra.last())
        }
    }
}

/// The directories that scripts are read from by default.
pub open spec fn default_script_dirs(steam_root: Option<Seq<char>>, home: Option<Seq<char>>) -> Seq<
    Seq<char>,
> {
    let steam: Seq<Seq<char>> = match steam_root {
        Some(root) => seq![joined_path(root, "config/lua"@)],
        None => Seq::empty(),
    };
    match home {
        Some(home) => steam.push(joined_path(home, ".config/vapor-forge/scripts"@)),
        None => steam,
    }
}

/// The characters of a text that may be absent.
pub open spec fn maybe_text(text: Option<&str>) -> Option<Seq<char>> {
    match text {
        Some(text) => Some(text@),
        None => None,
    }
}

fn holds_text(list: &Vec<String>, text: &str) -> (found: bool)
    ensures
        found == texts_of(list@).contains(text@),
{
    let mut i: usize = 0;
    while i < list.len()
        invariant
            i <= list@.len(),
            forall|k: int| 0 <= k < i ==> (#[trigger] list@[k])@ != text@,
        decreases list@.len() - i,
    {
        if text_eq(list[i].as_str(), text) {
            assert(texts_of(list@)[i as int] == text@);
            return true;
        }
        i = i + 1;
    }
    proof {
        let texts = texts_of(list@);
        if texts.contains(text@) {
            let k = choose|k: int| 0 <= k < texts.len() && texts[k] == text@;
            assert(list@[k]@ == text@);
        }
    }
    false
}

/// The script directories in the order in which they are read: Steam's, the user's, and
/// those of the configuration. Later ones override earlier ones.
pub fn build_script_dirs_for(
    steam_root: Option<&str>,
    home: Option<&str>,
    paths: &Vec<String>,
) -> (dirs: Vec<String>)
    ensures
        texts_of(dirs@) == with_extra(
            default_script_dirs(maybe_text(steam_root), maybe_text(home)),
            texts_of(paths@),
        ),
{
    let mut dirs: Vec<String> = Vec::new();
    assert(texts_of(dirs@) =~= Seq::empty());
    if let Some(root) = steam_root {
        dirs.push(join_path(root, "config/lua"));
        assert(texts_of(dirs@) =~= seq![joined_path(root@, "config/lua"@)]);
    }
    let ghost steam = texts_of(dirs@);
    if let Some(home) = home {
        dirs.push(join_path(home, ".config/vapor-forge/scripts"));
        assert(texts_of(dirs@) =~= steam.push(joined_path(home@, ".config/vapor-forge/scripts"@)));
    }
    let ghost defaults = texts_of(dirs@);
    let ghost extra = texts_of(paths@);
    let mut i: usize = 0;
    assert(extra.take(0) =~= Seq::empty());
    while i < paths.len()
        invariant
            i <= paths@.len(),
            extra == texts_of(paths@),
            texts_of(dirs@) == with_extra(defaults, extra.take(i as int)),
        decreases paths@.len() - i,
    {
        assert(extra.take(i + 1).drop_last() =~= extra.take(i as int));
        assert(extra[i as int] == paths@[i as int]@);
        let ghost before = texts_of(dirs@);
        if !holds_text(&dirs, paths[i].as_str()) {
            dirs.push(paths[i].clone());
            assert(texts_of(dirs@) =~= before.push(extra[i as int]));
        }
        i = i + 1;
    }
    assert(extra.take(i as int) =~= extra);
    dirs
}

/// An extra directory that is listed already stays where it is.
pub proof fn law_extra_dirs_are_listed(dirs: Seq<Seq<char>>, extra: Seq<Seq<char>>, dir: Seq<char>)
    ensures
        with_extra(dirs, extra).contains(dir) <==> dirs.contains(dir) || extra.contains(dir),
    decreases extra.len(),
{
    if extra.len() > 0 {
        let rest = extra.drop_last();
        law_extra_dirs_are_listed(dirs, rest, dir);
        law_extra_dirs_are_listed(dirs, rest, extra.last());
        let before = with_extra(dirs, rest);
        if extra.contains(dir) {
            let k = choose|k: int| 0 <= k < extra.len() && extra[k] == dir;
            if k < rest.len() {
                assert(rest[k] == dir);
            }
        }
        if rest.contains(dir) {
            let k = choose|k: int| 0 <= k < rest.len() && rest[k] == dir;
            assert(extra[k] == dir);
        }
        assert(extra[extra.len() - 1] == extra.last());
        if !before.contains(extra.last()) {
            let after = before.push(extra.last());
            if before.contains(dir) {
                let k = choose|k: int| 0 <= k < before.len() && before[k] == dir;
                assert(after[k] == dir);
            }
            assert(after[before.len() as int] == extra.last());
        }
    }
}

/// An app that is injected.
#[derive(Clone, Debug)]
pub struct InjectApp {
    pub id: u32,
    pub dlc: Vec<u32>,
    pub ticket: TicketMode,
    pub purchase_time: u32,
}

/// The configuration: the apps that are injected, and everything else.
#[derive(Clone, Debug)]
pub struct RuntimeConfig<R> {
    pub inject: Vec<InjectApp>,
    pub rest: R,
}

/// The ids of a list of apps.
pub open spec fn ids_of(apps: Seq<InjectApp>) -> Seq<u32> {
    apps.map_values(|app: InjectApp| app.id)
}

/// The ids that scripts add: those that are not there yet, each once.
pub open spec fn merged_ids(existing: Seq<u32>, added: Seq<u32>) -> Seq<u32>
    decreases added.len(),
{
    if added.len() == 0 {
        existing
    } else {
        let before = merged_ids(existing, added.drop_last());
        if before.contains(added.last()) {
            before
        } else {
            before.push(added.last())
        }
    }
}

fn holds_id(apps: &Vec<InjectApp>, id: u32) -> (found: bool)
    ensures
        found == ids_of(apps@).contains(id),
{
    let mut i: usize = 0;
    while i < apps.len()
        invariant
            i <= apps@.len(),
            forall|k: int| 0 <= k < i ==> (#[trigger] apps@[k]).id != id,
        decreases apps@.len() - i,
    {
        if apps[i].id == id {
            assert(ids_of(apps@)[i as int] == id);
            return true;
        }
        i = i + 1;
    }
    proof {
        let ids = ids_of(apps@);
        if ids.contains(id) {
            let k = choose|k: int| 0 <= k < ids.len() && ids[k] == id;
            assert(apps@[k].id == id);
        }
    }
    false
}

/// Whether an app has nothing set: no content of its own, the default source of tickets, and
/// no purchase time.
pub open spec fn is_bare(app: InjectApp, default_ticket: TicketMode) -> bool {
    app.dlc@.len() == 0 && app.ticket == default_ticket && app.purchase_time == 0
}

/// The configuration with the apps that scripts add behind the configured ones, without
/// anything set. Everything else stays. `default_ticket` is the mode of an app that is not
/// configured.
pub fn merge_script_apps<R>(
    config: RuntimeConfig<R>,
    apps: &[u32],
    default_ticket: TicketMode,
) -> (merged: RuntimeConfig<R>)
    ensures
        ids_of(merged.inject@) == merged_ids(ids_of(config.inject@), apps@),
        merged.inject@.len() >= config.inject@.len(),
        merged.inject@.take(config.inject@.len() as int) == config.inject@,
        forall|k: int|
            config.inject@.len() <= k < merged.inject@.len() ==> is_bare(
                #[trigger] merged.inject@[k],
                default_ticket,
            ),
        merged.rest == config.rest,
        apps@.len() == 0 ==> merged == config,
{
    let ghost configured = config.inject@;
    let rest: R = config.rest;
    let mut merged: Vec<InjectApp> = config.inject;
    let mut i: usize = 0;
    assert(apps@.take(0) =~= Seq::empty());
    while i < apps.len()
        invariant
            i <= apps@.len(),
            i == 0 ==> merged == config.inject,
            ids_of(merged@) == merged_ids(ids_of(configured), apps@.take(i as int)),
            merged@.len() >= configured.len(),
            merged@.take(configured.len() as int) == configured,
            forall|k: int|
                configured.len() <= k < merged@.len() ==> is_bare(
                    #[trigger] merged@[k],
                    default_ticket,
                ),
        decreases apps@.len() - i,
    {
        assert(apps@.take(i + 1).drop_last() =~= apps@.take(i as int));
        let id: u32 = apps[i];
        let ghost before = merged@;
        if !holds_id(&merged, id) {
            merged.push(
                InjectApp { id, dlc: Vec::new(), ticket: default_ticket, purchase_time: 0 },
            );
            assert(ids_of(merged@) =~= ids_of(before).push(id));
            assert(merged@.take(configured.len() as int) =~= before.take(configured.len() as int));
        }
        i = i + 1;
    }
    assert(apps@.take(i as int) =~= apps@);
    RuntimeConfig { inject: merged, rest }
}

/// Merging keeps the configured apps in front, lists every script app, and lists nothing
/// else and nothing twice. Without script apps the list is what it was.
pub proof fn law_script_apps_are_merged(existing: Seq<u32>, added: Seq<u32>)
    ensures
        existing.is_prefix_of(merged_ids(existing, added)),
        forall|id: u32| #[trigger]
            merged_ids(existing, added).contains(id) <==> existing.contains(id) || added.contains(
                id,
            ),
        existing.no_duplicates() ==> merged_ids(existing, added).no_duplicates(),
        added.len() == 0 ==> merged_ids(existing, added) == existing,
    decreases added.len(),
{
    if added.len() > 0 {
        let rest = added.drop_last();
        law_script_apps_are_merged(existing, rest);
        let before = merged_ids(existing, rest);
        let after = merged_ids(existing, added);
        assert forall|id: u32| #[trigger] after.contains(id) <==> existing.contains(id)
            || added.contains(id) by {
            if added.contains(id) {
                let k = choose|k: int| 0 <= k < added.len() && added[k] == id;
                if k < rest.len() {
                    assert(rest[k] == id);
                }
            }
            if rest.contains(id) {
                let k = choose|k: int| 0 <= k < rest.len() && rest[k] == id;
                assert(added[k] == id);
            }
            assert(added[added.len() - 1] == added.last());
            assert(before.contains(id) <==> existing.contains(id) || rest.contains(id));
            if !before.contains(added.last()) {
                if before.contains(id) {
                    let k = choose|k: int| 0 <= k < before.len() && before[k] == id;
                    assert(after[k] == id);
                }
                assert(after[before.len() as int] == added.last());
            }
        }
        if existing.no_duplicates() && !before.contains(added.last()) {
            assert forall|i: int, j: int|
                0 <= i < after.len() && 0 <= j < after.len() && i != j implies after[i]
                != after[j] by {
                if i < before.len() {
                    assert(after[i] == before[i]);
                }
                if j < before.len() {
                    assert(after[j] == before[j]);
                }
            }
        }
    }
}

/// The avatar of an app.
#[derive(Clone, Copy, Debug, PartialEq, Eq, Structural)]
pub struct AvatarEntry {
    pub app_id: u32,
    pub avatar: u32,
}

/// The map that entries give; a later one wins.
pub open spec fn avatars_of(entries: Seq<AvatarEntry>) -> Map<u32, u32>
    decreases entries.len(),
{
    if entries.len() == 0 {
        Map::empty()
    } else {
        avatars_of(entries.drop_last()).insert(entries.last().app_id, entries.last().avatar)
    }
}

/// The avatars of the configuration, overridden by those of scripts.
pub fn merge_avatars(configured: &[AvatarEntry], scripted: &[AvatarEntry]) -> (avatars: HashMap<
    u32,
    u32,
>)
    ensures
        avatars@ == avatars_of(configured@ + scripted@),
{
    let mut avatars: HashMap<u32, u32> = HashMap::new();
    let ghost all = configured@ + scripted@;
    let mut i: usize = 0;
    assert(all.take(0) =~= Seq::empty());
    assert(avatars@ =~= Map::empty());
    while i < configured.len()
        invariant
            i <= configured@.len(),
            all == configured@ + scripted@,
            avatars@ == avatars_of(all.take(i as int)),
        decreases configured@.len() - i,
    {
        assert(all.take(i + 1).drop_last() =~= all.take(i as int));
        avatars.insert(configured[i].app_id, configured[i].avatar);
        i = i + 1;
    }
    let mut j: usize = 0;
    while j < scripted.len()
        invariant
            j <= scripted@.len(),
            all == configured@ + scripted@,
            avatars@ == avatars_of(all.take(configured@.len() + j)),
        decreases scripted@.len() - j,
    {
        assert(all.take(configured@.len() + j + 1).drop_last() =~= all.take(
            configured@.len() + j,
        ));
        avatars.insert(scripted[j].app_id, scripted[j].avatar);
        j = j + 1;
    }
    assert(all.take(configured@.len() + j) =~= all);
    avatars
}

/// A script's avatar wins over the configured one.
pub proof fn law_scripts_win(
    configured: Seq<AvatarEntry>,
    scripted: Seq<AvatarEntry>,
    app_id: u32,
)
    ensures
        ({
            let merged = avatars_of(configured + scripted);
            let scripts = avatars_of(scripted);
            let base = avatars_of(configured);
            &&& scripts.contains_key(app_id) ==> merged.contains_key(app_id) && merged[app_id]
                == scripts[app_id]
            &&& !scripts.contains_key(app_id) ==> (merged.contains_key(app_id)
                <==> base.contains_key(app_id)) && merged[app_id] == base[app_id]
        }),
    decreases scripted.len(),
{
    if scripted.len() == 0 {
        assert(configured + scripted =~= configured);
    } else {
        law_scripts_win(configured, scripted.drop_last(), app_id);
        assert((configured + scripted).drop_last() =~= configured + scripted.drop_last());
    }
}

/// What happens with the configuration file.
#[derive(Clone, Copy, Debug, PartialEq, Eq, Structural)]
pub enum ConfigStep {
    /// There is no home directory.
    NoHome,
    Load,
    WriteTemplate,
}

/// How the template was written.
#[derive(Clone, Copy, Debug, PartialEq, Eq, Structural)]
pub enum TemplateOutcome {
    Written,
    /// Another process was faster.
    AlreadyExists,
    Failed,
}

/// What follows on the template.
#[derive(Clone, Copy, Debug, PartialEq, Eq, Structural)]
pub enum TemplateStep {
    LoadGenerated,
    LoadExisting,
    Reject,
}

/// The first step towards a configuration.
pub fn load_config_for_home(home_known: bool, file_exists: bool) -> (step: ConfigStep)
    ensures
        step == if !home_known {
            ConfigStep::NoHome
        } else if file_exists {
            ConfigStep::Load
        } else {
            ConfigStep::WriteTemplate
        },
{
    if !home_known {
        ConfigStep::NoHome
    } else if file_exists {
        ConfigStep::Load
    } else {
        ConfigStep::WriteTemplate
    }
}

pub fn after_template(outcome: TemplateOutcome) -> (step: TemplateStep)
    ensures
        step == match outcome {
            TemplateOutcome::Written => TemplateStep::LoadGenerated,
            TemplateOutcome::AlreadyExists => TemplateStep::LoadExisting,
            TemplateOutcome::Failed => TemplateStep::Reject,
        },
{
    match outcome {
        TemplateOutcome::Written => TemplateStep::LoadGenerated,
        TemplateOutcome::AlreadyExists => TemplateStep::LoadExisting,
        TemplateOutcome::Failed => TemplateStep::Reject,
    }
}

/// Why there is no configuration.
#[derive(Clone, Copy, Debug, PartialEq, Eq, Structural)]
pub enum ConfigFailure {
    NoHome,
    NotLoaded,
    GeneratedNotLoaded,
    TemplateNotWritten,
}

/// Whether there is a configuration after a step was taken; `template` counts where one was
/// written, and `loaded` tells whether the file could be read in the end.
pub fn config_verdict(step: ConfigStep, template: TemplateOutcome, loaded: bool) -> (verdict: Result<
    (),
    ConfigFailure,
>)
    ensures
        verdict == match step {
            ConfigStep::NoHome => Err::<(), ConfigFailure>(ConfigFailure::NoHome),
            ConfigStep::Load => if loaded {
                Ok(())
            } else {
                Err(ConfigFailure::NotLoaded)
            },
            ConfigStep::WriteTemplate => match template {
                TemplateOutcome::Failed => Err(ConfigFailure::TemplateNotWritten),
                TemplateOutcome::Written => if loaded {
                    Ok(())
                } else {
                    Err(ConfigFailure::GeneratedNotLoaded)
                },
                TemplateOutcome::AlreadyExists => if loaded {
                    Ok(())
                } else {
                    Err(ConfigFailure::NotLoaded)
                },
            },
        },
{
    match step {
        ConfigStep::NoHome => Err(ConfigFailure::NoHome),
        ConfigStep::Load => if loaded {
            Ok(())
        } else {
            Err(ConfigFailure::NotLoaded)
        },
        ConfigStep::WriteTemplate => match after_template(template) {
            TemplateStep::Reject => Err(ConfigFailure::TemplateNotWritten),
            TemplateStep::LoadGenerated => if loaded {
                Ok(())
            } else {
                Err(ConfigFailure::GeneratedNotLoaded)
            },
            TemplateStep::LoadExisting => if loaded {
                Ok(())
            } else {
                Err(ConfigFailure::NotLoaded)
            },
        },
    }
}

/// The message of a failure, with the path and the error it came with.
pub open spec fn failure_text(
    failure: ConfigFailure,
    path: Seq<char>,
    error: Seq<char>,
) -> Seq<char> {
    match failure {
        ConfigFailure::NoHome => "HOME is unavailable; configuration path cannot be resolved"@,
        ConfigFailure::NotLoaded => path + ": "@ + error,
        ConfigFailure::GeneratedNotLoaded => "generated config "@ + path + " failed to load: "@
            + error,
        ConfigFailure::TemplateNotWritten => "config template "@ + path
            + " could not be created: "@ + error,
    }
}

pub fn config_failure_text(failure: ConfigFailure, path: &str, error: &str) -> (text: String)
    ensures
        text@ == failure_text(failure, path@, error@),
{
    match failure {
        ConfigFailure::NoHome =>
            "HOME is unavailable; configuration path cannot be resolved".to_owned(),
        ConfigFailure::NotLoaded => concat(concat(path, ": ").as_str(), error),
        ConfigFailure::GeneratedNotLoaded => concat(
            concat(concat("generated config ", path).as_str(), " failed to load: ").as_str(),
            error,
        ),
        ConfigFailure::TemplateNotWritten => concat(
            concat(concat("config template ", path).as_str(), " could not be created: ").as_str(),
            error,
        ),
    }
}

/// Whether the runtime was set up.
#[derive(Clone, Copy, Debug, PartialEq, Eq, Structural)]
pub struct RuntimeInit {
    pub attempted: bool,
    pub ready: bool,
    pub next_generation: u64,
}

impl RuntimeInit {
    pub fn new() -> (init: Self)
        ensures
            init == (RuntimeInit { attempted: false, ready: false, next_generation: 1 }),
    {
        RuntimeInit { attempted: false, ready: false, next_generation: 1 }
    }

    /// What a caller finds, and what it leaves.
    pub open spec fn asked(self) -> (RuntimeInit, InitStep) {
        (
            RuntimeInit { attempted: true, ..self },
            if self.attempted {
                InitStep::Done(self.ready)
            } else {
                InitStep::SetUp
            },
        )
    }

    /// With the setup settled.
    pub open spec fn settled(self, config_loaded: bool) -> RuntimeInit {
        RuntimeInit { ready: config_loaded, ..self }
    }

    /// Settles the setup: it is ready when a configuration was loaded.
    pub fn finish(&mut self, config_loaded: bool) -> (ready: bool)
        ensures
            ready == config_loaded,
            *final(self) == old(self).settled(config_loaded),
    {
        self.ready = config_loaded;
        config_loaded
    }

    /// The number of the next snapshot of the runtime.
    pub fn take_generation(&mut self) -> (generation: u64)
        ensures
            generation == old(self).next_generation,
            *final(self) == (RuntimeInit {
                next_generation: old(self).next_generation.wrapping_add(1),
                ..*old(self)
            }),
    {
        let generation: u64 = self.next_generation;
        self.next_generation = generation.wrapping_add(1);
        generation
    }
}

/// What a caller that needs the runtime finds.
#[derive(Clone, Copy, Debug, PartialEq, Eq, Structural)]
pub enum InitStep {
    /// It is the first: it sets up the runtime and settles the setup.
    SetUp,
    /// The setup was made; whether it succeeded.
    Done(bool),
}

/// The runtime is set up once, by the first caller; every later one learns how that went.
pub fn ensure_runtime_initialized(init: &mut RuntimeInit) -> (step: InitStep)
    ensures
        (*final(init), step) == old(init).asked(),
{
    if init.attempted {
        return InitStep::Done(init.ready);
    }
    init.attempted = true;
    InitStep::SetUp
}

/// The runtime is set up by one caller only, and every caller after that learns how it went.
pub proof fn law_runtime_is_set_up_once(init: RuntimeInit, config_loaded: bool)
    ensures
        !(init.asked().0.asked().1 is SetUp),
        init.asked().1 is SetUp ==> init.asked().0.settled(config_loaded).asked().1
            == InitStep::Done(config_loaded),
{
}

/// Whether the game bridge is needed.
pub fn game_bridge_required(auto_delegate: bool) -> (required: bool)
    ensures
        required == auto_delegate,
{
    auto_delegate
}

/// What happens with the bridge's server.
#[derive(Clone, Copy, Debug, PartialEq, Eq, Structural)]
pub enum BridgeStep {
    Leave,
    /// It is needed, but there is no helper for it.
    NoHelper,
    Start,
}

/// The services that a configuration calls for.
#[derive(Clone, Copy, Debug, PartialEq, Eq, Structural)]
pub struct RuntimeServices {
    pub start_workers: bool,
    pub bridge: BridgeStep,
}

pub fn ensure_runtime_services_for_config(
    local_cloud: bool,
    cumulus: bool,
    auto_delegate: bool,
    bridge_running: bool,
    helper_available: bool,
) -> (services: RuntimeServices)
    ensures
        services.start_workers == (local_cloud || cumulus),
        services.bridge == if !auto_delegate || bridge_running {
            BridgeStep::Leave
        } else if !helper_available {
            BridgeStep::NoHelper
        } else {
            BridgeStep::Start
        },
{
    let bridge: BridgeStep = if !game_bridge_required(auto_delegate) || bridge_running {
        BridgeStep::Leave
    } else if !helper_available {
        BridgeStep::NoHelper
    } else {
        BridgeStep::Start
    };
    RuntimeServices { start_workers: local_cloud || cumulus, bridge }
}

/// Nothing stands before the first root that was found.
proof fn lemma_first_root(roots: Seq<Option<String>>, from: int, place: int)
    requires
        0 <= from <= place < roots.len(),
        roots[place] is Some,
        forall|k: int| from <= k < place ==> roots[k] is None,
    ensures
        first_root(roots, from) == Some(roots[place]->0@),
    decreases place - from,
{
    if from < place {
        lemma_first_root(roots, from + 1, place);
    }
}

proof fn lemma_no_root(roots: Seq<Option<String>>, from: int)
    requires
        0 <= from <= roots.len(),
        forall|k: int| from <= k < roots.len() ==> roots[k] is None,
    ensures
        first_root(roots, from) is None,
    decreases roots.len() - from,
{
    if from < roots.len() {
        lemma_no_root(roots, from + 1);
    }
}

/// Without a root that the executable tells and without a compatibility root, the first root
/// below home is taken, whichever place it stands at; there is none only where no place holds
/// one. A compatibility root goes before all of them.
pub proof fn law_the_first_root_is_taken(
    compat_root: Option<String>,
    roots: Vec<Option<String>>,
    place: int,
    root: Option<String>,
)
    requires
        call_ensures(resolve_steam_install_root, (None::<&str>, compat_root, &roots), root),
    ensures
        compat_root is Some ==> root is Some && root->0@ == compat_root->0@,
        compat_root is None && 0 <= place < roots@.len() && roots@[place] is Some && (forall|k: int|
            0 <= k < place ==> roots@[k] is None) ==> root is Some && root->0@ == roots@[place]->0@,
        compat_root is None && (forall|k: int| 0 <= k < roots@.len() ==> roots@[k] is None)
            ==> root is None,
{
    if 0 <= place < roots@.len() && roots@[place] is Some && (forall|k: int|
        0 <= k < place ==> roots@[k] is None) {
        lemma_first_root(roots@, 0, place);
    }
    if forall|k: int| 0 <= k < roots@.len() ==> roots@[k] is None {
        lemma_no_root(roots@, 0);
    }
}

/// An executable called `steam` tells its root exactly where the directory that holds it is one
/// of the six that Steam runs from, and the root is what stands above that directory. Whatever
/// the executable tells goes before every other root.
pub proof fn law_executables_tell_their_root(
    executable: &str,
    compat_root: Option<String>,
    roots: Vec<Option<String>>,
    told: Option<String>,
    root: Option<String>,
)
    requires
        call_ensures(steam_root_from_executable, (executable,), told),
        call_ensures(resolve_steam_install_root, (Some(executable), compat_root, &roots), root),
    ensures
        ({
            let parts = normal_components(executable@);
            let names = seq![
                "ubuntu12_32"@,
                "ubuntu12_64"@,
                "linux32"@,
                "linux64"@,
                "steamrt32"@,
                "steamrt64"@,
            ];
            &&& told is Some <==> parts.len() >= 2 && parts.last() == "steam"@ && names.contains(
                parts.drop_last().last(),
            )
            &&& told is Some ==> told->0@ == spelled(
                parts.drop_last().drop_last(),
                is_absolute(executable@),
            ) && root is Some && root->0@ == told->0@
        }),
{
    let parts = normal_components(executable@);
    let names = seq![
        "ubuntu12_32"@,
        "ubuntu12_64"@,
        "linux32"@,
        "linux64"@,
        "steamrt32"@,
        "steamrt64"@,
    ];
    assert(names[0] == "ubuntu12_32"@ && names[1] == "ubuntu12_64"@ && names[2] == "linux32"@
        && names[3] == "linux64"@ && names[4] == "steamrt32"@ && names[5] == "steamrt64"@);
    if parts.len() >= 2 {
        assert(parts.drop_last().last() == parts[parts.len() - 2]);
        assert(parts.drop_last().drop_last() =~= parts.take(parts.len() - 2));
        assert(parts.last() == parts[parts.len() - 1]);
    }
}

/// More configured directories only lengthen the list: what stood in it stays in its place,
/// behind the default directories, and nothing is listed twice.
pub proof fn law_listed_dirs_keep_their_place(
    dirs: Seq<Seq<char>>,
    extra: Seq<Seq<char>>,
    more: Seq<Seq<char>>,
)
    ensures
        dirs.is_prefix_of(with_extra(dirs, extra)),
        with_extra(dirs, extra).is_prefix_of(with_extra(dirs, extra + more)),
        dirs.no_duplicates() ==> with_extra(dirs, extra).no_duplicates(),
    decreases extra.len() + more.len(),
{
    if more.len() > 0 {
        law_listed_dirs_keep_their_place(dirs, extra, more.drop_last());
        assert((extra + more).drop_last() =~= extra + more.drop_last());
    } else {
        assert(extra + more =~= extra);
        if extra.len() > 0 {
            law_listed_dirs_keep_their_place(dirs, extra.drop_last(), more);
        }
    }
}

/// Steam's directory is read first, then the user's, then those of the configuration, all of
/// which are read.
pub proof fn law_script_dirs_are_read_in_order(
    steam_root: Option<&str>,
    home: Option<&str>,
    paths: Vec<String>,
    dirs: Vec<String>,
    path: Seq<char>,
)
    requires
        call_ensures(build_script_dirs_for, (steam_root, home, &paths), dirs),
    ensures
        steam_root is Some ==> dirs@.len() > 0 && dirs@[0]@ == joined_path(
            steam_root->0@,
            "config/lua"@,
        ),
        home is Some ==> {
            let place: int = if steam_root is Some {
                1
            } else {
                0
            };
            dirs@.len() > place && dirs@[place]@ == joined_path(
                home->0@,
                ".config/vapor-forge/scripts"@,
            )
        },
        texts_of(paths@).contains(path) ==> texts_of(dirs@).contains(path),
        steam_root is None && home is None && texts_of(dirs@).contains(path) ==> texts_of(
            paths@,
        ).contains(path),
{
    let base = default_script_dirs(maybe_text(steam_root), maybe_text(home));
    law_listed_dirs_keep_their_place(base, texts_of(paths@), Seq::empty());
    law_extra_dirs_are_listed(base, texts_of(paths@), path);
    let all = texts_of(dirs@);
    assert(forall|k: int| 0 <= k < base.len() ==> base[k] == all[k]);
    assert(all.len() == dirs@.len());
    if steam_root is Some {
        assert(base[0] == joined_path(steam_root->0@, "config/lua"@));
        assert(all[0] == dirs@[0]@);
    }
    if home is Some {
        let place: int = base.len() - 1;
        assert(base[place] == joined_path(home->0@, ".config/vapor-forge/scripts"@));
        assert(all[place] == dirs@[place]@);
    }
}

/// More script apps only lengthen the list: each app is listed where it came up first.
pub proof fn law_merged_apps_keep_their_place(existing: Seq<u32>, added: Seq<u32>, more: Seq<u32>)
    ensures
        merged_ids(existing, added).is_prefix_of(merged_ids(existing, added + more)),
    decreases more.len(),
{
    if more.len() > 0 {
        law_merged_apps_keep_their_place(existing, added, more.drop_last());
        assert((added + more).drop_last() =~= added + more.drop_last());
    } else {
        assert(added + more =~= added);
    }
}

/// The last entry of an app decides on its avatar, and only apps with an entry have one.
pub proof fn law_the_last_avatar_decides(entries: Seq<AvatarEntry>, app_id: u32, place: int)
    ensures
        0 <= place < entries.len() && entries[place].app_id == app_id && (forall|k: int|
            place < k < entries.len() ==> entries[k].app_id != app_id) ==> avatars_of(
            entries,
        ).contains_key(app_id) && avatars_of(entries)[app_id] == entries[place].avatar,
        (forall|k: int| 0 <= k < entries.len() ==> entries[k].app_id != app_id) ==> !avatars_of(
            entries,
        ).contains_key(app_id),
    decreases entries.len(),
{
    if entries.len() > 0 {
        let rest = entries.drop_last();
        law_the_last_avatar_decides(rest, app_id, place);
        assert(entries[entries.len() - 1] == entries.last());
        assert(forall|k: int| 0 <= k < rest.len() ==> rest[k] == entries[k]);
    }
}

/// A failure that concerns a file tells its path and, behind it, the error.
pub proof fn law_failures_tell_path_and_error(
    failure: ConfigFailure,
    path: &str,
    error: &str,
    text: String,
)
    requires
        call_ensures(config_failure_text, (failure, path, error), text),
        !(failure is NoHome),
    ensures
        exists|before: Seq<char>, between: Seq<char>|
            text@ == #[trigger] (before + path@ + between + error@),
{
    let empty = Seq::<char>::empty();
    match failure {
        ConfigFailure::NoHome => {},
        ConfigFailure::NotLoaded => {
            assert(text@ =~= empty + path@ + ": "@ + error@);
        },
        ConfigFailure::GeneratedNotLoaded => {
            assert(text@ == "generated config "@ + path@ + " failed to load: "@ + error@);
        },
        ConfigFailure::TemplateNotWritten => {
            assert(text@ == "config template "@ + path@ + " could not be created: "@ + error@);
        },
    }
}

/// A configuration is there exactly where its file could be read in the end, and the file is
/// read wherever it exists, was written, or was written by another process first.
pub proof fn law_readable_configurations_are_used(
    home_known: bool,
    file_exists: bool,
    template: TemplateOutcome,
    loaded: bool,
    step: ConfigStep,
    verdict: Result<(), ConfigFailure>,
)
    requires
        call_ensures(load_config_for_home, (home_known, file_exists), step),
        call_ensures(config_verdict, (step, template, loaded), verdict),
    ensures
        verdict is Ok <==> home_known && loaded && (file_exists || !(template is Failed)),
        !home_known ==> verdict == Err::<(), ConfigFailure>(ConfigFailure::NoHome),
        verdict == Err::<(), ConfigFailure>(ConfigFailure::TemplateNotWritten) <==> home_known
            && !file_exists && template is Failed,
{
}

/// Setting up leaves the numbering alone, every number is handed out once before they start
/// over, and handing one out tells nothing of the setup.
pub proof fn law_setup_and_numbering_are_apart(init: RuntimeInit, config_loaded: bool)
    ensures
        init.asked().0.next_generation == init.next_generation,
        init.asked().0.ready == init.ready,
        init.asked().0.attempted,
        init.asked().1 is SetUp <==> !init.attempted,
        init.settled(config_loaded).next_generation == init.next_generation,
        init.settled(config_loaded).attempted == init.attempted,
        init.settled(config_loaded).ready == config_loaded,
{
}

/// Configured apps keep all that is set for them; an app that only a script names has nothing
/// set.
pub proof fn law_scripted_apps_have_nothing_set<R>(
    config: RuntimeConfig<R>,
    apps: &[u32],
    default_ticket: TicketMode,
    merged: RuntimeConfig<R>,
    k: int,
)
    requires
        call_ensures(merge_script_apps, (config, apps, default_ticket), merged),
        0 <= k < merged.inject@.len(),
    ensures
        k < config.inject@.len() ==> merged.inject@[k] == config.inject@[k],
        k >= config.inject@.len() ==> merged.inject@[k].dlc@.len() == 0
            && merged.inject@[k].purchase_time == 0 && merged.inject@[k].ticket == default_ticket
            && apps@.contains(merged.inject@[k].id),
        merged.rest == config.rest,
{
    let existing = ids_of(config.inject@);
    law_script_apps_are_merged(existing, apps@);
    let ids = ids_of(merged.inject@);
    assert(ids[k] == merged.inject@[k].id);
    if k < config.inject@.len() {
        assert(merged.inject@.take(config.inject@.len() as int)[k] == merged.inject@[k]);
    } else {
        lemma_new_ids_are_added(existing, apps@, k);
    }
}

proof fn lemma_new_ids_are_added(existing: Seq<u32>, added: Seq<u32>, k: int)
    requires
        existing.len() <= k < merged_ids(existing, added).len(),
    ensures
        added.contains(merged_ids(existing, added)[k]),
    decreases added.len(),
{
    if added.len() > 0 {
        let rest = added.drop_last();
        let before = merged_ids(existing, rest);
        if k < before.len() {
            lemma_new_ids_are_added(existing, rest, k);
            let i = choose|i: int| 0 <= i < rest.len() && rest[i] == before[k];
            assert(added[i] == before[k]);
        } else {
            assert(added[added.len() - 1] == added.last());
        }
    }
}

} // verus!
