//! Backend-authoritative playtime on its way into Steam.
//!
//! Steam ingests playtime through its last-played-times response and the matching
//! notification, so this module corrects those messages.
use crate::lists::{ascends, contains_u32, insert_ascending};
use crate::text::text_eq;
use std::collections::HashMap;
use vstd::prelude::*;
use vstd::string::*;

verus! {

/// What a cached playtime state belongs to: credential, account, identity,
/// device and runtime configuration.
pub struct RuntimeKey {
    pub credential_fingerprint: String,
    pub steam_id64: u64,
    pub identity_generation: u64,
    pub client_id: u64,
    pub runtime_generation: u64,
}

/// The values of a runtime key.
#[verifier::ext_equal]
pub struct KeyView {
    pub credential_fingerprint: Seq<char>,
    pub steam_id64: u64,
    pub identity_generation: u64,
    pub client_id: u64,
    pub runtime_generation: u64,
}

impl View for RuntimeKey {
    type V = KeyView;

    open spec fn view(&self) -> KeyView {
        KeyView {
            credential_fingerprint: self.credential_fingerprint@,
            steam_id64: self.steam_id64,
            identity_generation: self.identity_generation,
            client_id: self.client_id,
            runtime_generation: self.runtime_generation,
        }
    }
}

/// The values of a key that may be absent.
pub open spec fn key_view(key: Option<RuntimeKey>) -> Option<KeyView> {
    match key {
        Some(key) => Some(key@),
        None => None,
    }
}

/// The values of a borrowed key that may be absent.
pub open spec fn key_ref_view(key: Option<&RuntimeKey>) -> Option<KeyView> {
    match key {
        Some(key) => Some(key@),
        None => None,
    }
}

impl RuntimeKey {
    /// Whether two keys agree in every part.
    pub fn same(&self, other: &RuntimeKey) -> (same: bool)
        ensures
            same == (self@ == other@),
    {
        text_eq(self.credential_fingerprint.as_str(), other.credential_fingerprint.as_str())
            && self.steam_id64 == other.steam_id64 && self.identity_generation
            == other.identity_generation && self.client_id == other.client_id
            && self.runtime_generation == other.runtime_generation
    }

    /// The same key once more.
    pub fn duplicate(&self) -> (key: RuntimeKey)
        ensures
            key@ == self@,
    {
        RuntimeKey {
            credential_fingerprint: self.credential_fingerprint.clone(),
            steam_id64: self.steam_id64,
            identity_generation: self.identity_generation,
            client_id: self.client_id,
            runtime_generation: self.runtime_generation,
        }
    }
}

pub fn runtime_key(
    credential_fingerprint: String,
    steam_id64: u64,
    identity_generation: u64,
    client_id: u64,
    runtime_generation: u64,
) -> (key: RuntimeKey)
    ensures
        key == (RuntimeKey {
            credential_fingerprint,
            steam_id64,
            identity_generation,
            client_id,
            runtime_generation,
        }),
{
    RuntimeKey {
        credential_fingerprint,
        steam_id64,
        identity_generation,
        client_id,
        runtime_generation,
    }
}

/// The key of the present moment: it needs a backend, a device and an account.
pub fn current_runtime_key(
    fingerprint: Option<String>,
    device: Option<u64>,
    steam_id64: u64,
    identity_generation: u64,
    runtime_generation: u64,
) -> (key: Option<RuntimeKey>)
    ensures
        key is Some <==> fingerprint is Some && device is Some && steam_id64 != 0,
        key is Some ==> key->0 == (RuntimeKey {
            credential_fingerprint: fingerprint->0,
            steam_id64,
            identity_generation,
            client_id: device->0,
            runtime_generation,
        }),
{
    if steam_id64 == 0 {
        return None;
    }
    match (fingerprint, device) {
        (Some(fingerprint), Some(client_id)) => Some(
            runtime_key(fingerprint, steam_id64, identity_generation, client_id, runtime_generation),
        ),
        _ => None,
    }
}

/// Whether `key` is the key of the present moment.
pub fn runtime_key_is_current(key: &RuntimeKey, current: Option<&RuntimeKey>) -> (same: bool)
    ensures
        same == (key_ref_view(current) == Some(key@)),
{
    match current {
        Some(current) => current.same(key),
        None => false,
    }
}

/// One app's playtime as the backend reports it.
#[derive(Clone, Copy, Debug, PartialEq, Eq, Structural)]
pub struct PlaytimeEntry {
    pub app_id: u32,
    pub playtime_minutes: u32,
    pub playtime_2weeks_minutes: u32,
    pub last_played_at: Option<i64>,
    pub observed_at: i64,
}

/// The playtime of one account at one revision.
pub struct AccountPlaytimeSnapshot {
    pub steam_id64: String,
    pub playtime_revision: u64,
    pub origin_client_id: Option<String>,
    pub playtime: Vec<PlaytimeEntry>,
}

/// One app's playtime as the cache keeps it.
#[derive(Clone, Copy, Debug, PartialEq, Eq, Structural)]
pub struct CachedPlaytime {
    pub app_id: u32,
    pub playtime_minutes: u32,
    pub playtime_2weeks_minutes: u32,
    pub last_played_at: Option<i64>,
}

/// One game of Steam's last-played-times messages.
#[derive(Clone, Copy, Debug, PartialEq, Eq, Structural)]
pub struct PlayerLastPlayedGame {
    pub app_id: Option<i32>,
    pub last_playtime: Option<u32>,
    pub playtime_2weeks: Option<i32>,
    pub playtime_forever: Option<i32>,
    pub first_playtime: Option<u32>,
    pub playtime_windows_forever: Option<i32>,
    pub playtime_mac_forever: Option<i32>,
    pub playtime_linux_forever: Option<i32>,
    pub first_windows_playtime: Option<u32>,
    pub first_mac_playtime: Option<u32>,
    pub first_linux_playtime: Option<u32>,
    pub last_windows_playtime: Option<u32>,
    pub last_mac_playtime: Option<u32>,
    pub last_linux_playtime: Option<u32>,
    pub playtime_disconnected: Option<u32>,
    pub playtime_deck_forever: Option<i32>,
    pub first_deck_playtime: Option<u32>,
    pub last_deck_playtime: Option<u32>,
}

/// A game with no field set.
pub open spec fn empty_game() -> PlayerLastPlayedGame {
    PlayerLastPlayedGame {
        app_id: None,
        last_playtime: None,
        playtime_2weeks: None,
        playtime_forever: None,
        first_playtime: None,
        playtime_windows_forever: None,
        playtime_mac_forever: None,
        playtime_linux_forever: None,
        first_windows_playtime: None,
        first_mac_playtime: None,
        first_linux_playtime: None,
        last_windows_playtime: None,
        last_mac_playtime: None,
        last_linux_playtime: None,
        playtime_disconnected: None,
        playtime_deck_forever: None,
        first_deck_playtime: None,
        last_deck_playtime: None,
    }
}

impl Default for PlayerLastPlayedGame {
    fn default() -> (game: Self)
        ensures
            game == empty_game(),
    {
        PlayerLastPlayedGame {
            app_id: None,
            last_playtime: None,
            playtime_2weeks: None,
            playtime_forever: None,
            first_playtime: None,
            playtime_windows_forever: None,
            playtime_mac_forever: None,
            playtime_linux_forever: None,
            first_windows_playtime: None,
            first_mac_playtime: None,
            first_linux_playtime: None,
            last_windows_playtime: None,
            last_mac_playtime: None,
            last_linux_playtime: None,
            playtime_disconnected: None,
            playtime_deck_forever: None,
            first_deck_playtime: None,
            last_deck_playtime: None,
        }
    }
}

/// `value`, or the largest signed number.
pub open spec fn saturated(value: u32) -> i32 {
    if value <= i32::MAX {
        value as i32
    } else {
        i32::MAX
    }
}

pub fn saturating_i32(value: u32) -> (number: i32)
    ensures
        number == saturated(value),
{
    if value <= i32::MAX as u32 {
        value as i32
    } else {
        i32::MAX
    }
}

/// The cached form of an entry that names an app and no time before the epoch.
pub open spec fn cached_of(entry: PlaytimeEntry) -> Option<CachedPlaytime> {
    if entry.app_id == 0 || (entry.last_played_at is Some && entry.last_played_at->0 < 0) {
        None
    } else {
        Some(
            CachedPlaytime {
                app_id: entry.app_id,
                playtime_minutes: entry.playtime_minutes,
                playtime_2weeks_minutes: entry.playtime_2weeks_minutes,
                last_played_at: entry.last_played_at,
            },
        )
    }
}

pub fn cached_entry(entry: &PlaytimeEntry) -> (cached: Option<CachedPlaytime>)
    ensures
        cached == cached_of(*entry),
{
    let before_epoch: bool = match entry.last_played_at {
        Some(value) => value < 0,
        None => false,
    };
    if entry.app_id == 0 || before_epoch {
        return None;
    }
    Some(
        CachedPlaytime {
            app_id: entry.app_id,
            playtime_minutes: entry.playtime_minutes,
            playtime_2weeks_minutes: entry.playtime_2weeks_minutes,
            last_played_at: entry.last_played_at,
        },
    )
}

/// The game that Steam is told for a cached entry. An app id beyond Steam's signed
/// range has none.
pub open spec fn game_of(entry: CachedPlaytime) -> Option<PlayerLastPlayedGame> {
    if entry.app_id > i32::MAX {
        None
    } else {
        Some(
            PlayerLastPlayedGame {
                app_id: Some(entry.app_id as i32),
                last_playtime: match entry.last_played_at {
                    Some(value) => if 0 <= value <= u32::MAX {
                        Some(value as u32)
                    } else {
                        None
                    },
                    None => None,
                },
                playtime_2weeks: Some(saturated(entry.playtime_2weeks_minutes)),
                playtime_forever: Some(saturated(entry.playtime_minutes)),
                ..empty_game()
            },
        )
    }
}

pub fn steam_game(entry: CachedPlaytime) -> (game: Option<PlayerLastPlayedGame>)
    ensures
        game == game_of(entry),
{
    if entry.app_id > i32::MAX as u32 {
        return None;
    }
    let last_playtime: Option<u32> = match entry.last_played_at {
        Some(value) => if 0 <= value && value <= u32::MAX as i64 {
            Some(value as u32)
        } else {
            None
        },
        None => None,
    };
    let mut game: PlayerLastPlayedGame = PlayerLastPlayedGame::default();
    game.app_id = Some(entry.app_id as i32);
    game.last_playtime = last_playtime;
    game.playtime_2weeks = Some(saturating_i32(entry.playtime_2weeks_minutes));
    game.playtime_forever = Some(saturating_i32(entry.playtime_minutes));
    Some(game)
}

pub fn same_steam_game(left: &PlayerLastPlayedGame, right: &PlayerLastPlayedGame) -> (same: bool)
    ensures
        same == (*left == *right),
{
    *left == *right
}

/// Playtime by app, one entry for each.
pub struct GameTable {
    pub games: HashMap<u32, CachedPlaytime>,
}

/// Whether an app has an entry among the games.
pub open spec fn has_app(games: Seq<CachedPlaytime>, app_id: u32) -> bool {
    exists|i: int| 0 <= i < games.len() && (#[trigger] games[i]).app_id == app_id
}

impl View for GameTable {
    type V = Map<u32, CachedPlaytime>;

    open spec fn view(&self) -> Map<u32, CachedPlaytime> {
        self.games@
    }
}

/// A backend whose entries stand under their own app ids.
pub open spec fn keyed_by_app(backend: Map<u32, CachedPlaytime>) -> bool {
    forall|app_id: u32| #[trigger]
        backend.dom().contains(app_id) ==> backend[app_id].app_id == app_id
}

/// One more element of a row adds itself; with the last one, the elements are the row's set.
proof fn lemma_one_more(row: Seq<u32>, at: int, values: Set<u32>)
    requires
        0 <= at < row.len(),
        row.to_set() == values,
    ensures
        forall|value: u32| #[trigger]
            row.take(at + 1).contains(value) <==> row.take(at).contains(value) || value == row[at],
        at + 1 == row.len() ==> forall|value: u32| #[trigger]
            values.contains(value) <==> row.take(at).contains(value) || value == row[at],
{
    let now = row.take(at);
    let next = row.take(at + 1);
    assert forall|value: u32| #[trigger] next.contains(value) <==> now.contains(value) || value
        == row[at] by {
        if now.contains(value) {
            let k = choose|k: int| 0 <= k < now.len() && now[k] == value;
            assert(next[k] == value);
        }
        if next.contains(value) {
            let k = choose|k: int| 0 <= k < next.len() && next[k] == value;
            if k < at {
                assert(now[k] == value);
            }
        }
        assert(next[at] == row[at]);
    }
    if at + 1 == row.len() {
        assert(next =~= row);
        assert forall|value: u32| #[trigger] values.contains(value) <==> now.contains(value)
            || value == row[at] by {
            assert(next.contains(value) <==> row.to_set().contains(value));
        }
    }
}

impl GameTable {
    /// Every entry stands under its own app id.
    pub open spec fn wf(self) -> bool {
        keyed_by_app(self@)
    }

    pub fn new() -> (table: Self)
        ensures
            table.wf(),
            table@ == Map::<u32, CachedPlaytime>::empty(),
    {
        GameTable { games: HashMap::new() }
    }

    pub fn get(&self, app_id: u32) -> (entry: Option<CachedPlaytime>)
        requires
            self.wf(),
        ensures
            entry == if self@.dom().contains(app_id) {
                Some(self@[app_id])
            } else {
                None
            },
            entry is Some ==> entry->0.app_id == app_id,
    {
        match self.games.get(&app_id) {
            Some(entry) => Some(*entry),
            None => None,
        }
    }

    /// Sets the entry of its app.
    pub fn insert(&mut self, entry: CachedPlaytime)
        requires
            old(self).wf(),
        ensures
            final(self).wf(),
            final(self)@ == old(self)@.insert(entry.app_id, entry),
    {
        self.games.insert(entry.app_id, entry);
    }

    /// The apps that have an entry, by ascending id.
    pub fn app_ids(&self) -> (ids: Vec<u32>)
        ensures
            ascends(ids@),
            forall|app_id: u32| #[trigger]
                ids@.contains(app_id) <==> self@.dom().contains(app_id),
    {
        let mut ids: Vec<u32> = Vec::new();
        for app_id in iter: self.games.keys()
            invariant
                ascends(ids@),
                iter.seq().unref().to_set() == self@.dom(),
                forall|other: u32| #[trigger]
                    ids@.contains(other) <==> iter.seq().unref().take(iter.index()).contains(other),
                iter.index() == iter.seq().len() ==> forall|other: u32| #[trigger]
                    ids@.contains(other) <==> self@.dom().contains(other),
        {
            insert_ascending(&mut ids, *app_id);
            proof {
                lemma_one_more(iter.seq().unref(), iter.index(), self@.dom());
            }
        }
        ids
    }
}

/// The admissible entries by app; the last one of an app counts.
pub open spec fn games_of(entries: Seq<PlaytimeEntry>) -> Map<u32, CachedPlaytime>
    decreases entries.len(),
{
    if entries.len() == 0 {
        Map::empty()
    } else {
        let before = games_of(entries.drop_last());
        match cached_of(entries.last()) {
            Some(cached) => before.insert(cached.app_id, cached),
            None => before,
        }
    }
}

pub fn playtime_games(entries: &[PlaytimeEntry]) -> (table: GameTable)
    ensures
        table.wf(),
        table@ == games_of(entries@),
{
    let mut table: GameTable = GameTable::new();
    let mut i: usize = 0;
    assert(entries@.take(0) =~= Seq::empty());
    while i < entries.len()
        invariant
            i <= entries@.len(),
            table.wf(),
            table@ == games_of(entries@.take(i as int)),
        decreases entries@.len() - i,
    {
        assert(entries@.take(i + 1).drop_last() =~= entries@.take(i as int));
        if let Some(cached) = cached_entry(&entries[i]) {
            table.insert(cached);
        }
        i = i + 1;
    }
    assert(entries@.take(i as int) =~= entries@);
    table
}

/// Backend playtime as it was last stored.
pub struct PlaytimeCache {
    pub key: Option<RuntimeKey>,
    pub revision: u64,
    pub games: GameTable,
}

/// Whether a revision under `key` is no newer than what the cache holds.
pub open spec fn is_outdated(cache: PlaytimeCache, key: RuntimeKey, revision: u64) -> bool {
    key_view(cache.key) == Some(key@) && revision != 0 && cache.revision != 0 && revision
        <= cache.revision
}

/// Whether `changed` lists the entries of `games` that differ from those in `known`, or are
/// missing there, each once and by ascending app id.
pub open spec fn lists_changes(
    changed: Seq<CachedPlaytime>,
    games: Map<u32, CachedPlaytime>,
    known: Map<u32, CachedPlaytime>,
) -> bool {
    &&& forall|i: int, j: int|
        0 <= i < j < changed.len() ==> (#[trigger] changed[i]).app_id < (
        #[trigger] changed[j]).app_id
    &&& forall|i: int|
        0 <= i < changed.len() ==> games.contains_pair(
            (#[trigger] changed[i]).app_id,
            changed[i],
        ) && !known.contains_pair(changed[i].app_id, changed[i])
    &&& forall|app_id: u32| #[trigger]
        games.dom().contains(app_id) && !known.contains_pair(app_id, games[app_id]) ==> has_app(
            changed,
            app_id,
        )
}

impl PlaytimeCache {
    pub open spec fn wf(self) -> bool {
        self.games.wf()
    }

    /// Whether exactly this backend state is held.
    pub open spec fn holds(self, key: RuntimeKey, revision: u64, entries: Seq<PlaytimeEntry>) -> bool {
        &&& key_view(self.key) == Some(key@)
        &&& self.revision == revision
        &&& self.games@ == games_of(entries)
    }

    /// Nothing is known.
    pub open spec fn is_clear(self) -> bool {
        self.key is None && self.revision == 0 && self.games@ == Map::<u32, CachedPlaytime>::empty()
    }

    pub fn new() -> (cache: Self)
        ensures
            cache.wf(),
            cache.is_clear(),
    {
        PlaytimeCache { key: None, revision: 0, games: GameTable::new() }
    }

    /// Forgets everything.
    pub fn clear(&mut self)
        ensures
            final(self).wf(),
            final(self).is_clear(),
    {
        self.key = None;
        self.revision = 0;
        self.games = GameTable::new();
    }

    /// Stores a backend state and tells which entries are new or changed. A revision
    /// under the same key that is not newer is refused.
    pub fn store_backend_playtime(
        &mut self,
        key: RuntimeKey,
        revision: u64,
        entries: &[PlaytimeEntry],
    ) -> (changed: Option<Vec<CachedPlaytime>>)
        requires
            old(self).wf(),
        ensures
            final(self).wf(),
            changed is None <==> is_outdated(*old(self), key, revision),
            changed is None ==> *final(self) == *old(self),
            changed is Some ==> {
                &&& final(self).holds(key, revision, entries@)
                &&& lists_changes(changed->0@, final(self).games@, old(self).games@)
            },
    {
        let same_key: bool = match &self.key {
            Some(known) => known.same(&key),
            None => false,
        };
        if same_key && revision != 0 && self.revision != 0 && revision <= self.revision {
            return None;
        }
        let games: GameTable = playtime_games(entries);
        let ids: Vec<u32> = games.app_ids();
        let mut changed: Vec<CachedPlaytime> = Vec::new();
        let mut i: usize = 0;
        while i < ids.len()
            invariant
                i <= ids@.len(),
                self.wf(),
                games.wf(),
                *self == *old(self),
                ascends(ids@),
                forall|app_id: u32| #[trigger]
                    ids@.contains(app_id) <==> games@.dom().contains(app_id),
                forall|a: int, b: int|
                    0 <= a < b < changed@.len() ==> (#[trigger] changed@[a]).app_id < (
                    #[trigger] changed@[b]).app_id,
                forall|a: int|
                    0 <= a < changed@.len() ==> games@.contains_pair(
                        (#[trigger] changed@[a]).app_id,
                        changed@[a],
                    ) && !self.games@.contains_pair(changed@[a].app_id, changed@[a]),
                forall|a: int|
                    0 <= a < changed@.len() && i < ids@.len() ==> (#[trigger] changed@[a]).app_id
                        < ids@[i as int],
                forall|k: int|
                    0 <= k < i && !self.games@.contains_pair(
                        #[trigger] ids@[k],
                        games@[ids@[k]],
                    ) ==> has_app(changed@, ids@[k]),
            decreases ids@.len() - i,
        {
            let app_id: u32 = ids[i];
            assert(ids@.contains(app_id));
            let ghost before = changed@;
            if let Some(entry) = games.get(app_id) {
                let known: bool = match self.games.get(app_id) {
                    Some(known) => known == entry,
                    None => false,
                };
                if !known {
                    changed.push(entry);
                    assert(changed@[before.len() as int].app_id == app_id);
                }
            }
            proof {
                assert forall|k: int|
                    0 <= k < i + 1 && !self.games@.contains_pair(
                        #[trigger] ids@[k],
                        games@[ids@[k]],
                    ) implies has_app(changed@, ids@[k]) by {
                    if k < i {
                        let a = choose|a: int|
                            0 <= a < before.len() && (#[trigger] before[a]).app_id == ids@[k];
                        assert(changed@[a].app_id == ids@[k]);
                    } else {
                        assert(changed@[before.len() as int].app_id == ids@[k]);
                    }
                }
            }
            i = i + 1;
        }
        proof {
            assert forall|app_id: u32| #[trigger]
                games@.dom().contains(app_id) && !self.games@.contains_pair(app_id, games@[app_id])
                implies has_app(changed@, app_id) by {
                assert(ids@.contains(app_id));
                let k = choose|k: int| 0 <= k < ids@.len() && ids@[k] == app_id;
                assert(!self.games@.contains_pair(ids@[k], games@[ids@[k]]));
            }
        }
        self.key = Some(key);
        self.revision = revision;
        self.games = games;
        Some(changed)
    }
}

/// What the packet rewriter knows about backend playtime right now.
///
/// `Cold` means that no state has arrived, so Steam's own values stand. `Known`
/// means that the backend has spoken: an app missing from it has no playtime.
pub enum PlaytimeView {
    Cold,
    Known(GameTable),
}

impl PlaytimeView {
    pub open spec fn wf(self) -> bool {
        match self {
            PlaytimeView::Cold => true,
            PlaytimeView::Known(table) => table.wf(),
        }
    }

    /// The known entries by app, if anything is known.
    pub open spec fn known(self) -> Option<Map<u32, CachedPlaytime>> {
        match self {
            PlaytimeView::Cold => None,
            PlaytimeView::Known(table) => Some(table@),
        }
    }
}

/// What of a cached state belongs to the present key.
pub open spec fn seen_under(cache: PlaytimeCache, current: Option<&RuntimeKey>) -> Option<
    Map<u32, CachedPlaytime>,
> {
    if current is Some && key_view(cache.key) == key_ref_view(current) {
        Some(cache.games@)
    } else {
        None
    }
}

/// The cached state, as far as it belongs to the present key.
pub fn playtime_view(cache: &PlaytimeCache, current: Option<&RuntimeKey>) -> (view: PlaytimeView)
    requires
        cache.wf(),
    ensures
        view.wf(),
        view.known() == seen_under(*cache, current),
{
    match (current, &cache.key) {
        (Some(current), Some(key)) => {
            if key.same(current) {
                PlaytimeView::Known(GameTable { games: cache.games.games.clone() })
            } else {
                PlaytimeView::Cold
            }
        },
        _ => PlaytimeView::Cold,
    }
}

/// The state of a local folder that was read for one response: the folder opened
/// (with its fingerprint), its entries came, and nothing changed meanwhile.
pub fn local_playtime_view(
    current: Option<&RuntimeKey>,
    opened: Option<&str>,
    pulled: Option<&[PlaytimeEntry]>,
    still_current: bool,
) -> (view: PlaytimeView)
    ensures
        view.wf(),
        view.known() == if current is Some && opened is Some && pulled is Some && still_current
            && opened->0@ == current->0@.credential_fingerprint {
            Some(games_of(pulled->0@))
        } else {
            None
        },
{
    match (current, opened, pulled) {
        (Some(current), Some(fingerprint), Some(entries)) => {
            if still_current && text_eq(fingerprint, current.credential_fingerprint.as_str()) {
                PlaytimeView::Known(playtime_games(entries))
            } else {
                PlaytimeView::Cold
            }
        },
        _ => PlaytimeView::Cold,
    }
}

/// The playtime that answers a pull of Steam: the local folder where one is
/// configured, the cache otherwise.
pub fn response_playtime_view(
    local_cloud_configured: bool,
    cache: &PlaytimeCache,
    current: Option<&RuntimeKey>,
    opened: Option<&str>,
    pulled: Option<&[PlaytimeEntry]>,
    still_current: bool,
) -> (view: PlaytimeView)
    requires
        cache.wf(),
    ensures
        view.wf(),
        !local_cloud_configured ==> view.known() == seen_under(*cache, current),
        local_cloud_configured ==> view.known() == if current is Some && opened is Some
            && pulled is Some && still_current && opened->0@
            == current->0@.credential_fingerprint {
            Some(games_of(pulled->0@))
        } else {
            None
        },
{
    if local_cloud_configured {
        local_playtime_view(current, opened, pulled, still_current)
    } else {
        playtime_view(cache, current)
    }
}

/// Whether the backend speaks for an app.
pub open spec fn is_controlled(controlled: Seq<u32>, app_id: u32) -> bool {
    app_id != 0 && controlled.contains(app_id)
}

/// Whether the backend speaks for an app: one of the controlled apps, never the
/// unset id.
pub fn requires_backend_playtime(controlled: &[u32], app_id: u32) -> (required: bool)
    ensures
        required == is_controlled(controlled@, app_id),
{
    app_id != 0 && contains_u32(controlled, app_id)
}

/// The app that a game of Steam names.
pub open spec fn named_app(game: PlayerLastPlayedGame) -> Option<u32> {
    match game.app_id {
        Some(value) => if value > 0 {
            Some(value as u32)
        } else {
            None
        },
        None => None,
    }
}

/// Whether the backend speaks for the app of this game.
pub open spec fn game_is_controlled(game: PlayerLastPlayedGame, controlled: Seq<u32>) -> bool {
    named_app(game) is Some && is_controlled(controlled, named_app(game)->0)
}

/// What becomes of one game: controlled apps get the backend's values or vanish,
/// the others stay.
pub open spec fn overlay_one(
    game: PlayerLastPlayedGame,
    controlled: Seq<u32>,
    backend: Map<u32, CachedPlaytime>,
) -> Seq<PlayerLastPlayedGame> {
    if !game_is_controlled(game, controlled) {
        seq![game]
    } else if backend.dom().contains(named_app(game)->0) {
        match game_of(backend[named_app(game)->0]) {
            Some(overlay) => seq![overlay],
            None => Seq::empty(),
        }
    } else {
        Seq::empty()
    }
}

/// What becomes of all games, in their order.
pub open spec fn overlay_all(
    games: Seq<PlayerLastPlayedGame>,
    controlled: Seq<u32>,
    backend: Map<u32, CachedPlaytime>,
) -> Seq<PlayerLastPlayedGame>
    decreases games.len(),
{
    if games.len() == 0 {
        Seq::empty()
    } else {
        overlay_all(games.drop_last(), controlled, backend) + overlay_one(
            games.last(),
            controlled,
            backend,
        )
    }
}

/// Whether a game of this app stands among the games.
pub open spec fn names_app(games: Seq<PlayerLastPlayedGame>, app_id: u32) -> bool {
    exists|i: int| 0 <= i < games.len() && named_app(#[trigger] games[i]) == Some(app_id)
}

/// Whether a controlled app of the backend is missing from the games.
pub open spec fn is_missing(
    games: Seq<PlayerLastPlayedGame>,
    controlled: Seq<u32>,
    backend: Map<u32, CachedPlaytime>,
    app_id: u32,
) -> bool {
    backend.dom().contains(app_id) && is_controlled(controlled, app_id) && !names_app(games, app_id)
}

/// Whether `tail` lists the missing apps, each once, by ascending app id.
pub open spec fn lists_missing(
    tail: Seq<CachedPlaytime>,
    games: Seq<PlayerLastPlayedGame>,
    controlled: Seq<u32>,
    backend: Map<u32, CachedPlaytime>,
) -> bool {
    &&& forall|i: int, j: int|
        0 <= i < j < tail.len() ==> (#[trigger] tail[i]).app_id < (#[trigger] tail[j]).app_id
    &&& forall|i: int|
        0 <= i < tail.len() ==> is_missing(games, controlled, backend, (#[trigger] tail[i]).app_id)
            && backend[tail[i].app_id] == tail[i]
    &&& forall|app_id: u32|
        is_missing(games, controlled, backend, app_id) ==> has_app(tail, app_id)
}

/// Whether some game changes under the backend's values.
pub open spec fn some_game_changes(
    games: Seq<PlayerLastPlayedGame>,
    controlled: Seq<u32>,
    backend: Map<u32, CachedPlaytime>,
) -> bool {
    exists|i: int|
        0 <= i < games.len() && overlay_one(#[trigger] games[i], controlled, backend)
            != seq![games[i]]
}

/// Whether some missing app cannot be told to Steam.
pub open spec fn some_missing_app_is_unfit(
    games: Seq<PlayerLastPlayedGame>,
    controlled: Seq<u32>,
    backend: Map<u32, CachedPlaytime>,
) -> bool {
    exists|app_id: u32|
        #[trigger] is_missing(games, controlled, backend, app_id) && app_id > i32::MAX
}

/// Whether some controlled app of the backend is missing from the games.
pub open spec fn some_app_is_missing(
    games: Seq<PlayerLastPlayedGame>,
    controlled: Seq<u32>,
    backend: Map<u32, CachedPlaytime>,
) -> bool {
    exists|app_id: u32| #[trigger] is_missing(games, controlled, backend, app_id)
}

/// The missing apps of a table, by ascending app id.
fn missing_entries(games: &[PlayerLastPlayedGame], controlled: &[u32], table: &GameTable) -> (tail:
    Vec<CachedPlaytime>)
    requires
        table.wf(),
    ensures
        lists_missing(tail@, games@, controlled@, table@),
{
    let ids: Vec<u32> = table.app_ids();
    let mut tail: Vec<CachedPlaytime> = Vec::new();
    let mut i: usize = 0;
    while i < ids.len()
        invariant
            i <= ids@.len(),
            table.wf(),
            ascends(ids@),
            forall|app_id: u32| #[trigger]
                ids@.contains(app_id) <==> table@.dom().contains(app_id),
            forall|a: int, b: int|
                0 <= a < b < tail@.len() ==> (#[trigger] tail@[a]).app_id < (
                #[trigger] tail@[b]).app_id,
            forall|a: int|
                0 <= a < tail@.len() ==> is_missing(
                    games@,
                    controlled@,
                    table@,
                    (#[trigger] tail@[a]).app_id,
                ) && table@[tail@[a].app_id] == tail@[a],
            forall|a: int|
                0 <= a < tail@.len() && i < ids@.len() ==> (#[trigger] tail@[a]).app_id
                    < ids@[i as int],
            forall|k: int|
                0 <= k < i && is_missing(games@, controlled@, table@, #[trigger] ids@[k])
                    ==> has_app(tail@, ids@[k]),
        decreases ids@.len() - i,
    {
        let app_id: u32 = ids[i];
        let mut named: bool = false;
        let mut g: usize = 0;
        while g < games.len()
            invariant
                g <= games@.len(),
                named == exists|k: int|
                    0 <= k < g && named_app(#[trigger] games@[k]) == Some(app_id),
            decreases games@.len() - g,
        {
            if let Some(value) = games[g].app_id {
                if value > 0 && value as u32 == app_id {
                    assert(named_app(games@[g as int]) == Some(app_id));
                    named = true;
                }
            }
            g = g + 1;
        }
        assert(named == names_app(games@, app_id));
        assert(ids@.contains(app_id));
        let ghost before = tail@;
        if !named && requires_backend_playtime(controlled, app_id) {
            if let Some(entry) = table.get(app_id) {
                tail.push(entry);
                assert(tail@[before.len() as int].app_id == app_id);
            }
        }
        proof {
            assert forall|k: int|
                0 <= k < i + 1 && is_missing(games@, controlled@, table@, #[trigger] ids@[k])
                implies has_app(tail@, ids@[k]) by {
                if k < i {
                    let a = choose|a: int|
                        0 <= a < before.len() && (#[trigger] before[a]).app_id == ids@[k];
                    assert(tail@[a].app_id == ids@[k]);
                } else {
                    assert(tail@[before.len() as int].app_id == ids@[k]);
                }
            }
        }
        i = i + 1;
    }
    proof {
        assert forall|app_id: u32|
            is_missing(games@, controlled@, table@, app_id) implies has_app(tail@, app_id) by {
            assert(ids@.contains(app_id));
            let k = choose|k: int| 0 <= k < ids@.len() && ids@[k] == app_id;
            assert(is_missing(games@, controlled@, table@, ids@[k]));
        }
    }
    tail
}

/// The corrected games, or nothing where Steam's own message can stand.
///
/// Controlled apps take the backend's values or vanish; with `append_missing` those
/// that the message lacks follow at its end, by ascending app id.
pub fn overlay_games(
    games: &[PlayerLastPlayedGame],
    controlled: &[u32],
    view: &PlaytimeView,
    append_missing: bool,
) -> (rewritten: Option<Vec<PlayerLastPlayedGame>>)
    requires
        view.wf(),
    ensures
        rewritten is Some <==> {
            &&& view.known() matches Some(backend)
            &&& some_game_changes(games@, controlled@, backend) || (append_missing
                && some_app_is_missing(games@, controlled@, backend))
            &&& append_missing ==> !some_missing_app_is_unfit(games@, controlled@, backend)
        },
        rewritten is Some ==> {
            let backend = view.known()->0;
            let kept = overlay_all(games@, controlled@, backend);
            &&& !append_missing ==> rewritten->0@ == kept
            &&& append_missing ==> exists|tail: Seq<CachedPlaytime>|
                {
                    &&& #[trigger] lists_missing(tail, games@, controlled@, backend)
                    &&& rewritten->0@ == kept + tail.map_values(
                        |entry: CachedPlaytime| game_of(entry)->0,
                    )
                }
        },
{
    let table: &GameTable = match view {
        PlaytimeView::Cold => {
            return None;
        },
        PlaytimeView::Known(table) => table,
    };
    let ghost backend = table@;
    let mut changed: bool = false;
    let mut rewritten: Vec<PlayerLastPlayedGame> = Vec::new();
    let mut i: usize = 0;
    assert(games@.take(0) =~= Seq::empty());
    while i < games.len()
        invariant
            i <= games@.len(),
            table.wf(),
            backend == table@,
            rewritten@ == overlay_all(games@.take(i as int), controlled@, backend),
            changed == exists|k: int|
                0 <= k < i && overlay_one(#[trigger] games@[k], controlled@, backend)
                    != seq![games@[k]],
        decreases games@.len() - i,
    {
        let game: PlayerLastPlayedGame = games[i];
        let ghost one = overlay_one(games@[i as int], controlled@, backend);
        assert(games@.take(i + 1).drop_last() =~= games@.take(i as int));
        let app: Option<u32> = match game.app_id {
            Some(value) => if value > 0 {
                Some(value as u32)
            } else {
                None
            },
            None => None,
        };
        let controlled_app: Option<u32> = match app {
            Some(app_id) => if requires_backend_playtime(controlled, app_id) {
                Some(app_id)
            } else {
                None
            },
            None => None,
        };
        match controlled_app {
            None => {
                rewritten.push(game);
                assert(one == seq![game]);
            },
            Some(app_id) => match table.get(app_id) {
                Some(entry) => match steam_game(entry) {
                    Some(overlay) => {
                        assert(one == seq![overlay]);
                        if !same_steam_game(&overlay, &game) {
                            assert(one[0] != seq![game][0]);
                            changed = true;
                        }
                        rewritten.push(overlay);
                    },
                    None => {
                        assert(false);
                    },
                },
                None => {
                    assert(one.len() == 0);
                    changed = true;
                },
            },
        }
        assert(rewritten@ =~= overlay_all(games@.take(i + 1), controlled@, backend));
        i = i + 1;
    }
    assert(games@.take(i as int) =~= games@);
    assert(changed == some_game_changes(games@, controlled@, backend));
    if append_missing {
        let tail: Vec<CachedPlaytime> = missing_entries(games, controlled, table);
        let ghost to_game = |entry: CachedPlaytime| game_of(entry)->0;
        let ghost kept = rewritten@;
        let mut k: usize = 0;
        assert(kept + tail@.take(0).map_values(to_game) =~= kept);
        while k < tail.len()
            invariant
                k <= tail@.len(),
                append_missing,
                view.known() == Some(backend),
                lists_missing(tail@, games@, controlled@, backend),
                to_game == (|entry: CachedPlaytime| game_of(entry)->0),
                forall|j: int| 0 <= j < k ==> (#[trigger] tail@[j]).app_id <= i32::MAX,
                rewritten@ == kept + tail@.take(k as int).map_values(to_game),
            decreases tail@.len() - k,
        {
            match steam_game(tail[k]) {
                Some(game) => {
                    rewritten.push(game);
                },
                None => {
                    proof {
                        let app_id = tail@[k as int].app_id;
                        assert(is_missing(games@, controlled@, backend, app_id));
                    }
                    return None;
                },
            }
            assert(rewritten@ =~= kept + tail@.take(k + 1).map_values(to_game));
            k = k + 1;
        }
        assert(tail@.take(k as int) =~= tail@);
        proof {
            if tail@.len() > 0 {
                assert(is_missing(games@, controlled@, backend, tail@[0].app_id));
            }
            assert forall|app_id: u32| #[trigger]
                is_missing(games@, controlled@, backend, app_id) implies app_id <= i32::MAX
                && tail@.len() > 0 by {
                assert(has_app(tail@, app_id));
            }
        }
        if tail.len() > 0 {
            changed = true;
        }
    }
    if changed {
        Some(rewritten)
    } else {
        None
    }
}

/// The job that a last-played notification is for.
pub const LAST_PLAYED_TIMES_NOTIFICATION_JOB_NAME: &'static str =
    "PlayerClient.NotifyLastPlayedTimes#1";

/// The numbers of the client's protocol that a notification is made with.
#[derive(Clone, Copy, Debug, PartialEq, Eq, Structural)]
pub struct NotificationNumbers {
    /// The message in which a service method goes to the client.
    pub send_to_client: u32,
    /// The mark of a message whose header is a protocol buffer.
    pub proto_flag: u32,
}

/// A last-played notification for one account.
pub struct PlaytimeNotification {
    pub emsg: u32,
    pub steam_id64: u64,
    pub target_job_name: &'static str,
    pub games: Vec<PlayerLastPlayedGame>,
}

impl PlaytimeNotification {
    /// Whether this tells an account of games.
    pub open spec fn tells(
        self,
        numbers: NotificationNumbers,
        steam_id64: u64,
        games: Seq<PlayerLastPlayedGame>,
    ) -> bool {
        &&& self.emsg == numbers.send_to_client | numbers.proto_flag
        &&& self.steam_id64 == steam_id64
        &&& self.target_job_name@ == LAST_PLAYED_TIMES_NOTIFICATION_JOB_NAME@
        &&& self.games@ == games
    }
}

/// The notification of some games; none without an account or without games.
pub fn build_notification_packet(
    numbers: NotificationNumbers,
    steam_id64: u64,
    games: Vec<PlayerLastPlayedGame>,
) -> (packet: Option<PlaytimeNotification>)
    ensures
        packet is Some <==> steam_id64 != 0 && games@.len() > 0,
        packet is Some ==> packet->0.tells(numbers, steam_id64, games@),
{
    if steam_id64 == 0 || games.len() == 0 {
        return None;
    }
    Some(
        PlaytimeNotification {
            emsg: numbers.send_to_client | numbers.proto_flag,
            steam_id64,
            target_job_name: LAST_PLAYED_TIMES_NOTIFICATION_JOB_NAME,
            games,
        },
    )
}

/// The games of the controlled entries that Steam can be told.
pub open spec fn announced(entries: Seq<CachedPlaytime>, controlled: Seq<u32>) -> Seq<
    PlayerLastPlayedGame,
>
    decreases entries.len(),
{
    if entries.len() == 0 {
        Seq::empty()
    } else {
        let before = announced(entries.drop_last(), controlled);
        let entry = entries.last();
        if is_controlled(controlled, entry.app_id) && game_of(entry) is Some {
            before.push(game_of(entry)->0)
        } else {
            before
        }
    }
}

fn announced_games(entries: &[CachedPlaytime], controlled: &[u32]) -> (games: Vec<
    PlayerLastPlayedGame,
>)
    ensures
        games@ == announced(entries@, controlled@),
{
    let mut games: Vec<PlayerLastPlayedGame> = Vec::new();
    let mut i: usize = 0;
    assert(entries@.take(0) =~= Seq::empty());
    while i < entries.len()
        invariant
            i <= entries@.len(),
            games@ == announced(entries@.take(i as int), controlled@),
        decreases entries@.len() - i,
    {
        assert(entries@.take(i + 1).drop_last() =~= entries@.take(i as int));
        if requires_backend_playtime(controlled, entries[i].app_id) {
            if let Some(game) = steam_game(entries[i]) {
                games.push(game);
            }
        }
        i = i + 1;
    }
    assert(entries@.take(i as int) =~= entries@);
    games
}

/// What a streamed state does to the cache, and what it announces: an outdated one nothing,
/// any other is held, and its changes for the controlled apps are announced.
pub open spec fn is_applied(
    before: PlaytimeCache,
    after: PlaytimeCache,
    key: RuntimeKey,
    snapshot: AccountPlaytimeSnapshot,
    controlled: Seq<u32>,
    numbers: NotificationNumbers,
    packet: Option<PlaytimeNotification>,
) -> bool {
    if is_outdated(before, key, snapshot.playtime_revision) {
        packet is None && after == before
    } else {
        &&& after.holds(key, snapshot.playtime_revision, snapshot.playtime@)
        &&& exists|changed: Seq<CachedPlaytime>|
            {
                let games = announced(changed, controlled);
                &&& #[trigger] lists_changes(changed, after.games@, before.games@)
                &&& packet is Some <==> key.steam_id64 != 0 && games.len() > 0
                &&& packet is Some ==> packet->0.tells(numbers, key.steam_id64, games)
            }
    }
}

/// Stores a streamed state and announces what changed for the controlled apps.
pub fn apply_stream_snapshot(
    cache: &mut PlaytimeCache,
    key: RuntimeKey,
    snapshot: &AccountPlaytimeSnapshot,
    controlled: &[u32],
    numbers: NotificationNumbers,
) -> (packet: Option<PlaytimeNotification>)
    requires
        old(cache).wf(),
    ensures
        final(cache).wf(),
        is_applied(*old(cache), *final(cache), key, *snapshot, controlled@, numbers, packet),
{
    let steam_id64: u64 = key.steam_id64;
    match cache.store_backend_playtime(
        key,
        snapshot.playtime_revision,
        snapshot.playtime.as_slice(),
    ) {
        None => None,
        Some(changed) => {
            let games: Vec<PlayerLastPlayedGame> = announced_games(changed.as_slice(), controlled);
            if games.len() == 0 {
                return None;
            }
            build_notification_packet(numbers, steam_id64, games)
        },
    }
}

proof fn lemma_overlay_of_settled(
    games: Seq<PlayerLastPlayedGame>,
    controlled: Seq<u32>,
    backend: Map<u32, CachedPlaytime>,
)
    requires
        keyed_by_app(backend),
    ensures
        forall|i: int|
            0 <= i < overlay_all(games, controlled, backend).len() ==> overlay_one(
                #[trigger] overlay_all(games, controlled, backend)[i],
                controlled,
                backend,
            ) == seq![overlay_all(games, controlled, backend)[i]],
    decreases games.len(),
{
    if games.len() > 0 {
        lemma_overlay_of_settled(games.drop_last(), controlled, backend);
        let game = games.last();
        let one = overlay_one(game, controlled, backend);
        let before = overlay_all(games.drop_last(), controlled, backend);
        let all = overlay_all(games, controlled, backend);
        assert forall|i: int| 0 <= i < all.len() implies overlay_one(
            #[trigger] all[i],
            controlled,
            backend,
        ) == seq![all[i]] by {
            if i < before.len() {
                assert(all[i] == before[i]);
            } else {
                assert(all[i] == one[0]);
            }
        }
    }
}

/// A stored state is what is seen under its key, and nothing is seen under any other. From
/// then on only newer revisions are taken under that key.
pub proof fn law_stored_playtime_is_seen(
    cache: PlaytimeCache,
    key: RuntimeKey,
    revision: u64,
    entries: Seq<PlaytimeEntry>,
    current: Option<&RuntimeKey>,
    later: u64,
)
    requires
        cache.holds(key, revision, entries),
    ensures
        seen_under(cache, current) == if key_ref_view(current) == Some(key@) {
            Some(games_of(entries))
        } else {
            None
        },
        is_outdated(cache, key, later) <==> revision != 0 && 0 < later <= revision,
{
}

/// Once corrected, a message needs no further correction of its games.
pub proof fn law_overlay_settles(
    games: Seq<PlayerLastPlayedGame>,
    controlled: Seq<u32>,
    backend: Map<u32, CachedPlaytime>,
)
    requires
        keyed_by_app(backend),
    ensures
        !some_game_changes(overlay_all(games, controlled, backend), controlled, backend),
{
    lemma_overlay_of_settled(games, controlled, backend);
}

/// The games of apps that the backend does not speak for stay, in their order.
pub proof fn law_other_games_stay(
    games: Seq<PlayerLastPlayedGame>,
    controlled: Seq<u32>,
    backend: Map<u32, CachedPlaytime>,
)
    requires
        keyed_by_app(backend),
    ensures
        overlay_all(games, controlled, backend).filter(
            |game: PlayerLastPlayedGame| !game_is_controlled(game, controlled),
        ) == games.filter(|game: PlayerLastPlayedGame| !game_is_controlled(game, controlled)),
    decreases games.len(),
{
    let keep = |game: PlayerLastPlayedGame| !game_is_controlled(game, controlled);
    reveal(Seq::filter);
    if games.len() > 0 {
        law_other_games_stay(games.drop_last(), controlled, backend);
        let before = overlay_all(games.drop_last(), controlled, backend);
        let one = overlay_one(games.last(), controlled, backend);
        if one.len() == 0 {
            assert(before + one =~= before);
        } else {
            assert((before + one).drop_last() =~= before);
            assert((before + one).last() == one[0]);
        }
    }
}

/// Whatever the backend sends, the entries that are taken over stand under their own app
/// ids, and none under zero.
pub proof fn law_tables_are_keyed_by_app(entries: Seq<PlaytimeEntry>)
    ensures
        keyed_by_app(games_of(entries)),
        !games_of(entries).dom().contains(0),
    decreases entries.len(),
{
    if entries.len() > 0 {
        law_tables_are_keyed_by_app(entries.drop_last());
    }
}

/// Whether an entry counts: it names an app, and no time before the epoch.
pub open spec fn entry_counts(entry: PlaytimeEntry) -> bool {
    entry.app_id != 0 && match entry.last_played_at {
        Some(time) => time >= 0,
        None => true,
    }
}

/// Every app that some entry counts for is known, with the figures of its last such entry,
/// and no other app is.
pub proof fn law_counting_entries_are_known(entries: Seq<PlaytimeEntry>)
    ensures
        forall|app_id: u32| #[trigger]
            games_of(entries).dom().contains(app_id) <==> exists|i: int|
                0 <= i < entries.len() && (#[trigger] entries[i]).app_id == app_id && entry_counts(
                    entries[i],
                ),
        forall|i: int|
            #![trigger entries[i]]
            0 <= i < entries.len() && entry_counts(entries[i]) && (forall|k: int|
                i < k < entries.len() && (#[trigger] entries[k]).app_id == entries[i].app_id
                    ==> !entry_counts(entries[k])) ==> {
                let known = games_of(entries)[entries[i].app_id];
                &&& known.app_id == entries[i].app_id
                &&& known.playtime_minutes == entries[i].playtime_minutes
                &&& known.playtime_2weeks_minutes == entries[i].playtime_2weeks_minutes
                &&& known.last_played_at == entries[i].last_played_at
            },
    decreases entries.len(),
{
    if entries.len() > 0 {
        let before = entries.drop_last();
        let last = entries.len() - 1;
        law_counting_entries_are_known(before);
        assert forall|app_id: u32| #[trigger]
            games_of(entries).dom().contains(app_id) <==> exists|i: int|
                0 <= i < entries.len() && (#[trigger] entries[i]).app_id == app_id && entry_counts(
                    entries[i],
                ) by {
            if games_of(before).dom().contains(app_id) {
                let i = choose|i: int|
                    0 <= i < before.len() && (#[trigger] before[i]).app_id == app_id
                        && entry_counts(before[i]);
                assert(entries[i].app_id == app_id && entry_counts(entries[i]));
            }
            if exists|i: int|
                0 <= i < entries.len() && (#[trigger] entries[i]).app_id == app_id && entry_counts(
                    entries[i],
                ) {
                let i = choose|i: int|
                    0 <= i < entries.len() && (#[trigger] entries[i]).app_id == app_id
                        && entry_counts(entries[i]);
                if i < last {
                    assert(before[i].app_id == app_id && entry_counts(before[i]));
                }
            }
            assert(entries[last] == entries.last());
        }
        assert forall|i: int|
            #![trigger entries[i]]
            0 <= i < entries.len() && entry_counts(entries[i]) && (forall|k: int|
                i < k < entries.len() && (#[trigger] entries[k]).app_id == entries[i].app_id
                    ==> !entry_counts(entries[k])) implies {
            let known = games_of(entries)[entries[i].app_id];
            &&& known.app_id == entries[i].app_id
            &&& known.playtime_minutes == entries[i].playtime_minutes
            &&& known.playtime_2weeks_minutes == entries[i].playtime_2weeks_minutes
            &&& known.last_played_at == entries[i].last_played_at
        } by {
            if i < last {
                assert(before[i] == entries[i]);
                assert forall|k: int|
                    i < k < before.len() && (#[trigger] before[k]).app_id
                        == before[i].app_id implies !entry_counts(before[k]) by {
                    assert(before[k] == entries[k]);
                }
                assert(entries[last] == entries.last());
            }
        }
    }
}

/// A cache that stores a state keeps the figures of its entries: what is seen under the key
/// is known exactly for the apps that an entry counts for.
pub proof fn law_seen_playtime_is_that_of_the_entries(
    cache: PlaytimeCache,
    key: RuntimeKey,
    revision: u64,
    entries: Seq<PlaytimeEntry>,
    current: &RuntimeKey,
    i: int,
)
    requires
        cache.holds(key, revision, entries),
        current@ == key@,
        0 <= i < entries.len(),
        entry_counts(entries[i]),
        forall|k: int|
            i < k < entries.len() && (#[trigger] entries[k]).app_id == entries[i].app_id
                ==> !entry_counts(entries[k]),
    ensures
        seen_under(cache, Some(current)) matches Some(known) && known.dom().contains(
            entries[i].app_id,
        ) && known[entries[i].app_id].playtime_minutes == entries[i].playtime_minutes
            && known[entries[i].app_id].playtime_2weeks_minutes
            == entries[i].playtime_2weeks_minutes && known[entries[i].app_id].last_played_at
            == entries[i].last_played_at,
{
    law_counting_entries_are_known(entries);
    assert(entries[i].app_id == entries[i].app_id);
}

/// Whether a game tells Steam an entry: its app, its minutes as far as a signed number goes,
/// its time where Steam can hold it, and nothing else.
pub open spec fn tells_entry(game: PlayerLastPlayedGame, entry: CachedPlaytime) -> bool {
    &&& game.app_id matches Some(app_id) && app_id == entry.app_id
    &&& game.playtime_forever matches Some(minutes) && minutes == if entry.playtime_minutes
        > 0x7fff_ffff {
        0x7fff_ffff
    } else {
        entry.playtime_minutes as int
    }
    &&& game.playtime_2weeks matches Some(minutes) && minutes == if entry.playtime_2weeks_minutes
        > 0x7fff_ffff {
        0x7fff_ffff
    } else {
        entry.playtime_2weeks_minutes as int
    }
    &&& match entry.last_played_at {
        Some(time) => if 0 <= time <= 0xffff_ffff {
            game.last_playtime matches Some(told) && told == time
        } else {
            game.last_playtime is None
        },
        None => game.last_playtime is None,
    }
    &&& game.first_playtime is None
    &&& game.playtime_windows_forever is None
    &&& game.playtime_mac_forever is None
    &&& game.playtime_linux_forever is None
    &&& game.first_windows_playtime is None
    &&& game.first_mac_playtime is None
    &&& game.first_linux_playtime is None
    &&& game.last_windows_playtime is None
    &&& game.last_mac_playtime is None
    &&& game.last_linux_playtime is None
    &&& game.playtime_disconnected is None
    &&& game.playtime_deck_forever is None
    &&& game.first_deck_playtime is None
    &&& game.last_deck_playtime is None
}

/// Every entry whose app Steam can name is told in full; no other is told.
pub proof fn law_entries_are_told_in_full(entry: CachedPlaytime, game: Option<PlayerLastPlayedGame>)
    requires
        call_ensures(steam_game, (entry,), game),
    ensures
        game is Some <==> entry.app_id <= 0x7fff_ffff,
        game matches Some(told) ==> tells_entry(told, entry),
{
}

/// The rows of a message that survive a correction: those of apps that are not controlled,
/// and those of controlled apps that the backend knows.
pub open spec fn surviving(
    games: Seq<PlayerLastPlayedGame>,
    controlled: Seq<u32>,
    backend: Map<u32, CachedPlaytime>,
) -> Seq<PlayerLastPlayedGame> {
    games.filter(
        |game: PlayerLastPlayedGame|
            match game.app_id {
                Some(id) => id <= 0 || !controlled.contains(id as u32) || backend.dom().contains(
                    id as u32,
                ),
                None => true,
            },
    )
}

/// Whether a row is about a controlled app.
pub open spec fn row_is_controlled(game: PlayerLastPlayedGame, controlled: Seq<u32>) -> bool {
    game.app_id matches Some(id) && id > 0 && controlled.contains(id as u32)
}

proof fn lemma_overlay_rows(
    games: Seq<PlayerLastPlayedGame>,
    controlled: Seq<u32>,
    backend: Map<u32, CachedPlaytime>,
)
    requires
        keyed_by_app(backend),
    ensures
        overlay_all(games, controlled, backend).len() == surviving(games, controlled, backend).len(),
        forall|i: int|
            0 <= i < surviving(games, controlled, backend).len() ==> ({
                let row = #[trigger] surviving(games, controlled, backend)[i];
                let told = overlay_all(games, controlled, backend)[i];
                if row_is_controlled(row, controlled) {
                    backend.dom().contains(row.app_id->0 as u32) && tells_entry(
                        told,
                        backend[row.app_id->0 as u32],
                    )
                } else {
                    told == row
                }
            }),
    decreases games.len(),
{
    reveal(Seq::filter);
    if games.len() > 0 {
        let before = games.drop_last();
        lemma_overlay_rows(before, controlled, backend);
        let rows = surviving(before, controlled, backend);
        let all = surviving(games, controlled, backend);
        let told = overlay_all(games, controlled, backend);
        let one = overlay_one(games.last(), controlled, backend);
        assert forall|i: int| 0 <= i < rows.len() implies all[i] == rows[i] && told[i]
            == overlay_all(before, controlled, backend)[i] by {}
        if one.len() > 0 {
            assert(told[rows.len() as int] == one[0]);
        }
    }
}

/// A corrected message says what the backend says, row by row. Rows of other apps stay as
/// they are, rows of controlled apps tell the backend's entry, and rows of controlled apps
/// that the backend does not know are gone; all in their order. Where missing apps are
/// appended, every controlled app of the backend is told behind them, each once, by ascending
/// app id.
pub proof fn law_corrected_messages_tell_the_backend(
    games: &[PlayerLastPlayedGame],
    controlled: &[u32],
    view: &PlaytimeView,
    append_missing: bool,
    rewritten: Option<Vec<PlayerLastPlayedGame>>,
)
    requires
        view.wf(),
        call_ensures(overlay_games, (games, controlled, view, append_missing), rewritten),
    ensures
        view is Cold ==> rewritten is None,
        (view matches PlaytimeView::Known(table) && rewritten matches Some(told)) ==> {
            let backend = view->Known_0@;
            let told = rewritten->0@;
            let rows = surviving(games@, controlled@, backend);
            &&& told.len() >= rows.len()
            &&& !append_missing ==> told.len() == rows.len()
            &&& forall|i: int|
                0 <= i < rows.len() ==> if row_is_controlled(#[trigger] rows[i], controlled@) {
                    backend.dom().contains(rows[i].app_id->0 as u32) && tells_entry(
                        told[i],
                        backend[rows[i].app_id->0 as u32],
                    )
                } else {
                    told[i] == rows[i]
                }
            &&& forall|i: int|
                rows.len() <= i < told.len() ==> {
                    &&& (#[trigger] told[i]).app_id is Some && told[i].app_id->0 > 0
                    &&& controlled@.contains(told[i].app_id->0 as u32)
                    &&& backend.dom().contains(told[i].app_id->0 as u32)
                    &&& tells_entry(told[i], backend[told[i].app_id->0 as u32])
                    &&& forall|k: int|
                        0 <= k < games@.len() ==> (#[trigger] games@[k]).app_id != told[i].app_id
                }
            &&& forall|i: int, j: int|
                rows.len() <= i < j < told.len() ==> (#[trigger] told[i]).app_id->0 < (
                #[trigger] told[j]).app_id->0
            &&& forall|app_id: u32|
                append_missing && app_id != 0 && #[trigger] backend.dom().contains(app_id)
                    && controlled@.contains(app_id) ==> exists|i: int|
                    0 <= i < told.len() && (#[trigger] told[i]).app_id == Some(app_id as i32)
        },
{
    if let PlaytimeView::Known(table) = *view {
        if let Some(out) = rewritten {
            let backend = table@;
            let told = out@;
            let rows = surviving(games@, controlled@, backend);
            let kept = overlay_all(games@, controlled@, backend);
            lemma_overlay_rows(games@, controlled@, backend);
            if append_missing {
                let to_game = |entry: CachedPlaytime| game_of(entry)->0;
                let tail = choose|tail: Seq<CachedPlaytime>|
                    {
                        &&& #[trigger] lists_missing(tail, games@, controlled@, backend)
                        &&& told == kept + tail.map_values(to_game)
                    };
                assert(lists_missing(tail, games@, controlled@, backend));
                assert(told =~= kept + tail.map_values(to_game));
                assert forall|k: int| 0 <= k < tail.len() implies (#[trigger] tail[k]).app_id
                    <= i32::MAX && tail[k].app_id != 0 by {
                    assert(is_missing(games@, controlled@, backend, tail[k].app_id));
                }
                assert forall|i: int| rows.len() <= i < told.len() implies {
                    &&& (#[trigger] told[i]).app_id is Some && told[i].app_id->0 > 0
                    &&& controlled@.contains(told[i].app_id->0 as u32)
                    &&& backend.dom().contains(told[i].app_id->0 as u32)
                    &&& tells_entry(told[i], backend[told[i].app_id->0 as u32])
                    &&& forall|k: int|
                        0 <= k < games@.len() ==> (#[trigger] games@[k]).app_id != told[i].app_id
                } by {
                    let entry = tail[i - rows.len()];
                    assert(told[i] == to_game(entry));
                    assert(is_missing(games@, controlled@, backend, entry.app_id));
                    assert forall|k: int| 0 <= k < games@.len() implies (
                    #[trigger] games@[k]).app_id != told[i].app_id by {
                        if games@[k].app_id == told[i].app_id {
                            assert(named_app(games@[k]) == Some(entry.app_id));
                        }
                    }
                }
                assert forall|i: int, j: int| rows.len() <= i < j < told.len() implies (
                #[trigger] told[i]).app_id->0 < (#[trigger] told[j]).app_id->0 by {
                    let left = tail[i - rows.len()];
                    let right = tail[j - rows.len()];
                    assert(told[i] == to_game(left));
                    assert(told[j] == to_game(right));
                    assert(left.app_id < right.app_id);
                }
                assert forall|app_id: u32|
                    app_id != 0 && #[trigger] backend.dom().contains(app_id)
                        && controlled@.contains(app_id) implies exists|i: int|
                    0 <= i < told.len() && (#[trigger] told[i]).app_id == Some(app_id as i32) by {
                    if is_missing(games@, controlled@, backend, app_id) {
                        assert(has_app(tail, app_id));
                        let k = choose|k: int|
                            0 <= k < tail.len() && (#[trigger] tail[k]).app_id == app_id;
                        assert(told[rows.len() + k] == tail.map_values(to_game)[k]);
                        assert(told[rows.len() + k].app_id == Some(app_id as i32));
                    } else {
                        let k = choose|k: int|
                            0 <= k < games@.len() && named_app(#[trigger] games@[k]) == Some(
                                app_id,
                            );
                        lemma_named_row_survives(games@, controlled@, backend, k);
                        let i = choose|i: int|
                            0 <= i < rows.len() && #[trigger] rows[i] == games@[k];
                        assert(told[i] == kept[i]);
                        assert(row_is_controlled(rows[i], controlled@));
                        assert(told[i].app_id == Some(app_id as i32));
                    }
                }
            } else {
                assert(told == kept);
            }
        }
    }
}

proof fn lemma_named_row_survives(
    games: Seq<PlayerLastPlayedGame>,
    controlled: Seq<u32>,
    backend: Map<u32, CachedPlaytime>,
    k: int,
)
    requires
        0 <= k < games.len(),
        named_app(games[k]) is Some,
        backend.dom().contains(named_app(games[k])->0),
    ensures
        exists|i: int|
            0 <= i < surviving(games, controlled, backend).len() && #[trigger] surviving(
                games,
                controlled,
                backend,
            )[i] == games[k],
    decreases games.len(),
{
    reveal(Seq::filter);
    let all = surviving(games, controlled, backend);
    let rows = surviving(games.drop_last(), controlled, backend);
    if k < games.len() - 1 {
        lemma_named_row_survives(games.drop_last(), controlled, backend, k);
        let i = choose|i: int| 0 <= i < rows.len() && #[trigger] rows[i] == games[k];
        assert(all[i] == rows[i]);
    } else {
        assert(all[rows.len() as int] == games[k]);
    }
}

/// A message that stands as it is needs no correction: each row of a controlled app tells
/// the backend's entry already, and where missing apps would be appended and Steam can name
/// them all, none is missing.
pub proof fn law_standing_messages_are_right(
    games: &[PlayerLastPlayedGame],
    controlled: &[u32],
    view: &PlaytimeView,
    append_missing: bool,
)
    requires
        view.wf(),
        view is Known,
        call_ensures(
            overlay_games,
            (games, controlled, view, append_missing),
            None::<Vec<PlayerLastPlayedGame>>,
        ),
        forall|app_id: u32| #[trigger]
            view->Known_0@.dom().contains(app_id) && controlled@.contains(app_id) ==> app_id
                <= 0x7fff_ffff,
    ensures
        forall|k: int|
            0 <= k < games@.len() && row_is_controlled(#[trigger] games@[k], controlled@) ==> {
                let app_id = games@[k].app_id->0 as u32;
                view->Known_0@.dom().contains(app_id) && tells_entry(
                    games@[k],
                    view->Known_0@[app_id],
                )
            },
        forall|app_id: u32|
            append_missing && app_id != 0 && #[trigger] view->Known_0@.dom().contains(app_id)
                && controlled@.contains(app_id) ==> exists|k: int|
                0 <= k < games@.len() && (#[trigger] games@[k]).app_id == Some(app_id as i32),
{
    let backend = view->Known_0@;
    assert(!(append_missing && some_missing_app_is_unfit(games@, controlled@, backend)));
    assert forall|k: int|
        0 <= k < games@.len() && row_is_controlled(#[trigger] games@[k], controlled@) implies {
        let app_id = games@[k].app_id->0 as u32;
        backend.dom().contains(app_id) && tells_entry(games@[k], backend[app_id])
    } by {
        let one = overlay_one(games@[k], controlled@, backend);
        assert(one == seq![games@[k]]);
        assert(one[0] == games@[k]);
    }
    assert forall|app_id: u32|
        append_missing && app_id != 0 && #[trigger] backend.dom().contains(app_id)
            && controlled@.contains(app_id) implies exists|k: int|
        0 <= k < games@.len() && (#[trigger] games@[k]).app_id == Some(app_id as i32) by {
        assert(!is_missing(games@, controlled@, backend, app_id));
        let k = choose|k: int|
            0 <= k < games@.len() && named_app(#[trigger] games@[k]) == Some(app_id);
        assert(games@[k].app_id == Some(app_id as i32));
    }
}

proof fn lemma_announced(entries: Seq<CachedPlaytime>, controlled: Seq<u32>)
    ensures
        forall|i: int|
            0 <= i < announced(entries, controlled).len() ==> exists|k: int|
                0 <= k < entries.len() && controlled.contains((#[trigger] entries[k]).app_id)
                    && tells_entry(#[trigger] announced(entries, controlled)[i], entries[k]),
        forall|k: int|
            0 <= k < entries.len() && (#[trigger] entries[k]).app_id != 0 && entries[k].app_id
                <= 0x7fff_ffff && controlled.contains(entries[k].app_id) ==> exists|i: int|
                0 <= i < announced(entries, controlled).len() && tells_entry(
                    #[trigger] announced(entries, controlled)[i],
                    entries[k],
                ),
    decreases entries.len(),
{
    if entries.len() > 0 {
        let before = entries.drop_last();
        let last = entries.last();
        lemma_announced(before, controlled);
        let games = announced(before, controlled);
        let all = announced(entries, controlled);
        assert forall|i: int| 0 <= i < games.len() implies all[i] == games[i] by {}
        assert forall|i: int| 0 <= i < all.len() implies exists|k: int|
            0 <= k < entries.len() && controlled.contains((#[trigger] entries[k]).app_id)
                && tells_entry(#[trigger] all[i], entries[k]) by {
            if i < games.len() {
                assert(all[i] == games[i]);
                let k = choose|k: int|
                    0 <= k < before.len() && controlled.contains((#[trigger] before[k]).app_id)
                        && tells_entry(games[i], before[k]);
                assert(entries[k] == before[k]);
            } else {
                assert(entries[entries.len() - 1] == last);
            }
        }
        assert forall|k: int|
            0 <= k < entries.len() && (#[trigger] entries[k]).app_id != 0 && entries[k].app_id
                <= 0x7fff_ffff && controlled.contains(entries[k].app_id) implies exists|i: int|
            0 <= i < all.len() && tells_entry(#[trigger] all[i], entries[k]) by {
            if k < before.len() {
                assert(entries[k] == before[k]);
                let i = choose|i: int|
                    0 <= i < games.len() && tells_entry(#[trigger] games[i], before[k]);
                assert(all[i] == games[i]);
            } else {
                assert(tells_entry(all[games.len() as int], last));
            }
        }
    }
}

/// Whether a game tells the entry of a controlled app that is new or differs from before.
pub open spec fn tells_a_change(
    game: PlayerLastPlayedGame,
    controlled: Seq<u32>,
    before: Map<u32, CachedPlaytime>,
    after: Map<u32, CachedPlaytime>,
) -> bool {
    exists|app_id: u32|
        controlled.contains(app_id) && #[trigger] after.dom().contains(app_id) && tells_entry(
            game,
            after[app_id],
        ) && !(before.dom().contains(app_id) && before[app_id] == after[app_id])
}

/// What a streamed state changes is announced: every controlled app that Steam can name and
/// whose figures are new or differ is told in the notification, with the figures that are
/// held from then on, and nothing is told whose figures are the same as before. There is a
/// notification exactly where there is something to tell and an account to tell.
#[verifier::rlimit(50)]
pub proof fn law_changes_are_announced(
    before: PlaytimeCache,
    after: PlaytimeCache,
    key: RuntimeKey,
    snapshot: AccountPlaytimeSnapshot,
    controlled: Seq<u32>,
    numbers: NotificationNumbers,
    packet: Option<PlaytimeNotification>,
)
    requires
        is_applied(before, after, key, snapshot, controlled, numbers, packet),
        key.steam_id64 != 0,
        before.key is None || before.revision < snapshot.playtime_revision,
    ensures
        after.revision == snapshot.playtime_revision,
        key_view(after.key) == Some(key@),
        after.games@ == games_of(snapshot.playtime@),
        forall|app_id: u32|
            app_id != 0 && app_id <= 0x7fff_ffff && controlled.contains(app_id)
                && #[trigger] after.games@.dom().contains(app_id) && !(
            before.games@.dom().contains(app_id) && before.games@[app_id] == after.games@[app_id])
                ==> packet is Some && exists|i: int|
                0 <= i < packet->0.games@.len() && tells_entry(
                    #[trigger] packet->0.games@[i],
                    after.games@[app_id],
                ),
        packet matches Some(notification) ==> {
            &&& notification.steam_id64 == key.steam_id64
            &&& notification.games@.len() > 0
            &&& forall|i: int|
                0 <= i < notification.games@.len() ==> tells_a_change(
                    #[trigger] notification.games@[i],
                    controlled,
                    before.games@,
                    after.games@,
                )
        },
{
    let changed = choose|changed: Seq<CachedPlaytime>|
        {
            let games = announced(changed, controlled);
            &&& #[trigger] lists_changes(changed, after.games@, before.games@)
            &&& packet is Some <==> key.steam_id64 != 0 && games.len() > 0
            &&& packet is Some ==> packet->0.tells(numbers, key.steam_id64, games)
        };
    let games = announced(changed, controlled);
    lemma_announced(changed, controlled);
    assert forall|app_id: u32|
        app_id != 0 && app_id <= 0x7fff_ffff && controlled.contains(app_id)
            && #[trigger] after.games@.dom().contains(app_id) && !(before.games@.dom().contains(
            app_id,
        ) && before.games@[app_id] == after.games@[app_id]) implies packet is Some && exists|i: int|
        0 <= i < packet->0.games@.len() && tells_entry(
            #[trigger] packet->0.games@[i],
            after.games@[app_id],
        ) by {
        assert(has_app(changed, app_id));
        let k = choose|k: int| 0 <= k < changed.len() && (#[trigger] changed[k]).app_id == app_id;
        let i = choose|i: int| 0 <= i < games.len() && tells_entry(#[trigger] games[i], changed[k]);
        assert(after.games@[app_id] == changed[k]);
        assert(packet->0.games@[i] == games[i]);
    }
    if let Some(notification) = packet {
        assert(notification.games@ == games);
        assert forall|i: int| 0 <= i < notification.games@.len() implies tells_a_change(
            #[trigger] notification.games@[i],
            controlled,
            before.games@,
            after.games@,
        ) by {
            assert(notification.games@[i] == games[i]);
            let k = choose|k: int|
                0 <= k < changed.len() && controlled.contains((#[trigger] changed[k]).app_id)
                    && tells_entry(games[i], changed[k]);
            let app_id = changed[k].app_id;
            assert(after.games@.contains_pair(app_id, changed[k]));
            assert(!before.games@.contains_pair(app_id, changed[k]));
            assert(after.games@.dom().contains(app_id));
        }
        assert(notification.steam_id64 == key.steam_id64);
    }
}

/// An app is listed exactly where what is held of it now was not held before, and it is listed
/// with what is held now.
pub proof fn law_exactly_the_changes_are_listed(
    changed: Seq<CachedPlaytime>,
    games: Map<u32, CachedPlaytime>,
    known: Map<u32, CachedPlaytime>,
    app_id: u32,
    i: int,
)
    requires
        lists_changes(changed, games, known),
    ensures
        has_app(changed, app_id) <==> games.contains_key(app_id) && !(known.contains_key(app_id)
            && known[app_id] == games[app_id]),
        0 <= i < changed.len() ==> games.contains_key(changed[i].app_id)
            && games[changed[i].app_id] == changed[i],
        0 <= i < changed.len() - 1 ==> changed[i].app_id < changed[i + 1].app_id,
{
    if has_app(changed, app_id) {
        let k = choose|k: int| 0 <= k < changed.len() && (#[trigger] changed[k]).app_id == app_id;
        assert(games.contains_pair(changed[k].app_id, changed[k]));
        assert(!known.contains_pair(changed[k].app_id, changed[k]));
    }
    if games.contains_key(app_id) {
        assert(games.dom().contains(app_id));
    }
    if 0 <= i < changed.len() {
        assert(games.contains_pair(changed[i].app_id, changed[i]));
    }
}

} // verus!
