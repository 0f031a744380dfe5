//! Steam's interfaces, bound to the account and the moment they were seen in.
use crate::maps::{is_mapped, is_readable, ReadableMapping};
use crate::text::{decimal, decimal_of, hex_of, hexadecimal, signed_decimal, signed_decimal_of};
use vstd::prelude::*;
use vstd::string::*;

verus! {

/// How many members of an owner are looked at.
pub const OWNER_INTERFACE_SLOTS: usize = 32;

/// Who is logged on, and for how many changes of account.
#[derive(Clone, Copy, Debug, PartialEq, Eq, Structural)]
pub struct Identity {
    pub generation: u64,
    pub steam_id: u64,
}

/// The interfaces of one owner. Zero stands for an interface that is not known.
#[derive(Clone, Copy, Debug, PartialEq, Eq, Structural)]
pub struct ContextValues {
    pub owner: usize,
    pub user: usize,
    pub stats: usize,
    pub config_store: usize,
    pub steam_user: i32,
    pub identity_generation: u64,
    pub steam_id64: u64,
}

/// Nothing is known.
pub open spec fn no_context() -> ContextValues {
    ContextValues {
        owner: 0,
        user: 0,
        stats: 0,
        config_store: 0,
        steam_user: 0,
        identity_generation: 0,
        steam_id64: 0,
    }
}

impl Default for ContextValues {
    fn default() -> (values: Self)
        ensures
            values == no_context(),
    {
        ContextValues {
            owner: 0,
            user: 0,
            stats: 0,
            config_store: 0,
            steam_user: 0,
            identity_generation: 0,
            steam_id64: 0,
        }
    }
}

/// Interfaces that were captured at one revision.
#[derive(Clone, Copy, Debug, PartialEq, Eq, Structural)]
pub struct CapturedInterfaces {
    pub revision: u64,
    pub values: ContextValues,
}

/// Why a call through captured interfaces was refused.
#[derive(Clone, Copy, Debug, PartialEq, Eq, Structural)]
pub struct ContextChanged;

/// What a look at Steam's interfaces asks of the rest.
#[derive(Clone, Copy, Debug, PartialEq, Eq, Structural)]
pub struct ContextEffects {
    /// The capture of a client id is cancelled.
    pub cancel_client_id: bool,
    /// The calls of the account are cleared.
    pub clear_account: bool,
    /// Whoever waits for a callback is notified.
    pub notify: bool,
    /// This user is observed.
    pub observe_user: Option<i32>,
}

impl ContextEffects {
    /// Nothing follows.
    pub open spec fn nothing() -> ContextEffects {
        ContextEffects {
            cancel_client_id: false,
            clear_account: false,
            notify: false,
            observe_user: None,
        }
    }

    pub fn none() -> (effects: Self)
        ensures
            effects == ContextEffects::nothing(),
    {
        ContextEffects {
            cancel_client_id: false,
            clear_account: false,
            notify: false,
            observe_user: None,
        }
    }
}

/// What is known of Steam's interfaces. The revision grows by two with every change.
#[derive(Clone, Copy, Debug, PartialEq, Eq, Structural)]
pub struct SteamContext {
    pub revision: u64,
    pub values: ContextValues,
    pub packet_identity: Option<Identity>,
}

impl SteamContext {
    /// The context after an update of its values.
    pub open spec fn updated(self, values: ContextValues) -> SteamContext {
        if values == self.values {
            self
        } else {
            SteamContext { revision: self.revision.wrapping_add(2), values, ..self }
        }
    }

    /// Whether the values belong to the account.
    pub open spec fn belongs_to(values: ContextValues, identity: Identity) -> bool {
        values.identity_generation == identity.generation && values.steam_id64 == identity.steam_id
    }

    /// Whether all interfaces of an account are known.
    pub open spec fn is_complete(self, identity: Identity) -> bool {
        let values = self.values;
        values.owner != 0 && values.user != 0 && values.stats != 0 && values.config_store != 0
            && values.steam_user != 0 && values.steam_id64 != 0 && Self::belongs_to(
            values,
            identity,
        )
    }

    /// Whether captured interfaces are those of now and of the account.
    pub open spec fn matches_capture(self, captured: CapturedInterfaces, identity: Identity) -> bool {
        captured.revision == self.revision && Self::belongs_to(captured.values, identity)
            && captured.values.owner == self.values.owner && captured.values.user
            == self.values.user && captured.values.stats == self.values.stats
            && captured.values.config_store == self.values.config_store
            && captured.values.steam_user == self.values.steam_user
    }

    /// The values once an account was seen on the user interface.
    pub open spec fn with_identity(
        self,
        user: usize,
        steam_id64: u64,
        is_individual: bool,
        identity: Identity,
    ) -> ContextValues {
        if user == 0 || steam_id64 == 0 || !is_individual || user != self.values.user
            || self.values.owner == 0 || identity.generation == 0 {
            self.values
        } else {
            ContextValues { identity_generation: identity.generation, steam_id64, ..self.values }
        }
    }

    pub fn new() -> (context: Self)
        ensures
            context == (SteamContext { revision: 0, values: no_context(), packet_identity: None }),
    {
        SteamContext { revision: 0, values: ContextValues::default(), packet_identity: None }
    }

    fn write_context(&mut self, values: ContextValues) -> (changed: bool)
        ensures
            changed == (values != old(self).values),
            *final(self) == old(self).updated(values),
    {
        if values == self.values {
            return false;
        }
        self.values = values;
        self.revision = self.revision.wrapping_add(2);
        true
    }

    /// An account was seen on a user interface; only that of the current owner counts. News
    /// are notified.
    pub fn observe_user_interface(
        &mut self,
        user: usize,
        steam_id64: u64,
        is_individual: bool,
        identity: Identity,
    ) -> (effects: ContextEffects)
        ensures
            effects == (ContextEffects {
                notify: old(self).with_identity(user, steam_id64, is_individual, identity) != old(
                    self,
                ).values,
                ..ContextEffects::nothing()
            }),
            *final(self) == old(self).updated(
                old(self).with_identity(user, steam_id64, is_individual, identity),
            ),
    {
        if user == 0 || steam_id64 == 0 || !is_individual || user != self.values.user
            || self.values.owner == 0 || identity.generation == 0 {
            return ContextEffects::none();
        }
        let mut values: ContextValues = self.values;
        values.identity_generation = identity.generation;
        values.steam_id64 = steam_id64;
        let changed: bool = self.write_context(values);
        ContextEffects {
            cancel_client_id: false,
            clear_account: false,
            notify: changed,
            observe_user: None,
        }
    }

    /// An account was seen in a packet; it is remembered if it is the one logged on.
    pub fn observe_packet_identity(
        &mut self,
        steam_id64: u64,
        is_individual: bool,
        identity: Identity,
    ) -> (effects: ContextEffects)
        ensures
            (!is_individual || identity.steam_id != steam_id64) ==> effects
                == ContextEffects::nothing() && *final(self) == *old(self),
            is_individual && identity.steam_id == steam_id64 ==> {
                let values = old(self).with_identity(old(self).values.user, steam_id64, true, identity);
                &&& effects == (ContextEffects {
                    notify: values != old(self).values,
                    ..ContextEffects::nothing()
                })
                &&& final(self).packet_identity == Some(identity)
                &&& final(self).values == values
                &&& final(self).revision == old(self).updated(values).revision
            },
    {
        if !is_individual || identity.steam_id != steam_id64 {
            return ContextEffects::none();
        }
        self.packet_identity = Some(identity);
        let user: usize = self.values.user;
        self.observe_user_interface(user, steam_id64, is_individual, identity)
    }

    /// The interfaces of the account, if all are known.
    pub fn capture(&self, identity: Identity) -> (captured: Option<CapturedInterfaces>)
        ensures
            captured == if self.is_complete(identity) {
                Some(CapturedInterfaces { revision: self.revision, values: self.values })
            } else {
                None
            },
    {
        let values: ContextValues = self.values;
        if values.owner == 0 || values.user == 0 || values.stats == 0 || values.config_store == 0
            || values.steam_user == 0 || values.steam_id64 == 0 || values.identity_generation
            != identity.generation || values.steam_id64 != identity.steam_id {
            return None;
        }
        Some(CapturedInterfaces { revision: self.revision, values })
    }

    pub fn is_current(&self, captured: &CapturedInterfaces, identity: Identity) -> (current: bool)
        ensures
            current == self.matches_capture(*captured, identity),
    {
        captured.revision == self.revision && captured.values.identity_generation
            == identity.generation && captured.values.steam_id64 == identity.steam_id
            && captured.values.owner == self.values.owner && captured.values.user
            == self.values.user && captured.values.stats == self.values.stats
            && captured.values.config_store == self.values.config_store
            && captured.values.steam_user == self.values.steam_user
    }

    /// Whether a configuration store is still that of a revision and of the account.
    pub fn config_store_is_current(
        &self,
        revision: u64,
        config_store: usize,
        identity: Identity,
    ) -> (current: bool)
        ensures
            current == (revision != 0 && revision == self.revision && config_store
                == self.values.config_store && Self::belongs_to(self.values, identity)),
    {
        revision != 0 && revision == self.revision && config_store == self.values.config_store
            && self.values.identity_generation == identity.generation && self.values.steam_id64
            == identity.steam_id
    }

    /// Whether a callback for a user belongs to the account that is logged on.
    pub open spec fn answers_for(self, steam_user: i32, identity: Identity) -> bool {
        steam_user != 0 && steam_user == self.values.steam_user && self.values.identity_generation
            != 0 && self.values.steam_id64 != 0 && Self::belongs_to(self.values, identity)
    }

    /// The account that a callback for a user belongs to.
    pub fn callback_identity(&self, steam_user: i32, identity: Identity) -> (found: Option<Identity>)
        ensures
            found == if self.answers_for(steam_user, identity) {
                Some(identity)
            } else {
                None
            },
    {
        if steam_user == 0 || steam_user != self.values.steam_user
            || self.values.identity_generation == 0 || self.values.steam_id64 == 0
            || self.values.identity_generation != identity.generation || self.values.steam_id64
            != identity.steam_id {
            return None;
        }
        Some(identity)
    }

    /// Checks captured interfaces before or after a call through them.
    pub fn checked_call(&self, captured: &CapturedInterfaces, identity: Identity) -> (verdict: Result<
        (),
        ContextChanged,
    >)
        ensures
            verdict is Ok <==> self.matches_capture(*captured, identity),
    {
        if self.is_current(captured, identity) {
            Ok(())
        } else {
            Err(ContextChanged)
        }
    }

    /// Whether anything of an account is known.
    pub open spec fn knows_account(self) -> bool {
        self.values.identity_generation != 0 || self.values.steam_id64 != 0
    }

    /// Forgets the account. The capture of a client id is cancelled in any case, and the
    /// account's calls are cleared if it was known.
    pub fn invalidate_identity(&mut self) -> (effects: ContextEffects)
        ensures
            effects == (ContextEffects {
                cancel_client_id: true,
                clear_account: old(self).knows_account(),
                ..ContextEffects::nothing()
            }),
            final(self).packet_identity is None,
            final(self).values == (ContextValues {
                identity_generation: 0,
                steam_id64: 0,
                ..old(self).values
            }),
            final(self).revision == if old(self).knows_account() {
                old(self).revision.wrapping_add(2)
            } else {
                old(self).revision
            },
    {
        self.packet_identity = None;
        let mut values: ContextValues = self.values;
        values.identity_generation = 0;
        values.steam_id64 = 0;
        let changed: bool = self.write_context(values);
        ContextEffects {
            cancel_client_id: true,
            clear_account: changed,
            notify: false,
            observe_user: None,
        }
    }

    /// The values of a new owner: its account is the one of the last packet, if that is
    /// still logged on.
    pub open spec fn owner_values(
        self,
        owner: usize,
        steam_user: i32,
        members: OwnerMembers,
        identity: Identity,
    ) -> ContextValues {
        let known = self.packet_identity == Some(identity);
        ContextValues {
            owner,
            user: members.user,
            stats: members.stats,
            config_store: members.config_store,
            steam_user,
            identity_generation: if known {
                identity.generation
            } else {
                0
            },
            steam_id64: if known {
                identity.steam_id
            } else {
                0
            },
        }
    }

    /// Takes over an owner whose members are all different, and observes its user. Where the
    /// context changed by it, the capture of a client id is cancelled and the account's calls
    /// are cleared.
    pub fn observe_owner(
        &mut self,
        owner: usize,
        steam_user: i32,
        members: Option<OwnerMembers>,
        identity: Identity,
    ) -> (effects: ContextEffects)
        ensures
            ({
                let taken_over = owner != 0 && steam_user != 0 && members is Some
                    && members->0.are_distinct();
                let values = old(self).owner_values(owner, steam_user, members->0, identity);
                let news = values != old(self).values;
                if taken_over {
                    &&& *final(self) == old(self).updated(values)
                    &&& effects == (ContextEffects {
                        cancel_client_id: news,
                        clear_account: news,
                        notify: false,
                        observe_user: Some(steam_user),
                    })
                } else {
                    &&& *final(self) == *old(self)
                    &&& effects == ContextEffects::nothing()
                }
            }),
    {
        if owner == 0 || steam_user == 0 {
            return ContextEffects::none();
        }
        let members: OwnerMembers = match members {
            Some(members) => members,
            None => {
                return ContextEffects::none();
            },
        };
        if members.user == members.stats || members.user == members.config_store || members.stats
            == members.config_store {
            return ContextEffects::none();
        }
        let known: bool = match self.packet_identity {
            Some(seen) => seen.generation == identity.generation && seen.steam_id
                == identity.steam_id,
            None => false,
        };
        let values: ContextValues = ContextValues {
            owner,
            user: members.user,
            stats: members.stats,
            config_store: members.config_store,
            steam_user,
            identity_generation: if known {
                identity.generation
            } else {
                0
            },
            steam_id64: if known {
                identity.steam_id
            } else {
                0
            },
        };
        let changed: bool = self.write_context(values);
        ContextEffects {
            cancel_client_id: changed,
            clear_account: changed,
            notify: false,
            observe_user: Some(steam_user),
        }
    }

    /// Forgets an owner that goes away; the capture of a client id is cancelled and the
    /// account's calls are cleared with it.
    pub fn invalidate_owner(&mut self, owner: usize) -> (effects: ContextEffects)
        ensures
            ({
                let forgotten = owner != 0 && owner == old(self).values.owner;
                &&& effects == (ContextEffects {
                    cancel_client_id: forgotten,
                    clear_account: forgotten,
                    ..ContextEffects::nothing()
                })
                &&& *final(self) == if forgotten {
                    old(self).updated(no_context())
                } else {
                    *old(self)
                }
            }),
    {
        if owner == 0 || owner != self.values.owner {
            return ContextEffects::none();
        }
        let changed: bool = self.write_context(ContextValues::default());
        ContextEffects {
            cancel_client_id: changed,
            clear_account: changed,
            notify: false,
            observe_user: None,
        }
    }

    /// A line about the context.
    pub fn diagnostic_status(&self) -> (line: String)
        ensures
            line@ == status_line(*self),
    {
        let mut line: String = "context_revision=".to_owned();
        line.append(decimal(self.revision).as_str());
        line.append(" steam_user=");
        line.append(signed_decimal(self.values.steam_user as i64).as_str());
        line.append(" owner=0x");
        line.append(hexadecimal(self.values.owner as u64).as_str());
        line.append(" user_ptr=0x");
        line.append(hexadecimal(self.values.user as u64).as_str());
        line.append(" stats_ptr=0x");
        line.append(hexadecimal(self.values.stats as u64).as_str());
        line.append(" config_store_ptr=0x");
        line.append(hexadecimal(self.values.config_store as u64).as_str());
        line
    }
}

/// The line about a context.
pub open spec fn status_line(context: SteamContext) -> Seq<char> {
    "context_revision="@ + decimal_of(context.revision as nat) + " steam_user="@
        + signed_decimal_of(context.values.steam_user as int) + " owner=0x"@ + hex_of(
        context.values.owner as nat,
    ) + " user_ptr=0x"@ + hex_of(context.values.user as nat) + " stats_ptr=0x"@ + hex_of(
        context.values.stats as nat,
    ) + " config_store_ptr=0x"@ + hex_of(context.values.config_store as nat)
}

/// Captured interfaces are good until the context changes: a change makes every capture that
/// was current stale, for whatever account.
pub proof fn law_changes_make_captures_stale(
    context: SteamContext,
    captured: CapturedInterfaces,
    values: ContextValues,
    before: Identity,
    after: Identity,
)
    requires
        context.matches_capture(captured, before),
        values != context.values,
    ensures
        !context.updated(values).matches_capture(captured, after),
{
}

/// A capture is current as long as neither the context nor the account changes.
pub proof fn law_captures_are_current_at_first(context: SteamContext, identity: Identity)
    requires
        context.is_complete(identity),
    ensures
        context.matches_capture(
            CapturedInterfaces { revision: context.revision, values: context.values },
            identity,
        ),
{
}

/// The interfaces that an owner holds.
#[derive(Clone, Copy, Debug, PartialEq, Eq, Structural)]
pub struct OwnerMembers {
    pub user: usize,
    pub stats: usize,
    pub config_store: usize,
}

impl OwnerMembers {
    pub open spec fn are_distinct(self) -> bool {
        self.user != self.stats && self.user != self.config_store && self.stats
            != self.config_store
    }
}

/// How deep the thread is in calls through captured interfaces.
#[derive(Clone, Copy, Debug, PartialEq, Eq, Structural)]
pub struct CheckedCallDepth {
    pub depth: u32,
}

impl CheckedCallDepth {
    pub fn enter(&mut self)
        ensures
            final(self).depth == if old(self).depth == u32::MAX {
                u32::MAX
            } else {
                (old(self).depth + 1) as u32
            },
    {
        if self.depth < u32::MAX {
            self.depth = self.depth + 1;
        }
    }

    pub fn leave(&mut self)
        ensures
            final(self).depth == if old(self).depth == 0 {
                0
            } else {
                (old(self).depth - 1) as u32
            },
    {
        if self.depth > 0 {
            self.depth = self.depth - 1;
        }
    }

    pub fn checked_call_active(&self) -> (active: bool)
        ensures
            active == (self.depth != 0),
    {
        self.depth != 0
    }
}

/// What the members of an owner hold: the member itself, and the first word behind it.
pub struct OwnerImage {
    pub members: Vec<usize>,
    pub first_words: Vec<usize>,
}

/// Whether a member is an interface with that vtable.
pub open spec fn is_member(
    owner: int,
    vtable: usize,
    mappings: Seq<ReadableMapping>,
    image: OwnerImage,
    word: int,
    index: int,
) -> bool {
    let candidate = image.members@[index];
    is_mapped(owner + index * word, word, mappings) && candidate != 0 && is_mapped(
        candidate as int,
        word,
        mappings,
    ) && image.first_words@[index] == vtable
}

/// A member and where it lies in its owner.
#[derive(Clone, Copy, Debug, PartialEq, Eq, Structural)]
pub struct OwnerMember {
    pub offset: usize,
    pub member: usize,
}

/// The only interface of an owner with that vtable; two are as bad as none.
pub fn find_owner_member(
    owner: usize,
    vtable: usize,
    mappings: &Vec<ReadableMapping>,
    image: &OwnerImage,
    word: usize,
) -> (found: Option<OwnerMember>)
    requires
        word == 4 || word == 8,
        image.members@.len() == OWNER_INTERFACE_SLOTS,
        image.first_words@.len() == OWNER_INTERFACE_SLOTS,
    ensures
        found matches Some(place) ==> exists|index: int| {
            &&& 0 <= index < OWNER_INTERFACE_SLOTS
            &&& #[trigger] is_member(owner as int, vtable, mappings@, *image, word as int, index)
            &&& place.offset == index * word
            &&& place.member == image.members@[index]
            &&& forall|other: int|
                0 <= other < OWNER_INTERFACE_SLOTS && #[trigger] is_member(
                    owner as int,
                    vtable,
                    mappings@,
                    *image,
                    word as int,
                    other,
                ) ==> other == index
        },
        found is Some <==> owner + 31 * word <= usize::MAX && exists|index: int|
            0 <= index < OWNER_INTERFACE_SLOTS && #[trigger] is_member(
                owner as int,
                vtable,
                mappings@,
                *image,
                word as int,
                index,
            ) && forall|other: int|
                0 <= other < OWNER_INTERFACE_SLOTS && #[trigger] is_member(
                    owner as int,
                    vtable,
                    mappings@,
                    *image,
                    word as int,
                    other,
                ) ==> other == index,
{
    if owner > usize::MAX - 31 * word {
        return None;
    }
    let mut found: Option<OwnerMember> = None;
    let ghost mut place: int = -1;
    let mut index: usize = 0;
    while index < OWNER_INTERFACE_SLOTS
        invariant
            index <= OWNER_INTERFACE_SLOTS,
            word == 4 || word == 8,
            owner + 31 * word <= usize::MAX,
            image.members@.len() == OWNER_INTERFACE_SLOTS,
            image.first_words@.len() == OWNER_INTERFACE_SLOTS,
            found is None ==> forall|k: int|
                0 <= k < index ==> !#[trigger] is_member(
                    owner as int,
                    vtable,
                    mappings@,
                    *image,
                    word as int,
                    k,
                ),
            found is Some ==> {
                &&& 0 <= place < index
                &&& is_member(owner as int, vtable, mappings@, *image, word as int, place)
                &&& found->0.offset == place * word
                &&& found->0.member == image.members@[place]
                &&& forall|k: int|
                    0 <= k < index && #[trigger] is_member(
                        owner as int,
                        vtable,
                        mappings@,
                        *image,
                        word as int,
                        k,
                    ) ==> k == place
            },
        decreases OWNER_INTERFACE_SLOTS - index,
    {
        assert(index * word <= 31 * word) by (nonlinear_arith)
            requires
                index <= 31,
                0 <= word,
        ;
        let offset: usize = index * word;
        let slot: usize = owner + offset;
        let candidate: usize = image.members[index];
        if is_readable(slot, word, mappings) && candidate != 0 && is_readable(
            candidate,
            word,
            mappings,
        ) && image.first_words[index] == vtable {
            assert(is_member(
                owner as int,
                vtable,
                mappings@,
                *image,
                word as int,
                index as int,
            ));
            if found.is_some() {
                assert(is_member(owner as int, vtable, mappings@, *image, word as int, place));
                return None;
            }
            found = Some(OwnerMember { offset, member: candidate });
            proof {
                place = index as int;
            }
        }
        index = index + 1;
    }
    found
}

/// A change counts once: the revision moves by two exactly where a value differs, and what was
/// seen in packets stays.
pub proof fn law_revisions_count_changes(context: SteamContext, values: ContextValues)
    ensures
        context.updated(values).values == values,
        context.updated(values).packet_identity == context.packet_identity,
        values == context.values ==> context.updated(values).revision == context.revision,
        values != context.values ==> context.updated(values).revision
            == context.revision.wrapping_add(2),
{
}

/// An account is bound to the context exactly where it was seen on the user interface of the
/// known owner, is an individual's and somebody is logged on; the interfaces stay as they are.
pub proof fn law_accounts_bind_to_the_user_interface(
    context: SteamContext,
    user: usize,
    steam_id64: u64,
    is_individual: bool,
    identity: Identity,
)
    ensures
        ({
            let values = context.with_identity(user, steam_id64, is_individual, identity);
            let bound = user != 0 && user == context.values.user && context.values.owner != 0
                && steam_id64 != 0 && is_individual && identity.generation != 0;
            &&& bound ==> values.steam_id64 == steam_id64 && values.identity_generation
                == identity.generation
            &&& !bound ==> values == context.values
            &&& values.owner == context.values.owner && values.user == context.values.user
                && values.stats == context.values.stats && values.config_store
                == context.values.config_store && values.steam_user == context.values.steam_user
        }),
{
}

/// Interfaces are captured exactly where all of them, the user and the account are known and
/// the account is the one logged on; what is captured is what is known.
pub proof fn law_only_whole_contexts_are_captured(
    context: SteamContext,
    identity: Identity,
    captured: Option<CapturedInterfaces>,
)
    requires
        call_ensures(SteamContext::capture, (&context, identity), captured),
    ensures
        ({
            let values = context.values;
            captured is Some <==> values.owner != 0 && values.user != 0 && values.stats != 0
                && values.config_store != 0 && values.steam_user != 0 && values.steam_id64 != 0
                && values.steam_id64 == identity.steam_id && values.identity_generation
                == identity.generation
        }),
        captured is Some ==> captured->0.revision == context.revision && captured->0.values
            == context.values,
{
}

/// Captured interfaces are current exactly where the revision, the account and each interface
/// are those of now.
pub proof fn law_current_captures_agree_in_everything(
    context: SteamContext,
    captured: CapturedInterfaces,
    identity: Identity,
    current: bool,
    verdict: Result<(), ContextChanged>,
)
    requires
        call_ensures(SteamContext::is_current, (&context, &captured, identity), current),
        call_ensures(SteamContext::checked_call, (&context, &captured, identity), verdict),
    ensures
        current <==> captured.revision == context.revision && captured.values.identity_generation
            == identity.generation && captured.values.steam_id64 == identity.steam_id
            && captured.values.owner == context.values.owner && captured.values.user
            == context.values.user && captured.values.stats == context.values.stats
            && captured.values.config_store == context.values.config_store
            && captured.values.steam_user == context.values.steam_user,
        verdict is Ok <==> current,
{
}

/// A callback belongs to the account that is logged on exactly where it is for the known user
/// and the known account is that one.
pub proof fn law_callbacks_belong_to_the_known_user(
    context: SteamContext,
    steam_user: i32,
    identity: Identity,
    found: Option<Identity>,
)
    requires
        call_ensures(SteamContext::callback_identity, (&context, steam_user, identity), found),
    ensures
        found is Some <==> steam_user != 0 && steam_user == context.values.steam_user
            && context.values.steam_id64 != 0 && context.values.steam_id64 == identity.steam_id
            && context.values.identity_generation != 0 && context.values.identity_generation
            == identity.generation,
        found is Some ==> found->0 == identity,
{
}

/// A new owner brings its own interfaces; the account stays bound exactly where the one logged
/// on was seen in a packet.
pub proof fn law_owners_bring_their_interfaces(
    context: SteamContext,
    owner: usize,
    steam_user: i32,
    members: OwnerMembers,
    identity: Identity,
)
    ensures
        ({
            let values = context.owner_values(owner, steam_user, members, identity);
            &&& values.owner == owner && values.steam_user == steam_user
            &&& values.user == members.user && values.stats == members.stats
                && values.config_store == members.config_store
            &&& context.packet_identity is Some && context.packet_identity->0 == identity
                ==> values.steam_id64 == identity.steam_id && values.identity_generation
                == identity.generation
            &&& !(context.packet_identity is Some && context.packet_identity->0 == identity)
                ==> values.steam_id64 == 0 && values.identity_generation == 0
            &&& members.are_distinct() <==> members.user != members.stats && members.stats
                != members.config_store && members.config_store != members.user
        }),
{
}

/// An account counts as known while any part of it is: after binding one it is, and with both
/// parts zero it is not.
pub proof fn law_bound_accounts_are_known(context: SteamContext, identity: Identity)
    ensures
        SteamContext::belongs_to(context.values, identity) && (identity.generation != 0
            || identity.steam_id != 0) ==> context.knows_account(),
        SteamContext::belongs_to(context.values, Identity { generation: 0, steam_id: 0 })
            ==> !context.knows_account(),
        SteamContext::belongs_to(context.values, identity) <==> context.values.steam_id64
            == identity.steam_id && context.values.identity_generation == identity.generation,
{
}

/// A member of an owner is an interface exactly where the member itself can be read, it is no
/// null pointer, what it points to can be read, and the first word there is the table.
pub proof fn law_members_lead_to_their_table(
    owner: int,
    vtable: usize,
    mappings: Seq<ReadableMapping>,
    image: OwnerImage,
    word: int,
    index: int,
)
    requires
        image.first_words@[index] == vtable,
    ensures
        is_member(owner, vtable, mappings, image, word, index) <==> image.members@[index] > 0
            && is_mapped(owner + index * word, word, mappings) && is_mapped(
            image.members@[index] as int,
            word,
            mappings,
        ),
        forall|other: usize|
            other != vtable ==> !#[trigger] is_member(owner, other, mappings, image, word, index),
{
}

} // verus!
