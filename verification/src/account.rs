//! The account that is logged on, and what a change of it does.
use vstd::prelude::*;

verus! {

/// What follows on an account that was reported.
#[derive(Clone, Copy, Debug, PartialEq, Eq, Structural)]
pub struct IdentitySteps {
    /// Everything that belongs to the previous account is forgotten.
    pub reset: bool,
    /// The interfaces learn the account.
    pub observe: bool,
}

/// Follows an account that was reported: a change resets what belongs to the account, and
/// the interfaces learn it only where it is the one logged on. The account logged on
/// afterwards is given.
pub fn follow_identity(changed: bool, steam_id: u64, logged_on: u64) -> (steps: IdentitySteps)
    ensures
        steps.reset == changed,
        steps.observe == (steam_id != 0 && logged_on == steam_id),
{
    IdentitySteps { reset: changed, observe: steam_id != 0 && logged_on == steam_id }
}

/// Whether the account that Steam's user interface reports is published: not while the
/// library itself asks, and only where it is nobody or a person.
pub fn publishes_steam_id(
    callbacks_ready: bool,
    checked_call_active: bool,
    steam_id: u64,
    is_individual: bool,
) -> (publishes: bool)
    ensures
        publishes == (callbacks_ready && !checked_call_active && (steam_id == 0 || is_individual)),
{
    callbacks_ready && !checked_call_active && (steam_id == 0 || is_individual)
}

/// The account that a caller gets: another one while a ticket of its is in use.
pub fn answered_steam_id(overrides_ready: bool, delegate: u64, own: u64) -> (steam_id: u64)
    ensures
        steam_id == if overrides_ready && delegate != 0 {
            delegate
        } else {
            own
        },
{
    if overrides_ready && delegate != 0 {
        delegate
    } else {
        own
    }
}

/// The interfaces never learn an account that is not the one logged on, nor nobody's; and
/// nobody is told another account than their own unless one stands in for it.
pub proof fn law_accounts_are_not_mixed_up(
    changed: bool,
    steam_id: u64,
    logged_on: u64,
    steps: IdentitySteps,
    overrides_ready: bool,
    delegate: u64,
    own: u64,
    answered: u64,
)
    requires
        call_ensures(follow_identity, (changed, steam_id, logged_on), steps),
        call_ensures(answered_steam_id, (overrides_ready, delegate, own), answered),
    ensures
        steps.observe ==> steam_id == logged_on && steam_id != 0,
        steam_id == logged_on && logged_on != 0 ==> steps.observe,
        changed <==> steps.reset,
        answered == own || answered == delegate,
        !overrides_ready || delegate == 0 ==> answered == own,
        overrides_ready && delegate != 0 ==> answered == delegate,
{
}

} // verus!
