//! The answers on ownership: one app, the list of subscriptions, and installed content.
use vstd::prelude::*;

verus! {

/// What is decided about an app whose ownership was asked for.
#[derive(Clone, Copy, Debug, PartialEq, Eq, Structural)]
pub struct OwnershipDecision {
    pub result: bool,
    pub grant_spoofed_ownership: bool,
    pub clear_family_shared: bool,
}

/// What the ownership hook does once Steam has answered.
#[derive(Clone, Copy, Debug, PartialEq, Eq, Structural)]
pub struct OwnershipAnswer {
    /// What the caller gets.
    pub result: bool,
    /// The receiver is taken for the user of the account.
    pub captures_user: bool,
    /// Steam's own answer is recorded as the genuine ownership.
    pub records_genuine: bool,
    /// The record is marked as owned.
    pub grant: bool,
    /// The record's mark of a shared library is removed.
    pub clear_shared: bool,
    /// The purchase time that is written into the record.
    pub stamp: Option<u32>,
}

/// Decides on the ownership of an app. Before the capability is ready Steam's answer passes
/// through. Genuine ownership is known from Steam's answer only as long as nothing was
/// injected, and only where there is a record to fill. `injected` tells whether the app's
/// ownership comes from here; such an app gets its purchase time, unless that is zero.
pub fn check_app_ownership(
    ready: bool,
    pkg0_injected: bool,
    out_known: bool,
    result: bool,
    decision: OwnershipDecision,
    injected: bool,
    purchase_time: u32,
) -> (answer: OwnershipAnswer)
    ensures
        answer.result == (if ready && out_known {
            decision.result
        } else {
            result
        }),
        answer.captures_user == ready,
        answer.records_genuine == (ready && out_known && !pkg0_injected),
        answer.grant == (ready && out_known && decision.grant_spoofed_ownership),
        answer.clear_shared == (ready && out_known && decision.clear_family_shared),
        answer.stamp == (if ready && out_known && injected && purchase_time != 0 {
            Some(purchase_time)
        } else {
            None
        }),
{
    if !ready || !out_known {
        return OwnershipAnswer {
            result,
            captures_user: ready,
            records_genuine: false,
            grant: false,
            clear_shared: false,
            stamp: None,
        };
    }
    OwnershipAnswer {
        result: decision.result,
        captures_user: true,
        records_genuine: !pkg0_injected,
        grant: decision.grant_spoofed_ownership,
        clear_shared: decision.clear_family_shared,
        stamp: if injected && purchase_time != 0 {
            Some(purchase_time)
        } else {
            None
        },
    }
}

/// Whether the worker that reads stats is started: a question for ownership is the first
/// call that shows a user who is logged on.
pub fn starts_stats_worker(ready: bool, callbacks_ready: bool) -> (starts: bool)
    ensures
        starts == (ready && callbacks_ready),
{
    ready && callbacks_ready
}

/// Where nothing decides about an app, and it is not injected, the caller sees what Steam
/// answered: nothing is marked, and no purchase time is written.
pub proof fn law_undecided_apps_keep_their_answer(
    ready: bool,
    out_known: bool,
    result: bool,
    answer: OwnershipAnswer,
    decision: OwnershipDecision,
    purchase_time: u32,
    pkg0_injected: bool,
)
    requires
        decision == (OwnershipDecision {
            result,
            grant_spoofed_ownership: false,
            clear_family_shared: false,
        }),
        call_ensures(
            check_app_ownership,
            (ready, pkg0_injected, out_known, result, decision, false, purchase_time),
            answer,
        ),
    ensures
        answer.result == result,
        !answer.grant,
        !answer.clear_shared,
        answer.stamp is None,
{
}

/// What the subscription hook does once Steam has counted.
#[derive(Clone, Copy, Debug, PartialEq, Eq, Structural)]
pub enum SubscribedStep {
    /// Steam's count passes through.
    Pass(u32),
    /// The waiting license list is evaluated, and a count is reported.
    Report(u32),
    /// The waiting license list is evaluated, and so many filled slots are completed.
    Fill(u32),
}

/// Decides on the list of subscriptions. Steam asks for the size first, and then with a
/// buffer of that size; a call without room for what Steam itself listed is answered with
/// the size, which the injected apps add to.
pub fn get_subscribed_apps(
    ready: bool,
    list_known: bool,
    size: u32,
    count: u32,
    adjustment: u32,
) -> (step: SubscribedStep)
    requires
        ready && (!list_known || size == 0 || count > size) ==> count + adjustment <= u32::MAX,
    ensures
        step == if !ready {
            SubscribedStep::Pass(count)
        } else if !list_known || size == 0 || count > size {
            SubscribedStep::Report((count + adjustment) as u32)
        } else {
            SubscribedStep::Fill(count)
        },
{
    if !ready {
        SubscribedStep::Pass(count)
    } else if !list_known || size == 0 || count > size {
        SubscribedStep::Report(count + adjustment)
    } else {
        SubscribedStep::Fill(count)
    }
}

/// A list that is filled has room for everything that Steam listed.
pub proof fn law_filled_lists_have_room(
    ready: bool,
    list_known: bool,
    size: u32,
    count: u32,
    adjustment: u32,
    step: SubscribedStep,
)
    requires
        call_ensures(get_subscribed_apps, (ready, list_known, size, count, adjustment), step),
    ensures
        step matches SubscribedStep::Fill(filled) ==> list_known && filled == count && count
            <= size && size > 0,
{
}

/// What is answered about downloadable content: before the capability is ready, what Steam
/// answered.
pub fn dlc_answer(ready: bool, answer: bool, decided: bool) -> (result: bool)
    ensures
        result == if ready {
            decided
        } else {
            answer
        },
{
    if ready {
        decided
    } else {
        answer
    }
}

} // verus!
