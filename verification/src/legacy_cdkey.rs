//! The question whether an app needs a CD key.
use vstd::prelude::*;

verus! {

/// Who decides about an app.
#[derive(Clone, Copy, Debug, PartialEq, Eq, Structural)]
pub enum AppAuthority {
    Controlled,
    Uncontrolled,
}

/// Controlled apps never need a CD key.
pub fn suppresses_legacy_cdkey(authority: AppAuthority) -> (suppresses: bool)
    ensures
        suppresses == (authority is Controlled),
{
    match authority {
        AppAuthority::Controlled => true,
        AppAuthority::Uncontrolled => false,
    }
}

/// What the hook does.
#[derive(Clone, Copy, Debug, PartialEq, Eq, Structural)]
pub enum LegacyKeyStep {
    /// Steam answers.
    Forward,
    /// No key is needed; the caller's flag, where there is one, is cleared.
    NotNeeded { clears_flag: bool },
}

pub fn requires_legacy_cdkey(ready: bool, authority: AppAuthority, flag_known: bool) -> (step:
    LegacyKeyStep)
    ensures
        step == if ready && authority is Controlled {
            LegacyKeyStep::NotNeeded { clears_flag: flag_known }
        } else {
            LegacyKeyStep::Forward
        },
{
    if ready && suppresses_legacy_cdkey(authority) {
        LegacyKeyStep::NotNeeded { clears_flag: flag_known }
    } else {
        LegacyKeyStep::Forward
    }
}

/// The address of the implementation behind an entry. `implementation` is the offset in the
/// code at which it was found.
pub fn resolve_implementation(base: usize, entry: usize, implementation: Option<usize>) -> (address:
    Option<usize>)
    ensures
        address == if entry >= base && implementation is Some && base + implementation->0
            <= usize::MAX {
            Some((base + implementation->0) as usize)
        } else {
            None
        },
{
    if entry < base {
        return None;
    }
    match implementation {
        Some(offset) => base.checked_add(offset),
        None => None,
    }
}

} // verus!
