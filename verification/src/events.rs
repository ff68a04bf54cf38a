//! Notifications and errors of the ledger operations.

use vstd::prelude::*;
use crate::account::AccountId;

verus! {

/// A notification that a ledger operation emits on success.
#[derive(Clone, Copy, Debug, PartialEq, Eq, Structural)]
pub enum Event {
    /// Stake was withdrawn from `hotkey`; `amount` is in subnet units.
    StakeRemoved { hotkey: AccountId, amount: u64 },
    /// The footprint of `old_coldkey` was moved to `new_coldkey`.
    ColdkeySwapped { old_coldkey: AccountId, new_coldkey: AccountId },
}

/// Why a withdrawal was refused.
#[derive(Clone, Copy, Debug, PartialEq, Eq, Structural)]
pub enum Error {
    /// The hotkey has no owner record.
    UnknownHotkey,
    /// The caller neither owns the hotkey nor may delegate to it.
    Unauthorized,
    /// The requested amount is zero.
    ZeroAmount,
    /// The requested amount exceeds the caller's recorded stake on the hotkey.
    InsufficientStake,
    /// The pair has used up its withdrawals for the current window.
    RateLimited,
}

} // verus!
