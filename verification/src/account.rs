//! Account identifiers.

use vstd::prelude::*;

verus! {

/// A 256-bit account identifier, held as two 128-bit halves.
///
/// Identifiers are only ever compared for equality; they carry no order and
/// no arithmetic. Coldkeys and hotkeys are both account identifiers.
#[derive(Clone, Copy, Debug, PartialEq, Eq, Structural, Hash)]
pub struct AccountId {
    pub hi: u128,
    pub lo: u128,
}

impl AccountId {
    /// The identifier whose low 64 bits are `n` and whose other bits are zero.
    pub fn from_u64(n: u64) -> (id: AccountId)
        ensures
            id == (AccountId { hi: 0, lo: n as u128 }),
    {
        AccountId { hi: 0, lo: n as u128 }
    }
}

} // verus!
