//! The accounting core of a staking ledger.
//!
//! Coldkeys hold funds and own hotkeys; they stake on hotkeys, in subnets that
//! are accounted for one by one. The ledger keeps these records in memory and
//! offers two operations on them: the withdrawal of stake into spendable
//! balance, and the migration of a coldkey's whole footprint to another
//! coldkey. Every amount saturates rather than wraps or fails.
//!
//! Each operation is specified as a function on the view of the ledger, and
//! the laws that the operations obey are proved from those functions.

pub mod account;
pub mod balances;
pub mod events;
pub mod hotkey_set;
pub mod laws;
pub mod ledger;
pub mod storage;
pub mod sums;
pub mod weight;
