//! The spendable-balance sub-ledger.

use vstd::prelude::*;
use crate::account::AccountId;
use crate::storage::{value_or, StorageMap};

verus! {

/// A debit asked for more than the account holds.
#[derive(Clone, Copy, Debug, PartialEq, Eq, Structural)]
pub struct InsufficientBalance;

/// Spendable balances by account. An account without a record holds zero.
pub struct Balances {
    free: StorageMap<AccountId, u64>,
}

impl View for Balances {
    type V = Map<AccountId, u64>;

    closed spec fn view(&self) -> Map<AccountId, u64> {
        self.free@
    }
}

impl Balances {
    /// The sub-ledger in which no account holds anything.
    pub fn new() -> (b: Self)
        ensures
            b@ == Map::<AccountId, u64>::empty(),
    {
        Balances { free: StorageMap::new() }
    }

    /// The records are finitely many.
    pub proof fn lemma_finite(&self)
        ensures
            self@.dom().finite(),
    {
        self.free.lemma_finite();
    }

    /// The balance of `account`.
    pub fn balance_of(&self, account: &AccountId) -> (amount: u64)
        ensures
            amount == value_or(self@, *account, 0),
    {
        self.free.get_or(account, 0)
    }

    /// Adds `amount` to the balance of `account`; the balance saturates.
    pub fn credit(&mut self, account: &AccountId, amount: u64)
        ensures
            final(self)@ == old(self)@.insert(
                *account,
                value_or(old(self)@, *account, 0).saturating_add(amount),
            ),
    {
        let held = self.free.get_or(account, 0);
        self.free.insert(*account, held.saturating_add(amount));
    }

    /// Takes `amount` from the balance of `account`, or refuses and changes
    /// nothing where the account holds less.
    pub fn debit(&mut self, account: &AccountId, amount: u64) -> (r: Result<
        (),
        InsufficientBalance,
    >)
        ensures
            r is Ok <==> amount <= value_or(old(self)@, *account, 0),
            r is Ok ==> final(self)@ == old(self)@.insert(
                *account,
                (value_or(old(self)@, *account, 0) - amount) as u64,
            ),
            r is Err ==> final(self)@ == old(self)@,
    {
        let held = self.free.get_or(account, 0);
        if amount <= held {
            self.free.insert(*account, held - amount);
            Ok(())
        } else {
            Err(InsufficientBalance)
        }
    }
}

} // verus!
