//! Reading and writing single records of the ledger.
//!
//! A reader of an amount gives zero where no entry is held; a writer states
//! the one record that it changes.

use vstd::prelude::*;
use crate::account::AccountId;
use crate::balances::InsufficientBalance;
use crate::events::Event;
use crate::hotkey_set::{lemma_ordered_union_of_distinct, ordered_union, HotkeySet};
use crate::ledger::{lists_of, LedgerView, Pallet, SubnetId};

verus! {

impl Pallet {
    /// Whether `hotkey` has an owner on record.
    pub fn hotkey_account_exists(&self, hotkey: &AccountId) -> (held: bool)
        ensures
            held == self@.owner.contains_key(*hotkey),
    {
        self.owner.contains_key(hotkey)
    }

    /// The coldkey that owns `hotkey`, if one is on record.
    pub fn get_owning_coldkey_for_hotkey(&self, hotkey: &AccountId) -> (owner: Option<AccountId>)
        ensures
            owner == (if self@.owner.contains_key(*hotkey) {
                Some(self@.owner[*hotkey])
            } else {
                None
            }),
    {
        match self.owner.get(hotkey) {
            Some(coldkey) => Some(*coldkey),
            None => None,
        }
    }

    /// Whether `coldkey` is on record as the owner of `hotkey`.
    pub fn coldkey_owns_hotkey(&self, coldkey: &AccountId, hotkey: &AccountId) -> (owns: bool)
        ensures
            owns == (self@.owner.contains_key(*hotkey) && self@.owner[*hotkey] == *coldkey),
    {
        match self.owner.get(hotkey) {
            Some(owner) => *owner == *coldkey,
            None => false,
        }
    }

    /// Records `coldkey` as the owner of `hotkey`.
    pub fn set_owner(&mut self, hotkey: &AccountId, coldkey: &AccountId)
        ensures
            final(self)@ == (LedgerView {
                owner: old(self)@.owner.insert(*hotkey, *coldkey),
                ..old(self)@
            }),
    {
        self.owner.insert(*hotkey, *coldkey);
    }

    /// Whether `hotkey` accepts delegated stake.
    pub fn hotkey_is_delegate(&self, hotkey: &AccountId) -> (held: bool)
        ensures
            held == self@.delegates.contains_key(*hotkey),
    {
        self.delegates.contains_key(hotkey)
    }

    /// Records that `hotkey` accepts delegated stake and takes the share `take` of it.
    pub fn set_delegate(&mut self, hotkey: &AccountId, take: u16)
        ensures
            final(self)@ == (LedgerView {
                delegates: old(self)@.delegates.insert(*hotkey, take),
                ..old(self)@
            }),
    {
        self.delegates.insert(*hotkey, take);
    }

    /// The hotkeys that `coldkey` owns, in the order in which they were recorded.
    pub fn get_owned_hotkeys(&self, coldkey: &AccountId) -> (hotkeys: Vec<AccountId>)
        ensures
            hotkeys@ == self@.owned(*coldkey),
            hotkeys@.no_duplicates(),
    {
        match self.owned_hotkeys.get(coldkey) {
            Some(set) => set.to_vec(),
            None => Vec::new(),
        }
    }

    /// Whether a list of hotkeys that `coldkey` owns is on record, be it empty.
    pub fn owned_hotkeys_exist(&self, coldkey: &AccountId) -> (held: bool)
        ensures
            held == self@.owned_hotkeys.contains_key(*coldkey),
    {
        proof {
            assert(lists_of(self.owned_hotkeys@).dom() =~= self.owned_hotkeys@.dom());
        }
        self.owned_hotkeys.contains_key(coldkey)
    }

    /// Records the distinct members of `hotkeys`, in the order of their first
    /// occurrence, as the hotkeys that `coldkey` owns.
    pub fn set_owned_hotkeys(&mut self, coldkey: &AccountId, hotkeys: &Vec<AccountId>)
        ensures
            final(self)@ == (LedgerView {
                owned_hotkeys: old(self)@.owned_hotkeys.insert(
                    *coldkey,
                    ordered_union(Seq::empty(), hotkeys@),
                ),
                ..old(self)@
            }),
            hotkeys@.no_duplicates() ==> final(self)@.owned(*coldkey) == hotkeys@,
    {
        let ghost before = self.owned_hotkeys@;
        let set = HotkeySet::from_vec(hotkeys);
        proof {
            if hotkeys@.no_duplicates() {
                lemma_ordered_union_of_distinct(hotkeys@);
            }
        }
        self.owned_hotkeys.insert(*coldkey, set);
        proof {
            assert(lists_of(self.owned_hotkeys@) =~= lists_of(before).insert(
                *coldkey,
                ordered_union(Seq::empty(), hotkeys@),
            ));
        }
    }

    /// The hotkeys that `coldkey` has staked to, in the order in which they were recorded.
    pub fn get_staking_hotkeys(&self, coldkey: &AccountId) -> (hotkeys: Vec<AccountId>)
        ensures
            hotkeys@ == self@.staking(*coldkey),
            hotkeys@.no_duplicates(),
    {
        match self.staking_hotkeys.get(coldkey) {
            Some(set) => set.to_vec(),
            None => Vec::new(),
        }
    }

    /// Whether a list of hotkeys that `coldkey` has staked to is on record, be it empty.
    pub fn staking_hotkeys_exist(&self, coldkey: &AccountId) -> (held: bool)
        ensures
            held == self@.staking_hotkeys.contains_key(*coldkey),
    {
        proof {
            assert(lists_of(self.staking_hotkeys@).dom() =~= self.staking_hotkeys@.dom());
        }
        self.staking_hotkeys.contains_key(coldkey)
    }

    /// Records the distinct members of `hotkeys`, in the order of their first
    /// occurrence, as the hotkeys that `coldkey` has staked to.
    pub fn set_staking_hotkeys(&mut self, coldkey: &AccountId, hotkeys: &Vec<AccountId>)
        ensures
            final(self)@ == (LedgerView {
                staking_hotkeys: old(self)@.staking_hotkeys.insert(
                    *coldkey,
                    ordered_union(Seq::empty(), hotkeys@),
                ),
                ..old(self)@
            }),
            hotkeys@.no_duplicates() ==> final(self)@.staking(*coldkey) == hotkeys@,
    {
        let ghost before = self.staking_hotkeys@;
        let set = HotkeySet::from_vec(hotkeys);
        proof {
            if hotkeys@.no_duplicates() {
                lemma_ordered_union_of_distinct(hotkeys@);
            }
        }
        self.staking_hotkeys.insert(*coldkey, set);
        proof {
            assert(lists_of(self.staking_hotkeys@) =~= lists_of(before).insert(
                *coldkey,
                ordered_union(Seq::empty(), hotkeys@),
            ));
        }
    }

    /// The base-currency stake of `coldkey` on `hotkey`.
    pub fn get_stake_for_coldkey_and_hotkey(
        &self,
        coldkey: &AccountId,
        hotkey: &AccountId,
    ) -> (amount: u64)
        ensures
            amount == self@.stake_of(*hotkey, *coldkey),
    {
        self.stake.get_or(&(*hotkey, *coldkey), 0)
    }

    /// Whether an entry for the stake of `coldkey` on `hotkey` is held.
    pub fn stake_exists(&self, hotkey: &AccountId, coldkey: &AccountId) -> (held: bool)
        ensures
            held == self@.stake.contains_key((*hotkey, *coldkey)),
    {
        self.stake.contains_key(&(*hotkey, *coldkey))
    }

    /// Whether the base-currency stake of `coldkey` on `hotkey` is at least `decrement`.
    pub fn has_enough_stake(
        &self,
        coldkey: &AccountId,
        hotkey: &AccountId,
        decrement: u64,
    ) -> (enough: bool)
        ensures
            enough == (self@.stake_of(*hotkey, *coldkey) >= decrement),
    {
        self.get_stake_for_coldkey_and_hotkey(coldkey, hotkey) >= decrement
    }

    /// Sets the base-currency stake of `coldkey` on `hotkey`.
    pub fn set_stake(&mut self, hotkey: &AccountId, coldkey: &AccountId, amount: u64)
        ensures
            final(self)@ == (LedgerView {
                stake: old(self)@.stake.insert((*hotkey, *coldkey), amount),
                ..old(self)@
            }),
    {
        self.stake.insert((*hotkey, *coldkey), amount);
    }

    /// The subnet-unit stake of `coldkey` on `hotkey` in `netuid`.
    pub fn get_alpha(
        &self,
        hotkey: &AccountId,
        coldkey: &AccountId,
        netuid: SubnetId,
    ) -> (amount: u64)
        ensures
            amount == self@.alpha_of(*hotkey, *coldkey, netuid),
    {
        self.alpha.get_or(&(*hotkey, *coldkey, netuid), 0)
    }

    /// Sets the subnet-unit stake of `coldkey` on `hotkey` in `netuid`.
    pub fn set_alpha(
        &mut self,
        hotkey: &AccountId,
        coldkey: &AccountId,
        netuid: SubnetId,
        amount: u64,
    )
        ensures
            final(self)@ == (LedgerView {
                alpha: old(self)@.alpha.insert((*hotkey, *coldkey, netuid), amount),
                ..old(self)@
            }),
    {
        self.alpha.insert((*hotkey, *coldkey, netuid), amount);
    }

    /// The subnet-unit stake of all coldkeys on `hotkey` in `netuid`.
    pub fn get_total_hotkey_alpha(&self, hotkey: &AccountId, netuid: SubnetId) -> (amount: u64)
        ensures
            amount == self@.total_hotkey_alpha_of(*hotkey, netuid),
    {
        self.total_hotkey_alpha.get_or(&(*hotkey, netuid), 0)
    }

    /// Sets the subnet-unit stake of all coldkeys on `hotkey` in `netuid`.
    pub fn set_total_hotkey_alpha(&mut self, hotkey: &AccountId, netuid: SubnetId, amount: u64)
        ensures
            final(self)@ == (LedgerView {
                total_hotkey_alpha: old(self)@.total_hotkey_alpha.insert((*hotkey, netuid), amount),
                ..old(self)@
            }),
    {
        self.total_hotkey_alpha.insert((*hotkey, netuid), amount);
    }

    /// The base-currency stake of all coldkeys on `hotkey`.
    pub fn get_total_stake_for_hotkey(&self, hotkey: &AccountId) -> (amount: u64)
        ensures
            amount == self@.total_hotkey_stake_of(*hotkey),
    {
        self.total_hotkey_stake.get_or(hotkey, 0)
    }

    /// Sets the base-currency stake of all coldkeys on `hotkey`.
    pub fn set_total_stake_for_hotkey(&mut self, hotkey: &AccountId, amount: u64)
        ensures
            final(self)@ == (LedgerView {
                total_hotkey_stake: old(self)@.total_hotkey_stake.insert(*hotkey, amount),
                ..old(self)@
            }),
    {
        self.total_hotkey_stake.insert(*hotkey, amount);
    }

    /// The base-currency stake of `coldkey` on all hotkeys.
    pub fn get_total_stake_for_coldkey(&self, coldkey: &AccountId) -> (amount: u64)
        ensures
            amount == self@.total_coldkey_stake_of(*coldkey),
    {
        self.total_coldkey_stake.get_or(coldkey, 0)
    }

    /// Sets the base-currency stake of `coldkey` on all hotkeys.
    pub fn set_total_stake_for_coldkey(&mut self, coldkey: &AccountId, amount: u64)
        ensures
            final(self)@ == (LedgerView {
                total_coldkey_stake: old(self)@.total_coldkey_stake.insert(*coldkey, amount),
                ..old(self)@
            }),
    {
        self.total_coldkey_stake.insert(*coldkey, amount);
    }

    /// The stake of the whole network.
    pub fn get_total_stake(&self) -> (amount: u64)
        ensures
            amount == self@.total_stake,
    {
        self.total_stake
    }

    /// Sets the stake of the whole network.
    pub fn set_total_stake(&mut self, amount: u64)
        ensures
            final(self)@ == (LedgerView { total_stake: amount, ..old(self)@ }),
    {
        self.total_stake = amount;
    }

    /// The issuance of the whole network.
    pub fn get_total_issuance(&self) -> (amount: u64)
        ensures
            amount == self@.total_issuance,
    {
        self.total_issuance
    }

    /// Sets the issuance of the whole network.
    pub fn set_total_issuance(&mut self, amount: u64)
        ensures
            final(self)@ == (LedgerView { total_issuance: amount, ..old(self)@ }),
    {
        self.total_issuance = amount;
    }

    /// The subnet-unit reserve of `netuid`.
    pub fn get_subnet_alpha(&self, netuid: SubnetId) -> (amount: u64)
        ensures
            amount == self@.subnet_alpha_of(netuid),
    {
        self.subnet_alpha.get_or(&netuid, 0)
    }

    /// Sets the subnet-unit reserve of `netuid`.
    pub fn set_subnet_alpha(&mut self, netuid: SubnetId, amount: u64)
        ensures
            final(self)@ == (LedgerView {
                subnet_alpha: old(self)@.subnet_alpha.insert(netuid, amount),
                ..old(self)@
            }),
    {
        self.subnet_alpha.insert(netuid, amount);
    }

    /// The base-currency reserve of `netuid`.
    pub fn get_subnet_tao(&self, netuid: SubnetId) -> (amount: u64)
        ensures
            amount == self@.subnet_tao_of(netuid),
    {
        self.subnet_tao.get_or(&netuid, 0)
    }

    /// Sets the base-currency reserve of `netuid`.
    pub fn set_subnet_tao(&mut self, netuid: SubnetId, amount: u64)
        ensures
            final(self)@ == (LedgerView {
                subnet_tao: old(self)@.subnet_tao.insert(netuid, amount),
                ..old(self)@
            }),
    {
        self.subnet_tao.insert(netuid, amount);
    }

    /// The mechanism of `netuid`.
    pub fn get_subnet_mechanism(&self, netuid: SubnetId) -> (mechanism: u16)
        ensures
            mechanism == self@.mechanism_of(netuid),
    {
        self.subnet_mechanism.get_or(&netuid, 0)
    }

    /// Sets the mechanism of `netuid`.
    pub fn set_subnet_mechanism(&mut self, netuid: SubnetId, mechanism: u16)
        ensures
            final(self)@ == (LedgerView {
                subnet_mechanism: old(self)@.subnet_mechanism.insert(netuid, mechanism),
                ..old(self)@
            }),
    {
        self.subnet_mechanism.insert(netuid, mechanism);
    }

    /// The coldkey that owns `netuid`, if one is on record.
    pub fn get_subnet_owner(&self, netuid: SubnetId) -> (owner: Option<AccountId>)
        ensures
            owner == (if self@.subnet_owner.contains_key(netuid) {
                Some(self@.subnet_owner[netuid])
            } else {
                None
            }),
    {
        match self.subnet_owner.get(&netuid) {
            Some(coldkey) => Some(*coldkey),
            None => None,
        }
    }

    /// Records `coldkey` as the owner of `netuid`.
    pub fn set_subnet_owner(&mut self, netuid: SubnetId, coldkey: &AccountId)
        ensures
            final(self)@ == (LedgerView {
                subnet_owner: old(self)@.subnet_owner.insert(netuid, *coldkey),
                ..old(self)@
            }),
    {
        self.subnet_owner.insert(netuid, *coldkey);
    }

    /// The window record of the pair as it is held: the count and the block of
    /// the last withdrawal, or zeros where none is held.
    pub fn get_stakes_this_interval_record(
        &self,
        hotkey: &AccountId,
        coldkey: &AccountId,
    ) -> (record: (u64, u64))
        ensures
            record == self@.interval_of(*hotkey, *coldkey),
    {
        self.stakes_this_interval.get_or(&(*hotkey, *coldkey), (0u64, 0u64))
    }

    /// Whether a window record of the pair is held.
    pub fn stakes_this_interval_exists(
        &self,
        hotkey: &AccountId,
        coldkey: &AccountId,
    ) -> (held: bool)
        ensures
            held == self@.stakes_this_interval.contains_key((*hotkey, *coldkey)),
    {
        self.stakes_this_interval.contains_key(&(*hotkey, *coldkey))
    }

    /// Sets the window record of the pair to `count` withdrawals, the last at `block`.
    pub fn set_stakes_this_interval_for_coldkey_hotkey(
        &mut self,
        coldkey: &AccountId,
        hotkey: &AccountId,
        count: u64,
        block: u64,
    )
        ensures
            final(self)@ == (LedgerView {
                stakes_this_interval: old(self)@.stakes_this_interval.insert(
                    (*hotkey, *coldkey),
                    (count, block),
                ),
                ..old(self)@
            }),
    {
        self.stakes_this_interval.insert((*hotkey, *coldkey), (count, block));
    }

    /// The block of the last transaction of `coldkey`.
    pub fn get_last_tx_block(&self, coldkey: &AccountId) -> (amount: u64)
        ensures
            amount == self@.last_tx_block_of(*coldkey),
    {
        self.last_tx_block.get_or(coldkey, 0)
    }

    /// Records `block` as that of the last transaction of `coldkey`.
    pub fn set_last_tx_block(&mut self, coldkey: &AccountId, block: u64)
        ensures
            final(self)@ == (LedgerView {
                last_tx_block: old(self)@.last_tx_block.insert(*coldkey, block),
                ..old(self)@
            }),
    {
        self.last_tx_block.insert(*coldkey, block);
    }

    /// The current block.
    pub fn get_current_block_as_u64(&self) -> (block: u64)
        ensures
            block == self@.current_block,
    {
        self.current_block
    }

    /// Sets the clock to `block`.
    pub fn set_current_block(&mut self, block: u64)
        ensures
            final(self)@ == (LedgerView { current_block: block, ..old(self)@ }),
    {
        self.current_block = block;
    }

    /// The length of a rate-limit window, in blocks.
    pub fn get_stake_interval(&self) -> (blocks: u64)
        ensures
            blocks == self@.stake_interval,
    {
        self.stake_interval
    }

    /// Sets the length of a rate-limit window, in blocks.
    pub fn set_stake_interval(&mut self, blocks: u64)
        ensures
            final(self)@ == (LedgerView { stake_interval: blocks, ..old(self)@ }),
    {
        self.stake_interval = blocks;
    }

    /// The number of withdrawals that a pair may make in one window.
    pub fn get_target_stakes_per_interval(&self) -> (ceiling: u64)
        ensures
            ceiling == self@.target_stakes_per_interval,
    {
        self.target_stakes_per_interval
    }

    /// Sets the number of withdrawals that a pair may make in one window.
    pub fn set_target_stakes_per_interval(&mut self, ceiling: u64)
        ensures
            final(self)@ == (LedgerView { target_stakes_per_interval: ceiling, ..old(self)@ }),
    {
        self.target_stakes_per_interval = ceiling;
    }

    /// The spendable balance of `coldkey`.
    pub fn get_coldkey_balance(&self, coldkey: &AccountId) -> (amount: u64)
        ensures
            amount == self@.balance_of(*coldkey),
    {
        self.balances.balance_of(coldkey)
    }

    /// Credits `amount` to the spendable balance of `coldkey`; the balance saturates.
    pub fn add_balance_to_coldkey_account(&mut self, coldkey: &AccountId, amount: u64)
        ensures
            final(self)@ == (LedgerView {
                balances: old(self)@.balances.insert(
                    *coldkey,
                    old(self)@.balance_of(*coldkey).saturating_add(amount),
                ),
                ..old(self)@
            }),
    {
        self.balances.credit(coldkey, amount);
    }

    /// Takes `amount` from the spendable balance of `coldkey`, or refuses and
    /// changes nothing where the coldkey holds less.
    pub fn remove_balance_from_coldkey_account(
        &mut self,
        coldkey: &AccountId,
        amount: u64,
    ) -> (r: Result<(), InsufficientBalance>)
        ensures
            r is Ok <==> amount <= old(self)@.balance_of(*coldkey),
            r is Ok ==> final(self)@ == (LedgerView {
                balances: old(self)@.balances.insert(
                    *coldkey,
                    (old(self)@.balance_of(*coldkey) - amount) as u64,
                ),
                ..old(self)@
            }),
            r is Err ==> final(self)@ == old(self)@,
    {
        self.balances.debit(coldkey, amount)
    }

    /// Whether `hotkey` is a member of the governance body.
    pub fn is_senate_member(&self, hotkey: &AccountId) -> (member: bool)
        ensures
            member == self@.senate.contains(*hotkey),
    {
        self.senate.contains(hotkey)
    }

    /// Makes `hotkey` a member of the governance body.
    pub fn add_senate_member(&mut self, hotkey: &AccountId)
        ensures
            final(self)@ == (LedgerView {
                senate: old(self)@.senate.insert(*hotkey),
                ..old(self)@
            }),
    {
        self.senate.insert(*hotkey);
    }

    /// Emits `event`.
    pub fn deposit_event(&mut self, event: Event)
        ensures
            final(self)@ == (LedgerView { events: old(self)@.events.push(event), ..old(self)@ }),
    {
        self.events.push(event);
    }

    /// The number of notifications emitted so far.
    pub fn event_count(&self) -> (n: usize)
        ensures
            n == self@.events.len(),
    {
        self.events.len()
    }

    /// The notification emitted as the `i`-th, counting from zero.
    pub fn event_at(&self, i: usize) -> (event: Event)
        requires
            i < self@.events.len(),
        ensures
            event == self@.events[i as int],
    {
        self.events[i]
    }

    /// The notification emitted last, if any was.
    pub fn last_event(&self) -> (event: Option<Event>)
        ensures
            event == (if self@.events.len() == 0 {
                None
            } else {
                Some(self@.events.last())
            }),
    {
        if self.events.len() == 0 {
            None
        } else {
            Some(self.events[self.events.len() - 1])
        }
    }
}

} // verus!
