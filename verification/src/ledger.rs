//! The ledger state and its mathematical view.
//!
//! `Pallet` holds every record of the ledger in memory. Its view, a
//! `LedgerView`, gives each keyed record as a map; the operations of the
//! ledger are specified as functions from one view to the next.

use vstd::prelude::*;
use crate::account::AccountId;
use crate::balances::Balances;
use crate::events::Event;
use crate::hotkey_set::HotkeySet;
use crate::storage::{value_or, StorageMap};

pub mod records;
pub mod remove_stake;
pub mod swap_coldkey;

verus! {

/// The identifier of a subnet.
pub type SubnetId = u16;

/// The mechanism of a subnet whose units convert to base currency through the
/// subnet's own reserves. Under every other mechanism the two are the same.
pub const DYNAMIC_MECHANISM: u16 = 2;

/// The ledger as mathematics: what each record holds.
///
/// A keyed record that holds no entry for a key reads as zero, as the empty
/// list, or as absent, as the accessor for it says.
pub struct LedgerView {
    /// The coldkey that owns each hotkey.
    pub owner: Map<AccountId, AccountId>,
    /// The hotkeys that each coldkey owns.
    pub owned_hotkeys: Map<AccountId, Seq<AccountId>>,
    /// The hotkeys that each coldkey has staked to.
    pub staking_hotkeys: Map<AccountId, Seq<AccountId>>,
    /// The hotkeys that accept delegated stake, with the share they take.
    pub delegates: Map<AccountId, u16>,
    /// Base-currency stake by (hotkey, coldkey).
    pub stake: Map<(AccountId, AccountId), u64>,
    /// Subnet-unit stake by (hotkey, coldkey, subnet).
    pub alpha: Map<(AccountId, AccountId, SubnetId), u64>,
    /// Subnet-unit stake of all coldkeys by (hotkey, subnet).
    pub total_hotkey_alpha: Map<(AccountId, SubnetId), u64>,
    /// Base-currency stake of all coldkeys by hotkey.
    pub total_hotkey_stake: Map<AccountId, u64>,
    /// Base-currency stake on all hotkeys by coldkey.
    pub total_coldkey_stake: Map<AccountId, u64>,
    /// The subnet-unit reserve of each subnet.
    pub subnet_alpha: Map<SubnetId, u64>,
    /// The base-currency reserve of each subnet.
    pub subnet_tao: Map<SubnetId, u64>,
    /// The coldkey that owns each subnet.
    pub subnet_owner: Map<SubnetId, AccountId>,
    /// The mechanism of each subnet.
    pub subnet_mechanism: Map<SubnetId, u16>,
    /// The stake of the whole network.
    pub total_stake: u64,
    /// The issuance of the whole network.
    pub total_issuance: u64,
    /// By (hotkey, coldkey): the withdrawals counted in the pair's window and
    /// the block of the last of them.
    pub stakes_this_interval: Map<(AccountId, AccountId), (u64, u64)>,
    /// The block of each coldkey's last transaction.
    pub last_tx_block: Map<AccountId, u64>,
    /// Spendable balance by coldkey.
    pub balances: Map<AccountId, u64>,
    /// The members of the governance body.
    pub senate: Set<AccountId>,
    /// The current block.
    pub current_block: u64,
    /// The length of a rate-limit window, in blocks.
    pub stake_interval: u64,
    /// The number of withdrawals that a pair may make in one window.
    pub target_stakes_per_interval: u64,
    /// The notifications emitted so far, oldest first.
    pub events: Seq<Event>,
}

impl LedgerView {
    /// The hotkeys that `coldkey` owns, in the order in which they were recorded.
    pub open spec fn owned(self, coldkey: AccountId) -> Seq<AccountId> {
        value_or(self.owned_hotkeys, coldkey, Seq::empty())
    }

    /// The hotkeys that `coldkey` has staked to.
    pub open spec fn staking(self, coldkey: AccountId) -> Seq<AccountId> {
        value_or(self.staking_hotkeys, coldkey, Seq::empty())
    }

    /// The base-currency stake of `coldkey` on `hotkey`.
    pub open spec fn stake_of(self, hotkey: AccountId, coldkey: AccountId) -> u64 {
        value_or(self.stake, (hotkey, coldkey), 0)
    }

    /// The subnet-unit stake of `coldkey` on `hotkey` in `netuid`.
    pub open spec fn alpha_of(
        self,
        hotkey: AccountId,
        coldkey: AccountId,
        netuid: SubnetId,
    ) -> u64 {
        value_or(self.alpha, (hotkey, coldkey, netuid), 0)
    }

    /// The subnet-unit stake of all coldkeys on `hotkey` in `netuid`.
    pub open spec fn total_hotkey_alpha_of(self, hotkey: AccountId, netuid: SubnetId) -> u64 {
        value_or(self.total_hotkey_alpha, (hotkey, netuid), 0)
    }

    /// The base-currency stake of all coldkeys on `hotkey`.
    pub open spec fn total_hotkey_stake_of(self, hotkey: AccountId) -> u64 {
        value_or(self.total_hotkey_stake, hotkey, 0)
    }

    /// The base-currency stake of `coldkey` on all hotkeys.
    pub open spec fn total_coldkey_stake_of(self, coldkey: AccountId) -> u64 {
        value_or(self.total_coldkey_stake, coldkey, 0)
    }

    /// The subnet-unit reserve of `netuid`.
    pub open spec fn subnet_alpha_of(self, netuid: SubnetId) -> u64 {
        value_or(self.subnet_alpha, netuid, 0)
    }

    /// The base-currency reserve of `netuid`.
    pub open spec fn subnet_tao_of(self, netuid: SubnetId) -> u64 {
        value_or(self.subnet_tao, netuid, 0)
    }

    /// The mechanism of `netuid`.
    pub open spec fn mechanism_of(self, netuid: SubnetId) -> u16 {
        value_or(self.subnet_mechanism, netuid, 0)
    }

    /// The window record of the pair: the count and the block of the last withdrawal.
    pub open spec fn interval_of(self, hotkey: AccountId, coldkey: AccountId) -> (u64, u64) {
        value_or(self.stakes_this_interval, (hotkey, coldkey), (0u64, 0u64))
    }

    /// The block of the last transaction of `coldkey`.
    pub open spec fn last_tx_block_of(self, coldkey: AccountId) -> u64 {
        value_or(self.last_tx_block, coldkey, 0)
    }

    /// The spendable balance of `coldkey`.
    pub open spec fn balance_of(self, coldkey: AccountId) -> u64 {
        value_or(self.balances, coldkey, 0)
    }

    /// Every keyed record holds finitely many entries.
    pub open spec fn wf(self) -> bool {
        &&& self.owner.dom().finite()
        &&& self.owned_hotkeys.dom().finite()
        &&& self.staking_hotkeys.dom().finite()
        &&& self.delegates.dom().finite()
        &&& self.stake.dom().finite()
        &&& self.alpha.dom().finite()
        &&& self.total_hotkey_alpha.dom().finite()
        &&& self.total_hotkey_stake.dom().finite()
        &&& self.total_coldkey_stake.dom().finite()
        &&& self.subnet_alpha.dom().finite()
        &&& self.subnet_tao.dom().finite()
        &&& self.subnet_owner.dom().finite()
        &&& self.subnet_mechanism.dom().finite()
        &&& self.stakes_this_interval.dom().finite()
        &&& self.last_tx_block.dom().finite()
        &&& self.balances.dom().finite()
        &&& self.senate.finite()
    }
}

/// The lists that a record of hotkey sets holds.
pub open spec fn lists_of(sets: Map<AccountId, HotkeySet>) -> Map<AccountId, Seq<AccountId>> {
    sets.map_values(|s: HotkeySet| s@)
}

/// The ledger state.
pub struct Pallet {
    owner: StorageMap<AccountId, AccountId>,
    owned_hotkeys: StorageMap<AccountId, HotkeySet>,
    staking_hotkeys: StorageMap<AccountId, HotkeySet>,
    delegates: StorageMap<AccountId, u16>,
    stake: StorageMap<(AccountId, AccountId), u64>,
    alpha: StorageMap<(AccountId, AccountId, SubnetId), u64>,
    total_hotkey_alpha: StorageMap<(AccountId, SubnetId), u64>,
    total_hotkey_stake: StorageMap<AccountId, u64>,
    total_coldkey_stake: StorageMap<AccountId, u64>,
    subnet_alpha: StorageMap<SubnetId, u64>,
    subnet_tao: StorageMap<SubnetId, u64>,
    subnet_owner: StorageMap<SubnetId, AccountId>,
    subnet_mechanism: StorageMap<SubnetId, u16>,
    total_stake: u64,
    total_issuance: u64,
    stakes_this_interval: StorageMap<(AccountId, AccountId), (u64, u64)>,
    last_tx_block: StorageMap<AccountId, u64>,
    balances: Balances,
    senate: HotkeySet,
    current_block: u64,
    stake_interval: u64,
    target_stakes_per_interval: u64,
    events: Vec<Event>,
}

impl View for Pallet {
    type V = LedgerView;

    closed spec fn view(&self) -> LedgerView {
        LedgerView {
            owner: self.owner@,
            owned_hotkeys: lists_of(self.owned_hotkeys@),
            staking_hotkeys: lists_of(self.staking_hotkeys@),
            delegates: self.delegates@,
            stake: self.stake@,
            alpha: self.alpha@,
            total_hotkey_alpha: self.total_hotkey_alpha@,
            total_hotkey_stake: self.total_hotkey_stake@,
            total_coldkey_stake: self.total_coldkey_stake@,
            subnet_alpha: self.subnet_alpha@,
            subnet_tao: self.subnet_tao@,
            subnet_owner: self.subnet_owner@,
            subnet_mechanism: self.subnet_mechanism@,
            total_stake: self.total_stake,
            total_issuance: self.total_issuance,
            stakes_this_interval: self.stakes_this_interval@,
            last_tx_block: self.last_tx_block@,
            balances: self.balances@,
            senate: self.senate@.to_set(),
            current_block: self.current_block,
            stake_interval: self.stake_interval,
            target_stakes_per_interval: self.target_stakes_per_interval,
            events: self.events@,
        }
    }
}

impl Pallet {
    /// The view of every ledger state is well formed.
    pub proof fn lemma_wf(&self)
        ensures
            self@.wf(),
    {
        self.owner.lemma_finite();
        self.owned_hotkeys.lemma_finite();
        self.staking_hotkeys.lemma_finite();
        self.delegates.lemma_finite();
        self.stake.lemma_finite();
        self.alpha.lemma_finite();
        self.total_hotkey_alpha.lemma_finite();
        self.total_hotkey_stake.lemma_finite();
        self.total_coldkey_stake.lemma_finite();
        self.subnet_alpha.lemma_finite();
        self.subnet_tao.lemma_finite();
        self.subnet_owner.lemma_finite();
        self.subnet_mechanism.lemma_finite();
        self.stakes_this_interval.lemma_finite();
        self.last_tx_block.lemma_finite();
        self.balances.lemma_finite();
        vstd::seq_lib::seq_to_set_is_finite(self.senate@);
        assert(lists_of(self.owned_hotkeys@).dom() =~= self.owned_hotkeys@.dom());
        assert(lists_of(self.staking_hotkeys@).dom() =~= self.staking_hotkeys@.dom());
    }

    /// The ledger without any record, at block zero, with windows of
    /// `stake_interval` blocks and `target_stakes_per_interval` withdrawals
    /// allowed in each.
    pub fn new(stake_interval: u64, target_stakes_per_interval: u64) -> (ledger: Self)
        ensures
            ledger@ == (LedgerView {
                owner: Map::empty(),
                owned_hotkeys: Map::empty(),
                staking_hotkeys: Map::empty(),
                delegates: Map::empty(),
                stake: Map::empty(),
                alpha: Map::empty(),
                total_hotkey_alpha: Map::empty(),
                total_hotkey_stake: Map::empty(),
                total_coldkey_stake: Map::empty(),
                subnet_alpha: Map::empty(),
                subnet_tao: Map::empty(),
                subnet_owner: Map::empty(),
                subnet_mechanism: Map::empty(),
                total_stake: 0,
                total_issuance: 0,
                stakes_this_interval: Map::empty(),
                last_tx_block: Map::empty(),
                balances: Map::empty(),
                senate: Set::empty(),
                current_block: 0,
                stake_interval,
                target_stakes_per_interval,
                events: Seq::empty(),
            }),
    {
        let ledger = Pallet {
            owner: StorageMap::new(),
            owned_hotkeys: StorageMap::new(),
            staking_hotkeys: StorageMap::new(),
            delegates: StorageMap::new(),
            stake: StorageMap::new(),
            alpha: StorageMap::new(),
            total_hotkey_alpha: StorageMap::new(),
            total_hotkey_stake: StorageMap::new(),
            total_coldkey_stake: StorageMap::new(),
            subnet_alpha: StorageMap::new(),
            subnet_tao: StorageMap::new(),
            subnet_owner: StorageMap::new(),
            subnet_mechanism: StorageMap::new(),
            total_stake: 0,
            total_issuance: 0,
            stakes_this_interval: StorageMap::new(),
            last_tx_block: StorageMap::new(),
            balances: Balances::new(),
            senate: HotkeySet::new(),
            current_block: 0,
            stake_interval,
            target_stakes_per_interval,
            events: Vec::new(),
        };
        proof {
            assert(lists_of(ledger.owned_hotkeys@) =~= Map::empty());
            assert(lists_of(ledger.staking_hotkeys@) =~= Map::empty());
            assert(ledger.senate@.to_set() =~= Set::empty());
        }
        ledger
    }
}

} // verus!
