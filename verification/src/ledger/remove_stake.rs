//! Withdrawal of stake from a hotkey into the caller's spendable balance.

use vstd::prelude::*;
use crate::account::AccountId;
use crate::events::{Error, Event};
use crate::ledger::{LedgerView, Pallet, SubnetId, DYNAMIC_MECHANISM};

verus! {

/// The base-currency worth of `alpha` subnet units at the reserves of a
/// subnet: `alpha * tao_reserve / alpha_reserve`, rounded down and clamped to
/// the largest `u64`. A subnet without subnet-unit reserve prices everything
/// at zero.
pub open spec fn tao_for_alpha(alpha: u64, tao_reserve: u64, alpha_reserve: u64) -> u64 {
    if alpha_reserve == 0 {
        0
    } else if (alpha * tao_reserve) / (alpha_reserve as int) > u64::MAX {
        u64::MAX
    } else {
        ((alpha * tao_reserve) / (alpha_reserve as int)) as u64
    }
}

impl LedgerView {
    /// The withdrawals of `coldkey` from `hotkey` that count in the current
    /// window: those recorded for the pair, or none once the window that began
    /// with the last of them has run out.
    pub open spec fn stakes_this_interval_of(self, hotkey: AccountId, coldkey: AccountId) -> u64 {
        let (count, last_block) = self.interval_of(hotkey, coldkey);
        if last_block.saturating_add(self.stake_interval) <= self.current_block {
            0
        } else {
            count
        }
    }

    /// The base-currency worth of `alpha` units of subnet `netuid`: converted
    /// at the subnet's reserves under the dynamic mechanism, one to one under
    /// every other.
    pub open spec fn alpha_to_tao(self, alpha: u64, netuid: SubnetId) -> u64 {
        if self.mechanism_of(netuid) == DYNAMIC_MECHANISM {
            tao_for_alpha(alpha, self.subnet_tao_of(netuid), self.subnet_alpha_of(netuid))
        } else {
            alpha
        }
    }
}

/// Why the ledger `s` refuses `coldkey` the withdrawal of `alpha` units from
/// `hotkey`, or `None` where it grants it. The first reason that applies, in
/// the order of `Error`, is the one given.
pub open spec fn withdrawal_refusal(
    s: LedgerView,
    coldkey: AccountId,
    hotkey: AccountId,
    alpha: u64,
) -> Option<Error> {
    if !s.owner.contains_key(hotkey) {
        Some(Error::UnknownHotkey)
    } else if !(s.delegates.contains_key(hotkey) || s.owner[hotkey] == coldkey) {
        Some(Error::Unauthorized)
    } else if alpha == 0 {
        Some(Error::ZeroAmount)
    } else if s.stake_of(hotkey, coldkey) < alpha {
        Some(Error::InsufficientStake)
    } else if s.stakes_this_interval_of(hotkey, coldkey) >= s.target_stakes_per_interval {
        Some(Error::RateLimited)
    } else {
        None
    }
}

/// The ledger after `coldkey` withdrew `alpha` units of subnet `netuid` from
/// `hotkey`. Every decrement and the credit saturate.
pub open spec fn withdrawn(
    s: LedgerView,
    coldkey: AccountId,
    hotkey: AccountId,
    netuid: SubnetId,
    alpha: u64,
) -> LedgerView {
    let tao = s.alpha_to_tao(alpha, netuid);
    LedgerView {
        total_stake: s.total_stake.saturating_sub(tao),
        subnet_alpha: s.subnet_alpha.insert(
            netuid,
            s.subnet_alpha_of(netuid).saturating_sub(alpha),
        ),
        subnet_tao: s.subnet_tao.insert(netuid, s.subnet_tao_of(netuid).saturating_sub(tao)),
        stake: s.stake.insert((hotkey, coldkey), s.stake_of(hotkey, coldkey).saturating_sub(tao)),
        total_hotkey_alpha: s.total_hotkey_alpha.insert(
            (hotkey, netuid),
            s.total_hotkey_alpha_of(hotkey, netuid).saturating_sub(alpha),
        ),
        alpha: s.alpha.insert(
            (hotkey, coldkey, netuid),
            s.alpha_of(hotkey, coldkey, netuid).saturating_sub(alpha),
        ),
        balances: s.balances.insert(coldkey, s.balance_of(coldkey).saturating_add(tao)),
        last_tx_block: s.last_tx_block.insert(coldkey, s.current_block),
        stakes_this_interval: s.stakes_this_interval.insert(
            (hotkey, coldkey),
            (s.stakes_this_interval_of(hotkey, coldkey).saturating_add(1), s.current_block),
        ),
        events: s.events.push(Event::StakeRemoved { hotkey, amount: alpha }),
        ..s
    }
}

/// The base-currency worth of `alpha` subnet units at the given reserves.
pub fn convert_alpha_to_tao(alpha: u64, tao_reserve: u64, alpha_reserve: u64) -> (tao: u64)
    ensures
        tao == tao_for_alpha(alpha, tao_reserve, alpha_reserve),
{
    if alpha_reserve == 0 {
        return 0;
    }
    assert(alpha * tao_reserve <= u64::MAX * u64::MAX) by (nonlinear_arith)
        requires
            0 <= alpha <= u64::MAX,
            0 <= tao_reserve <= u64::MAX,
    ;
    let product: u128 = (alpha as u128) * (tao_reserve as u128);
    let quotient: u128 = product / (alpha_reserve as u128);
    if quotient > u64::MAX as u128 {
        u64::MAX
    } else {
        quotient as u64
    }
}

impl Pallet {
    /// The withdrawals of `coldkey` from `hotkey` that count in the current window.
    pub fn get_stakes_this_interval_for_coldkey_hotkey(
        &self,
        coldkey: &AccountId,
        hotkey: &AccountId,
    ) -> (count: u64)
        ensures
            count == self@.stakes_this_interval_of(*hotkey, *coldkey),
    {
        let (count, last_block) = self.stakes_this_interval.get_or(
            &(*hotkey, *coldkey),
            (0u64, 0u64),
        );
        if last_block.saturating_add(self.stake_interval) <= self.current_block {
            0
        } else {
            count
        }
    }

    /// The base-currency worth of `alpha` units of subnet `netuid`.
    pub fn alpha_to_tao(&self, alpha: u64, netuid: SubnetId) -> (tao: u64)
        ensures
            tao == self@.alpha_to_tao(alpha, netuid),
    {
        if self.subnet_mechanism.get_or(&netuid, 0) == DYNAMIC_MECHANISM {
            convert_alpha_to_tao(
                alpha,
                self.subnet_tao.get_or(&netuid, 0),
                self.subnet_alpha.get_or(&netuid, 0),
            )
        } else {
            alpha
        }
    }

    /// Withdraws `alpha_to_be_removed` units of subnet `netuid` that `coldkey`
    /// staked on `hotkey`, and credits their base-currency worth to the
    /// spendable balance of `coldkey`.
    ///
    /// The withdrawal is refused, and the ledger left as it is, where the
    /// hotkey has no owner, where the coldkey neither owns the hotkey nor the
    /// hotkey accepts delegated stake, where the amount is zero, where the
    /// coldkey's recorded stake on the hotkey is less than the amount, or
    /// where the pair has used up its withdrawals for the current window; the
    /// first of these that applies decides the error. The stake that is held
    /// against the amount is the base-currency stake of the pair over all
    /// subnets, not its subnet-unit stake in `netuid`.
    ///
    /// Otherwise the stake of the network, both reserves of the subnet, the
    /// stake of the pair, the subnet-unit stake of the hotkey and that of the
    /// pair are decremented, the balance is credited, the block is recorded as
    /// that of the coldkey's last transaction, the window of the pair counts
    /// one more withdrawal from the current block on, and a notification with
    /// the hotkey and the amount is emitted.
    pub fn do_remove_stake(
        &mut self,
        coldkey: &AccountId,
        hotkey: &AccountId,
        netuid: SubnetId,
        alpha_to_be_removed: u64,
    ) -> (r: Result<(), Error>)
        ensures
            match r {
                Ok(()) => {
                    &&& withdrawal_refusal(old(self)@, *coldkey, *hotkey, alpha_to_be_removed)
                        is None
                    &&& final(self)@ == withdrawn(
                        old(self)@,
                        *coldkey,
                        *hotkey,
                        netuid,
                        alpha_to_be_removed,
                    )
                },
                Err(e) => {
                    &&& withdrawal_refusal(old(self)@, *coldkey, *hotkey, alpha_to_be_removed)
                        == Some(e)
                    &&& final(self)@ == old(self)@
                },
            },
    {
        if !self.hotkey_account_exists(hotkey) {
            return Err(Error::UnknownHotkey);
        }
        if !(self.hotkey_is_delegate(hotkey) || self.coldkey_owns_hotkey(coldkey, hotkey)) {
            return Err(Error::Unauthorized);
        }
        if alpha_to_be_removed == 0 {
            return Err(Error::ZeroAmount);
        }
        if !self.has_enough_stake(coldkey, hotkey, alpha_to_be_removed) {
            return Err(Error::InsufficientStake);
        }
        let unstakes_this_interval = self.get_stakes_this_interval_for_coldkey_hotkey(
            coldkey,
            hotkey,
        );
        if unstakes_this_interval >= self.get_target_stakes_per_interval() {
            return Err(Error::RateLimited);
        }
        let tao_unstaked = self.alpha_to_tao(alpha_to_be_removed, netuid);

        self.set_total_stake(self.get_total_stake().saturating_sub(tao_unstaked));
        self.set_subnet_alpha(
            netuid,
            self.get_subnet_alpha(netuid).saturating_sub(alpha_to_be_removed),
        );
        self.set_subnet_tao(netuid, self.get_subnet_tao(netuid).saturating_sub(tao_unstaked));
        self.set_stake(
            hotkey,
            coldkey,
            self.get_stake_for_coldkey_and_hotkey(coldkey, hotkey).saturating_sub(tao_unstaked),
        );
        self.set_total_hotkey_alpha(
            hotkey,
            netuid,
            self.get_total_hotkey_alpha(hotkey, netuid).saturating_sub(alpha_to_be_removed),
        );
        self.set_alpha(
            hotkey,
            coldkey,
            netuid,
            self.get_alpha(hotkey, coldkey, netuid).saturating_sub(alpha_to_be_removed),
        );

        self.add_balance_to_coldkey_account(coldkey, tao_unstaked);

        let block = self.get_current_block_as_u64();
        self.set_last_tx_block(coldkey, block);
        self.set_stakes_this_interval_for_coldkey_hotkey(
            coldkey,
            hotkey,
            unstakes_this_interval.saturating_add(1),
            block,
        );
        self.deposit_event(Event::StakeRemoved { hotkey: *hotkey, amount: alpha_to_be_removed });
        Ok(())
    }
}

} // verus!
