//! Laws of the ledger operations, proved from their specifications.

use vstd::prelude::*;
use crate::account::AccountId;
use crate::events::Error;
use crate::hotkey_set::{lemma_ordered_union, lemma_ordered_union_empty};
use crate::ledger::remove_stake::{withdrawal_refusal, withdrawn};
use crate::ledger::swap_coldkey::{migrated, with_swap_notified};
use crate::ledger::{LedgerView, SubnetId, DYNAMIC_MECHANISM};
use crate::storage::value_or;
use crate::sums::{
    lemma_sum_of_insert,
    lemma_sum_of_merged,
    lemma_sum_of_remove,
    lemma_sum_of_zeros,
    merged,
    sum_of,
};

verus! {

/// A migration leaves the stake and the issuance of the network as they are,
/// and with them every record that is kept by hotkey or by subnet alone.
pub proof fn law_migration_conserves_network_totals(s: LedgerView, old: AccountId, new: AccountId)
    ensures
        migrated(s, old, new).total_stake == s.total_stake,
        migrated(s, old, new).total_issuance == s.total_issuance,
        migrated(s, old, new).total_hotkey_stake == s.total_hotkey_stake,
        migrated(s, old, new).total_hotkey_alpha == s.total_hotkey_alpha,
        migrated(s, old, new).alpha == s.alpha,
        migrated(s, old, new).subnet_alpha == s.subnet_alpha,
        migrated(s, old, new).subnet_tao == s.subnet_tao,
{
}

/// A migration between two coldkeys leaves the sum of the total stakes of all
/// coldkeys as it is, where the two totals together do not exceed the largest
/// amount that a record can hold.
pub proof fn law_migration_conserves_coldkey_totals(s: LedgerView, old: AccountId, new: AccountId)
    requires
        s.wf(),
        old != new || s.total_coldkey_stake_of(old) == 0,
        s.total_coldkey_stake_of(old) + s.total_coldkey_stake_of(new) <= u64::MAX,
    ensures
        sum_of(migrated(s, old, new).total_coldkey_stake) == sum_of(s.total_coldkey_stake),
{
    let totals = s.total_coldkey_stake;
    let both = value_or(totals, new, 0).saturating_add(value_or(totals, old, 0));
    let credited = totals.insert(new, both);
    lemma_sum_of_insert(totals, new, both);
    lemma_sum_of_insert(credited, old, 0);
}

/// Stake is merged, not overwritten: where the old coldkey holds stake on a
/// hotkey that it stakes to, the new coldkey afterwards holds on that hotkey
/// what it held before and what the old coldkey held, and the old coldkey
/// holds nothing there.
pub proof fn law_migration_merges_stake(
    s: LedgerView,
    old: AccountId,
    new: AccountId,
    hotkey: AccountId,
)
    requires
        old != new,
        s.staking(old).contains(hotkey),
        s.stake_of(hotkey, old) > 0,
    ensures
        migrated(s, old, new).stake_of(hotkey, new) == s.stake_of(hotkey, new).saturating_add(
            s.stake_of(hotkey, old),
        ),
        s.stake_of(hotkey, new) + s.stake_of(hotkey, old) <= u64::MAX ==> migrated(
            s,
            old,
            new,
        ).stake_of(hotkey, new) == s.stake_of(hotkey, new) + s.stake_of(hotkey, old),
        migrated(s, old, new).stake_of(hotkey, old) == 0,
        !migrated(s, old, new).stake.contains_key((hotkey, old)),
{
}

/// A migration moves no stake of a third coldkey.
pub proof fn law_migration_keeps_other_stake(
    s: LedgerView,
    old: AccountId,
    new: AccountId,
    hotkey: AccountId,
    coldkey: AccountId,
)
    requires
        coldkey != old,
        coldkey != new,
    ensures
        migrated(s, old, new).stake.contains_key((hotkey, coldkey)) == s.stake.contains_key(
            (hotkey, coldkey),
        ),
        migrated(s, old, new).stake_of(hotkey, coldkey) == s.stake_of(hotkey, coldkey),
{
}

/// Migrating twice gives the records that migrating once gives: the second
/// migration finds nothing to move.
pub proof fn law_migration_idempotent(s: LedgerView, old: AccountId, new: AccountId)
    ensures
        migrated(migrated(s, old, new), old, new) == migrated(s, old, new),
        migrated(with_swap_notified(migrated(s, old, new), old, new), old, new)
            == with_swap_notified(migrated(s, old, new), old, new),
{
    let once = migrated(s, old, new);
    let twice = migrated(once, old, new);
    let none = Seq::<AccountId>::empty();
    assert(once.owned(old) == none);
    assert(once.staking(old) == none);
    lemma_ordered_union_empty(once.owned(new));
    lemma_ordered_union_empty(once.staking(new));
    lemma_ordered_union_empty(none);
    assert(twice.owner =~= once.owner);
    assert(twice.owned_hotkeys =~= once.owned_hotkeys);
    assert(twice.staking_hotkeys =~= once.staking_hotkeys);
    assert(twice.stake =~= once.stake);
    assert(twice.total_coldkey_stake =~= once.total_coldkey_stake);
    assert(twice.stakes_this_interval =~= once.stakes_this_interval);
    assert(twice.subnet_owner =~= once.subnet_owner);
    assert(twice.balances =~= once.balances);
    assert(migrated(with_swap_notified(once, old, new), old, new) == with_swap_notified(
        twice,
        old,
        new,
    ));
}

/// Migrating away from a coldkey that owns no hotkey, stakes to none, and has
/// neither balance nor total stake leaves what the new coldkey holds as it
/// is: its hotkeys, its stake, its total and its balance. The owners of
/// hotkeys, all stake and all windows stay as they are, and so does the owner
/// of every subnet that the old coldkey does not own.
pub proof fn law_migration_from_empty_source(s: LedgerView, old: AccountId, new: AccountId)
    requires
        s.owned(old).len() == 0,
        s.staking(old).len() == 0,
        s.balance_of(old) == 0,
        s.total_coldkey_stake_of(old) == 0,
    ensures
        migrated(s, old, new).owned(new) == s.owned(new),
        migrated(s, old, new).staking(new) == s.staking(new),
        migrated(s, old, new).total_coldkey_stake_of(new) == s.total_coldkey_stake_of(new),
        migrated(s, old, new).balance_of(new) == s.balance_of(new),
        migrated(s, old, new).owner == s.owner,
        migrated(s, old, new).stake == s.stake,
        migrated(s, old, new).stakes_this_interval == s.stakes_this_interval,
        forall|n: SubnetId|
            s.subnet_owner.contains_key(n) && s.subnet_owner[n] != old ==> #[trigger] migrated(
                s,
                old,
                new,
            ).subnet_owner[n] == s.subnet_owner[n],
        (forall|n: SubnetId| s.subnet_owner.contains_key(n) ==> s.subnet_owner[n] != old)
            ==> migrated(s, old, new).subnet_owner == s.subnet_owner,
{
    let after = migrated(s, old, new);
    let none = Seq::<AccountId>::empty();
    assert(s.owned(old) =~= none);
    assert(s.staking(old) =~= none);
    lemma_ordered_union_empty(s.owned(new));
    lemma_ordered_union_empty(s.staking(new));
    assert(after.owner =~= s.owner);
    assert(after.stake =~= s.stake);
    assert(after.stakes_this_interval =~= s.stakes_this_interval);
    if forall|n: SubnetId| s.subnet_owner.contains_key(n) ==> s.subnet_owner[n] != old {
        assert(after.subnet_owner =~= s.subnet_owner);
    }
}

/// A migration gives every subnet of the old coldkey to the new one and
/// leaves the owner of every other subnet as it is.
pub proof fn law_migration_reassigns_subnets(
    s: LedgerView,
    old: AccountId,
    new: AccountId,
    netuid: SubnetId,
)
    requires
        s.subnet_owner.contains_key(netuid),
    ensures
        migrated(s, old, new).subnet_owner.contains_key(netuid),
        s.subnet_owner[netuid] == old ==> migrated(s, old, new).subnet_owner[netuid] == new,
        s.subnet_owner[netuid] != old ==> migrated(s, old, new).subnet_owner[netuid]
            == s.subnet_owner[netuid],
{
}

/// Whether every hotkey in a coldkey's list of owned hotkeys is recorded as
/// owned by that coldkey.
pub open spec fn ownership_consistent(s: LedgerView) -> bool {
    forall|coldkey: AccountId, hotkey: AccountId| #[trigger]
        s.owned(coldkey).contains(hotkey) ==> s.owner.contains_key(hotkey) && s.owner[hotkey]
            == coldkey
}

/// A migration keeps the lists of owned hotkeys and the owner record in
/// agreement, and leaves the old coldkey without owned hotkeys.
pub proof fn law_migration_keeps_ownership_consistent(
    s: LedgerView,
    old: AccountId,
    new: AccountId,
)
    requires
        ownership_consistent(s),
    ensures
        ownership_consistent(migrated(s, old, new)),
        old != new ==> forall|hotkey: AccountId| #[trigger]
            s.owned(old).contains(hotkey) ==> migrated(s, old, new).owned(new).contains(hotkey),
        migrated(s, old, new).owned(old).len() == 0,
{
    let after = migrated(s, old, new);
    lemma_ordered_union(s.owned(new), s.owned(old));
    assert forall|coldkey: AccountId, hotkey: AccountId| #[trigger]
        after.owned(coldkey).contains(hotkey) implies after.owner.contains_key(hotkey)
        && after.owner[hotkey] == coldkey by {
        if coldkey == old {
            assert(after.owned(coldkey) =~= Seq::<AccountId>::empty());
        } else if coldkey == new {
            assert(s.owned(new).contains(hotkey) || s.owned(old).contains(hotkey));
        } else {
            assert(s.owned(coldkey).contains(hotkey));
            if s.owned(old).contains(hotkey) {
                assert(s.owner[hotkey] == old);
            }
        }
    }
}

/// The stake of `coldkey` by hotkey.
pub open spec fn stake_by_hotkey(
    stake: Map<(AccountId, AccountId), u64>,
    coldkey: AccountId,
) -> Map<AccountId, u64> {
    Map::new(
        |h: AccountId| stake.contains_key((h, coldkey)),
        |h: AccountId| stake[(h, coldkey)],
    )
}

/// Whether the total stake on record for every coldkey is the sum of its
/// stake on all hotkeys.
pub open spec fn totals_match_stake(s: LedgerView) -> bool {
    forall|coldkey: AccountId| #[trigger]
        s.total_coldkey_stake_of(coldkey) == sum_of(stake_by_hotkey(s.stake, coldkey))
}

/// The stake of one coldkey is held for finitely many hotkeys.
pub proof fn lemma_stake_by_hotkey_finite(
    stake: Map<(AccountId, AccountId), u64>,
    coldkey: AccountId,
)
    requires
        stake.dom().finite(),
    ensures
        stake_by_hotkey(stake, coldkey).dom().finite(),
{
    let hotkey_of = |k: (AccountId, AccountId)| k.0;
    stake.dom().lemma_map_finite(hotkey_of);
    assert forall|h: AccountId| stake_by_hotkey(stake, coldkey).dom().contains(
        h,
    ) implies stake.dom().map(hotkey_of).contains(h) by {
        assert(stake.dom().contains((h, coldkey)));
        assert(hotkey_of((h, coldkey)) == h);
    }
    vstd::set_lib::lemma_len_subset(
        stake_by_hotkey(stake, coldkey).dom(),
        stake.dom().map(hotkey_of),
    );
}

/// A migration between two coldkeys keeps the total stake of every coldkey
/// equal to the sum of its stake on all hotkeys, where the old coldkey's list
/// of staking hotkeys names every hotkey that it holds stake on, and the two
/// totals together do not exceed the largest amount that a record can hold.
pub proof fn law_migration_keeps_totals_matching_stake(
    s: LedgerView,
    old: AccountId,
    new: AccountId,
)
    requires
        s.wf(),
        totals_match_stake(s),
        old != new,
        forall|h: AccountId| s.stake_of(h, old) > 0 ==> #[trigger] s.staking(old).contains(h),
        s.total_coldkey_stake_of(old) + s.total_coldkey_stake_of(new) <= u64::MAX,
    ensures
        totals_match_stake(migrated(s, old, new)),
{
    let after = migrated(s, old, new);
    let held_by_old = stake_by_hotkey(s.stake, old);
    let held_by_new = stake_by_hotkey(s.stake, new);
    lemma_stake_by_hotkey_finite(s.stake, old);
    lemma_stake_by_hotkey_finite(s.stake, new);
    assert(s.total_coldkey_stake_of(old) == sum_of(held_by_old));
    assert(s.total_coldkey_stake_of(new) == sum_of(held_by_new));
    assert forall|coldkey: AccountId| #[trigger]
        after.total_coldkey_stake_of(coldkey) == sum_of(
            stake_by_hotkey(after.stake, coldkey),
        ) by {
        let held_after = stake_by_hotkey(after.stake, coldkey);
        if coldkey == old {
            assert forall|h: AccountId| held_after.contains_key(h) implies held_after[h] == 0 by {
                assert(!s.staking(old).contains(h));
                assert(s.stake_of(h, old) == 0);
            }
            assert(held_after.dom().subset_of(held_by_old.dom()));
            vstd::set_lib::lemma_len_subset(held_after.dom(), held_by_old.dom());
            lemma_sum_of_zeros(held_after);
        } else if coldkey == new {
            lemma_sum_of_merged(held_by_new, held_by_old);
            assert forall|h: AccountId| #[trigger]
                merged(held_by_new, held_by_old).contains_key(h) == held_after.contains_key(h) by {
                assert(value_or(held_by_old, h, 0) == s.stake_of(h, old));
            }
            assert forall|h: AccountId| held_after.contains_key(h) implies merged(
                held_by_new,
                held_by_old,
            )[h] == #[trigger] held_after[h] by {
                assert(value_or(held_by_old, h, 0) == s.stake_of(h, old));
                assert(value_or(held_by_new, h, 0) == s.stake_of(h, new));
            }
            assert(merged(held_by_new, held_by_old) =~= held_after);
        } else {
            assert(held_after =~= stake_by_hotkey(s.stake, coldkey));
            assert(s.total_coldkey_stake_of(coldkey) == sum_of(
                stake_by_hotkey(s.stake, coldkey),
            ));
        }
    }
}

/// The stake on `hotkey` by coldkey.
pub open spec fn stake_by_coldkey(
    stake: Map<(AccountId, AccountId), u64>,
    hotkey: AccountId,
) -> Map<AccountId, u64> {
    Map::new(
        |c: AccountId| stake.contains_key((hotkey, c)),
        |c: AccountId| stake[(hotkey, c)],
    )
}

/// The stake on one hotkey is held for finitely many coldkeys.
pub proof fn lemma_stake_by_coldkey_finite(
    stake: Map<(AccountId, AccountId), u64>,
    hotkey: AccountId,
)
    requires
        stake.dom().finite(),
    ensures
        stake_by_coldkey(stake, hotkey).dom().finite(),
{
    let coldkey_of = |k: (AccountId, AccountId)| k.1;
    stake.dom().lemma_map_finite(coldkey_of);
    assert forall|c: AccountId| stake_by_coldkey(stake, hotkey).dom().contains(
        c,
    ) implies stake.dom().map(coldkey_of).contains(c) by {
        assert(stake.dom().contains((hotkey, c)));
        assert(coldkey_of((hotkey, c)) == c);
    }
    vstd::set_lib::lemma_len_subset(
        stake_by_coldkey(stake, hotkey).dom(),
        stake.dom().map(coldkey_of),
    );
}

/// A migration between two coldkeys moves stake under a fixed total by
/// hotkey: the stake of all coldkeys on a hotkey sums to what it summed to
/// before, where the stake of the two coldkeys on it does not exceed the
/// largest amount that a record can hold.
pub proof fn law_migration_conserves_stake_on_hotkey(
    s: LedgerView,
    old: AccountId,
    new: AccountId,
    hotkey: AccountId,
)
    requires
        s.wf(),
        old != new,
        s.stake_of(hotkey, old) + s.stake_of(hotkey, new) <= u64::MAX,
    ensures
        sum_of(stake_by_coldkey(migrated(s, old, new).stake, hotkey)) == sum_of(
            stake_by_coldkey(s.stake, hotkey),
        ),
{
    let before = stake_by_coldkey(s.stake, hotkey);
    let after = stake_by_coldkey(migrated(s, old, new).stake, hotkey);
    lemma_stake_by_coldkey_finite(s.stake, hotkey);
    if s.staking(old).contains(hotkey) {
        let moved = s.stake_of(hotkey, old);
        let credited = if moved > 0 {
            before.insert(new, s.stake_of(hotkey, new).saturating_add(moved))
        } else {
            before
        };
        if moved > 0 {
            lemma_sum_of_insert(before, new, s.stake_of(hotkey, new).saturating_add(moved));
        }
        assert(after =~= credited.remove(old));
        if credited.contains_key(old) {
            lemma_sum_of_remove(credited, old);
        } else {
            assert(credited.remove(old) =~= credited);
        }
    } else {
        assert(after =~= before);
    }
}

/// A migration leaves every list of hotkeys free of duplicates that was so before.
pub proof fn law_migration_keeps_lists_duplicate_free(
    s: LedgerView,
    old: AccountId,
    new: AccountId,
    coldkey: AccountId,
)
    requires
        s.owned(new).no_duplicates(),
        s.staking(new).no_duplicates(),
        s.owned(coldkey).no_duplicates(),
        s.staking(coldkey).no_duplicates(),
    ensures
        migrated(s, old, new).owned(coldkey).no_duplicates(),
        migrated(s, old, new).staking(coldkey).no_duplicates(),
{
    lemma_ordered_union(s.owned(new), s.owned(old));
    lemma_ordered_union(s.staking(new), s.staking(old));
}

/// On a subnet whose units are base currency, a granted withdrawal that no
/// record clamps takes exactly the amount from the stake of the network, from
/// the stake of the pair and from both reserves of the subnet, and adds
/// exactly the amount to the spendable balance of the caller.
pub proof fn law_withdrawal_conserves(
    s: LedgerView,
    coldkey: AccountId,
    hotkey: AccountId,
    netuid: SubnetId,
    alpha: u64,
)
    requires
        withdrawal_refusal(s, coldkey, hotkey, alpha) is None,
        s.mechanism_of(netuid) != DYNAMIC_MECHANISM,
        alpha <= s.total_stake,
        alpha <= s.subnet_alpha_of(netuid),
        alpha <= s.subnet_tao_of(netuid),
        s.balance_of(coldkey) + alpha <= u64::MAX,
    ensures
        withdrawn(s, coldkey, hotkey, netuid, alpha).total_stake == s.total_stake - alpha,
        withdrawn(s, coldkey, hotkey, netuid, alpha).stake_of(hotkey, coldkey) == s.stake_of(
            hotkey,
            coldkey,
        ) - alpha,
        withdrawn(s, coldkey, hotkey, netuid, alpha).subnet_alpha_of(netuid) == s.subnet_alpha_of(
            netuid,
        ) - alpha,
        withdrawn(s, coldkey, hotkey, netuid, alpha).subnet_tao_of(netuid) == s.subnet_tao_of(
            netuid,
        ) - alpha,
        withdrawn(s, coldkey, hotkey, netuid, alpha).balance_of(coldkey) == s.balance_of(coldkey)
            + alpha,
        withdrawn(s, coldkey, hotkey, netuid, alpha).total_issuance == s.total_issuance,
{
}

/// A granted withdrawal raises no stake and no reserve, leaves the issuance
/// of the network and every owner as they are, and touches the stake of no
/// other pair.
pub proof fn law_withdrawal_only_decreases(
    s: LedgerView,
    coldkey: AccountId,
    hotkey: AccountId,
    netuid: SubnetId,
    alpha: u64,
)
    ensures
        withdrawn(s, coldkey, hotkey, netuid, alpha).total_stake <= s.total_stake,
        withdrawn(s, coldkey, hotkey, netuid, alpha).total_issuance == s.total_issuance,
        withdrawn(s, coldkey, hotkey, netuid, alpha).owner == s.owner,
        withdrawn(s, coldkey, hotkey, netuid, alpha).owned_hotkeys == s.owned_hotkeys,
        withdrawn(s, coldkey, hotkey, netuid, alpha).subnet_owner == s.subnet_owner,
        withdrawn(s, coldkey, hotkey, netuid, alpha).total_coldkey_stake == s.total_coldkey_stake,
        withdrawn(s, coldkey, hotkey, netuid, alpha).total_hotkey_stake == s.total_hotkey_stake,
        forall|n: SubnetId| #[trigger]
            withdrawn(s, coldkey, hotkey, netuid, alpha).subnet_alpha_of(n) <= s.subnet_alpha_of(n),
        forall|n: SubnetId| #[trigger]
            withdrawn(s, coldkey, hotkey, netuid, alpha).subnet_tao_of(n) <= s.subnet_tao_of(n),
        forall|h: AccountId, c: AccountId| #[trigger]
            withdrawn(s, coldkey, hotkey, netuid, alpha).stake_of(h, c) <= s.stake_of(h, c),
        forall|h: AccountId, c: AccountId|
            (h != hotkey || c != coldkey) ==> #[trigger] withdrawn(
                s,
                coldkey,
                hotkey,
                netuid,
                alpha,
            ).stake_of(h, c) == s.stake_of(h, c),
        forall|c: AccountId| #[trigger]
            withdrawn(s, coldkey, hotkey, netuid, alpha).balance_of(c) >= s.balance_of(c),
{
}

/// One withdrawal of a coldkey from a hotkey: the block at which it is made,
/// the subnet and the amount.
pub struct Attempt {
    pub block: u64,
    pub netuid: SubnetId,
    pub alpha: u64,
}

/// The ledger `s` when the clock shows `block`.
pub open spec fn at_block(s: LedgerView, block: u64) -> LedgerView {
    LedgerView { current_block: block, ..s }
}

/// The ledger after `coldkey` made the withdrawals of `attempts` from
/// `hotkey`, one after the other, each at its block.
pub open spec fn after_withdrawals(
    s: LedgerView,
    coldkey: AccountId,
    hotkey: AccountId,
    attempts: Seq<Attempt>,
) -> LedgerView
    decreases attempts.len(),
{
    if attempts.len() == 0 {
        s
    } else {
        let last = attempts.last();
        withdrawn(
            at_block(after_withdrawals(s, coldkey, hotkey, attempts.drop_last()), last.block),
            coldkey,
            hotkey,
            last.netuid,
            last.alpha,
        )
    }
}

/// Whether each withdrawal of `attempts` is granted on the ledger that the
/// ones before it have left.
pub open spec fn all_granted(
    s: LedgerView,
    coldkey: AccountId,
    hotkey: AccountId,
    attempts: Seq<Attempt>,
) -> bool
    decreases attempts.len(),
{
    attempts.len() == 0 || {
        let last = attempts.last();
        &&& all_granted(s, coldkey, hotkey, attempts.drop_last())
        &&& withdrawal_refusal(
            at_block(after_withdrawals(s, coldkey, hotkey, attempts.drop_last()), last.block),
            coldkey,
            hotkey,
            last.alpha,
        ) is None
    }
}

/// Whether each withdrawal but the first is made while the window that the
/// one before it began is still running.
pub open spec fn within_one_window(stake_interval: u64, attempts: Seq<Attempt>) -> bool {
    forall|i: int|
        0 < i < attempts.len() ==> (#[trigger] attempts[i - 1]).block.saturating_add(stake_interval)
            > attempts[i].block
}

/// After a run of granted withdrawals within one window, the window of the
/// pair counts at least as many withdrawals as the run has, from the block of
/// the last one on, and the limits of the ledger are as before.
pub proof fn lemma_window_counts_withdrawals(
    s: LedgerView,
    coldkey: AccountId,
    hotkey: AccountId,
    attempts: Seq<Attempt>,
)
    requires
        attempts.len() > 0,
        all_granted(s, coldkey, hotkey, attempts),
        within_one_window(s.stake_interval, attempts),
    ensures
        after_withdrawals(s, coldkey, hotkey, attempts).interval_of(hotkey, coldkey).0
            >= attempts.len(),
        after_withdrawals(s, coldkey, hotkey, attempts).interval_of(hotkey, coldkey).1
            == attempts.last().block,
        after_withdrawals(s, coldkey, hotkey, attempts).stake_interval == s.stake_interval,
        after_withdrawals(s, coldkey, hotkey, attempts).target_stakes_per_interval
            == s.target_stakes_per_interval,
    decreases attempts.len(),
{
    let earlier = attempts.drop_last();
    if earlier.len() > 0 {
        assert forall|i: int| 0 < i < earlier.len() implies (#[trigger] earlier[i
            - 1]).block.saturating_add(s.stake_interval) > earlier[i].block by {
            assert(attempts[i - 1] == earlier[i - 1]);
            assert(attempts[i] == earlier[i]);
        }
        lemma_window_counts_withdrawals(s, coldkey, hotkey, earlier);
        let i = attempts.len() - 1;
        assert(attempts[i - 1] == earlier.last());
        assert(attempts[i - 1].block.saturating_add(s.stake_interval) > attempts[i].block);
    }
}

/// Once a pair has made as many granted withdrawals within one window as the
/// ledger allows in a window, a further withdrawal of the pair in that window
/// is refused: as rate limited, unless one of the checks that come first
/// refuses it.
pub proof fn law_withdrawals_rate_limited(
    s: LedgerView,
    coldkey: AccountId,
    hotkey: AccountId,
    attempts: Seq<Attempt>,
    next: Attempt,
)
    requires
        attempts.len() == s.target_stakes_per_interval,
        all_granted(s, coldkey, hotkey, attempts),
        within_one_window(s.stake_interval, attempts),
        attempts.len() > 0 ==> attempts.last().block.saturating_add(s.stake_interval) > next.block,
    ensures
        ({
            let ledger = at_block(after_withdrawals(s, coldkey, hotkey, attempts), next.block);
            let refusal = withdrawal_refusal(ledger, coldkey, hotkey, next.alpha);
            &&& ledger.stakes_this_interval_of(hotkey, coldkey)
                >= ledger.target_stakes_per_interval
            &&& refusal is Some
            &&& (ledger.owner.contains_key(hotkey) && (ledger.delegates.contains_key(hotkey)
                || ledger.owner[hotkey] == coldkey) && next.alpha > 0 && ledger.stake_of(
                hotkey,
                coldkey,
            ) >= next.alpha) ==> refusal == Some(Error::RateLimited)
        }),
{
    if attempts.len() > 0 {
        lemma_window_counts_withdrawals(s, coldkey, hotkey, attempts);
    }
}

} // verus!
