//! Migration of a coldkey's footprint to another coldkey, and the swap of one
//! member of the governance body.
//!
//! The migration is specified record by record: for each record of the ledger
//! a function gives what it holds afterwards, and `migrated` puts them
//! together.

use vstd::prelude::*;
use crate::account::AccountId;
use crate::balances::Balances;
use crate::events::{Error, Event};
use crate::hotkey_set::{ordered_union, HotkeySet};
use crate::ledger::{lists_of, LedgerView, Pallet, SubnetId};
use crate::storage::{value_or, StorageMap};
use crate::weight::Weight;

verus! {

/// The owner record after every hotkey of `moved` was given to `new`.
pub open spec fn owners_after(
    owner: Map<AccountId, AccountId>,
    moved: Seq<AccountId>,
    new: AccountId,
) -> Map<AccountId, AccountId> {
    Map::new(
        |h: AccountId| owner.contains_key(h) || moved.contains(h),
        |h: AccountId|
            if moved.contains(h) {
                new
            } else {
                owner[h]
            },
    )
}

/// A record of hotkey lists after the list of `old` was merged into that of
/// `new` and then dropped.
pub open spec fn lists_after(
    lists: Map<AccountId, Seq<AccountId>>,
    old: AccountId,
    new: AccountId,
) -> Map<AccountId, Seq<AccountId>> {
    lists.insert(
        new,
        ordered_union(value_or(lists, new, Seq::empty()), value_or(lists, old, Seq::empty())),
    ).remove(old)
}

/// Whether the migration writes the stake of `new` on `hotkey`: the hotkey is
/// among those moved and `old` holds stake on it.
pub open spec fn stake_is_merged(
    stake: Map<(AccountId, AccountId), u64>,
    moved: Seq<AccountId>,
    old: AccountId,
    hotkey: AccountId,
) -> bool {
    moved.contains(hotkey) && value_or(stake, (hotkey, old), 0) > 0
}

/// The stake record after the stake of `old` on every hotkey of `moved` was
/// added to that of `new` and the entry of `old` dropped.
pub open spec fn stakes_after(
    stake: Map<(AccountId, AccountId), u64>,
    moved: Seq<AccountId>,
    old: AccountId,
    new: AccountId,
) -> Map<(AccountId, AccountId), u64> {
    Map::new(
        |k: (AccountId, AccountId)|
            if moved.contains(k.0) && k.1 == old {
                false
            } else if k.1 == new && stake_is_merged(stake, moved, old, k.0) {
                true
            } else {
                stake.contains_key(k)
            },
        |k: (AccountId, AccountId)|
            if k.1 == new && stake_is_merged(stake, moved, old, k.0) {
                value_or(stake, k, 0).saturating_add(value_or(stake, (k.0, old), 0))
            } else {
                stake[k]
            },
    )
}

/// The totals by coldkey after the total of `old` was added to that of `new`
/// and then set to zero.
pub open spec fn totals_after(
    totals: Map<AccountId, u64>,
    old: AccountId,
    new: AccountId,
) -> Map<AccountId, u64> {
    totals.insert(
        new,
        value_or(totals, new, 0).saturating_add(value_or(totals, old, 0)),
    ).insert(old, 0)
}

/// The window records after the record of (hotkey, `old`), where there is one,
/// was moved to (hotkey, `new`) for every hotkey of `moved`.
pub open spec fn intervals_after(
    intervals: Map<(AccountId, AccountId), (u64, u64)>,
    moved: Seq<AccountId>,
    old: AccountId,
    new: AccountId,
) -> Map<(AccountId, AccountId), (u64, u64)> {
    Map::new(
        |k: (AccountId, AccountId)|
            if moved.contains(k.0) && intervals.contains_key((k.0, old)) {
                k.1 != old && (k.1 == new || intervals.contains_key(k))
            } else {
                intervals.contains_key(k)
            },
        |k: (AccountId, AccountId)|
            if moved.contains(k.0) && intervals.contains_key((k.0, old)) && k.1 == new {
                intervals[(k.0, old)]
            } else {
                intervals[k]
            },
    )
}

/// The subnet owners after every subnet of `old` was given to `new`.
pub open spec fn subnet_owners_after(
    owners: Map<SubnetId, AccountId>,
    old: AccountId,
    new: AccountId,
) -> Map<SubnetId, AccountId> {
    Map::new(
        |n: SubnetId| owners.contains_key(n),
        |n: SubnetId|
            if owners[n] == old {
                new
            } else {
                owners[n]
            },
    )
}

/// The balances after `old` was debited all it held and `new` credited the same.
pub open spec fn balances_after(
    balances: Map<AccountId, u64>,
    old: AccountId,
    new: AccountId,
) -> Map<AccountId, u64> {
    let moved = value_or(balances, old, 0);
    let debited = balances.insert(old, 0);
    debited.insert(new, value_or(debited, new, 0).saturating_add(moved))
}

/// What a migration away from `old` adds to each count of the meter: two for
/// each of the four records kept by coldkey (owned hotkeys, staking hotkeys,
/// total stake, balance), two for each hotkey that `old` owns, two for each
/// hotkey that it stakes to, and one for each subnet that has an owner.
pub open spec fn migration_cost(s: LedgerView, old: AccountId) -> nat {
    8 + 2 * s.owned(old).len() + 2 * s.staking(old).len() + s.subnet_owner.dom().len()
}

/// The records of the ledger after the footprint of `old` was migrated to `new`.
///
/// The stake and the issuance of the network, and every record kept by
/// hotkey or by subnet alone, are as before.
pub open spec fn migrated(s: LedgerView, old: AccountId, new: AccountId) -> LedgerView {
    LedgerView {
        owner: owners_after(s.owner, s.owned(old), new),
        owned_hotkeys: lists_after(s.owned_hotkeys, old, new),
        staking_hotkeys: lists_after(s.staking_hotkeys, old, new),
        stake: stakes_after(s.stake, s.staking(old), old, new),
        total_coldkey_stake: totals_after(s.total_coldkey_stake, old, new),
        stakes_this_interval: intervals_after(s.stakes_this_interval, s.owned(old), old, new),
        subnet_owner: subnet_owners_after(s.subnet_owner, old, new),
        balances: balances_after(s.balances, old, new),
        ..s
    }
}

/// The ledger `s` once the migration from `old` to `new` was notified.
pub open spec fn with_swap_notified(s: LedgerView, old: AccountId, new: AccountId) -> LedgerView {
    LedgerView {
        events: s.events.push(Event::ColdkeySwapped { old_coldkey: old, new_coldkey: new }),
        ..s
    }
}

/// The governance body after `old` was replaced by `new`, where `old` is a member.
pub open spec fn senate_after(members: Set<AccountId>, old: AccountId, new: AccountId) -> Set<
    AccountId,
> {
    if members.contains(old) {
        members.remove(old).insert(new)
    } else {
        members
    }
}

/// A longer prefix holds what the shorter one holds, and the item between them.
proof fn lemma_take_next<A>(s: Seq<A>, i: int)
    requires
        0 <= i < s.len(),
    ensures
        forall|x: A| #[trigger] s.take(i + 1).contains(x) <==> (s.take(i).contains(x) || x == s[i]),
{
    let shorter = s.take(i);
    let longer = s.take(i + 1);
    assert forall|x: A| #[trigger] longer.contains(x) <==> (shorter.contains(x) || x == s[i]) by {
        if longer.contains(x) {
            let j = choose|j: int| 0 <= j < longer.len() && longer[j] == x;
            if j < i {
                assert(shorter[j] == x);
            }
        }
        if shorter.contains(x) {
            let j = choose|j: int| 0 <= j < shorter.len() && shorter[j] == x;
            assert(longer[j] == x);
        }
        if x == s[i] {
            assert(longer[i] == x);
        }
    }
}

/// Gives every hotkey of `hotkeys` to `to`.
fn reassign_owners(
    owner: &mut StorageMap<AccountId, AccountId>,
    hotkeys: &Vec<AccountId>,
    to: &AccountId,
)
    ensures
        final(owner)@ == owners_after(old(owner)@, hotkeys@, *to),
{
    let mut i: usize = 0;
    proof {
        assert(owner@ =~= owners_after(old(owner)@, hotkeys@.take(0), *to));
    }
    while i < hotkeys.len()
        invariant
            i <= hotkeys@.len(),
            owner@ == owners_after(old(owner)@, hotkeys@.take(i as int), *to),
        decreases hotkeys@.len() - i,
    {
        owner.insert(hotkeys[i], *to);
        proof {
            lemma_take_next(hotkeys@, i as int);
            assert(owner@ =~= owners_after(old(owner)@, hotkeys@.take(i + 1), *to));
        }
        i += 1;
    }
    proof {
        assert(hotkeys@.take(i as int) =~= hotkeys@);
    }
}

/// Merges the list of `from` into that of `to`, drops the list of `from`, and
/// returns what it held.
fn merge_hotkey_lists(
    lists: &mut StorageMap<AccountId, HotkeySet>,
    from: &AccountId,
    to: &AccountId,
) -> (moved: Vec<AccountId>)
    ensures
        moved@ == value_or(lists_of(old(lists)@), *from, Seq::empty()),
        lists_of(final(lists)@) == lists_after(lists_of(old(lists)@), *from, *to),
{
    let moved = match lists.get(from) {
        Some(set) => set.to_vec(),
        None => Vec::new(),
    };
    let mut merged = match lists.get(to) {
        Some(set) => set.duplicate(),
        None => HotkeySet::new(),
    };
    merged.extend(&moved);
    lists.insert(*to, merged);
    lists.remove(from);
    proof {
        assert(lists_of(lists@) =~= lists_after(lists_of(old(lists)@), *from, *to));
    }
    moved
}

/// Adds the stake of `from` on every hotkey of `hotkeys` to that of `to`, and
/// drops the entry of `from`.
fn move_stakes(
    stake: &mut StorageMap<(AccountId, AccountId), u64>,
    hotkeys: &Vec<AccountId>,
    from: &AccountId,
    to: &AccountId,
    weight: &mut Weight,
)
    ensures
        final(stake)@ == stakes_after(old(stake)@, hotkeys@, *from, *to),
        *final(weight) == old(weight).accrued(2 * hotkeys@.len(), 2 * hotkeys@.len()),
{
    let mut i: usize = 0;
    proof {
        assert(stake@ =~= stakes_after(old(stake)@, hotkeys@.take(0), *from, *to));
    }
    while i < hotkeys.len()
        invariant
            i <= hotkeys@.len(),
            stake@ == stakes_after(old(stake)@, hotkeys@.take(i as int), *from, *to),
            *weight == old(weight).accrued(2 * i as nat, 2 * i as nat),
        decreases hotkeys@.len() - i,
    {
        let hotkey = hotkeys[i];
        let amount = stake.get_or(&(hotkey, *from), 0);
        if amount > 0 {
            let held = stake.get_or(&(hotkey, *to), 0);
            stake.insert((hotkey, *to), held.saturating_add(amount));
        }
        stake.remove(&(hotkey, *from));
        weight.saturating_accrue(2, 2);
        proof {
            lemma_take_next(hotkeys@, i as int);
            assert(stake@ =~= stakes_after(old(stake)@, hotkeys@.take(i + 1), *from, *to));
        }
        i += 1;
    }
    proof {
        assert(hotkeys@.take(i as int) =~= hotkeys@);
    }
}

/// Adds the total of `from` to that of `to` and sets the total of `from` to zero.
fn move_total(totals: &mut StorageMap<AccountId, u64>, from: &AccountId, to: &AccountId)
    ensures
        final(totals)@ == totals_after(old(totals)@, *from, *to),
{
    let moved = totals.get_or(from, 0);
    let held = totals.get_or(to, 0);
    totals.insert(*to, held.saturating_add(moved));
    totals.insert(*from, 0);
}

/// Moves the window record of (hotkey, `from`), where there is one, to
/// (hotkey, `to`), for every hotkey of `hotkeys`.
fn move_intervals(
    intervals: &mut StorageMap<(AccountId, AccountId), (u64, u64)>,
    hotkeys: &Vec<AccountId>,
    from: &AccountId,
    to: &AccountId,
    weight: &mut Weight,
)
    ensures
        final(intervals)@ == intervals_after(old(intervals)@, hotkeys@, *from, *to),
        *final(weight) == old(weight).accrued(2 * hotkeys@.len(), 2 * hotkeys@.len()),
{
    let mut i: usize = 0;
    proof {
        assert(intervals@ =~= intervals_after(old(intervals)@, hotkeys@.take(0), *from, *to));
    }
    while i < hotkeys.len()
        invariant
            i <= hotkeys@.len(),
            intervals@ == intervals_after(old(intervals)@, hotkeys@.take(i as int), *from, *to),
            *weight == old(weight).accrued(2 * i as nat, 2 * i as nat),
        decreases hotkeys@.len() - i,
    {
        let hotkey = hotkeys[i];
        let record = match intervals.get(&(hotkey, *from)) {
            Some(r) => Some(*r),
            None => None,
        };
        match record {
            Some(r) => {
                intervals.insert((hotkey, *to), r);
                intervals.remove(&(hotkey, *from));
            },
            None => {},
        }
        weight.saturating_accrue(2, 2);
        proof {
            lemma_take_next(hotkeys@, i as int);
            assert(intervals@ =~= intervals_after(
                old(intervals)@,
                hotkeys@.take(i + 1),
                *from,
                *to,
            ));
        }
        i += 1;
    }
    proof {
        assert(hotkeys@.take(i as int) =~= hotkeys@);
    }
}

/// The subnet owners after the subnets of `scanned` that `from` owned were given to `to`.
spec fn subnet_owners_partly(
    owners: Map<SubnetId, AccountId>,
    scanned: Seq<SubnetId>,
    from: AccountId,
    to: AccountId,
) -> Map<SubnetId, AccountId> {
    Map::new(
        |n: SubnetId| owners.contains_key(n),
        |n: SubnetId|
            if scanned.contains(n) && owners[n] == from {
                to
            } else {
                owners[n]
            },
    )
}

/// Gives every subnet that `from` owns to `to`.
fn reassign_subnets(
    owners: &mut StorageMap<SubnetId, AccountId>,
    from: &AccountId,
    to: &AccountId,
    weight: &mut Weight,
)
    ensures
        final(owners)@ == subnet_owners_after(old(owners)@, *from, *to),
        *final(weight) == old(weight).accrued(
            old(owners)@.dom().len(),
            old(owners)@.dom().len(),
        ),
{
    let subnets = owners.keys();
    let mut i: usize = 0;
    proof {
        assert(owners@ =~= subnet_owners_partly(old(owners)@, subnets@.take(0), *from, *to));
    }
    while i < subnets.len()
        invariant
            i <= subnets@.len(),
            subnets@.no_duplicates(),
            subnets@.to_set() == old(owners)@.dom(),
            owners@ == subnet_owners_partly(old(owners)@, subnets@.take(i as int), *from, *to),
            *weight == old(weight).accrued(i as nat, i as nat),
        decreases subnets@.len() - i,
    {
        let netuid = subnets[i];
        proof {
            assert(subnets@.contains(netuid));
            assert(subnets@.to_set().contains(netuid));
            lemma_take_next(subnets@, i as int);
            if subnets@.take(i as int).contains(netuid) {
                let j = choose|j: int|
                    0 <= j < subnets@.take(i as int).len() && subnets@.take(i as int)[j] == netuid;
                assert(subnets@[j] == netuid);
            }
        }
        let owned_by_old = match owners.get(&netuid) {
            Some(owner) => *owner == *from,
            None => false,
        };
        if owned_by_old {
            owners.insert(netuid, *to);
        }
        weight.saturating_accrue(1, 1);
        proof {
            assert(owners@ =~= subnet_owners_partly(
                old(owners)@,
                subnets@.take(i + 1),
                *from,
                *to,
            ));
        }
        i += 1;
    }
    proof {
        assert(subnets@.take(i as int) =~= subnets@);
        assert forall|n: SubnetId| old(owners)@.contains_key(n) implies subnets@.contains(n) by {
            assert(subnets@.to_set().contains(n));
        }
        assert(owners@ =~= subnet_owners_after(old(owners)@, *from, *to));
    }
}

/// Debits `from` all it holds and credits `to` the same.
fn move_balance(balances: &mut Balances, from: &AccountId, to: &AccountId)
    ensures
        final(balances)@ == balances_after(old(balances)@, *from, *to),
{
    let moved = balances.balance_of(from);
    let _ = balances.debit(from, moved);
    balances.credit(to, moved);
}

impl Pallet {
    /// Migrates the whole footprint of `old_coldkey` to `new_coldkey`.
    ///
    /// The hotkeys that the old coldkey owns and those it stakes to, its
    /// stake on each of them, its total stake, the rate-limit windows of its
    /// own hotkeys, its subnets and its spendable balance all pass to the new
    /// coldkey. Where the new coldkey holds state already the two are merged:
    /// lists are united without duplicates, amounts are added and saturate.
    /// The records of the old coldkey are dropped or zeroed. The stake and
    /// the issuance of the network are untouched. The meter is charged by the
    /// size of the footprint, and a notification is emitted.
    ///
    /// The migration has no failure of its own: it returns `Ok` on every
    /// ledger, also where the old coldkey holds nothing.
    pub fn perform_swap_coldkey(
        &mut self,
        old_coldkey: &AccountId,
        new_coldkey: &AccountId,
        weight: &mut Weight,
    ) -> (r: Result<(), Error>)
        ensures
            r is Ok,
            final(self)@ == with_swap_notified(
                migrated(old(self)@, *old_coldkey, *new_coldkey),
                *old_coldkey,
                *new_coldkey,
            ),
            *final(weight) == old(weight).accrued(
                migration_cost(old(self)@, *old_coldkey),
                migration_cost(old(self)@, *old_coldkey),
            ),
    {
        let owned = merge_hotkey_lists(&mut self.owned_hotkeys, old_coldkey, new_coldkey);
        reassign_owners(&mut self.owner, &owned, new_coldkey);
        weight.saturating_accrue(2, 2);

        let staking = merge_hotkey_lists(&mut self.staking_hotkeys, old_coldkey, new_coldkey);
        move_stakes(&mut self.stake, &staking, old_coldkey, new_coldkey, weight);
        weight.saturating_accrue(2, 2);

        move_total(&mut self.total_coldkey_stake, old_coldkey, new_coldkey);
        weight.saturating_accrue(2, 2);

        move_intervals(&mut self.stakes_this_interval, &owned, old_coldkey, new_coldkey, weight);

        reassign_subnets(&mut self.subnet_owner, old_coldkey, new_coldkey, weight);

        move_balance(&mut self.balances, old_coldkey, new_coldkey);
        weight.saturating_accrue(2, 2);

        self.events.push(Event::ColdkeySwapped {
            old_coldkey: *old_coldkey,
            new_coldkey: *new_coldkey,
        });
        Ok(())
    }

    /// Replaces `old_hotkey` by `new_hotkey` in the governance body.
    ///
    /// Where the old hotkey is a member it leaves the body and the new one
    /// joins it, at two reads and two writes. Where it is none, nothing
    /// changes, at one read. Either way the result is `Ok`.
    pub fn swap_senate_member(
        &mut self,
        old_hotkey: &AccountId,
        new_hotkey: &AccountId,
        weight: &mut Weight,
    ) -> (r: Result<(), Error>)
        ensures
            r is Ok,
            final(self)@ == (LedgerView {
                senate: senate_after(old(self)@.senate, *old_hotkey, *new_hotkey),
                ..old(self)@
            }),
            *final(weight) == if old(self)@.senate.contains(*old_hotkey) {
                old(weight).accrued(2, 2)
            } else {
                old(weight).accrued(1, 0)
            },
    {
        weight.saturating_accrue(1, 0);
        if self.senate.contains(old_hotkey) {
            self.senate.remove(old_hotkey);
            self.senate.insert(*new_hotkey);
            weight.saturating_accrue(1, 2);
        }
        Ok(())
    }
}

} // verus!
