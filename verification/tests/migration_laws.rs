use pallet_subtensor::account::AccountId;
use pallet_subtensor::events::{Error, Event};
use pallet_subtensor::ledger::Pallet;
use pallet_subtensor::weight::Weight;

fn key(n: u64) -> AccountId {
    AccountId::from_u64(n)
}

/// Old coldkey 1 owns hotkeys 10 and 11 with stakes 1000 and 2000, and has
/// also staked 5 to hotkey 12 of a third party; new coldkey 2 holds 3000 on
/// hotkey 10 already and owns hotkey 20.
fn two_coldkeys() -> Pallet {
    let mut ledger = Pallet::new(100, 2);
    let (old, new, third) = (key(1), key(2), key(3));
    ledger.set_owner(&key(10), &old);
    ledger.set_owner(&key(11), &old);
    ledger.set_owner(&key(12), &third);
    ledger.set_owner(&key(20), &new);
    ledger.set_owned_hotkeys(&old, &vec![key(10), key(11)]);
    ledger.set_owned_hotkeys(&new, &vec![key(20)]);
    ledger.set_owned_hotkeys(&third, &vec![key(12)]);
    ledger.set_staking_hotkeys(&old, &vec![key(10), key(11), key(12)]);
    ledger.set_staking_hotkeys(&new, &vec![key(10)]);
    ledger.set_stake(&key(10), &old, 1000);
    ledger.set_stake(&key(11), &old, 2000);
    ledger.set_stake(&key(12), &old, 5);
    ledger.set_stake(&key(10), &new, 3000);
    ledger.set_stake(&key(12), &third, 77);
    ledger.set_total_stake_for_coldkey(&old, 3005);
    ledger.set_total_stake_for_coldkey(&new, 3000);
    ledger.set_total_stake_for_coldkey(&third, 77);
    ledger.set_total_stake_for_hotkey(&key(10), 4000);
    ledger.set_total_stake_for_hotkey(&key(11), 2000);
    ledger.set_total_stake_for_hotkey(&key(12), 82);
    ledger.set_total_stake(6082);
    ledger.set_total_issuance(10_000);
    ledger.set_subnet_owner(1, &old);
    ledger.set_subnet_owner(2, &third);
    ledger.set_subnet_owner(3, &new);
    ledger.set_subnet_owner(4, &old);
    ledger.add_balance_to_coldkey_account(&old, 40);
    ledger.add_balance_to_coldkey_account(&new, 2);
    ledger.set_stakes_this_interval_for_coldkey_hotkey(&old, &key(10), 1, 7);
    ledger.set_stakes_this_interval_for_coldkey_hotkey(&old, &key(12), 2, 8);
    ledger.set_stakes_this_interval_for_coldkey_hotkey(&third, &key(10), 3, 9);
    ledger
}

/// What the ledger holds for a handful of keys, to compare two ledgers by.
fn readings(ledger: &Pallet) -> Vec<u64> {
    let mut out = vec![ledger.get_total_stake(), ledger.get_total_issuance()];
    for c in [1u64, 2, 3] {
        out.push(ledger.get_total_stake_for_coldkey(&key(c)));
        out.push(ledger.get_coldkey_balance(&key(c)));
        out.push(ledger.get_owned_hotkeys(&key(c)).len() as u64);
        out.push(ledger.get_staking_hotkeys(&key(c)).len() as u64);
        out.push(ledger.owned_hotkeys_exist(&key(c)) as u64);
        out.push(ledger.staking_hotkeys_exist(&key(c)) as u64);
        for h in [10u64, 11, 12, 20] {
            out.push(ledger.get_stake_for_coldkey_and_hotkey(&key(c), &key(h)));
            out.push(ledger.stake_exists(&key(h), &key(c)) as u64);
            let (count, block) = ledger.get_stakes_this_interval_record(&key(h), &key(c));
            out.push(count);
            out.push(block);
            out.push(ledger.stakes_this_interval_exists(&key(h), &key(c)) as u64);
        }
    }
    for h in [10u64, 11, 12, 20] {
        out.push(ledger.get_total_stake_for_hotkey(&key(h)));
        out.push(ledger.get_owning_coldkey_for_hotkey(&key(h)).map_or(0, |c| c.lo as u64));
    }
    for n in 1u16..=4 {
        out.push(ledger.get_subnet_owner(n).map_or(0, |c| c.lo as u64));
    }
    out
}

#[test]
fn migration_scenario_merges_into_existing_stake() {
    let mut ledger = two_coldkeys();
    let (old, new) = (key(1), key(2));
    let mut weight = Weight::zero();
    assert_eq!(ledger.perform_swap_coldkey(&old, &new, &mut weight), Ok(()));

    assert_eq!(ledger.get_stake_for_coldkey_and_hotkey(&new, &key(10)), 4000);
    assert_eq!(ledger.get_stake_for_coldkey_and_hotkey(&new, &key(11)), 2000);
    assert_eq!(ledger.get_stake_for_coldkey_and_hotkey(&new, &key(12)), 5);
    assert_eq!(ledger.get_stake_for_coldkey_and_hotkey(&old, &key(10)), 0);
    assert_eq!(ledger.get_stake_for_coldkey_and_hotkey(&old, &key(11)), 0);
    assert_eq!(ledger.get_stake_for_coldkey_and_hotkey(&old, &key(12)), 0);
    assert!(!ledger.stake_exists(&key(10), &old));
    assert_eq!(ledger.get_stake_for_coldkey_and_hotkey(&key(3), &key(12)), 77);
    assert_eq!(ledger.get_total_stake_for_coldkey(&new), 3000 + 3005);
    assert_eq!(ledger.get_total_stake_for_coldkey(&old), 0);
    assert_eq!(ledger.get_owned_hotkeys(&new), vec![key(20), key(10), key(11)]);
    assert!(ledger.get_owned_hotkeys(&old).is_empty());
    assert!(!ledger.owned_hotkeys_exist(&old));
    assert_eq!(ledger.get_staking_hotkeys(&new), vec![key(10), key(11), key(12)]);
    assert!(!ledger.staking_hotkeys_exist(&old));
    assert_eq!(ledger.get_owning_coldkey_for_hotkey(&key(10)), Some(new));
    assert_eq!(ledger.get_owning_coldkey_for_hotkey(&key(11)), Some(new));
    assert_eq!(ledger.get_owning_coldkey_for_hotkey(&key(12)), Some(key(3)));
    assert_eq!(ledger.get_owning_coldkey_for_hotkey(&key(20)), Some(new));
    assert_eq!(ledger.get_coldkey_balance(&new), 42);
    assert_eq!(ledger.get_coldkey_balance(&old), 0);
    assert_eq!(ledger.last_event(), Some(Event::ColdkeySwapped { old_coldkey: old, new_coldkey: new }));
}

#[test]
fn migration_conserves_the_totals() {
    let mut ledger = two_coldkeys();
    let coldkey_totals = |l: &Pallet| -> u64 {
        [1u64, 2, 3].iter().map(|c| l.get_total_stake_for_coldkey(&key(*c))).sum()
    };
    let before = coldkey_totals(&ledger);
    let mut weight = Weight::zero();
    assert_eq!(ledger.perform_swap_coldkey(&key(1), &key(2), &mut weight), Ok(()));
    assert_eq!(ledger.get_total_stake(), 6082);
    assert_eq!(ledger.get_total_issuance(), 10_000);
    assert_eq!(coldkey_totals(&ledger), before);
    assert_eq!(ledger.get_total_stake_for_hotkey(&key(10)), 4000);
    assert_eq!(ledger.get_total_stake_for_hotkey(&key(11)), 2000);
    assert_eq!(ledger.get_total_stake_for_hotkey(&key(12)), 82);
}

#[test]
fn migration_keeps_the_sums_by_hotkey_and_by_coldkey() {
    let mut ledger = two_coldkeys();
    let on_hotkey = |l: &Pallet, h: u64| -> u64 {
        [1u64, 2, 3].iter().map(|c| l.get_stake_for_coldkey_and_hotkey(&key(*c), &key(h))).sum()
    };
    let of_coldkey = |l: &Pallet, c: u64| -> u64 {
        [10u64, 11, 12, 20].iter().map(|h| l.get_stake_for_coldkey_and_hotkey(&key(c), &key(*h))).sum()
    };
    assert_eq!(on_hotkey(&ledger, 10), 4000);
    assert_eq!(on_hotkey(&ledger, 11), 2000);
    assert_eq!(on_hotkey(&ledger, 12), 82);
    for c in [1u64, 2, 3] {
        assert_eq!(of_coldkey(&ledger, c), ledger.get_total_stake_for_coldkey(&key(c)));
    }
    let mut weight = Weight::zero();
    assert_eq!(ledger.perform_swap_coldkey(&key(1), &key(2), &mut weight), Ok(()));
    assert_eq!(on_hotkey(&ledger, 10), 4000);
    assert_eq!(on_hotkey(&ledger, 11), 2000);
    assert_eq!(on_hotkey(&ledger, 12), 82);
    for c in [1u64, 2, 3] {
        assert_eq!(of_coldkey(&ledger, c), ledger.get_total_stake_for_coldkey(&key(c)));
    }
    assert_eq!(of_coldkey(&ledger, 2), 6005);
}

#[test]
fn migration_keeps_owned_lists_and_owners_in_agreement() {
    let mut ledger = two_coldkeys();
    let mut weight = Weight::zero();
    assert_eq!(ledger.perform_swap_coldkey(&key(1), &key(2), &mut weight), Ok(()));
    for c in [1u64, 2, 3] {
        for h in ledger.get_owned_hotkeys(&key(c)) {
            assert_eq!(ledger.get_owning_coldkey_for_hotkey(&h), Some(key(c)));
        }
    }
}

#[test]
fn migration_reassigns_only_the_subnets_of_the_old_coldkey() {
    let mut ledger = two_coldkeys();
    let mut weight = Weight::zero();
    assert_eq!(ledger.perform_swap_coldkey(&key(1), &key(2), &mut weight), Ok(()));
    assert_eq!(ledger.get_subnet_owner(1), Some(key(2)));
    assert_eq!(ledger.get_subnet_owner(2), Some(key(3)));
    assert_eq!(ledger.get_subnet_owner(3), Some(key(2)));
    assert_eq!(ledger.get_subnet_owner(4), Some(key(2)));
    assert_eq!(ledger.get_subnet_owner(5), None);
}

#[test]
fn migration_moves_the_windows_of_owned_hotkeys_only() {
    let mut ledger = two_coldkeys();
    let (old, new) = (key(1), key(2));
    let mut weight = Weight::zero();
    assert_eq!(ledger.perform_swap_coldkey(&old, &new, &mut weight), Ok(()));
    // Hotkey 10 is owned by the old coldkey: its window moves.
    assert_eq!(ledger.get_stakes_this_interval_record(&key(10), &new), (1, 7));
    assert!(!ledger.stakes_this_interval_exists(&key(10), &old));
    // Hotkey 11 is owned but has no window: none is made.
    assert!(!ledger.stakes_this_interval_exists(&key(11), &new));
    // Hotkey 12 is not owned by the old coldkey: its window stays.
    assert_eq!(ledger.get_stakes_this_interval_record(&key(12), &old), (2, 8));
    assert!(!ledger.stakes_this_interval_exists(&key(12), &new));
    // The window of a third coldkey stays.
    assert_eq!(ledger.get_stakes_this_interval_record(&key(10), &key(3)), (3, 9));
}

#[test]
fn migration_charges_by_the_footprint() {
    let mut ledger = two_coldkeys();
    let mut weight = Weight::from_reads_writes(100, 200);
    assert_eq!(ledger.perform_swap_coldkey(&key(1), &key(2), &mut weight), Ok(()));
    // 8 for the records by coldkey, 2 * 2 owned hotkeys, 2 * 3 staking hotkeys, 4 subnets.
    assert_eq!(weight, Weight::from_reads_writes(100 + 22, 200 + 22));
}

#[test]
fn migration_of_nothing_charges_the_fixed_part() {
    let mut ledger = Pallet::new(100, 2);
    let mut weight = Weight::zero();
    assert_eq!(ledger.perform_swap_coldkey(&key(1), &key(2), &mut weight), Ok(()));
    assert_eq!(weight, Weight::from_reads_writes(8, 8));
}

#[test]
fn migration_meter_saturates() {
    let mut ledger = two_coldkeys();
    let mut weight = Weight::from_reads_writes(u64::MAX - 3, 0);
    assert_eq!(ledger.perform_swap_coldkey(&key(1), &key(2), &mut weight), Ok(()));
    assert_eq!(weight, Weight::from_reads_writes(u64::MAX, 22));
}

#[test]
fn migration_twice_is_migration_once() {
    let mut once = two_coldkeys();
    let mut twice = two_coldkeys();
    let mut weight = Weight::zero();
    assert_eq!(once.perform_swap_coldkey(&key(1), &key(2), &mut weight), Ok(()));
    assert_eq!(twice.perform_swap_coldkey(&key(1), &key(2), &mut weight), Ok(()));
    assert_eq!(twice.perform_swap_coldkey(&key(1), &key(2), &mut weight), Ok(()));
    assert_eq!(readings(&once), readings(&twice));
    assert_eq!(once.get_owned_hotkeys(&key(2)), twice.get_owned_hotkeys(&key(2)));
    assert_eq!(once.get_staking_hotkeys(&key(2)), twice.get_staking_hotkeys(&key(2)));
    // Only the notifications tell the two apart.
    assert_eq!(once.event_count(), 1);
    assert_eq!(twice.event_count(), 2);
}

#[test]
fn migration_from_an_empty_source_changes_nothing_of_the_target() {
    let mut ledger = two_coldkeys();
    let before = readings(&ledger);
    let owned = ledger.get_owned_hotkeys(&key(2));
    let staking = ledger.get_staking_hotkeys(&key(2));
    let mut weight = Weight::zero();
    // Coldkey 50 holds nothing at all.
    assert_eq!(ledger.perform_swap_coldkey(&key(50), &key(2), &mut weight), Ok(()));
    assert_eq!(readings(&ledger), before);
    assert_eq!(ledger.get_owned_hotkeys(&key(2)), owned);
    assert_eq!(ledger.get_staking_hotkeys(&key(2)), staking);
}

#[test]
fn migration_to_a_fresh_coldkey() {
    let mut ledger = two_coldkeys();
    let mut weight = Weight::zero();
    assert_eq!(ledger.perform_swap_coldkey(&key(1), &key(60), &mut weight), Ok(()));
    assert_eq!(ledger.get_owned_hotkeys(&key(60)), vec![key(10), key(11)]);
    assert_eq!(ledger.get_staking_hotkeys(&key(60)), vec![key(10), key(11), key(12)]);
    assert_eq!(ledger.get_stake_for_coldkey_and_hotkey(&key(60), &key(10)), 1000);
    assert_eq!(ledger.get_total_stake_for_coldkey(&key(60)), 3005);
    assert_eq!(ledger.get_coldkey_balance(&key(60)), 40);
    // The other coldkey keeps what it had.
    assert_eq!(ledger.get_stake_for_coldkey_and_hotkey(&key(2), &key(10)), 3000);
    assert_eq!(ledger.get_owned_hotkeys(&key(2)), vec![key(20)]);
}

#[test]
fn migration_stake_saturates() {
    let mut ledger = Pallet::new(100, 2);
    ledger.set_staking_hotkeys(&key(1), &vec![key(10)]);
    ledger.set_stake(&key(10), &key(1), u64::MAX - 1);
    ledger.set_stake(&key(10), &key(2), 5);
    ledger.add_balance_to_coldkey_account(&key(1), u64::MAX);
    ledger.add_balance_to_coldkey_account(&key(2), 1);
    let mut weight = Weight::zero();
    assert_eq!(ledger.perform_swap_coldkey(&key(1), &key(2), &mut weight), Ok(()));
    assert_eq!(ledger.get_stake_for_coldkey_and_hotkey(&key(2), &key(10)), u64::MAX);
    assert_eq!(ledger.get_stake_for_coldkey_and_hotkey(&key(1), &key(10)), 0);
    assert_eq!(ledger.get_coldkey_balance(&key(2)), u64::MAX);
    assert_eq!(ledger.get_coldkey_balance(&key(1)), 0);
}

#[test]
fn migration_skips_stake_outside_the_staking_list() {
    let mut ledger = Pallet::new(100, 2);
    // Stake is recorded, but the hotkey is not in the list of the old coldkey.
    ledger.set_stake(&key(10), &key(1), 500);
    let mut weight = Weight::zero();
    assert_eq!(ledger.perform_swap_coldkey(&key(1), &key(2), &mut weight), Ok(()));
    assert_eq!(ledger.get_stake_for_coldkey_and_hotkey(&key(1), &key(10)), 500);
    assert_eq!(ledger.get_stake_for_coldkey_and_hotkey(&key(2), &key(10)), 0);
}

#[test]
fn migration_writes_no_stake_for_an_empty_position() {
    let mut ledger = Pallet::new(100, 2);
    ledger.set_staking_hotkeys(&key(1), &vec![key(10)]);
    ledger.set_stake(&key(10), &key(1), 0);
    let mut weight = Weight::zero();
    assert_eq!(ledger.perform_swap_coldkey(&key(1), &key(2), &mut weight), Ok(()));
    assert!(!ledger.stake_exists(&key(10), &key(1)));
    assert!(!ledger.stake_exists(&key(10), &key(2)));
}

#[test]
fn migration_onto_itself_drops_the_footprint() {
    let mut ledger = two_coldkeys();
    let mut weight = Weight::zero();
    assert_eq!(ledger.perform_swap_coldkey(&key(1), &key(1), &mut weight), Ok(()));
    assert!(ledger.get_owned_hotkeys(&key(1)).is_empty());
    assert!(ledger.get_staking_hotkeys(&key(1)).is_empty());
    assert_eq!(ledger.get_stake_for_coldkey_and_hotkey(&key(1), &key(10)), 0);
    assert_eq!(ledger.get_total_stake_for_coldkey(&key(1)), 0);
    assert!(!ledger.stakes_this_interval_exists(&key(10), &key(1)));
    // Its subnets, its hotkeys' owner records and its balance stay with it.
    assert_eq!(ledger.get_subnet_owner(1), Some(key(1)));
    assert_eq!(ledger.get_owning_coldkey_for_hotkey(&key(10)), Some(key(1)));
    assert_eq!(ledger.get_coldkey_balance(&key(1)), 40);
    assert_eq!(ledger.get_total_stake(), 6082);
}

#[test]
fn withdrawals_up_to_the_ceiling_then_rate_limited() {
    let mut ledger = two_coldkeys();
    ledger.set_current_block(1000);
    // The window of (hotkey 10, coldkey 2) is empty and the ceiling is 2.
    assert_eq!(ledger.do_remove_stake(&key(2), &key(20), 0, 1), Err(Error::InsufficientStake));
    ledger.set_delegate(&key(10), 0);
    assert_eq!(ledger.do_remove_stake(&key(2), &key(10), 0, 100), Ok(()));
    ledger.set_current_block(1050);
    assert_eq!(ledger.do_remove_stake(&key(2), &key(10), 0, 100), Ok(()));
    ledger.set_current_block(1149);
    assert_eq!(ledger.do_remove_stake(&key(2), &key(10), 0, 100), Err(Error::RateLimited));
    assert_eq!(ledger.get_stake_for_coldkey_and_hotkey(&key(2), &key(10)), 2800);
    assert_eq!(ledger.get_coldkey_balance(&key(2)), 202);
}

#[test]
fn migration_then_withdrawal_by_the_new_coldkey() {
    let mut ledger = two_coldkeys();
    ledger.set_current_block(1000);
    let mut weight = Weight::zero();
    assert_eq!(ledger.perform_swap_coldkey(&key(1), &key(2), &mut weight), Ok(()));
    // The new coldkey now owns hotkey 11 and holds the stake on it.
    assert_eq!(ledger.do_remove_stake(&key(1), &key(11), 0, 10), Err(Error::Unauthorized));
    assert_eq!(ledger.do_remove_stake(&key(2), &key(11), 0, 500), Ok(()));
    assert_eq!(ledger.get_stake_for_coldkey_and_hotkey(&key(2), &key(11)), 1500);
    assert_eq!(ledger.get_coldkey_balance(&key(2)), 542);
    assert_eq!(ledger.get_total_stake(), 5582);
}
