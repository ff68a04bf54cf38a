use pallet_subtensor::account::AccountId;
use pallet_subtensor::balances::{Balances, InsufficientBalance};
use pallet_subtensor::hotkey_set::HotkeySet;
use pallet_subtensor::storage::{StorageKey, StorageMap};
use pallet_subtensor::weight::Weight;

fn id(n: u64) -> AccountId {
    AccountId::from_u64(n)
}

#[test]
fn account_from_u64_fills_the_low_bits() {
    assert_eq!(id(7), AccountId { hi: 0, lo: 7 });
    assert_eq!(id(u64::MAX), AccountId { hi: 0, lo: u64::MAX as u128 });
    assert_ne!(id(1), id(2));
}

#[test]
fn storage_keys_compare_by_every_part() {
    let a = AccountId { hi: 1, lo: 2 };
    let b = AccountId { hi: 1, lo: 3 };
    let c = AccountId { hi: 2, lo: 2 };
    assert!(a.key_eq(&a));
    assert!(!a.key_eq(&b));
    assert!(!a.key_eq(&c));
    assert!(5u16.key_eq(&5u16));
    assert!(!5u16.key_eq(&6u16));
    assert!((a, b).key_eq(&(a, b)));
    assert!(!(a, b).key_eq(&(b, a)));
    assert!(!(a, b).key_eq(&(a, c)));
    assert!((a, b, 1u16).key_eq(&(a, b, 1u16)));
    assert!(!(a, b, 1u16).key_eq(&(a, b, 2u16)));
    assert!(!(a, b, 1u16).key_eq(&(a, a, 1u16)));
    assert!(!(a, b, 1u16).key_eq(&(b, b, 1u16)));
}

#[test]
fn storage_map_insert_get_remove() {
    let mut m: StorageMap<u16, u64> = StorageMap::new();
    assert_eq!(m.get(&1), None);
    assert!(!m.contains_key(&1));
    assert_eq!(m.get_or(&1, 9), 9);
    m.insert(1, 10);
    m.insert(2, 20);
    m.insert(3, 30);
    assert_eq!(m.get(&1), Some(&10));
    assert_eq!(m.get(&2), Some(&20));
    assert_eq!(m.get_or(&3, 9), 30);
    m.insert(2, 22);
    assert_eq!(m.get(&2), Some(&22));
    assert_eq!(m.keys().len(), 3);
    m.remove(&1);
    assert_eq!(m.get(&1), None);
    assert_eq!(m.get(&2), Some(&22));
    assert_eq!(m.get(&3), Some(&30));
    m.remove(&1);
    let mut keys = m.keys();
    keys.sort();
    assert_eq!(keys, vec![2, 3]);
}

#[test]
fn storage_map_keeps_an_explicit_zero() {
    let mut m: StorageMap<(AccountId, AccountId), u64> = StorageMap::new();
    m.insert((id(1), id(2)), 0);
    assert!(m.contains_key(&(id(1), id(2))));
    assert!(!m.contains_key(&(id(2), id(1))));
    assert_eq!(m.get_or(&(id(1), id(2)), 5), 0);
}

#[test]
fn hotkey_set_keeps_order_and_drops_duplicates() {
    let set = HotkeySet::from_vec(&vec![id(3), id(1), id(3), id(2), id(1)]);
    assert_eq!(set.to_vec(), vec![id(3), id(1), id(2)]);
    assert_eq!(set.len(), 3);
    assert!(!set.is_empty());
    assert_eq!(set.get(0), id(3));
    assert_eq!(set.get(2), id(2));
    assert!(set.contains(&id(1)));
    assert!(!set.contains(&id(4)));
    assert!(HotkeySet::new().is_empty());
}

#[test]
fn hotkey_set_insert_is_membership_checked() {
    let mut set = HotkeySet::new();
    set.insert(id(1));
    set.insert(id(2));
    set.insert(id(1));
    assert_eq!(set.to_vec(), vec![id(1), id(2)]);
}

#[test]
fn hotkey_set_extend_is_a_union() {
    let mut set = HotkeySet::from_vec(&vec![id(1), id(2)]);
    set.extend(&vec![id(2), id(3), id(1), id(4), id(3)]);
    assert_eq!(set.to_vec(), vec![id(1), id(2), id(3), id(4)]);
    set.extend(&vec![]);
    assert_eq!(set.to_vec(), vec![id(1), id(2), id(3), id(4)]);
}

#[test]
fn hotkey_set_remove_and_duplicate() {
    let mut set = HotkeySet::from_vec(&vec![id(1), id(2), id(3)]);
    let copy = set.duplicate();
    set.remove(&id(2));
    assert_eq!(set.to_vec(), vec![id(1), id(3)]);
    set.remove(&id(9));
    assert_eq!(set.to_vec(), vec![id(1), id(3)]);
    assert_eq!(copy.to_vec(), vec![id(1), id(2), id(3)]);
}

#[test]
fn weight_accrues_and_saturates() {
    let mut w = Weight::zero();
    assert_eq!(w, Weight { reads: 0, writes: 0 });
    w.saturating_accrue(2, 3);
    w.saturating_accrue(1, 0);
    assert_eq!(w, Weight::from_reads_writes(3, 3));
    w.saturating_accrue(u64::MAX, 1);
    assert_eq!(w, Weight::from_reads_writes(u64::MAX, 4));
}

#[test]
fn balances_credit_and_debit() {
    let mut b = Balances::new();
    assert_eq!(b.balance_of(&id(1)), 0);
    b.credit(&id(1), 100);
    b.credit(&id(1), 20);
    assert_eq!(b.balance_of(&id(1)), 120);
    assert_eq!(b.debit(&id(1), 121), Err(InsufficientBalance));
    assert_eq!(b.balance_of(&id(1)), 120);
    assert_eq!(b.debit(&id(1), 50), Ok(()));
    assert_eq!(b.balance_of(&id(1)), 70);
    assert_eq!(b.debit(&id(1), 70), Ok(()));
    assert_eq!(b.balance_of(&id(1)), 0);
    assert_eq!(b.debit(&id(2), 1), Err(InsufficientBalance));
    assert_eq!(b.debit(&id(2), 0), Ok(()));
}

#[test]
fn balances_credit_saturates() {
    let mut b = Balances::new();
    b.credit(&id(1), u64::MAX - 1);
    b.credit(&id(1), 5);
    assert_eq!(b.balance_of(&id(1)), u64::MAX);
}
