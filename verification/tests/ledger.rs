use cw_lockbox::balance::{coins, Balance, GenericBalance};
use cw_lockbox::error::ContractError;
use cw_lockbox::state::{Lock, Locks};
use cw_lockbox::time::Timestamp;

fn funds(amount: u128) -> GenericBalance {
    let mut funds = GenericBalance::new();
    funds.add_tokens(Balance::Native(coins(amount, "token"))).unwrap();
    funds
}

fn lock_of(owner: &str, id: &str, amount: u128) -> Lock {
    Lock::new(
        owner.to_string(),
        id.to_string(),
        Timestamp::from_seconds(1),
        Timestamp::from_seconds(2),
        funds(amount),
        false,
    )
    .unwrap()
}

fn keys(locks: &Locks) -> Vec<(String, String)> {
    locks.entries().iter().map(|l| (l.owner().clone(), l.id().clone())).collect()
}

fn owner_ids(locks: &Locks, owner: &str) -> Vec<String> {
    locks.scan_by_owner(&owner.to_string()).iter().map(|l| l.id().clone()).collect()
}

#[test]
fn lock_new_holds_what_it_was_given() {
    let lock = Lock::new(
        "owner".to_string(),
        "id".to_string(),
        Timestamp::from_nanos(5),
        Timestamp::from_nanos(6),
        funds(9),
        false,
    )
    .unwrap();
    assert_eq!(lock.owner(), "owner");
    assert_eq!(lock.id(), "id");
    assert_eq!(lock.create(), Timestamp::from_nanos(5));
    assert_eq!(lock.expire(), Timestamp::from_nanos(6));
    assert_eq!(lock.funds(), &funds(9));
    assert!(!lock.complete());
}

#[test]
fn lock_new_refuses_an_expiry_that_is_not_later() {
    let at = Timestamp::from_nanos(5);
    let res = Lock::new("o".to_string(), "i".to_string(), at, at, funds(1), false);
    assert_eq!(res, Err(ContractError::LowExpired));
    let res = Lock::new("o".to_string(), "i".to_string(), at, Timestamp::from_nanos(4), funds(1), true);
    assert_eq!(res, Err(ContractError::LowExpired));
}

#[test]
fn lock_deposit_adds_to_the_funds() {
    let lock = lock_of("o", "i", 2).deposit(Balance::Native(coins(3, "token"))).unwrap();
    assert_eq!(lock, lock_of("o", "i", 5));
}

#[test]
fn lock_deposit_overflow_fails() {
    let res = lock_of("o", "i", u128::MAX).deposit(Balance::Native(coins(1, "token")));
    assert_eq!(res, Err(ContractError::Overflow));
}

#[test]
fn lock_released_is_complete_and_keeps_its_funds() {
    let lock = lock_of("o", "i", 2).released();
    assert!(lock.complete());
    assert_eq!(lock.funds(), &funds(2));
    assert_eq!(lock.owner(), "o");
    assert_eq!(lock.id(), "i");
}

#[test]
fn new_ledger_holds_nothing() {
    let locks = Locks::new();
    assert_eq!(locks.entries().len(), 0);
    assert_eq!(locks.get(&"o".to_string(), &"i".to_string()), Err(ContractError::NotFound));
    assert!(locks.scan_by_owner(&"o".to_string()).is_empty());
}

#[test]
fn insert_if_absent_then_get() {
    let mut locks = Locks::new();
    assert_eq!(locks.insert_if_absent(lock_of("o", "i", 2)), Ok(()));
    assert_eq!(locks.get(&"o".to_string(), &"i".to_string()), Ok(&lock_of("o", "i", 2)));
}

#[test]
fn insert_if_absent_refuses_a_key_in_use() {
    let mut locks = Locks::new();
    locks.insert_if_absent(lock_of("o", "i", 2)).unwrap();
    let before = locks.clone();
    assert_eq!(locks.insert_if_absent(lock_of("o", "i", 7)), Err(ContractError::AlreadyInUse));
    assert_eq!(locks, before);
    assert_eq!(locks.get(&"o".to_string(), &"i".to_string()), Ok(&lock_of("o", "i", 2)));
}

#[test]
fn get_goes_by_owner_and_id() {
    let mut locks = Locks::new();
    locks.insert_if_absent(lock_of("alice", "1", 1)).unwrap();
    locks.insert_if_absent(lock_of("bob", "1", 2)).unwrap();
    locks.insert_if_absent(lock_of("alice", "2", 3)).unwrap();
    assert_eq!(locks.get(&"alice".to_string(), &"1".to_string()), Ok(&lock_of("alice", "1", 1)));
    assert_eq!(locks.get(&"bob".to_string(), &"1".to_string()), Ok(&lock_of("bob", "1", 2)));
    assert_eq!(locks.get(&"alice".to_string(), &"2".to_string()), Ok(&lock_of("alice", "2", 3)));
    assert_eq!(locks.get(&"bob".to_string(), &"2".to_string()), Err(ContractError::NotFound));
    assert_eq!(locks.get(&"1".to_string(), &"alice".to_string()), Err(ContractError::NotFound));
}

#[test]
fn entries_stand_in_the_order_of_their_keys() {
    let mut locks = Locks::new();
    for (owner, id) in [("bob", "2"), ("alice", "b"), ("bob", "10"), ("al", "z"), ("alice", "a"), ("bob", "1")] {
        locks.insert_if_absent(lock_of(owner, id, 1)).unwrap();
    }
    let expected: Vec<(String, String)> =
        [("al", "z"), ("alice", "a"), ("alice", "b"), ("bob", "1"), ("bob", "10"), ("bob", "2")]
            .iter()
            .map(|(o, i)| (o.to_string(), i.to_string()))
            .collect();
    assert_eq!(keys(&locks), expected);
}

#[test]
fn scan_by_owner_ascends_by_id() {
    let mut locks = Locks::new();
    for (owner, id) in [("bob", "2"), ("alice", "x"), ("bob", "10"), ("bob", "1"), ("carol", "0")] {
        locks.insert_if_absent(lock_of(owner, id, 1)).unwrap();
    }
    assert_eq!(owner_ids(&locks, "bob"), vec!["1", "10", "2"]);
    assert_eq!(owner_ids(&locks, "alice"), vec!["x"]);
    assert_eq!(owner_ids(&locks, "dave"), Vec::<String>::new());
}

#[test]
fn scan_by_owner_can_be_made_again() {
    let mut locks = Locks::new();
    locks.insert_if_absent(lock_of("bob", "b", 1)).unwrap();
    locks.insert_if_absent(lock_of("bob", "a", 1)).unwrap();
    assert_eq!(owner_ids(&locks, "bob"), owner_ids(&locks, "bob"));
    assert_eq!(owner_ids(&locks, "bob"), vec!["a", "b"]);
}

#[test]
fn put_overwrites_the_lock_under_its_key() {
    let mut locks = Locks::new();
    locks.insert_if_absent(lock_of("o", "1", 1)).unwrap();
    locks.insert_if_absent(lock_of("o", "2", 2)).unwrap();
    locks.put(lock_of("o", "1", 9));
    assert_eq!(locks.entries(), &vec![lock_of("o", "1", 9), lock_of("o", "2", 2)]);
}

#[test]
fn put_inserts_where_the_key_is_free() {
    let mut locks = Locks::new();
    locks.put(lock_of("o", "2", 2));
    locks.put(lock_of("o", "1", 1));
    assert_eq!(locks.entries(), &vec![lock_of("o", "1", 1), lock_of("o", "2", 2)]);
}
