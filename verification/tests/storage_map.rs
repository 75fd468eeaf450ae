use feeless::primitives::{AccountId, EvmAddress, StorageKey};
use feeless::storage::StorageMap;

fn account(n: u8) -> AccountId {
    AccountId([n; 32])
}

#[test]
fn keys_are_the_same_when_every_byte_is() {
    let mut other = [7u8; 32];
    assert!(account(7).same(&AccountId(other)));
    other[31] = 8;
    assert!(!account(7).same(&AccountId(other)));
    other[31] = 7;
    other[0] = 0;
    assert!(!account(7).same(&AccountId(other)));
    let mut address = [3u8; 20];
    assert!(EvmAddress([3u8; 20]).same(&EvmAddress(address)));
    address[19] = 4;
    assert!(!EvmAddress([3u8; 20]).same(&EvmAddress(address)));
}

#[test]
fn map_starts_empty() {
    let map: StorageMap<AccountId, u128> = StorageMap::new();
    assert_eq!(map.len(), 0);
    assert_eq!(map.get(&account(1)), None);
    assert!(!map.contains_key(&account(1)));
    assert_eq!(map.to_vec(), Vec::new());
}

#[test]
fn insert_gives_a_key_its_latest_value() {
    let mut map: StorageMap<AccountId, u128> = StorageMap::new();
    map.insert(account(1), 10);
    map.insert(account(2), 20);
    map.insert(account(1), 11);
    assert_eq!(map.len(), 2);
    assert_eq!(map.get(&account(1)), Some(11));
    assert_eq!(map.get(&account(2)), Some(20));
    assert_eq!(map.get(&account(3)), None);
    assert!(map.contains_key(&account(2)));
    assert_eq!(map.to_vec(), vec![(account(1), 11), (account(2), 20)]);
    assert_eq!(map.entry_at(0), (account(1), 11));
    assert_eq!(map.entry_at(1), (account(2), 20));
}

#[test]
fn remove_takes_one_key_away() {
    let mut map: StorageMap<AccountId, u128> = StorageMap::new();
    map.insert(account(1), 10);
    map.insert(account(2), 20);
    map.insert(account(3), 30);
    map.remove(&account(2));
    assert_eq!(map.to_vec(), vec![(account(1), 10), (account(3), 30)]);
    map.remove(&account(2));
    assert_eq!(map.len(), 2);
    map.remove(&account(1));
    map.remove(&account(3));
    assert_eq!(map.len(), 0);
    assert_eq!(map.get(&account(1)), None);
}

#[test]
fn push_new_appends_a_fresh_key() {
    let mut map: StorageMap<AccountId, u128> = StorageMap::new();
    map.push_new(account(5), 50);
    map.push_new(account(4), 40);
    assert_eq!(map.to_vec(), vec![(account(5), 50), (account(4), 40)]);
    assert_eq!(map.get(&account(4)), Some(40));
}

#[test]
fn from_pairs_refuses_a_repeated_key() {
    let pairs = vec![(account(1), 10u128), (account(2), 20), (account(1), 30)];
    assert!(StorageMap::from_pairs(&pairs).is_none());
    let map = StorageMap::from_pairs(&pairs[..2]).expect("distinct keys");
    assert_eq!(map.to_vec(), pairs[..2].to_vec());
    let empty: StorageMap<AccountId, u128> = StorageMap::from_pairs(&[]).expect("no keys");
    assert_eq!(empty.len(), 0);
}
