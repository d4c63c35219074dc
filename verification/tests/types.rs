use iron_indexer::address_set::AddressSet;
use iron_indexer::db::types::{Address, Order, B256, U256};
use iron_indexer::sync::filter::AddressFilter;

fn addr(tail: u32) -> Address {
    let mut bytes = [0u8; 20];
    bytes[16..].copy_from_slice(&tail.to_be_bytes());
    Address(bytes)
}

#[test]
fn repeat_byte_fills_every_byte() {
    assert_eq!(Address::repeat_byte(0xab), Address([0xab; 20]));
    assert_eq!(B256::repeat_byte(0x01), B256([0x01; 32]));
}

#[test]
fn from_slice_takes_20_bytes_only() {
    let bytes: Vec<u8> = (1..=20).collect();
    let a = Address::from_slice(&bytes).unwrap();
    assert_eq!(a.0.to_vec(), bytes);
    assert_eq!(Address::from_slice(&bytes[..19]), None);
    assert_eq!(Address::from_slice(&[0u8; 21]), None);
    assert_eq!(Address::from_slice(&[]), None);
}

#[test]
fn addresses_are_ordered_byte_by_byte() {
    let mut low = [0u8; 20];
    let mut high = [0u8; 20];
    low[19] = 0xff;
    high[0] = 0x01;
    assert_eq!(Address(low).order(&Address(high)), Order::Less);
    assert_eq!(Address(high).order(&Address(low)), Order::Greater);
    assert_eq!(Address(low).order(&Address(low)), Order::Equal);
    assert!(Address(low).same(&Address(low)));
    assert!(!Address(low).same(&Address(high)));
}

#[test]
fn u256_orders_as_a_number() {
    let mut one = [0u8; 32];
    one[31] = 1;
    let mut big = [0u8; 32];
    big[0] = 1;
    assert_eq!(U256(one).order(&U256(big)), Order::Less);
    assert_eq!(U256(big).order(&U256(one)), Order::Greater);
    assert_eq!(U256(one).order(&U256(one)), Order::Equal);
}

#[test]
fn address_set_keeps_ascending_order_without_duplicates() {
    let mut set = AddressSet::new();
    assert!(set.is_empty());
    assert!(set.insert(addr(5)));
    assert!(set.insert(addr(1)));
    assert!(set.insert(addr(9)));
    assert!(!set.insert(addr(5)));
    assert!(set.insert(addr(3)));
    assert_eq!(set.len(), 4);
    assert_eq!(set.to_vec(), vec![addr(1), addr(3), addr(5), addr(9)]);
    assert_eq!(set.get(0), addr(1));
    assert_eq!(set.get(3), addr(9));
    assert!(set.contains(&addr(3)));
    assert!(!set.contains(&addr(4)));
    assert!(!set.is_empty());
}

#[test]
fn address_set_finds_every_member_among_many() {
    let mut set = AddressSet::new();
    for i in (0..2000u32).rev() {
        set.insert(addr(i * 2));
    }
    assert_eq!(set.len(), 2000);
    for i in 0..2000u32 {
        assert!(set.contains(&addr(i * 2)));
        assert!(!set.contains(&addr(i * 2 + 1)));
    }
}

#[test]
fn filter_answers_as_the_exact_set() {
    let initial: Vec<Address> = (0..100u32).map(|i| addr(i * 3)).collect();
    let filter = AddressFilter::new(&initial);
    assert_eq!(filter.len(), 100);
    for i in 0..300u32 {
        assert_eq!(filter.contains(&addr(i)), i % 3 == 0);
    }
}

#[test]
fn filter_built_empty_takes_many_addresses() {
    let mut filter = AddressFilter::new(&Vec::new());
    assert_eq!(filter.len(), 0);
    assert!(!filter.contains(&addr(1)));
    for i in 0..5000u32 {
        assert!(filter.insert(addr(i * 2)));
    }
    assert_eq!(filter.len(), 5000);
    for i in 0..5000u32 {
        assert!(filter.contains(&addr(i * 2)));
        assert!(!filter.contains(&addr(i * 2 + 1)));
    }
}

#[test]
fn filter_insert_is_idempotent() {
    let mut filter = AddressFilter::new(&vec![addr(1), addr(1), addr(2)]);
    assert_eq!(filter.len(), 2);
    assert!(!filter.insert(addr(1)));
    assert!(filter.insert(addr(7)));
    assert!(!filter.insert(addr(7)));
    assert_eq!(filter.len(), 3);
    assert!(filter.contains(&addr(7)));
}
