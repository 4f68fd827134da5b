use gmab::key::order_key;
use gmab::SortedMultiMap;

fn key(x: f64) -> u64 {
    order_key(x.to_bits())
}

#[test]
fn test_sorted_multi_map_insert() {
    let mut map = SortedMultiMap::new();
    map.insert(key(1.0), 1);
    map.insert(key(1.0), 2);
    map.insert(key(2.0), 3);

    let items = map.iter();
    let mut iter = items.iter();

    assert_eq!(iter.next(), Some(&(key(1.0), 1)));
    assert_eq!(iter.next(), Some(&(key(1.0), 2)));
    assert_eq!(iter.next(), Some(&(key(2.0), 3)));
    assert_eq!(iter.next(), None);
}

#[test]
fn test_sorted_multi_map_delete() {
    let mut map = SortedMultiMap::new();
    map.insert(key(1.0), 1);
    map.insert(key(1.0), 2);
    map.insert(key(2.0), 3);

    assert!(map.delete(&key(1.0), &1));
    assert!(map.delete(&key(2.0), &3));
    assert!(!map.delete(&key(2.0), &3));

    let items = map.iter();
    let mut iter = items.iter();

    assert_eq!(iter.next(), Some(&(key(1.0), 2)));
    assert_eq!(iter.next(), None);
}

#[test]
fn sorted_multi_map_orders_negative_and_positive_keys() {
    let mut map = SortedMultiMap::new();
    map.insert(key(3.5), 0);
    map.insert(key(-2.0), 1);
    map.insert(key(0.0), 2);
    map.insert(key(-0.5), 3);
    map.insert(key(-0.0), 4);
    let order: Vec<usize> = map.iter().iter().map(|e| e.1).collect();
    assert_eq!(order, vec![1, 3, 2, 4, 0]);
    assert_eq!(map.len(), 5);
    assert_eq!(map.entry(0), (key(-2.0), 1));
}

#[test]
fn sorted_multi_map_delete_missing_value_under_present_key() {
    let mut map = SortedMultiMap::new();
    map.insert(7, 1);
    assert!(!map.delete(&7, &2));
    assert!(!map.delete(&8, &1));
    assert_eq!(map.iter(), vec![(7, 1)]);
}

#[test]
fn order_key_matches_double_order() {
    assert_eq!(key(0.0), key(-0.0));
    assert!(key(-1.0) < key(-0.5));
    assert!(key(-0.5) < key(0.0));
    assert!(key(0.0) < key(f64::MIN_POSITIVE));
    assert!(key(1.0) < key(1.5));
    assert!(key(f64::MAX) < key(f64::INFINITY));
    assert!(key(f64::NEG_INFINITY) < key(f64::MIN));
    assert_eq!(key(0.0), 0x8000_0000_0000_0000);
}
