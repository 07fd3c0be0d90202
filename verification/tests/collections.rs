use routable_graph::collections::{VecMap, VecSet};

#[test]
fn set_keeps_each_item_once_in_order_of_arrival() {
    let mut set: VecSet<u128> = VecSet::new();
    assert!(set.is_empty());
    set.insert(3);
    set.insert(1);
    set.insert(3);
    set.insert(2);
    assert_eq!(set.len(), 3);
    assert_eq!(set.to_vec(), vec![3, 1, 2]);
    assert!(set.contains(&1));
    assert!(!set.contains(&7));
    assert_eq!(set.position(&1), Some(1));
    assert_eq!(set.position(&7), None);
    assert_eq!(*set.get(2), 2);
}

#[test]
fn set_removal_says_whether_the_item_was_there() {
    let mut set = VecSet::from_vec(vec!["a".to_string(), "b".to_string(), "a".to_string()]);
    assert_eq!(set.to_vec(), vec!["a".to_string(), "b".to_string()]);
    assert!(set.remove(&"a".to_string()));
    assert!(!set.remove(&"a".to_string()));
    assert_eq!(set.to_vec(), vec!["b".to_string()]);
    assert_eq!(VecSet::unit(5u128).to_vec(), vec![5]);
}

#[test]
fn union_and_complement_keep_the_order_of_the_first_set() {
    let left = VecSet::from_vec(vec![1u128, 2, 3]);
    let right = VecSet::from_vec(vec![3u128, 4, 1, 5]);
    assert_eq!(left.union(&right).to_vec(), vec![1, 2, 3, 4, 5]);
    assert_eq!(right.union(&left).to_vec(), vec![3, 4, 1, 5, 2]);
    assert_eq!(left.relative_complement(&right).to_vec(), vec![2]);
    assert_eq!(right.relative_complement(&left).to_vec(), vec![4, 5]);
    assert_eq!(left.duplicate().to_vec(), vec![1, 2, 3]);
}

#[test]
fn map_replaces_in_place_and_appends_new_keys() {
    let mut map: VecMap<u128, String> = VecMap::new();
    assert!(map.is_empty());
    map.insert(7, "seven".to_string());
    map.insert(8, "eight".to_string());
    map.insert(7, "SEVEN".to_string());
    assert_eq!(map.len(), 2);
    assert_eq!(*map.key_at(0), 7);
    assert_eq!(map.value_at(0), "SEVEN");
    assert_eq!(map.get(&8), Some(&"eight".to_string()));
    assert_eq!(map.get(&9), None);
    assert!(map.contains_key(&7));
    assert_eq!(map.position(&8), Some(1));
    assert_eq!(map.remove(&7), Some("SEVEN".to_string()));
    assert_eq!(map.remove(&7), None);
    assert_eq!(map.len(), 1);
    assert_eq!(*map.key_at(0), 8);
}
