use cilium_lb::map::E2BIG;
use cilium_lb::{MapError, MapIterator, MemMap};

#[test]
fn lookup_returns_last_written_value() {
    let mut t = MemMap::new(2, 3, 8);
    assert_eq!(t.lookup(&[1, 2]), Err(MapError::NotFound));
    t.update(&[1, 2], &[7, 7, 7]).unwrap();
    assert_eq!(t.lookup(&[1, 2]), Ok(vec![7, 7, 7]));
    t.update(&[1, 2], &[8, 8, 8]).unwrap();
    assert_eq!(t.lookup(&[1, 2]), Ok(vec![8, 8, 8]));
    t.delete(&[1, 2]).unwrap();
    assert_eq!(t.lookup(&[1, 2]), Err(MapError::NotFound));
    assert_eq!(t.delete(&[1, 2]), Err(MapError::NotFound));
}

#[test]
fn full_table_refuses_new_keys_only() {
    let mut t = MemMap::new(1, 1, 2);
    t.update(&[1], &[1]).unwrap();
    t.update(&[2], &[2]).unwrap();
    assert_eq!(t.update(&[3], &[3]), Err(MapError::Io(E2BIG)));
    assert_eq!(t.update(&[2], &[9]), Ok(()));
    assert_eq!(t.lookup(&[2]), Ok(vec![9]));
}

#[test]
fn next_key_walks_in_order_and_ends() {
    let mut t = MemMap::new(1, 1, 8);
    assert_eq!(t.get_next_key(&[0]), Err(MapError::EndOfEnumeration));
    t.update(&[5], &[50]).unwrap();
    t.update(&[3], &[30]).unwrap();
    assert_eq!(t.get_next_key(&[0]), Ok(vec![5]));
    assert_eq!(t.get_next_key(&[5]), Ok(vec![3]));
    assert_eq!(t.get_next_key(&[3]), Err(MapError::EndOfEnumeration));
}

#[test]
fn walk_visits_each_entry_once() {
    let mut t = MemMap::new(2, 1, 16);
    for i in 1u8..=5 {
        t.update(&[i, i], &[i * 10]).unwrap();
    }
    t.update(&[3, 3], &[99]).unwrap();
    t.delete(&[2, 2]).unwrap();
    let first = t.walk().unwrap();
    assert_eq!(
        first,
        vec![
            (vec![1, 1], vec![10]),
            (vec![3, 3], vec![99]),
            (vec![4, 4], vec![40]),
            (vec![5, 5], vec![50]),
        ]
    );
    let second = t.walk().unwrap();
    assert_eq!(first, second);
}

#[test]
fn walk_of_empty_table() {
    let t = MemMap::new(4, 4, 4);
    assert_eq!(t.walk(), Ok(vec![]));
}

#[test]
fn iterator_starts_from_zero_key() {
    let it = MapIterator::new(3);
    assert_eq!(it.key(), &vec![0, 0, 0]);
    assert!(!it.is_finished());
}

#[test]
fn iterator_end_and_failure_are_distinct() {
    let mut it = MapIterator::new(1);
    assert_eq!(it.on_next_key(Ok(vec![4])), Ok(Some(vec![4])));
    assert!(!it.is_finished());
    assert_eq!(it.on_next_key(Err(MapError::EndOfEnumeration)), Ok(None));
    assert!(it.is_finished());

    let mut it = MapIterator::new(1);
    assert_eq!(it.on_next_key(Err(MapError::Io(1))), Err(MapError::Io(1)));
    assert!(it.is_finished());
}

#[test]
fn iterator_skips_vanished_entries() {
    let mut it = MapIterator::new(1);
    assert_eq!(it.on_lookup(vec![4], Err(MapError::NotFound)), Ok(None));
    assert_eq!(it.key(), &vec![4]);
    assert!(!it.is_finished());
    assert_eq!(it.on_lookup(vec![6], Ok(vec![60])), Ok(Some((vec![6], vec![60]))));
    assert_eq!(it.key(), &vec![6]);
    assert_eq!(it.on_lookup(vec![7], Err(MapError::Io(5))), Err(MapError::Io(5)));
    assert_eq!(it.key(), &vec![6]);
    assert!(it.is_finished());
}
