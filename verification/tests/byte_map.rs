//! The byte-keyed map, held against std's.

use std::collections::BTreeMap;
use steller::byte_map::ByteMap;

fn contents(map: &ByteMap<u32>) -> Vec<(Vec<u8>, u32)> {
    (0..map.len())
        .map(|i| {
            let (key, value) = map.entry_at(i);
            (key.clone(), *value)
        })
        .collect()
}

#[test]
fn a_new_map_is_empty() {
    let map: ByteMap<u32> = ByteMap::new();
    assert!(map.is_empty());
    assert_eq!(map.len(), 0);
    assert_eq!(map.get(b"a"), None);
    assert!(!map.contains_key(b""));
}

#[test]
fn insert_returns_what_was_there() {
    let mut map = ByteMap::new();
    assert_eq!(map.insert(b"a".to_vec(), 1u32), None);
    assert_eq!(map.insert(b"a".to_vec(), 2), Some(1));
    assert_eq!(map.get(b"a"), Some(&2));
    assert_eq!(map.len(), 1);
}

#[test]
fn remove_returns_what_was_there() {
    let mut map = ByteMap::new();
    map.insert(b"a".to_vec(), 1u32);
    assert_eq!(map.remove(b"b"), None);
    assert_eq!(map.remove(b"a"), Some(1));
    assert_eq!(map.remove(b"a"), None);
    assert!(map.is_empty());
}

#[test]
fn a_long_run_of_changes_ends_where_std_ends() {
    let mut ours: ByteMap<u32> = ByteMap::new();
    let mut theirs: BTreeMap<Vec<u8>, u32> = BTreeMap::new();
    let mut seed = 12345u32;
    for step in 0..2000u32 {
        seed = seed.wrapping_mul(1664525).wrapping_add(1013904223);
        let key = ((seed >> 16) % 97).to_string().into_bytes();
        if seed % 3 == 0 {
            assert_eq!(ours.remove(&key), theirs.remove(&key));
        } else {
            assert_eq!(ours.insert(key.clone(), step), theirs.insert(key, step));
        }
        assert_eq!(ours.len(), theirs.len());
    }
    assert_eq!(contents(&ours), theirs.into_iter().collect::<Vec<_>>());
}
