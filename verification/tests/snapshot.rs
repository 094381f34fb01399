//! The snapshot: what is stored is what is loaded.

use steller::byte_map::ByteMap;
use steller::domain::cache::Entry;
use steller::domain::time::Milliseconds;
use steller::outbound::persister::snapshot::{Row, Snapshot, SnapshotError, PREALLOCATION_LIMIT};

fn entry(value: &[u8], expires_at: Option<Milliseconds>) -> Entry {
    Entry::new(value.to_vec(), expires_at)
}

#[test]
fn load_empty_file_returns_empty_map() {
    let snap = Snapshot::default();
    assert!(snap.load().unwrap().is_empty());
}

#[test]
fn store_then_load_round_trips_single_entry() {
    let mut snap = Snapshot::default();
    let mut map = ByteMap::new();
    map.insert(b"foo".to_vec(), entry(b"bar", None));
    snap.store(&map).unwrap();
    assert_eq!(snap.load().unwrap(), map);
}

#[test]
fn store_then_load_round_trips_multiple_entries() {
    let mut snap = Snapshot::default();
    let mut map = ByteMap::new();
    map.insert(b"a".to_vec(), entry(b"1", None));
    map.insert(
        b"b".to_vec(),
        entry(b"2", Some(Milliseconds::new(1_700_000_000))),
    );
    map.insert(b"c".to_vec(), entry(&[0xff, 0x00, 0x7f], None));
    snap.store(&map).unwrap();
    assert_eq!(snap.load().unwrap(), map);
}

#[test]
fn store_overwrites_previous_snapshot() {
    let mut snap = Snapshot::default();
    let mut first = ByteMap::new();
    first.insert(b"foo".to_vec(), entry(b"old", None));
    snap.store(&first).unwrap();

    let mut second = ByteMap::new();
    second.insert(b"foo".to_vec(), entry(b"new", None));
    snap.store(&second).unwrap();

    assert_eq!(snap.load().unwrap(), second);
}

// The dump is a length, then each key with its value and its deadline; keys in order.
#[test]
fn stored_bytes_have_the_documented_layout() {
    let mut snap = Snapshot::default();
    let mut map = ByteMap::new();
    map.insert(b"k".to_vec(), entry(b"vw", Some(Milliseconds::new(258))));
    map.insert(b"a".to_vec(), entry(b"", None));
    snap.store(&map).unwrap();
    let mut expected: Vec<u8> = Vec::new();
    expected.extend_from_slice(&2u64.to_le_bytes());
    expected.extend_from_slice(&1u64.to_le_bytes());
    expected.extend_from_slice(b"a");
    expected.extend_from_slice(&0u64.to_le_bytes());
    expected.push(0);
    expected.extend_from_slice(&1u64.to_le_bytes());
    expected.extend_from_slice(b"k");
    expected.extend_from_slice(&2u64.to_le_bytes());
    expected.extend_from_slice(b"vw");
    expected.push(1);
    expected.extend_from_slice(&258u64.to_le_bytes());
    assert_eq!(snap.as_bytes(), expected.as_slice());
}

// A hash map of the same entries has the same wire form, so either can be read as the other.
#[test]
fn stored_bytes_read_back_as_a_hash_map() {
    let mut snap = Snapshot::default();
    let mut map = ByteMap::new();
    map.insert(b"foo".to_vec(), entry(b"bar", Some(Milliseconds::new(9))));
    snap.store(&map).unwrap();
    let read: std::collections::HashMap<Vec<u8>, (Vec<u8>, Option<u64>)> =
        wincode::deserialize(snap.as_bytes()).unwrap();
    assert_eq!(read.len(), 1);
    assert_eq!(
        read.get(b"foo".as_slice()),
        Some(&(b"bar".to_vec(), Some(9)))
    );
}

// What stands behind the rows is not looked at; rows that are cut off, or whose deadline is
// marked with neither a zero nor a one, are refused.
#[test]
fn only_what_the_bytes_start_with_is_read() {
    let mut snap = Snapshot::default();
    let mut map = ByteMap::new();
    map.insert(b"k".to_vec(), entry(b"v", None));
    snap.store(&map).unwrap();
    let whole = snap.as_bytes().to_vec();
    let mut longer = whole.clone();
    longer.extend_from_slice(b"rest");
    assert_eq!(Snapshot::from(longer).load().unwrap(), map);
    for at in 1..whole.len() {
        assert!(Snapshot::from(whole[..at].to_vec()).load().is_err(), "cut at {at}");
    }
    let mut marked = whole.clone();
    *marked.last_mut().unwrap() = 2;
    assert!(matches!(Snapshot::from(marked).load(), Err(SnapshotError::Read(_))));
    // A length over the limit is refused before anything is read.
    let mut long = 1u64.to_le_bytes().to_vec();
    long.extend_from_slice(&(PREALLOCATION_LIMIT as u64 + 1).to_le_bytes());
    long.extend_from_slice(&vec![0u8; PREALLOCATION_LIMIT + 32]);
    assert!(matches!(Snapshot::from(long).load(), Err(SnapshotError::Read(_))));
}

#[test]
fn corrupt_bytes_do_not_load() {
    let snap = Snapshot::from(vec![1, 2, 3]);
    assert!(matches!(snap.load(), Err(SnapshotError::Read(_))));
    let message = snap.load().unwrap_err().message();
    assert!(!message.is_empty());
}

#[test]
fn an_empty_map_round_trips() {
    let mut snap = Snapshot::default();
    let map: ByteMap<Entry> = ByteMap::new();
    snap.store(&map).unwrap();
    assert_eq!(snap.as_bytes(), &[0u8; 8]);
    assert!(snap.load().unwrap().is_empty());
}

// `wincode` refuses a payload above its preallocation limit, and the old snapshot stays.
#[test]
fn an_oversized_value_is_refused_and_the_old_snapshot_stays() {
    let mut snap = Snapshot::default();
    let mut small = ByteMap::new();
    small.insert(b"k".to_vec(), entry(b"v", None));
    snap.store(&small).unwrap();
    let mut large = ByteMap::new();
    large.insert(b"k".to_vec(), entry(&vec![0u8; (4 << 20) + 1], None));
    let refused = snap.store(&large);
    assert!(matches!(refused, Err(SnapshotError::Write(_))));
    assert!(!refused.unwrap_err().message().is_empty());
    assert_eq!(snap.load().unwrap(), small);
}

// Of two rows with one key the later counts.
#[test]
fn later_rows_win() {
    let map = Snapshot::restore(vec![
        (b"k".to_vec(), (b"old".to_vec(), None)),
        (b"k".to_vec(), (b"new".to_vec(), Some(7))),
    ]);
    assert_eq!(map.len(), 1);
    assert_eq!(
        map.get(b"k"),
        Some(&entry(b"new", Some(Milliseconds::new(7))))
    );
}

#[test]
fn dump_lists_rows_in_key_order() {
    let mut map = ByteMap::new();
    map.insert(b"b".to_vec(), entry(b"2", Some(Milliseconds::new(5))));
    map.insert(b"a".to_vec(), entry(b"1", None));
    assert_eq!(
        Snapshot::dump(&map),
        vec![
            (b"a".to_vec(), (b"1".to_vec(), None)),
            (b"b".to_vec(), (b"2".to_vec(), Some(5))),
        ]
    );
}

// At the limit a payload is written, and reads back.
#[test]
fn payloads_at_the_limit_are_written() {
    let mut snap = Snapshot::default();
    let mut map = ByteMap::new();
    map.insert(vec![b'k'; 4 << 20], entry(&vec![0u8; 4 << 20], None));
    snap.store(&map).unwrap();
    assert_eq!(snap.load().unwrap(), map);
    let mut long_key = ByteMap::new();
    long_key.insert(vec![b'k'; (4 << 20) + 1], entry(b"v", None));
    assert!(matches!(snap.store(&long_key), Err(SnapshotError::Write(_))));
}

// The list itself may take up as much memory as a payload.
#[test]
fn as_many_rows_as_the_limit_holds_are_written() {
    let most = PREALLOCATION_LIMIT / std::mem::size_of::<Row>();
    let mut snap = Snapshot::default();
    let mut map = ByteMap::new();
    for i in 0..most {
        map.insert((i as u32).to_be_bytes().to_vec(), entry(b"", None));
    }
    snap.store(&map).unwrap();
    assert_eq!(snap.load().unwrap().len(), most);
    map.insert((most as u32).to_be_bytes().to_vec(), entry(b"", None));
    assert!(matches!(snap.store(&map), Err(SnapshotError::Write(_))));
    assert_eq!(snap.load().unwrap().len(), most);
}

// A fault is described in `wincode`'s own words.
#[test]
fn faults_are_described_as_wincode_prints_them() {
    let read = Snapshot::from(vec![1, 2, 3]).load().unwrap_err();
    let mut large = ByteMap::new();
    large.insert(b"k".to_vec(), entry(&vec![0u8; (4 << 20) + 1], None));
    let write = Snapshot::default().store(&large).unwrap_err();
    for fault in [read, write] {
        let printed = match &fault {
            SnapshotError::Read(e) => e.to_string(),
            SnapshotError::Write(e) => e.to_string(),
        };
        assert!(!printed.is_empty());
        assert_eq!(fault.message(), printed.into_bytes());
    }
}
