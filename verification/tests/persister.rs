//! The persister: the log and the snapshot together, and recovery from both.

use steller::domain::cache::{Cache, Entry};
use steller::domain::command::cache::write::WriteCommand;
use steller::domain::ports::CacheRepository;
use steller::domain::time::Milliseconds;
use steller::inbound::server::{recover, recover_at, RecoveryError};
use steller::outbound::persister::aof::Aof;
use steller::outbound::persister::snapshot::{Snapshot, SnapshotError};
use steller::outbound::persister::Persister;

fn fresh() -> Persister {
    Persister::new(Aof::default(), Snapshot::default())
}

fn set(key: &str, value: &str) -> WriteCommand {
    WriteCommand::set(key.as_bytes().to_vec(), value.as_bytes().to_vec(), None)
}

fn entry(value: &str) -> Entry {
    Entry::new(value.as_bytes().to_vec(), None)
}

#[test]
fn append_writes_to_aof_only() {
    let mut persister = fresh();
    persister.append(set("foo", "bar")).unwrap();
    assert!(!persister.aof.as_bytes().is_empty());
    assert_eq!(persister.snapshot.as_bytes().len(), 0);
}

#[test]
fn snapshot_persists_cache_contents() {
    let mut persister = fresh();
    let mut cache = Cache::default();
    cache.insert(b"foo".to_vec(), entry("bar")).unwrap();
    persister.snapshot(&cache).unwrap();
    let loaded = persister.snapshot.load().unwrap();
    assert_eq!(loaded.get(b"foo".as_slice()), Some(&entry("bar")));
}

// Snapshotting truncates the log. That truncation is the compaction.
#[test]
fn snapshot_clears_the_aof() {
    let mut persister = fresh();
    persister.append(set("foo", "bar")).unwrap();
    assert!(!persister.aof.as_bytes().is_empty());

    let mut cache = Cache::default();
    cache.insert(b"foo".to_vec(), entry("bar")).unwrap();
    persister.snapshot(&cache).unwrap();

    assert_eq!(persister.aof.as_bytes().len(), 0);
}

#[test]
fn append_after_snapshot_resumes_logging() {
    let mut persister = fresh();
    let mut cache = Cache::default();
    cache.insert(b"foo".to_vec(), entry("bar")).unwrap();
    persister.snapshot(&cache).unwrap();

    persister
        .append(WriteCommand::Delete {
            key: b"foo".to_vec(),
        })
        .unwrap();

    // Replay the post-snapshot log on a cache rebuilt from the snapshot.
    let mut recovered = Cache::new(persister.snapshot.load().unwrap());
    persister.aof.replay(&mut recovered).unwrap();
    assert_eq!(recovered.get(b"foo").unwrap(), None);
}

// Where the snapshot cannot be written, the log that covers for it stays.
#[test]
fn a_failed_snapshot_leaves_the_log() {
    let mut persister = fresh();
    persister.append(set("foo", "bar")).unwrap();
    let log = persister.aof.as_bytes().to_vec();
    let mut cache = Cache::default();
    cache
        .insert(b"foo".to_vec(), Entry::new(vec![0u8; (4 << 20) + 1], None))
        .unwrap();
    let refusal = persister.snapshot(&cache).unwrap_err();
    let cause = Snapshot::default().store(cache.as_map()).unwrap_err();
    assert!(matches!(cause, SnapshotError::Write(_)));
    assert_eq!(refusal.message(), cause.message());
    assert_eq!(persister.aof.as_bytes(), log.as_slice());
    assert_eq!(persister.snapshot.as_bytes().len(), 0);
}

// ---------- recovery ----------

#[test]
fn recovery_replays_the_log_on_top_of_the_snapshot() {
    let mut persister = fresh();
    let mut cache = Cache::default();
    cache.insert(b"a".to_vec(), entry("1")).unwrap();
    cache.insert(b"b".to_vec(), entry("2")).unwrap();
    persister.snapshot(&cache).unwrap();
    persister.append(set("b", "3")).unwrap();
    persister.append(set("c", "4")).unwrap();
    let mut recovered = recover(&persister).unwrap();
    assert_eq!(recovered.get(b"a").unwrap(), Some(entry("1")));
    assert_eq!(recovered.get(b"b").unwrap(), Some(entry("3")));
    assert_eq!(recovered.get(b"c").unwrap(), Some(entry("4")));
}

#[test]
fn recovery_sweeps_what_has_expired() {
    let mut persister = fresh();
    persister
        .append(WriteCommand::set(
            b"gone".to_vec(),
            b"v".to_vec(),
            Some(Milliseconds::new(10)),
        ))
        .unwrap();
    persister
        .append(WriteCommand::set(
            b"kept".to_vec(),
            b"v".to_vec(),
            Some(Milliseconds::new(30)),
        ))
        .unwrap();
    let recovered = recover_at(&persister, Milliseconds::new(20)).unwrap();
    assert_eq!(recovered.as_map().len(), 1);
    assert!(recovered.as_map().contains_key(b"kept"));
    assert_eq!(recover(&persister).unwrap().as_map().len(), 0);
}

#[test]
fn recovery_refuses_a_corrupt_snapshot() {
    let persister = Persister::new(Aof::default(), Snapshot::from(vec![1]));
    assert!(matches!(
        recover(&persister),
        Err(RecoveryError::Snapshot(SnapshotError::Read(_)))
    ));
    assert!(matches!(
        recover_at(&persister, Milliseconds::new(0)),
        Err(RecoveryError::Snapshot(SnapshotError::Read(_)))
    ));
}

#[test]
fn recovery_refuses_a_corrupt_log() {
    let persister = Persister::new(Aof::from(b"?1\r\n".to_vec()), Snapshot::default());
    assert!(matches!(recover(&persister), Err(RecoveryError::Aof(_))));
    assert!(matches!(
        recover_at(&persister, Milliseconds::new(0)),
        Err(RecoveryError::Aof(_))
    ));
}

// A crash between writing the snapshot and emptying the log replays commands that the
// snapshot already holds, which changes nothing.
#[test]
fn replaying_what_the_snapshot_holds_changes_nothing() {
    let mut cache = Cache::default();
    let mut aof = Aof::default();
    for c in [
        set("a", "1"),
        set("b", "2"),
        WriteCommand::delete(b"a".to_vec()),
        WriteCommand::expire_at(b"b".to_vec(), Milliseconds::new(1_000)),
        set("c", "3"),
        WriteCommand::persist(b"b".to_vec()),
    ] {
        cache.write_at(&c, Milliseconds::new(1));
        aof.append(c).unwrap();
    }
    let mut snapshot = Snapshot::default();
    snapshot.store(cache.as_map()).unwrap();
    let crashed = Persister::new(aof, snapshot);
    let recovered = recover_at(&crashed, Milliseconds::new(1)).unwrap();
    assert_eq!(recovered.as_map(), cache.as_map());
}

fn expire_at(key: &str, millis: u64) -> WriteCommand {
    WriteCommand::expire_at(key.as_bytes().to_vec(), Milliseconds::new(millis))
}

fn persist(key: &str) -> WriteCommand {
    WriteCommand::persist(key.as_bytes().to_vec())
}

/// Carry out each change at its time, and log it.
fn live(changes: &[(WriteCommand, u64)]) -> (Cache, Aof) {
    let mut cache = Cache::default();
    let mut aof = Aof::default();
    for (change, at) in changes {
        cache.write_at(change, Milliseconds::new(*at));
        aof.append(change.clone()).unwrap();
    }
    (cache, aof)
}

/// What a restart at `now` finds under `key`, next to what the live cache shows.
fn found_and_shown(changes: &[(WriteCommand, u64)], key: &[u8], now: u64) -> (bool, bool) {
    let (mut cache, aof) = live(changes);
    let persister = Persister::new(aof, Snapshot::default());
    let mut recovered = recover_at(&persister, Milliseconds::new(now)).unwrap();
    (
        recovered.get_at(key, Milliseconds::new(now)).is_some(),
        cache.get_at(key, Milliseconds::new(now)).is_some(),
    )
}

#[test]
fn a_restart_finds_what_was_there() {
    let changes = [
        (set("a", "1"), 10),
        (expire_at("a", 100), 11),
        (set("b", "2"), 12),
        (expire_at("b", 50), 13),
        (set("b", "3"), 60),
        (set("c", "4"), 61),
        (expire_at("c", 62), 63),
    ];
    for (key, now, there) in [
        (b"a", 99, true),
        (b"a", 100, false),
        (b"b", 99, true),
        (b"c", 99, false),
    ] {
        assert_eq!(found_and_shown(&changes, key, now), (there, there));
    }
}

// A deadline that was taken off in time is seen to pass by a replay that comes after it.
#[test]
fn a_replay_after_a_lifted_deadline_loses_the_key() {
    let changes = [
        (set("k", "v"), 1),
        (expire_at("k", 100), 2),
        (persist("k"), 3),
    ];
    assert_eq!(found_and_shown(&changes, b"k", 99), (true, true));
    assert_eq!(found_and_shown(&changes, b"k", 100), (false, true));
}

#[test]
fn a_replayed_log_rebuilds_the_cache_while_no_deadline_passes() {
    let changes = [
        (set("a", "1"), 10),
        (expire_at("a", 100), 11),
        (persist("a"), 12),
        (expire_at("a", 90), 13),
        (set("b", "2"), 14),
        (WriteCommand::delete(b"b".to_vec()), 15),
    ];
    let (cache, aof) = live(&changes);
    let persister = Persister::new(aof, Snapshot::default());
    let recovered = recover_at(&persister, Milliseconds::new(89)).unwrap();
    assert_eq!(recovered.as_map(), cache.as_map());
}
