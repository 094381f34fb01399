//! The cache: every operation, lazy and active expiry, and command execution.

use steller::domain::cache::{Cache, CacheError, Entry};
use steller::domain::command::cache::read::ReadCommand;
use steller::domain::command::cache::write::WriteCommand;
use steller::domain::command::cache::CacheCommand;
use steller::domain::command::outcome::{CommandOutcome, TtlOutcome};
use steller::domain::time::{Milliseconds, Seconds};

// ---------- helpers ----------

fn now() -> Milliseconds {
    Milliseconds::now().unwrap()
}

/// A deadline `secs` from now.
fn in_secs(secs: u64) -> Milliseconds {
    now().saturating_add(Seconds::new(secs).into())
}

// ---------- Entry ----------

#[test]
fn entry_constructor_without_ttl() {
    assert_eq!(
        Entry::new(b"foo".to_vec(), None),
        Entry {
            value: b"foo".to_vec(),
            expires_at: None
        }
    );
}

#[test]
fn entry_constructor_with_ttl() {
    assert_eq!(
        Entry::new(b"foo".to_vec(), Some(Milliseconds::new(123))),
        Entry {
            value: b"foo".to_vec(),
            expires_at: Some(Milliseconds::new(123))
        }
    );
}

// ---------- get ----------

#[test]
fn get_miss_returns_none() {
    let mut cache = Cache::default();
    assert_eq!(cache.get(b"missing").unwrap(), None);
}

#[test]
fn get_hit_no_ttl_returns_entry() {
    let mut cache = Cache::default();
    cache.insert(b"foo".to_vec(), Entry::new(b"bar".to_vec(), None)).unwrap();
    assert_eq!(cache.get(b"foo").unwrap(), Some(Entry::new(b"bar".to_vec(), None)));
}

#[test]
fn get_hit_future_ttl_returns_entry() {
    let mut cache = Cache::default();
    let future = in_secs(3600);
    cache
        .insert(b"foo".to_vec(), Entry::new(b"bar".to_vec(), Some(future)))
        .unwrap();
    assert_eq!(
        cache.get(b"foo").unwrap(),
        Some(Entry::new(b"bar".to_vec(), Some(future)))
    );
}

#[test]
fn get_hit_expired_returns_none_and_removes() {
    let mut cache = Cache::default();
    cache
        .insert(b"foo".to_vec(), Entry::new(b"bar".to_vec(), Some(Milliseconds::new(1))))
        .unwrap();
    assert_eq!(cache.get(b"foo").unwrap(), None);
    // Verify the lazy expiry actually removed it.
    assert!(!cache.contains(b"foo").unwrap());
}

#[test]
fn get_hit_at_exact_expiry_returns_none() {
    let mut cache = Cache::default();
    let t = now();
    cache.insert(b"foo".to_vec(), Entry::new(b"bar".to_vec(), Some(t))).unwrap();
    // now >= t triggers the expired branch.
    assert_eq!(cache.get(b"foo").unwrap(), None);
}

// ---------- insert ----------

#[test]
fn insert_new_returns_none() {
    let mut cache = Cache::default();
    assert_eq!(cache.insert(b"foo".to_vec(), Entry::new(b"bar".to_vec(), None)).unwrap(), None);
}

#[test]
fn insert_existing_returns_old_entry() {
    let mut cache = Cache::default();
    cache.insert(b"foo".to_vec(), Entry::new(b"old".to_vec(), None)).unwrap();
    assert_eq!(
        cache.insert(b"foo".to_vec(), Entry::new(b"new".to_vec(), None)).unwrap(),
        Some(Entry::new(b"old".to_vec(), None))
    );
}

#[test]
fn insert_replaces_value_and_ttl() {
    let mut cache = Cache::default();
    cache
        .insert(b"foo".to_vec(), Entry::new(b"old".to_vec(), Some(in_secs(100))))
        .unwrap();
    cache.insert(b"foo".to_vec(), Entry::new(b"new".to_vec(), None)).unwrap();
    assert_eq!(cache.get(b"foo").unwrap(), Some(Entry::new(b"new".to_vec(), None)));
}

// ---------- remove ----------

#[test]
fn remove_hit_returns_entry() {
    let mut cache = Cache::default();
    cache.insert(b"foo".to_vec(), Entry::new(b"bar".to_vec(), None)).unwrap();
    assert_eq!(cache.remove(b"foo").unwrap(), Some(Entry::new(b"bar".to_vec(), None)));
}

#[test]
fn remove_miss_returns_none() {
    let mut cache = Cache::default();
    assert_eq!(cache.remove(b"missing").unwrap(), None);
}

#[test]
fn remove_actually_removes() {
    let mut cache = Cache::default();
    cache.insert(b"foo".to_vec(), Entry::new(b"bar".to_vec(), None)).unwrap();
    cache.remove(b"foo").unwrap();
    assert_eq!(cache.get(b"foo").unwrap(), None);
}

// ---------- contains ----------

#[test]
fn contains_miss_returns_false() {
    let mut cache = Cache::default();
    assert!(!cache.contains(b"missing").unwrap());
}

#[test]
fn contains_hit_no_ttl_returns_true() {
    let mut cache = Cache::default();
    cache.insert(b"foo".to_vec(), Entry::new(b"bar".to_vec(), None)).unwrap();
    assert!(cache.contains(b"foo").unwrap());
}

#[test]
fn contains_hit_future_ttl_returns_true() {
    let mut cache = Cache::default();
    cache
        .insert(b"foo".to_vec(), Entry::new(b"bar".to_vec(), Some(in_secs(3600))))
        .unwrap();
    assert!(cache.contains(b"foo").unwrap());
}

#[test]
fn contains_hit_expired_returns_false_and_removes() {
    let mut cache = Cache::default();
    cache
        .insert(b"foo".to_vec(), Entry::new(b"bar".to_vec(), Some(Milliseconds::new(1))))
        .unwrap();
    assert!(!cache.contains(b"foo").unwrap());
    assert_eq!(cache.get(b"foo").unwrap(), None);
}

// ---------- set_expires_at ----------

#[test]
fn set_expires_at_existing_key_future_returns_true_and_sets() {
    let mut cache = Cache::default();
    cache.insert(b"foo".to_vec(), Entry::new(b"bar".to_vec(), None)).unwrap();
    let future = in_secs(3600);
    assert!(cache.set_expires_at(b"foo", future).unwrap());
    assert_eq!(
        cache.get(b"foo").unwrap(),
        Some(Entry::new(b"bar".to_vec(), Some(future)))
    );
}

#[test]
fn set_expires_at_missing_key_future_returns_false() {
    let mut cache = Cache::default();
    assert!(!cache.set_expires_at(b"missing", in_secs(3600)).unwrap());
}

#[test]
fn set_expires_at_past_existing_key_removes_and_returns_true() {
    let mut cache = Cache::default();
    cache.insert(b"foo".to_vec(), Entry::new(b"bar".to_vec(), None)).unwrap();
    assert!(cache.set_expires_at(b"foo", Milliseconds::new(0)).unwrap());
    assert_eq!(cache.get(b"foo").unwrap(), None);
}

#[test]
fn set_expires_at_past_missing_key_returns_false() {
    let mut cache = Cache::default();
    assert!(
        !cache
            .set_expires_at(b"missing", Milliseconds::new(0))
            .unwrap()
    );
}

#[test]
fn set_expires_at_overwrites_existing_ttl() {
    let mut cache = Cache::default();
    cache
        .insert(b"foo".to_vec(), Entry::new(b"bar".to_vec(), Some(in_secs(100))))
        .unwrap();
    let new_ttl = in_secs(7200);
    assert!(cache.set_expires_at(b"foo", new_ttl).unwrap());
    assert_eq!(cache.get_expires_at(b"foo").unwrap(), Some(Some(new_ttl)));
}

// ---------- get_expires_at ----------

#[test]
fn get_expires_at_missing_key_returns_none() {
    let mut cache = Cache::default();
    assert_eq!(cache.get_expires_at(b"missing").unwrap(), None);
}

#[test]
fn get_expires_at_no_ttl_returns_some_none() {
    let mut cache = Cache::default();
    cache.insert(b"foo".to_vec(), Entry::new(b"bar".to_vec(), None)).unwrap();
    assert_eq!(cache.get_expires_at(b"foo").unwrap(), Some(None));
}

#[test]
fn get_expires_at_future_returns_some_some_timestamp() {
    let mut cache = Cache::default();
    let future = in_secs(3600);
    cache
        .insert(b"foo".to_vec(), Entry::new(b"bar".to_vec(), Some(future)))
        .unwrap();
    assert_eq!(cache.get_expires_at(b"foo").unwrap(), Some(Some(future)));
}

#[test]
fn get_expires_at_expired_removes_and_returns_none() {
    let mut cache = Cache::default();
    cache
        .insert(b"foo".to_vec(), Entry::new(b"bar".to_vec(), Some(Milliseconds::new(1))))
        .unwrap();
    assert_eq!(cache.get_expires_at(b"foo").unwrap(), None);
    assert!(!cache.contains(b"foo").unwrap());
}

// ---------- time_to_live ----------

#[test]
fn time_to_live_missing_key_returns_none() {
    let mut cache = Cache::default();
    assert_eq!(cache.time_to_live(b"missing").unwrap(), None);
}

#[test]
fn time_to_live_no_ttl_returns_some_none() {
    let mut cache = Cache::default();
    cache.insert(b"foo".to_vec(), Entry::new(b"bar".to_vec(), None)).unwrap();
    assert_eq!(cache.time_to_live(b"foo").unwrap(), Some(None));
}

#[test]
fn time_to_live_future_returns_remaining_millis() {
    let mut cache = Cache::default();
    let future = in_secs(3600);
    cache
        .insert(b"foo".to_vec(), Entry::new(b"bar".to_vec(), Some(future)))
        .unwrap();
    let remaining = match cache.time_to_live(b"foo").unwrap() {
        Some(Some(t)) => t,
        other => panic!("expected Some(Some(_)), got {other:?}"),
    };
    // ~3600s of millis, with slack for the clock ticking during the call.
    assert!((3_590_000..=3_600_000).contains(&remaining.get()));
}

#[test]
fn time_to_live_expired_returns_none() {
    let mut cache = Cache::default();
    cache
        .insert(b"foo".to_vec(), Entry::new(b"bar".to_vec(), Some(Milliseconds::new(1))))
        .unwrap();
    assert_eq!(cache.time_to_live(b"foo").unwrap(), None);
}

// ---------- remove_ttl ----------

#[test]
fn remove_ttl_had_ttl_returns_true_and_clears() {
    let mut cache = Cache::default();
    cache
        .insert(b"foo".to_vec(), Entry::new(b"bar".to_vec(), Some(in_secs(100))))
        .unwrap();
    assert!(cache.remove_ttl(b"foo").unwrap());
    assert_eq!(cache.get_expires_at(b"foo").unwrap(), Some(None));
}

#[test]
fn remove_ttl_no_ttl_returns_false() {
    let mut cache = Cache::default();
    cache.insert(b"foo".to_vec(), Entry::new(b"bar".to_vec(), None)).unwrap();
    assert!(!cache.remove_ttl(b"foo").unwrap());
}

#[test]
fn remove_ttl_missing_key_returns_false() {
    let mut cache = Cache::default();
    assert!(!cache.remove_ttl(b"missing").unwrap());
}

#[test]
fn remove_ttl_keeps_value_intact() {
    let mut cache = Cache::default();
    cache
        .insert(b"foo".to_vec(), Entry::new(b"bar".to_vec(), Some(in_secs(100))))
        .unwrap();
    cache.remove_ttl(b"foo").unwrap();
    assert_eq!(cache.get(b"foo").unwrap(), Some(Entry::new(b"bar".to_vec(), None)));
}

// ---------- remove_expired ----------

#[test]
fn remove_expired_empty_returns_zero() {
    let mut cache = Cache::default();
    assert_eq!(cache.remove_expired().unwrap(), 0);
}

#[test]
fn remove_expired_drops_expired_keys() {
    let mut cache = Cache::default();
    cache
        .insert(b"a".to_vec(), Entry::new(b"v".to_vec(), Some(Milliseconds::new(1))))
        .unwrap();
    cache
        .insert(b"b".to_vec(), Entry::new(b"v".to_vec(), Some(Milliseconds::new(1))))
        .unwrap();
    assert_eq!(cache.remove_expired().unwrap(), 2);
    assert!(!cache.contains(b"a").unwrap());
    assert!(!cache.contains(b"b").unwrap());
}

#[test]
fn remove_expired_keeps_future_keys() {
    let mut cache = Cache::default();
    cache
        .insert(b"a".to_vec(), Entry::new(b"v".to_vec(), Some(in_secs(3600))))
        .unwrap();
    assert_eq!(cache.remove_expired().unwrap(), 0);
    assert!(cache.contains(b"a").unwrap());
}

#[test]
fn remove_expired_keeps_no_ttl_keys() {
    let mut cache = Cache::default();
    cache.insert(b"a".to_vec(), Entry::new(b"v".to_vec(), None)).unwrap();
    assert_eq!(cache.remove_expired().unwrap(), 0);
    assert!(cache.contains(b"a").unwrap());
}

// ---------- execute ----------

fn get(key: impl Into<Vec<u8>>) -> CacheCommand {
    ReadCommand::get(key.into()).into()
}
fn delete(key: impl Into<Vec<u8>>) -> CacheCommand {
    WriteCommand::delete(key.into()).into()
}
fn key_exists(key: impl Into<Vec<u8>>) -> CacheCommand {
    ReadCommand::key_exists(key.into()).into()
}
fn expire_at(key: impl Into<Vec<u8>>, expires_at: Milliseconds) -> CacheCommand {
    WriteCommand::expire_at(key.into(), expires_at).into()
}
fn ttl(key: impl Into<Vec<u8>>) -> CacheCommand {
    ReadCommand::ttl(key.into()).into()
}
fn persist(key: impl Into<Vec<u8>>) -> CacheCommand {
    WriteCommand::persist(key.into()).into()
}

#[test]
fn cache_execute_get_miss_returns_value_none() {
    let mut cache = Cache::default();
    assert!(matches!(
        cache.execute(&get("missing")).unwrap(),
        CommandOutcome::Value(None)
    ));
}

#[test]
fn execute_get_hit_returns_value_some() {
    let mut cache = Cache::default();
    cache.insert(b"foo".to_vec(), Entry::new(b"bar".to_vec(), None)).unwrap();
    match cache.execute(&get("foo")).unwrap() {
        CommandOutcome::Value(Some(v)) => assert_eq!(v, b"bar".to_vec()),
        other => panic!("expected Value(Some), got {other:?}"),
    }
}

#[test]
fn execute_get_expired_returns_value_none() {
    let mut cache = Cache::default();
    cache
        .insert(b"foo".to_vec(), Entry::new(b"bar".to_vec(), Some(Milliseconds::new(1))))
        .unwrap();
    assert!(matches!(
        cache.execute(&get("foo")).unwrap(),
        CommandOutcome::Value(None)
    ));
}



#[test]
fn execute_delete_hit_returns_bool_true() {
    let mut cache = Cache::default();
    cache.insert(b"foo".to_vec(), Entry::new(b"bar".to_vec(), None)).unwrap();
    assert!(matches!(
        cache.execute(&delete("foo")).unwrap(),
        CommandOutcome::Bool(true)
    ));
    assert!(!cache.contains(b"foo").unwrap());
}

#[test]
fn execute_delete_miss_returns_bool_false() {
    let mut cache = Cache::default();
    assert!(matches!(
        cache.execute(&delete("missing")).unwrap(),
        CommandOutcome::Bool(false)
    ));
}

#[test]
fn execute_exists_hit_returns_integer_one() {
    let mut cache = Cache::default();
    cache.insert(b"foo".to_vec(), Entry::new(b"bar".to_vec(), None)).unwrap();
    assert!(matches!(
        cache.execute(&key_exists("foo")).unwrap(),
        CommandOutcome::Integer(1)
    ));
}

#[test]
fn execute_exists_miss_returns_integer_zero() {
    let mut cache = Cache::default();
    assert!(matches!(
        cache.execute(&key_exists("missing")).unwrap(),
        CommandOutcome::Integer(0)
    ));
}

#[test]
fn execute_expire_at_existing_returns_bool_true() {
    let mut cache = Cache::default();
    cache.insert(b"foo".to_vec(), Entry::new(b"bar".to_vec(), None)).unwrap();
    assert!(matches!(
        cache.execute(&expire_at("foo", in_secs(3600))).unwrap(),
        CommandOutcome::Bool(true)
    ));
}

#[test]
fn execute_expire_at_missing_returns_bool_false() {
    let mut cache = Cache::default();
    assert!(matches!(
        cache.execute(&expire_at("missing", in_secs(3600))).unwrap(),
        CommandOutcome::Bool(false)
    ));
}

#[test]
fn execute_ttl_missing_returns_key_not_found() {
    let mut cache = Cache::default();
    assert!(matches!(
        cache.execute(&ttl("missing")).unwrap(),
        CommandOutcome::Ttl(TtlOutcome::KeyNotFound)
    ));
}

#[test]
fn execute_ttl_no_ttl_returns_ttl_not_found() {
    let mut cache = Cache::default();
    cache.insert(b"foo".to_vec(), Entry::new(b"bar".to_vec(), None)).unwrap();
    assert!(matches!(
        cache.execute(&ttl("foo")).unwrap(),
        CommandOutcome::Ttl(TtlOutcome::TtlNotFound)
    ));
}

#[test]
fn execute_ttl_with_ttl_returns_ttl_some() {
    let mut cache = Cache::default();
    cache
        .insert(b"foo".to_vec(), Entry::new(b"bar".to_vec(), Some(in_secs(3600))))
        .unwrap();
    match cache.execute(&ttl("foo")).unwrap() {
        CommandOutcome::Ttl(TtlOutcome::Remaining(t)) => {
            assert!((3590..=3600).contains(&t.get()));
        }
        other => panic!("expected Ttl(Some), got {other:?}"),
    }
}

#[test]
fn execute_persist_had_ttl_returns_bool_true() {
    let mut cache = Cache::default();
    cache
        .insert(b"foo".to_vec(), Entry::new(b"bar".to_vec(), Some(in_secs(3600))))
        .unwrap();
    assert!(matches!(
        cache.execute(&persist("foo")).unwrap(),
        CommandOutcome::Bool(true)
    ));
}

#[test]
fn execute_persist_no_ttl_returns_bool_false() {
    let mut cache = Cache::default();
    cache.insert(b"foo".to_vec(), Entry::new(b"bar".to_vec(), None)).unwrap();
    assert!(matches!(
        cache.execute(&persist("foo")).unwrap(),
        CommandOutcome::Bool(false)
    ));
}

#[test]
fn execute_persist_missing_returns_bool_false() {
    let mut cache = Cache::default();
    assert!(matches!(
        cache.execute(&persist("missing")).unwrap(),
        CommandOutcome::Bool(false)
    ));
}

#[test]
fn remove_expired_mixed() {
    let mut cache = Cache::default();
    cache
        .insert(b"expired_a".to_vec(), Entry::new(b"v".to_vec(), Some(Milliseconds::new(1))))
        .unwrap();
    cache
        .insert(b"expired_b".to_vec(), Entry::new(b"v".to_vec(), Some(Milliseconds::new(1))))
        .unwrap();
    cache
        .insert(b"future".to_vec(), Entry::new(b"v".to_vec(), Some(in_secs(3600))))
        .unwrap();
    cache.insert(b"no_ttl".to_vec(), Entry::new(b"v".to_vec(), None)).unwrap();
    assert_eq!(cache.remove_expired().unwrap(), 2);
    assert!(!cache.contains(b"expired_a").unwrap());
    assert!(!cache.contains(b"expired_b").unwrap());
    assert!(cache.contains(b"future").unwrap());
    assert!(cache.contains(b"no_ttl").unwrap());
}

// ---------- by a given reading of the clock ----------

fn at(millis: u64) -> Milliseconds {
    Milliseconds::new(millis)
}

fn cache_with(key: &[u8], value: &[u8], expires_at: Option<Milliseconds>) -> Cache {
    let mut cache = Cache::default();
    cache
        .insert(key.to_vec(), Entry::new(value.to_vec(), expires_at))
        .unwrap();
    cache
}

#[test]
fn a_key_is_there_until_its_deadline_and_not_at_it() {
    let mut cache = cache_with(b"k", b"v", Some(at(1000)));
    assert_eq!(
        cache.get_at(b"k", at(999)),
        Some(Entry::new(b"v".to_vec(), Some(at(1000))))
    );
    assert!(cache.contains_at(b"k", at(999)));
    assert_eq!(cache.get_expires_at_at(b"k", at(999)), Some(Some(at(1000))));
    assert_eq!(cache.time_to_live_at(b"k", at(999)), Some(Some(at(1))));
    assert_eq!(cache.get_at(b"k", at(1000)), None);
    assert_eq!(cache.as_map().len(), 0);
}

#[test]
fn every_read_drops_what_has_expired() {
    for read in [
        CacheCommand::Read(ReadCommand::get(b"k".to_vec())),
        CacheCommand::Read(ReadCommand::key_exists(b"k".to_vec())),
        CacheCommand::Read(ReadCommand::ttl(b"k".to_vec())),
    ] {
        let mut cache = cache_with(b"k", b"v", Some(at(5)));
        cache.execute_at(&read, at(5));
        assert!(cache.as_map().is_empty());
    }
}

#[test]
fn exists_agrees_with_get_at_every_reading() {
    for now in [0, 4, 5, 6] {
        let mut one = cache_with(b"k", b"v", Some(at(5)));
        let mut other = cache_with(b"k", b"v", Some(at(5)));
        assert_eq!(
            one.contains_at(b"k", at(now)),
            other.get_at(b"k", at(now)).is_some()
        );
        assert_eq!(one.as_map(), other.as_map());
    }
}

#[test]
fn a_fresh_ttl_reads_back_whole() {
    let mut cache = cache_with(b"k", b"v", Some(at(1_060_000)));
    assert_eq!(
        cache.execute_at(&CacheCommand::Read(ReadCommand::ttl(b"k".to_vec())), at(1_000_000)),
        CommandOutcome::Ttl(TtlOutcome::Remaining(Seconds::new(60)))
    );
    assert_eq!(
        cache.execute_at(&CacheCommand::Read(ReadCommand::ttl(b"k".to_vec())), at(1_000_001)),
        CommandOutcome::Ttl(TtlOutcome::Remaining(Seconds::new(60)))
    );
}

#[test]
fn a_sweep_takes_only_what_has_expired() {
    let mut cache = cache_with(b"past", b"v", Some(at(10)));
    cache
        .insert(b"now".to_vec(), Entry::new(b"v".to_vec(), Some(at(20))))
        .unwrap();
    cache
        .insert(b"later".to_vec(), Entry::new(b"v".to_vec(), Some(at(21))))
        .unwrap();
    cache
        .insert(b"never".to_vec(), Entry::new(b"v".to_vec(), None))
        .unwrap();
    assert_eq!(cache.remove_expired_at(at(20)), 2);
    assert_eq!(cache.as_map().len(), 2);
    assert!(cache.as_map().contains_key(b"later"));
    assert!(cache.as_map().contains_key(b"never"));
}

#[test]
fn changes_leave_other_keys_alone() {
    let mut cache = cache_with(b"other", b"v", Some(at(50)));
    for write in [
        WriteCommand::set(b"k".to_vec(), b"w".to_vec(), None),
        WriteCommand::expire_at(b"k".to_vec(), at(99)),
        WriteCommand::persist(b"k".to_vec()),
        WriteCommand::delete(b"k".to_vec()),
    ] {
        cache.write_at(&write, at(1));
        assert_eq!(
            cache.as_map().get(b"other"),
            Some(&Entry::new(b"v".to_vec(), Some(at(50))))
        );
    }
}

#[test]
fn a_past_deadline_deletes_and_says_so() {
    let mut cache = cache_with(b"k", b"v", None);
    assert!(cache.set_expires_at_at(b"k", at(10), at(10)));
    assert!(cache.as_map().is_empty());
    assert!(!cache.set_expires_at_at(b"k", at(10), at(10)));
    assert!(!cache.set_expires_at_at(b"k", at(11), at(10)));
}

#[test]
fn persisting_keeps_the_value() {
    let mut cache = cache_with(b"k", b"v", Some(at(10)));
    assert_eq!(
        cache.write_at(&WriteCommand::persist(b"k".to_vec()), at(1)),
        CommandOutcome::Bool(true)
    );
    assert_eq!(cache.as_map().get(b"k"), Some(&Entry::new(b"v".to_vec(), None)));
    assert_eq!(
        cache.write_at(&WriteCommand::persist(b"k".to_vec()), at(1)),
        CommandOutcome::Bool(false)
    );
}

#[test]
fn faults_are_described() {
    let before_the_epoch = (std::time::UNIX_EPOCH - std::time::Duration::from_secs(1))
        .duration_since(std::time::UNIX_EPOCH)
        .unwrap_err();
    assert_eq!(
        CacheError::SystemTime(before_the_epoch.clone()).message(),
        before_the_epoch.to_string().into_bytes()
    );
    assert_eq!(
        CacheError::MutexPoisoned.message(),
        b"cache mutex poisoned".to_vec()
    );
}
