//! The service: what reaches the cache, and what reaches the log.

use steller::domain::cache::{Cache, Entry};
use steller::domain::command::cache::read::ReadCommand;
use steller::domain::command::cache::write::WriteCommand;
use steller::domain::command::cache::CacheCommand;
use steller::domain::command::outcome::CommandOutcome;
use steller::domain::ports::{CacheRepository, CacheService, RepositoryError, ServiceError};
use steller::domain::service::Service;
use steller::domain::time::Milliseconds;

/// [`CacheRepository`] fake that records every appended command. Snapshot calls are no-ops.
#[derive(Default)]
struct RecordingRepo {
    appended: Vec<WriteCommand>,
}

impl CacheRepository for RecordingRepo {
    fn append(&mut self, command: WriteCommand) -> Result<(), RepositoryError> {
        self.appended.push(command);
        Ok(())
    }

    fn snapshot(&mut self, _cache: &Cache) -> Result<(), RepositoryError> {
        Ok(())
    }
}

fn build() -> Service<RecordingRepo> {
    Service::new(Cache::default(), RecordingRepo::default())
}

// ---------- execute ----------

#[test]
fn service_execute_get_miss_returns_value_none() {
    let mut svc = build();
    assert!(matches!(
        svc.execute(&ReadCommand::get(b"missing".to_vec()).into()).unwrap(),
        CommandOutcome::Value(None)
    ));
}

#[test]
fn execute_set_writes_to_cache() {
    let mut svc = build();
    svc.execute(&WriteCommand::set(b"foo".to_vec(), b"bar".to_vec(), None).into())
        .unwrap();
    assert_eq!(svc.cache.get(b"foo").unwrap(), Some(Entry::new(b"bar".to_vec(), None)));
}

#[test]
fn execute_set_with_deadline_writes_it_through() {
    let mut svc = build();
    let deadline = Milliseconds::now()
        .unwrap()
        .saturating_add(Milliseconds::new(60_000));
    svc.execute(&WriteCommand::set(b"foo".to_vec(), b"bar".to_vec(), Some(deadline)).into())
        .unwrap();
    assert_eq!(svc.cache.get_expires_at(b"foo").unwrap(), Some(Some(deadline)));
}

// A plain SET replaces the whole Entry, which is how it clears an existing TTL.
#[test]
fn execute_plain_set_clears_an_existing_ttl() {
    let mut svc = build();
    let deadline = Milliseconds::now()
        .unwrap()
        .saturating_add(Milliseconds::new(60_000));
    svc.cache.insert(b"foo".to_vec(), Entry::new(b"bar".to_vec(), Some(deadline)))
        .unwrap();
    svc.execute(&WriteCommand::set(b"foo".to_vec(), b"baz".to_vec(), None).into())
        .unwrap();
    assert_eq!(svc.cache.get_expires_at(b"foo").unwrap(), Some(None));
}

#[test]
fn execute_does_not_append_to_repo() {
    let mut svc = build();
    svc.execute(&WriteCommand::set(b"foo".to_vec(), b"bar".to_vec(), None).into())
        .unwrap();
    svc.execute(&WriteCommand::delete(b"foo".to_vec()).into()).unwrap();
    svc.execute(&WriteCommand::expire_at(b"foo".to_vec(), Milliseconds::new(u64::MAX)).into())
        .unwrap();
    assert!(svc.cache_repo.appended.is_empty());
}

// ---------- execute_logged ----------

#[test]
fn execute_logged_set_appends() {
    let mut svc = build();
    svc.execute_logged(WriteCommand::set(b"foo".to_vec(), b"bar".to_vec(), None).into())
        .unwrap();
    let log = &svc.cache_repo.appended;
    assert_eq!(log.len(), 1);
    assert!(matches!(
        &log[0],
        WriteCommand::SetKey { key, value, expires_at: None }
            if key == b"foo" && value == b"bar"
    ));
}

#[test]
fn execute_logged_delete_appends() {
    let mut svc = build();
    svc.execute_logged(WriteCommand::delete(b"foo".to_vec()).into())
        .unwrap();
    let log = &svc.cache_repo.appended;
    assert!(matches!(&log[0], WriteCommand::Delete { key } if key == b"foo"));
}

#[test]
fn execute_logged_expire_at_appends() {
    let mut svc = build();
    svc.cache.insert(b"foo".to_vec(), Entry::new(b"bar".to_vec(), None)).unwrap();
    svc.execute_logged(WriteCommand::expire_at(b"foo".to_vec(), Milliseconds::new(u64::MAX)).into())
        .unwrap();
    let log = &svc.cache_repo.appended;
    assert!(matches!(
        &log[0],
        WriteCommand::ExpireAt { key, expires_at }
            if key == b"foo" && expires_at.get() == u64::MAX
    ));
}

#[test]
fn execute_logged_persist_appends() {
    let mut svc = build();
    svc.execute_logged(WriteCommand::persist(b"foo".to_vec()).into())
        .unwrap();
    let log = &svc.cache_repo.appended;
    assert!(matches!(&log[0], WriteCommand::Persist { key } if key == b"foo"));
}

#[test]
fn execute_logged_get_does_not_append() {
    let mut svc = build();
    svc.execute_logged(ReadCommand::get(b"foo".to_vec()).into()).unwrap();
    assert!(svc.cache_repo.appended.is_empty());
}

#[test]
fn execute_logged_exists_does_not_append() {
    let mut svc = build();
    svc.execute_logged(ReadCommand::key_exists(b"foo".to_vec()).into())
        .unwrap();
    assert!(svc.cache_repo.appended.is_empty());
}

#[test]
fn execute_logged_ttl_does_not_append() {
    let mut svc = build();
    svc.execute_logged(ReadCommand::ttl(b"foo".to_vec()).into()).unwrap();
    assert!(svc.cache_repo.appended.is_empty());
}

#[test]
fn execute_logged_set_returns_ok_outcome() {
    let mut svc = build();
    assert!(matches!(
        svc.execute_logged(WriteCommand::set(b"foo".to_vec(), b"bar".to_vec(), None).into())
            .unwrap(),
        CommandOutcome::Done
    ));
}

// Where the log refuses, its own error comes back, and the change has still been made.
#[test]
fn a_refused_append_is_passed_on() {
    struct Refusing;
    impl CacheRepository for Refusing {
        fn append(&mut self, command: WriteCommand) -> Result<(), RepositoryError> {
            Err(RepositoryError::Generic(format!("{command:?}").into_bytes()))
        }

        fn snapshot(&mut self, _cache: &Cache) -> Result<(), RepositoryError> {
            Ok(())
        }
    }
    let mut service = Service::new(Cache::default(), Refusing);
    let set = || WriteCommand::set(b"k".to_vec(), b"v".to_vec(), None);
    match service.execute_logged(CacheCommand::Write(set())) {
        Err(ServiceError::Repository(e)) => {
            assert_eq!(e.message(), format!("{:?}", set()).into_bytes());
        }
        other => panic!("{other:?}"),
    }
    assert!(service.cache.as_map().contains_key(b"k"));
}
