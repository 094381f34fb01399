//! The append-only log: what an append adds, what replay rebuilds, and what it tolerates.

use steller::domain::cache::{Cache, Entry};
use steller::domain::command::cache::write::WriteCommand;
use steller::domain::time::Milliseconds;
use steller::outbound::persister::aof::{Aof, AofError};
use steller::resp::frame::FrameError;

fn set(key: &str, value: &str, expires_at: Option<Milliseconds>) -> WriteCommand {
    WriteCommand::set(key.as_bytes().to_vec(), value.as_bytes().to_vec(), expires_at)
}

fn entry(value: &str) -> Entry {
    Entry::new(value.as_bytes().to_vec(), None)
}

// ---------- append ----------

#[test]
fn append_writes_resp_frame_to_disk() {
    let mut aof = Aof::default();
    aof.append(set("foo", "bar", None)).unwrap();
    assert_eq!(
        aof.as_bytes(),
        b"*3\r\n$3\r\nSET\r\n$3\r\nfoo\r\n$3\r\nbar\r\n"
    );
}

// A SET carrying a deadline logs it as PXAT, the millisecond verb, because that is the form
// the parser reads back without converting.
#[test]
fn append_writes_set_deadline_as_pxat() {
    let mut aof = Aof::default();
    aof.append(set("foo", "bar", Some(Milliseconds::new(1_700_000_000_000))))
        .unwrap();
    assert_eq!(
        aof.as_bytes(),
        b"*5\r\n$3\r\nSET\r\n$3\r\nfoo\r\n$3\r\nbar\r\n$4\r\nPXAT\r\n$13\r\n1700000000000\r\n"
    );
}

#[test]
fn append_multiple_commands_concatenates() {
    let mut aof = Aof::default();
    aof.append(set("a", "1", None)).unwrap();
    aof.append(WriteCommand::delete(b"a".to_vec())).unwrap();
    let expected = b"*3\r\n$3\r\nSET\r\n$1\r\na\r\n$1\r\n1\r\n*2\r\n$3\r\nDEL\r\n$1\r\na\r\n";
    assert_eq!(aof.as_bytes(), expected);
}

// ---------- replay ----------

#[test]
fn replay_empty_file_is_noop() {
    let aof = Aof::default();
    let mut cache = Cache::default();
    aof.replay(&mut cache).unwrap();
    assert_eq!(cache.as_map().len(), 0);
}

#[test]
fn replay_applies_set_to_cache() {
    let mut aof = Aof::default();
    aof.append(set("foo", "bar", None)).unwrap();
    let mut cache = Cache::default();
    aof.replay(&mut cache).unwrap();
    assert_eq!(cache.get(b"foo").unwrap(), Some(entry("bar")));
}

#[test]
fn replay_applies_commands_in_order() {
    let mut aof = Aof::default();
    aof.append(set("foo", "old", None)).unwrap();
    aof.append(set("foo", "new", None)).unwrap();
    aof.append(WriteCommand::delete(b"gone".to_vec())).unwrap();
    let mut cache = Cache::default();
    aof.replay(&mut cache).unwrap();
    assert_eq!(cache.get(b"foo").unwrap(), Some(entry("new")));
    assert_eq!(cache.get(b"gone").unwrap(), None);
}

// The deadline has to come back the same size it went in. This is the test that fails if
// encoding ever picks a second-granular verb the parser then multiplies.
#[test]
fn replay_preserves_a_set_deadline_exactly() {
    let mut aof = Aof::default();
    let deadline = Milliseconds::new(u64::MAX - 1);
    aof.append(set("foo", "bar", Some(deadline))).unwrap();
    let mut cache = Cache::default();
    aof.replay(&mut cache).unwrap();
    assert_eq!(cache.get_expires_at(b"foo").unwrap(), Some(Some(deadline)));
}

// Proves a deadline in the log survives the whole round-trip: encode, bytes, parse, execute.
#[test]
fn replay_applies_expire_at() {
    let mut aof = Aof::default();
    aof.append(set("foo", "bar", None)).unwrap();
    aof.append(WriteCommand::expire_at(
        b"foo".to_vec(),
        Milliseconds::new(u64::MAX),
    ))
    .unwrap();

    let mut cache = Cache::default();
    aof.replay(&mut cache).unwrap();
    assert_eq!(
        cache.get_expires_at(b"foo").unwrap(),
        Some(Some(Milliseconds::new(u64::MAX)))
    );
}

// A torn tail is what a crash mid-append leaves behind, so replay keeps everything before it
// rather than treating the log as corrupt.
#[test]
fn replay_trailing_partial_frame_is_tolerated() {
    let mut aof = Aof::default();
    aof.append(set("foo", "bar", None)).unwrap();
    let mut bytes = aof.as_bytes().to_vec();
    bytes.extend_from_slice(b"*3\r\n$3\r\nSET\r\n");

    let mut cache = Cache::default();
    Aof::from(bytes).replay(&mut cache).unwrap();
    assert_eq!(cache.get(b"foo").unwrap(), Some(entry("bar")));
}

#[test]
fn replay_malformed_frame_errors() {
    let aof = Aof::from(b"?bogus\r\n".to_vec());
    let mut cache = Cache::default();
    assert!(matches!(aof.replay(&mut cache), Err(AofError::Frame(_))));
}

// ---------- clear ----------

#[test]
fn clear_truncates_file() {
    let mut aof = Aof::default();
    aof.append(set("foo", "bar", None)).unwrap();
    aof.clear().unwrap();
    assert_eq!(aof.as_bytes().len(), 0);
}

#[test]
fn clear_allows_subsequent_appends() {
    let mut aof = Aof::default();
    aof.append(set("old", "v", None)).unwrap();
    aof.clear().unwrap();
    aof.append(set("new", "v", None)).unwrap();
    let mut cache = Cache::default();
    aof.replay(&mut cache).unwrap();
    assert_eq!(cache.get(b"old").unwrap(), None);
    assert_eq!(cache.get(b"new").unwrap(), Some(entry("v")));
}

// ---------- what stops a replay ----------

#[test]
fn replay_stops_at_a_frame_that_is_no_command() {
    let mut aof = Aof::default();
    aof.append(set("foo", "bar", None)).unwrap();
    let mut bytes = aof.as_bytes().to_vec();
    bytes.extend_from_slice(b"*1\r\n$5\r\nFLUSH\r\n");
    let mut cache = Cache::default();
    assert!(matches!(
        Aof::from(bytes).replay(&mut cache),
        Err(AofError::Command(_))
    ));
    // What came before it has been applied.
    assert_eq!(cache.get(b"foo").unwrap(), Some(entry("bar")));
}

#[test]
fn replay_passes_over_commands_that_do_not_touch_the_cache() {
    let aof = Aof::from(
        b"*1\r\n$4\r\nPING\r\n*2\r\n$9\r\nSUBSCRIBE\r\n$1\r\nc\r\n*3\r\n$3\r\nset\r\n$1\r\nk\r\n$1\r\nv\r\n"
            .to_vec(),
    );
    let mut cache = Cache::default();
    aof.replay(&mut cache).unwrap();
    assert_eq!(cache.as_map().len(), 1);
    assert_eq!(cache.get(b"k").unwrap(), Some(entry("v")));
}

// A cut anywhere in the last frame costs that frame only.
#[test]
fn replay_tolerates_every_cut() {
    let mut aof = Aof::default();
    aof.append(set("foo", "bar", None)).unwrap();
    let whole = aof.as_bytes().len();
    aof.append(WriteCommand::delete(b"foo".to_vec())).unwrap();
    let bytes = aof.as_bytes().to_vec();
    for cut in whole..bytes.len() {
        let mut cache = Cache::default();
        Aof::from(bytes[..cut].to_vec()).replay(&mut cache).unwrap();
        assert_eq!(cache.get(b"foo").unwrap(), Some(entry("bar")), "cut at {}", cut);
    }
}

// A payload with something else behind it is no torn tail.
#[test]
fn replay_refuses_a_payload_without_its_terminator() {
    let mut cache = Cache::default();
    let aof = Aof::from(b"*2\r\n$3\r\nDEL\r\n$1\r\nkxx".to_vec());
    assert!(matches!(
        aof.replay(&mut cache),
        Err(AofError::Frame(FrameError::MissingTerminator))
    ));
}

#[test]
fn replay_at_uses_the_reading_it_is_given() {
    let mut aof = Aof::default();
    aof.append(set("foo", "bar", None)).unwrap();
    aof.append(WriteCommand::expire_at(b"foo".to_vec(), Milliseconds::new(50)))
        .unwrap();
    let mut before = Cache::default();
    aof.replay_at(&mut before, Milliseconds::new(49)).unwrap();
    assert_eq!(before.as_map().len(), 1);
    let mut after = Cache::default();
    aof.replay_at(&mut after, Milliseconds::new(50)).unwrap();
    assert_eq!(after.as_map().len(), 0);
}
