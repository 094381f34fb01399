//! Frames lifted to commands.

use std::time::{Duration, SystemTimeError, UNIX_EPOCH};
use steller::domain::command::cache::write::WriteCommand;
use steller::domain::command::cache::CacheCommand;
use steller::domain::command::{Command, CommandError};
use steller::domain::time::{Milliseconds, Seconds};
use steller::resp::command::CommandFromFrameError;
use steller::resp::frame::Frame;

// ---------- ok cases ----------

#[test]
fn try_from_frame_ok_get() {
    assert_eq!(
        Command::try_from(Frame::Array(vec![
            Frame::BulkString(b"get".to_vec()),
            Frame::BulkString(b"foo".to_vec()),
        ]))
        .unwrap(),
        Command::get(b"foo".to_vec())
    );
    assert_eq!(
        Command::try_from(Frame::Array(vec![
            Frame::BulkString(b"GET".to_vec()),
            Frame::BulkString(b"foo".to_vec()),
        ]))
        .unwrap(),
        Command::get(b"foo".to_vec())
    );
}

#[test]
fn try_from_frame_ok_set() {
    for verb in [b"set".as_slice(), b"SET".as_slice()] {
        assert_eq!(
            Command::try_from(Frame::Array(vec![
                Frame::BulkString(verb.to_vec()),
                Frame::BulkString(b"foo".to_vec()),
                Frame::BulkString(b"value".to_vec()),
            ]))
            .unwrap(),
            Command::set(b"foo".to_vec(), b"value".to_vec(), None)
        );
    }
}

// EXAT and PXAT are already absolute, so they land on an exact deadline with no clock
// read involved.
#[test]
fn try_from_frame_ok_set_absolute_options() {
    for (option, amount, expected) in [
        (b"exat".as_slice(), "1700000000", 1_700_000_000_000u64),
        (b"EXAT".as_slice(), "1700000000", 1_700_000_000_000),
        (b"pxat".as_slice(), "1700000000123", 1_700_000_000_123),
        (b"PXAT".as_slice(), "1700000000123", 1_700_000_000_123),
    ] {
        assert_eq!(
            Command::try_from(Frame::Array(vec![
                Frame::BulkString(b"set".to_vec()),
                Frame::BulkString(b"foo".to_vec()),
                Frame::BulkString(b"value".to_vec()),
                Frame::BulkString(option.to_vec()),
                Frame::BulkString(amount.as_bytes().to_vec()),
            ]))
            .unwrap(),
            Command::set(b"foo".to_vec(), b"value".to_vec(), Some(Milliseconds::new(expected))),
            "option {}",
            String::from_utf8_lossy(option)
        );
    }
}

// EX and PX are relative, so the deadline is bracketed between two clock reads the
// same way EXPIRE is.
#[test]
fn try_from_frame_ok_set_relative_options() {
    for (option, amount, offset) in [
        (b"ex".as_slice(), "60", Milliseconds::new(60_000)),
        (b"EX".as_slice(), "60", Milliseconds::new(60_000)),
        (b"px".as_slice(), "1500", Milliseconds::new(1_500)),
        (b"PX".as_slice(), "1500", Milliseconds::new(1_500)),
    ] {
        let before = Milliseconds::now().unwrap();
        let cmd = Command::try_from(Frame::Array(vec![
            Frame::BulkString(b"set".to_vec()),
            Frame::BulkString(b"foo".to_vec()),
            Frame::BulkString(b"value".to_vec()),
            Frame::BulkString(option.to_vec()),
            Frame::BulkString(amount.as_bytes().to_vec()),
        ]))
        .unwrap();
        let after = Milliseconds::now().unwrap();

        let Command::Cache(CacheCommand::Write(WriteCommand::SetKey {
            expires_at: Some(expires_at),
            ..
        })) = cmd
        else {
            panic!("expected a SET carrying a deadline, got {cmd:?}");
        };
        let lo = before.saturating_add(offset);
        let hi = after.saturating_add(offset);
        assert!(
            (lo..=hi).contains(&expires_at),
            "{expires_at:?} not in [{lo:?}, {hi:?}]"
        );
    }
}

#[test]
fn try_from_frame_err_set_option_without_amount() {
    assert!(matches!(
        Command::try_from(Frame::Array(vec![
            Frame::BulkString(b"set".to_vec()),
            Frame::BulkString(b"foo".to_vec()),
            Frame::BulkString(b"value".to_vec()),
            Frame::BulkString(b"ex".to_vec()),
        ])),
        Err(CommandFromFrameError::CommandError(
            CommandError::NotEnoughParts
        ))
    ));
}

#[test]
fn try_from_frame_err_set_non_numeric_amount() {
    assert!(matches!(
        Command::try_from(Frame::Array(vec![
            Frame::BulkString(b"set".to_vec()),
            Frame::BulkString(b"foo".to_vec()),
            Frame::BulkString(b"value".to_vec()),
            Frame::BulkString(b"ex".to_vec()),
            Frame::BulkString(b"soon".to_vec()),
        ])),
        Err(CommandFromFrameError::CommandError(CommandError::ParseInt(
            _
        )))
    ));
}

#[test]
fn try_from_frame_err_set_too_many_parts_after_option() {
    assert!(matches!(
        Command::try_from(Frame::Array(vec![
            Frame::BulkString(b"set".to_vec()),
            Frame::BulkString(b"foo".to_vec()),
            Frame::BulkString(b"value".to_vec()),
            Frame::BulkString(b"ex".to_vec()),
            Frame::BulkString(b"60".to_vec()),
            Frame::BulkString(b"extra".to_vec()),
        ])),
        Err(CommandFromFrameError::CommandError(
            CommandError::TooManyParts
        ))
    ));
}

// PEXPIREAT is the verb the AOF speaks: already in the storage unit, so it must pass
// through untouched.
#[test]
fn try_from_frame_ok_pexpireat_is_taken_verbatim() {
    for verb in [b"pexpireat".as_slice(), b"PEXPIREAT".as_slice()] {
        assert_eq!(
            Command::try_from(Frame::Array(vec![
                Frame::BulkString(verb.to_vec()),
                Frame::BulkString(b"foo".to_vec()),
                Frame::BulkString(b"1700000000123".to_vec()),
            ]))
            .unwrap(),
            Command::expire_at(b"foo".to_vec(), Milliseconds::new(1_700_000_000_123))
        );
    }
}

#[test]
fn try_from_frame_err_pexpireat_too_many_parts() {
    assert!(matches!(
        Command::try_from(Frame::Array(vec![
            Frame::BulkString(b"pexpireat".to_vec()),
            Frame::BulkString(b"foo".to_vec()),
            Frame::BulkString(b"1700000000123".to_vec()),
            Frame::BulkString(b"extra".to_vec()),
        ])),
        Err(CommandFromFrameError::CommandError(
            CommandError::TooManyParts
        ))
    ));
}

#[test]
fn try_from_frame_err_expireat_too_many_parts() {
    assert!(matches!(
        Command::try_from(Frame::Array(vec![
            Frame::BulkString(b"expireat".to_vec()),
            Frame::BulkString(b"foo".to_vec()),
            Frame::BulkString(b"1700000000".to_vec()),
            Frame::BulkString(b"extra".to_vec()),
        ])),
        Err(CommandFromFrameError::CommandError(
            CommandError::TooManyParts
        ))
    ));
}

#[test]
fn try_from_frame_ok_del() {
    assert_eq!(
        Command::try_from(Frame::Array(vec![
            Frame::BulkString(b"del".to_vec()),
            Frame::BulkString(b"foo".to_vec()),
        ]))
        .unwrap(),
        Command::delete(b"foo".to_vec())
    );
    assert_eq!(
        Command::try_from(Frame::Array(vec![
            Frame::BulkString(b"DEL".to_vec()),
            Frame::BulkString(b"foo".to_vec()),
        ]))
        .unwrap(),
        Command::delete(b"foo".to_vec())
    );
}

#[test]
fn try_from_frame_ok_ping_without_message() {
    assert_eq!(
        Command::try_from(Frame::Array(vec![Frame::BulkString(b"ping".to_vec())])).unwrap(),
        Command::ping(None)
    );
    assert_eq!(
        Command::try_from(Frame::Array(vec![Frame::BulkString(b"PING".to_vec())])).unwrap(),
        Command::ping(None)
    );
}

#[test]
fn try_from_frame_ok_ping_with_message() {
    assert_eq!(
        Command::try_from(Frame::Array(vec![
            Frame::BulkString(b"ping".to_vec()),
            Frame::BulkString(b"hello".to_vec()),
        ]))
        .unwrap(),
        Command::ping(Some(b"hello".to_vec()))
    );
}

#[test]
fn try_from_frame_ok_exists() {
    assert_eq!(
        Command::try_from(Frame::Array(vec![
            Frame::BulkString(b"exists".to_vec()),
            Frame::BulkString(b"foo".to_vec()),
        ]))
        .unwrap(),
        Command::key_exists(b"foo".to_vec())
    );
    assert_eq!(
        Command::try_from(Frame::Array(vec![
            Frame::BulkString(b"EXISTS".to_vec()),
            Frame::BulkString(b"foo".to_vec()),
        ]))
        .unwrap(),
        Command::key_exists(b"foo".to_vec())
    );
}

#[test]
fn try_from_frame_ok_expireat() {
    assert_eq!(
        Command::try_from(Frame::Array(vec![
            Frame::BulkString(b"expireat".to_vec()),
            Frame::BulkString(b"foo".to_vec()),
            Frame::BulkString(b"1700000000".to_vec()),
        ]))
        .unwrap(),
        Command::expire_at(b"foo".to_vec(), Seconds::new(1_700_000_000).into()),
    );
    assert_eq!(
        Command::try_from(Frame::Array(vec![
            Frame::BulkString(b"EXPIREAT".to_vec()),
            Frame::BulkString(b"foo".to_vec()),
            Frame::BulkString(b"1700000000".to_vec()),
        ]))
        .unwrap(),
        Command::expire_at(b"foo".to_vec(), Seconds::new(1_700_000_000).into()),
    );
}

/// The deadline for a relative TTL comes off the wall clock, so pin it between two
/// clock reads and assert it lands in the window.
fn assert_deadline_about(
    cmd: Command,
    expected_key: &[u8],
    before: Milliseconds,
    after: Milliseconds,
    offset: Milliseconds,
) {
    match cmd {
        Command::Cache(CacheCommand::Write(WriteCommand::ExpireAt { key, expires_at })) => {
            assert_eq!(key, expected_key);
            let lo = before.saturating_add(offset);
            let hi = after.saturating_add(offset);
            assert!(
                (lo..=hi).contains(&expires_at),
                "{expires_at:?} not in [{lo:?}, {hi:?}]"
            );
        }
        other => panic!("expected ExpireAt, got {other:?}"),
    }
}

// EXPIRE is normalized to an absolute deadline at parse time, so the log only ever
// stores the absolute form and replay stays time-invariant.
#[test]
fn try_from_frame_ok_expire_normalizes_to_absolute() {
    for verb in [b"expire".as_slice(), b"EXPIRE".as_slice()] {
        let before = Milliseconds::now().unwrap();
        let cmd = Command::try_from(Frame::Array(vec![
            Frame::BulkString(verb.to_vec()),
            Frame::BulkString(b"foo".to_vec()),
            Frame::BulkString(b"60".to_vec()),
        ]))
        .unwrap();
        let after = Milliseconds::now().unwrap();
        assert_deadline_about(cmd, b"foo", before, after, Seconds::new(60).into());
    }
}

#[test]
fn try_from_frame_ok_ttl() {
    assert_eq!(
        Command::try_from(Frame::Array(vec![
            Frame::BulkString(b"ttl".to_vec()),
            Frame::BulkString(b"foo".to_vec()),
        ]))
        .unwrap(),
        Command::ttl(b"foo".to_vec()),
    );
    assert_eq!(
        Command::try_from(Frame::Array(vec![
            Frame::BulkString(b"TTL".to_vec()),
            Frame::BulkString(b"foo".to_vec()),
        ]))
        .unwrap(),
        Command::ttl(b"foo".to_vec()),
    );
}

#[test]
fn try_from_frame_ok_persist() {
    assert_eq!(
        Command::try_from(Frame::Array(vec![
            Frame::BulkString(b"persist".to_vec()),
            Frame::BulkString(b"foo".to_vec()),
        ]))
        .unwrap(),
        Command::persist(b"foo".to_vec()),
    );
    assert_eq!(
        Command::try_from(Frame::Array(vec![
            Frame::BulkString(b"PERSIST".to_vec()),
            Frame::BulkString(b"foo".to_vec()),
        ]))
        .unwrap(),
        Command::persist(b"foo".to_vec()),
    );
}

// ---------- top-level shape errors ----------

#[test]
fn try_from_frame_err_empty_array() {
    assert!(matches!(
        Command::try_from(Frame::Array(vec![])),
        Err(CommandFromFrameError::CommandError(
            CommandError::NotEnoughParts
        ))
    ));
}

#[test]
fn try_from_frame_err_command_value_is_array() {
    assert!(matches!(
        Command::try_from(Frame::Array(vec![Frame::Array(vec![Frame::BulkString(
            b"get".to_vec()
        )])])),
        Err(CommandFromFrameError::UnexpectedFrame)
    ));
}

#[test]
fn try_from_frame_err_unrecognized_command() {
    assert!(matches!(
        Command::try_from(Frame::Array(vec![Frame::BulkString(b"foo".to_vec())])),
        Err(CommandFromFrameError::CommandError(
            CommandError::UnrecognizedCommand
        ))
    ));
}

#[test]
fn try_from_frame_err_unexpected_value() {
    assert!(matches!(
        Command::try_from(Frame::Array(vec![
            Frame::BulkString(b"get".to_vec()),
            Frame::Array(vec![Frame::BulkString(b"foo".to_vec())]),
        ])),
        Err(CommandFromFrameError::UnexpectedFrame)
    ));
    assert!(matches!(
        Command::try_from(Frame::BulkString(b"get".to_vec())),
        Err(CommandFromFrameError::UnexpectedFrame)
    ));
}

// ---------- GET errors ----------

#[test]
fn try_from_frame_err_get_too_many_parts() {
    assert!(matches!(
        Command::try_from(Frame::Array(vec![
            Frame::BulkString(b"get".to_vec()),
            Frame::BulkString(b"foo".to_vec()),
            Frame::BulkString(b"foo".to_vec()),
        ])),
        Err(CommandFromFrameError::CommandError(
            CommandError::TooManyParts
        ))
    ));
}

#[test]
fn try_from_frame_err_get_not_enough_parts() {
    assert!(matches!(
        Command::try_from(Frame::Array(vec![Frame::BulkString(b"get".to_vec()),])),
        Err(CommandFromFrameError::CommandError(
            CommandError::NotEnoughParts
        ))
    ));
}

#[test]
fn try_from_frame_err_get_unexpected_frame_key() {
    assert!(matches!(
        Command::try_from(Frame::Array(vec![
            Frame::BulkString(b"get".to_vec()),
            Frame::Array(vec![]),
        ])),
        Err(CommandFromFrameError::UnexpectedFrame)
    ));
}

// ---------- SET errors ----------

// A fourth part is now read as an option keyword, so an unrecognized one is a syntax
// error rather than an excess argument.
#[test]
fn try_from_frame_err_set_unknown_option() {
    assert!(matches!(
        Command::try_from(Frame::Array(vec![
            Frame::BulkString(b"set".to_vec()),
            Frame::BulkString(b"foo".to_vec()),
            Frame::BulkString(b"value".to_vec()),
            Frame::BulkString(b"value".to_vec()),
        ])),
        Err(CommandFromFrameError::CommandError(CommandError::Syntax))
    ));
}

#[test]
fn try_from_frame_err_set_not_enough_parts() {
    assert!(matches!(
        Command::try_from(Frame::Array(vec![Frame::BulkString(b"set".to_vec()),])),
        Err(CommandFromFrameError::CommandError(
            CommandError::NotEnoughParts
        ))
    ));
    assert!(matches!(
        Command::try_from(Frame::Array(vec![
            Frame::BulkString(b"set".to_vec()),
            Frame::BulkString(b"foo".to_vec()),
        ])),
        Err(CommandFromFrameError::CommandError(
            CommandError::NotEnoughParts
        ))
    ));
}

#[test]
fn try_from_frame_err_set_unexpected_frame_key() {
    assert!(matches!(
        Command::try_from(Frame::Array(vec![
            Frame::BulkString(b"set".to_vec()),
            Frame::Array(vec![]),
            Frame::BulkString(b"value".to_vec()),
        ])),
        Err(CommandFromFrameError::UnexpectedFrame)
    ));
}

#[test]
fn try_from_frame_err_set_unexpected_frame_value() {
    assert!(matches!(
        Command::try_from(Frame::Array(vec![
            Frame::BulkString(b"set".to_vec()),
            Frame::BulkString(b"foo".to_vec()),
            Frame::Array(vec![]),
        ])),
        Err(CommandFromFrameError::UnexpectedFrame)
    ));
}

// ---------- DEL errors ----------

#[test]
fn try_from_frame_err_del_too_many_parts() {
    assert!(matches!(
        Command::try_from(Frame::Array(vec![
            Frame::BulkString(b"del".to_vec()),
            Frame::BulkString(b"foo".to_vec()),
            Frame::BulkString(b"foo".to_vec()),
        ])),
        Err(CommandFromFrameError::CommandError(
            CommandError::TooManyParts
        ))
    ));
}

#[test]
fn try_from_frame_err_del_not_enough_parts() {
    assert!(matches!(
        Command::try_from(Frame::Array(vec![Frame::BulkString(b"del".to_vec()),])),
        Err(CommandFromFrameError::CommandError(
            CommandError::NotEnoughParts
        ))
    ));
}

#[test]
fn try_from_frame_err_del_unexpected_frame_key() {
    assert!(matches!(
        Command::try_from(Frame::Array(vec![
            Frame::BulkString(b"del".to_vec()),
            Frame::Array(vec![]),
        ])),
        Err(CommandFromFrameError::UnexpectedFrame)
    ));
}

// ---------- EXISTS errors ----------

#[test]
fn try_from_frame_err_exists_too_many_parts() {
    assert!(matches!(
        Command::try_from(Frame::Array(vec![
            Frame::BulkString(b"exists".to_vec()),
            Frame::BulkString(b"foo".to_vec()),
            Frame::BulkString(b"foo".to_vec()),
        ])),
        Err(CommandFromFrameError::CommandError(
            CommandError::TooManyParts
        ))
    ));
}

#[test]
fn try_from_frame_err_exists_not_enough_parts() {
    assert!(matches!(
        Command::try_from(Frame::Array(vec![Frame::BulkString(b"exists".to_vec())])),
        Err(CommandFromFrameError::CommandError(
            CommandError::NotEnoughParts
        ))
    ));
}

#[test]
fn try_from_frame_err_exists_unexpected_frame_key() {
    assert!(matches!(
        Command::try_from(Frame::Array(vec![
            Frame::BulkString(b"exists".to_vec()),
            Frame::Array(vec![]),
        ])),
        Err(CommandFromFrameError::UnexpectedFrame)
    ));
}

// ---------- PING errors ----------

#[test]
fn try_from_frame_err_ping_too_many_parts() {
    assert!(matches!(
        Command::try_from(Frame::Array(vec![
            Frame::BulkString(b"ping".to_vec()),
            Frame::BulkString(b"hello".to_vec()),
            Frame::BulkString(b"world".to_vec()),
        ])),
        Err(CommandFromFrameError::CommandError(
            CommandError::TooManyParts
        ))
    ));
}

#[test]
fn try_from_frame_err_ping_unexpected_frame_message() {
    assert!(matches!(
        Command::try_from(Frame::Array(vec![
            Frame::BulkString(b"ping".to_vec()),
            Frame::Array(vec![]),
        ])),
        Err(CommandFromFrameError::UnexpectedFrame)
    ));
}

// ---------- EXPIRE errors ----------

#[test]
fn try_from_frame_err_expire_not_enough_parts_zero_args() {
    assert!(matches!(
        Command::try_from(Frame::Array(vec![Frame::BulkString(b"expire".to_vec())])),
        Err(CommandFromFrameError::CommandError(
            CommandError::NotEnoughParts
        ))
    ));
}

#[test]
fn try_from_frame_err_expire_not_enough_parts_one_arg() {
    assert!(matches!(
        Command::try_from(Frame::Array(vec![
            Frame::BulkString(b"expire".to_vec()),
            Frame::BulkString(b"foo".to_vec()),
        ])),
        Err(CommandFromFrameError::CommandError(
            CommandError::NotEnoughParts
        ))
    ));
}

#[test]
fn try_from_frame_err_expire_unexpected_frame_key() {
    assert!(matches!(
        Command::try_from(Frame::Array(vec![
            Frame::BulkString(b"expire".to_vec()),
            Frame::Array(vec![]),
            Frame::BulkString(b"123".to_vec()),
        ])),
        Err(CommandFromFrameError::UnexpectedFrame)
    ));
}

#[test]
fn try_from_frame_err_expire_unexpected_frame_ttl() {
    assert!(matches!(
        Command::try_from(Frame::Array(vec![
            Frame::BulkString(b"expire".to_vec()),
            Frame::BulkString(b"foo".to_vec()),
            Frame::Array(vec![]),
        ])),
        Err(CommandFromFrameError::UnexpectedFrame)
    ));
}

#[test]
fn try_from_frame_err_expire_ttl_invalid_utf8() {
    assert!(matches!(
        Command::try_from(Frame::Array(vec![
            Frame::BulkString(b"expire".to_vec()),
            Frame::BulkString(b"foo".to_vec()),
            Frame::BulkString(vec![0xff, 0xfe]),
        ])),
        Err(CommandFromFrameError::CommandError(CommandError::Utf8(_)))
    ));
}

#[test]
fn try_from_frame_err_expire_ttl_not_a_number() {
    assert!(matches!(
        Command::try_from(Frame::Array(vec![
            Frame::BulkString(b"expire".to_vec()),
            Frame::BulkString(b"foo".to_vec()),
            Frame::BulkString(b"abc".to_vec()),
        ])),
        Err(CommandFromFrameError::CommandError(CommandError::ParseInt(
            _
        )))
    ));
}

#[test]
fn try_from_frame_err_expire_too_many_parts() {
    assert!(matches!(
        Command::try_from(Frame::Array(vec![
            Frame::BulkString(b"expire".to_vec()),
            Frame::BulkString(b"foo".to_vec()),
            Frame::BulkString(b"60".to_vec()),
            Frame::BulkString(b"extra".to_vec()),
        ])),
        Err(CommandFromFrameError::CommandError(
            CommandError::TooManyParts
        ))
    ));
}

#[test]
fn try_from_frame_err_expire_ttl_negative() {
    assert!(matches!(
        Command::try_from(Frame::Array(vec![
            Frame::BulkString(b"expire".to_vec()),
            Frame::BulkString(b"foo".to_vec()),
            Frame::BulkString(b"-1".to_vec()),
        ])),
        Err(CommandFromFrameError::CommandError(CommandError::ParseInt(
            _
        )))
    ));
}

// ---------- EXPIREAT errors ----------

#[test]
fn try_from_frame_err_expireat_not_enough_parts_zero_args() {
    assert!(matches!(
        Command::try_from(Frame::Array(vec![Frame::BulkString(b"expireat".to_vec())])),
        Err(CommandFromFrameError::CommandError(
            CommandError::NotEnoughParts
        ))
    ));
}

#[test]
fn try_from_frame_err_expireat_not_enough_parts_one_arg() {
    assert!(matches!(
        Command::try_from(Frame::Array(vec![
            Frame::BulkString(b"expireat".to_vec()),
            Frame::BulkString(b"foo".to_vec()),
        ])),
        Err(CommandFromFrameError::CommandError(
            CommandError::NotEnoughParts
        ))
    ));
}

#[test]
fn try_from_frame_err_expireat_unexpected_frame_key() {
    assert!(matches!(
        Command::try_from(Frame::Array(vec![
            Frame::BulkString(b"expireat".to_vec()),
            Frame::Array(vec![]),
            Frame::BulkString(b"1700000000".to_vec()),
        ])),
        Err(CommandFromFrameError::UnexpectedFrame)
    ));
}

#[test]
fn try_from_frame_err_expireat_unexpected_frame_ttl() {
    assert!(matches!(
        Command::try_from(Frame::Array(vec![
            Frame::BulkString(b"expireat".to_vec()),
            Frame::BulkString(b"foo".to_vec()),
            Frame::Array(vec![]),
        ])),
        Err(CommandFromFrameError::UnexpectedFrame)
    ));
}

#[test]
fn try_from_frame_err_expireat_ttl_invalid_utf8() {
    assert!(matches!(
        Command::try_from(Frame::Array(vec![
            Frame::BulkString(b"expireat".to_vec()),
            Frame::BulkString(b"foo".to_vec()),
            Frame::BulkString(vec![0xff, 0xfe]),
        ])),
        Err(CommandFromFrameError::CommandError(CommandError::Utf8(_)))
    ));
}

#[test]
fn try_from_frame_err_expireat_ttl_not_a_number() {
    assert!(matches!(
        Command::try_from(Frame::Array(vec![
            Frame::BulkString(b"expireat".to_vec()),
            Frame::BulkString(b"foo".to_vec()),
            Frame::BulkString(b"abc".to_vec()),
        ])),
        Err(CommandFromFrameError::CommandError(CommandError::ParseInt(
            _
        )))
    ));
}

#[test]
fn try_from_frame_err_expireat_ttl_negative() {
    assert!(matches!(
        Command::try_from(Frame::Array(vec![
            Frame::BulkString(b"expireat".to_vec()),
            Frame::BulkString(b"foo".to_vec()),
            Frame::BulkString(b"-1".to_vec()),
        ])),
        Err(CommandFromFrameError::CommandError(CommandError::ParseInt(
            _
        )))
    ));
}

// ---------- TTL errors ----------

#[test]
fn try_from_frame_err_ttl_too_many_parts() {
    assert!(matches!(
        Command::try_from(Frame::Array(vec![
            Frame::BulkString(b"ttl".to_vec()),
            Frame::BulkString(b"foo".to_vec()),
            Frame::BulkString(b"bar".to_vec()),
        ])),
        Err(CommandFromFrameError::CommandError(
            CommandError::TooManyParts
        ))
    ));
}

#[test]
fn try_from_frame_err_ttl_not_enough_parts() {
    assert!(matches!(
        Command::try_from(Frame::Array(vec![Frame::BulkString(b"ttl".to_vec())])),
        Err(CommandFromFrameError::CommandError(
            CommandError::NotEnoughParts
        ))
    ));
}

#[test]
fn try_from_frame_err_ttl_unexpected_frame_key() {
    assert!(matches!(
        Command::try_from(Frame::Array(vec![
            Frame::BulkString(b"ttl".to_vec()),
            Frame::Array(vec![]),
        ])),
        Err(CommandFromFrameError::UnexpectedFrame)
    ));
}

// ---------- PERSIST errors ----------

#[test]
fn try_from_frame_err_persist_too_many_parts() {
    assert!(matches!(
        Command::try_from(Frame::Array(vec![
            Frame::BulkString(b"persist".to_vec()),
            Frame::BulkString(b"foo".to_vec()),
            Frame::BulkString(b"bar".to_vec()),
        ])),
        Err(CommandFromFrameError::CommandError(
            CommandError::TooManyParts
        ))
    ));
}

#[test]
fn try_from_frame_err_persist_not_enough_parts() {
    assert!(matches!(
        Command::try_from(Frame::Array(vec![Frame::BulkString(b"persist".to_vec())])),
        Err(CommandFromFrameError::CommandError(
            CommandError::NotEnoughParts
        ))
    ));
}

#[test]
fn try_from_frame_err_persist_unexpected_frame_key() {
    assert!(matches!(
        Command::try_from(Frame::Array(vec![
            Frame::BulkString(b"persist".to_vec()),
            Frame::Array(vec![]),
        ])),
        Err(CommandFromFrameError::UnexpectedFrame)
    ));
}

// ---------- SUBSCRIBE ----------

#[test]
fn try_from_frame_ok_subscribe_single() {
    assert_eq!(
        Command::try_from(Frame::Array(vec![
            Frame::BulkString(b"subscribe".to_vec()),
            Frame::BulkString(b"foo".to_vec()),
        ]))
        .unwrap(),
        Command::subscribe(vec![b"foo".to_vec()])
    );
}

#[test]
fn try_from_frame_ok_subscribe_multiple() {
    assert_eq!(
        Command::try_from(Frame::Array(vec![
            Frame::BulkString(b"SUBSCRIBE".to_vec()),
            Frame::BulkString(b"foo".to_vec()),
            Frame::BulkString(b"bar".to_vec()),
        ]))
        .unwrap(),
        Command::subscribe(vec![b"foo".to_vec(), b"bar".to_vec()])
    );
}

#[test]
fn try_from_frame_err_subscribe_no_channels() {
    assert!(matches!(
        Command::try_from(Frame::Array(vec![Frame::BulkString(b"subscribe".to_vec())])),
        Err(CommandFromFrameError::CommandError(
            CommandError::NotEnoughParts
        ))
    ));
}

#[test]
fn try_from_frame_err_subscribe_non_bulk_channel() {
    assert!(matches!(
        Command::try_from(Frame::Array(vec![
            Frame::BulkString(b"subscribe".to_vec()),
            Frame::Array(vec![]),
        ])),
        Err(CommandFromFrameError::UnexpectedFrame)
    ));
}

// ---------- UNSUBSCRIBE ----------

#[test]
fn try_from_frame_ok_unsubscribe_single() {
    assert_eq!(
        Command::try_from(Frame::Array(vec![
            Frame::BulkString(b"unsubscribe".to_vec()),
            Frame::BulkString(b"foo".to_vec()),
        ]))
        .unwrap(),
        Command::unsubscribe(vec![b"foo".to_vec()])
    );
}

// No-arg UNSUBSCRIBE is legal. It means "every channel this session is in".
#[test]
fn try_from_frame_ok_unsubscribe_no_channels() {
    assert_eq!(
        Command::try_from(Frame::Array(vec![Frame::BulkString(
            b"unsubscribe".to_vec()
        )]))
        .unwrap(),
        Command::unsubscribe(Vec::<Vec<u8>>::new())
    );
}

#[test]
fn try_from_frame_err_unsubscribe_non_bulk_channel() {
    assert!(matches!(
        Command::try_from(Frame::Array(vec![
            Frame::BulkString(b"unsubscribe".to_vec()),
            Frame::Array(vec![]),
        ])),
        Err(CommandFromFrameError::UnexpectedFrame)
    ));
}

// ---------- PUBLISH ----------

#[test]
fn try_from_frame_ok_publish() {
    assert_eq!(
        Command::try_from(Frame::Array(vec![
            Frame::BulkString(b"publish".to_vec()),
            Frame::BulkString(b"foo".to_vec()),
            Frame::BulkString(b"bar".to_vec()),
        ]))
        .unwrap(),
        Command::publish(b"foo".to_vec(), b"bar".to_vec())
    );
}

#[test]
fn try_from_frame_err_publish_not_enough_parts() {
    assert!(matches!(
        Command::try_from(Frame::Array(vec![
            Frame::BulkString(b"publish".to_vec()),
            Frame::BulkString(b"foo".to_vec()),
        ])),
        Err(CommandFromFrameError::CommandError(
            CommandError::NotEnoughParts
        ))
    ));
}

#[test]
fn try_from_frame_err_publish_too_many_parts() {
    assert!(matches!(
        Command::try_from(Frame::Array(vec![
            Frame::BulkString(b"publish".to_vec()),
            Frame::BulkString(b"foo".to_vec()),
            Frame::BulkString(b"bar".to_vec()),
            Frame::BulkString(b"baz".to_vec()),
        ])),
        Err(CommandFromFrameError::CommandError(
            CommandError::TooManyParts
        ))
    ));
}

#[test]
fn try_from_frame_err_publish_non_bulk_arg() {
    assert!(matches!(
        Command::try_from(Frame::Array(vec![
            Frame::BulkString(b"publish".to_vec()),
            Frame::Array(vec![]),
            Frame::BulkString(b"bar".to_vec()),
        ])),
        Err(CommandFromFrameError::UnexpectedFrame)
    ));
}

// ---------- the clock ----------

fn request(parts: &[&[u8]]) -> Frame {
    Frame::Array(parts.iter().map(|p| Frame::BulkString(p.to_vec())).collect())
}

fn before_the_epoch() -> SystemTimeError {
    (UNIX_EPOCH - Duration::from_secs(1))
        .duration_since(UNIX_EPOCH)
        .unwrap_err()
}

#[test]
fn relative_deadlines_count_from_the_reading() {
    let now = Milliseconds::new(1_000_000);
    assert_eq!(
        Command::try_from_at(request(&[b"EXPIRE", b"k", b"30"]), Ok(now)).unwrap(),
        Command::expire_at(b"k".to_vec(), Milliseconds::new(1_030_000))
    );
    assert_eq!(
        Command::try_from_at(request(&[b"SET", b"k", b"v", b"EX", b"60"]), Ok(now)).unwrap(),
        Command::set(b"k".to_vec(), b"v".to_vec(), Some(Milliseconds::new(1_060_000)))
    );
    assert_eq!(
        Command::try_from_at(request(&[b"SET", b"k", b"v", b"PX", b"60"]), Ok(now)).unwrap(),
        Command::set(b"k".to_vec(), b"v".to_vec(), Some(Milliseconds::new(1_000_060)))
    );
    // A span that does not fit saturates.
    assert_eq!(
        Command::try_from_at(
            request(&[b"SET", b"k", b"v", b"EX", b"18446744073709551615"]),
            Ok(now)
        )
        .unwrap(),
        Command::set(b"k".to_vec(), b"v".to_vec(), Some(Milliseconds::new(u64::MAX)))
    );
}

#[test]
fn absolute_deadlines_need_no_clock() {
    for (frame, command) in [
        (
            request(&[b"EXPIREAT", b"k", b"30"]),
            Command::expire_at(b"k".to_vec(), Milliseconds::new(30_000)),
        ),
        (
            request(&[b"PEXPIREAT", b"k", b"30"]),
            Command::expire_at(b"k".to_vec(), Milliseconds::new(30)),
        ),
        (
            request(&[b"SET", b"k", b"v", b"EXAT", b"30"]),
            Command::set(b"k".to_vec(), b"v".to_vec(), Some(Milliseconds::new(30_000))),
        ),
        (
            request(&[b"SET", b"k", b"v", b"PXAT", b"30"]),
            Command::set(b"k".to_vec(), b"v".to_vec(), Some(Milliseconds::new(30))),
        ),
    ] {
        assert_eq!(
            Command::try_from_at(frame, Err(before_the_epoch())).unwrap(),
            command
        );
    }
}

#[test]
fn a_relative_deadline_fails_with_the_clock() {
    for frame in [
        request(&[b"EXPIRE", b"k", b"30"]),
        request(&[b"SET", b"k", b"v", b"EX", b"60"]),
        request(&[b"SET", b"k", b"v", b"PX", b"60"]),
    ] {
        let e = Command::try_from_at(frame, Err(before_the_epoch())).unwrap_err();
        assert!(matches!(e, CommandFromFrameError::SystemTime(_)));
        assert_eq!(e.message(), before_the_epoch().to_string().into_bytes());
    }
}

#[test]
fn what_is_logged_reads_back_without_a_clock() {
    for command in [
        WriteCommand::set(b"k".to_vec(), b"v\r\n".to_vec(), None),
        WriteCommand::set(b"k".to_vec(), b"v".to_vec(), Some(Milliseconds::new(1_893_456_000_123))),
        WriteCommand::delete(b"\xff".to_vec()),
        WriteCommand::expire_at(b"k".to_vec(), Milliseconds::new(u64::MAX)),
        WriteCommand::persist(b"".to_vec()),
    ] {
        assert_eq!(
            Command::try_from_at(Frame::from(command.clone()), Err(before_the_epoch())).unwrap(),
            Command::Cache(CacheCommand::Write(command))
        );
    }
}

#[test]
fn verbs_and_options_ignore_case() {
    let now = Milliseconds::new(5);
    assert_eq!(
        Command::try_from_at(request(&[b"sEt", b"K", b"V", b"eXaT", b"1"]), Ok(now)).unwrap(),
        Command::set(b"K".to_vec(), b"V".to_vec(), Some(Milliseconds::new(1000)))
    );
    assert_eq!(
        Command::try_from_at(request(&[b"TtL", b"K"]), Ok(now)).unwrap(),
        Command::ttl(b"K".to_vec())
    );
}

#[test]
fn every_fault_has_its_request_and_its_text() {
    let cases: [(&[&[u8]], &str); 8] = [
        (&[b"nope"], "unrecognized command"),
        (&[b"get"], "not enough parts"),
        (&[b"get", b"k", b"x"], "too many parts"),
        (&[b"set", b"k", b"v", b"keepttl"], "syntax error"),
        (&[b"expire", b"k", b"x"], "invalid digit found in string"),
        (&[b"expire", b"k", b""], "cannot parse integer from empty string"),
        (
            &[b"expireat", b"k", b"99999999999999999999x"],
            "number too large to fit in target type",
        ),
        (
            &[b"expire", b"k", b"1\xff"],
            "invalid utf-8 sequence of 1 bytes from index 1",
        ),
    ];
    for (parts, text) in cases {
        assert_eq!(
            Command::try_from_at(request(parts), Ok(Milliseconds::new(0)))
                .unwrap_err()
                .message(),
            text.as_bytes().to_vec()
        );
    }
    assert_eq!(
        Command::try_from_at(Frame::BulkString(b"get".to_vec()), Ok(Milliseconds::new(0)))
            .unwrap_err()
            .message(),
        b"unexpected value; command is made of an array of bulk strings".to_vec()
    );
}

// A date in seconds past any clock's reach is taken for one that never comes, not refused.
#[test]
fn absurd_dates_in_seconds_are_clamped() {
    let never = Milliseconds::new(u64::MAX);
    let now = || Ok(Milliseconds::new(5));
    for digits in [
        b"99999999999999999999".as_slice(),
        b"+99999999999999999999",
        b"18446744073709551616",
        b"0099999999999999999999999999999999999999999999",
        b"18446744073709551615",
    ] {
        assert_eq!(
            Command::try_from_at(request(&[b"EXPIREAT", b"foo", digits]), now()).unwrap(),
            Command::expire_at(b"foo".to_vec(), never)
        );
        assert_eq!(
            Command::try_from_at(request(&[b"SET", b"foo", b"v", b"EXAT", digits]), now()).unwrap(),
            Command::set(b"foo".to_vec(), b"v".to_vec(), Some(never))
        );
    }
    assert_eq!(
        Command::try_from(request(&[b"EXPIREAT", b"foo", b"99999999999999999999"])).unwrap(),
        Command::expire_at(b"foo".to_vec(), never)
    );
    // What is no number is still refused, however long.
    for digits in [b"99999999999999999999x".as_slice(), b"-99999999999999999999", b"+"] {
        assert!(Command::try_from_at(request(&[b"EXPIREAT", b"foo", digits]), now()).is_err());
    }
}

// Spans, and dates in milliseconds, have to fit a `u64`.
#[test]
fn other_amounts_past_the_largest_number_are_refused() {
    let too_large = b"number too large to fit in target type".to_vec();
    let now = || Ok(Milliseconds::new(5));
    for digits in [b"99999999999999999999".as_slice(), b"18446744073709551616"] {
        for verb in [b"PEXPIREAT".as_slice(), b"EXPIRE"] {
            let refused = Command::try_from_at(request(&[verb, b"foo", digits]), now());
            assert_eq!(refused.unwrap_err().message(), too_large);
        }
        for option in [b"EX".as_slice(), b"PX", b"PXAT"] {
            let refused =
                Command::try_from_at(request(&[b"SET", b"foo", b"v", option, digits]), now());
            assert_eq!(refused.unwrap_err().message(), too_large);
        }
    }
    // The largest number itself is taken, and clamped where it is a span.
    let never = Milliseconds::new(u64::MAX);
    for verb in [b"PEXPIREAT".as_slice(), b"EXPIRE"] {
        assert_eq!(
            Command::try_from_at(request(&[verb, b"foo", b"18446744073709551615"]), now()).unwrap(),
            Command::expire_at(b"foo".to_vec(), never)
        );
    }
}

#[test]
fn seconds_and_milliseconds_land_on_the_same_deadline() {
    let now = Milliseconds::new(77);
    for (seconds, millis) in [(b"EX".as_slice(), b"PX".as_slice()), (b"EXAT", b"PXAT")] {
        assert_eq!(
            Command::try_from_at(request(&[b"SET", b"k", b"v", seconds, b"2"]), Ok(now)).unwrap(),
            Command::try_from_at(request(&[b"SET", b"k", b"v", millis, b"2000"]), Ok(now)).unwrap()
        );
    }
}
