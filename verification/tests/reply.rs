//! Replies: the validated payload and the serializer.

use steller::domain::command::outcome::{CommandOutcome, TtlOutcome};
use steller::domain::time::Seconds;
use steller::resp::frame::Frame;
use steller::resp::reply::{Replies, Reply, SimpleInner, SimpleInnerError};

#[test]
fn simple_inner_from_bytes_ok() {
    assert_eq!(
        SimpleInner::try_from(b"foo".as_slice()).unwrap().as_bytes(),
        b"foo"
    );
}
#[test]
fn simple_inner_from_bytes_err_cr() {
    assert!(matches!(
        SimpleInner::try_from(b"foo\r".as_slice()),
        Err(SimpleInnerError::IncludesCarriageReturn)
    ));
}
#[test]
fn simple_inner_from_bytes_err_lf() {
    assert!(matches!(
        SimpleInner::try_from(b"foo\n".as_slice()),
        Err(SimpleInnerError::IncludesLineFeed)
    ));
}
#[test]
fn write_to_ok_simple_string() {
    let mut buf = Vec::new();
    Reply::SimpleString(SimpleInner::try_from(b"foo".as_slice()).unwrap()).write_to(&mut buf);
    assert_eq!(buf, b"+foo\r\n");
}
#[test]
fn write_to_ok_simple_error() {
    let mut buf = Vec::new();
    Reply::SimpleError(SimpleInner::try_from(b"foo".as_slice()).unwrap()).write_to(&mut buf);
    assert_eq!(buf, b"-foo\r\n");
}
#[test]
fn write_to_ok_bulk_string() {
    let mut buf = Vec::new();
    Reply::BulkString(b"foo\r\nbar".to_vec()).write_to(&mut buf);
    assert_eq!(buf, b"$8\r\nfoo\r\nbar\r\n");
}
#[test]
fn write_to_ok_bulk_string_empty() {
    let mut buf = Vec::new();
    Reply::BulkString(b"".to_vec()).write_to(&mut buf);
    assert_eq!(buf, b"$0\r\n\r\n");
}
#[test]
fn write_to_ok_null_bulk() {
    let mut buf = Vec::new();
    Reply::NullBulk.write_to(&mut buf);
    assert_eq!(buf, b"$-1\r\n");
}
#[test]
fn write_to_ok_integer() {
    let mut buf = Vec::new();
    Reply::Integer(123).write_to(&mut buf);
    assert_eq!(buf, b":123\r\n");
}
#[test]
fn write_to_ok_integer_negative() {
    let mut buf = Vec::new();
    Reply::Integer(-123).write_to(&mut buf);
    assert_eq!(buf, b":-123\r\n");
}

// ---------- Array ----------

#[test]
fn write_to_array_empty() {
    let mut buf = Vec::new();
    Reply::Array(vec![]).write_to(&mut buf);
    assert_eq!(buf, b"*0\r\n");
}

#[test]
fn write_to_array_mixed_elements() {
    // The subscribe ack shape: two bulk strings + an integer.
    let mut buf = Vec::new();
    Reply::Array(vec![
        Reply::BulkString(b"subscribe".to_vec()),
        Reply::BulkString(b"foo".to_vec()),
        Reply::Integer(1),
    ]).write_to(&mut buf);
    assert_eq!(buf, b"*3\r\n$9\r\nsubscribe\r\n$3\r\nfoo\r\n:1\r\n");
}

#[test]
fn write_to_array_nested() {
    let mut buf = Vec::new();
    Reply::Array(vec![
        Reply::Array(vec![Reply::Integer(1)]),
        Reply::Integer(2),
    ]).write_to(&mut buf);
    assert_eq!(buf, b"*2\r\n*1\r\n:1\r\n:2\r\n");
}

// The header-once bug lived here: `to_bytes` must agree with `write_to` byte-for-byte.
#[test]
fn to_bytes_array_matches_write_to() {
    let reply = Reply::Array(vec![
        Reply::BulkString(b"message".to_vec()),
        Reply::BulkString(b"foo".to_vec()),
        Reply::BulkString(b"bar".to_vec()),
    ]);
    let mut buf = Vec::new();
    reply.write_to(&mut buf);
    assert_eq!(reply.to_bytes(), buf);
    assert_eq!(
        reply.to_bytes(),
        b"*3\r\n$7\r\nmessage\r\n$3\r\nfoo\r\n$3\r\nbar\r\n"
    );
}

#[test]
fn to_bytes_array_empty_matches_write_to() {
    let reply = Reply::Array(vec![]);
    let mut buf = Vec::new();
    reply.write_to(&mut buf);
    assert_eq!(reply.to_bytes(), buf);
    assert_eq!(reply.to_bytes(), b"*0\r\n");
}

// ---------- Replies (several top-level frames back to back, no outer wrapper) ----------

#[test]
fn replies_to_bytes_concatenates_frames_without_wrapper() {
    // SUBSCRIBE foo bar emits two *separate* arrays, not one array-of-arrays.
    let replies = Replies {
        inner: vec![
            Reply::Array(vec![
                Reply::BulkString(b"subscribe".to_vec()),
                Reply::BulkString(b"foo".to_vec()),
                Reply::Integer(1),
            ]),
            Reply::Array(vec![
                Reply::BulkString(b"subscribe".to_vec()),
                Reply::BulkString(b"bar".to_vec()),
                Reply::Integer(2),
            ]),
        ],
    };
    assert_eq!(
        replies.to_bytes(),
        b"*3\r\n$9\r\nsubscribe\r\n$3\r\nfoo\r\n:1\r\n\
          *3\r\n$9\r\nsubscribe\r\n$3\r\nbar\r\n:2\r\n"
    );
}

#[test]
fn replies_to_bytes_empty_is_empty() {
    let replies = Replies { inner: vec![] };
    assert_eq!(replies.to_bytes(), b"");
}

#[test]
fn replies_to_bytes_matches_write_to() {
    let replies = Replies {
        inner: vec![Reply::Integer(1), Reply::Integer(2)],
    };
    let mut buf = Vec::new();
    replies.write_to(&mut buf);
    assert_eq!(replies.to_bytes(), buf);
}

// ---------- lines ----------

#[test]
fn simple_errors_are_one_line_whatever_they_are_made_of() {
    let inner = SimpleInner::sanitized(b"ERR bad\r\n+OK\r\nstuff\n".to_vec());
    assert_eq!(inner.as_bytes(), b"ERR bad+OKstuff".as_slice());
    assert_eq!(
        Reply::SimpleError(inner).to_bytes(),
        b"-ERR bad+OKstuff\r\n".to_vec()
    );
}

#[test]
fn a_line_is_left_as_it_is() {
    assert_eq!(
        SimpleInner::sanitized(b"fine".to_vec()).as_bytes(),
        b"fine".as_slice()
    );
    assert_eq!(
        SimpleInner::try_from(b"fine".as_slice()).unwrap().as_bytes(),
        b"fine".as_slice()
    );
}

#[test]
fn a_payload_with_a_line_end_is_refused() {
    let cr = SimpleInner::try_from(b"a\rb".as_slice()).unwrap_err();
    assert_eq!(cr, SimpleInnerError::IncludesCarriageReturn);
    assert_eq!(
        cr.message(),
        b"must not contain a carriage return: (\"\\r\")".to_vec()
    );
    let lf = SimpleInner::try_from(b"a\nb".as_slice()).unwrap_err();
    assert_eq!(lf, SimpleInnerError::IncludesLineFeed);
    assert_eq!(lf.message(), b"must not contain a line feed (\"\\n\")".to_vec());
}

#[test]
fn a_bulk_reply_reads_back_as_a_frame() {
    let bytes = Reply::BulkString(b"a\r\nb".to_vec()).to_bytes();
    assert_eq!(
        Frame::parse_one(&bytes).unwrap(),
        (Frame::BulkString(b"a\r\nb".to_vec()), b"".as_slice())
    );
}

#[test]
fn replies_are_written_one_behind_the_other() {
    let replies = Replies {
        inner: vec![
            Reply::Integer(-7),
            Reply::Array(vec![Reply::NullBulk, Reply::SimpleString(SimpleInner::ok())]),
        ],
    };
    assert_eq!(replies.to_bytes(), b":-7\r\n*2\r\n$-1\r\n+OK\r\n".to_vec());
    let mut out = b">".to_vec();
    replies.write_to(&mut out);
    assert_eq!(out, b">:-7\r\n*2\r\n$-1\r\n+OK\r\n".to_vec());
}

// ---------- what comes of a command ----------

#[test]
fn outcomes_have_their_replies() {
    let cases: [(CommandOutcome, &[u8]); 12] = [
        (CommandOutcome::Done, b"+OK\r\n"),
        (CommandOutcome::Pong(None), b"+PONG\r\n"),
        (CommandOutcome::Pong(Some(b"hey".to_vec())), b"$3\r\nhey\r\n"),
        (CommandOutcome::Value(None), b"$-1\r\n"),
        (CommandOutcome::Value(Some(b"".to_vec())), b"$0\r\n\r\n"),
        (CommandOutcome::Integer(1), b":1\r\n"),
        (CommandOutcome::Bool(true), b":1\r\n"),
        (CommandOutcome::Bool(false), b":0\r\n"),
        (CommandOutcome::Ttl(TtlOutcome::KeyNotFound), b":-2\r\n"),
        (CommandOutcome::Ttl(TtlOutcome::TtlNotFound), b":-1\r\n"),
        (CommandOutcome::Ttl(TtlOutcome::Remaining(Seconds::new(60))), b":60\r\n"),
        (
            CommandOutcome::Ttl(TtlOutcome::Remaining(Seconds::new(u64::MAX))),
            b":9223372036854775807\r\n",
        ),
    ];
    for (outcome, bytes) in cases {
        assert_eq!(Reply::from(outcome).to_bytes(), bytes.to_vec());
    }
}
