//! Frames: parsing and encoding.

use steller::resp::frame::{discard, Frame, FrameError, ParseLengthError};

#[test]
fn parse_bulk_string_ok_basic() {
    assert_eq!(
        Frame::parse_bulk_string(b"foo\r\n", 3).unwrap(),
        (Frame::BulkString(b"foo".to_vec()), "".as_bytes())
    );
}
#[test]
fn parse_bulk_string_ok_with_inner_terminator() {
    assert_eq!(
        Frame::parse_bulk_string(b"foo\r\nbar\r\n", 8).unwrap(),
        (Frame::BulkString(b"foo\r\nbar".to_vec()), "".as_bytes())
    );
}
#[test]
fn parse_bulk_string_err_missing_terminator() {
    assert!(matches!(
        Frame::parse_bulk_string(b"foo", 1),
        Err(FrameError::MissingTerminator)
    ));
}
#[test]
fn parse_array_ok_basic() {
    assert_eq!(
        Frame::parse_array(b"$3\r\nfoo\r\n$3\r\nbar\r\nfoo", 2).unwrap(),
        (
            Frame::Array(vec![
                Frame::BulkString(b"foo".to_vec()),
                Frame::BulkString(b"bar".to_vec()),
            ]),
            "foo".as_bytes()
        )
    );
}
#[test]
fn parse_array_ok_empty() {
    assert_eq!(
        Frame::parse_array(b"", 0).unwrap(),
        (Frame::Array(vec![]), "".as_bytes())
    );
}
#[test]
fn parse_one_ok_basic_bulk_string() {
    assert_eq!(
        Frame::parse_one(b"$3\r\nfoo\r\nbar").unwrap(),
        (Frame::BulkString(b"foo".to_vec()), "bar".as_bytes(),)
    );
}
#[test]
fn parse_one_ok_basic_array() {
    assert_eq!(
        Frame::parse_one(b"*2\r\n$3\r\nfoo\r\n$3\r\nbar\r\nfoo").unwrap(),
        (
            Frame::Array(vec![
                Frame::BulkString(b"foo".to_vec()),
                Frame::BulkString(b"bar".to_vec())
            ]),
            "foo".as_bytes(),
        )
    );
}
#[test]
fn parse_one_ok_empty_array() {
    assert_eq!(
        Frame::parse_one(b"*0\r\n").unwrap(),
        (Frame::Array(vec![]), "".as_bytes())
    );
}
#[test]
fn parse_one_ok_nested_array() {
    assert_eq!(
        Frame::parse_one(b"*1\r\n*2\r\n$3\r\nfoo\r\n$3\r\nbar\r\nbaz").unwrap(),
        (
            Frame::Array(vec![Frame::Array(vec![
                Frame::BulkString(b"foo".to_vec()),
                Frame::BulkString(b"bar".to_vec())
            ])]),
            "baz".as_bytes()
        )
    );
}
#[test]
fn parse_one_err_incomplete() {
    assert!(matches!(
        Frame::parse_one(b"foo"),
        Err(FrameError::Incomplete)
    ));
    assert!(matches!(Frame::parse_one(b""), Err(FrameError::Incomplete)));
}
#[test]
fn parse_one_err_malformed() {
    assert!(matches!(
        Frame::parse_one(b"$\r\n"),
        Err(FrameError::Malformed)
    ));
}
#[test]
fn parse_one_err_invalid_length() {
    assert!(matches!(
        Frame::parse_one(b"$\xFF\xFE\r\nbar"),
        Err(FrameError::InvalidLength(ParseLengthError::Utf8(_)))
    ));
    assert!(matches!(
        Frame::parse_one(b"$foo\r\nbar"),
        Err(FrameError::InvalidLength(ParseLengthError::ParseInt(_)))
    ));
}
#[test]
fn parse_one_err_invalid_unknown_sigil() {
    assert!(matches!(
        Frame::parse_one(b"?2\r\n"),
        Err(FrameError::UnknownSigil)
    ));
}
#[test]
fn parse_one_err_invalid_missing_terminator() {
    assert!(matches!(
        Frame::parse_one(b"$3\r\nfoo"),
        Err(FrameError::MissingTerminator)
    ));
}

#[test]
fn write_to_bulk_string() {
    let mut buf = Vec::<u8>::new();
    Frame::BulkString(b"foo".to_vec()).write_to(&mut buf);
    assert_eq!(buf, b"$3\r\nfoo\r\n".to_vec(),);
}

#[test]
fn to_bytes_array() {
    let mut buf = Vec::<u8>::new();
    Frame::Array(vec![
        Frame::BulkString(b"foo".to_vec()),
        Frame::BulkString(b"bar".to_vec()),
    ]).write_to(&mut buf);
    assert_eq!(buf, b"*2\r\n$3\r\nfoo\r\n$3\r\nbar\r\n".to_vec(),);
}

// ---------- errors ----------

#[test]
fn every_fault_has_its_input_and_its_text() {
    let cases: [(&[u8], FrameError, &str); 8] = [
        (b"", FrameError::Incomplete, "incomplete frame"),
        (b"*2\r", FrameError::Incomplete, "incomplete frame"),
        (b"$5\r\nhel", FrameError::Incomplete, "incomplete frame"),
        (b"$5\r\nhello\r", FrameError::Incomplete, "incomplete frame"),
        (b"$5\r\nhelloxx", FrameError::MissingTerminator, "missing crlf terminator"),
        (b"$5\r\nhello", FrameError::MissingTerminator, "missing crlf terminator"),
        (b"?2\r\n", FrameError::UnknownSigil, "unknown sigil"),
        (b"\r\n", FrameError::Malformed, "malformed value"),
    ];
    for (bytes, fault, text) in cases {
        let found = Frame::parse_one(bytes).unwrap_err();
        assert_eq!(found, fault, "{bytes:?}");
        assert_eq!(found.message(), text.as_bytes().to_vec());
    }
}

#[test]
fn a_length_that_is_no_number_says_why() {
    assert_eq!(
        Frame::parse_one(b"$x\r\n").unwrap_err().message(),
        b"failed to parse length: invalid digit found in string".to_vec()
    );
    assert_eq!(
        Frame::parse_one(b"$99999999999999999999\r\n").unwrap_err().message(),
        b"failed to parse length: number too large to fit in target type".to_vec()
    );
    assert_eq!(
        Frame::parse_one(b"$\xff\r\n").unwrap_err().message(),
        b"failed to parse length: invalid utf-8 sequence of 1 bytes from index 0".to_vec()
    );
    // The length is looked at before the sigil.
    assert!(matches!(
        Frame::parse_one(b"+OK\r\n"),
        Err(FrameError::InvalidLength(ParseLengthError::ParseInt(_)))
    ));
}

// ---------- streaming ----------

fn sample() -> Frame {
    Frame::Array(vec![
        Frame::BulkString(b"SET".to_vec()),
        Frame::Array(vec![Frame::BulkString(b"".to_vec()), Frame::Array(vec![])]),
        Frame::BulkString(b"a\r\nb\xff\x00".to_vec()),
    ])
}

fn encoded(frame: &Frame) -> Vec<u8> {
    let mut out = Vec::new();
    frame.write_to(&mut out);
    out
}

#[test]
fn parsing_undoes_encoding_and_keeps_what_follows() {
    let mut bytes = encoded(&sample());
    bytes.extend_from_slice(b"*1\r\nrest");
    let (frame, rest) = Frame::parse_one(&bytes).unwrap();
    assert_eq!(frame, sample());
    assert_eq!(rest, b"*1\r\nrest".as_slice());
}

#[test]
fn a_frame_cut_short_is_incomplete() {
    let bytes = encoded(&sample());
    for at in 0..bytes.len() {
        match Frame::parse_one(&bytes[..at]) {
            Err(FrameError::Incomplete) => {}
            // Right behind a payload, the terminator is missed.
            Err(FrameError::MissingTerminator) => {
                assert!(bytes[at..].starts_with(b"\r\n"), "cut at {at}");
            }
            other => panic!("cut at {at}: {other:?}"),
        }
    }
}

#[test]
fn while_bytes_come_in_a_frame_cut_short_is_always_incomplete() {
    let bytes = encoded(&sample());
    for at in 0..bytes.len() {
        assert_eq!(
            Frame::parse_streamed(&bytes[..at]),
            Err(FrameError::Incomplete),
            "cut at {at}"
        );
    }
    assert_eq!(
        Frame::parse_streamed(&bytes).unwrap(),
        (sample(), b"".as_slice())
    );
    for wrong in [b"$3\r\nfoox".as_slice(), b"$3\r\nfoo\rx", b"*2\r\n$1\r\na\r\n$1\r\nbb"] {
        assert_eq!(
            Frame::parse_streamed(wrong),
            Err(FrameError::MissingTerminator),
            "{wrong:?}"
        );
    }
}

#[test]
fn deep_nesting_does_not_recurse() {
    let depth = 200_000;
    let mut bytes = b"*1\r\n".repeat(depth);
    bytes.extend_from_slice(b"$2\r\nhi\r\n");
    let (frame, rest) = Frame::parse_one(&bytes).unwrap();
    assert!(rest.is_empty());
    let mut level = 0;
    let mut inner = &frame;
    while let Frame::Array(frames) = inner {
        assert_eq!(frames.len(), 1);
        inner = &frames[0];
        level += 1;
    }
    assert_eq!(level, depth);
    assert_eq!(inner, &Frame::BulkString(b"hi".to_vec()));
    discard(vec![frame]);
}

#[test]
fn a_clone_is_equal() {
    assert_eq!(sample().clone(), sample());
}
