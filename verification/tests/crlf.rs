//! The `\r\n` terminator.

use steller::resp::crlf::Crlf;

#[test]
fn is_clrf_true() {
    assert!(b"\r\n".is_crlf());
}
#[test]
fn is_clrf_false() {
    assert!(!b"abc".is_crlf());
}
#[test]
fn split_crlf_some() {
    assert_eq!(
        b"a\r\na".split_crlf(),
        Some(("a".as_bytes(), "a".as_bytes()))
    );
    assert_eq!(b"a\r\n".split_crlf(), Some(("a".as_bytes(), "".as_bytes())));
    assert_eq!(b"\r\na".split_crlf(), Some(("".as_bytes(), "a".as_bytes())));
    assert_eq!(b"\r\n".split_crlf(), Some(("".as_bytes(), "".as_bytes())));
}
#[test]
fn split_crlf_none() {
    assert!(b"a".split_crlf().is_none());
    assert!(b"".split_crlf().is_none());
}
