//! Decimal integers, UTF-8 and byte strings, held against what std makes of them.

use steller::bytes;
use steller::decimal;
use steller::decimal::IntErrorKind;
use steller::utf8;

fn std_kind(s: &str) -> Result<u64, IntErrorKind> {
    match s.parse::<u64>() {
        Ok(n) => Ok(n),
        Err(e) => Err(match e.kind() {
            std::num::IntErrorKind::Empty => IntErrorKind::Empty,
            std::num::IntErrorKind::PosOverflow => IntErrorKind::PosOverflow,
            _ => IntErrorKind::InvalidDigit,
        }),
    }
}

#[test]
fn integers_parse_as_std_parses_them() {
    for s in [
        "", "0", "1", "9", "10", "007", "+", "+0", "+5", "++5", "-", "-1", "-0", " 1", "1 ", "1a",
        "a", "12345678901234567890", "18446744073709551615", "18446744073709551616",
        "+18446744073709551615", "99999999999999999999", "018446744073709551615",
        "18446744073709551615x", "99999999999999999999x", "1_000", "0x10", "1.0", "١",
    ] {
        assert_eq!(
            decimal::parse_u64(s.as_bytes()).map_err(|e| e.kind),
            std_kind(s),
            "{s:?}"
        );
    }
    assert_eq!(decimal::parse_usize(b"42").unwrap(), 42);
    assert_eq!(
        decimal::parse_usize(b"99999999999999999999").unwrap_err().kind,
        IntErrorKind::PosOverflow
    );
}

#[test]
fn numbers_of_any_size_are_told_from_other_bytes() {
    for s in ["0", "+7", "18446744073709551616", "+99999999999999999999", "000"] {
        assert!(decimal::spells_number(s.as_bytes()), "{s:?}");
    }
    for s in ["", "+", "++1", "-1", "1 ", "99999999999999999999x", "x1"] {
        assert!(!decimal::spells_number(s.as_bytes()), "{s:?}");
    }
}

#[test]
fn integer_errors_read_as_std_words_them() {
    for s in ["", "x", "99999999999999999999"] {
        assert_eq!(
            decimal::parse_u64(s.as_bytes()).unwrap_err().message(),
            s.parse::<u64>().unwrap_err().to_string().into_bytes()
        );
    }
}

#[test]
fn digits_parse_back() {
    for n in [0, 1, 9, 10, 99, 100, 1234567890, u64::MAX - 1, u64::MAX] {
        assert_eq!(decimal::to_digits(n), n.to_string().into_bytes());
        assert_eq!(decimal::parse_u64(&decimal::to_digits(n)).unwrap(), n);
    }
}

#[test]
fn integers_are_appended_behind_what_is_there() {
    for n in [0, 1, -1, 42, -42, i64::MAX, i64::MIN] {
        let mut out = b"n=".to_vec();
        decimal::append_i64(&mut out, n);
        assert_eq!(out, format!("n={n}").into_bytes());
    }
    let mut out = b"n=".to_vec();
    decimal::append_u64(&mut out, u64::MAX);
    assert_eq!(out, b"n=18446744073709551615".to_vec());
}

/// `check` finds what `std::str::from_utf8` finds, at the same place, and words it alike.
fn agrees_with_std(s: &[u8]) {
    match (utf8::check(s), std::str::from_utf8(s)) {
        (Ok(()), Ok(_)) => {}
        (Err(ours), Err(theirs)) => {
            assert_eq!(ours.valid_up_to, theirs.valid_up_to(), "{s:?}");
            assert_eq!(
                ours.error_len.map(|n| n as usize),
                theirs.error_len(),
                "{s:?}"
            );
            assert_eq!(ours.message(), theirs.to_string().into_bytes(), "{s:?}");
        }
        (ours, theirs) => panic!("{s:?}: {ours:?} but {theirs:?}"),
    }
}

#[test]
fn utf8_is_checked_as_std_checks_it() {
    agrees_with_std(b"");
    agrees_with_std("plain".as_bytes());
    agrees_with_std("Käse, ß, €, 𝄞, \u{10ffff}".as_bytes());
    for a in 0..=255u8 {
        agrees_with_std(&[a]);
        agrees_with_std(&[b'x', a, b'y']);
        for b in 0..=255u8 {
            agrees_with_std(&[a, b]);
        }
    }
    // Around every boundary of the second, third and fourth byte.
    let edges = [0x00, 0x7f, 0x80, 0x8f, 0x90, 0x9f, 0xa0, 0xbf, 0xc0, 0xff];
    for a in 0xc0..=255u8 {
        for b in edges {
            for c in edges {
                agrees_with_std(&[a, b, c]);
                for d in edges {
                    agrees_with_std(&[a, b, c, d]);
                    agrees_with_std(&[b'k', a, b, c, d, b'!']);
                }
            }
        }
    }
}

#[test]
fn only_ascii_letters_are_folded() {
    assert_eq!(bytes::to_lowercase(b"GeT09-_"), b"get09-_".to_vec());
    let all: Vec<u8> = (0..=255).collect();
    assert_eq!(bytes::to_lowercase(&all), all.to_ascii_lowercase());
}

#[test]
fn byte_strings_are_ordered_as_std_orders_them() {
    let strings: [&[u8]; 7] = [b"", b"a", b"aa", b"ab", b"b", b"\xff", b"\xff\x00"];
    for a in strings {
        for b in strings {
            let expected = a.cmp(b);
            let found = match bytes::position(a, b) {
                bytes::Position::Before => std::cmp::Ordering::Less,
                bytes::Position::Same => std::cmp::Ordering::Equal,
                bytes::Position::After => std::cmp::Ordering::Greater,
            };
            assert_eq!(found, expected, "{a:?} {b:?}");
            assert_eq!(bytes::equal(a, b), a == b);
        }
    }
}
