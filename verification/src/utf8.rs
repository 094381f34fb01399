//! UTF-8 validation with the position and extent of the first fault.

use vstd::prelude::*;

use crate::bytes;
use crate::decimal;

verus! {

/// Bytes that are not UTF-8.
#[derive(Clone, Copy, Debug, PartialEq, Eq, Structural)]
pub struct Utf8Error {
    /// How many bytes from the start are valid.
    pub valid_up_to: usize,
    /// How many bytes the fault spans, or `None` where the input ends inside a character.
    pub error_len: Option<u8>,
}

/// How many bytes the character that starts with `b` takes; 0 where none starts so.
pub open spec fn width(b: u8) -> int {
    if b <= 0x7f {
        1
    } else if 0xc2 <= b <= 0xdf {
        2
    } else if 0xe0 <= b <= 0xef {
        3
    } else if 0xf0 <= b <= 0xf4 {
        4
    } else {
        0
    }
}

/// `b` may follow `first` in a character of two bytes or more.
pub open spec fn may_follow(first: u8, b: u8) -> bool {
    &&& 0x80 <= b <= 0xbf
    &&& first == 0xe0 ==> b >= 0xa0
    &&& first == 0xed ==> b <= 0x9f
    &&& first == 0xf0 ==> b >= 0x90
    &&& first == 0xf4 ==> b <= 0x8f
}

/// How many bytes the fault at the front of `s` spans; `None` where `s` ends too soon.
pub open spec fn fault_len(s: Seq<u8>) -> Option<u8> {
    if width(s[0]) <= 1 {
        Some(1u8)
    } else if s.len() < 2 {
        None
    } else if !may_follow(s[0], s[1]) {
        Some(1u8)
    } else if s.len() < 3 {
        None
    } else if !vstd::utf8::is_continuation_byte(s[2]) {
        Some(2u8)
    } else if s.len() < 4 {
        None
    } else {
        Some(3u8)
    }
}

/// The first fault in `s`: how many valid bytes stand before it, and how far it spans.
pub open spec fn first_fault(s: Seq<u8>) -> Option<(int, Option<u8>)>
    decreases s.len(),
{
    if s.len() == 0 {
        None
    } else if vstd::utf8::valid_first_scalar(s) {
        match first_fault(vstd::utf8::pop_first_scalar(s)) {
            Some((at, len)) => Some((at + vstd::utf8::length_of_first_scalar(s), len)),
            None => None,
        }
    } else {
        Some((0, fault_len(s)))
    }
}

/// Bytes have no fault exactly when they are valid UTF-8.
pub proof fn no_fault_iff_valid(s: Seq<u8>)
    ensures
        first_fault(s) is None <==> vstd::utf8::valid_utf8(s),
    decreases s.len(),
{
    if s.len() > 0 && vstd::utf8::valid_first_scalar(s) {
        no_fault_iff_valid(vstd::utf8::pop_first_scalar(s));
    }
}

proof fn two_bytes(a: u8, b: u8)
    requires
        vstd::utf8::is_leading_byte_width_2(a),
        vstd::utf8::is_continuation_byte(b),
    ensures
        vstd::utf8::codepoint_width_2(a, b) >= 0x80 <==> a >= 0xc2,
        vstd::utf8::codepoint_width_2(a, b) < 0x800,
{
    let c = vstd::utf8::codepoint_width_2(a, b);
    assert((c >= 0x80u32 <==> a >= 0xc2u8) && c < 0x800u32) by (bit_vector)
        requires
            0xc0u8 <= a <= 0xdfu8,
            0x80u8 <= b <= 0xbfu8,
            c == (((a & 0x1fu8) as u32) << 6u32) | ((b & 0x3fu8) as u32),
    ;
}

proof fn three_bytes(a: u8, b: u8, d: u8)
    requires
        vstd::utf8::is_leading_byte_width_3(a),
        vstd::utf8::is_continuation_byte(b),
        vstd::utf8::is_continuation_byte(d),
    ensures
        ({
            let c = vstd::utf8::codepoint_width_3(a, b, d);
            (c >= 0x800 && !(0xd800 <= c <= 0xdfff)) <==> may_follow(a, b)
        }),
{
    let c = vstd::utf8::codepoint_width_3(a, b, d);
    assert((c >= 0x800u32 && !(0xd800u32 <= c && c <= 0xdfffu32)) <==> ((a == 0xe0u8 ==> b
        >= 0xa0u8) && (a == 0xedu8 ==> b <= 0x9fu8))) by (bit_vector)
        requires
            0xe0u8 <= a <= 0xefu8,
            0x80u8 <= b <= 0xbfu8,
            0x80u8 <= d <= 0xbfu8,
            c == (((a & 0x0fu8) as u32) << 12u32) | (((b & 0x3fu8) as u32) << 6u32) | ((d
                & 0x3fu8) as u32),
    ;
}

proof fn four_bytes(a: u8, b: u8, d: u8, e: u8)
    requires
        vstd::utf8::is_leading_byte_width_4(a),
        vstd::utf8::is_continuation_byte(b),
        vstd::utf8::is_continuation_byte(d),
        vstd::utf8::is_continuation_byte(e),
    ensures
        ({
            let c = vstd::utf8::codepoint_width_4(a, b, d, e);
            (0x10000 <= c <= 0x10ffff) <==> (a <= 0xf4 && may_follow(a, b))
        }),
{
    let c = vstd::utf8::codepoint_width_4(a, b, d, e);
    assert((0x10000u32 <= c && c <= 0x10ffffu32) <==> (a <= 0xf4u8 && (a == 0xf0u8 ==> b >= 0x90u8)
        && (a == 0xf4u8 ==> b <= 0x8fu8))) by (bit_vector)
        requires
            0xf0u8 <= a <= 0xf7u8,
            0x80u8 <= b <= 0xbfu8,
            0x80u8 <= d <= 0xbfu8,
            0x80u8 <= e <= 0xbfu8,
            c == (((a & 0x07u8) as u32) << 18u32) | (((b & 0x3fu8) as u32) << 12u32) | (((d
                & 0x3fu8) as u32) << 6u32) | ((e & 0x3fu8) as u32),
    ;
}

/// Which byte sequences start with a whole character, by the ranges of their bytes.
proof fn front_by_ranges(s: Seq<u8>)
    requires
        s.len() > 0,
    ensures
        vstd::utf8::valid_first_scalar(s) <==> {
            &&& 0 < width(s[0]) <= s.len()
            &&& width(s[0]) >= 2 ==> may_follow(s[0], s[1])
            &&& width(s[0]) >= 3 ==> vstd::utf8::is_continuation_byte(s[2])
            &&& width(s[0]) >= 4 ==> vstd::utf8::is_continuation_byte(s[3])
        },
        vstd::utf8::valid_first_scalar(s) ==> vstd::utf8::length_of_first_scalar(s) == width(s[0]),
{
    let a = s[0];
    if vstd::utf8::is_leading_byte_width_1(a) {
        let c = vstd::utf8::codepoint_width_1(a);
        assert(c <= 0x7fu32) by (bit_vector)
            requires
                c == (a & 0x7fu8) as u32,
        ;
    } else if vstd::utf8::is_leading_byte_width_2(a) && s.len() >= 2
        && vstd::utf8::is_continuation_byte(s[1]) {
        two_bytes(a, s[1]);
    } else if vstd::utf8::is_leading_byte_width_3(a) && s.len() >= 3
        && vstd::utf8::is_continuation_byte(s[1]) && vstd::utf8::is_continuation_byte(s[2]) {
        three_bytes(a, s[1], s[2]);
    } else if vstd::utf8::is_leading_byte_width_4(a) && s.len() >= 4
        && vstd::utf8::is_continuation_byte(s[1]) && vstd::utf8::is_continuation_byte(s[2])
        && vstd::utf8::is_continuation_byte(s[3]) {
        four_bytes(a, s[1], s[2], s[3]);
        let c = vstd::utf8::codepoint_width_4(a, s[1], s[2], s[3]);
        if 0x10000 <= c {
            assert(vstd::utf8::not_surrogate(c));
        }
    }
}

/// ASCII bytes have no fault.
pub proof fn ascii_has_no_fault(s: Seq<u8>)
    requires
        forall|i: int| 0 <= i < s.len() ==> #[trigger] s[i] <= 0x7f,
    ensures
        first_fault(s) is None,
    decreases s.len(),
{
    if s.len() > 0 {
        front_by_ranges(s);
        let rest = vstd::utf8::pop_first_scalar(s);
        assert forall|i: int| 0 <= i < rest.len() implies #[trigger] rest[i] <= 0x7f by {
            assert(rest[i] == s[i + 1]);
        }
        ascii_has_no_fault(rest);
    }
}

/// The character at `at`: how long it is, or how far the fault there spans.
fn front(s: &[u8], at: usize) -> (r: Result<usize, Option<u8>>)
    requires
        at < s@.len(),
    ensures
        match r {
            Ok(n) => vstd::utf8::valid_first_scalar(s@.skip(at as int)) && n
                == vstd::utf8::length_of_first_scalar(s@.skip(at as int)) && n <= s@.len() - at,
            Err(e) => !vstd::utf8::valid_first_scalar(s@.skip(at as int)) && e == fault_len(
                s@.skip(at as int),
            ),
        },
{
    let ghost rest = s@.skip(at as int);
    proof {
        front_by_ranges(rest);
        assert forall|i: int| 0 <= i < rest.len() implies #[trigger] rest[i] == s@[at + i] by {}
    }
    let left: usize = s.len() - at;
    let a: u8 = s[at];
    assert(a == rest[0]);
    if a <= 0x7f {
        return Ok(1);
    }
    if a < 0xc2 || a > 0xf4 {
        return Err(Some(1));
    }
    if left < 2 {
        return Err(None);
    }
    let b: u8 = s[at + 1];
    assert(b == rest[1]);
    if b < 0x80 || b > 0xbf || (a == 0xe0 && b < 0xa0) || (a == 0xed && b > 0x9f) || (a == 0xf0
        && b < 0x90) || (a == 0xf4 && b > 0x8f) {
        return Err(Some(1));
    }
    if a <= 0xdf {
        return Ok(2);
    }
    if left < 3 {
        return Err(None);
    }
    let d: u8 = s[at + 2];
    assert(d == rest[2]);
    if d < 0x80 || d > 0xbf {
        return Err(Some(2));
    }
    if a <= 0xef {
        return Ok(3);
    }
    if left < 4 {
        return Err(None);
    }
    let e: u8 = s[at + 3];
    assert(e == rest[3]);
    if e < 0x80 || e > 0xbf {
        return Err(Some(3));
    }
    Ok(4)
}

/// Check that `s` is UTF-8, reporting the first fault where it is not.
pub fn check(s: &[u8]) -> (r: Result<(), Utf8Error>)
    ensures
        r is Ok <==> vstd::utf8::valid_utf8(s@),
        match first_fault(s@) {
            None => r is Ok,
            Some((at, len)) => r is Err && r->Err_0.valid_up_to == at && r->Err_0.error_len == len,
        },
{
    proof {
        no_fault_iff_valid(s@);
        assert(s@.skip(0) =~= s@);
    }
    let mut at: usize = 0;
    while at < s.len()
        invariant
            at <= s@.len(),
            first_fault(s@) == (match first_fault(s@.skip(at as int)) {
                Some((n, len)) => Some((n + at, len)),
                None => None,
            }),
        decreases s@.len() - at,
    {
        match front(s, at) {
            Ok(n) => {
                proof {
                    let rest = s@.skip(at as int);
                    assert(vstd::utf8::pop_first_scalar(rest) =~= s@.skip(at + n));
                }
                at = at + n;
            },
            Err(error_len) => {
                proof {
                    no_fault_iff_valid(s@);
                }
                return Err(Utf8Error { valid_up_to: at, error_len });
            },
        }
    }
    Ok(())
}

impl Utf8Error {
    /// The text that describes the fault.
    pub open spec fn spec_message(self) -> Seq<u8> {
        match self.error_len {
            Some(n) => bytes::text("invalid utf-8 sequence of "@) + decimal::digits(n as nat)
                + bytes::text(" bytes from index "@) + decimal::digits(self.valid_up_to as nat),
            None => bytes::text("incomplete utf-8 byte sequence from index "@) + decimal::digits(
                self.valid_up_to as nat,
            ),
        }
    }

    /// The text that describes the fault.
    pub fn message(&self) -> (r: Vec<u8>)
        ensures
            r@ == self.spec_message(),
    {
        match self.error_len {
            Some(n) => {
                let mut out = bytes::to_bytes("invalid utf-8 sequence of ");
                decimal::append_u64(&mut out, n as u64);
                bytes::append(&mut out, " bytes from index ".as_bytes());
                decimal::append_u64(&mut out, self.valid_up_to as u64);
                out
            },
            None => {
                let mut out = bytes::to_bytes("incomplete utf-8 byte sequence from index ");
                decimal::append_u64(&mut out, self.valid_up_to as u64);
                out
            },
        }
    }
}

/// The first fault stands right behind what is valid: the bytes before it are UTF-8, and no
/// character starts where it stands.
pub proof fn a_fault_stands_behind_what_is_valid(s: Seq<u8>)
    ensures
        first_fault(s) matches Some((at, _)) ==> {
            &&& 0 <= at < s.len()
            &&& vstd::utf8::valid_utf8(s.take(at))
            &&& !vstd::utf8::valid_first_scalar(s.skip(at))
        },
    decreases s.len(),
{
    if s.len() > 0 {
        if vstd::utf8::valid_first_scalar(s) {
            let n = vstd::utf8::length_of_first_scalar(s);
            let rest = vstd::utf8::pop_first_scalar(s);
            a_fault_stands_behind_what_is_valid(rest);
            if let Some((at, _)) = first_fault(rest) {
                let front = s.take(at + n);
                assert(s.skip(at + n) =~= rest.skip(at));
                scalars_are_read_from_the_front(s, at + n);
                assert(vstd::utf8::pop_first_scalar(front) =~= rest.take(at));
            }
        } else {
            assert(s.take(0) =~= Seq::<u8>::empty());
            assert(s.skip(0) =~= s);
        }
    }
}

/// The first character of some bytes does not depend on what stands behind it.
proof fn scalars_are_read_from_the_front(s: Seq<u8>, n: int)
    requires
        s.len() > 0,
        vstd::utf8::valid_first_scalar(s),
        vstd::utf8::length_of_first_scalar(s) <= n <= s.len(),
    ensures
        vstd::utf8::valid_first_scalar(s.take(n)),
        vstd::utf8::length_of_first_scalar(s.take(n)) == vstd::utf8::length_of_first_scalar(s),
{
    let t = s.take(n);
    assert(t[0] == s[0]);
    if t.len() > 1 {
        assert(t[1] == s[1]);
    }
    if t.len() > 2 {
        assert(t[2] == s[2]);
    }
    if t.len() > 3 {
        assert(t[3] == s[3]);
    }
}

/// A fault is described by how far it spans, where that is known, and by where it stands.
pub proof fn faults_are_described_by_place_and_extent(e: Utf8Error)
    ensures
        e.error_len matches Some(n) ==> e.spec_message() == bytes::text(
            "invalid utf-8 sequence of "@,
        ) + decimal::digits(n as nat) + bytes::text(" bytes from index "@) + decimal::digits(
            e.valid_up_to as nat,
        ),
        e.error_len is None ==> e.spec_message() == bytes::text(
            "incomplete utf-8 byte sequence from index "@,
        ) + decimal::digits(e.valid_up_to as nat),
{
}

} // verus!
