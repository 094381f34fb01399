//! Decimal integers as ASCII bytes: parsing, formatting, and the fact that one undoes
//! the other.

use vstd::prelude::*;

verus! {

/// Why a run of bytes is not a decimal integer in range.
#[derive(Clone, Copy, Debug, PartialEq, Eq, Structural)]
pub enum IntErrorKind {
    /// There were no bytes at all.
    Empty,
    /// A byte that is no digit, or a sign with nothing behind it.
    InvalidDigit,
    /// The digits name a number above the target type's maximum.
    PosOverflow,
}

/// An integer that did not parse.
#[derive(Clone, Copy, Debug, PartialEq, Eq, Structural)]
pub struct ParseIntError {
    /// What was wrong with it.
    pub kind: IntErrorKind,
}

/// `b` is an ASCII digit.
pub open spec fn is_digit(b: u8) -> bool {
    48 <= b <= 57
}

/// The number that a run of digits names, most significant first.
pub open spec fn value(s: Seq<u8>) -> nat
    decreases s.len(),
{
    if s.len() == 0 {
        0
    } else {
        (value(s.drop_last()) * 10 + (s.last() - 48)) as nat
    }
}

/// How many digits `s` starts with.
pub open spec fn digit_run(s: Seq<u8>) -> nat
    decreases s.len(),
{
    if s.len() == 0 || !is_digit(s[0]) {
        0
    } else {
        1 + digit_run(s.drop_first())
    }
}

/// `s` without one leading `+`.
pub open spec fn unsigned_part(s: Seq<u8>) -> Seq<u8> {
    if s.len() > 0 && s[0] == 43 {
        s.drop_first()
    } else {
        s
    }
}

/// `s` spells a number of whatever size: an optional `+` and digits, with nothing else.
pub open spec fn is_number(s: Seq<u8>) -> bool {
    let body = unsigned_part(s);
    body.len() > 0 && digit_run(body) == body.len()
}

/// What `s` means as an unsigned decimal integer of at most `max`: an optional `+` and one
/// digit or more. The leftmost fault decides the error.
pub open spec fn parse(s: Seq<u8>, max: nat) -> Result<nat, IntErrorKind> {
    let body = unsigned_part(s);
    let run = digit_run(body);
    if s.len() == 0 {
        Err(IntErrorKind::Empty)
    } else if value(body.take(run as int)) > max {
        Err(IntErrorKind::PosOverflow)
    } else if run < body.len() || run == 0 {
        Err(IntErrorKind::InvalidDigit)
    } else {
        Ok(value(body))
    }
}

/// The decimal digits of `n`, without leading zeros.
pub open spec fn digits(n: nat) -> Seq<u8>
    decreases n,
{
    if n < 10 {
        seq![(48 + n) as u8]
    } else {
        digits(n / 10).push((48 + n % 10) as u8)
    }
}

/// The decimal form of `n`, with a leading `-` below zero.
pub open spec fn signed_digits(n: int) -> Seq<u8> {
    if n < 0 {
        seq![45u8] + digits((-n) as nat)
    } else {
        digits(n as nat)
    }
}

proof fn digit_run_bound(s: Seq<u8>)
    ensures
        digit_run(s) <= s.len(),
        forall|i: int| 0 <= i < digit_run(s) ==> is_digit(#[trigger] s[i]),
        digit_run(s) < s.len() ==> !is_digit(s[digit_run(s) as int]),
    decreases s.len(),
{
    if s.len() > 0 && is_digit(s[0]) {
        let rest = s.drop_first();
        digit_run_bound(rest);
        assert forall|i: int| 0 <= i < digit_run(s) implies is_digit(#[trigger] s[i]) by {
            if i > 0 {
                assert(rest[i - 1] == s[i]);
            }
        }
    }
}

proof fn digit_run_unique(s: Seq<u8>, k: nat)
    requires
        k <= s.len(),
        forall|i: int| 0 <= i < k ==> is_digit(#[trigger] s[i]),
        k < s.len() ==> !is_digit(s[k as int]),
    ensures
        digit_run(s) == k,
{
    digit_run_bound(s);
    let run: nat = digit_run(s);
    if run < k {
        assert(is_digit(s[run as int]));
    } else if k < run {
        assert(is_digit(s[k as int]));
    }
}

proof fn value_grows(s: Seq<u8>, i: nat, j: nat)
    requires
        i <= j <= s.len(),
        forall|k: int| 0 <= k < j ==> is_digit(#[trigger] s[k]),
    ensures
        value(s.take(i as int)) <= value(s.take(j as int)),
    decreases j - i,
{
    if i < j {
        value_grows(s, i, (j - 1) as nat);
        assert(s.take(j as int).drop_last() =~= s.take(j - 1));
        assert(s.take(j as int).last() == s[j - 1]);
        assert(is_digit(s[j - 1]));
    }
}

/// The digits of a number are digits, and there is at least one.
pub proof fn digits_are_digits(n: nat)
    ensures
        digits(n).len() >= 1,
        forall|i: int| 0 <= i < digits(n).len() ==> is_digit(#[trigger] digits(n)[i]),
    decreases n,
{
    if n >= 10 {
        digits_are_digits(n / 10);
    }
}

proof fn value_of_digits(n: nat)
    ensures
        value(digits(n)) == n,
    decreases n,
{
    if n < 10 {
        let s = digits(n);
        assert(s.drop_last() =~= Seq::<u8>::empty());
        assert(value(s.drop_last()) == 0);
        assert(s.last() == (48 + n) as u8);
    } else {
        value_of_digits(n / 10);
        let s = digits(n);
        assert(s.drop_last() =~= digits(n / 10));
        assert(s.last() == (48 + n % 10) as u8);
    }
}

/// Reading a number's decimal form gives the number back, wherever it fits.
pub proof fn digits_parse_back(n: nat, max: nat)
    requires
        n <= max,
    ensures
        parse(digits(n), max) == Ok::<nat, IntErrorKind>(n),
{
    let s = digits(n);
    digits_are_digits(n);
    value_of_digits(n);
    assert(is_digit(s[0]));
    assert(unsigned_part(s) == s);
    digit_run_unique(s, s.len());
    assert(s.take(s.len() as int) =~= s);
}

/// A number is made of digits, behind an optional `+`.
pub proof fn number_is_digits(s: Seq<u8>)
    requires
        is_number(s),
    ensures
        forall|i: int|
            0 <= i < unsigned_part(s).len() ==> is_digit(#[trigger] unsigned_part(s)[i]),
{
    digit_run_bound(unsigned_part(s));
}

/// `s` is made of digits, one or more, that name `n`.
pub open spec fn spells_plainly(s: Seq<u8>, n: nat) -> bool {
    &&& s.len() > 0
    &&& forall|i: int| 0 <= i < s.len() ==> 48 <= #[trigger] s[i] <= 57
    &&& value(s) == n
}

/// `s` spells the number `n`: digits that name it, behind an optional `+`.
pub open spec fn spells(s: Seq<u8>, n: nat) -> bool {
    ||| spells_plainly(s, n)
    ||| s.len() > 0 && s[0] == 43 && spells_plainly(s.drop_first(), n)
}

/// A run of digits names a number by its places: no digits name zero, and a digit behind a
/// number makes it ten times as large and adds itself.
pub proof fn digits_count_by_places(s: Seq<u8>, d: u8)
    requires
        d <= 9,
    ensures
        value(Seq::<u8>::empty()) == 0,
        value(s.push((48 + d) as u8)) == value(s) * 10 + d,
{
    assert(s.push((48 + d) as u8).drop_last() =~= s);
}

/// A number is written in digits that spell it, and without a leading zero.
pub proof fn digits_spell_the_number(n: nat)
    ensures
        spells(digits(n), n),
        digits(n)[0] == 48 ==> n == 0 && digits(n).len() == 1,
    decreases n,
{
    digits_are_digits(n);
    value_of_digits(n);
    assert forall|i: int| 0 <= i < digits(n).len() implies 48 <= #[trigger] digits(n)[i] <= 57 by {
        assert(is_digit(digits(n)[i]));
    }
    assert(is_digit(digits(n)[0]));
    if n >= 10 {
        digits_spell_the_number(n / 10);
        digits_are_digits(n / 10);
        assert(digits(n)[0] == digits(n / 10)[0]);
    }
}

/// A number below zero is written as the one above, behind a `-`.
pub proof fn signed_numbers_are_spelled(n: int)
    ensures
        n >= 0 ==> spells(signed_digits(n), n as nat),
        n < 0 ==> signed_digits(n)[0] == 45 && spells(signed_digits(n).drop_first(), (-n) as nat),
        n >= 0 ==> signed_digits(n) == digits(n as nat),
{
    if n >= 0 {
        digits_spell_the_number(n as nat);
    } else {
        digits_spell_the_number((-n) as nat);
        assert(signed_digits(n).drop_first() =~= digits((-n) as nat));
    }
}

/// What spells a number is read as it, wherever it fits, and is refused as too large where
/// it does not.
pub proof fn spelled_numbers_are_read(s: Seq<u8>, n: nat, max: nat)
    requires
        spells(s, n),
    ensures
        is_number(s),
        value(unsigned_part(s)) == n,
        n <= max ==> parse(s, max) == Ok::<nat, IntErrorKind>(n),
        n > max ==> parse(s, max) == Err::<nat, IntErrorKind>(IntErrorKind::PosOverflow),
{
    let body = unsigned_part(s);
    assert(spells_plainly(body, n)) by {
        if spells_plainly(s, n) {
            assert(48 <= s[0] <= 57);
        }
    }
    assert forall|i: int| 0 <= i < body.len() implies is_digit(#[trigger] body[i]) by {
        assert(48 <= body[i] <= 57);
    }
    digit_run_unique(body, body.len());
    assert(body.take(body.len() as int) =~= body);
}

/// What is read as a number spells it.
pub proof fn read_numbers_are_spelled(s: Seq<u8>, max: nat)
    requires
        parse(s, max) is Ok,
    ensures
        spells(s, parse(s, max)->Ok_0),
        parse(s, max)->Ok_0 <= max,
{
    let body = unsigned_part(s);
    digit_run_bound(body);
    assert(body.take(body.len() as int) =~= body);
    assert forall|i: int| 0 <= i < body.len() implies 48 <= #[trigger] body[i] <= 57 by {
        assert(is_digit(body[i]));
    }
}

/// Why bytes are not read as a number: there are none; or the digits they start with, behind
/// an optional `+`, are too large already; or else some byte is no digit.
pub proof fn refused_numbers(s: Seq<u8>, run: Seq<u8>, rest: Seq<u8>, max: nat)
    requires
        s == run + rest || s == seq![43u8] + run + rest,
        forall|i: int| 0 <= i < run.len() ==> 48 <= #[trigger] run[i] <= 57,
        rest.len() > 0 ==> !(48 <= rest[0] <= 57),
        s == run + rest && run.len() == 0 && rest.len() > 0 ==> rest[0] != 43,
        run.len() == 0 || rest.len() > 0,
    ensures
        parse(s, max) == Err::<nat, IntErrorKind>(
            if s.len() == 0 {
                IntErrorKind::Empty
            } else if value(run) > max {
                IntErrorKind::PosOverflow
            } else {
                IntErrorKind::InvalidDigit
            },
        ),
{
    let body = unsigned_part(s);
    if s == seq![43u8] + run + rest {
        if s.len() > 0 {
            assert(s[0] == 43);
        }
        assert(body =~= run + rest);
    } else {
        assert(s.len() > 0 ==> s[0] != 43);
        assert(body =~= run + rest);
    }
    assert forall|i: int| 0 <= i < run.len() implies is_digit(#[trigger] body[i]) by {
        assert(body[i] == run[i]);
    }
    if rest.len() > 0 {
        assert(body[run.len() as int] == rest[0]);
    }
    digit_run_unique(body, run.len());
    assert(body.take(run.len() as int) =~= run);
}

/// Parse an unsigned decimal integer of at most `max`.
fn parse_at_most(bytes: &[u8], max: u64) -> (r: Result<u64, ParseIntError>)
    ensures
        match parse(bytes@, max as nat) {
            Ok(n) => r == Ok::<u64, ParseIntError>(n as u64) && n <= max,
            Err(kind) => r == Err::<u64, ParseIntError>(ParseIntError { kind }),
        },
{
    if bytes.len() == 0 {
        return Err(ParseIntError { kind: IntErrorKind::Empty });
    }
    let start: usize = if bytes[0] == 43 {
        1
    } else {
        0
    };
    let ghost body = unsigned_part(bytes@);
    assert(body =~= bytes@.skip(start as int));
    let mut total: u64 = 0;
    let mut i: usize = start;
    while i < bytes.len()
        invariant
            start <= i <= bytes@.len(),
            start <= 1,
            body == bytes@.skip(start as int),
            body == unsigned_part(bytes@),
            bytes@.len() > 0,
            forall|k: int| 0 <= k < i - start ==> is_digit(#[trigger] body[k]),
            total == value(body.take(i - start)),
            total <= max,
        decreases bytes@.len() - i,
    {
        let b: u8 = bytes[i];
        let ghost k: int = i - start;
        assert(b == body[k]);
        if b < 48 || b > 57 {
            proof {
                digit_run_unique(body, k as nat);
            }
            return Err(ParseIntError { kind: IntErrorKind::InvalidDigit });
        }
        let digit: u64 = (b - 48) as u64;
        proof {
            assert(body.take(k + 1).drop_last() =~= body.take(k));
            assert(body.take(k + 1).last() == b);
            assert(value(body.take(k + 1)) == total * 10 + digit);
        }
        if total > max / 10 || digit > max - total * 10 {
            proof {
                assert(value(body.take(k + 1)) > max);
                digit_run_bound(body);
                let run: nat = digit_run(body);
                if run < k + 1 {
                    assert(is_digit(body[run as int]));
                }
                value_grows(body, (k + 1) as nat, run);
            }
            return Err(ParseIntError { kind: IntErrorKind::PosOverflow });
        }
        total = total * 10 + digit;
        i = i + 1;
    }
    proof {
        digit_run_unique(body, body.len());
        assert(body.take(body.len() as int) =~= body);
    }
    if start == bytes.len() {
        return Err(ParseIntError { kind: IntErrorKind::InvalidDigit });
    }
    Ok(total)
}

/// Parse an unsigned decimal integer as a `u64`.
pub fn parse_u64(bytes: &[u8]) -> (r: Result<u64, ParseIntError>)
    ensures
        match parse(bytes@, u64::MAX as nat) {
            Ok(n) => r == Ok::<u64, ParseIntError>(n as u64) && n <= u64::MAX,
            Err(kind) => r == Err::<u64, ParseIntError>(ParseIntError { kind }),
        },
{
    parse_at_most(bytes, u64::MAX)
}

/// Parse an unsigned decimal integer as a `usize`.
pub fn parse_usize(bytes: &[u8]) -> (r: Result<usize, ParseIntError>)
    ensures
        match parse(bytes@, usize::MAX as nat) {
            Ok(n) => r == Ok::<usize, ParseIntError>(n as usize) && n <= usize::MAX,
            Err(kind) => r == Err::<usize, ParseIntError>(ParseIntError { kind }),
        },
{
    match parse_at_most(bytes, usize::MAX as u64) {
        Ok(n) => Ok(n as usize),
        Err(e) => Err(e),
    }
}

/// Tell whether `bytes` spell a number, of whatever size.
pub fn spells_number(bytes: &[u8]) -> (r: bool)
    ensures
        r == is_number(bytes@),
{
    let start: usize = if bytes.len() > 0 && bytes[0] == 43 {
        1
    } else {
        0
    };
    let ghost body = unsigned_part(bytes@);
    assert(body =~= bytes@.skip(start as int));
    let mut i: usize = start;
    while i < bytes.len()
        invariant
            start <= i <= bytes@.len(),
            body == bytes@.skip(start as int),
            body == unsigned_part(bytes@),
            forall|k: int| 0 <= k < i - start ==> is_digit(#[trigger] body[k]),
        decreases bytes@.len() - i,
    {
        let b: u8 = bytes[i];
        assert(b == body[i - start]);
        if b < 48 || b > 57 {
            proof {
                digit_run_unique(body, (i - start) as nat);
            }
            return false;
        }
        i = i + 1;
    }
    proof {
        digit_run_unique(body, body.len());
    }
    start < bytes.len()
}

/// Append the decimal digits of `n` to `out`.
pub fn append_u64(out: &mut Vec<u8>, n: u64)
    ensures
        final(out)@ == old(out)@ + digits(n as nat),
    decreases n,
{
    if n >= 10 {
        append_u64(out, n / 10);
    }
    out.push(48 + (n % 10) as u8);
    assert(out@ =~= old(out)@ + digits(n as nat));
}

/// Append the decimal form of `n` to `out`, with a leading `-` below zero.
pub fn append_i64(out: &mut Vec<u8>, n: i64)
    ensures
        final(out)@ == old(out)@ + signed_digits(n as int),
{
    if n < 0 {
        out.push(45);
        if n == i64::MIN {
            append_u64(out, 9223372036854775808);
        } else {
            append_u64(out, (-n) as u64);
        }
    } else {
        append_u64(out, n as u64);
    }
    assert(out@ =~= old(out)@ + signed_digits(n as int));
}

/// The decimal digits of `n`, owned.
pub fn to_digits(n: u64) -> (r: Vec<u8>)
    ensures
        r@ == digits(n as nat),
{
    let mut out: Vec<u8> = Vec::new();
    append_u64(&mut out, n);
    assert(out@ =~= digits(n as nat));
    out
}

impl IntErrorKind {
    /// The text that describes the fault.
    pub open spec fn spec_message(self) -> Seq<u8> {
        match self {
            IntErrorKind::Empty => crate::bytes::text("cannot parse integer from empty string"@),
            IntErrorKind::InvalidDigit => crate::bytes::text("invalid digit found in string"@),
            IntErrorKind::PosOverflow => crate::bytes::text(
                "number too large to fit in target type"@,
            ),
        }
    }
}

impl ParseIntError {
    /// The text that describes the fault.
    pub fn message(&self) -> (r: Vec<u8>)
        ensures
            r@ == self.kind.spec_message(),
    {
        match self.kind {
            IntErrorKind::Empty => crate::bytes::to_bytes("cannot parse integer from empty string"),
            IntErrorKind::InvalidDigit => crate::bytes::to_bytes("invalid digit found in string"),
            IntErrorKind::PosOverflow => crate::bytes::to_bytes(
                "number too large to fit in target type",
            ),
        }
    }
}

} // verus!
