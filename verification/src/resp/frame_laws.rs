//! Laws of the frame codec: parsing undoes encoding, a cut frame asks for more bytes, and
//! bytes that arrive later do not change what was already read.

use vstd::prelude::*;

use crate::bytes;
use crate::bytes::CR;
use crate::decimal;
use crate::decimal::{IntErrorKind, ParseIntError};
use crate::resp::crlf;
use crate::resp::frame;
use crate::resp::frame::{Frame, FrameError, FrameView, Header, ARRAY_SIGIL, BULK_SIGIL};
use crate::utf8;

verus! {

/// The digits of a length parse back to the length.
proof fn length_parses_back(n: nat)
    requires
        n <= usize::MAX,
    ensures
        frame::parse_length(decimal::digits(n)) == Ok::<nat, frame::ParseLengthError>(n),
{
    decimal::digits_are_digits(n);
    let s = decimal::digits(n);
    assert forall|i: int| 0 <= i < s.len() implies #[trigger] s[i] <= 0x7f by {
        assert(decimal::is_digit(s[i]));
    }
    utf8::ascii_has_no_fault(s);
    decimal::digits_parse_back(n, usize::MAX as nat);
}

/// A header line parses back to what it announces, whatever follows it.
proof fn header_parses_back(sigil: u8, n: nat, rest: Seq<u8>)
    requires
        sigil == ARRAY_SIGIL || sigil == BULK_SIGIL,
        n <= usize::MAX,
    ensures
        frame::parse_header(frame::encode_header(sigil, n) + rest) == Ok::<
            (Header, Seq<u8>),
            FrameError,
        >(
            (
                if sigil == ARRAY_SIGIL {
                    Header::Array(n)
                } else {
                    Header::BulkString(n)
                },
                rest,
            ),
        ),
{
    let line = seq![sigil] + decimal::digits(n);
    decimal::digits_are_digits(n);
    assert(!line.contains(CR)) by {
        assert forall|i: int| 0 <= i < line.len() implies line[i] != CR by {
            if i > 0 {
                assert(decimal::is_digit(decimal::digits(n)[i - 1]));
            }
        }
    }
    crlf::split_of_line(line, rest);
    assert(line.drop_first() =~= decimal::digits(n));
    length_parses_back(n);
}

/// Reading back what was written gives the frame, and leaves what follows it untouched.
pub proof fn parse_undoes_encode(f: FrameView, rest: Seq<u8>)
    requires
        frame::fits(f),
    ensures
        frame::parse(frame::encode(f) + rest) == Ok::<(FrameView, Seq<u8>), FrameError>((f, rest)),
    decreases f,
{
    match f {
        FrameView::Array(frames) => {
            let tail = frame::encode_all(frames) + rest;
            header_parses_back(ARRAY_SIGIL, frames.len(), tail);
            assert(frame::encode(f) + rest =~= frame::encode_header(ARRAY_SIGIL, frames.len())
                + tail);
            parse_undoes_encode_all(frames, rest);
        },
        FrameView::BulkString(payload) => {
            let tail = payload + bytes::crlf() + rest;
            header_parses_back(BULK_SIGIL, payload.len(), tail);
            assert(frame::encode(f) + rest =~= frame::encode_header(BULK_SIGIL, payload.len())
                + tail);
            assert(tail.take(payload.len() as int) =~= payload);
            assert(tail.skip(payload.len() as int) =~= bytes::crlf() + rest);
            assert((bytes::crlf() + rest).skip(2) =~= rest);
        },
    }
}

/// Reading back several frames gives them all, and leaves what follows untouched.
pub proof fn parse_undoes_encode_all(frames: Seq<FrameView>, rest: Seq<u8>)
    requires
        frame::all_fit(frames),
    ensures
        frame::parse_elements(frame::encode_all(frames) + rest, frames.len()) == Ok::<
            (Seq<FrameView>, Seq<u8>),
            FrameError,
        >((frames, rest)),
    decreases frames,
{
    if frames.len() == 0 {
        assert(frame::encode_all(frames) + rest =~= rest);
        assert(frames =~= Seq::<FrameView>::empty());
    } else {
        let others = frames.drop_first();
        let tail = frame::encode_all(others) + rest;
        assert(frame::encode_all(frames) + rest =~= frame::encode(frames[0]) + tail);
        parse_undoes_encode(frames[0], tail);
        parse_undoes_encode_all(others, rest);
        assert(seq![frames[0]] + others =~= frames);
    }
}

/// The lengths of a frame in memory always fit.
pub proof fn frame_fits(f: Frame)
    ensures
        frame::fits(f@),
    decreases f,
{
    match f {
        Frame::Array(frames) => {
            frame::frames_view_index(frames@);
            assert(frames@.len() == frames.len());
            all_frames_fit(frames@, 0);
            assert(frame::frames_view(frames@).skip(0) =~= frame::frames_view(frames@));
        },
        Frame::BulkString(payload) => {
            assert(payload@.len() == payload.len());
        },
    }
}

proof fn all_frames_fit(frames: Seq<Frame>, i: nat)
    requires
        i <= frames.len(),
    ensures
        frame::all_fit(frame::frames_view(frames).skip(i as int)),
    decreases frames, frames.len() - i,
{
    frame::frames_view_index(frames);
    let views = frame::frames_view(frames).skip(i as int);
    if i < frames.len() {
        assert(views[0] == frames[i as int]@);
        frame_fits(frames[i as int]);
        all_frames_fit(frames, i + 1);
        assert(views.drop_first() =~= frame::frames_view(frames).skip(i as int + 1));
    }
}

/// A header line that was read, or refused, stays so when more bytes arrive.
proof fn header_stable(s: Seq<u8>, more: Seq<u8>)
    ensures
        match frame::parse_header(s) {
            Ok((header, rest)) => frame::parse_header(s + more) == Ok::<
                (Header, Seq<u8>),
                FrameError,
            >((header, rest + more)),
            Err(FrameError::Incomplete) => true,
            Err(e) => frame::parse_header(s + more) == Err::<(Header, Seq<u8>), FrameError>(e),
        },
{
    crlf::split_is_stable(s, more);
}

/// A payload that was read, or refused, stays so when more bytes arrive, unless the bytes
/// broke off where the terminator should start.
proof fn payload_stable(s: Seq<u8>, n: nat, more: Seq<u8>)
    ensures
        match frame::parse_payload(s, n) {
            Ok((payload, rest)) => frame::parse_payload(s + more, n) == Ok::<
                (Seq<u8>, Seq<u8>),
                FrameError,
            >((payload, rest + more)),
            Err(FrameError::Incomplete) => true,
            Err(e) => s.len() == n || frame::parse_payload(s + more, n) == Err::<
                (Seq<u8>, Seq<u8>),
                FrameError,
            >(e),
        },
{
    if s.len() >= n {
        let rest = s.skip(n as int);
        let long = s + more;
        assert(long.skip(n as int) =~= rest + more);
        assert(long.take(n as int) =~= s.take(n as int));
        if rest.len() >= 2 {
            assert((rest + more).skip(2) =~= rest.skip(2) + more);
            assert(rest + more != seq![CR]) by {
                assert((rest + more).len() >= 2);
            }
        } else if rest.len() == 1 {
            if rest[0] == CR {
                assert(rest =~= seq![CR]);
            } else {
                assert((rest + more)[0] == rest[0]);
            }
        }
    }
}

/// A frame that was read stays the same when more bytes arrive, and the new bytes stand
/// behind it. An error other than [`FrameError::Incomplete`] stays too, unless the bytes
/// broke off right behind a payload.
pub proof fn parse_is_stable(s: Seq<u8>, more: Seq<u8>)
    ensures
        match frame::parse(s) {
            Ok((f, rest)) => frame::parse(s + more) == Ok::<(FrameView, Seq<u8>), FrameError>(
                (f, rest + more),
            ),
            Err(FrameError::Incomplete) => true,
            Err(e) => frame::ends_with_payload(s) || frame::parse(s + more) == Err::<
                (FrameView, Seq<u8>),
                FrameError,
            >(e),
        },
    decreases s.len(), 0nat,
{
    header_stable(s, more);
    match frame::parse_header(s) {
        Err(_) => {},
        Ok((Header::BulkString(n), rest)) => {
            payload_stable(rest, n, more);
        },
        Ok((Header::Array(n), rest)) => {
            frame::header_shrinks(s);
            elements_stable(rest, n, more);
        },
    }
}

proof fn elements_stable(s: Seq<u8>, n: nat, more: Seq<u8>)
    ensures
        match frame::parse_elements(s, n) {
            Ok((frames, rest)) => frame::parse_elements(s + more, n) == Ok::<
                (Seq<FrameView>, Seq<u8>),
                FrameError,
            >((frames, rest + more)),
            Err(FrameError::Incomplete) => true,
            Err(e) => frame::elements_end_with_payload(s, n) || frame::parse_elements(s + more, n) == Err::<
                (Seq<FrameView>, Seq<u8>),
                FrameError,
            >(e),
        },
    decreases s.len(), n + 1,
{
    if n > 0 {
        parse_is_stable(s, more);
        frame::parse_shrinks(s);
        frame::parse_shrinks(s + more);
        if let Ok((_, rest)) = frame::parse(s) {
            elements_stable(rest, (n - 1) as nat, more);
        }
    }
}

/// Bytes that break off right behind a payload are refused for their missing terminator.
pub proof fn payload_end_is_refused(s: Seq<u8>)
    requires
        frame::ends_with_payload(s),
    ensures
        frame::parse(s) == Err::<(FrameView, Seq<u8>), FrameError>(FrameError::MissingTerminator),
    decreases s.len(), 0nat,
{
    if let Ok((Header::Array(n), rest)) = frame::parse_header(s) {
        frame::header_shrinks(s);
        elements_end_is_refused(rest, n);
    }
}

proof fn elements_end_is_refused(s: Seq<u8>, n: nat)
    requires
        frame::elements_end_with_payload(s, n),
    ensures
        frame::parse_elements(s, n) == Err::<(Seq<FrameView>, Seq<u8>), FrameError>(
            FrameError::MissingTerminator,
        ),
    decreases s.len(), n + 1,
{
    match frame::parse(s) {
        Err(_) => {
            payload_end_is_refused(s);
        },
        Ok((_, rest)) => {
            elements_end_is_refused(rest, (n - 1) as nat);
        },
    }
}

/// Bytes that break off right behind a payload lack the terminator only: with it, the
/// frame is whole, or asks for more.
pub proof fn terminator_mends_payload_end(s: Seq<u8>)
    requires
        frame::ends_with_payload(s),
    ensures
        match frame::parse(s + bytes::crlf()) {
            Ok((_, rest)) => rest.len() == 0,
            Err(e) => e == FrameError::Incomplete,
        },
    decreases s.len(), 0nat,
{
    let more = bytes::crlf();
    header_stable(s, more);
    match frame::parse_header(s) {
        Err(_) => {},
        Ok((Header::BulkString(n), rest)) => {
            assert((rest + more).skip(n as int) =~= more);
        },
        Ok((Header::Array(n), rest)) => {
            frame::header_shrinks(s);
            terminator_mends_elements(rest, n);
        },
    }
}

proof fn terminator_mends_elements(s: Seq<u8>, n: nat)
    requires
        frame::elements_end_with_payload(s, n),
    ensures
        match frame::parse_elements(s + bytes::crlf(), n) {
            Ok((_, rest)) => rest.len() == 0,
            Err(e) => e == FrameError::Incomplete,
        },
    decreases s.len(), n + 1,
{
    let more = bytes::crlf();
    frame::parse_shrinks(s + more);
    match frame::parse(s) {
        Err(_) => {
            terminator_mends_payload_end(s);
            if let Ok((_, rest)) = frame::parse(s + more) {
                assert(rest =~= Seq::<u8>::empty());
                no_bytes_are_incomplete();
                let others = frame::parse_elements(rest, (n - 1) as nat);
                assert(n == 1 ==> others is Ok);
                assert(n > 1 ==> others is Err);
            }
        },
        Ok((_, rest)) => {
            parse_is_stable(s, more);
            terminator_mends_elements(rest, (n - 1) as nat);
        },
    }
}

/// No bytes are an incomplete frame.
pub proof fn no_bytes_are_incomplete()
    ensures
        frame::parse(Seq::<u8>::empty()) == Err::<(FrameView, Seq<u8>), FrameError>(
            FrameError::Incomplete,
        ),
{
    let none = Seq::<u8>::empty();
    crlf::split_parts(none);
    if let Some((head, rest)) = crlf::split(none) {
        assert((head + bytes::crlf() + rest).len() >= 2);
    }
}

/// Bytes that did not break off right behind a payload, and were refused, do not break off
/// there when more arrive.
proof fn refused_stays_refused(s: Seq<u8>, more: Seq<u8>)
    requires
        frame::parse(s) matches Err(e) && e != FrameError::Incomplete,
        !frame::ends_with_payload(s),
    ensures
        !frame::ends_with_payload(s + more),
    decreases s.len(), 0nat,
{
    header_stable(s, more);
    match frame::parse_header(s) {
        Err(_) => {},
        Ok((Header::BulkString(_), _)) => {},
        Ok((Header::Array(n), rest)) => {
            frame::header_shrinks(s);
            refused_elements_stay_refused(rest, n, more);
        },
    }
}

proof fn refused_elements_stay_refused(s: Seq<u8>, n: nat, more: Seq<u8>)
    requires
        frame::parse_elements(s, n) matches Err(e) && e != FrameError::Incomplete,
        !frame::elements_end_with_payload(s, n),
    ensures
        !frame::elements_end_with_payload(s + more, n),
    decreases s.len(), n + 1,
{
    parse_is_stable(s, more);
    frame::parse_shrinks(s);
    match frame::parse(s) {
        Err(_) => {
            refused_stays_refused(s, more);
        },
        Ok((_, rest)) => {
            refused_elements_stay_refused(rest, (n - 1) as nat, more);
        },
    }
}

/// What was made of bytes that are still coming in does not change when more arrive: a
/// frame stays the same and the new bytes stand behind it, and what was refused stays
/// refused.
pub proof fn streaming_is_stable(s: Seq<u8>, more: Seq<u8>)
    ensures
        match frame::streamed(s) {
            Ok((f, rest)) => frame::streamed(s + more) == Ok::<(FrameView, Seq<u8>), FrameError>(
                (f, rest + more),
            ),
            Err(FrameError::Incomplete) => true,
            Err(e) => frame::streamed(s + more) == Err::<(FrameView, Seq<u8>), FrameError>(e),
        },
{
    parse_is_stable(s, more);
    if frame::ends_with_payload(s + more) {
        payload_end_is_refused(s + more);
        if !frame::ends_with_payload(s) {
            if let Err(e) = frame::parse(s) {
                if e != FrameError::Incomplete {
                    refused_stays_refused(s, more);
                }
            }
        }
    }
}

/// Streaming undoes encoding, whatever follows the frame.
pub proof fn streaming_undoes_encode(f: FrameView, rest: Seq<u8>)
    requires
        frame::fits(f),
    ensures
        frame::streamed(frame::encode(f) + rest) == Ok::<(FrameView, Seq<u8>), FrameError>(
            (f, rest),
        ),
{
    parse_undoes_encode(f, rest);
    if frame::ends_with_payload(frame::encode(f) + rest) {
        payload_end_is_refused(frame::encode(f) + rest);
    }
}

/// A frame cut short anywhere asks for more bytes.
pub proof fn cut_frame_is_incomplete(f: FrameView, at: int)
    requires
        frame::fits(f),
        0 <= at < frame::encode(f).len(),
    ensures
        frame::streamed(frame::encode(f).take(at)) == Err::<(FrameView, Seq<u8>), FrameError>(
            FrameError::Incomplete,
        ),
{
    let whole = frame::encode(f);
    let cut = whole.take(at);
    let more = whole.skip(at);
    assert(cut + more =~= whole);
    assert(whole + Seq::<u8>::empty() =~= whole);
    streaming_undoes_encode(f, Seq::empty());
    streaming_is_stable(cut, more);
    if let Ok((_, rest)) = frame::streamed(cut) {
        assert((rest + more).len() > 0);
    }
}

/// A frame on the wire: `$`, the length and the payload as it is, or `*`, the count and the
/// frames; the terminator stands behind the header and behind a payload.
pub proof fn frames_on_the_wire(payload: Seq<u8>, frames: Seq<FrameView>)
    ensures
        frame::encode(FrameView::BulkString(payload)) == seq![36u8] + decimal::digits(payload.len())
            + seq![13u8, 10] + payload + seq![13u8, 10],
        frame::encode(FrameView::Array(frames)) == seq![42u8] + decimal::digits(frames.len())
            + seq![13u8, 10] + frame::encode_all(frames),
        frames.len() == 0 ==> frame::encode_all(frames) == Seq::<u8>::empty(),
        frames.len() > 0 ==> frame::encode_all(frames) == frame::encode(frames[0])
            + frame::encode_all(frames.drop_first()),
{
    assert(frame::encode(FrameView::BulkString(payload)) =~= seq![36u8] + decimal::digits(
        payload.len(),
    ) + seq![13u8, 10] + payload + seq![13u8, 10]);
    assert(frame::encode(FrameView::Array(frames)) =~= seq![42u8] + decimal::digits(frames.len())
        + seq![13u8, 10] + frame::encode_all(frames));
}

/// `line` holds no terminator.
pub open spec fn is_one_line(line: Seq<u8>) -> bool {
    forall|i: int| 0 <= i < line.len() - 1 ==> !(#[trigger] line[i] == 13 && line[i + 1] == 10)
}

/// The first line of some bytes is what stands before their first terminator.
proof fn first_line(line: Seq<u8>, tail: Seq<u8>)
    requires
        is_one_line(line),
    ensures
        crlf::split(line + seq![13u8, 10] + tail) == Some((line, tail)),
{
    let s = line + seq![13u8, 10] + tail;
    let n = line.len() as int;
    assert(crlf::crlf_at(s, n));
    assert forall|j: int| 0 <= j < n implies !#[trigger] crlf::crlf_at(s, j) by {
        assert(s[j] == line[j]);
        if j < n - 1 {
            assert(s[j + 1] == line[j + 1]);
            assert(!(line[j] == 13 && line[j + 1] == 10));
        }
    }
    crlf::split_at_first(s, n);
    assert(s.take(n) =~= line);
    assert(s.skip(n + 2) =~= tail);
}

/// What spells a length is read as it.
proof fn spelled_length_is_read(len: Seq<u8>, n: nat)
    requires
        decimal::spells(len, n),
    ensures
        n <= usize::MAX ==> frame::parse_length(len) == Ok::<nat, frame::ParseLengthError>(n),
        n > usize::MAX ==> frame::parse_length(len) == Err::<nat, frame::ParseLengthError>(
            frame::ParseLengthError::ParseInt(ParseIntError { kind: IntErrorKind::PosOverflow }),
        ),
        forall|i: int| 0 <= i < len.len() ==> #[trigger] len[i] != 13,
{
    decimal::spelled_numbers_are_read(len, n, usize::MAX as nat);
    assert forall|i: int| 0 <= i < len.len() implies #[trigger] len[i] <= 0x7f && len[i] != 13 by {
        if !decimal::spells_plainly(len, n) && i > 0 {
            assert(48 <= len.drop_first()[i - 1] <= 57);
        }
    }
    utf8::ascii_has_no_fault(len);
}

/// A header line with a length that is spelled out.
proof fn spelled_header_is_read(sigil: u8, len: Seq<u8>, n: nat, tail: Seq<u8>)
    requires
        sigil == 42 || sigil == 36,
        decimal::spells(len, n),
        n <= usize::MAX,
    ensures
        frame::parse_header(seq![sigil] + len + seq![13u8, 10] + tail) == Ok::<
            (Header, Seq<u8>),
            FrameError,
        >(
            (
                if sigil == 42 {
                    Header::Array(n)
                } else {
                    Header::BulkString(n)
                },
                tail,
            ),
        ),
{
    let line = seq![sigil] + len;
    spelled_length_is_read(len, n);
    assert(is_one_line(line)) by {
        assert forall|i: int| 0 <= i < line.len() - 1 implies !(#[trigger] line[i] == 13 && line[i
            + 1] == 10) by {
            if i > 0 {
                assert(line[i] == len[i - 1]);
            }
        }
    }
    first_line(line, tail);
    assert(line.drop_first() =~= len);
    assert(len.len() > 0);
}

/// A bulk string is as long as its header says, whatever its bytes are, and a terminator
/// stands behind it. Bytes that break off before its end are waited for, a terminator that is
/// cut in half too; anything else behind the payload is refused. Bytes that end right behind
/// the payload are refused when they are all there is, and waited for while more may come.
pub proof fn bulk_strings_are_cut_by_their_length(len: Seq<u8>, n: nat, tail: Seq<u8>)
    requires
        decimal::spells(len, n),
        n <= usize::MAX,
    ensures
        ({
            let s = seq![36u8] + len + seq![13u8, 10] + tail;
            let whole = Ok::<(FrameView, Seq<u8>), FrameError>(
                (FrameView::BulkString(tail.take(n as int)), tail.skip(n as int + 2)),
            );
            let waits = Err::<(FrameView, Seq<u8>), FrameError>(FrameError::Incomplete);
            let refused = Err::<(FrameView, Seq<u8>), FrameError>(FrameError::MissingTerminator);
            if tail.len() < n {
                frame::parse(s) == waits && frame::streamed(s) == waits
            } else if tail.len() == n {
                frame::parse(s) == refused && frame::streamed(s) == waits
            } else if tail.len() == n + 1 {
                if tail[n as int] == 13 {
                    frame::parse(s) == waits && frame::streamed(s) == waits
                } else {
                    frame::parse(s) == refused && frame::streamed(s) == refused
                }
            } else if tail[n as int] == 13 && tail[n as int + 1] == 10 {
                frame::parse(s) == whole && frame::streamed(s) == whole
            } else {
                frame::parse(s) == refused && frame::streamed(s) == refused
            }
        }),
{
    spelled_header_is_read(36, len, n, tail);
    if tail.len() >= n {
        let rest = tail.skip(n as int);
        if tail.len() == n + 1 {
            assert(rest[0] == tail[n as int]);
            if tail[n as int] == 13 {
                assert(rest =~= seq![CR]);
            }
        }
        if tail.len() >= n + 2 {
            assert(rest[0] == tail[n as int] && rest[1] == tail[n as int + 1]);
            assert(rest.skip(2) =~= tail.skip(n as int + 2));
        }
    }
}

/// An array holds as many frames as its header says, read one behind the other: none leave
/// everything behind them, and otherwise the first is read and then the others.
pub proof fn arrays_are_cut_by_their_count(len: Seq<u8>, n: nat, tail: Seq<u8>)
    requires
        decimal::spells(len, n),
        n <= usize::MAX,
    ensures
        ({
            let read = frame::parse(seq![42u8] + len + seq![13u8, 10] + tail);
            &&& n == 0 ==> read == Ok::<(FrameView, Seq<u8>), FrameError>(
                (FrameView::Array(Seq::empty()), tail),
            )
            &&& match frame::parse_elements(tail, n) {
                Ok((frames, rest)) => read == Ok::<(FrameView, Seq<u8>), FrameError>(
                    (FrameView::Array(frames), rest),
                ) && frames.len() == n,
                Err(e) => read == Err::<(FrameView, Seq<u8>), FrameError>(e),
            }
            &&& n > 0 ==> match frame::parse(tail) {
                Err(e) => read == Err::<(FrameView, Seq<u8>), FrameError>(e),
                Ok((first, rest)) => frame::parse_elements(tail, n) == (
                match frame::parse_elements(rest, (n - 1) as nat) {
                    Ok((others, left)) => Ok::<(Seq<FrameView>, Seq<u8>), FrameError>(
                        (seq![first] + others, left),
                    ),
                    Err(e) => Err(e),
                }),
            }
        }),
{
    spelled_header_is_read(42, len, n, tail);
    elements_are_counted(tail, n);
    if n > 0 {
        frame::parse_shrinks(tail);
    }
}

proof fn elements_are_counted(s: Seq<u8>, n: nat)
    ensures
        frame::parse_elements(s, n) matches Ok((frames, _)) ==> frames.len() == n,
    decreases n,
{
    if n > 0 {
        if let Ok((_, rest)) = frame::parse(s) {
            elements_are_counted(rest, (n - 1) as nat);
        }
    }
}

/// Bytes without a terminator are waited for. A first line that is too short for a sigil and
/// a length, one whose length is no number or too large, and one that starts with no known
/// sigil are refused, in that order, whatever follows.
pub proof fn other_headers_are_refused(line: Seq<u8>, tail: Seq<u8>)
    requires
        is_one_line(line),
    ensures
        frame::streamed(line) == Err::<(FrameView, Seq<u8>), FrameError>(FrameError::Incomplete),
        frame::parse(line) == Err::<(FrameView, Seq<u8>), FrameError>(FrameError::Incomplete),
        ({
            let s = line + seq![13u8, 10] + tail;
            let read = frame::parse(s);
            &&& line.len() < 2 ==> read == Err::<(FrameView, Seq<u8>), FrameError>(
                FrameError::Malformed,
            ) && frame::streamed(s) == read
            &&& line.len() >= 2 && (forall|n: nat| !decimal::spells(line.drop_first(), n)) ==> read
                is Err && read->Err_0 is InvalidLength && frame::streamed(s) == read
            &&& line.len() >= 2 && (exists|n: nat| #[trigger] decimal::spells(line.drop_first(), n)
                && n > usize::MAX) ==> read is Err && read->Err_0 is InvalidLength
                && frame::streamed(s) == read
            &&& line.len() >= 2 && line[0] != 42 && line[0] != 36 && (exists|n: nat| #[trigger]
                decimal::spells(line.drop_first(), n) && n <= usize::MAX) ==> read == Err::<
                (FrameView, Seq<u8>),
                FrameError,
            >(FrameError::UnknownSigil) && frame::streamed(s) == read
        }),
{
    first_line(line, tail);
    assert(crlf::no_crlf(line)) by {
        assert forall|j: int| !#[trigger] crlf::crlf_at(line, j) by {
            if 0 <= j < line.len() - 1 {
                assert(!(line[j] == 13 && line[j + 1] == 10));
            }
        }
    }
    let len = line.drop_first();
    if line.len() >= 2 {
        if exists|n: nat| #[trigger] decimal::spells(len, n) {
            let n = choose|n: nat| #[trigger] decimal::spells(len, n);
            spelled_length_is_read(len, n);
            assert forall|k: nat| #[trigger] decimal::spells(len, k) implies k == n by {
                decimal::spelled_numbers_are_read(len, k, usize::MAX as nat);
                decimal::spelled_numbers_are_read(len, n, usize::MAX as nat);
            }
        } else if frame::parse_length(len) is Ok {
            decimal::read_numbers_are_spelled(len, usize::MAX as nat);
        }
    }
}

} // verus!
