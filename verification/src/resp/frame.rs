//! RESP frame parser. Streams `&[u8]` into [`Frame`] values and signals to the caller when
//! more bytes are needed via [`FrameError::Incomplete`].
//!
//! Only two frame shapes are recognized: RESP arrays (`*`) and bulk strings (`$`). That's
//! the entire surface a client uses to send commands; outbound reply types (simple
//! strings, errors, integers, null-bulk) live in [`crate::resp::reply`].

use vstd::prelude::*;

use crate::bytes;
use crate::bytes::{CR, LF};
use crate::decimal;
use crate::decimal::ParseIntError;
use crate::domain::command::cache::write::{WriteCommand, WriteCommandView};
use crate::resp::crlf;
use crate::resp::crlf::Crlf;
use crate::resp::frame_laws;
use crate::utf8;
use crate::utf8::Utf8Error;

verus! {

/// The byte that opens an array header, `*`.
pub const ARRAY_SIGIL: u8 = 42;

/// The byte that opens a bulk-string header, `$`.
pub const BULK_SIGIL: u8 = 36;

/// Failure parsing a frame.
#[derive(Clone, Copy, Debug, PartialEq, Eq, Structural)]
pub enum FrameError {
    /// A bulk-string payload wasn't followed by `\r\n`.
    MissingTerminator,
    /// The header byte wasn't `*` or `$`.
    UnknownSigil,
    /// The header's length bytes didn't form a `usize`.
    InvalidLength(ParseLengthError),
    /// Not enough bytes yet. The caller reads more from the socket and retries.
    Incomplete,
    /// A CRLF-terminated header too short to hold a sigil plus a length.
    Malformed,
}

/// Why the length in a RESP header didn't parse.
#[derive(Clone, Copy, Debug, PartialEq, Eq, Structural)]
pub enum ParseLengthError {
    /// The bytes weren't UTF-8.
    Utf8(Utf8Error),
    /// The bytes were UTF-8 but not a `usize`.
    ParseInt(ParseIntError),
}

impl ParseLengthError {
    /// The text that describes the fault.
    pub open spec fn spec_message(self) -> Seq<u8> {
        match self {
            ParseLengthError::Utf8(e) => e.spec_message(),
            ParseLengthError::ParseInt(e) => e.kind.spec_message(),
        }
    }

    /// The text that describes the fault.
    pub fn message(&self) -> (r: Vec<u8>)
        ensures
            r@ == self.spec_message(),
    {
        match self {
            ParseLengthError::Utf8(e) => e.message(),
            ParseLengthError::ParseInt(e) => e.message(),
        }
    }
}

impl FrameError {
    /// The text that describes the fault.
    pub open spec fn spec_message(self) -> Seq<u8> {
        match self {
            FrameError::MissingTerminator => bytes::text("missing crlf terminator"@),
            FrameError::UnknownSigil => bytes::text("unknown sigil"@),
            FrameError::InvalidLength(e) => bytes::text("failed to parse length: "@)
                + e.spec_message(),
            FrameError::Incomplete => bytes::text("incomplete frame"@),
            FrameError::Malformed => bytes::text("malformed value"@),
        }
    }

    /// The text that describes the fault.
    pub fn message(&self) -> (r: Vec<u8>)
        ensures
            r@ == self.spec_message(),
    {
        match self {
            FrameError::MissingTerminator => bytes::to_bytes("missing crlf terminator"),
            FrameError::UnknownSigil => bytes::to_bytes("unknown sigil"),
            FrameError::InvalidLength(e) => {
                let mut out = bytes::to_bytes("failed to parse length: ");
                bytes::append(&mut out, e.message().as_slice());
                out
            },
            FrameError::Incomplete => bytes::to_bytes("incomplete frame"),
            FrameError::Malformed => bytes::to_bytes("malformed value"),
        }
    }
}

/// A parsed RESP frame. Only the two shapes a client uses to send commands.
///
/// `BulkString` payloads are arbitrary bytes. The parser does not enforce UTF-8. `Array`
/// is recursive (an array of frames), but parsing iterates rather than recurses, so
/// deeply-nested arrays cannot blow the stack.
#[derive(Debug, PartialEq)]
pub enum Frame {
    /// `*<n>\r\n` followed by `n` frames.
    Array(Vec<Frame>),
    /// `$<len>\r\n<bytes>\r\n`. Length is taken from the header; payload is bytes-exact.
    BulkString(Vec<u8>),
}

/// What a [`Frame`] stands for.
pub enum FrameView {
    /// An array of frames.
    Array(Seq<FrameView>),
    /// A byte string.
    BulkString(Seq<u8>),
}

impl View for Frame {
    type V = FrameView;

    open spec fn view(&self) -> FrameView {
        frame_view(*self)
    }
}

/// What `frame` stands for.
pub open spec fn frame_view(frame: Frame) -> FrameView
    decreases frame,
{
    match frame {
        Frame::Array(frames) => FrameView::Array(frames_view(frames@)),
        Frame::BulkString(payload) => FrameView::BulkString(payload@),
    }
}

/// What each of `frames` stands for.
pub open spec fn frames_view(frames: Seq<Frame>) -> Seq<FrameView>
    decreases frames,
{
    if frames.len() == 0 {
        Seq::empty()
    } else {
        frames_view(frames.drop_last()).push(frame_view(frames.last()))
    }
}

/// The views of several frames are the frames' views, one by one.
pub proof fn frames_view_index(frames: Seq<Frame>)
    ensures
        frames_view(frames).len() == frames.len(),
        forall|i: int| 0 <= i < frames.len() ==> #[trigger] frames_view(frames)[i] == frames[i]@,
    decreases frames.len(),
{
    if frames.len() > 0 {
        frames_view_index(frames.drop_last());
    }
}

impl Clone for Frame {
    fn clone(&self) -> (r: Self)
        ensures
            r@ == self@,
        decreases self,
    {
        match self {
            Frame::Array(frames) => {
                let mut out: Vec<Frame> = Vec::new();
                let mut i: usize = 0;
                while i < frames.len()
                    invariant
                        i <= frames@.len(),
                        self == Frame::Array(*frames),
                        frames_view(out@) == frames_view(frames@.take(i as int)),
                    decreases frames@.len() - i,
                {
                    proof {
                        assert(decreases_to!(*self => self->Array_0));
                        assert(decreases_to!(self->Array_0 => frames@));
                        assert(decreases_to!(frames@ => frames@[i as int]));
                    }
                    let ghost before = out@;
                    out.push(frames[i].clone());
                    proof {
                        assert(out@.drop_last() =~= before);
                        assert(frames@.take(i + 1).drop_last() =~= frames@.take(i as int));
                    }
                    i = i + 1;
                }
                assert(frames@.take(i as int) =~= frames@);
                Frame::Array(out)
            },
            Frame::BulkString(payload) => Frame::BulkString(bytes::copy(payload.as_slice())),
        }
    }
}

/// What a frame's header line announces.
pub enum Header {
    /// An array of so many frames.
    Array(nat),
    /// A payload of so many bytes.
    BulkString(nat),
}

/// The length that a header spells.
pub open spec fn parse_length(s: Seq<u8>) -> Result<nat, ParseLengthError> {
    match utf8::first_fault(s) {
        Some((at, error_len)) => Err(
            ParseLengthError::Utf8(Utf8Error { valid_up_to: at as usize, error_len }),
        ),
        None => match decimal::parse(s, usize::MAX as nat) {
            Ok(n) => Ok(n),
            Err(kind) => Err(ParseLengthError::ParseInt(ParseIntError { kind })),
        },
    }
}

/// The header line at the front of `s`, and what stands behind it.
pub open spec fn parse_header(s: Seq<u8>) -> Result<(Header, Seq<u8>), FrameError> {
    match crlf::split(s) {
        None => Err(FrameError::Incomplete),
        Some((line, rest)) => if line.len() < 2 {
            Err(FrameError::Malformed)
        } else {
            match parse_length(line.drop_first()) {
                Err(e) => Err(FrameError::InvalidLength(e)),
                Ok(n) => if line[0] == ARRAY_SIGIL {
                    Ok((Header::Array(n), rest))
                } else if line[0] == BULK_SIGIL {
                    Ok((Header::BulkString(n), rest))
                } else {
                    Err(FrameError::UnknownSigil)
                },
            }
        },
    }
}

/// A payload of `n` bytes and its terminator at the front of `s`, and what stands behind
/// them. Bytes that break off inside the payload, or half-way through the terminator, are
/// incomplete; a payload with anything else behind it has lost its terminator.
pub open spec fn parse_payload(s: Seq<u8>, n: nat) -> Result<(Seq<u8>, Seq<u8>), FrameError> {
    if s.len() < n {
        Err(FrameError::Incomplete)
    } else {
        let rest = s.skip(n as int);
        if crlf::crlf_at(rest, 0) {
            Ok((s.take(n as int), rest.skip(2)))
        } else if rest == seq![CR] {
            Err(FrameError::Incomplete)
        } else {
            Err(FrameError::MissingTerminator)
        }
    }
}

/// The frame at the front of `s`, and what stands behind it.
pub open spec fn parse(s: Seq<u8>) -> Result<(FrameView, Seq<u8>), FrameError>
    decreases s.len(), 0nat,
{
    match parse_header(s) {
        Err(e) => Err(e),
        Ok((Header::BulkString(n), rest)) => match parse_payload(rest, n) {
            Err(e) => Err(e),
            Ok((payload, rest)) => Ok((FrameView::BulkString(payload), rest)),
        },
        Ok((Header::Array(n), rest)) => {
            proof {
                header_shrinks(s);
            }
            match parse_elements(rest, n) {
                Err(e) => Err(e),
                Ok((frames, rest)) => Ok((FrameView::Array(frames), rest)),
            }
        },
    }
}

/// The `n` frames at the front of `s`, and what stands behind them. (A frame never leaves
/// more than it was given, see [`parse_shrinks`], so the guard always holds.)
pub open spec fn parse_elements(s: Seq<u8>, n: nat) -> Result<(Seq<FrameView>, Seq<u8>), FrameError>
    decreases s.len(), n + 1,
{
    if n == 0 {
        Ok((Seq::empty(), s))
    } else {
        match parse(s) {
            Err(e) => Err(e),
            Ok((first, rest)) => if rest.len() <= s.len() {
                match parse_elements(rest, (n - 1) as nat) {
                    Err(e) => Err(e),
                    Ok((others, rest)) => Ok((seq![first] + others, rest)),
                }
            } else {
                Err(FrameError::Malformed)
            },
        }
    }
}

/// `s` breaks off right behind a payload, before any byte of its terminator.
pub open spec fn ends_with_payload(s: Seq<u8>) -> bool
    decreases s.len(), 0nat,
{
    match parse_header(s) {
        Err(_) => false,
        Ok((Header::BulkString(n), rest)) => rest.len() == n,
        Ok((Header::Array(n), rest)) => {
            proof {
                header_shrinks(s);
            }
            elements_end_with_payload(rest, n)
        },
    }
}

/// The first of `n` frames at the front of `s` that cannot be read breaks off right behind
/// a payload.
pub open spec fn elements_end_with_payload(s: Seq<u8>, n: nat) -> bool
    decreases s.len(), n + 1,
{
    n > 0 && match parse(s) {
        Err(_) => ends_with_payload(s),
        Ok((_, rest)) => rest.len() <= s.len() && elements_end_with_payload(rest, (n - 1) as nat),
    }
}

/// The frame at the front of bytes that are still coming in, and what stands behind it.
/// Bytes that break off right behind a payload are incomplete like those that break off
/// anywhere else: the terminator may be on its way.
pub open spec fn streamed(s: Seq<u8>) -> Result<(FrameView, Seq<u8>), FrameError> {
    if ends_with_payload(s) {
        Err(FrameError::Incomplete)
    } else {
        parse(s)
    }
}

/// A header line takes at least four bytes: a sigil, a digit and the terminator.
pub proof fn header_shrinks(s: Seq<u8>)
    ensures
        parse_header(s) matches Ok((_, rest)) ==> rest.len() + 4 <= s.len(),
{
    crlf::split_parts(s);
}

/// A frame takes at least one byte of what it is read from.
pub proof fn parse_shrinks(s: Seq<u8>)
    ensures
        parse(s) matches Ok((_, rest)) ==> rest.len() < s.len(),
    decreases s.len(), 0nat,
{
    header_shrinks(s);
    if let Ok((Header::Array(n), rest)) = parse_header(s) {
        parse_elements_shrinks(rest, n);
    }
}

proof fn parse_elements_shrinks(s: Seq<u8>, n: nat)
    ensures
        parse_elements(s, n) matches Ok((_, rest)) ==> rest.len() <= s.len(),
    decreases s.len(), n + 1,
{
    if n > 0 {
        parse_shrinks(s);
        if let Ok((_, rest)) = parse(s) {
            parse_elements_shrinks(rest, (n - 1) as nat);
        }
    }
}

/// How many frames there are in `frame`, itself included.
spec fn size(frame: Frame) -> nat
    decreases frame,
{
    match frame {
        Frame::Array(frames) => 1 + size_all(frames@),
        Frame::BulkString(_) => 1,
    }
}

/// How many frames there are in `frames`, themselves included.
spec fn size_all(frames: Seq<Frame>) -> nat
    decreases frames,
{
    if frames.len() == 0 {
        0
    } else {
        size_all(frames.drop_last()) + size(frames.last())
    }
}

proof fn size_of_both(a: Seq<Frame>, b: Seq<Frame>)
    ensures
        size_all(a + b) == size_all(a) + size_all(b),
    decreases b.len(),
{
    if b.len() == 0 {
        assert(a + b =~= a);
    } else {
        size_of_both(a, b.drop_last());
        assert((a + b).drop_last() =~= a + b.drop_last());
    }
}

/// Drop `frames` one by one, however deep they are nested. (Left to itself, the drop of a
/// frame calls itself for each level, and a deep one would use up the stack.)
pub fn discard(frames: Vec<Frame>) {
    let mut left: Vec<Frame> = frames;
    while left.len() > 0
        decreases size_all(left@),
    {
        let ghost before = left@;
        if let Some(frame) = left.pop() {
            proof {
                assert(before.drop_last() =~= left@);
                assert(size(frame) > 0);
            }
            if let Frame::Array(children) = frame {
                let mut children: Vec<Frame> = children;
                proof {
                    assert(size(frame) == 1 + size_all(children@));
                    size_of_both(left@, children@);
                }
                left.append(&mut children);
            }
        }
    }
}

/// An array whose elements are still being read: how many are left, and those read so far.
struct Pending {
    left: usize,
    items: Vec<Frame>,
}

/// What a [`Pending`] stands for.
struct PendingView {
    left: nat,
    items: Seq<FrameView>,
}

impl View for Pending {
    type V = PendingView;

    closed spec fn view(&self) -> PendingView {
        PendingView { left: self.left as nat, items: frames_view(self.items@) }
    }
}

/// The innermost array with one more element read.
spec fn with_element(p: PendingView, frame: FrameView) -> PendingView {
    PendingView { left: (p.left - 1) as nat, items: p.items.push(frame) }
}

/// Drop the arrays that were being read.
fn discard_pending(open: Vec<Pending>, inner: Pending) {
    discard(inner.items);
    let mut open: Vec<Pending> = open;
    while open.len() > 0
        decreases open@.len(),
    {
        if let Some(p) = open.pop() {
            discard(p.items);
        }
    }
}

/// What comes of reading on from `s` with `open` arrays, outermost first, still to finish.
spec fn finish(open: Seq<PendingView>, s: Seq<u8>) -> Result<(FrameView, Seq<u8>), FrameError>
    decreases open.len(),
{
    let inner = open.last();
    match parse_elements(s, inner.left) {
        Err(e) => Err(e),
        Ok((frames, rest)) => {
            let frame = FrameView::Array(inner.items + frames);
            if open.len() <= 1 {
                Ok((frame, rest))
            } else {
                let outer = open.drop_last();
                finish(outer.drop_last().push(with_element(outer.last(), frame)), rest)
            }
        },
    }
}

/// Reading one element of the innermost array moves on by that element.
proof fn finish_element(open: Seq<PendingView>, s: Seq<u8>)
    requires
        open.len() > 0,
        open.last().left > 0,
    ensures
        match parse(s) {
            Err(e) => finish(open, s) == Err::<(FrameView, Seq<u8>), FrameError>(e),
            Ok((frame, rest)) => finish(open, s) == finish(
                open.drop_last().push(with_element(open.last(), frame)),
                rest,
            ),
        },
{
    parse_shrinks(s);
    if let Ok((frame, rest)) = parse(s) {
        let inner = open.last();
        let next = open.drop_last().push(with_element(inner, frame));
        assert(next.drop_last() =~= open.drop_last());
        if let Ok((frames, _)) = parse_elements(rest, (inner.left - 1) as nat) {
            assert(inner.items + (seq![frame] + frames) =~= inner.items.push(frame) + frames);
        }
    }
}

/// Opening a nested array puts it innermost.
proof fn finish_nested(open: Seq<PendingView>, s: Seq<u8>, n: nat, rest: Seq<u8>)
    requires
        open.len() > 0,
        open.last().left > 0,
        parse_header(s) == Ok::<(Header, Seq<u8>), FrameError>((Header::Array(n), rest)),
    ensures
        finish(open, s) == finish(open.push(PendingView { left: n, items: Seq::empty() }), rest),
{
    finish_element(open, s);
    let deeper = open.push(PendingView { left: n, items: Seq::empty() });
    assert(deeper.drop_last() =~= open);
    if let Ok((frames, _)) = parse_elements(rest, n) {
        assert(Seq::<FrameView>::empty() + frames =~= frames);
    }
}

/// What a vector of open arrays stands for.
spec fn pending_views(open: Seq<Pending>) -> Seq<PendingView> {
    open.map_values(|p: Pending| p@)
}

/// What a frame parse returned, as views.
pub open spec fn result_view(r: Result<(Frame, &[u8]), FrameError>) -> Result<
    (FrameView, Seq<u8>),
    FrameError,
> {
    match r {
        Ok((frame, rest)) => Ok((frame@, rest@)),
        Err(e) => Err(e),
    }
}

/// A header line: the sigil, a length and the terminator.
pub open spec fn encode_header(sigil: u8, n: nat) -> Seq<u8> {
    seq![sigil] + decimal::digits(n) + bytes::crlf()
}

/// The bytes of a frame on the wire.
pub open spec fn encode(frame: FrameView) -> Seq<u8>
    decreases frame,
{
    match frame {
        FrameView::Array(frames) => encode_header(ARRAY_SIGIL, frames.len()) + encode_all(frames),
        FrameView::BulkString(payload) => encode_header(BULK_SIGIL, payload.len()) + payload
            + bytes::crlf(),
    }
}

/// The bytes of several frames, one behind the other.
pub open spec fn encode_all(frames: Seq<FrameView>) -> Seq<u8>
    decreases frames,
{
    if frames.len() == 0 {
        Seq::empty()
    } else {
        encode(frames[0]) + encode_all(frames.drop_first())
    }
}

/// Every length in `frame` fits a `usize`, as those of every [`Frame`] do.
pub open spec fn fits(frame: FrameView) -> bool
    decreases frame,
{
    match frame {
        FrameView::Array(frames) => frames.len() <= usize::MAX && all_fit(frames),
        FrameView::BulkString(payload) => payload.len() <= usize::MAX,
    }
}

/// Every length in each of `frames` fits a `usize`.
pub open spec fn all_fit(frames: Seq<FrameView>) -> bool
    decreases frames,
{
    frames.len() == 0 || fits(frames[0]) && all_fit(frames.drop_first())
}

/// Parse the digits of a header's length.
fn read_length(digits: &[u8]) -> (r: Result<usize, ParseLengthError>)
    ensures
        match parse_length(digits@) {
            Ok(n) => r == Ok::<usize, ParseLengthError>(n as usize) && n <= usize::MAX,
            Err(e) => r == Err::<usize, ParseLengthError>(e),
        },
{
    match utf8::check(digits) {
        Err(e) => Err(ParseLengthError::Utf8(e)),
        Ok(()) => match decimal::parse_usize(digits) {
            Err(e) => Err(ParseLengthError::ParseInt(e)),
            Ok(n) => Ok(n),
        },
    }
}

/// Parse the header line at the front of `bytes`: whether it opens an array, the length it
/// spells, and what stands behind it.
fn read_header(bytes: &[u8]) -> (r: Result<(bool, usize, &[u8]), FrameError>)
    ensures
        match parse_header(bytes@) {
            Err(e) => r is Err && r->Err_0 == e,
            Ok((Header::Array(n), rest)) => r matches Ok((is_array, len, after)) && is_array && len
                == n && after@ == rest,
            Ok((Header::BulkString(n), rest)) => r matches Ok((is_array, len, after)) && !is_array
                && len == n && after@ == rest,
        },
{
    let Some((line, rest)) = bytes.split_crlf() else {
        return Err(FrameError::Incomplete);
    };
    if line.len() < 2 {
        return Err(FrameError::Malformed);
    }
    let (sigil, digits) = line.split_at(1);
    assert(digits@ =~= line@.drop_first());
    let len: usize = match read_length(digits) {
        Err(e) => {
            return Err(FrameError::InvalidLength(e));
        },
        Ok(n) => n,
    };
    if sigil[0] == ARRAY_SIGIL {
        Ok((true, len, rest))
    } else if sigil[0] == BULK_SIGIL {
        Ok((false, len, rest))
    } else {
        Err(FrameError::UnknownSigil)
    }
}

impl Frame {
    /// Parse one frame from the front of `bytes`, returning it and the leftover slice.
    /// [`FrameError::Incomplete`] is the signal the session uses to read more from the
    /// socket before retrying.
    pub fn parse_one(bytes: &[u8]) -> (r: Result<(Frame, &[u8]), FrameError>)
        ensures
            result_view(r) == parse(bytes@),
    {
        match read_header(bytes) {
            Err(e) => Err(e),
            Ok((is_array, len, rest)) => if is_array {
                Frame::parse_array(rest, len)
            } else {
                Frame::parse_bulk_string(rest, len)
            },
        }
    }

    /// Parse one frame from the front of bytes that are still coming in, as
    /// [`Frame::parse_one`] does, but take bytes that break off right behind a payload for
    /// incomplete: whatever has come in of a frame so far, the rest may be on its way.
    pub fn parse_streamed(bytes: &[u8]) -> (r: Result<(Frame, &[u8]), FrameError>)
        ensures
            result_view(r) == streamed(bytes@),
    {
        let r = Frame::parse_one(bytes);
        if let Err(FrameError::MissingTerminator) = r {
            let mut mended = bytes::copy(bytes);
            mended.push(CR);
            mended.push(LF);
            proof {
                assert(mended@ =~= bytes@ + bytes::crlf());
                frame_laws::parse_is_stable(bytes@, bytes::crlf());
                if ends_with_payload(bytes@) {
                    frame_laws::terminator_mends_payload_end(bytes@);
                }
            }
            return match Frame::parse_one(mended.as_slice()) {
                Err(FrameError::MissingTerminator) => Err(FrameError::MissingTerminator),
                Err(_) => Err(FrameError::Incomplete),
                Ok((whole, _)) => {
                    let mut frames: Vec<Frame> = Vec::new();
                    frames.push(whole);
                    discard(frames);
                    Err(FrameError::Incomplete)
                },
            };
        }
        proof {
            if ends_with_payload(bytes@) {
                frame_laws::payload_end_is_refused(bytes@);
            }
        }
        r
    }

    /// Parse `len` consecutive frames from `bytes` into a [`Frame::Array`]. The arrays
    /// still being read are kept on the heap, so neither a long array nor a deep one uses
    /// more stack.
    pub fn parse_array(bytes: &[u8], len: usize) -> (r: Result<(Frame, &[u8]), FrameError>)
        ensures
            match parse_elements(bytes@, len as nat) {
                Err(e) => r is Err && r->Err_0 == e,
                Ok((frames, rest)) => result_view(r) == Ok::<(FrameView, Seq<u8>), FrameError>(
                    (FrameView::Array(frames), rest),
                ),
            },
    {
        let mut open: Vec<Pending> = Vec::new();
        let mut inner: Pending = Pending { left: len, items: Vec::new() };
        let mut buf: &[u8] = bytes;
        let ghost goal = finish(seq![inner@], bytes@);
        proof {
            assert(inner@.items =~= Seq::<FrameView>::empty());
            if let Ok((frames, _)) = parse_elements(bytes@, len as nat) {
                assert(Seq::<FrameView>::empty() + frames =~= frames);
            }
            assert(pending_views(open@).push(inner@) =~= seq![inner@]);
        }
        loop
            invariant
                goal == finish(pending_views(open@).push(inner@), buf@),
                forall|i: int| 0 <= i < open@.len() ==> (#[trigger] open@[i]).left > 0,
                match parse_elements(bytes@, len as nat) {
                    Err(e) => goal == Err::<(FrameView, Seq<u8>), FrameError>(e),
                    Ok((frames, rest)) => goal == Ok::<(FrameView, Seq<u8>), FrameError>(
                        (FrameView::Array(frames), rest),
                    ),
                },
            decreases buf@.len(), open@.len(),
        {
            let ghost views = pending_views(open@).push(inner@);
            let frame: Frame;
            if inner.left == 0 {
                proof {
                    assert(views.last() == inner@);
                    assert(inner@.items + Seq::<FrameView>::empty() =~= inner@.items);
                }
                frame = Frame::Array(inner.items);
                match open.pop() {
                    None => {
                        return Ok((frame, buf));
                    },
                    Some(outer) => {
                        proof {
                            assert(pending_views(open@) =~= views.drop_last().drop_last());
                            assert(views.drop_last().last() == outer@);
                        }
                        inner = outer;
                    },
                }
            } else {
                proof {
                    assert(views.last() == inner@);
                    assert(views.drop_last() =~= pending_views(open@));
                    finish_element(views, buf@);
                    header_shrinks(buf@);
                    parse_shrinks(buf@);
                }
                match read_header(buf) {
                    Err(e) => {
                        discard_pending(open, inner);
                        return Err(e);
                    },
                    Ok((is_array, n, rest)) => {
                        if is_array {
                            proof {
                                finish_nested(views, buf@, n as nat, rest@);
                            }
                            let ghost deeper = views.push(
                                PendingView { left: n as nat, items: Seq::empty() },
                            );
                            let nested: Pending = Pending { left: n, items: Vec::new() };
                            open.push(inner);
                            inner = nested;
                            buf = rest;
                            proof {
                                assert(inner@.items =~= Seq::<FrameView>::empty());
                                assert(pending_views(open@).push(inner@) =~= deeper);
                            }
                            continue;
                        }
                        match Frame::parse_bulk_string(rest, n) {
                            Err(e) => {
                                discard_pending(open, inner);
                                return Err(e);
                            },
                            Ok((f, rest)) => {
                                frame = f;
                                buf = rest;
                            },
                        }
                    },
                }
            }
            let ghost before = inner@;
            let ghost view = frame@;
            let ghost items = inner.items@;
            inner.items.push(frame);
            inner.left = inner.left - 1;
            proof {
                assert(inner.items@.drop_last() =~= items);
                assert(inner@ == with_element(before, view));
            }
        }
    }

    /// Append the frame's wire form to `w`.
    pub fn write_to(&self, w: &mut Vec<u8>)
        ensures
            final(w)@ == old(w)@ + encode(self@),
        decreases self,
    {
        match self {
            Frame::Array(frames) => {
                let ghost views = frames_view(frames@);
                proof {
                    frames_view_index(frames@);
                }
                w.push(ARRAY_SIGIL);
                decimal::append_u64(w, frames.len() as u64);
                w.push(CR);
                w.push(LF);
                let ghost start = old(w)@ + encode_header(ARRAY_SIGIL, views.len());
                assert(w@ =~= start);
                assert(views.skip(0) =~= views);
                let mut i: usize = 0;
                while i < frames.len()
                    invariant
                        i <= frames@.len(),
                        views == frames_view(frames@),
                        views.len() == frames@.len(),
                        forall|j: int|
                            0 <= j < frames@.len() ==> #[trigger] views[j] == frames@[j]@,
                        start + encode_all(views) == w@ + encode_all(views.skip(i as int)),
                        self == Frame::Array(*frames),
                    decreases frames@.len() - i,
                {
                    let ghost before = w@;
                    proof {
                        assert(views.skip(i as int)[0] == views[i as int]);
                        assert(views.skip(i as int).drop_first() =~= views.skip(i + 1));
                        assert(decreases_to!(*self => self->Array_0));
                        assert(decreases_to!(self->Array_0 => frames@));
                        assert(decreases_to!(frames@ => frames@[i as int]));
                    }
                    frames[i].write_to(w);
                    proof {
                        let tail = encode_all(views.skip(i + 1));
                        assert(before + (encode(views[i as int]) + tail) =~= (before + encode(
                            views[i as int],
                        )) + tail);
                    }
                    i = i + 1;
                }
                proof {
                    assert(views.skip(i as int) =~= Seq::<FrameView>::empty());
                    assert(w@ =~= w@ + Seq::<u8>::empty());
                    assert(start + encode_all(views) =~= old(w)@ + (encode_header(
                        ARRAY_SIGIL,
                        views.len(),
                    ) + encode_all(views)));
                }
            },
            Frame::BulkString(payload) => {
                w.push(BULK_SIGIL);
                decimal::append_u64(w, payload.len() as u64);
                w.push(CR);
                w.push(LF);
                bytes::append(w, payload.as_slice());
                w.push(CR);
                w.push(LF);
                assert(w@ =~= old(w)@ + encode(self@));
            },
        }
    }

    /// Parse exactly `len` payload bytes followed by `\r\n`.
    pub fn parse_bulk_string(bytes: &[u8], len: usize) -> (r: Result<(Frame, &[u8]), FrameError>)
        ensures
            match parse_payload(bytes@, len as nat) {
                Err(e) => r is Err && r->Err_0 == e,
                Ok((payload, rest)) => result_view(r) == Ok::<(FrameView, Seq<u8>), FrameError>(
                    (FrameView::BulkString(payload), rest),
                ),
            },
    {
        if bytes.len() < len {
            return Err(FrameError::Incomplete);
        }
        let (payload, rest) = bytes.split_at(len);
        assert(payload@ =~= bytes@.take(len as int));
        assert(rest@ =~= bytes@.skip(len as int));
        if rest.is_crlf() {
            let (_, remaining) = rest.split_at(2);
            assert(remaining@ =~= rest@.skip(2));
            Ok((Frame::BulkString(bytes::copy(payload)), remaining))
        } else if rest.len() == 1 && rest[0] == CR {
            assert(rest@ =~= seq![CR]);
            Err(FrameError::Incomplete)
        } else {
            Err(FrameError::MissingTerminator)
        }
    }
}

/// A bulk string that spells `literal`.
pub open spec fn word(literal: Seq<char>) -> FrameView {
    FrameView::BulkString(bytes::text(literal))
}

/// The bulk string that spells a deadline in milliseconds.
pub open spec fn deadline_word(millis: u64) -> FrameView {
    FrameView::BulkString(decimal::digits(millis as nat))
}

/// A change of state as the frame a client would have sent. Deadlines go out in the
/// millisecond verbs, which are read back without converting.
pub open spec fn write_frame(c: WriteCommandView) -> FrameView {
    match c {
        WriteCommandView::SetKey { key, value, expires_at: None } => FrameView::Array(
            seq![word("SET"@), FrameView::BulkString(key), FrameView::BulkString(value)],
        ),
        WriteCommandView::SetKey { key, value, expires_at: Some(t) } => FrameView::Array(
            seq![
                word("SET"@),
                FrameView::BulkString(key),
                FrameView::BulkString(value),
                word("PXAT"@),
                deadline_word(t.0),
            ],
        ),
        WriteCommandView::Delete { key } => FrameView::Array(
            seq![word("DEL"@), FrameView::BulkString(key)],
        ),
        WriteCommandView::ExpireAt { key, expires_at } => FrameView::Array(
            seq![word("PEXPIREAT"@), FrameView::BulkString(key), deadline_word(expires_at.0)],
        ),
        WriteCommandView::Persist { key } => FrameView::Array(
            seq![word("PERSIST"@), FrameView::BulkString(key)],
        ),
    }
}

/// The last frame pushed is the last one viewed.
proof fn frames_view_push(frames: Seq<Frame>, f: Frame)
    ensures
        frames_view(frames.push(f)) == frames_view(frames).push(f@),
{
    assert(frames.push(f).drop_last() =~= frames);
}

/// An array of bulk strings.
fn words(parts: Vec<Vec<u8>>) -> (r: Frame)
    ensures
        r@ == FrameView::Array(parts@.map_values(|p: Vec<u8>| FrameView::BulkString(p@))),
{
    let ghost all = parts@.map_values(|p: Vec<u8>| FrameView::BulkString(p@));
    let mut frames: Vec<Frame> = Vec::new();
    let mut i: usize = 0;
    while i < parts.len()
        invariant
            i <= parts@.len(),
            all == parts@.map_values(|p: Vec<u8>| FrameView::BulkString(p@)),
            frames_view(frames@) == all.take(i as int),
        decreases parts@.len() - i,
    {
        let frame = Frame::BulkString(bytes::copy(parts[i].as_slice()));
        proof {
            frames_view_push(frames@, frame);
            assert(all.take(i + 1) =~= all.take(i as int).push(all[i as int]));
        }
        frames.push(frame);
        i = i + 1;
    }
    assert(all.take(i as int) =~= all);
    Frame::Array(frames)
}

/// Encode a mutation as the RESP bytes a client would have sent. This is what the command
/// log stores, and it is why replay needs no decoder of its own.
///
/// Deadlines go out in the millisecond verbs, `PXAT` and `PEXPIREAT`, rather than the
/// second ones. Those are the forms the parser takes verbatim, so a logged command
/// round-trips unchanged. Writing `EXPIREAT` here would hand replay a millisecond value
/// that the seconds arm would multiply a second time.
///
/// No clock is read here. Everything being encoded is already absolute.
impl From<WriteCommand> for Frame {
    fn from(value: WriteCommand) -> (r: Self)
        ensures
            r@ == write_frame(value@),
    {
        let mut parts: Vec<Vec<u8>> = Vec::new();
        match value {
            WriteCommand::SetKey { key, value, expires_at } => {
                parts.push(bytes::to_bytes("SET"));
                parts.push(key);
                parts.push(value);
                if let Some(t) = expires_at {
                    parts.push(bytes::to_bytes("PXAT"));
                    parts.push(decimal::to_digits(t.get()));
                }
            },
            WriteCommand::Delete { key } => {
                parts.push(bytes::to_bytes("DEL"));
                parts.push(key);
            },
            WriteCommand::ExpireAt { key, expires_at } => {
                parts.push(bytes::to_bytes("PEXPIREAT"));
                parts.push(key);
                parts.push(decimal::to_digits(expires_at.get()));
            },
            WriteCommand::Persist { key } => {
                parts.push(bytes::to_bytes("PERSIST"));
                parts.push(key);
            },
        }
        let frame = words(parts);
        assert(frame@->Array_0 =~= write_frame(value@)->Array_0);
        frame
    }
}

impl vstd::std_specs::convert::FromSpecImpl<WriteCommand> for Frame {
    open spec fn obeys_from_spec() -> bool {
        false
    }

    open spec fn from_spec(value: WriteCommand) -> Frame {
        arbitrary()
    }
}

} // verus!
