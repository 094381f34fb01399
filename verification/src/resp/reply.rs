//! Outbound RESP: the [`Reply`] enum the server emits and the [`SimpleInner`] newtype that
//! guards RESP's "no CR/LF in simple frames" invariant at construction time.

use vstd::prelude::*;

use crate::bytes;
use crate::bytes::{CR, LF};
use crate::decimal;
use crate::resp::crlf;
use crate::resp::frame;
use crate::resp::frame::{FrameView, ARRAY_SIGIL, BULK_SIGIL};

verus! {

/// The byte that opens a simple string, `+`.
pub const STRING_SIGIL: u8 = 43;

/// The byte that opens a simple error, `-`.
pub const ERROR_SIGIL: u8 = 45;

/// The byte that opens an integer, `:`.
pub const INTEGER_SIGIL: u8 = 58;

/// Errors returned by [`SimpleInner::try_from`] when payload bytes contain a forbidden
/// character. Simple-string and simple-error frames must not carry `\r` or `\n` because
/// RESP uses those bytes as the frame terminator.
#[derive(Clone, Copy, Debug, PartialEq, Eq, Structural)]
pub enum SimpleInnerError {
    /// There is a `\r` in the payload.
    IncludesCarriageReturn,
    /// There is a `\n` in the payload.
    IncludesLineFeed,
}

impl SimpleInnerError {
    /// The text that describes the fault.
    pub open spec fn spec_message(self) -> Seq<u8> {
        match self {
            SimpleInnerError::IncludesCarriageReturn => bytes::text(
                "must not contain a carriage return: (\"\\r\")"@,
            ),
            SimpleInnerError::IncludesLineFeed => bytes::text(
                "must not contain a line feed (\"\\n\")"@,
            ),
        }
    }

    /// The text that describes the fault.
    pub fn message(&self) -> (r: Vec<u8>)
        ensures
            r@ == self.spec_message(),
    {
        match self {
            SimpleInnerError::IncludesCarriageReturn => bytes::to_bytes(
                "must not contain a carriage return: (\"\\r\")",
            ),
            SimpleInnerError::IncludesLineFeed => bytes::to_bytes(
                "must not contain a line feed (\"\\n\")",
            ),
        }
    }
}

/// `b` is neither `\r` nor `\n`.
pub open spec fn is_plain(b: u8) -> bool {
    b != CR && b != LF
}

/// `s` holds neither `\r` nor `\n`.
pub open spec fn is_line(s: Seq<u8>) -> bool {
    forall|i: int| 0 <= i < s.len() ==> is_plain(#[trigger] s[i])
}

/// `s` without its `\r` and `\n` bytes.
pub open spec fn stripped(s: Seq<u8>) -> Seq<u8> {
    s.filter(|b: u8| is_plain(b))
}

/// Why `s` cannot be a line of its own, if it cannot.
pub open spec fn line_fault(s: Seq<u8>) -> Option<SimpleInnerError> {
    if s.contains(CR) {
        Some(SimpleInnerError::IncludesCarriageReturn)
    } else if s.contains(LF) {
        Some(SimpleInnerError::IncludesLineFeed)
    } else {
        None
    }
}

/// Validated payload for a RESP simple string or simple error.
///
/// Construction enforces the no-CR/LF rule, so once a `SimpleInner` exists it's guaranteed
/// safe to write between a sigil byte and a `\r\n` terminator. The serializer in
/// [`Reply::write_to`] relies on that.
///
/// - [`SimpleInner::ok`] and [`SimpleInner::pong`], constants for normal replies.
/// - [`SimpleInner::sanitized`], for arbitrary error message bytes. Strips `\r` and `\n`
///   defensively instead of returning a `Result` (errors crossing this boundary should
///   never themselves be a source of new errors).
#[derive(Debug, PartialEq)]
pub struct SimpleInner(Vec<u8>);

impl View for SimpleInner {
    type V = Seq<u8>;

    closed spec fn view(&self) -> Seq<u8> {
        self.0@
    }
}

impl Clone for SimpleInner {
    fn clone(&self) -> (r: Self)
        ensures
            r@ == self@,
    {
        proof {
            use_type_invariant(self);
        }
        SimpleInner(bytes::copy(self.0.as_slice()))
    }
}

impl TryFrom<&[u8]> for SimpleInner {
    type Error = SimpleInnerError;

    /// Validate `value`. A `\r` is reported before a `\n`.
    fn try_from(value: &[u8]) -> (r: Result<SimpleInner, SimpleInnerError>)
        ensures
            if value@.contains(CR) {
                r is Err && r->Err_0 == SimpleInnerError::IncludesCarriageReturn
            } else if value@.contains(LF) {
                r is Err && r->Err_0 == SimpleInnerError::IncludesLineFeed
            } else {
                r is Ok && r->Ok_0@ == value@
            },
            match line_fault(value@) {
                Some(e) => r is Err && r->Err_0 == e,
                None => r is Ok && r->Ok_0@ == value@,
            },
    {
        let mut line_feed: bool = false;
        let mut i: usize = 0;
        while i < value.len()
            invariant
                i <= value@.len(),
                forall|j: int| 0 <= j < i ==> #[trigger] value@[j] != CR,
                line_feed ==> value@.contains(LF),
                !line_feed ==> forall|j: int| 0 <= j < i ==> #[trigger] value@[j] != LF,
            decreases value@.len() - i,
        {
            if value[i] == CR {
                assert(value@.contains(CR));
                return Err(SimpleInnerError::IncludesCarriageReturn);
            }
            if value[i] == LF {
                line_feed = true;
            }
            i = i + 1;
        }
        if line_feed {
            return Err(SimpleInnerError::IncludesLineFeed);
        }
        Ok(SimpleInner(bytes::copy(value)))
    }
}

impl vstd::std_specs::convert::TryFromSpecImpl<&[u8]> for SimpleInner {
    open spec fn obeys_try_from_spec() -> bool {
        false
    }

    open spec fn try_from_spec(value: &[u8]) -> Result<SimpleInner, SimpleInnerError> {
        arbitrary()
    }
}

impl SimpleInner {
    #[verifier::type_invariant]
    spec fn on_one_line(self) -> bool {
        is_line(self.0@)
    }

    /// Borrow the validated payload bytes for serialization. They hold neither `\r` nor
    /// `\n`.
    pub fn as_bytes(&self) -> (r: &[u8])
        ensures
            r@ == self@,
            is_line(r@),
    {
        proof {
            use_type_invariant(self);
        }
        self.0.as_slice()
    }

    /// The canonical `+OK\r\n` reply payload.
    pub fn ok() -> (r: Self)
        ensures
            r@ == bytes::text("OK"@),
    {
        let payload = bytes::to_bytes("OK");
        proof {
            reveal_strlit("OK");
            vstd::utf8::is_ascii_chars_encode_utf8("OK"@);
        }
        SimpleInner(payload)
    }

    /// The canonical `+PONG\r\n` reply payload.
    pub fn pong() -> (r: Self)
        ensures
            r@ == bytes::text("PONG"@),
    {
        let payload = bytes::to_bytes("PONG");
        proof {
            reveal_strlit("PONG");
            vstd::utf8::is_ascii_chars_encode_utf8("PONG"@);
        }
        SimpleInner(payload)
    }

    /// Strip any `\r` or `\n` bytes from `bytes` and wrap the result. Use this when the
    /// payload comes from an error message or any other source where CR/LF is plausible.
    /// Guarantees a valid frame without forcing the caller to handle a `Result`.
    pub fn sanitized(bytes: Vec<u8>) -> (r: Self)
        ensures
            r@ == stripped(bytes@),
    {
        let mut out: Vec<u8> = Vec::new();
        let ghost plain = |b: u8| is_plain(b);
        let mut i: usize = 0;
        proof {
            reveal(Seq::filter);
            assert(bytes@.take(0).filter(plain) =~= Seq::<u8>::empty());
        }
        while i < bytes.len()
            invariant
                i <= bytes@.len(),
                plain == (|b: u8| is_plain(b)),
                out@ == bytes@.take(i as int).filter(plain),
                is_line(out@),
            decreases bytes@.len() - i,
        {
            proof {
                reveal(Seq::filter);
                assert(bytes@.take(i + 1).drop_last() =~= bytes@.take(i as int));
                assert(bytes@.take(i + 1).last() == bytes@[i as int]);
            }
            let b: u8 = bytes[i];
            if b != CR && b != LF {
                out.push(b);
            }
            i = i + 1;
        }
        assert(bytes@.take(i as int) =~= bytes@);
        SimpleInner(out)
    }
}

/// A RESP reply the server can write back to a client. Variants cover every reply shape
/// this server emits.
#[derive(Debug, PartialEq)]
pub enum Reply {
    /// `+<payload>\r\n`, such as `+OK` or `+PONG`.
    SimpleString(SimpleInner),
    /// `-<payload>\r\n`, such as `-ERR unknown command`.
    SimpleError(SimpleInner),
    /// `$<len>\r\n<bytes>\r\n`, the binary-safe value reply. A GET hit, or PING with a
    /// message.
    BulkString(Vec<u8>),
    /// `$-1\r\n`, the RESP "no such key" sentinel GET returns on a miss.
    NullBulk,
    /// `:<n>\r\n`, used for boolean-as-int replies (EXISTS, DEL, EXPIRE, PERSIST) and for
    /// TTL's `-2`/`-1`/`n` ladder.
    Integer(i64),
    /// `*<len>\r\n` followed by each element serialized in turn. RESP arrays are
    /// heterogeneous, so elements are themselves [`Reply`]s. Used for pub/sub acks
    /// (`["subscribe", channel, count]`) and message pushes (`["message", channel,
    /// payload]`).
    Array(Vec<Reply>),
}

/// What a [`Reply`] stands for.
pub enum ReplyView {
    /// A line of text.
    SimpleString(Seq<u8>),
    /// A line of text that reports an error.
    SimpleError(Seq<u8>),
    /// A byte string.
    BulkString(Seq<u8>),
    /// The byte string that is not there.
    NullBulk,
    /// A number.
    Integer(int),
    /// Several replies in one.
    Array(Seq<ReplyView>),
}

impl View for Reply {
    type V = ReplyView;

    open spec fn view(&self) -> ReplyView {
        reply_view(*self)
    }
}

/// What `reply` stands for.
pub open spec fn reply_view(reply: Reply) -> ReplyView
    decreases reply,
{
    match reply {
        Reply::SimpleString(inner) => ReplyView::SimpleString(inner@),
        Reply::SimpleError(inner) => ReplyView::SimpleError(inner@),
        Reply::BulkString(payload) => ReplyView::BulkString(payload@),
        Reply::NullBulk => ReplyView::NullBulk,
        Reply::Integer(n) => ReplyView::Integer(n as int),
        Reply::Array(replies) => ReplyView::Array(replies_view(replies@)),
    }
}

/// What each of `replies` stands for.
pub open spec fn replies_view(replies: Seq<Reply>) -> Seq<ReplyView>
    decreases replies,
{
    if replies.len() == 0 {
        Seq::empty()
    } else {
        replies_view(replies.drop_last()).push(reply_view(replies.last()))
    }
}

/// The views of several replies are the replies' views, one by one.
pub proof fn replies_view_index(replies: Seq<Reply>)
    ensures
        replies_view(replies).len() == replies.len(),
        forall|i: int|
            0 <= i < replies.len() ==> #[trigger] replies_view(replies)[i] == replies[i]@,
    decreases replies.len(),
{
    if replies.len() > 0 {
        replies_view_index(replies.drop_last());
    }
}

/// The last reply pushed is the last one viewed.
pub proof fn replies_view_push(replies: Seq<Reply>, r: Reply)
    ensures
        replies_view(replies.push(r)) == replies_view(replies).push(r@),
{
    assert(replies.push(r).drop_last() =~= replies);
}

/// A sigil, a line of text and the terminator.
pub open spec fn encode_line(sigil: u8, line: Seq<u8>) -> Seq<u8> {
    seq![sigil] + line + bytes::crlf()
}

/// The bytes of a reply on the wire.
pub open spec fn encode(reply: ReplyView) -> Seq<u8>
    decreases reply,
{
    match reply {
        ReplyView::SimpleString(line) => encode_line(STRING_SIGIL, line),
        ReplyView::SimpleError(line) => encode_line(ERROR_SIGIL, line),
        ReplyView::BulkString(payload) => frame::encode_header(BULK_SIGIL, payload.len()) + payload
            + bytes::crlf(),
        ReplyView::NullBulk => encode_line(BULK_SIGIL, decimal::signed_digits(-1)),
        ReplyView::Integer(n) => encode_line(INTEGER_SIGIL, decimal::signed_digits(n)),
        ReplyView::Array(replies) => frame::encode_header(ARRAY_SIGIL, replies.len()) + encode_all(
            replies,
        ),
    }
}

/// The bytes of several replies, one behind the other.
pub open spec fn encode_all(replies: Seq<ReplyView>) -> Seq<u8>
    decreases replies,
{
    if replies.len() == 0 {
        Seq::empty()
    } else {
        encode(replies[0]) + encode_all(replies.drop_first())
    }
}

/// Append a sigil, a line of text and the terminator to `w`.
fn write_line(w: &mut Vec<u8>, sigil: u8, line: &[u8])
    ensures
        final(w)@ == old(w)@ + encode_line(sigil, line@),
{
    w.push(sigil);
    bytes::append(w, line);
    w.push(CR);
    w.push(LF);
    assert(w@ =~= old(w)@ + encode_line(sigil, line@));
}

/// Append an integer reply's line to `w`.
fn write_number(w: &mut Vec<u8>, sigil: u8, n: i64)
    ensures
        final(w)@ == old(w)@ + encode_line(sigil, decimal::signed_digits(n as int)),
{
    w.push(sigil);
    decimal::append_i64(w, n);
    w.push(CR);
    w.push(LF);
    assert(w@ =~= old(w)@ + encode_line(sigil, decimal::signed_digits(n as int)));
}

/// Append a header line to `w`.
fn write_header(w: &mut Vec<u8>, sigil: u8, n: usize)
    ensures
        final(w)@ == old(w)@ + frame::encode_header(sigil, n as nat),
{
    w.push(sigil);
    decimal::append_u64(w, n as u64);
    w.push(CR);
    w.push(LF);
    assert(w@ =~= old(w)@ + frame::encode_header(sigil, n as nat));
}

impl Reply {
    /// Append this reply to `w` as RESP bytes.
    pub fn write_to(&self, w: &mut Vec<u8>)
        ensures
            final(w)@ == old(w)@ + encode(self@),
        decreases self,
    {
        match self {
            Reply::SimpleString(inner) => write_line(w, STRING_SIGIL, inner.as_bytes()),
            Reply::SimpleError(inner) => write_line(w, ERROR_SIGIL, inner.as_bytes()),
            Reply::BulkString(payload) => {
                write_header(w, BULK_SIGIL, payload.len());
                bytes::append(w, payload.as_slice());
                w.push(CR);
                w.push(LF);
                assert(w@ =~= old(w)@ + encode(self@));
            },
            Reply::NullBulk => write_number(w, BULK_SIGIL, -1),
            Reply::Integer(n) => write_number(w, INTEGER_SIGIL, *n),
            Reply::Array(replies) => {
                let ghost views = replies_view(replies@);
                proof {
                    replies_view_index(replies@);
                }
                write_header(w, ARRAY_SIGIL, replies.len());
                let ghost start = w@;
                assert(views.skip(0) =~= views);
                let mut i: usize = 0;
                while i < replies.len()
                    invariant
                        i <= replies@.len(),
                        views == replies_view(replies@),
                        views.len() == replies@.len(),
                        forall|j: int|
                            0 <= j < replies@.len() ==> #[trigger] views[j] == replies@[j]@,
                        start + encode_all(views) == w@ + encode_all(views.skip(i as int)),
                        self == Reply::Array(*replies),
                    decreases replies@.len() - i,
                {
                    let ghost before = w@;
                    proof {
                        assert(views.skip(i as int)[0] == views[i as int]);
                        assert(views.skip(i as int).drop_first() =~= views.skip(i + 1));
                        assert(decreases_to!(*self => self->Array_0));
                        assert(decreases_to!(self->Array_0 => replies@));
                        assert(decreases_to!(replies@ => replies@[i as int]));
                    }
                    replies[i].write_to(w);
                    proof {
                        let tail = encode_all(views.skip(i + 1));
                        assert(before + (encode(views[i as int]) + tail) =~= (before + encode(
                            views[i as int],
                        )) + tail);
                    }
                    i = i + 1;
                }
                proof {
                    assert(views.skip(i as int) =~= Seq::<ReplyView>::empty());
                    assert(w@ =~= w@ + Seq::<u8>::empty());
                    assert(start + encode_all(views) =~= old(w)@ + encode(self@));
                }
            },
        }
    }

    /// Serialize this reply to an owned RESP byte buffer.
    pub fn to_bytes(&self) -> (r: Vec<u8>)
        ensures
            r@ == encode(self@),
    {
        let mut b: Vec<u8> = Vec::new();
        self.write_to(&mut b);
        assert(b@ =~= encode(self@));
        b
    }
}

/// Several independent top-level RESP frames sent back to back, *not* a single array. A
/// command like `SUBSCRIBE a b` produces one frame per channel; this batches them so they
/// serialize concatenated, with no enclosing array header.
#[derive(Debug)]
pub struct Replies {
    /// The frames, in order.
    pub inner: Vec<Reply>,
}

impl View for Replies {
    type V = Seq<ReplyView>;

    open spec fn view(&self) -> Seq<ReplyView> {
        replies_view(self.inner@)
    }
}

impl Replies {
    /// Append every frame, in order, to `buf`.
    pub fn write_to(&self, buf: &mut Vec<u8>)
        ensures
            final(buf)@ == old(buf)@ + encode_all(self@),
    {
        let ghost views = replies_view(self.inner@);
        proof {
            replies_view_index(self.inner@);
            assert(views.skip(0) =~= views);
        }
        let mut i: usize = 0;
        while i < self.inner.len()
            invariant
                i <= self.inner@.len(),
                views == replies_view(self.inner@),
                views.len() == self.inner@.len(),
                forall|j: int| 0 <= j < views.len() ==> #[trigger] views[j] == self.inner@[j]@,
                old(buf)@ + encode_all(views) == buf@ + encode_all(views.skip(i as int)),
            decreases self.inner@.len() - i,
        {
            let ghost before = buf@;
            proof {
                assert(views.skip(i as int)[0] == views[i as int]);
                assert(views.skip(i as int).drop_first() =~= views.skip(i + 1));
            }
            self.inner[i].write_to(buf);
            proof {
                let tail = encode_all(views.skip(i + 1));
                assert(before + (encode(views[i as int]) + tail) =~= (before + encode(
                    views[i as int],
                )) + tail);
            }
            i = i + 1;
        }
        proof {
            assert(views.skip(i as int) =~= Seq::<ReplyView>::empty());
            assert(buf@ =~= buf@ + Seq::<u8>::empty());
        }
    }

    /// Serialize every frame into one flat buffer, concatenated with no wrapping header.
    pub fn to_bytes(&self) -> (r: Vec<u8>)
        ensures
            r@ == encode_all(self@),
    {
        let mut b: Vec<u8> = Vec::new();
        self.write_to(&mut b);
        assert(b@ =~= encode_all(self@));
        b
    }
}

/// A simple reply is one line: its first `\r\n` is its end, whatever follows it.
pub proof fn simple_reply_is_one_line(sigil: u8, line: Seq<u8>, rest: Seq<u8>)
    requires
        is_line(line),
        is_plain(sigil),
    ensures
        crlf::split(encode_line(sigil, line) + rest) == Some((seq![sigil] + line, rest)),
{
    let head = seq![sigil] + line;
    assert(!head.contains(CR)) by {
        assert forall|i: int| 0 <= i < head.len() implies head[i] != CR by {
            if i > 0 {
                assert(is_plain(line[i - 1]));
            }
        }
    }
    crlf::split_of_line(head, rest);
    assert(encode_line(sigil, line) + rest =~= head + bytes::crlf() + rest);
}

/// Sanitizing leaves one line, and leaves a line as it is.
pub proof fn sanitizing_makes_a_line(s: Seq<u8>)
    ensures
        is_line(stripped(s)),
        is_line(s) ==> stripped(s) == s,
    decreases s.len(),
{
    reveal(Seq::filter);
    if s.len() > 0 {
        sanitizing_makes_a_line(s.drop_last());
        if is_line(s) {
            assert forall|i: int| 0 <= i < s.drop_last().len() implies is_plain(
                #[trigger] s.drop_last()[i],
            ) by {
                assert(is_plain(s[i]));
            }
            assert(is_plain(s[s.len() - 1]));
            assert(s.drop_last().push(s.last()) =~= s);
        }
    } else {
        assert(stripped(s) =~= s);
    }
}

/// Sanitizing takes out the bytes `\r` and `\n` and keeps every other, in order.
pub proof fn sanitizing_drops_only_line_ends(s: Seq<u8>, b: u8)
    ensures
        stripped(Seq::<u8>::empty()) == Seq::<u8>::empty(),
        b == 13 || b == 10 ==> stripped(s.push(b)) == stripped(s),
        b != 13 && b != 10 ==> stripped(s.push(b)) == stripped(s).push(b),
{
    reveal(Seq::filter);
    assert(s.push(b).drop_last() =~= s);
}

/// A bulk-string reply has the bytes of a bulk-string frame, so what a client is sent is
/// what the frame parser reads.
pub proof fn bulk_reply_is_a_frame(payload: Seq<u8>)
    ensures
        encode(ReplyView::BulkString(payload)) == frame::encode(FrameView::BulkString(payload)),
{
}

/// A line of its own holds neither `\r` nor `\n`; what holds a `\r` is refused for that, and
/// what holds a `\n` alone for that.
pub proof fn line_ends_are_refused(s: Seq<u8>, i: int)
    requires
        0 <= i < s.len(),
    ensures
        line_fault(s) is None ==> s[i] != 13 && s[i] != 10,
        s[i] == 13 ==> line_fault(s) == Some(SimpleInnerError::IncludesCarriageReturn),
        s[i] == 10 && line_fault(s) != Some(SimpleInnerError::IncludesCarriageReturn) ==> line_fault(
            s,
        ) == Some(SimpleInnerError::IncludesLineFeed),
        line_fault(s) == Some(SimpleInnerError::IncludesCarriageReturn) ==> s.contains(13),
        line_fault(s) == Some(SimpleInnerError::IncludesLineFeed) ==> s.contains(10),
{
}

} // verus!
