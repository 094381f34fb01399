//! The per-connection session: take in bytes, parse frames, run commands, answer.
//!
//! A [`Session`] holds both socket halves until [`Session::split`] divides it. The
//! [`ReadHalf`] parses and runs commands, then sends reply bytes down a queue. The
//! [`WriteHalf`] holds the socket's write end and drains that queue to the wire.
//!
//! That split is what makes pub/sub work. A `PUBLISH` from any session drops bytes into a
//! subscriber's queue, and the subscriber's `WriteHalf` delivers them while its `ReadHalf`
//! is still waiting for its own client.
//!
//! Reading from the socket and writing to it is up to whoever drives the session: it hands
//! what came in to [`SessionReader::read`], and does what [`ReadHalf::turn`] asks for: send
//! a reply, run a pub/sub command against the shared registry, read on, or end.

use std::sync::mpsc::{Receiver, RecvError, SendError, Sender};
use vstd::prelude::*;

use crate::byte_map::ByteMap;
use crate::bytes;
use crate::domain::channels;
use crate::domain::channels::{Channels, ChannelsError, Registry, Subscriber};
use crate::domain::command::cache::CacheCommand;
use crate::domain::command::channel;
use crate::domain::command::channel::{
    ChannelCommand, ChannelCommandOutcome, ChannelCommandOutcomeView, ChannelCommandView,
    SubUnsubInnerEntry, SubUnsubInnerEntryView,
};
use crate::domain::command::outcome::{CommandOutcome, CommandOutcomeView};
use crate::domain::command::{Command, CommandView};
use crate::domain::ports::{CacheService, ServiceError};
use crate::domain::queue;
use crate::domain::queue::{Line, Outlet};
use crate::domain::time;
use crate::domain::time::{Milliseconds, Reading};
use crate::inbound;
use crate::resp::command as parser;
use crate::resp::frame;
use crate::resp::frame::{Frame, FrameError};
use crate::resp::frame_laws;
use crate::resp::reply;
use crate::resp::reply::{Replies, Reply, ReplyView, SimpleInner};

verus! {

/// Why a session ended.
#[derive(Debug)]
pub enum SessionError {
    /// Its reading side failed.
    ReadHalfError(ReadHalfError),
    /// Its writing side failed.
    WriteHalfError(WriteHalfError),
}

/// Why the reading side of a session failed.
#[derive(Debug)]
pub enum ReadHalfError {
    /// A command failed in the service.
    Service(ServiceError),
    /// The writing side is gone.
    Send(SendError<Vec<u8>>),
}

/// Why the writing side of a session failed.
#[derive(Debug)]
pub enum WriteHalfError {
    /// Every sender is gone.
    Recv(RecvError),
}

/// The bytes that have come in and the source they come from.
#[derive(Debug)]
pub struct SessionReader<R> {
    /// Where bytes come from.
    pub inner: R,
    /// The bytes that no frame has been made of yet.
    pub buf: Vec<u8>,
}

/// What is left of the buffer once a frame has been asked of it: what stands behind the
/// frame, all of it while the frame is incomplete, nothing where it was refused.
pub open spec fn buffer_after(s: Seq<u8>) -> Seq<u8> {
    match frame::streamed(s) {
        Ok((_, rest)) => rest,
        Err(FrameError::Incomplete) => s,
        Err(_) => Seq::empty(),
    }
}

/// The buffer `s` once `bytes` have come in behind it.
pub open spec fn taken_in(s: Seq<u8>, bytes: Seq<u8>) -> Seq<u8> {
    s + bytes
}

/// `r` is the frame at the front of the buffer `s`, or why there is none.
pub open spec fn is_next_frame(s: Seq<u8>, r: Result<Frame, FrameError>) -> bool {
    match frame::streamed(s) {
        Ok((f, _)) => r is Ok && r->Ok_0@ == f,
        Err(e) => r is Err && r->Err_0 == e,
    }
}

/// `r` is what asking the buffer `s` for a frame comes to.
pub open spec fn is_frame_step(s: Seq<u8>, r: FrameStep) -> bool {
    match frame::streamed(s) {
        Ok((f, _)) => r is Ready && r->Ready_0@ == f,
        Err(FrameError::Incomplete) => r is NeedMore,
        Err(e) => r is Refused && r->Refused_0@ == reply::encode(refusal(e.spec_message())),
    }
}

/// `r` is what getting a frame out of the buffer `s` comes to; the outlet goes from `from` to
/// `to`.
pub open spec fn is_frame_got(
    s: Seq<u8>,
    from: Outlet,
    to: Outlet,
    r: Result<Option<Frame>, ReadHalfError>,
) -> bool {
    match frame::streamed(s) {
        Ok((f, _)) => (r matches Ok(Some(frame)) && frame@ == f) && to == from,
        Err(FrameError::Incomplete) => r matches Ok(None) && to == from,
        Err(e) => {
            let answer = reply::encode(refusal(e.spec_message()));
            match r {
                Ok(f) => f is None && from.took(answer, to),
                Err(ReadHalfError::Send(unsent)) => {
                    &&& unsent.0@ == answer
                    &&& to == from.declined(answer)
                },
                Err(_) => false,
            }
        },
    }
}

impl<R> SessionReader<R> {
    /// An empty buffer over a source.
    pub fn new(reader: R) -> (r: Self)
        ensures
            r.inner == reader,
            r.buf@ == Seq::<u8>::empty(),
    {
        let r = SessionReader { inner: reader, buf: Vec::new() };
        assert(r.buf@ =~= Seq::<u8>::empty());
        r
    }

    /// Take in bytes that came from the source, and say how many they were.
    pub fn read(&mut self, bytes: &[u8]) -> (r: usize)
        ensures
            r == bytes@.len(),
            final(self).buf@ == old(self).buf@ + bytes@,
            final(self).buf@ == taken_in(old(self).buf@, bytes@),
            final(self).inner == old(self).inner,
    {
        bytes::append(&mut self.buf, bytes);
        bytes.len()
    }

    /// Take the next frame out of the buffer. An incomplete frame stays there; after any
    /// other error the buffer is emptied.
    pub fn parse_frame(&mut self) -> (r: Result<Frame, FrameError>)
        ensures
            match frame::streamed(old(self).buf@) {
                Ok((f, _)) => r is Ok && r->Ok_0@ == f,
                Err(e) => r is Err && r->Err_0 == e,
            },
            is_next_frame(old(self).buf@, r),
            final(self).buf@ == buffer_after(old(self).buf@),
            final(self).inner == old(self).inner,
    {
        match Frame::parse_streamed(self.buf.as_slice()) {
            Ok((f, rest)) => {
                let left = bytes::copy(rest);
                self.buf = left;
                Ok(f)
            },
            Err(e) => {
                match e {
                    FrameError::Incomplete => {},
                    _ => {
                        self.buf.clear();
                        assert(self.buf@ =~= Seq::<u8>::empty());
                    },
                }
                Err(e)
            },
        }
    }
}

/// What a client is told of a request that was refused: `-ERR <reason>`, on one line.
pub open spec fn refusal(reason: Seq<u8>) -> ReplyView {
    ReplyView::SimpleError(reply::stripped(bytes::text("ERR "@) + reason))
}

/// The bytes that tell a client of a refused request.
pub fn refuse(reason: Vec<u8>) -> (r: Vec<u8>)
    ensures
        r@ == reply::encode(refusal(reason@)),
{
    let mut text = bytes::to_bytes("ERR ");
    bytes::append(&mut text, reason.as_slice());
    Reply::SimpleError(SimpleInner::sanitized(text)).to_bytes()
}

/// What comes of asking for the next frame.
pub enum FrameStep {
    /// A frame.
    Ready(Frame),
    /// More bytes are needed.
    NeedMore,
    /// The bytes were refused; this is the answer.
    Refused(Vec<u8>),
}

/// What comes of asking for the next command.
pub enum CommandStep {
    /// A command.
    Ready(Command),
    /// More bytes are needed.
    NeedMore,
    /// The request was refused; this is the answer.
    Refused(Vec<u8>),
}

/// What a [`CommandStep`] stands for.
pub enum CommandStepView {
    /// A command.
    Ready(CommandView),
    /// More bytes are needed.
    NeedMore,
    /// The request was refused; this is the answer.
    Refused(ReplyView),
}

/// What asking for the next command in the buffer `s` comes to, by the reading `clock`.
pub open spec fn next_step(
    s: Seq<u8>,
    clock: Reading,
) -> CommandStepView {
    match frame::streamed(s) {
        Err(FrameError::Incomplete) => CommandStepView::NeedMore,
        Err(e) => CommandStepView::Refused(refusal(e.spec_message())),
        Ok((f, _)) => match parser::command_of(f, clock) {
            Ok(c) => CommandStepView::Ready(c),
            Err(e) => CommandStepView::Refused(refusal(e.spec_message())),
        },
    }
}

/// `clock` is a reading of the clock, where the request at the front of the buffer `s`
/// cannot do without one.
pub open spec fn read_for(clock: Reading, s: Seq<u8>) -> bool {
    match frame::streamed(s) {
        Ok((f, _)) => parser::needs_clock(f) ==> time::is_reading(clock),
        Err(_) => true,
    }
}

/// `step` is what `view` says.
pub open spec fn is_step(step: CommandStep, view: CommandStepView) -> bool {
    match (step, view) {
        (CommandStep::Ready(c), CommandStepView::Ready(v)) => c@ == v,
        (CommandStep::NeedMore, CommandStepView::NeedMore) => true,
        (CommandStep::Refused(bytes), CommandStepView::Refused(v)) => bytes@ == reply::encode(v),
        _ => false,
    }
}

/// A connected client, holding both socket halves until [`split`](Session::split) runs.
#[derive(Debug)]
pub struct Session<R, W, CS: CacheService> {
    /// The session's id.
    pub id: u32,
    /// The bytes that have come in.
    pub reader: SessionReader<R>,
    /// Where bytes go.
    pub writer: W,
    /// What runs the commands.
    pub cache_service: CS,
}

/// The reading side of a split session. Holds the parser, the cache service, this
/// session's id and subscriptions, and the sending end of the reply queue. Replies are
/// queued here, never written to the socket.
pub struct ReadHalf<R, CS: CacheService> {
    /// The session's id.
    pub id: u32,
    /// The bytes that have come in.
    pub reader: SessionReader<R>,
    /// What runs the commands.
    pub cache_service: CS,
    /// The session's queue.
    pub sender: Sender<Vec<u8>>,
    /// The channels the session has joined.
    pub subscriptions: ByteMap<()>,
}

/// The writing side of a split session, and the only holder of the socket's write end. Its
/// driver waits on the reply queue and writes whatever arrives, whether that's a command
/// reply from its own [`ReadHalf`] or a pub/sub push fanned in from another session.
pub struct WriteHalf<W> {
    /// Where bytes go.
    pub writer: W,
    /// The session's queue.
    pub receiver: Receiver<Vec<u8>>,
}

/// Build a registry [`Subscriber`] from a read half. The cloned sender is what lets a
/// `PUBLISH` fan-out land directly in this session's outbound queue.
impl<R, CS: CacheService> From<&ReadHalf<R, CS>> for Subscriber {
    fn from(value: &ReadHalf<R, CS>) -> (r: Self)
        ensures
            r.id() == value.id,
            r.outlet() == queue::fresh_outlet(queue::line_in(value.sender)),
    {
        Subscriber::new(value.id, queue::another(&value.sender))
    }
}

impl<R, CS: CacheService> vstd::std_specs::convert::FromSpecImpl<&ReadHalf<R, CS>> for Subscriber {
    open spec fn obeys_from_spec() -> bool {
        false
    }

    open spec fn from_spec(value: &ReadHalf<R, CS>) -> Subscriber {
        arbitrary()
    }
}

/// Where a session stands with the registry: the channels it has joined, and who listens
/// where.
pub struct Membership {
    /// The channels the session has joined.
    pub joined: Set<Seq<u8>>,
    /// Who listens where.
    pub registry: Registry,
}

/// Session `id` joins one channel, through a fresh outlet to the queue with `line`.
pub open spec fn join(m: Membership, id: u32, line: Line, channel: Seq<u8>) -> Membership {
    Membership {
        joined: m.joined.insert(channel),
        registry: channels::joined(m.registry, channel, id, queue::fresh_outlet(line)),
    }
}

/// Session `id` leaves one channel.
pub open spec fn leave(m: Membership, id: u32, channel: Seq<u8>) -> Membership {
    Membership {
        joined: m.joined.remove(channel),
        registry: channels::departed(m.registry, channel, id),
    }
}

/// Session `id` joins `names`, one after the other.
pub open spec fn join_all(
    m: Membership,
    id: u32,
    line: Line,
    names: Seq<Seq<u8>>,
) -> Membership
    decreases names.len(),
{
    if names.len() == 0 {
        m
    } else {
        join(join_all(m, id, line, names.drop_last()), id, line, names.last())
    }
}

/// Session `id` leaves `names`, one after the other.
pub open spec fn leave_all(m: Membership, id: u32, names: Seq<Seq<u8>>) -> Membership
    decreases names.len(),
{
    if names.len() == 0 {
        m
    } else {
        leave(leave_all(m, id, names.drop_last()), id, names.last())
    }
}

/// Who listens where once session `id`, which had joined `listed`, has ended.
pub open spec fn ended(m: Membership, id: u32, listed: Seq<Seq<u8>>) -> Registry {
    leave_all(m, id, listed).registry
}

/// The entry for the `i`th of `names` joined: the channel, and how many the session has
/// joined by then.
pub open spec fn join_entry(
    m: Membership,
    id: u32,
    line: Line,
    names: Seq<Seq<u8>>,
    i: int,
) -> SubUnsubInnerEntryView {
    SubUnsubInnerEntryView {
        channel_id: Some(names[i]),
        subscription_count: join_all(m, id, line, names.take(i + 1)).joined.len(),
    }
}

/// The entry for the `i`th of `names` left: the channel, and how many the session is still
/// in by then.
pub open spec fn leave_entry(
    m: Membership,
    id: u32,
    names: Seq<Seq<u8>>,
    i: int,
) -> SubUnsubInnerEntryView {
    SubUnsubInnerEntryView {
        channel_id: Some(names[i]),
        subscription_count: leave_all(m, id, names.take(i + 1)).joined.len(),
    }
}

/// What joining `names` is answered with.
pub open spec fn join_entries(
    m: Membership,
    id: u32,
    line: Line,
    names: Seq<Seq<u8>>,
) -> Seq<SubUnsubInnerEntryView> {
    Seq::new(names.len(), |i: int| join_entry(m, id, line, names, i))
}

/// What leaving `names` is answered with; one entry without a channel where there was
/// nothing to leave.
pub open spec fn leave_entries(m: Membership, id: u32, names: Seq<Seq<u8>>) -> Seq<
    SubUnsubInnerEntryView,
> {
    if names.len() == 0 {
        seq![
            SubUnsubInnerEntryView { channel_id: None, subscription_count: m.joined.len() },
        ]
    } else {
        Seq::new(names.len(), |i: int| leave_entry(m, id, names, i))
    }
}

/// The push that a subscriber gets: `["message", channel, payload]`.
pub open spec fn push_message(channel: Seq<u8>, payload: Seq<u8>) -> ReplyView {
    ReplyView::Array(
        seq![
            ReplyView::BulkString(bytes::text("message"@)),
            ReplyView::BulkString(channel),
            ReplyView::BulkString(payload),
        ],
    )
}

/// The bytes of the push that a subscriber gets.
pub fn push_bytes(channel_id: &[u8], message: Vec<u8>) -> (r: Vec<u8>)
    ensures
        r@ == reply::encode(push_message(channel_id@, message@)),
{
    let first = Reply::BulkString(bytes::to_bytes("message"));
    let second = Reply::BulkString(bytes::copy(channel_id));
    let third = Reply::BulkString(message);
    let mut parts: Vec<Reply> = Vec::new();
    proof {
        let none = Seq::<Reply>::empty();
        reply::replies_view_push(none, first);
        reply::replies_view_push(none.push(first), second);
        reply::replies_view_push(none.push(first).push(second), third);
        assert(parts@ =~= none);
    }
    parts.push(first);
    parts.push(second);
    parts.push(third);
    let push = Reply::Array(parts);
    assert(push@->Array_0 =~= push_message(channel_id@, message@)->Array_0);
    push.to_bytes()
}

impl<R, CS: CacheService> ReadHalf<R, CS> {
    /// The channels the session has joined.
    pub open spec fn joined(self) -> Set<Seq<u8>> {
        self.subscriptions@.dom()
    }

    /// Where the session stands with a registry.
    pub open spec fn membership(self, registry: Registry) -> Membership {
        Membership { joined: self.joined(), registry }
    }

    /// Everything but the membership is as in `other`.
    pub open spec fn same_but_membership(self, other: Self) -> bool {
        &&& self.id == other.id
        &&& self.sender == other.sender
        &&& self.reader == other.reader
        &&& self.cache_service == other.cache_service
    }

    /// Where the session's replies go.
    pub open spec fn outlet(self) -> Outlet {
        queue::outlet(self.sender)
    }

    /// Everything but what went out is as in `other`.
    pub open spec fn only_sent(self, other: Self) -> bool {
        &&& self.id == other.id
        &&& self.reader == other.reader
        &&& self.cache_service == other.cache_service
        &&& self.subscriptions == other.subscriptions
    }

    /// Everything but the bytes that have come in is as in `other`.
    pub open spec fn only_read_from(self, other: Self) -> bool {
        &&& self.id == other.id
        &&& self.sender == other.sender
        &&& self.cache_service == other.cache_service
        &&& self.subscriptions == other.subscriptions
    }

    /// Queue reply bytes on the outbound queue for the [`WriteHalf`] to drain. Errors only
    /// once that receiver is gone, and hands the bytes back.
    pub fn send(&mut self, bytes: Vec<u8>) -> (r: Result<(), SendError<Vec<u8>>>)
        ensures
            final(self).only_sent(*old(self)),
            match r {
                Ok(_) => old(self).outlet().took(bytes@, final(self).outlet()),
                Err(e) => {
                    &&& e.0@ == bytes@
                    &&& final(self).outlet() == old(self).outlet().declined(bytes@)
                },
            },
    {
        queue::send(&mut self.sender, bytes)
    }

    /// Ask the buffer for the next frame. A frame that is refused empties the buffer and
    /// gets an answer.
    pub fn next_frame(&mut self) -> (r: FrameStep)
        ensures
            match frame::streamed(old(self).reader.buf@) {
                Ok((f, _)) => r is Ready && r->Ready_0@ == f,
                Err(FrameError::Incomplete) => r is NeedMore,
                Err(e) => r is Refused && r->Refused_0@ == reply::encode(
                    refusal(e.spec_message()),
                ),
            },
            is_frame_step(old(self).reader.buf@, r),
            final(self).reader.buf@ == buffer_after(old(self).reader.buf@),
            final(self).reader.inner == old(self).reader.inner,
            final(self).cache_service == old(self).cache_service,
            final(self).id == old(self).id,
            final(self).sender == old(self).sender,
            final(self).subscriptions == old(self).subscriptions,
    {
        match self.reader.parse_frame() {
            Ok(f) => FrameStep::Ready(f),
            Err(FrameError::Incomplete) => FrameStep::NeedMore,
            Err(e) => FrameStep::Refused(refuse(e.message())),
        }
    }

    /// Ask the buffer for the next command. A request that is refused gets an answer, and
    /// the session keeps going.
    pub fn next_command(&mut self) -> (r: CommandStep)
        ensures
            exists|clock: Reading|
                {
                    &&& read_for(clock, old(self).reader.buf@)
                    &&& is_step(r, #[trigger] next_step(old(self).reader.buf@, clock))
                },
            final(self).reader.buf@ == buffer_after(old(self).reader.buf@),
            final(self).reader.inner == old(self).reader.inner,
            final(self).cache_service == old(self).cache_service,
            final(self).id == old(self).id,
            final(self).sender == old(self).sender,
            final(self).subscriptions == old(self).subscriptions,
    {
        let ghost s = self.reader.buf@;
        let ghost idle: Reading = Ok(Milliseconds(0));
        match self.next_frame() {
            FrameStep::NeedMore => {
                assert(is_step(CommandStep::NeedMore, next_step(s, idle)));
                CommandStep::NeedMore
            },
            FrameStep::Refused(answer) => {
                assert(is_step(CommandStep::Refused(answer), next_step(s, idle)));
                CommandStep::Refused(answer)
            },
            FrameStep::Ready(f) => {
                let ghost fv = f@;
                let lifted = Command::try_from(f);
                let ghost clock = choose|clock: Reading|
                    {
                        &&& parser::needs_clock(fv) ==> time::is_reading(clock)
                        &&& parser::result_view(lifted) == #[trigger] parser::command_of(fv, clock)
                    };
                match lifted {
                    Ok(c) => {
                        assert(is_step(CommandStep::Ready(c), next_step(s, clock)));
                        CommandStep::Ready(c)
                    },
                    Err(e) => {
                        let answer = refuse(e.message());
                        assert(is_step(CommandStep::Refused(answer), next_step(s, clock)));
                        CommandStep::Refused(answer)
                    },
                }
            },
        }
    }

    /// Take the next complete [`Frame`] out of the buffer. `Ok(None)` asks for more bytes.
    /// A malformed frame is answered with `-ERR` and skipped; the session keeps going.
    pub fn get_frame(&mut self) -> (r: Result<Option<Frame>, ReadHalfError>)
        ensures
            match frame::streamed(old(self).reader.buf@) {
                Ok((f, _)) => {
                    &&& r matches Ok(Some(frame)) && frame@ == f
                    &&& final(self).sender == old(self).sender
                },
                Err(FrameError::Incomplete) => {
                    &&& r matches Ok(None)
                    &&& final(self).sender == old(self).sender
                },
                Err(e) => {
                    let answer = reply::encode(refusal(e.spec_message()));
                    match r {
                        Ok(f) => {
                            &&& f is None
                            &&& old(self).outlet().took(answer, final(self).outlet())
                        },
                        Err(ReadHalfError::Send(unsent)) => {
                            &&& unsent.0@ == answer
                            &&& final(self).outlet() == old(self).outlet().declined(answer)
                        },
                        Err(_) => false,
                    }
                },
            },
            is_frame_got(old(self).reader.buf@, old(self).outlet(), final(self).outlet(), r),
            final(self).reader.buf@ == buffer_after(old(self).reader.buf@),
            final(self).reader.inner == old(self).reader.inner,
            final(self).cache_service == old(self).cache_service,
            final(self).id == old(self).id,
            final(self).subscriptions == old(self).subscriptions,
    {
        match self.next_frame() {
            FrameStep::Ready(f) => Ok(Some(f)),
            FrameStep::NeedMore => Ok(None),
            FrameStep::Refused(answer) => match self.send(answer) {
                Ok(()) => Ok(None),
                Err(e) => Err(ReadHalfError::Send(e)),
            },
        }
    }

    /// Take the next command out of the buffer. An unparseable command is answered with
    /// `-ERR` and skipped. `Ok(None)` asks for more bytes.
    pub fn get_command(&mut self) -> (r: Result<Option<Command>, ReadHalfError>)
        ensures
            match r {
                Ok(Some(c)) => exists|s: Seq<u8>, clock: Reading|
                    {
                        &&& skipped_to(
                            old(self).reader.buf@,
                            old(self).outlet(),
                            s,
                            final(self).outlet(),
                        )
                        &&& read_for(clock, s)
                        &&& #[trigger] next_step(s, clock) == CommandStepView::Ready(c@)
                        &&& final(self).reader.buf@ == buffer_after(s)
                    },
                Ok(None) => {
                    &&& skipped_to(
                        old(self).reader.buf@,
                        old(self).outlet(),
                        final(self).reader.buf@,
                        final(self).outlet(),
                    )
                    &&& frame::streamed(final(self).reader.buf@) matches Err(
                        FrameError::Incomplete,
                    )
                },
                Err(ReadHalfError::Send(unsent)) => exists|
                    s: Seq<u8>,
                    clock: Reading,
                    outlet: Outlet,
                |
                    {
                        &&& #[trigger] skipped_to(
                            old(self).reader.buf@,
                            old(self).outlet(),
                            s,
                            outlet,
                        )
                        &&& read_for(clock, s)
                        &&& #[trigger] next_step(s, clock) matches CommandStepView::Refused(answer)
                        &&& unsent.0@ == reply::encode(answer)
                        &&& final(self).outlet() == outlet.declined(reply::encode(answer))
                        &&& final(self).reader.buf@ == buffer_after(s)
                    },
                Err(_) => false,
            },
            is_next_command(
                old(self).reader.buf@,
                old(self).outlet(),
                final(self).reader.buf@,
                final(self).outlet(),
                r,
            ),
            final(self).reader.inner == old(self).reader.inner,
            final(self).cache_service == old(self).cache_service,
            final(self).id == old(self).id,
            final(self).subscriptions == old(self).subscriptions,
    {
        let ghost start = self.reader.buf@;
        let ghost from = self.outlet();
        assert(skipped_to(start, from, start, from));
        loop
            invariant
                start == old(self).reader.buf@,
                from == old(self).outlet(),
                skipped_to(start, from, self.reader.buf@, self.outlet()),
                self.reader.inner == old(self).reader.inner,
                self.cache_service == old(self).cache_service,
                self.id == old(self).id,
                self.subscriptions == old(self).subscriptions,
            decreases self.reader.buf@.len(),
        {
            let ghost s = self.reader.buf@;
            let ghost at = self.outlet();
            proof {
                frame::parse_shrinks(s);
                frame_laws::no_bytes_are_incomplete();
            }
            let step = self.next_command();
            let ghost clock = choose|clock: Reading|
                read_for(clock, s) && is_step(step, #[trigger] next_step(s, clock));
            match step {
                CommandStep::Ready(c) => {
                    assert(next_step(s, clock) == CommandStepView::Ready(c@));
                    return Ok(Some(c));
                },
                CommandStep::NeedMore => {
                    return Ok(None);
                },
                CommandStep::Refused(answer) => {
                    assert(next_step(s, clock) is Refused);
                    match self.send(answer) {
                        Ok(()) => {
                            proof {
                                assert(refused_at(s, clock, at, self.outlet()));
                                skipped_one_more(start, from, s, at, clock, self.outlet());
                            }
                        },
                        Err(e) => {
                            assert(skipped_to(start, from, s, at));
                            return Err(ReadHalfError::Send(e));
                        },
                    }
                },
            }
        }
    }

    /// Join one channel, in the registry first and then here.
    fn join_one(&mut self, global_channels: &mut Channels, name: Vec<u8>) -> (r: Result<
        SubUnsubInnerEntry,
        ChannelsError,
    >)
        ensures
            r is Ok,
            final(self).same_but_membership(*old(self)),
            final(self).membership(final(global_channels)@) == join(
                old(self).membership(old(global_channels)@),
                old(self).id,
                queue::line_in(old(self).sender),
                name@,
            ),
            r->Ok_0@ == (SubUnsubInnerEntryView {
                channel_id: Some(name@),
                subscription_count: final(self).joined().len(),
            }),
    {
        let subscriber = Subscriber::from(&*self);
        match global_channels.subscribe(bytes::copy(name.as_slice()), subscriber) {
            Ok(()) => {},
            Err(e) => {
                return Err(e);
            },
        }
        self.subscriptions.insert(bytes::copy(name.as_slice()), ());
        let count: usize = self.subscriptions.len();
        assert(self.joined() =~= old(self).joined().insert(name@));
        Ok(SubUnsubInnerEntry::new(name, count))
    }

    /// Leave one channel, in the registry first and then here.
    fn leave_one(&mut self, global_channels: &mut Channels, name: Vec<u8>) -> (r: Result<
        SubUnsubInnerEntry,
        ChannelsError,
    >)
        ensures
            r is Ok,
            final(self).same_but_membership(*old(self)),
            final(self).membership(final(global_channels)@) == leave(
                old(self).membership(old(global_channels)@),
                old(self).id,
                name@,
            ),
            r->Ok_0@ == (SubUnsubInnerEntryView {
                channel_id: Some(name@),
                subscription_count: final(self).joined().len(),
            }),
    {
        match global_channels.unsubscribe(name.as_slice(), self.id) {
            Ok(()) => {},
            Err(e) => {
                return Err(e);
            },
        }
        self.subscriptions.remove(name.as_slice());
        let count: usize = self.subscriptions.len();
        assert(self.joined() =~= old(self).joined().remove(name@));
        Ok(SubUnsubInnerEntry::new(name, count))
    }

    /// The channels the session has joined, in byte order.
    fn joined_names(&self) -> (r: Vec<Vec<u8>>)
        ensures
            channel::names(r@) == self.subscriptions.keys(),
    {
        let n: usize = self.subscriptions.len();
        let mut out: Vec<Vec<u8>> = Vec::new();
        let mut i: usize = 0;
        while i < n
            invariant
                i <= n == self.subscriptions.keys().len(),
                channel::names(out@) == self.subscriptions.keys().take(i as int),
            decreases n - i,
        {
            let (name, _) = self.subscriptions.entry_at(i);
            let copied = bytes::copy(name.as_slice());
            let ghost before = out@;
            out.push(copied);
            proof {
                let keys = self.subscriptions.keys();
                assert(channel::names(out@) =~= channel::names(before).push(copied@));
                assert(keys.take(i + 1) =~= keys.take(i as int).push(keys[i as int]));
            }
            i = i + 1;
        }
        assert(self.subscriptions.keys().take(i as int) =~= self.subscriptions.keys());
        out
    }

    /// Handle a pub/sub command against the shared registry and this session's
    /// subscriptions, returning the issuer's outcome.
    ///
    /// The registry is changed first; `subscriptions` follows, and the cumulative count
    /// comes off that set. No-arg UNSUBSCRIBE means "every channel this session is in".
    /// PUBLISH serializes its `["message", channel, payload]` push here and hands the
    /// registry raw bytes to fan out.
    pub fn execute_channel_command(
        &mut self,
        global_channels: &mut Channels,
        command: ChannelCommand,
    ) -> (r: Result<ChannelCommandOutcome, ChannelsError>)
        ensures
            r is Ok,
            final(self).same_but_membership(*old(self)),
            channel_command_done(
                old(self).membership(old(global_channels)@),
                old(self).id,
                queue::line_in(old(self).sender),
                old(self).subscriptions.keys(),
                command@,
                final(self).membership(final(global_channels)@),
                r->Ok_0@,
            ),
    {
        let ghost m = self.membership(global_channels@);
        let ghost (id, line) = (self.id, queue::line_in(self.sender));
        match command {
            ChannelCommand::Subscribe { channel_ids } => {
                let ghost names = channel::names(channel_ids@);
                let mut inner: Vec<SubUnsubInnerEntry> = Vec::new();
                let mut i: usize = 0;
                assert(names.take(0) =~= Seq::<Seq<u8>>::empty());
                while i < channel_ids.len()
                    invariant
                        i <= channel_ids@.len(),
                        names == channel::names(channel_ids@),
                        self.same_but_membership(*old(self)),
                        id == old(self).id,
                        line == queue::line_in(old(self).sender),
                        self.membership(global_channels@) == join_all(
                            m,
                            id,
                            line,
                            names.take(i as int),
                        ),
                        inner@.len() == i,
                        forall|j: int|
                            0 <= j < i ==> (#[trigger] inner@[j])@ == join_entry(
                                m,
                                id,
                                line,
                                names,
                                j,
                            ),
                    decreases channel_ids@.len() - i,
                {
                    proof {
                        assert(names.take(i + 1).drop_last() =~= names.take(i as int));
                        assert(names.take(i + 1).last() == names[i as int]);
                    }
                    match self.join_one(global_channels, bytes::copy(channel_ids[i].as_slice())) {
                        Ok(entry) => {
                            inner.push(entry);
                        },
                        Err(e) => {
                            return Err(e);
                        },
                    }
                    i = i + 1;
                }
                proof {
                    assert(names.take(i as int) =~= names);
                    assert(channel::entry_views(inner@) =~= join_entries(m, id, line, names));
                }
                Ok(ChannelCommandOutcome::Subscribe { inner })
            },
            ChannelCommand::Unsubscribe { channel_ids } => {
                let targets: Vec<Vec<u8>> = if channel_ids.len() == 0 {
                    self.joined_names()
                } else {
                    channel_ids
                };
                let ghost names = channel::names(targets@);
                let mut inner: Vec<SubUnsubInnerEntry> = Vec::new();
                if targets.len() == 0 {
                    let count: usize = self.subscriptions.len();
                    inner.push(SubUnsubInnerEntry::new_null(count));
                    proof {
                        assert(channel::entry_views(inner@) =~= leave_entries(m, id, names));
                    }
                    return Ok(ChannelCommandOutcome::Unsubscribe { inner });
                }
                let mut i: usize = 0;
                assert(names.take(0) =~= Seq::<Seq<u8>>::empty());
                while i < targets.len()
                    invariant
                        i <= targets@.len(),
                        names == channel::names(targets@),
                        self.same_but_membership(*old(self)),
                        id == old(self).id,
                        self.membership(global_channels@) == leave_all(
                            m,
                            id,
                            names.take(i as int),
                        ),
                        inner@.len() == i,
                        forall|j: int|
                            0 <= j < i ==> (#[trigger] inner@[j])@ == leave_entry(m, id, names, j),
                    decreases targets@.len() - i,
                {
                    proof {
                        assert(names.take(i + 1).drop_last() =~= names.take(i as int));
                        assert(names.take(i + 1).last() == names[i as int]);
                    }
                    match self.leave_one(global_channels, bytes::copy(targets[i].as_slice())) {
                        Ok(entry) => {
                            inner.push(entry);
                        },
                        Err(e) => {
                            return Err(e);
                        },
                    }
                    i = i + 1;
                }
                proof {
                    assert(names.take(i as int) =~= names);
                    assert(channel::entry_views(inner@) =~= leave_entries(m, id, names));
                }
                Ok(ChannelCommandOutcome::Unsubscribe { inner })
            },
            ChannelCommand::Publish { channel_id, message } => {
                let ghost payload = message@;
                let push = push_bytes(channel_id.as_slice(), message);
                match global_channels.publish(push, channel_id.as_slice()) {
                    Ok(sent_count) => {
                        let outcome = ChannelCommandOutcome::Publish { sent_count };
                        proof {
                            let name = channel_id@;
                            let after = self.membership(global_channels@);
                            assert(command@->channel_id == name);
                            assert(command@->message == payload);
                            assert(channels::fanned_out(
                                m.registry,
                                name,
                                reply::encode(push_message(name, payload)),
                                after.registry,
                                sent_count,
                            ));
                            assert(channel_command_done(
                                m,
                                id,
                                line,
                                self.subscriptions.keys(),
                                command@,
                                after,
                                outcome@,
                            ));
                        }
                        Ok(outcome)
                    },
                    Err(e) => Err(e),
                }
            },
        }
    }

    /// Remove this session from every channel it joined. Runs once after the session ends
    /// so no dead senders linger in the registry. Results come back per channel.
    pub fn unsubscribe_from_all(&self, global_channels: &mut Channels) -> (r: Vec<
        Result<(), ChannelsError>,
    >)
        ensures
            r@.len() == self.subscriptions.keys().len(),
            forall|i: int| 0 <= i < r@.len() ==> (#[trigger] r@[i]) is Ok,
            final(global_channels)@ == leave_all(
                self.membership(old(global_channels)@),
                self.id,
                self.subscriptions.keys(),
            ).registry,
            final(global_channels)@ == ended(
                self.membership(old(global_channels)@),
                self.id,
                self.subscriptions.keys(),
            ),
    {
        let targets = self.joined_names();
        let ghost names = self.subscriptions.keys();
        let ghost m = self.membership(global_channels@);
        let mut results: Vec<Result<(), ChannelsError>> = Vec::new();
        let mut i: usize = 0;
        assert(names.take(0) =~= Seq::<Seq<u8>>::empty());
        while i < targets.len()
            invariant
                i <= targets@.len(),
                names == channel::names(targets@),
                results@.len() == i,
                forall|j: int| 0 <= j < i ==> (#[trigger] results@[j]) is Ok,
                global_channels@ == leave_all(m, self.id, names.take(i as int)).registry,
            decreases targets@.len() - i,
        {
            proof {
                assert(names.take(i + 1).drop_last() =~= names.take(i as int));
                assert(names.take(i + 1).last() == names[i as int]);
            }
            results.push(global_channels.unsubscribe(targets[i].as_slice(), self.id));
            i = i + 1;
        }
        assert(names.take(i as int) =~= names);
        results
    }

    /// Run a cache command and return the bytes that answer it.
    fn answer_cache(&mut self, command: CacheCommand) -> (r: Result<Vec<u8>, ReadHalfError>)
        ensures
            final(self).id == old(self).id,
            final(self).sender == old(self).sender,
            final(self).reader == old(self).reader,
            answered_alone(*old(self), CommandView::Cache(command@), *final(self), r),
    {
        match self.cache_service.execute_logged(command) {
            Ok(outcome) => {
                let ghost view = outcome;
                let bytes = Reply::from(outcome).to_bytes();
                assert(CS::ran_logged(
                    &old(self).cache_service,
                    command@,
                    &self.cache_service,
                    Ok(view),
                ));
                Ok(bytes)
            },
            Err(e) => Err(ReadHalfError::Service(e)),
        }
    }

    /// Run a command and return the bytes that answer it.
    pub fn answer(&mut self, global_channels: &mut Channels, command: Command) -> (r: Result<
        Vec<u8>,
        ReadHalfError,
    >)
        ensures
            final(self).id == old(self).id,
            final(self).sender == old(self).sender,
            final(self).reader == old(self).reader,
            answered(
                *old(self),
                old(global_channels)@,
                command@,
                *final(self),
                final(global_channels)@,
                r,
            ),
    {
        match command {
            Command::Cache(cc) => self.answer_cache(cc),
            Command::Channel(c) => match self.execute_channel_command(global_channels, c) {
                Ok(outcome) => Ok(Replies::from(outcome).to_bytes()),
                Err(e) => Err(ReadHalfError::Service(ServiceError::from(e))),
            },
            Command::Ping { message } => Ok(pong_bytes(message)),
        }
    }

    /// One turn of the session: take the next request out of the buffer and answer it. A
    /// request that is refused is answered too, and the session goes on. A pub/sub command
    /// is handed out, to be answered by [`ReadHalf::answer`] with the shared registry at
    /// hand; no other command has a use for it.
    pub fn turn(&mut self, shutdown: bool) -> (r: Turn)
        ensures
            final(self).id == old(self).id,
            final(self).sender == old(self).sender,
            final(self).reader.inner == old(self).reader.inner,
            turned(*old(self), shutdown, *final(self), r),
            shutdown ==> r is Stop && *final(self) == *old(self),
            !shutdown ==> final(self).reader.buf@ == buffer_after(old(self).reader.buf@),
            !shutdown ==> exists|clock: Reading|
                read_for(clock, old(self).reader.buf@) && match #[trigger] next_step(
                    old(self).reader.buf@,
                    clock,
                ) {
                    CommandStepView::Ready(CommandView::Channel(c)) => {
                        &&& r matches Turn::Channel(command) && command@ == c
                        &&& final(self).only_read_from(*old(self))
                    },
                    CommandStepView::Ready(c) => exists|
                        lifted: ReadHalf<R, CS>,
                        answer: Result<Vec<u8>, ReadHalfError>,
                    |
                        {
                            &&& lifted.only_read_from(*old(self))
                            &&& lifted.reader == final(self).reader
                            &&& #[trigger] answered_alone(lifted, c, *final(self), answer)
                            &&& match answer {
                                Ok(bytes) => r matches Turn::Reply(sent) && sent@ == bytes@,
                                Err(e) => r == Turn::Fail(e),
                            }
                        },
                    CommandStepView::NeedMore => {
                        &&& r is Read
                        &&& final(self).only_read_from(*old(self))
                    },
                    CommandStepView::Refused(answer) => {
                        &&& r matches Turn::Reply(sent) && sent@ == reply::encode(answer)
                        &&& final(self).only_read_from(*old(self))
                    },
                },
    {
        if shutdown {
            return Turn::Stop;
        }
        let ghost s = self.reader.buf@;
        let step = self.next_command();
        let ghost clock = choose|clock: Reading|
            read_for(clock, s) && is_step(step, #[trigger] next_step(s, clock));
        let ghost lifted = *self;
        match step {
            CommandStep::NeedMore => {
                assert(next_step(s, clock) is NeedMore);
                Turn::Read
            },
            CommandStep::Refused(answer) => {
                assert(next_step(s, clock) is Refused);
                Turn::Reply(answer)
            },
            CommandStep::Ready(Command::Channel(c)) => {
                assert(next_step(s, clock) == CommandStepView::Ready(CommandView::Channel(c@)));
                Turn::Channel(c)
            },
            CommandStep::Ready(Command::Cache(c)) => {
                assert(next_step(s, clock) == CommandStepView::Ready(CommandView::Cache(c@)));
                let answer = self.answer_cache(c);
                assert(answered_alone(lifted, CommandView::Cache(c@), *self, answer));
                match answer {
                    Ok(bytes) => Turn::Reply(bytes),
                    Err(e) => Turn::Fail(e),
                }
            },
            CommandStep::Ready(Command::Ping { message }) => {
                let ghost view = Command::Ping { message }@;
                assert(next_step(s, clock) == CommandStepView::Ready(view));
                let bytes = pong_bytes(message);
                assert(answered_alone(lifted, view, *self, Ok(bytes)));
                Turn::Reply(bytes)
            },
        }
    }
}

/// The bytes that answer a `PING`.
fn pong_bytes(message: Option<Vec<u8>>) -> (r: Vec<u8>)
    ensures
        r@ == reply::encode(inbound::reply_to(CommandOutcome::Pong(message)@)),
{
    Reply::from(CommandOutcome::Pong(message)).to_bytes()
}

/// What a session does next.
pub enum Turn {
    /// Send these bytes to the client.
    Reply(Vec<u8>),
    /// Run this pub/sub command against the registry and send what it is answered with.
    Channel(ChannelCommand),
    /// Read more bytes from the client; end the session where there are none.
    Read,
    /// End the session: the server is shutting down.
    Stop,
    /// End the session: a command failed.
    Fail(ReadHalfError),
}

/// What one turn of a session comes to: `before` becomes `after`, and `r` is what the session
/// does next.
pub open spec fn turned<R, CS: CacheService>(
    before: ReadHalf<R, CS>,
    shutdown: bool,
    after: ReadHalf<R, CS>,
    r: Turn,
) -> bool {
    if shutdown {
        r is Stop && after == before
    } else {
        &&& after.reader.buf@ == buffer_after(before.reader.buf@)
        &&& exists|clock: Reading|
            read_for(clock, before.reader.buf@) && match #[trigger] next_step(
                before.reader.buf@,
                clock,
            ) {
                CommandStepView::Ready(CommandView::Channel(c)) => {
                    &&& r matches Turn::Channel(command) && command@ == c
                    &&& after.only_read_from(before)
                },
                CommandStepView::Ready(c) => exists|
                    lifted: ReadHalf<R, CS>,
                    answer: Result<Vec<u8>, ReadHalfError>,
                |
                    {
                        &&& lifted.only_read_from(before)
                        &&& lifted.reader == after.reader
                        &&& #[trigger] answered_alone(lifted, c, after, answer)
                        &&& match answer {
                            Ok(bytes) => r matches Turn::Reply(sent) && sent@ == bytes@,
                            Err(e) => r == Turn::Fail(e),
                        }
                    },
                CommandStepView::NeedMore => r is Read && after.only_read_from(before),
                CommandStepView::Refused(answer) => {
                    &&& r matches Turn::Reply(sent) && sent@ == reply::encode(answer)
                    &&& after.only_read_from(before)
                },
            }
    }
}

/// What comes of answering `command`, where it is no pub/sub command: `before` becomes
/// `after`, and `r` is what the client is sent, or why nothing is.
pub open spec fn answered_alone<R, CS: CacheService>(
    before: ReadHalf<R, CS>,
    command: CommandView,
    after: ReadHalf<R, CS>,
    r: Result<Vec<u8>, ReadHalfError>,
) -> bool {
    match command {
        CommandView::Cache(c) => {
            &&& after.subscriptions == before.subscriptions
            &&& match r {
                Ok(bytes) => exists|outcome: CommandOutcome|
                    {
                        &&& #[trigger] CS::ran_logged(
                            &before.cache_service,
                            c,
                            &after.cache_service,
                            Ok(outcome),
                        )
                        &&& bytes@ == reply::encode(inbound::reply_to(outcome@))
                    },
                Err(ReadHalfError::Service(e)) => CS::ran_logged(
                    &before.cache_service,
                    c,
                    &after.cache_service,
                    Err(e),
                ),
                Err(_) => false,
            }
        },
        CommandView::Channel(_) => false,
        CommandView::Ping { message } => {
            &&& r is Ok
            &&& after == before
            &&& r->Ok_0@ == reply::encode(inbound::reply_to(CommandOutcomeView::Pong(message)))
        },
    }
}

/// What comes of answering `command`: `before` and `registry` become `after` and
/// `registry_after`, and `r` is what the client is sent, or why nothing is.
pub open spec fn answered<R, CS: CacheService>(
    before: ReadHalf<R, CS>,
    registry: Registry,
    command: CommandView,
    after: ReadHalf<R, CS>,
    registry_after: Registry,
    r: Result<Vec<u8>, ReadHalfError>,
) -> bool {
    match command {
        CommandView::Channel(c) => {
            &&& r is Ok
            &&& after.cache_service == before.cache_service
            &&& exists|outcome: ChannelCommandOutcomeView|
                {
                    &&& #[trigger] channel_command_done(
                        before.membership(registry),
                        before.id,
                        queue::line_in(before.sender),
                        before.subscriptions.keys(),
                        c,
                        after.membership(registry_after),
                        outcome,
                    )
                    &&& r->Ok_0@ == reply::encode_all(inbound::replies_to(outcome))
                }
        },
        _ => {
            &&& registry_after == registry
            &&& answered_alone(before, command, after, r)
        },
    }
}

/// What a pub/sub command of session `id` does: `before` becomes `after`, and `outcome`
/// comes of it. `line` is what the session's queue carries, `listed` what the session has
/// joined, in byte order.
///
/// Of a publish it is said that the push is handed once to everyone on the channel, and that
/// whoever was not reached is dropped from it; who can be reached is up to the receivers.
pub open spec fn channel_command_done(
    before: Membership,
    id: u32,
    line: Line,
    listed: Seq<Seq<u8>>,
    c: ChannelCommandView,
    after: Membership,
    outcome: ChannelCommandOutcomeView,
) -> bool {
    match c {
        ChannelCommandView::Subscribe { channel_ids } => {
            &&& after == join_all(before, id, line, channel_ids)
            &&& outcome == (ChannelCommandOutcomeView::Subscribe {
                inner: join_entries(before, id, line, channel_ids),
            })
        },
        ChannelCommandView::Unsubscribe { channel_ids } => {
            let targets = if channel_ids.len() == 0 {
                listed
            } else {
                channel_ids
            };
            &&& after == leave_all(before, id, targets)
            &&& outcome == (ChannelCommandOutcomeView::Unsubscribe {
                inner: leave_entries(before, id, targets),
            })
        },
        ChannelCommandView::Publish { channel_id, message } => {
            &&& after.joined == before.joined
            &&& exists|count: u32|
                {
                    &&& #[trigger] channels::fanned_out(
                        before.registry,
                        channel_id,
                        reply::encode(push_message(channel_id, message)),
                        after.registry,
                        count,
                    )
                    &&& outcome == (ChannelCommandOutcomeView::Publish {
                        sent_count: count as nat,
                    })
                }
        },
    }
}

impl<W> WriteHalf<W> {
    /// Wait until the next buffer of reply bytes arrives. `Err` means every sender is gone
    /// and the session with them, which ends the writing side.
    pub fn recv(&mut self) -> (r: Result<Vec<u8>, RecvError>)
        ensures
            final(self).writer == old(self).writer,
            match r {
                Ok(bytes) => queue::inlet(old(self).receiver).gave(
                    bytes@,
                    queue::inlet(final(self).receiver),
                ),
                Err(_) => {
                    &&& queue::inlet(final(self).receiver) == queue::inlet(old(self).receiver)
                    &&& queue::inlet(final(self).receiver).ended()
                },
            },
    {
        queue::recv(&mut self.receiver)
    }
}

impl<R, W, CS: CacheService> Session<R, W, CS> {
    /// Build a session over a connected stream's two halves and the cache service.
    pub fn new(id: u32, reader: R, writer: W, cache_service: CS) -> (r: Self)
        ensures
            r.id == id,
            r.reader.inner == reader,
            r.reader.buf@ == Seq::<u8>::empty(),
            r.writer == writer,
            r.cache_service == cache_service,
    {
        Session { id, reader: SessionReader::new(reader), writer, cache_service }
    }

    /// Consume the session, create the reply queue, and hand the fields to the two halves.
    /// The [`ReadHalf`] keeps the sender, the [`WriteHalf`] the receiver of the same queue,
    /// and nothing has gone through either. It starts with no subscriptions.
    pub fn split(self) -> (r: (ReadHalf<R, CS>, WriteHalf<W>))
        ensures
            r.0.id == self.id,
            r.0.reader == self.reader,
            r.0.cache_service == self.cache_service,
            r.0.joined() == Set::<Seq<u8>>::empty(),
            r.0.subscriptions.keys() == Seq::<Seq<u8>>::empty(),
            r.1.writer == self.writer,
            r.0.outlet() == queue::fresh_outlet(queue::line_in(r.0.sender)),
            queue::inlet(r.1.receiver) == queue::fresh_inlet(queue::line_in(r.0.sender)),
    {
        let (sender, receiver) = queue::channel();
        let rh = ReadHalf {
            id: self.id,
            reader: self.reader,
            cache_service: self.cache_service,
            sender,
            subscriptions: ByteMap::new(),
        };
        assert(rh.joined() =~= Set::<Seq<u8>>::empty());
        (rh, WriteHalf { writer: self.writer, receiver })
    }
}

/// `r` is the first command in the buffer `s` that is not refused, and the refused ones before
/// it were answered: the buffer is then `t`, and the outlet went from `from` to `to`.
pub open spec fn is_next_command(
    s: Seq<u8>,
    from: Outlet,
    t: Seq<u8>,
    to: Outlet,
    r: Result<Option<Command>, ReadHalfError>,
) -> bool {
    match r {
        Ok(Some(c)) => exists|u: Seq<u8>, clock: Reading|
            {
                &&& skipped_to(s, from, u, to)
                &&& read_for(clock, u)
                &&& #[trigger] next_step(u, clock) == CommandStepView::Ready(c@)
                &&& t == buffer_after(u)
            },
        Ok(None) => {
            &&& skipped_to(s, from, t, to)
            &&& frame::streamed(t) matches Err(FrameError::Incomplete)
        },
        Err(ReadHalfError::Send(unsent)) => exists|u: Seq<u8>, clock: Reading, outlet: Outlet|
            {
                &&& #[trigger] skipped_to(s, from, u, outlet)
                &&& read_for(clock, u)
                &&& #[trigger] next_step(u, clock) matches CommandStepView::Refused(answer)
                &&& unsent.0@ == reply::encode(answer)
                &&& to == outlet.declined(reply::encode(answer))
                &&& t == buffer_after(u)
            },
        Err(_) => false,
    }
}

/// The request at the front of the buffer `s` is refused by the reading `clock`, and the
/// answer was taken by the outlet `from`, which is then `to`.
pub open spec fn refused_at(s: Seq<u8>, clock: Reading, from: Outlet, to: Outlet) -> bool {
    &&& read_for(clock, s)
    &&& next_step(s, clock) matches CommandStepView::Refused(answer)
    &&& from.took(reply::encode(answer), to)
}

/// Skipping refused requests at the front of the buffer `s`, each answered once, leads to
/// the buffer `t`, and from the outlet `from` to the outlet `to`.
pub open spec fn skipped_to(s: Seq<u8>, from: Outlet, t: Seq<u8>, to: Outlet) -> bool
    decreases s.len(),
{
    ||| s == t && from == to
    ||| {
        &&& buffer_after(s).len() < s.len()
        &&& exists|clock: Reading, mid: Outlet| #[trigger]
            refused_at(s, clock, from, mid) && skipped_to(buffer_after(s), mid, t, to)
    }
}

proof fn skipped_one_more(
    start: Seq<u8>,
    from: Outlet,
    s: Seq<u8>,
    at: Outlet,
    clock: Reading,
    to: Outlet,
)
    requires
        skipped_to(start, from, s, at),
        refused_at(s, clock, at, to),
    ensures
        skipped_to(start, from, buffer_after(s), to),
        buffer_after(s).len() < s.len(),
    decreases start.len(),
{
    frame::parse_shrinks(s);
    frame_laws::no_bytes_are_incomplete();
    if s.len() == 0 {
        assert(s =~= Seq::<u8>::empty());
    }
    if start == s && from == at {
        assert(skipped_to(buffer_after(s), to, buffer_after(s), to));
    } else {
        let (first, mid) = choose|first: Reading, mid: Outlet| #[trigger]
            refused_at(start, first, from, mid) && skipped_to(buffer_after(start), mid, s, at);
        skipped_one_more(buffer_after(start), mid, s, at, clock, to);
    }
}

} // verus!
