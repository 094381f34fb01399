//! Lifts a parsed RESP [`Frame`] into a domain [`Command`].
//!
//! A valid command on the wire is always an array of bulk strings: the first is the verb
//! (case-insensitive), the rest are arguments. Anything else is a
//! [`CommandFromFrameError::UnexpectedFrame`]: a bare bulk string, an array whose first
//! element is an array, an inner array where a key belongs. Verb-level errors (wrong arity,
//! non-numeric TTL, unknown verb) surface as [`CommandError`].

use std::time::SystemTimeError;
use vstd::prelude::*;

use crate::bytes;
use crate::decimal;
use crate::decimal::{IntErrorKind, ParseIntError};
use crate::domain::command;
use crate::domain::command::cache::read::ReadCommandView;
use crate::domain::command::cache::write::WriteCommandView;
use crate::domain::command::channel;
use crate::domain::command::channel::ChannelCommandView;
use crate::domain::command::{Command, CommandError, CommandView};
use crate::domain::time;
use crate::domain::time::{Milliseconds, Reading, Seconds};
use crate::resp::frame;
use crate::resp::frame::{Frame, FrameView};
use crate::utf8;
use crate::utf8::Utf8Error;

verus! {

/// Errors produced while turning a [`Frame`] into a [`Command`].
#[derive(Debug)]
pub enum CommandFromFrameError {
    /// Verb-level semantic error from the domain layer (wrong arity, unknown verb, numeric
    /// arg failed to parse, etc.).
    CommandError(CommandError),
    /// The outer frame wasn't an array of bulk strings, or a nested frame appeared where
    /// the protocol requires a bulk string (e.g. an array passed as a key).
    UnexpectedFrame,
    /// A relative deadline was asked for, and the clock stands before the epoch.
    SystemTime(SystemTimeError),
}

impl CommandFromFrameError {
    /// The text that describes the fault.
    pub open spec fn spec_message(self) -> Seq<u8> {
        match self {
            CommandFromFrameError::CommandError(e) => e.spec_message(),
            CommandFromFrameError::UnexpectedFrame => bytes::text(
                "unexpected value; command is made of an array of bulk strings"@,
            ),
            CommandFromFrameError::SystemTime(_) => time::clock_error_message(),
        }
    }

    /// The text that describes the fault.
    pub fn message(&self) -> (r: Vec<u8>)
        ensures
            r@ == self.spec_message(),
    {
        match self {
            CommandFromFrameError::CommandError(e) => e.message(),
            CommandFromFrameError::UnexpectedFrame => bytes::to_bytes(
                "unexpected value; command is made of an array of bulk strings",
            ),
            CommandFromFrameError::SystemTime(_) => time::clock_message(),
        }
    }
}

/// A verb-level error.
pub open spec fn fault<T>(e: CommandError) -> Result<T, CommandFromFrameError> {
    Err(CommandFromFrameError::CommandError(e))
}

/// Part `i` of a command, which must be there and be a bulk string.
pub open spec fn part(parts: Seq<FrameView>, i: int) -> Result<Seq<u8>, CommandFromFrameError> {
    if i >= parts.len() {
        fault(CommandError::NotEnoughParts)
    } else {
        match parts[i] {
            FrameView::BulkString(bytes) => Ok(bytes),
            FrameView::Array(_) => Err(CommandFromFrameError::UnexpectedFrame),
        }
    }
}

/// The number that an argument spells. One past `u64::MAX` is refused, unless it is to be
/// `clamped` there: as a date in seconds it names a deadline that no clock reaches, and is
/// taken for one.
pub open spec fn amount(s: Seq<u8>, clamped: bool) -> Result<u64, CommandFromFrameError> {
    match utf8::first_fault(s) {
        Some((at, error_len)) => fault(
            CommandError::Utf8(Utf8Error { valid_up_to: at as usize, error_len }),
        ),
        None => match decimal::parse(s, u64::MAX as nat) {
            Ok(n) => Ok(n as u64),
            Err(kind) => if clamped && kind == IntErrorKind::PosOverflow && decimal::is_number(s) {
                Ok(u64::MAX)
            } else {
                fault(CommandError::ParseInt(ParseIntError { kind }))
            },
        },
    }
}

/// The one argument of a command that takes one.
pub open spec fn only_argument(parts: Seq<FrameView>) -> Result<Seq<u8>, CommandFromFrameError> {
    match part(parts, 1) {
        Err(e) => Err(e),
        Ok(key) => if parts.len() > 2 {
            fault(CommandError::TooManyParts)
        } else {
            Ok(key)
        },
    }
}

/// The key and the number of a command that takes these two, the number `clamped` or not.
pub open spec fn key_and_amount(parts: Seq<FrameView>, clamped: bool) -> Result<
    (Seq<u8>, u64),
    CommandFromFrameError,
> {
    match part(parts, 1) {
        Err(e) => Err(e),
        Ok(key) => match part(parts, 2) {
            Err(e) => Err(e),
            Ok(digits) => match amount(digits, clamped) {
                Err(e) => Err(e),
                Ok(n) => if parts.len() > 3 {
                    fault(CommandError::TooManyParts)
                } else {
                    Ok((key, n))
                },
            },
        },
    }
}

/// The channels that a command names: every part behind the verb, all bulk strings.
pub open spec fn channel_names(parts: Seq<FrameView>) -> Result<
    Seq<Seq<u8>>,
    CommandFromFrameError,
> {
    if forall|i: int| 1 <= i < parts.len() ==> (#[trigger] parts[i]) is BulkString {
        Ok(Seq::new((parts.len() - 1) as nat, |i: int| parts[i + 1]->BulkString_0))
    } else {
        Err(CommandFromFrameError::UnexpectedFrame)
    }
}

/// What a frame asks for. A relative deadline is not a command yet: the clock turns it
/// into one.
pub enum RequestView {
    /// A command that needs no clock.
    Ready(CommandView),
    /// `EXPIRE`: a deadline so far ahead.
    ExpireIn {
        /// The key.
        key: Seq<u8>,
        /// How far ahead.
        span: Milliseconds,
    },
    /// `SET` with `EX` or `PX`: a value whose deadline is so far ahead.
    SetFor {
        /// The key.
        key: Seq<u8>,
        /// The value.
        value: Seq<u8>,
        /// How far ahead.
        span: Milliseconds,
        /// Whether more parts follow, which is an error once the clock has been read.
        more: bool,
    },
}

/// `SET key value [EX s | PX ms | EXAT unix-s | PXAT unix-ms]`. An unknown keyword is
/// refused before its argument is looked for.
pub open spec fn set_request(parts: Seq<FrameView>) -> Result<RequestView, CommandFromFrameError> {
    match part(parts, 1) {
        Err(e) => Err(e),
        Ok(key) => match part(parts, 2) {
            Err(e) => Err(e),
            Ok(value) => if parts.len() == 3 {
                Ok(
                    RequestView::Ready(
                        command::write(WriteCommandView::SetKey { key, value, expires_at: None }),
                    ),
                )
            } else {
                match part(parts, 3) {
                    Err(e) => Err(e),
                    Ok(word) => set_with_option(parts, key, value, bytes::lowercase(word)),
                }
            },
        },
    }
}

/// A `SET` that carries `option`.
pub open spec fn set_with_option(
    parts: Seq<FrameView>,
    key: Seq<u8>,
    value: Seq<u8>,
    option: Seq<u8>,
) -> Result<RequestView, CommandFromFrameError> {
    let more = parts.len() > 5;
    if !is_option(option) {
        fault(CommandError::Syntax)
    } else {
        match part(parts, 4) {
            Err(e) => Err(e),
            Ok(digits) => match amount(digits, option == bytes::text("exat"@)) {
                Err(e) => Err(e),
                Ok(n) => if option == bytes::text("ex"@) {
                    Ok(RequestView::SetFor { key, value, span: Seconds(n).millis(), more })
                } else if option == bytes::text("px"@) {
                    Ok(RequestView::SetFor { key, value, span: Milliseconds(n), more })
                } else if more {
                    fault(CommandError::TooManyParts)
                } else {
                    let deadline = if option == bytes::text("exat"@) {
                        Seconds(n).millis()
                    } else {
                        Milliseconds(n)
                    };
                    Ok(
                        RequestView::Ready(
                            command::write(
                                WriteCommandView::SetKey { key, value, expires_at: Some(deadline) },
                            ),
                        ),
                    )
                },
            },
        }
    }
}

/// `PUBLISH channel message`. A missing part is reported before a part of the wrong shape.
pub open spec fn publish_request(parts: Seq<FrameView>) -> Result<
    RequestView,
    CommandFromFrameError,
> {
    if parts.len() < 3 {
        fault(CommandError::NotEnoughParts)
    } else {
        match (parts[1], parts[2]) {
            (FrameView::BulkString(channel_id), FrameView::BulkString(message)) => if parts.len()
                > 3 {
                fault(CommandError::TooManyParts)
            } else {
                Ok(
                    RequestView::Ready(
                        CommandView::Channel(
                            ChannelCommandView::Publish { channel_id, message },
                        ),
                    ),
                )
            },
            _ => Err(CommandFromFrameError::UnexpectedFrame),
        }
    }
}

/// The keywords that `SET` knows.
pub open spec fn is_option(word: Seq<u8>) -> bool {
    ||| word == bytes::text("ex"@)
    ||| word == bytes::text("px"@)
    ||| word == bytes::text("exat"@)
    ||| word == bytes::text("pxat"@)
}

/// What the parts of a command ask for, given its verb in lower case.
pub open spec fn request_for(verb: Seq<u8>, parts: Seq<FrameView>) -> Result<
    RequestView,
    CommandFromFrameError,
> {
    if verb == bytes::text("get"@) {
        match only_argument(parts) {
            Err(e) => Err(e),
            Ok(key) => Ok(RequestView::Ready(command::read(ReadCommandView::Get { key }))),
        }
    } else if verb == bytes::text("set"@) {
        set_request(parts)
    } else if verb == bytes::text("del"@) {
        match only_argument(parts) {
            Err(e) => Err(e),
            Ok(key) => Ok(RequestView::Ready(command::write(WriteCommandView::Delete { key }))),
        }
    } else if verb == bytes::text("ping"@) {
        if parts.len() == 1 {
            Ok(RequestView::Ready(CommandView::Ping { message: None }))
        } else {
            match only_argument(parts) {
                Err(e) => Err(e),
                Ok(m) => Ok(RequestView::Ready(CommandView::Ping { message: Some(m) })),
            }
        }
    } else if verb == bytes::text("exists"@) {
        match only_argument(parts) {
            Err(e) => Err(e),
            Ok(key) => Ok(RequestView::Ready(command::read(ReadCommandView::Exists { key }))),
        }
    } else if verb == bytes::text("expire"@) {
        match key_and_amount(parts, false) {
            Err(e) => Err(e),
            Ok((key, n)) => Ok(RequestView::ExpireIn { key, span: Seconds(n).millis() }),
        }
    } else if verb == bytes::text("expireat"@) {
        match key_and_amount(parts, true) {
            Err(e) => Err(e),
            Ok((key, n)) => Ok(
                RequestView::Ready(
                    command::write(
                        WriteCommandView::ExpireAt { key, expires_at: Seconds(n).millis() },
                    ),
                ),
            ),
        }
    } else if verb == bytes::text("pexpireat"@) {
        match key_and_amount(parts, false) {
            Err(e) => Err(e),
            Ok((key, n)) => Ok(
                RequestView::Ready(
                    command::write(WriteCommandView::ExpireAt { key, expires_at: Milliseconds(n) }),
                ),
            ),
        }
    } else if verb == bytes::text("ttl"@) {
        match only_argument(parts) {
            Err(e) => Err(e),
            Ok(key) => Ok(RequestView::Ready(command::read(ReadCommandView::Ttl { key }))),
        }
    } else if verb == bytes::text("persist"@) {
        match only_argument(parts) {
            Err(e) => Err(e),
            Ok(key) => Ok(RequestView::Ready(command::write(WriteCommandView::Persist { key }))),
        }
    } else if verb == bytes::text("subscribe"@) {
        match channel_names(parts) {
            Err(e) => Err(e),
            Ok(channel_ids) => if channel_ids.len() == 0 {
                fault(CommandError::NotEnoughParts)
            } else {
                Ok(
                    RequestView::Ready(
                        CommandView::Channel(ChannelCommandView::Subscribe { channel_ids }),
                    ),
                )
            },
        }
    } else if verb == bytes::text("unsubscribe"@) {
        match channel_names(parts) {
            Err(e) => Err(e),
            Ok(channel_ids) => Ok(
                RequestView::Ready(
                    CommandView::Channel(ChannelCommandView::Unsubscribe { channel_ids }),
                ),
            ),
        }
    } else if verb == bytes::text("publish"@) {
        publish_request(parts)
    } else {
        fault(CommandError::UnrecognizedCommand)
    }
}

/// What a frame asks for.
pub open spec fn request_of(f: FrameView) -> Result<RequestView, CommandFromFrameError> {
    match f {
        FrameView::BulkString(_) => Err(CommandFromFrameError::UnexpectedFrame),
        FrameView::Array(parts) => match part(parts, 0) {
            Err(e) => Err(e),
            Ok(verb) => request_for(bytes::lowercase(verb), parts),
        },
    }
}

/// What a request comes to once the clock has been read. Only a relative deadline looks at
/// the reading.
pub open spec fn resolved(
    request: RequestView,
    clock: Reading,
) -> Result<CommandView, CommandFromFrameError> {
    match request {
        RequestView::Ready(c) => Ok(c),
        RequestView::ExpireIn { key, span } => match clock {
            Err(e) => Err(CommandFromFrameError::SystemTime(e)),
            Ok(now) => Ok(
                command::write(WriteCommandView::ExpireAt { key, expires_at: now.plus(span) }),
            ),
        },
        RequestView::SetFor { key, value, span, more } => match clock {
            Err(e) => Err(CommandFromFrameError::SystemTime(e)),
            Ok(now) => if more {
                fault(CommandError::TooManyParts)
            } else {
                Ok(
                    command::write(
                        WriteCommandView::SetKey { key, value, expires_at: Some(now.plus(span)) },
                    ),
                )
            },
        },
    }
}

/// The command that a frame spells, by a reading of the clock.
pub open spec fn command_of(f: FrameView, clock: Reading) -> Result<
    CommandView,
    CommandFromFrameError,
> {
    match request_of(f) {
        Err(e) => Err(e),
        Ok(request) => resolved(request, clock),
    }
}

/// A frame that cannot be read as a command without a reading of the clock: one that asks
/// for a relative deadline.
pub open spec fn needs_clock(f: FrameView) -> bool {
    match request_of(f) {
        Ok(RequestView::ExpireIn { .. }) => true,
        Ok(RequestView::SetFor { .. }) => true,
        _ => false,
    }
}

/// What a parse returned, as views.
pub open spec fn result_view(r: Result<Command, CommandFromFrameError>) -> Result<
    CommandView,
    CommandFromFrameError,
> {
    match r {
        Ok(c) => Ok(c@),
        Err(e) => Err(e),
    }
}

/// What a frame asks for, before the clock has been read.
enum Request {
    Ready(Command),
    ExpireIn { key: Vec<u8>, span: Milliseconds },
    SetFor { key: Vec<u8>, value: Vec<u8>, span: Milliseconds, more: bool },
}

impl View for Request {
    type V = RequestView;

    closed spec fn view(&self) -> RequestView {
        match self {
            Request::Ready(c) => RequestView::Ready(c@),
            Request::ExpireIn { key, span } => RequestView::ExpireIn { key: key@, span: *span },
            Request::SetFor { key, value, span, more } => RequestView::SetFor {
                key: key@,
                value: value@,
                span: *span,
                more: *more,
            },
        }
    }
}

/// What a request parse returned, as views.
spec fn request_view(r: Result<Request, CommandFromFrameError>) -> Result<
    RequestView,
    CommandFromFrameError,
> {
    match r {
        Ok(request) => Ok(request@),
        Err(e) => Err(e),
    }
}

/// The parts of a command that have not been taken yet, last one first.
struct Parts {
    rest: Vec<Frame>,
    /// All the parts, and how many were taken.
    all: Ghost<Seq<FrameView>>,
    taken: Ghost<int>,
}

impl Parts {
    /// What is left is the tail of all the parts.
    spec fn wf(self) -> bool {
        &&& 0 <= self.taken@ <= self.all@.len()
        &&& self.rest@.len() == self.all@.len() - self.taken@
        &&& forall|i: int|
            0 <= i < self.rest@.len() ==> (#[trigger] self.rest@[i])@ == self.all@[self.all@.len()
                - 1 - i]
    }

    /// All of `frames`, none taken.
    fn new(frames: Vec<Frame>) -> (r: Self)
        ensures
            r.wf(),
            r.all@ == frame::frames_view(frames@),
            r.taken@ == 0,
    {
        let mut frames: Vec<Frame> = frames;
        let ghost source = frames@;
        let ghost all = frame::frames_view(source);
        proof {
            frame::frames_view_index(source);
        }
        let mut rest: Vec<Frame> = Vec::new();
        while frames.len() > 0
            invariant
                all == frame::frames_view(source),
                all.len() == source.len(),
                forall|i: int| 0 <= i < source.len() ==> #[trigger] all[i] == source[i]@,
                frames@.len() + rest@.len() == source.len(),
                frames@ == source.take(frames@.len() as int),
                forall|i: int|
                    0 <= i < rest@.len() ==> #[trigger] rest@[i] == source[source.len() - 1 - i],
            decreases frames@.len(),
        {
            match frames.pop() {
                Some(frame) => {
                    rest.push(frame);
                },
                None => {},
            }
            assert(frames@ =~= source.take(frames@.len() as int));
        }
        Parts { rest, all: Ghost(all), taken: Ghost(0int) }
    }

    /// Take the next part, if there is one.
    fn next(&mut self) -> (r: Option<Frame>)
        requires
            old(self).wf(),
        ensures
            final(self).wf(),
            final(self).all@ == old(self).all@,
            match r {
                Some(f) => old(self).taken@ < old(self).all@.len() && f@
                    == old(self).all@[old(self).taken@] && final(self).taken@ == old(self).taken@
                    + 1,
                None => old(self).taken@ == old(self).all@.len() && final(self).taken@
                    == old(self).taken@,
            },
    {
        let frame = self.rest.pop();
        if frame.is_some() {
            self.taken = Ghost(self.taken@ + 1);
        }
        frame
    }

    /// Take the next part and require it to be a bulk string.
    fn next_bulk(&mut self) -> (r: Result<Vec<u8>, CommandFromFrameError>)
        requires
            old(self).wf(),
        ensures
            final(self).wf(),
            final(self).all@ == old(self).all@,
            match part(old(self).all@, old(self).taken@) {
                Ok(bytes) => r is Ok && r->Ok_0@ == bytes && final(self).taken@ == old(self).taken@
                    + 1,
                Err(e) => r is Err && r->Err_0 == e,
            },
    {
        match self.next() {
            None => Err(CommandFromFrameError::CommandError(CommandError::NotEnoughParts)),
            Some(Frame::BulkString(bytes)) => Ok(bytes),
            Some(Frame::Array(frames)) => {
                frame::discard(frames);
                Err(CommandFromFrameError::UnexpectedFrame)
            },
        }
    }

    /// `true` if every part has been taken.
    fn is_empty(&self) -> (r: bool)
        requires
            self.wf(),
        ensures
            r == (self.taken@ == self.all@.len()),
    {
        self.rest.len() == 0
    }

    /// The one argument of a command that takes one.
    fn only_argument(&mut self) -> (r: Result<Vec<u8>, CommandFromFrameError>)
        requires
            old(self).wf(),
            old(self).taken@ == 1,
        ensures
            match only_argument(old(self).all@) {
                Ok(bytes) => r is Ok && r->Ok_0@ == bytes,
                Err(e) => r is Err && r->Err_0 == e,
            },
    {
        let key = self.next_bulk()?;
        if !self.is_empty() {
            return Err(CommandFromFrameError::CommandError(CommandError::TooManyParts));
        }
        Ok(key)
    }

    /// The key and the number of a command that takes these two, the number `clamped` or not.
    fn key_and_amount(&mut self, clamped: bool) -> (r: Result<
        (Vec<u8>, u64),
        CommandFromFrameError,
    >)
        requires
            old(self).wf(),
            old(self).taken@ == 1,
        ensures
            match key_and_amount(old(self).all@, clamped) {
                Ok((key, n)) => r is Ok && r->Ok_0.0@ == key && r->Ok_0.1 == n,
                Err(e) => r is Err && r->Err_0 == e,
            },
    {
        let key = self.next_bulk()?;
        let digits = self.next_bulk()?;
        let n: u64 = parse_u64(digits.as_slice(), clamped)?;
        if !self.is_empty() {
            return Err(CommandFromFrameError::CommandError(CommandError::TooManyParts));
        }
        Ok((key, n))
    }

    /// The channels that a command names.
    fn channel_names(&mut self) -> (r: Result<Vec<Vec<u8>>, CommandFromFrameError>)
        requires
            old(self).wf(),
            old(self).taken@ == 1,
        ensures
            match channel_names(old(self).all@) {
                Ok(names) => r is Ok && channel::names(r->Ok_0@) == names,
                Err(e) => r is Err && r->Err_0 == e,
            },
    {
        let ghost parts = self.all@;
        let mut names: Vec<Vec<u8>> = Vec::new();
        loop
            invariant
                self.wf(),
                self.all@ == parts,
                parts == old(self).all@,
                self.taken@ == names@.len() + 1,
                forall|i: int| 1 <= i < self.taken@ ==> (#[trigger] parts[i]) is BulkString,
                forall|i: int|
                    0 <= i < names@.len() ==> (#[trigger] names@[i])@ == parts[i
                        + 1]->BulkString_0,
            decreases parts.len() - self.taken@,
        {
            match self.next() {
                None => {
                    assert(channel::names(names@) =~= channel_names(parts)->Ok_0);
                    return Ok(names);
                },
                Some(Frame::BulkString(name)) => {
                    names.push(name);
                },
                Some(Frame::Array(frames)) => {
                    assert(!(parts[self.taken@ - 1] is BulkString));
                    frame::discard(frames);
                    return Err(CommandFromFrameError::UnexpectedFrame);
                },
            }
        }
    }

    /// The arguments of a `SET`.
    fn set_request(&mut self) -> (r: Result<Request, CommandFromFrameError>)
        requires
            old(self).wf(),
            old(self).taken@ == 1,
        ensures
            request_view(r) == set_request(old(self).all@),
    {
        let key = self.next_bulk()?;
        let value = self.next_bulk()?;
        if self.is_empty() {
            return Ok(Request::Ready(Command::set(key, value, None)));
        }
        let word = self.next_bulk()?;
        let option = bytes::to_lowercase(word.as_slice());
        let ex: bool = bytes::is_text(option.as_slice(), "ex");
        let px: bool = bytes::is_text(option.as_slice(), "px");
        let exat: bool = bytes::is_text(option.as_slice(), "exat");
        let pxat: bool = bytes::is_text(option.as_slice(), "pxat");
        if !ex && !px && !exat && !pxat {
            return Err(CommandFromFrameError::CommandError(CommandError::Syntax));
        }
        let digits = self.next_bulk()?;
        let n: u64 = parse_u64(digits.as_slice(), exat)?;
        let more: bool = !self.is_empty();
        if ex {
            let span = Milliseconds::from(Seconds::new(n));
            return Ok(Request::SetFor { key, value, span, more });
        }
        if px {
            return Ok(Request::SetFor { key, value, span: Milliseconds::new(n), more });
        }
        if more {
            return Err(CommandFromFrameError::CommandError(CommandError::TooManyParts));
        }
        let deadline = if exat {
            Milliseconds::from(Seconds::new(n))
        } else {
            Milliseconds::new(n)
        };
        Ok(Request::Ready(Command::set(key, value, Some(deadline))))
    }

    /// The arguments of a `PUBLISH`.
    fn publish_request(&mut self) -> (r: Result<Request, CommandFromFrameError>)
        requires
            old(self).wf(),
            old(self).taken@ == 1,
        ensures
            request_view(r) == publish_request(old(self).all@),
    {
        if self.rest.len() < 2 {
            return Err(CommandFromFrameError::CommandError(CommandError::NotEnoughParts));
        }
        let channel = self.next_bulk()?;
        let message = self.next_bulk()?;
        if !self.is_empty() {
            return Err(CommandFromFrameError::CommandError(CommandError::TooManyParts));
        }
        Ok(Request::Ready(Command::publish(channel, message)))
    }

    /// What the parts ask for.
    fn request(&mut self) -> (r: Result<Request, CommandFromFrameError>)
        requires
            old(self).wf(),
            old(self).taken@ == 0,
        ensures
            request_view(r) == request_of(FrameView::Array(old(self).all@)),
    {
        let word = self.next_bulk()?;
        let verb = bytes::to_lowercase(word.as_slice());
        let verb: &[u8] = verb.as_slice();
        if bytes::is_text(verb, "get") {
            let key = self.only_argument()?;
            Ok(Request::Ready(Command::get(key)))
        } else if bytes::is_text(verb, "set") {
            self.set_request()
        } else if bytes::is_text(verb, "del") {
            let key = self.only_argument()?;
            Ok(Request::Ready(Command::delete(key)))
        } else if bytes::is_text(verb, "ping") {
            if self.is_empty() {
                return Ok(Request::Ready(Command::ping(None)));
            }
            let message = self.only_argument()?;
            Ok(Request::Ready(Command::ping(Some(message))))
        } else if bytes::is_text(verb, "exists") {
            let key = self.only_argument()?;
            Ok(Request::Ready(Command::key_exists(key)))
        } else if bytes::is_text(verb, "expire") {
            let (key, n) = self.key_and_amount(false)?;
            Ok(Request::ExpireIn { key, span: Milliseconds::from(Seconds::new(n)) })
        } else if bytes::is_text(verb, "expireat") {
            let (key, n) = self.key_and_amount(true)?;
            Ok(Request::Ready(Command::expire_at(key, Milliseconds::from(Seconds::new(n)))))
        } else if bytes::is_text(verb, "pexpireat") {
            let (key, n) = self.key_and_amount(false)?;
            Ok(Request::Ready(Command::expire_at(key, Milliseconds::new(n))))
        } else if bytes::is_text(verb, "ttl") {
            let key = self.only_argument()?;
            Ok(Request::Ready(Command::ttl(key)))
        } else if bytes::is_text(verb, "persist") {
            let key = self.only_argument()?;
            Ok(Request::Ready(Command::persist(key)))
        } else if bytes::is_text(verb, "subscribe") {
            let names = self.channel_names()?;
            if names.len() == 0 {
                return Err(CommandFromFrameError::CommandError(CommandError::NotEnoughParts));
            }
            Ok(Request::Ready(Command::subscribe(names)))
        } else if bytes::is_text(verb, "unsubscribe") {
            let names = self.channel_names()?;
            Ok(Request::Ready(Command::unsubscribe(names)))
        } else if bytes::is_text(verb, "publish") {
            self.publish_request()
        } else {
            Err(CommandFromFrameError::CommandError(CommandError::UnrecognizedCommand))
        }
    }
}

/// Parse a bulk string as a `u64`. A number that is too large for one is refused, unless it
/// is to be `clamped`.
fn parse_u64(digits: &[u8], clamped: bool) -> (r: Result<u64, CommandFromFrameError>)
    ensures
        r == amount(digits@, clamped),
{
    match utf8::check(digits) {
        Err(e) => Err(CommandFromFrameError::CommandError(CommandError::Utf8(e))),
        Ok(()) => match decimal::parse_u64(digits) {
            Ok(n) => Ok(n),
            Err(e) => if clamped && e.kind == IntErrorKind::PosOverflow && decimal::spells_number(
                digits,
            ) {
                Ok(u64::MAX)
            } else {
                Err(CommandFromFrameError::CommandError(CommandError::ParseInt(e)))
            },
        },
    }
}

/// What a frame asks for, before the clock has been read.
fn read_request(value: Frame) -> (r: Result<Request, CommandFromFrameError>)
    ensures
        request_view(r) == request_of(value@),
{
    let Frame::Array(frames) = value else {
        return Err(CommandFromFrameError::UnexpectedFrame);
    };
    let mut parts = Parts::new(frames);
    let r = parts.request();
    // What was not taken may be nested deep.
    frame::discard(parts.rest);
    r
}

/// Turn a request into a command by a reading of the clock.
fn resolve(request: Request, clock: Reading) -> (r: Result<
    Command,
    CommandFromFrameError,
>)
    ensures
        result_view(r) == resolved(request@, clock),
{
    match request {
        Request::Ready(c) => Ok(c),
        Request::ExpireIn { key, span } => match clock {
            Err(e) => Err(CommandFromFrameError::SystemTime(e)),
            Ok(now) => Ok(Command::expire_at(key, now.saturating_add(span))),
        },
        Request::SetFor { key, value, span, more } => match clock {
            Err(e) => Err(CommandFromFrameError::SystemTime(e)),
            Ok(now) => if more {
                Err(CommandFromFrameError::CommandError(CommandError::TooManyParts))
            } else {
                Ok(Command::set(key, value, Some(now.saturating_add(span))))
            },
        },
    }
}

impl Command {
    /// The command that a frame spells, by the reading `clock`. Only the relative forms
    /// (`EXPIRE`, `SET … EX`, `SET … PX`) look at it.
    pub fn try_from_at(value: Frame, clock: Reading) -> (r: Result<
        Command,
        CommandFromFrameError,
    >)
        ensures
            result_view(r) == command_of(value@, clock),
    {
        match read_request(value) {
            Err(e) => Err(e),
            Ok(request) => resolve(request, clock),
        }
    }
}

impl TryFrom<Frame> for Command {
    type Error = CommandFromFrameError;

    /// The command that a frame spells. The relative forms read the clock here, on the
    /// live path, so everything downstream only ever sees an absolute deadline.
    fn try_from(value: Frame) -> (r: Result<Command, CommandFromFrameError>)
        ensures
            exists|clock: Reading|
                {
                    &&& needs_clock(value@) ==> time::is_reading(clock)
                    &&& result_view(r) == #[trigger] command_of(value@, clock)
                },
    {
        match read_request(value) {
            Err(e) => {
                let ghost clock: Reading = Ok(Milliseconds(0));
                assert(command_of(value@, clock) == Err::<CommandView, CommandFromFrameError>(e));
                Err(e)
            },
            Ok(Request::Ready(c)) => {
                let ghost clock: Reading = Ok(Milliseconds(0));
                assert(command_of(value@, clock) == Ok::<CommandView, CommandFromFrameError>(c@));
                Ok(c)
            },
            Ok(request) => {
                let clock = Milliseconds::now();
                let r = resolve(request, clock);
                assert(command_of(value@, clock) == result_view(r));
                r
            },
        }
    }
}

impl vstd::std_specs::convert::TryFromSpecImpl<Frame> for Command {
    open spec fn obeys_try_from_spec() -> bool {
        false
    }

    open spec fn try_from_spec(value: Frame) -> Result<Command, CommandFromFrameError> {
        arbitrary()
    }
}

} // verus!
