//! The parsed commands, produced by the RESP layer and consumed by the service and the
//! session.

use vstd::prelude::*;

use crate::bytes;
use crate::decimal::ParseIntError;
use crate::domain::command::cache::read::{ReadCommand, ReadCommandView};
use crate::domain::command::cache::write::{WriteCommand, WriteCommandView};
use crate::domain::command::cache::{CacheCommand, CacheCommandView};
use crate::domain::command::channel::{ChannelCommand, ChannelCommandView};
use crate::domain::time::Milliseconds;
use crate::utf8::Utf8Error;

pub mod cache;
pub mod channel;
pub mod outcome;

verus! {

/// What can be wrong with a command once its frame has parsed.
#[derive(Clone, Copy, Debug, PartialEq, Eq, Structural)]
pub enum CommandError {
    /// No command goes by this verb.
    UnrecognizedCommand,
    /// An argument is missing.
    NotEnoughParts,
    /// There are arguments left over.
    TooManyParts,
    /// An argument was where one belonged but isn't one this command knows, such as a
    /// `SET` option that isn't EX, PX, EXAT, or PXAT.
    Syntax,
    /// A numeric argument wasn't UTF-8.
    Utf8(Utf8Error),
    /// A numeric argument wasn't a number in range.
    ParseInt(ParseIntError),
}

impl CommandError {
    /// The text that describes the fault.
    pub open spec fn spec_message(self) -> Seq<u8> {
        match self {
            CommandError::UnrecognizedCommand => bytes::text("unrecognized command"@),
            CommandError::NotEnoughParts => bytes::text("not enough parts"@),
            CommandError::TooManyParts => bytes::text("too many parts"@),
            CommandError::Syntax => bytes::text("syntax error"@),
            CommandError::Utf8(e) => e.spec_message(),
            CommandError::ParseInt(e) => e.kind.spec_message(),
        }
    }

    /// The text that describes the fault.
    pub fn message(&self) -> (r: Vec<u8>)
        ensures
            r@ == self.spec_message(),
    {
        match self {
            CommandError::UnrecognizedCommand => bytes::to_bytes("unrecognized command"),
            CommandError::NotEnoughParts => bytes::to_bytes("not enough parts"),
            CommandError::TooManyParts => bytes::to_bytes("too many parts"),
            CommandError::Syntax => bytes::to_bytes("syntax error"),
            CommandError::Utf8(e) => e.message(),
            CommandError::ParseInt(e) => e.message(),
        }
    }
}

/// A client's request.
#[derive(Debug, PartialEq)]
pub enum Command {
    /// Read or change the cache.
    Cache(CacheCommand),
    /// Subscribe, unsubscribe or publish.
    Channel(ChannelCommand),
    /// Answer with a pong, or with the message given.
    Ping {
        /// What to answer with.
        message: Option<Vec<u8>>,
    },
}

/// What a [`Command`] stands for.
pub enum CommandView {
    /// Read or change the cache.
    Cache(CacheCommandView),
    /// Subscribe, unsubscribe or publish.
    Channel(ChannelCommandView),
    /// Answer with a pong, or with the message given.
    Ping {
        /// What to answer with.
        message: Option<Seq<u8>>,
    },
}

/// What an optional byte string stands for.
pub open spec fn optional_view(v: Option<Vec<u8>>) -> Option<Seq<u8>> {
    match v {
        Some(v) => Some(v@),
        None => None,
    }
}

impl View for Command {
    type V = CommandView;

    open spec fn view(&self) -> CommandView {
        match self {
            Command::Cache(c) => CommandView::Cache(c@),
            Command::Channel(c) => CommandView::Channel(c@),
            Command::Ping { message } => CommandView::Ping { message: optional_view(*message) },
        }
    }
}

impl Clone for Command {
    fn clone(&self) -> (r: Self)
        ensures
            r@ == self@,
    {
        match self {
            Command::Cache(c) => Command::Cache(c.clone()),
            Command::Channel(c) => Command::Channel(c.clone()),
            Command::Ping { message } => Command::Ping {
                message: match message {
                    Some(m) => Some(bytes::copy(m.as_slice())),
                    None => None,
                },
            },
        }
    }
}

impl From<CacheCommand> for Command {
    fn from(value: CacheCommand) -> (r: Self) {
        Command::Cache(value)
    }
}

impl vstd::std_specs::convert::FromSpecImpl<CacheCommand> for Command {
    open spec fn obeys_from_spec() -> bool {
        true
    }

    open spec fn from_spec(value: CacheCommand) -> Command {
        Command::Cache(value)
    }
}

impl From<ChannelCommand> for Command {
    fn from(value: ChannelCommand) -> (r: Self) {
        Command::Channel(value)
    }
}

impl vstd::std_specs::convert::FromSpecImpl<ChannelCommand> for Command {
    open spec fn obeys_from_spec() -> bool {
        true
    }

    open spec fn from_spec(value: ChannelCommand) -> Command {
        Command::Channel(value)
    }
}

impl From<ReadCommand> for Command {
    fn from(value: ReadCommand) -> (r: Self) {
        Command::Cache(CacheCommand::Read(value))
    }
}

impl vstd::std_specs::convert::FromSpecImpl<ReadCommand> for Command {
    open spec fn obeys_from_spec() -> bool {
        true
    }

    open spec fn from_spec(value: ReadCommand) -> Command {
        Command::Cache(CacheCommand::Read(value))
    }
}

impl From<WriteCommand> for Command {
    fn from(value: WriteCommand) -> (r: Self) {
        Command::Cache(CacheCommand::Write(value))
    }
}

impl vstd::std_specs::convert::FromSpecImpl<WriteCommand> for Command {
    open spec fn obeys_from_spec() -> bool {
        true
    }

    open spec fn from_spec(value: WriteCommand) -> Command {
        Command::Cache(CacheCommand::Write(value))
    }
}

/// A command that reads the cache.
pub open spec fn read(c: ReadCommandView) -> CommandView {
    CommandView::Cache(CacheCommandView::Read(c))
}

/// A command that changes the cache.
pub open spec fn write(c: WriteCommandView) -> CommandView {
    CommandView::Cache(CacheCommandView::Write(c))
}

impl Command {
    /// `GET key`.
    pub fn get(key: Vec<u8>) -> (r: Self)
        ensures
            r@ == read(ReadCommandView::Get { key: key@ }),
    {
        Command::from(ReadCommand::get(key))
    }

    /// `SET key value`, with an absolute deadline where one is given.
    pub fn set(key: Vec<u8>, value: Vec<u8>, expires_at: Option<Milliseconds>) -> (r: Self)
        ensures
            r@ == write(WriteCommandView::SetKey { key: key@, value: value@, expires_at }),
    {
        Command::from(WriteCommand::set(key, value, expires_at))
    }

    /// `DEL key`.
    pub fn delete(key: Vec<u8>) -> (r: Self)
        ensures
            r@ == write(WriteCommandView::Delete { key: key@ }),
    {
        Command::from(WriteCommand::delete(key))
    }

    /// `EXISTS key`.
    pub fn key_exists(key: Vec<u8>) -> (r: Self)
        ensures
            r@ == read(ReadCommandView::Exists { key: key@ }),
    {
        Command::from(ReadCommand::key_exists(key))
    }

    /// `PEXPIREAT key deadline`.
    pub fn expire_at(key: Vec<u8>, expires_at: Milliseconds) -> (r: Self)
        ensures
            r@ == write(WriteCommandView::ExpireAt { key: key@, expires_at }),
    {
        Command::from(WriteCommand::expire_at(key, expires_at))
    }

    /// `TTL key`.
    pub fn ttl(key: Vec<u8>) -> (r: Self)
        ensures
            r@ == read(ReadCommandView::Ttl { key: key@ }),
    {
        Command::from(ReadCommand::ttl(key))
    }

    /// `PERSIST key`.
    pub fn persist(key: Vec<u8>) -> (r: Self)
        ensures
            r@ == write(WriteCommandView::Persist { key: key@ }),
    {
        Command::from(WriteCommand::persist(key))
    }

    /// `PING`, with the message to answer with where one is given.
    pub fn ping(message: Option<Vec<u8>>) -> (r: Self)
        ensures
            r@ == (CommandView::Ping { message: optional_view(message) }),
    {
        Command::Ping { message }
    }

    /// `SUBSCRIBE channel...`.
    pub fn subscribe(channel_ids: Vec<Vec<u8>>) -> (r: Self)
        ensures
            r@ == CommandView::Channel(
                ChannelCommandView::Subscribe { channel_ids: channel::names(channel_ids@) },
            ),
    {
        Command::from(ChannelCommand::subscribe(channel_ids))
    }

    /// `UNSUBSCRIBE channel...`; every channel where none is named.
    pub fn unsubscribe(channel_ids: Vec<Vec<u8>>) -> (r: Self)
        ensures
            r@ == CommandView::Channel(
                ChannelCommandView::Unsubscribe { channel_ids: channel::names(channel_ids@) },
            ),
    {
        Command::from(ChannelCommand::unsubscribe(channel_ids))
    }

    /// `PUBLISH channel message`.
    pub fn publish(channel_id: Vec<u8>, message: Vec<u8>) -> (r: Self)
        ensures
            r@ == CommandView::Channel(
                ChannelCommandView::Publish { channel_id: channel_id@, message: message@ },
            ),
    {
        Command::from(ChannelCommand::publish(channel_id, message))
    }
}

} // verus!
