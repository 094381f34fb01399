//! What comes of a command on the cache, before the wire gives it a form.

use vstd::prelude::*;

use crate::domain::command;
use crate::domain::time::Seconds;

verus! {

/// The three things `TTL` can say about a key, before the wire turns them into `:-2`,
/// `:-1`, or `:n`.
#[derive(Clone, Copy, Debug, PartialEq, Eq, Structural)]
pub enum TtlOutcome {
    /// There is no such key.
    KeyNotFound,
    /// The key has no deadline.
    TtlNotFound,
    /// The key has so many seconds left.
    Remaining(Seconds),
}

/// What comes of a command.
#[derive(Debug, PartialEq)]
pub enum CommandOutcome {
    /// A value, or none.
    Value(Option<Vec<u8>>),
    /// Done.
    Done,
    /// Done or not done.
    Bool(bool),
    /// How long a key has left.
    Ttl(TtlOutcome),
    /// A pong, or the message given.
    Pong(Option<Vec<u8>>),
    /// A number.
    Integer(i64),
}

/// What a [`CommandOutcome`] stands for.
pub enum CommandOutcomeView {
    /// A value, or none.
    Value(Option<Seq<u8>>),
    /// Done.
    Done,
    /// Done or not done.
    Bool(bool),
    /// How long a key has left.
    Ttl(TtlOutcome),
    /// A pong, or the message given.
    Pong(Option<Seq<u8>>),
    /// A number.
    Integer(int),
}

impl View for CommandOutcome {
    type V = CommandOutcomeView;

    open spec fn view(&self) -> CommandOutcomeView {
        match self {
            CommandOutcome::Value(v) => CommandOutcomeView::Value(command::optional_view(*v)),
            CommandOutcome::Done => CommandOutcomeView::Done,
            CommandOutcome::Bool(b) => CommandOutcomeView::Bool(*b),
            CommandOutcome::Ttl(t) => CommandOutcomeView::Ttl(*t),
            CommandOutcome::Pong(m) => CommandOutcomeView::Pong(command::optional_view(*m)),
            CommandOutcome::Integer(n) => CommandOutcomeView::Integer(*n as int),
        }
    }
}

} // verus!
