//! The commands that touch the cache. Reads are not logged, writes are.

use vstd::prelude::*;

use crate::domain::command::cache::read::{ReadCommand, ReadCommandView};
use crate::domain::command::cache::write::{WriteCommand, WriteCommandView};

pub mod read;
pub mod write;

verus! {

/// A command on the cache.
#[derive(Debug, PartialEq)]
pub enum CacheCommand {
    /// Leaves the state as it is, but for dropping what has expired.
    Read(ReadCommand),
    /// Changes the state, and so is logged.
    Write(WriteCommand),
}

/// What a [`CacheCommand`] stands for.
pub enum CacheCommandView {
    /// Leaves the state as it is, but for dropping what has expired.
    Read(ReadCommandView),
    /// Changes the state, and so is logged.
    Write(WriteCommandView),
}

impl View for CacheCommand {
    type V = CacheCommandView;

    open spec fn view(&self) -> CacheCommandView {
        match self {
            CacheCommand::Read(c) => CacheCommandView::Read(c@),
            CacheCommand::Write(c) => CacheCommandView::Write(c@),
        }
    }
}

impl Clone for CacheCommand {
    fn clone(&self) -> (r: Self)
        ensures
            r@ == self@,
    {
        match self {
            CacheCommand::Read(c) => CacheCommand::Read(c.clone()),
            CacheCommand::Write(c) => CacheCommand::Write(c.clone()),
        }
    }
}

impl From<ReadCommand> for CacheCommand {
    fn from(value: ReadCommand) -> (r: Self) {
        CacheCommand::Read(value)
    }
}

impl vstd::std_specs::convert::FromSpecImpl<ReadCommand> for CacheCommand {
    open spec fn obeys_from_spec() -> bool {
        true
    }

    open spec fn from_spec(value: ReadCommand) -> CacheCommand {
        CacheCommand::Read(value)
    }
}

impl From<WriteCommand> for CacheCommand {
    fn from(value: WriteCommand) -> (r: Self) {
        CacheCommand::Write(value)
    }
}

impl vstd::std_specs::convert::FromSpecImpl<WriteCommand> for CacheCommand {
    open spec fn obeys_from_spec() -> bool {
        true
    }

    open spec fn from_spec(value: WriteCommand) -> CacheCommand {
        CacheCommand::Write(value)
    }
}

} // verus!
