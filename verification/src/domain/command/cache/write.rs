//! The commands that change state, and therefore the ones that get logged.
//!
//! Every deadline here is an absolute [`Milliseconds`] timestamp. The relative forms
//! (`EXPIRE`, `SET … EX`, `SET … PX`) are converted at parse time and have no
//! representation in this module. That is deliberate: a relative TTL that cannot be built
//! cannot be written to the log, which is what keeps replay time-invariant.

use vstd::prelude::*;

use crate::bytes;
use crate::domain::time::Milliseconds;

verus! {

/// A command that changes the cache.
#[allow(inconsistent_fields)]
#[derive(Debug, PartialEq)]
pub enum WriteCommand {
    /// Put a value under a key.
    SetKey {
        /// The key.
        key: Vec<u8>,
        /// The value.
        value: Vec<u8>,
        /// Absolute deadline, or `None` for no expiry. A plain `SET` clears any TTL the
        /// key already had.
        expires_at: Option<Milliseconds>,
    },
    /// Take a key out.
    Delete {
        /// The key.
        key: Vec<u8>,
    },
    /// Put a deadline on a key.
    ExpireAt {
        /// The key.
        key: Vec<u8>,
        /// Absolute deadline.
        expires_at: Milliseconds,
    },
    /// Take a key's deadline off.
    Persist {
        /// The key.
        key: Vec<u8>,
    },
}

/// What a [`WriteCommand`] stands for.
#[allow(inconsistent_fields)]
pub enum WriteCommandView {
    /// Put a value under a key.
    SetKey {
        /// The key.
        key: Seq<u8>,
        /// The value.
        value: Seq<u8>,
        /// Absolute deadline, or `None` for no expiry.
        expires_at: Option<Milliseconds>,
    },
    /// Take a key out.
    Delete {
        /// The key.
        key: Seq<u8>,
    },
    /// Put a deadline on a key.
    ExpireAt {
        /// The key.
        key: Seq<u8>,
        /// Absolute deadline.
        expires_at: Milliseconds,
    },
    /// Take a key's deadline off.
    Persist {
        /// The key.
        key: Seq<u8>,
    },
}

impl View for WriteCommand {
    type V = WriteCommandView;

    open spec fn view(&self) -> WriteCommandView {
        match self {
            WriteCommand::SetKey { key, value, expires_at } => WriteCommandView::SetKey {
                key: key@,
                value: value@,
                expires_at: *expires_at,
            },
            WriteCommand::Delete { key } => WriteCommandView::Delete { key: key@ },
            WriteCommand::ExpireAt { key, expires_at } => WriteCommandView::ExpireAt {
                key: key@,
                expires_at: *expires_at,
            },
            WriteCommand::Persist { key } => WriteCommandView::Persist { key: key@ },
        }
    }
}

impl Clone for WriteCommand {
    fn clone(&self) -> (r: Self)
        ensures
            r@ == self@,
    {
        match self {
            WriteCommand::SetKey { key, value, expires_at } => WriteCommand::SetKey {
                key: bytes::copy(key.as_slice()),
                value: bytes::copy(value.as_slice()),
                expires_at: *expires_at,
            },
            WriteCommand::Delete { key } => WriteCommand::Delete {
                key: bytes::copy(key.as_slice()),
            },
            WriteCommand::ExpireAt { key, expires_at } => WriteCommand::ExpireAt {
                key: bytes::copy(key.as_slice()),
                expires_at: *expires_at,
            },
            WriteCommand::Persist { key } => WriteCommand::Persist {
                key: bytes::copy(key.as_slice()),
            },
        }
    }
}

impl WriteCommand {
    /// Put `value` under `key`, with an absolute deadline where one is given.
    pub fn set(key: Vec<u8>, value: Vec<u8>, expires_at: Option<Milliseconds>) -> (r: Self)
        ensures
            r@ == (WriteCommandView::SetKey { key: key@, value: value@, expires_at }),
    {
        WriteCommand::SetKey { key, value, expires_at }
    }

    /// Take `key` out.
    pub fn delete(key: Vec<u8>) -> (r: Self)
        ensures
            r@ == (WriteCommandView::Delete { key: key@ }),
    {
        WriteCommand::Delete { key }
    }

    /// Put a deadline on `key`.
    pub fn expire_at(key: Vec<u8>, expires_at: Milliseconds) -> (r: Self)
        ensures
            r@ == (WriteCommandView::ExpireAt { key: key@, expires_at }),
    {
        WriteCommand::ExpireAt { key, expires_at }
    }

    /// Take the deadline off `key`.
    pub fn persist(key: Vec<u8>) -> (r: Self)
        ensures
            r@ == (WriteCommandView::Persist { key: key@ }),
    {
        WriteCommand::Persist { key }
    }
}

} // verus!
