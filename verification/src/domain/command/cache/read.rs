//! The commands that only look. They never reach the log.

use vstd::prelude::*;

use crate::bytes;

verus! {

/// A command that reads the cache.
#[derive(Debug, PartialEq)]
pub enum ReadCommand {
    /// The value under a key.
    Get {
        /// The key.
        key: Vec<u8>,
    },
    /// Whether a key is there.
    Exists {
        /// The key.
        key: Vec<u8>,
    },
    /// How long a key has left.
    Ttl {
        /// The key.
        key: Vec<u8>,
    },
}

/// What a [`ReadCommand`] stands for.
pub enum ReadCommandView {
    /// The value under a key.
    Get {
        /// The key.
        key: Seq<u8>,
    },
    /// Whether a key is there.
    Exists {
        /// The key.
        key: Seq<u8>,
    },
    /// How long a key has left.
    Ttl {
        /// The key.
        key: Seq<u8>,
    },
}

impl View for ReadCommand {
    type V = ReadCommandView;

    open spec fn view(&self) -> ReadCommandView {
        match self {
            ReadCommand::Get { key } => ReadCommandView::Get { key: key@ },
            ReadCommand::Exists { key } => ReadCommandView::Exists { key: key@ },
            ReadCommand::Ttl { key } => ReadCommandView::Ttl { key: key@ },
        }
    }
}

impl Clone for ReadCommand {
    fn clone(&self) -> (r: Self)
        ensures
            r@ == self@,
    {
        match self {
            ReadCommand::Get { key } => ReadCommand::Get { key: bytes::copy(key.as_slice()) },
            ReadCommand::Exists { key } => ReadCommand::Exists { key: bytes::copy(key.as_slice()) },
            ReadCommand::Ttl { key } => ReadCommand::Ttl { key: bytes::copy(key.as_slice()) },
        }
    }
}

impl ReadCommand {
    /// The value under `key`.
    pub fn get(key: Vec<u8>) -> (r: Self)
        ensures
            r@ == (ReadCommandView::Get { key: key@ }),
    {
        ReadCommand::Get { key }
    }

    /// Whether `key` is there.
    pub fn key_exists(key: Vec<u8>) -> (r: Self)
        ensures
            r@ == (ReadCommandView::Exists { key: key@ }),
    {
        ReadCommand::Exists { key }
    }

    /// How long `key` has left.
    pub fn ttl(key: Vec<u8>) -> (r: Self)
        ensures
            r@ == (ReadCommandView::Ttl { key: key@ }),
    {
        ReadCommand::Ttl { key }
    }
}

} // verus!
