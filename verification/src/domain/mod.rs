//! Domain types. Wire- and storage-agnostic: nothing here knows about TCP, RESP, or files.

pub mod cache;
pub mod cache_laws;
pub mod channels;
pub mod channels_laws;
pub mod command;
pub mod ports;
pub mod queue;
pub mod service;
pub mod time;
