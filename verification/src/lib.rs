//! `steller`: the verified core of a small Redis-compatible key-value server.
//!
//! ## Layout
//!
//! Ports and adapters. The dependency arrow points inward: adapters depend on the domain,
//! never the reverse.
//!
//! - [`domain`] holds the core: `Cache`, `Entry`, `Command`, the `Service` orchestrator, the
//!   pub/sub registry, and the `ports` the adapters plug into. Nothing here knows about
//!   RESP, TCP, or files.
//! - [`inbound`] is the driving adapter: the per-connection session and the decisions of the
//!   server's lifecycle.
//! - [`outbound`] is the driven adapter: the persister behind the `CacheRepository` port.
//! - [`resp`] is the wire codec. Both other layers use it, so it sits beside them rather
//!   than inside either.
//! - [`bytes`], [`byte_map`], [`decimal`] and [`utf8`] are what the rest is built from.
//!
//! Nothing in the crate opens a socket or a file, starts a thread or takes a lock. Whoever
//! does hands in bytes and carries out what comes back.

pub mod byte_map;
pub mod bytes;
pub mod decimal;
pub mod domain;
pub mod inbound;
pub mod outbound;
pub mod resp;
pub mod utf8;
