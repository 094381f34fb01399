//! The trait boundaries the rest of the system plugs into.
//!
//! Both traits are defined here, in the domain, which is what points the dependency arrow
//! inward. The domain names the capabilities it needs; the adapters satisfy them.
//!
//! [`CacheRepository`] is the driven (outbound) port, implemented by the persistence
//! adapter and called by the service. [`CacheService`] is the driving (inbound) port,
//! implemented by [`Service`](crate::domain::service::Service) and called by the session.
//!
//! The error types are domain-owned too. Adapters map their concrete failures into this
//! vocabulary at the boundary, so the domain never names an outbound error type.

use vstd::prelude::*;

use crate::bytes;
use crate::domain::cache::{Cache, CacheError};
use crate::domain::channels::ChannelsError;
use crate::domain::command::cache::write::{WriteCommand, WriteCommandView};
use crate::domain::command::cache::{CacheCommand, CacheCommandView};
use crate::domain::command::outcome::CommandOutcome;

verus! {

/// Failure crossing the persistence boundary, in terms the domain can react to rather than
/// the adapter's own taxonomy.
#[derive(Debug)]
pub enum RepositoryError {
    /// Opaque catch-all: what the adapter has to say about it. The domain treats it as
    /// "persistence failed" without inspecting the cause.
    Generic(Vec<u8>),
}

impl RepositoryError {
    /// The text that describes the fault.
    pub open spec fn spec_message(self) -> Seq<u8> {
        match self {
            RepositoryError::Generic(text) => text@,
        }
    }

    /// The text that describes the fault.
    pub fn message(&self) -> (r: Vec<u8>)
        ensures
            r@ == self.spec_message(),
    {
        match self {
            RepositoryError::Generic(text) => bytes::copy(text.as_slice()),
        }
    }
}

/// Outbound persistence port. The service depends on this, not on any concrete persister.
pub trait CacheRepository: Send + Sync + 'static {
    /// What logging `command` may do: `before` becomes `after`. An implementation says what
    /// it promises; by default nothing.
    open spec fn logged(before: &Self, command: WriteCommandView, after: &Self) -> bool {
        true
    }

    /// Logging `command` may fail with `error`. An implementation says where and with what;
    /// by default anywhere and with anything.
    open spec fn refused_with(
        before: &Self,
        command: WriteCommandView,
        error: RepositoryError,
    ) -> bool {
        true
    }

    /// Durably log one state-mutating command.
    fn append(&mut self, command: WriteCommand) -> (r: Result<(), RepositoryError>)
        ensures
            r is Ok ==> Self::logged(old(self), command@, final(self)),
            r matches Err(e) ==> Self::refused_with(old(self), command@, e),
    ;

    /// What a snapshot of `cache` may do: `before` becomes `after`, and `r` comes of it. An
    /// implementation says what it promises; by default nothing.
    open spec fn snapshotted(
        before: &Self,
        cache: &Cache,
        after: &Self,
        r: Result<(), RepositoryError>,
    ) -> bool {
        true
    }

    /// Snapshot the cache and compact the log.
    fn snapshot(&mut self, cache: &Cache) -> (r: Result<(), RepositoryError>)
        ensures
            Self::snapshotted(old(self), cache, final(self), r),
    ;
}

/// Failure from the service layer, covering everything a command touches.
///
/// `execute` only hits the cache, so it can only fail with [`Cache`](ServiceError::Cache).
/// `execute_logged` also appends, so it can additionally fail with
/// [`Repository`](ServiceError::Repository).
#[derive(Debug)]
pub enum ServiceError {
    /// The cache operation failed.
    Cache(CacheError),
    /// Logging the mutation failed.
    Repository(RepositoryError),
    /// The subscription registry failed.
    Channels(ChannelsError),
    /// Anything without a more specific service meaning.
    Generic(Vec<u8>),
}

impl ServiceError {
    /// The text that describes the fault.
    pub open spec fn spec_message(self) -> Seq<u8> {
        match self {
            ServiceError::Cache(e) => e.spec_message(),
            ServiceError::Repository(e) => e.spec_message(),
            ServiceError::Channels(e) => e.spec_message(),
            ServiceError::Generic(text) => text@,
        }
    }

    /// The text that describes the fault.
    pub fn message(&self) -> (r: Vec<u8>)
        ensures
            r@ == self.spec_message(),
    {
        match self {
            ServiceError::Cache(e) => e.message(),
            ServiceError::Repository(e) => e.message(),
            ServiceError::Channels(e) => e.message(),
            ServiceError::Generic(text) => bytes::copy(text.as_slice()),
        }
    }
}

impl From<CacheError> for ServiceError {
    fn from(e: CacheError) -> (r: Self) {
        ServiceError::Cache(e)
    }
}

impl vstd::std_specs::convert::FromSpecImpl<CacheError> for ServiceError {
    open spec fn obeys_from_spec() -> bool {
        true
    }

    open spec fn from_spec(e: CacheError) -> ServiceError {
        ServiceError::Cache(e)
    }
}

impl From<RepositoryError> for ServiceError {
    fn from(e: RepositoryError) -> (r: Self) {
        ServiceError::Repository(e)
    }
}

impl vstd::std_specs::convert::FromSpecImpl<RepositoryError> for ServiceError {
    open spec fn obeys_from_spec() -> bool {
        true
    }

    open spec fn from_spec(e: RepositoryError) -> ServiceError {
        ServiceError::Repository(e)
    }
}

impl From<ChannelsError> for ServiceError {
    fn from(e: ChannelsError) -> (r: Self) {
        ServiceError::Channels(e)
    }
}

impl vstd::std_specs::convert::FromSpecImpl<ChannelsError> for ServiceError {
    open spec fn obeys_from_spec() -> bool {
        true
    }

    open spec fn from_spec(e: ChannelsError) -> ServiceError {
        ServiceError::Channels(e)
    }
}

/// Inbound command port. Implemented by [`Service`](crate::domain::service::Service) and
/// called by the session, which supplies the parsed
/// [`Command`](crate::domain::command::Command) and renders the returned
/// [`CommandOutcome`] as a RESP reply.
pub trait CacheService: Send + Sync + 'static {
    /// What running `command` may do: `before` becomes `after`, and `r` comes of it. An
    /// implementation says what it promises; by default nothing.
    open spec fn ran(
        before: &Self,
        command: CacheCommandView,
        after: &Self,
        r: Result<CommandOutcome, ServiceError>,
    ) -> bool {
        true
    }

    /// What running and logging `command` may do: `before` becomes `after`, and `r` comes
    /// of it. An implementation says what it promises; by default nothing.
    open spec fn ran_logged(
        before: &Self,
        command: CacheCommandView,
        after: &Self,
        r: Result<CommandOutcome, ServiceError>,
    ) -> bool {
        true
    }

    /// Run a command against the cache only, with no persistence. This is what replay
    /// uses, where re-logging would duplicate the log.
    fn execute(&mut self, command: &CacheCommand) -> (r: Result<CommandOutcome, ServiceError>)
        ensures
            Self::ran(old(self), command@, final(self), r),
    ;

    /// Run a command and, if it mutates state, append it to the log. The live client path.
    fn execute_logged(&mut self, command: CacheCommand) -> (r: Result<CommandOutcome, ServiceError>)
        ensures
            Self::ran_logged(old(self), command@, final(self), r),
    ;
}

} // verus!
