//! The concrete [`CacheRepository`] backing the domain.
//!
//! [`Persister`] composes two pieces. [`Aof`] is the append-only log of mutations, which
//! covers durability between snapshots. [`Snapshot`] is a `wincode` dump of the whole map,
//! which is the recovery baseline.
//!
//! Recovery uses both: load the snapshot for base state, then replay the log on top for
//! everything since. Taking a snapshot truncates the log, so the log only holds mutations
//! after the last snapshot. That truncation is the whole compaction story.
//!
//! Each concrete error type converts into the domain's [`RepositoryError`] through a local
//! `From` impl, so the conversion happens at this boundary and the domain never sees an
//! outbound error type.

use vstd::prelude::*;

use crate::domain::cache::Cache;
use crate::domain::command::cache::write::{WriteCommand, WriteCommandView};
use crate::domain::ports::{CacheRepository, RepositoryError};
use crate::outbound::persister::aof::{Aof, AofError};
use crate::outbound::persister::snapshot::{Snapshot, SnapshotError};

pub mod aof;
pub mod laws;
pub mod snapshot;

verus! {

impl From<AofError> for RepositoryError {
    fn from(e: AofError) -> (r: Self)
        ensures
            r.spec_message() == e.spec_message(),
    {
        RepositoryError::Generic(e.message())
    }
}

impl vstd::std_specs::convert::FromSpecImpl<AofError> for RepositoryError {
    open spec fn obeys_from_spec() -> bool {
        false
    }

    open spec fn from_spec(e: AofError) -> RepositoryError {
        arbitrary()
    }
}

impl From<SnapshotError> for RepositoryError {
    fn from(e: SnapshotError) -> (r: Self)
        ensures
            e.is_message(r.spec_message()),
    {
        RepositoryError::Generic(e.message())
    }
}

impl vstd::std_specs::convert::FromSpecImpl<SnapshotError> for RepositoryError {
    open spec fn obeys_from_spec() -> bool {
        false
    }

    open spec fn from_spec(e: SnapshotError) -> RepositoryError {
        arbitrary()
    }
}

/// `refusal` tells that the snapshot could not be written, in the writer's words.
pub open spec fn snapshot_unwritten(refusal: RepositoryError) -> bool {
    exists|e: SnapshotError| e is Write && #[trigger] e.is_message(refusal.spec_message())
}

/// The persistence adapter, holding the log and the snapshot.
pub struct Persister {
    /// The log of what changed since the snapshot.
    pub aof: Aof,
    /// The recovery baseline.
    pub snapshot: Snapshot,
}

impl Persister {
    /// A persister over a log and a snapshot, as they were read at startup.
    pub fn new(aof: Aof, snapshot: Snapshot) -> (r: Self)
        ensures
            r.aof == aof,
            r.snapshot == snapshot,
    {
        Persister { aof, snapshot }
    }
}

impl CacheRepository for Persister {
    /// The command stands at the end of the log, and nothing else changes.
    open spec fn logged(before: &Self, command: WriteCommandView, after: &Self) -> bool {
        &&& after.aof@ == before.aof@ + aof::entry(command)
        &&& after.aof.base() == before.aof.base()
        &&& after.aof.appended() == before.aof.appended().push(command)
        &&& after.snapshot == before.snapshot
    }

    /// The log takes every command.
    open spec fn refused_with(
        before: &Self,
        command: WriteCommandView,
        error: RepositoryError,
    ) -> bool {
        false
    }

    /// Within the limits of `wincode` the snapshot holds the cache's rows, which read back as
    /// the cache, and the log is empty. Beyond them the writer's error comes back, and
    /// snapshot and log stay as they were.
    open spec fn snapshotted(
        before: &Self,
        cache: &Cache,
        after: &Self,
        r: Result<(), RepositoryError>,
    ) -> bool {
        if snapshot::within_limits(snapshot::rows_of(cache.map())) {
            &&& r is Ok
            &&& after.snapshot@ == snapshot::encoded_rows(snapshot::rows_of(cache.map()))
            &&& snapshot::contents(after.snapshot@) == Some(cache@)
            &&& after.aof@ == Seq::<u8>::empty()
            &&& after.aof.base() == Seq::<u8>::empty()
            &&& after.aof.appended() == Seq::<WriteCommandView>::empty()
        } else {
            &&& r is Err
            &&& snapshot_unwritten(r->Err_0)
            &&& after.snapshot@ == before.snapshot@
            &&& after.aof == before.aof
        }
    }

    fn append(&mut self, command: WriteCommand) -> (r: Result<(), RepositoryError>) {
        match self.aof.append(command) {
            Ok(()) => Ok(()),
            Err(e) => Err(RepositoryError::from(e)),
        }
    }

    /// Snapshot then compact.
    ///
    /// Order matters: snapshot first for the durable baseline, then clear the log that
    /// just became redundant. A crash between the two only costs you a replay of commands
    /// already in the snapshot. Where the snapshot cannot be written, the log stays, and the
    /// error is the writer's.
    fn snapshot(&mut self, cache: &Cache) -> (r: Result<(), RepositoryError>) {
        match self.snapshot.store(cache.as_map()) {
            Ok(()) => {},
            Err(e) => {
                let ghost cause = e;
                let refusal = RepositoryError::from(e);
                assert(cause is Write && cause.is_message(refusal.spec_message()));
                assert(snapshot_unwritten(refusal));
                return Err(refusal);
            },
        }
        match self.aof.clear() {
            Ok(()) => Ok(()),
            Err(e) => Err(RepositoryError::from(e)),
        }
    }
}

} // verus!
