//! The orchestrator behind the [`CacheService`] port.
//!
//! [`Service`] is the one place that knows how a command becomes both an in-memory effect
//! and a durable one: apply to the cache, then append to the log if it mutated anything.
//!
//! Generic over `CR: CacheRepository`, so the concrete persister is a plug-in and tests can
//! substitute a recording fake.

use vstd::prelude::*;

use crate::domain::cache;
use crate::domain::cache::{Cache, CacheError};
use crate::domain::command::cache::{CacheCommand, CacheCommandView};
use crate::domain::command::outcome::CommandOutcome;
use crate::domain::ports::{CacheRepository, CacheService, ServiceError};
use crate::domain::time;
use crate::domain::time::Milliseconds;

verus! {

/// Command orchestrator: a cache, and the repository that its changes are logged to.
pub struct Service<CR: CacheRepository> {
    /// The state.
    pub cache: Cache,
    /// Where changes are logged.
    pub cache_repo: CR,
}

impl<CR: CacheRepository> Service<CR> {
    /// A service over a cache and a repository.
    pub fn new(cache: Cache, cache_repo: CR) -> (r: Self)
        ensures
            r.cache == cache,
            r.cache_repo == cache_repo,
    {
        Service { cache, cache_repo }
    }
}

/// `before` became `after` by carrying out `c` at a reading of the clock, where it needs
/// one, and `outcome` came of it.
pub open spec fn carried_out(
    before: cache::Data,
    c: CacheCommandView,
    after: cache::Data,
    outcome: CommandOutcome,
) -> bool {
    exists|now: Milliseconds|
        {
            &&& cache::needs_clock(before, c) ==> time::is_reading(Ok(now))
            &&& (after, outcome@) == #[trigger] cache::executed(before, c, now)
        }
}

impl<CR: CacheRepository> CacheService for Service<CR> {
    /// The repository stays as it is. The command is carried out on the cache; it fails,
    /// with nothing changed, only where it needs the clock and the clock cannot be read.
    open spec fn ran(
        before: &Self,
        command: CacheCommandView,
        after: &Self,
        r: Result<CommandOutcome, ServiceError>,
    ) -> bool {
        &&& after.cache_repo == before.cache_repo
        &&& match r {
            Ok(outcome) => carried_out(before.cache@, command, after.cache@, outcome),
            Err(ServiceError::Cache(CacheError::SystemTime(e))) => {
                &&& cache::needs_clock(before.cache@, command)
                &&& time::is_reading(Err(e))
                &&& after.cache@ == before.cache@
            },
            Err(_) => false,
        }
    }

    /// As [`Service::ran`], and a change is logged behind it. Where the log refuses, its
    /// error is passed on, and the change has still been carried out on the cache.
    open spec fn ran_logged(
        before: &Self,
        command: CacheCommandView,
        after: &Self,
        r: Result<CommandOutcome, ServiceError>,
    ) -> bool {
        match r {
            Ok(outcome) => {
                &&& carried_out(before.cache@, command, after.cache@, outcome)
                &&& match command {
                    CacheCommandView::Write(w) => CR::logged(
                        &before.cache_repo,
                        w,
                        &after.cache_repo,
                    ),
                    CacheCommandView::Read(_) => after.cache_repo == before.cache_repo,
                }
            },
            Err(ServiceError::Repository(e)) => {
                &&& command matches CacheCommandView::Write(w)
                &&& CR::refused_with(&before.cache_repo, w, e)
                &&& exists|outcome: CommandOutcome| #[trigger]
                    carried_out(before.cache@, command, after.cache@, outcome)
            },
            Err(e) => Self::ran(before, command, after, r),
        }
    }

    /// Run a command against the cache only. No persistence, so rebuilding from the log
    /// doesn't re-write the log.
    fn execute(&mut self, command: &CacheCommand) -> (r: Result<CommandOutcome, ServiceError>) {
        match self.cache.execute(command) {
            Ok(outcome) => Ok(outcome),
            Err(e) => Err(ServiceError::from(e)),
        }
    }

    /// Run a command and, if it is a [`CacheCommand::Write`], append it to the log.
    ///
    /// The [`CacheCommand`] variant already tells reads from writes, so there is no verb
    /// matching here. The cache effect and the log append land in the same order, which is
    /// what lets replay rebuild the live cache.
    fn execute_logged(&mut self, command: CacheCommand) -> (r: Result<CommandOutcome, ServiceError>) {
        let outcome = match self.execute(&command) {
            Ok(outcome) => outcome,
            Err(e) => {
                return Err(e);
            },
        };
        if let CacheCommand::Write(wc) = command {
            match self.cache_repo.append(wc) {
                Ok(()) => {},
                Err(e) => {
                    assert(carried_out(old(self).cache@, command@, self.cache@, outcome));
                    return Err(ServiceError::from(e));
                },
            }
        }
        Ok(outcome)
    }
}

} // verus!
