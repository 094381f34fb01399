//! Append-only command log: the write-ahead log half of the persister.
//!
//! The log *is* the RESP wire format: each logged command is encoded with the same
//! `From<WriteCommand> for Frame` + `Frame::write_to` used on the network path, so the log
//! is byte-for-byte what a client would have sent. That symmetry means replay needs no
//! decoder of its own. It reuses `Frame::parse_streamed` and `Command::try_from`, the exact
//! inbound parsing path. The log is, in effect, a transcript of every mutation; replay is
//! "re-send that transcript."
//!
//! [`Aof`] holds the log's bytes. Whoever keeps it on disk reads the file into it at
//! startup, writes out what each append adds, and empties the file when it is cleared.

use std::time::SystemTimeError;
use vstd::prelude::*;

use crate::bytes;
use crate::domain::cache;
use crate::domain::cache::{Cache, CacheError, Data};
use crate::domain::command;
use crate::domain::command::cache::write::{WriteCommand, WriteCommandView};
use crate::domain::command::cache::CacheCommandView;
use crate::domain::command::{Command, CommandView};
use crate::domain::time;
use crate::domain::time::{Milliseconds, Reading};
use crate::resp::command as parser;
use crate::resp::command::CommandFromFrameError;
use crate::resp::frame;
use crate::resp::frame::{Frame, FrameError};

verus! {

/// Failure on the replay path.
#[derive(Debug)]
pub enum AofError {
    /// A writer panicked while holding the lock that shares the log. Reported by the
    /// lock's owner; no operation here returns it.
    MutexPoisoned,
    /// A replayed command failed to apply to the cache.
    Cache(CacheError),
    /// A replayed frame parsed but didn't lift into a known command, meaning corruption or
    /// version skew. Fatal: this log is our own, so an uninterpretable entry means the
    /// rebuild can't be trusted.
    Command(CommandFromFrameError),
    /// A frame failed to parse mid-stream (hard corruption, distinct from a torn tail).
    Frame(FrameError),
}

impl AofError {
    /// The text that describes the fault.
    pub open spec fn spec_message(self) -> Seq<u8> {
        match self {
            AofError::MutexPoisoned => bytes::text("mutex poisoned"@),
            AofError::Cache(e) => e.spec_message(),
            AofError::Command(e) => e.spec_message(),
            AofError::Frame(e) => e.spec_message(),
        }
    }

    /// The text that describes the fault.
    pub fn message(&self) -> (r: Vec<u8>)
        ensures
            r@ == self.spec_message(),
    {
        match self {
            AofError::MutexPoisoned => bytes::to_bytes("mutex poisoned"),
            AofError::Cache(e) => e.message(),
            AofError::Command(e) => e.message(),
            AofError::Frame(e) => e.message(),
        }
    }
}

/// The bytes that log one change.
pub open spec fn entry(c: WriteCommandView) -> Seq<u8> {
    frame::encode(frame::write_frame(c))
}

/// The bytes that log several changes, oldest first.
pub open spec fn entries(cs: Seq<WriteCommandView>) -> Seq<u8>
    decreases cs.len(),
{
    if cs.len() == 0 {
        Seq::empty()
    } else {
        entries(cs.drop_last()) + entry(cs.last())
    }
}

/// What replaying one command does to the data. `clock` is looked at only where the
/// command cannot do without.
pub open spec fn applied(m: Data, c: CacheCommandView, clock: Reading) -> Result<
    Data,
    SystemTimeError,
> {
    if cache::needs_clock(m, c) {
        match clock {
            Ok(now) => Ok(cache::executed(m, c, now).0),
            Err(e) => Err(e),
        }
    } else {
        Ok(cache::executed(m, c, Milliseconds(0)).0)
    }
}

/// What replaying the log `s` on top of `m` leads to, and whether it got to the end. Each
/// frame has two readings of the clock: one for lifting it to a command, one for running
/// the command.
///
/// A tail that breaks off is left unread. Anything else that does not parse, and a frame
/// that is no command, stops the replay. Commands that do not touch the cache are passed
/// over.
pub open spec fn replayed(s: Seq<u8>, m: Data, readings: Seq<(Reading, Reading)>) -> (
    Data,
    Result<(), AofError>,
)
    decreases s.len(),
{
    match frame::streamed(s) {
        Err(FrameError::Incomplete) => (m, Ok(())),
        Err(e) => (m, Err(AofError::Frame(e))),
        Ok((f, rest)) => {
            proof {
                frame::parse_shrinks(s);
            }
            let (lift, run) = readings[0];
            let later = readings.drop_first();
            match parser::command_of(f, lift) {
                Err(e) => (m, Err(AofError::Command(e))),
                Ok(CommandView::Cache(c)) => match applied(m, c, run) {
                    Err(e) => (m, Err(AofError::Cache(CacheError::SystemTime(e)))),
                    Ok(next) => replayed(rest, next, later),
                },
                Ok(_) => replayed(rest, m, later),
            }
        },
    }
}

/// Every reading that replaying the log `s` on top of `m` looks at is one of the clock.
pub open spec fn were_read(s: Seq<u8>, m: Data, readings: Seq<(Reading, Reading)>) -> bool
    decreases s.len(),
{
    match frame::streamed(s) {
        Err(_) => true,
        Ok((f, rest)) => {
            proof {
                frame::parse_shrinks(s);
            }
            let (lift, run) = readings[0];
            let later = readings.drop_first();
            &&& parser::needs_clock(f) ==> time::is_reading(lift)
            &&& match parser::command_of(f, lift) {
                Err(_) => true,
                Ok(CommandView::Cache(c)) => {
                    &&& cache::needs_clock(m, c) ==> time::is_reading(run)
                    &&& match applied(m, c, run) {
                        Err(_) => true,
                        Ok(next) => were_read(rest, next, later),
                    }
                },
                Ok(_) => were_read(rest, m, later),
            }
        },
    }
}

/// By the readings `done` replaying the log `s` on top of `start` gets to the rest `t` of
/// the log with the data `m`: what is left of the replay is to replay that.
spec fn gets_to(
    s: Seq<u8>,
    start: Data,
    done: Seq<(Reading, Reading)>,
    t: Seq<u8>,
    m: Data,
) -> bool {
    forall|more: Seq<(Reading, Reading)>| #[trigger]
        replayed(s, start, done + more) == replayed(t, m, more) && were_read(s, start, done + more)
            == were_read(t, m, more)
}

/// A replay that gets to `t` gets past the frame there, by the readings `step`.
proof fn gets_past_one_more(
    s: Seq<u8>,
    start: Data,
    done: Seq<(Reading, Reading)>,
    t: Seq<u8>,
    m: Data,
    step: (Reading, Reading),
    next: Data,
)
    requires
        gets_to(s, start, done, t, m),
        frame::streamed(t) is Ok,
        parser::needs_clock(frame::streamed(t)->Ok_0.0) ==> time::is_reading(step.0),
        match parser::command_of(frame::streamed(t)->Ok_0.0, step.0) {
            Ok(CommandView::Cache(c)) => {
                &&& cache::needs_clock(m, c) ==> time::is_reading(step.1)
                &&& applied(m, c, step.1) == Ok::<Data, SystemTimeError>(next)
            },
            Ok(_) => next == m,
            Err(_) => false,
        },
    ensures
        gets_to(s, start, done.push(step), frame::streamed(t)->Ok_0.1, next),
{
    let rest = frame::streamed(t)->Ok_0.1;
    assert forall|more: Seq<(Reading, Reading)>| #[trigger]
        replayed(s, start, done.push(step) + more) == replayed(rest, next, more) && were_read(
            s,
            start,
            done.push(step) + more,
        ) == were_read(rest, next, more) by {
        let all = seq![step] + more;
        assert(done.push(step) + more =~= done + all);
        assert(all.drop_first() =~= more);
        assert(all[0] == step);
        assert(replayed(s, start, done + all) == replayed(t, m, all));
        frame::parse_shrinks(t);
    }
}

/// `n` times the reading `now`.
pub open spec fn steady(now: Milliseconds, n: nat) -> Seq<(Reading, Reading)> {
    Seq::new(n, |i: int| (Ok::<Milliseconds, SystemTimeError>(now), Ok(now)))
}

/// The append-only log.
pub struct Aof {
    bytes: Vec<u8>,
    /// What the log held when it was opened.
    base: Ghost<Seq<u8>>,
    /// What was appended to it since, or since it was last cleared.
    appended: Ghost<Seq<WriteCommandView>>,
}

impl View for Aof {
    type V = Seq<u8>;

    closed spec fn view(&self) -> Seq<u8> {
        self.bytes@
    }
}

impl From<Vec<u8>> for Aof {
    /// The log that stands in `bytes`.
    fn from(bytes: Vec<u8>) -> (r: Self)
        ensures
            r@ == bytes@,
            r.base() == bytes@,
            r.appended() == Seq::<WriteCommandView>::empty(),
    {
        assert(bytes@ =~= bytes@ + entries(Seq::empty()));
        Aof { bytes, base: Ghost(bytes@), appended: Ghost(Seq::empty()) }
    }
}

impl vstd::std_specs::convert::FromSpecImpl<Vec<u8>> for Aof {
    open spec fn obeys_from_spec() -> bool {
        false
    }

    open spec fn from_spec(bytes: Vec<u8>) -> Aof {
        arbitrary()
    }
}

impl Default for Aof {
    fn default() -> (r: Self)
        ensures
            r@ == Seq::<u8>::empty(),
            r.base() == Seq::<u8>::empty(),
            r.appended() == Seq::<WriteCommandView>::empty(),
    {
        let r = Aof::from(Vec::new());
        assert(r@ =~= Seq::<u8>::empty());
        r
    }
}

impl Aof {
    #[verifier::type_invariant]
    spec fn consistent(self) -> bool {
        self.bytes@ == self.base@ + entries(self.appended@)
    }

    /// What the log held when it was opened; nothing once it has been cleared.
    pub closed spec fn base(self) -> Seq<u8> {
        self.base@
    }

    /// The changes appended since the log was opened or cleared, oldest first.
    pub closed spec fn appended(self) -> Seq<WriteCommandView> {
        self.appended@
    }

    /// The log's bytes: what it was opened with, and behind that each change appended.
    pub fn as_bytes(&self) -> (r: &[u8])
        ensures
            r@ == self@,
            r@ == self.base() + entries(self.appended()),
    {
        proof {
            use_type_invariant(self);
        }
        self.bytes.as_slice()
    }

    /// Encode one mutation as a RESP frame and append it to the log.
    pub fn append(&mut self, command: WriteCommand) -> (r: Result<(), AofError>)
        ensures
            r is Ok,
            final(self)@ == old(self)@ + entry(command@),
            final(self).base() == old(self).base(),
            final(self).appended() == old(self).appended().push(command@),
    {
        proof {
            use_type_invariant(&*self);
        }
        let ghost c = command@;
        let mut taken = Aof::default();
        std::mem::swap(&mut taken, self);
        let ghost base = taken.base@;
        let ghost log = taken.appended@.push(c);
        let mut log_bytes: Vec<u8> = taken.bytes;
        Frame::from(command).write_to(&mut log_bytes);
        proof {
            assert(log.drop_last() =~= taken.appended@);
            assert(log_bytes@ =~= base + entries(log));
        }
        *self = Aof { bytes: log_bytes, base: Ghost(base), appended: Ghost(log) };
        Ok(())
    }

    /// Empty the log.
    pub fn clear(&mut self) -> (r: Result<(), AofError>)
        ensures
            r is Ok,
            final(self)@ == Seq::<u8>::empty(),
            final(self).base() == Seq::<u8>::empty(),
            final(self).appended() == Seq::<WriteCommandView>::empty(),
    {
        *self = Aof::default();
        Ok(())
    }

    /// Rebuild cache state by replaying the log: parse each frame, lift it to a command,
    /// apply it *in-memory only* (no re-logging).
    ///
    /// Stops on a trailing [`Incomplete`](FrameError::Incomplete) frame, which is the
    /// expected torn tail from a crash mid-append, and keeps everything parsed so far. Any
    /// *other* parse failure or an unknown command is fatal, because in our own log those
    /// mean real corruption rather than a normal partial write.
    pub fn replay(&self, cache: &mut Cache) -> (r: Result<(), AofError>)
        ensures
            exists|readings: Seq<(Reading, Reading)>|
                {
                    &&& were_read(self@, old(cache)@, readings)
                    &&& (final(cache)@, r) == #[trigger] replayed(self@, old(cache)@, readings)
                },
    {
        let mut rest: &[u8] = self.bytes.as_slice();
        let ghost mut done: Seq<(Reading, Reading)> = Seq::empty();
        let ghost start = cache@;
        assert(gets_to(self@, start, done, rest@, cache@)) by {
            assert forall|more: Seq<(Reading, Reading)>| #[trigger] (done + more) == more by {
                assert(done + more =~= more);
            }
        }
        loop
            invariant
                start == old(cache)@,
                gets_to(self@, start, done, rest@, cache@),
            decreases rest@.len(),
        {
            let ghost before = rest@;
            let ghost m = cache@;
            proof {
                frame::parse_shrinks(rest@);
            }
            match Frame::parse_streamed(rest) {
                Err(FrameError::Incomplete) => {
                    proof {
                        let none = Seq::<(Reading, Reading)>::empty();
                        assert(replayed(self@, start, done + none) == replayed(rest@, m, none));
                    }
                    return Ok(());
                },
                Err(e) => {
                    proof {
                        let none = Seq::<(Reading, Reading)>::empty();
                        assert(replayed(self@, start, done + none) == replayed(rest@, m, none));
                    }
                    return Err(AofError::Frame(e));
                },
                Ok((f, remainder)) => {
                    let ghost fv = f@;
                    let lifted = Command::try_from(f);
                    let ghost lift = choose|clock: Reading|
                        {
                            &&& parser::needs_clock(fv) ==> time::is_reading(clock)
                            &&& parser::result_view(lifted) == #[trigger] parser::command_of(
                                fv,
                                clock,
                            )
                        };
                    let ghost idle: Reading = Ok(Milliseconds(0));
                    match lifted {
                        Err(e) => {
                            proof {
                                let last = seq![(lift, idle)];
                                assert(replayed(self@, start, done + last) == replayed(
                                    rest@,
                                    m,
                                    last,
                                ));
                            }
                            return Err(AofError::Command(e));
                        },
                        Ok(Command::Cache(cc)) => match cache.execute(&cc) {
                            Err(e) => {
                                proof {
                                    let run: Reading = Err(e->SystemTime_0);
                                    let last = seq![(lift, run)];
                                    assert(replayed(self@, start, done + last) == replayed(
                                        rest@,
                                        m,
                                        last,
                                    ));
                                }
                                return Err(AofError::Cache(e));
                            },
                            Ok(outcome) => {
                                proof {
                                    let now = choose|now: Milliseconds|
                                        {
                                            &&& cache::needs_clock(m, cc@) ==> time::is_reading(
                                                Ok(now),
                                            )
                                            &&& (cache@, outcome@) == #[trigger] cache::executed(
                                                m,
                                                cc@,
                                                now,
                                            )
                                        };
                                    if !cache::needs_clock(m, cc@) {
                                        cache::clockless_commands(m, cc@, now, Milliseconds(0));
                                    }
                                    let step: (Reading, Reading) = (lift, Ok(now));
                                    gets_past_one_more(self@, start, done, before, m, step, cache@);
                                    done = done.push(step);
                                }
                            },
                        },
                        Ok(_) => {
                            proof {
                                let step: (Reading, Reading) = (lift, idle);
                                gets_past_one_more(self@, start, done, before, m, step, cache@);
                                done = done.push(step);
                            }
                        },
                    }
                    rest = remainder;
                },
            }
        }
    }

    /// [`Aof::replay`] by the one reading `now`.
    pub fn replay_at(&self, cache: &mut Cache, now: Milliseconds) -> (r: Result<(), AofError>)
        ensures
            (final(cache)@, r) == replayed(self@, old(cache)@, steady(now, self@.len())),
    {
        let mut rest: &[u8] = self.bytes.as_slice();
        let ghost start = cache@;
        let ghost mut left: nat = self@.len();
        loop
            invariant
                start == old(cache)@,
                left >= rest@.len(),
                replayed(self@, start, steady(now, self@.len())) == replayed(
                    rest@,
                    cache@,
                    steady(now, left),
                ),
            decreases rest@.len(),
        {
            let ghost m = cache@;
            proof {
                frame::parse_shrinks(rest@);
                if left > 0 {
                    assert(steady(now, left).drop_first() =~= steady(now, (left - 1) as nat));
                }
            }
            match Frame::parse_streamed(rest) {
                Err(FrameError::Incomplete) => {
                    return Ok(());
                },
                Err(e) => {
                    return Err(AofError::Frame(e));
                },
                Ok((f, remainder)) => {
                    match Command::try_from_at(f, Ok(now)) {
                        Err(e) => {
                            return Err(AofError::Command(e));
                        },
                        Ok(Command::Cache(cc)) => {
                            cache.execute_at(&cc, now);
                            proof {
                                if !cache::needs_clock(m, cc@) {
                                    cache::clockless_commands(m, cc@, now, Milliseconds(0));
                                }
                            }
                        },
                        Ok(_) => {},
                    }
                    proof {
                        left = (left - 1) as nat;
                    }
                    rest = remainder;
                },
            }
        }
    }
}

} // verus!
