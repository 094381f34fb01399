//! The server's lifecycle, as decisions: what to recover at startup, when the background
//! tasks run, whom to serve, and when to stop. Sockets, threads and sleeping are up to
//! whoever drives it.

use vstd::prelude::*;

use crate::domain::cache;
use crate::domain::cache::{Cache, CacheError, Data};
use crate::domain::time;
use crate::domain::time::{Milliseconds, Reading};
use crate::outbound::persister::aof;
use crate::outbound::persister::aof::AofError;
use crate::outbound::persister::snapshot;
use crate::outbound::persister::snapshot::SnapshotError;
use crate::outbound::persister::Persister;

verus! {

/// How many ticks make up one interval of a background task.
pub const TICKS: u32 = 100;

/// How long a tick lasts, in milliseconds. A background task looks for the shutdown flag
/// after each, which bounds how long shutdown takes.
pub const TICK_MILLIS: u64 = 100;

/// How long a session waits for its client before it looks for the shutdown flag, in
/// milliseconds.
pub const READ_TIMEOUT_MILLIS: u64 = 500;

/// Why the state could not be recovered.
#[derive(Debug)]
pub enum RecoveryError {
    /// The snapshot won't load.
    Snapshot(SnapshotError),
    /// The log won't replay.
    Aof(AofError),
    /// What has expired could not be swept.
    Cache(CacheError),
}

/// What a replay led to, once what has expired is swept, is `r`.
pub open spec fn swept_to(
    replay: (Data, Result<(), AofError>),
    r: Result<Cache, RecoveryError>,
) -> bool {
    match replay {
        (_, Err(e)) => r == Err::<Cache, RecoveryError>(RecoveryError::Aof(e)),
        (data, Ok(_)) => match r {
            Ok(cache) => exists|now: Milliseconds|
                {
                    &&& time::is_reading(Ok(now))
                    &&& cache@ == #[trigger] cache::unexpired(data, now)
                },
            Err(RecoveryError::Cache(CacheError::SystemTime(e))) => time::is_reading(Err(e)),
            Err(_) => false,
        },
    }
}

/// `r` is what recovering from the bytes of a snapshot and of a log comes to.
pub open spec fn is_recovery(stored: Seq<u8>, log: Seq<u8>, r: Result<Cache, RecoveryError>) -> bool {
    match snapshot::contents(stored) {
        None => r matches Err(RecoveryError::Snapshot(SnapshotError::Read(_))),
        Some(base) => exists|readings: Seq<(Reading, Reading)>|
            {
                &&& aof::were_read(log, base, readings)
                &&& #[trigger] swept_to(aof::replayed(log, base, readings), r)
            },
    }
}

/// `r` is what recovering from the bytes of a snapshot and of a log by the reading `now` comes
/// to.
pub open spec fn is_recovery_at(
    stored: Seq<u8>,
    log: Seq<u8>,
    now: Milliseconds,
    r: Result<Cache, RecoveryError>,
) -> bool {
    match recovered(snapshot::contents(stored), log, now) {
        Ok(data) => r is Ok && r->Ok_0@ == data,
        Err(None) => r matches Err(RecoveryError::Snapshot(SnapshotError::Read(_))),
        Err(Some(e)) => r == Err::<Cache, RecoveryError>(RecoveryError::Aof(e)),
    }
}

/// Rebuild the state: load the snapshot, replay the log on top, sweep what has expired.
pub fn recover(persister: &Persister) -> (r: Result<Cache, RecoveryError>)
    ensures
        match snapshot::contents(persister.snapshot@) {
            None => r matches Err(RecoveryError::Snapshot(SnapshotError::Read(_))),
            Some(base) => exists|readings: Seq<(Reading, Reading)>|
                {
                    &&& aof::were_read(persister.aof@, base, readings)
                    &&& #[trigger] swept_to(aof::replayed(persister.aof@, base, readings), r)
                },
        },
        is_recovery(persister.snapshot@, persister.aof@, r),
{
    let map = match persister.snapshot.load() {
        Ok(map) => map,
        Err(e) => {
            return Err(RecoveryError::Snapshot(e));
        },
    };
    let mut cache = Cache::new(map);
    let ghost base = cache@;
    let replay = persister.aof.replay(&mut cache);
    let ghost data = cache@;
    let ghost readings = choose|readings: Seq<(Reading, Reading)>|
        {
            &&& aof::were_read(persister.aof@, base, readings)
            &&& (data, replay) == #[trigger] aof::replayed(persister.aof@, base, readings)
        };
    match replay {
        Ok(()) => {},
        Err(e) => {
            assert(swept_to(
                aof::replayed(persister.aof@, base, readings),
                Err(RecoveryError::Aof(e)),
            ));
            return Err(RecoveryError::Aof(e));
        },
    }
    assert(aof::replayed(persister.aof@, base, readings) == (data, replay));
    match cache.remove_expired() {
        Ok(_) => {
            let ghost now = choose|now: Milliseconds|
                time::is_reading(Ok(now)) && cache@ == #[trigger] cache::unexpired(data, now);
            assert(cache@ == cache::unexpired(data, now));
            assert(aof::replayed(persister.aof@, base, readings).0 == data);
            assert(swept_to(aof::replayed(persister.aof@, base, readings), Ok(cache)));
            Ok(cache)
        },
        Err(e) => {
            assert(swept_to(
                aof::replayed(persister.aof@, base, readings),
                Err(RecoveryError::Cache(e)),
            ));
            Err(RecoveryError::Cache(e))
        },
    }
}

/// [`recover`] by the one reading `now`.
pub fn recover_at(persister: &Persister, now: Milliseconds) -> (r: Result<Cache, RecoveryError>)
    ensures
        match recovered(snapshot::contents(persister.snapshot@), persister.aof@, now) {
            Ok(data) => r is Ok && r->Ok_0@ == data,
            Err(None) => r matches Err(RecoveryError::Snapshot(SnapshotError::Read(_))),
            Err(Some(e)) => r == Err::<Cache, RecoveryError>(RecoveryError::Aof(e)),
        },
        is_recovery_at(persister.snapshot@, persister.aof@, now, r),
{
    let map = match persister.snapshot.load() {
        Ok(map) => map,
        Err(e) => {
            return Err(RecoveryError::Snapshot(e));
        },
    };
    let mut cache = Cache::new(map);
    match persister.aof.replay_at(&mut cache, now) {
        Ok(()) => {},
        Err(e) => {
            return Err(RecoveryError::Aof(e));
        },
    }
    cache.remove_expired_at(now);
    Ok(cache)
}

/// What is recovered at `now` from what a snapshot holds and from the log `s`: the data, or
/// why there is none. (No error is given for a snapshot that does not load.)
pub open spec fn recovered(base: Option<Data>, s: Seq<u8>, now: Milliseconds) -> Result<
    Data,
    Option<AofError>,
> {
    match base {
        None => Err(None),
        Some(base) => match aof::replayed(s, base, aof::steady(now, s.len())) {
            (_, Err(e)) => Err(Some(e)),
            (data, Ok(_)) => Ok(cache::unexpired(data, now)),
        },
    }
}

/// What a background task does at the end of a tick.
#[derive(Clone, Copy, Debug, PartialEq, Eq, Structural)]
pub enum Tick {
    /// Sleep on.
    Wait,
    /// Do the task, then sleep on.
    Run,
    /// Do the task one last time, and end.
    RunAndStop,
}

/// How many ticks of the interval have passed once one more has, and what the task does then.
pub open spec fn ticked(elapsed: u32, shutdown: bool) -> (u32, Tick) {
    if shutdown {
        (elapsed, Tick::RunAndStop)
    } else if elapsed == TICKS - 1 {
        (0, Tick::Run)
    } else {
        ((elapsed + 1) as u32, Tick::Wait)
    }
}

/// The beat of a background task: once every [`TICKS`] ticks, and once more on shutdown.
#[derive(Debug)]
pub struct Ticker {
    elapsed: u32,
}

impl Ticker {
    #[verifier::type_invariant]
    spec fn within_interval(self) -> bool {
        self.elapsed < TICKS
    }

    /// How many ticks of the interval have passed.
    pub closed spec fn elapsed(self) -> u32 {
        self.elapsed
    }

    /// A fresh interval.
    pub fn new() -> (r: Self)
        ensures
            r.elapsed() == 0,
    {
        Ticker { elapsed: 0 }
    }

    /// One tick has passed.
    pub fn tick(&mut self, shutdown: bool) -> (r: Tick)
        ensures
            old(self).elapsed() < TICKS,
            (final(self).elapsed(), r) == ticked(old(self).elapsed(), shutdown),
            shutdown ==> r == Tick::RunAndStop && final(self).elapsed() == old(self).elapsed(),
            !shutdown && old(self).elapsed() == TICKS - 1 ==> r == Tick::Run
                && final(self).elapsed() == 0,
            !shutdown && old(self).elapsed() < TICKS - 1 ==> r == Tick::Wait
                && final(self).elapsed() == old(self).elapsed() + 1,
    {
        proof {
            use_type_invariant(&*self);
        }
        if shutdown {
            return Tick::RunAndStop;
        }
        if self.elapsed == TICKS - 1 {
            self.elapsed = 0;
            Tick::Run
        } else {
            self.elapsed = self.elapsed + 1;
            Tick::Wait
        }
    }
}

/// What becomes of a connection.
#[derive(Clone, Copy, Debug, PartialEq, Eq, Structural)]
pub enum Admission {
    /// It gets a session under this id.
    Serve(u32),
    /// It gets none, and no more are taken: the server is shutting down.
    Close,
}

/// The id behind `last`.
pub open spec fn next_id(last: u32) -> u32 {
    if last == u32::MAX {
        0
    } else {
        (last + 1) as u32
    }
}

/// Hands out session ids.
#[derive(Debug)]
pub struct Acceptor {
    /// The id handed out last.
    pub last_id: u32,
}

impl Acceptor {
    /// No id has been handed out.
    pub fn new() -> (r: Self)
        ensures
            r.last_id == 0,
    {
        Acceptor { last_id: 0 }
    }

    /// A connection has come in. Ids count up from one, and start over behind the largest.
    /// During shutdown it may be the knock that wakes the listener, or a client that raced
    /// it; either way it gets no session.
    pub fn accept(&mut self, shutdown: bool) -> (r: Admission)
        ensures
            shutdown ==> r == Admission::Close && final(self).last_id == old(self).last_id,
            !shutdown ==> r == Admission::Serve(final(self).last_id),
            !shutdown ==> final(self).last_id == next_id(old(self).last_id),
            !shutdown ==> final(self).last_id == (if old(self).last_id == u32::MAX {
                0
            } else {
                old(self).last_id + 1
            }),
    {
        if shutdown {
            return Admission::Close;
        }
        if self.last_id == u32::MAX {
            self.last_id = 0;
        } else {
            self.last_id = self.last_id + 1;
        }
        Admission::Serve(self.last_id)
    }
}

/// `c` is white space.
pub open spec fn is_space(c: char) -> bool {
    ||| '\u{9}' <= c <= '\u{d}'
    ||| c == ' '
    ||| c == '\u{85}'
    ||| c == '\u{a0}'
    ||| c == '\u{1680}'
    ||| '\u{2000}' <= c <= '\u{200a}'
    ||| c == '\u{2028}'
    ||| c == '\u{2029}'
    ||| c == '\u{202f}'
    ||| c == '\u{205f}'
    ||| c == '\u{3000}'
}

/// `s` without the white space at its start.
pub open spec fn trim_start(s: Seq<char>) -> Seq<char>
    decreases s.len(),
{
    if s.len() > 0 && is_space(s[0]) {
        trim_start(s.drop_first())
    } else {
        s
    }
}

/// `s` without the white space at its end.
pub open spec fn trim_end(s: Seq<char>) -> Seq<char>
    decreases s.len(),
{
    if s.len() > 0 && is_space(s.last()) {
        trim_end(s.drop_last())
    } else {
        s
    }
}

/// `c` with the ASCII upper-case letters folded to lower case.
pub open spec fn lower_char(c: char) -> char {
    if 'A' <= c <= 'Z' {
        (c as u32 + 32) as char
    } else {
        c
    }
}

/// A line that asks the server to shut down: `quit` or `exit`, in any case, with any white
/// space around it.
pub open spec fn asks_to_stop(line: Seq<char>) -> bool {
    let word = trim_end(trim_start(line)).map_values(|c: char| lower_char(c));
    word == "quit"@ || word == "exit"@
}

/// `true` if `c` is white space.
fn is_white(c: char) -> (r: bool)
    ensures
        r == is_space(c),
{
    ('\u{9}' <= c && c <= '\u{d}') || c == ' ' || c == '\u{85}' || c == '\u{a0}' || c == '\u{1680}'
        || ('\u{2000}' <= c && c <= '\u{200a}') || c == '\u{2028}' || c == '\u{2029}' || c
        == '\u{202f}' || c == '\u{205f}' || c == '\u{3000}'
}

/// Where the white space at the start of `s` ends.
proof fn trim_start_skips(s: Seq<char>, i: int)
    requires
        0 <= i <= s.len(),
        forall|j: int| 0 <= j < i ==> is_space(#[trigger] s[j]),
        i < s.len() ==> !is_space(s[i]),
    ensures
        trim_start(s) == s.skip(i),
    decreases i,
{
    if i == 0 {
        assert(s.skip(0) =~= s);
    } else {
        assert(is_space(s[0]));
        let rest = s.drop_first();
        assert forall|j: int| 0 <= j < i - 1 implies is_space(#[trigger] rest[j]) by {
            assert(is_space(s[j + 1]));
        }
        trim_start_skips(rest, i - 1);
        assert(rest.skip(i - 1) =~= s.skip(i));
    }
}

/// Where the white space at the end of `s` starts.
proof fn trim_end_takes(s: Seq<char>, i: int)
    requires
        0 <= i <= s.len(),
        forall|j: int| i <= j < s.len() ==> is_space(#[trigger] s[j]),
        i > 0 ==> !is_space(s[i - 1]),
    ensures
        trim_end(s) == s.take(i),
    decreases s.len() - i,
{
    if i == s.len() {
        assert(s.take(i) =~= s);
    } else {
        assert(is_space(s[s.len() - 1]));
        let rest = s.drop_last();
        assert forall|j: int| i <= j < rest.len() implies is_space(#[trigger] rest[j]) by {
            assert(is_space(s[j]));
        }
        trim_end_takes(rest, i);
        assert(rest.take(i) =~= s.take(i));
    }
}

/// `c` is one of the characters that stand for white space.
pub open spec fn is_blank(c: char) -> bool {
    seq![
        '\u{9}',
        '\u{a}',
        '\u{b}',
        '\u{c}',
        '\u{d}',
        '\u{20}',
        '\u{85}',
        '\u{a0}',
        '\u{1680}',
        '\u{2000}',
        '\u{2001}',
        '\u{2002}',
        '\u{2003}',
        '\u{2004}',
        '\u{2005}',
        '\u{2006}',
        '\u{2007}',
        '\u{2008}',
        '\u{2009}',
        '\u{200a}',
        '\u{2028}',
        '\u{2029}',
        '\u{202f}',
        '\u{205f}',
        '\u{3000}',
    ].contains(c)
}

/// These characters are white space, and no others.
proof fn blanks_are_spaces(c: char)
    ensures
        is_space(c) == is_blank(c),
{
    let blanks = seq![
        '\u{9}',
        '\u{a}',
        '\u{b}',
        '\u{c}',
        '\u{d}',
        '\u{20}',
        '\u{85}',
        '\u{a0}',
        '\u{1680}',
        '\u{2000}',
        '\u{2001}',
        '\u{2002}',
        '\u{2003}',
        '\u{2004}',
        '\u{2005}',
        '\u{2006}',
        '\u{2007}',
        '\u{2008}',
        '\u{2009}',
        '\u{200a}',
        '\u{2028}',
        '\u{2029}',
        '\u{202f}',
        '\u{205f}',
        '\u{3000}',
    ];
    if is_space(c) {
        let i: int = if c as u32 <= 0xd {
            c as u32 - 9
        } else if c as u32 == 0x20 {
            5
        } else if c as u32 == 0x85 {
            6
        } else if c as u32 == 0xa0 {
            7
        } else if c as u32 == 0x1680 {
            8
        } else if c as u32 <= 0x200a {
            9 + (c as u32 - 0x2000)
        } else if c as u32 == 0x2028 {
            20
        } else if c as u32 == 0x2029 {
            21
        } else if c as u32 == 0x202f {
            22
        } else if c as u32 == 0x205f {
            23
        } else {
            24
        };
        assert(blanks[i] == c);
    }
    if is_blank(c) {
        let i = choose|i: int| 0 <= i < blanks.len() && blanks[i] == c;
        assert(is_space(blanks[i]));
    }
}

/// `s` spells `word`, which is in lower case, with each letter in whatever case.
pub open spec fn is_word(s: Seq<char>, word: Seq<char>) -> bool {
    &&& s.len() == word.len()
    &&& forall|i: int|
        0 <= i < s.len() ==> #[trigger] s[i] == word[i] || s[i] as u32 + 32 == word[i] as u32
}

/// Where the white space at the start of `s` ends.
proof fn white_space_ends(s: Seq<char>) -> (i: int)
    ensures
        0 <= i <= s.len(),
        forall|j: int| 0 <= j < i ==> is_space(#[trigger] s[j]),
        i < s.len() ==> !is_space(s[i]),
    decreases s.len(),
{
    if s.len() > 0 && is_space(s[0]) {
        let rest = s.drop_first();
        let i = white_space_ends(rest);
        assert forall|j: int| 0 <= j < i + 1 implies is_space(#[trigger] s[j]) by {
            if j > 0 {
                assert(is_space(rest[j - 1]));
            }
        }
        i + 1
    } else {
        0
    }
}

/// Where the white space at the end of `s` starts.
proof fn white_space_starts(s: Seq<char>) -> (i: int)
    ensures
        0 <= i <= s.len(),
        forall|j: int| i <= j < s.len() ==> is_space(#[trigger] s[j]),
        i > 0 ==> !is_space(s[i - 1]),
    decreases s.len(),
{
    if s.len() > 0 && is_space(s.last()) {
        let rest = s.drop_last();
        let i = white_space_starts(rest);
        assert forall|j: int| i <= j < s.len() implies is_space(#[trigger] s[j]) by {
            if j < rest.len() {
                assert(is_space(rest[j]));
            }
        }
        i
    } else {
        s.len() as int
    }
}

/// Folding the case of what spells a word gives the word, and of nothing else.
proof fn folding_finds_the_word(s: Seq<char>, word: Seq<char>)
    requires
        forall|i: int| 0 <= i < word.len() ==> 'a' <= #[trigger] word[i] <= 'z',
    ensures
        is_word(s, word) <==> s.map_values(|c: char| lower_char(c)) == word,
{
    let low = s.map_values(|c: char| lower_char(c));
    if is_word(s, word) {
        assert forall|i: int| 0 <= i < s.len() implies low[i] == word[i] by {
            assert('a' <= word[i] <= 'z');
            assert(s[i] == word[i] || s[i] as u32 + 32 == word[i] as u32);
        }
        assert(low =~= word);
    }
    if low == word {
        assert(low.len() == s.len());
        assert forall|i: int| 0 <= i < s.len() implies #[trigger] s[i] == word[i] || s[i] as u32
            + 32 == word[i] as u32 by {
            assert(low[i] == word[i]);
            assert(low[i] == lower_char(s[i]));
        }
    }
}

/// `line` is the word `quit` or `exit` from `start` up to `end`, in whatever case, and blank
/// before and behind it.
pub open spec fn stands_alone(line: Seq<char>, start: int, end: int) -> bool {
    &&& 0 <= start <= end <= line.len()
    &&& forall|i: int| 0 <= i < start ==> is_blank(#[trigger] line[i])
    &&& forall|i: int| end <= i < line.len() ==> is_blank(#[trigger] line[i])
    &&& is_word(line.subrange(start, end), "quit"@) || is_word(line.subrange(start, end), "exit"@)
}

/// The server is asked to stop by a line that is `quit` or `exit`, in whatever case and with
/// whatever white space around it, and by no other.
pub proof fn quit_and_exit_ask_to_stop(line: Seq<char>)
    ensures
        asks_to_stop(line) <==> exists|start: int, end: int| #[trigger]
            stands_alone(line, start, end),
{
    reveal_strlit("quit");
    reveal_strlit("exit");
    let start = white_space_ends(line);
    trim_start_skips(line, start);
    let rest = line.skip(start);
    let len = white_space_starts(rest);
    trim_end_takes(rest, len);
    let word = rest.take(len);
    assert(word =~= line.subrange(start, start + len));
    folding_finds_the_word(word, "quit"@);
    folding_finds_the_word(word, "exit"@);
    assert forall|i: int| 0 <= i < line.len() implies is_space(#[trigger] line[i]) == is_blank(
        line[i],
    ) by {
        blanks_are_spaces(line[i]);
    }
    if asks_to_stop(line) {
        assert forall|i: int| start + len <= i < line.len() implies is_blank(#[trigger] line[i]) by {
            assert(is_space(rest[i - start]));
        }
        assert(stands_alone(line, start, start + len));
    }
    if exists|a: int, b: int| #[trigger] stands_alone(line, a, b) {
        let (a, b) = choose|a: int, b: int| #[trigger] stands_alone(line, a, b);
        let found = line.subrange(a, b);
        assert(found.len() == 4);
        assert(!is_space(line[a])) by {
            assert(found[0] == line[a]);
        }
        assert(!is_space(line[b - 1])) by {
            assert(found[3] == line[b - 1]);
        }
        if start < a {
            assert(is_blank(line[start]));
        }
        if a < start {
            assert(is_space(line[a]));
        }
        if start + len < b {
            assert(is_space(rest[b - 1 - start]));
        }
        if b < start + len {
            assert(is_blank(line[start + len - 1]));
            assert(rest[len - 1] == line[start + len - 1]);
        }
        assert(found =~= word);
    }
}

/// `true` if `line` asks the server to shut down.
pub fn is_shutdown_line(line: &str) -> (r: bool)
    ensures
        r == asks_to_stop(line@),
{
    let ghost s = line@;
    let n: usize = line.unicode_len();
    let mut start: usize = 0;
    while start < n && is_white(line.get_char(start))
        invariant
            start <= n == line@.len(),
            forall|j: int| 0 <= j < start ==> is_space(#[trigger] line@[j]),
        decreases n - start,
    {
        start = start + 1;
    }
    let mut end: usize = n;
    while start < end && is_white(line.get_char(end - 1))
        invariant
            start <= end <= n,
            n == line@.len(),
            forall|j: int| end <= j < n ==> is_space(#[trigger] line@[j]),
        decreases end - start,
    {
        end = end - 1;
    }
    let ghost word = s.subrange(start as int, end as int);
    let ghost lowered = word.map_values(|c: char| lower_char(c));
    proof {
        trim_start_skips(s, start as int);
        let rest = s.skip(start as int);
        assert forall|j: int| end - start <= j < rest.len() implies is_space(#[trigger] rest[j]) by {
            assert(rest[j] == s[j + start]);
        }
        trim_end_takes(rest, end - start);
        assert(rest.take(end - start) =~= word);
        reveal_strlit("quit");
        reveal_strlit("exit");
    }
    if end - start != 4 {
        assert(lowered.len() != 4);
        return false;
    }
    let a: char = line.get_char(start);
    let b: char = line.get_char(start + 1);
    let c: char = line.get_char(start + 2);
    let d: char = line.get_char(start + 3);
    proof {
        assert(word[0] == a && word[1] == b && word[2] == c && word[3] == d);
        assert(lowered[0] == lower_char(a) && lowered[1] == lower_char(b) && lowered[2]
            == lower_char(c) && lowered[3] == lower_char(d));
        assert(lowered == "quit"@ <==> lower_char(a) == 'q' && lower_char(b) == 'u' && lower_char(c)
            == 'i' && lower_char(d) == 't') by {
            if lower_char(a) == 'q' && lower_char(b) == 'u' && lower_char(c) == 'i' && lower_char(d)
                == 't' {
                assert(lowered =~= "quit"@);
            }
        }
        assert(lowered == "exit"@ <==> lower_char(a) == 'e' && lower_char(b) == 'x' && lower_char(c)
            == 'i' && lower_char(d) == 't') by {
            if lower_char(a) == 'e' && lower_char(b) == 'x' && lower_char(c) == 'i' && lower_char(d)
                == 't' {
                assert(lowered =~= "exit"@);
            }
        }
    }
    let quit: bool = is_letter(a, 'q', 'Q') && is_letter(b, 'u', 'U') && is_letter(c, 'i', 'I')
        && is_letter(d, 't', 'T');
    let exit: bool = is_letter(a, 'e', 'E') && is_letter(b, 'x', 'X') && is_letter(c, 'i', 'I')
        && is_letter(d, 't', 'T');
    quit || exit
}

/// `true` if `c` is a letter, given in lower and upper case.
fn is_letter(c: char, small: char, large: char) -> (r: bool)
    requires
        'a' <= small <= 'z',
        'A' <= large <= 'Z',
        lower_char(large) == small,
    ensures
        r == (lower_char(c) == small),
{
    c == small || c == large
}

} // verus!
