//! Laws of the whole: what is set is got back, the log keeps up with the cache, and a
//! server that starts again finds what was there.

use vstd::prelude::*;

use crate::bytes;
use crate::domain::cache;
use crate::domain::cache::{Cache, CacheError, Data};
use crate::domain::cache_laws;
use crate::domain::command;
use crate::domain::command::cache::read::ReadCommandView;
use crate::domain::command::cache::write::WriteCommandView;
use crate::domain::command::cache::CacheCommandView;
use crate::domain::command::outcome::CommandOutcome;
use crate::domain::command::CommandView;
use crate::domain::ports::{CacheRepository, CacheService, RepositoryError, ServiceError};
use crate::domain::service::Service;
use crate::domain::time;
use crate::domain::time::{Milliseconds, Reading};
use crate::inbound;
use crate::inbound::server;
use crate::inbound::server::{RecoveryError, Tick};
use crate::outbound::persister::aof;
use crate::outbound::persister::aof::AofError;
use crate::outbound::persister::laws as persister_laws;
use crate::outbound::persister::laws::Event;
use crate::outbound::persister::snapshot;
use crate::outbound::persister::snapshot::{RowView, SnapshotError};
use crate::outbound::persister::Persister;
use crate::resp::command as parser;
use crate::resp::command::CommandFromFrameError;
use crate::resp::command_laws;
use crate::resp::frame;
use crate::resp::frame::FrameView;
use crate::resp::frame_laws;
use crate::resp::reply;
use crate::resp::verb_laws;

verus! {

/// The frame of `GET key`.
pub open spec fn get_frame(key: Seq<u8>) -> FrameView {
    FrameView::Array(
        seq![FrameView::BulkString(bytes::text("GET"@)), FrameView::BulkString(key)],
    )
}

/// What is set is got back, byte for byte: whatever bytes key and value are made of, the
/// frames of `SET` and `GET` are read as these commands, and once the first has been
/// carried out the second is answered with the value, as one bulk string.
pub proof fn what_is_set_is_got_back(
    m: Data,
    key: Seq<u8>,
    value: Seq<u8>,
    clock: Reading,
    set_at: Milliseconds,
    now: Milliseconds,
)
    ensures
        ({
            let set = WriteCommandView::SetKey { key, value, expires_at: None };
            let get = ReadCommandView::Get { key };
            let after = cache::written(m, set, set_at).0;
            let outcome = cache::queried(after, get, now).1;
            &&& parser::command_of(frame::write_frame(set), clock) == Ok::<
                CommandView,
                CommandFromFrameError,
            >(command::write(set))
            &&& parser::command_of(get_frame(key), clock) == Ok::<
                CommandView,
                CommandFromFrameError,
            >(command::read(get))
            &&& reply::encode(inbound::reply_to(outcome)) == frame::encode(
                FrameView::BulkString(value),
            )
        }),
{
    command_laws::logged_command_reads_back(
        WriteCommandView::SetKey { key, value, expires_at: None },
        clock,
    );
    cache_laws::get_after_set(m, key, value, None, set_at, now);
    reply::bulk_reply_is_a_frame(value);
    let verb = bytes::text("GET"@);
    reveal_strlit("GET");
    reveal_strlit("get");
    bytes::ascii_text("GET"@);
    verb_laws::get_is_about_its_key(verb, key, clock);
    assert(get_frame(key)->Array_0 =~= verb_laws::request(seq![verb, key])->Array_0);
}

/// The log keeps up with the cache: a command that a service runs and logs is the next
/// event in the cache's history, and the log holds what is logged of that history.
pub proof fn log_keeps_up(
    m: Data,
    events: Seq<Event>,
    before: &Service<Persister>,
    c: CacheCommandView,
    after: &Service<Persister>,
    outcome: CommandOutcome,
)
    requires
        before.cache@ == persister_laws::lived(m, events),
        before.cache_repo.aof.appended() == persister_laws::logged(events),
        Service::<Persister>::ran_logged(
            before,
            c,
            after,
            Ok::<CommandOutcome, ServiceError>(outcome),
        ),
    ensures
        exists|now: Milliseconds|
            {
                let history = #[trigger] events.push(Event::Ran(c, now));
                &&& cache::needs_clock(before.cache@, c) ==> time::is_reading(Ok(now))
                &&& after.cache@ == persister_laws::lived(m, history)
                &&& after.cache_repo.aof.appended() == persister_laws::logged(history)
            },
{
    let now = choose|now: Milliseconds|
        {
            &&& cache::needs_clock(before.cache@, c) ==> time::is_reading(Ok(now))
            &&& (after.cache@, outcome@) == #[trigger] cache::executed(before.cache@, c, now)
        };
    let history = events.push(Event::Ran(c, now));
    assert(history.drop_last() =~= events);
    assert(history.last() == Event::Ran(c, now));
}

/// A server that starts again finds what was there: recovered from the snapshot `m` and
/// the log of what happened since, with a last command torn off anywhere, a key shows what
/// the live cache would have shown.
///
/// As with [`persister_laws::restart_finds_what_was_there`], that is so exactly where the
/// last change to the key left the live cache and the replayed one agreed.
pub proof fn recovery_finds_what_was_there(
    m: Data,
    events: Seq<Event>,
    last: WriteCommandView,
    at: int,
    now: Milliseconds,
    key: Seq<u8>,
)
    requires
        forall|i: int| 0 <= i < events.len() ==> (#[trigger] events[i]).at().0 <= now.0,
        forall|i: int|
            0 <= i < persister_laws::logged(events).len() ==> persister_laws::fits(
                #[trigger] persister_laws::logged(events)[i],
            ),
        persister_laws::fits(last),
        0 <= at < aof::entry(last).len(),
    ensures
        ({
            let cs = persister_laws::logged(events);
            let log = aof::entries(cs) + aof::entry(last).take(at);
            let nows = persister_laws::steady(now, cs.len());
            let found = server::recovered(Some(m), log, now);
            &&& found is Ok
            &&& (cache::lookup(found->Ok_0, key, now) == cache::lookup(
                persister_laws::lived(m, events),
                key,
                now,
            )) == persister_laws::last_change_agrees(m, events, nows, now, key)
        }),
{
    let cs = persister_laws::logged(events);
    let torn = aof::entry(last).take(at);
    let log = aof::entries(cs) + torn;
    let nows = persister_laws::steady(now, cs.len());
    let readings = aof::steady(now, log.len());
    persister_laws::entries_outnumber(cs);
    assert(log.len() >= cs.len());
    persister_laws::torn_append_costs_one_command(m, cs, last, at, nows, readings);
    persister_laws::restart_finds_what_was_there(m, events, nows, now, key);
}

/// How many ticks of the interval have passed after `n` ticks without a shutdown.
pub open spec fn elapsed_after(n: nat) -> u32
    decreases n,
{
    if n == 0 {
        0
    } else {
        server::ticked(elapsed_after((n - 1) as nat), false).0
    }
}

/// A background task runs every ten seconds: after the tick that completes them, and after no
/// other.
pub proof fn tasks_run_every_ten_seconds(n: nat)
    requires
        n > 0,
    ensures
        server::TICK_MILLIS == 100,
        server::ticked(elapsed_after((n - 1) as nat), false).1 == (if n * server::TICK_MILLIS
            % 10000 == 0 {
            Tick::Run
        } else {
            Tick::Wait
        }),
        elapsed_after(n) == n % 100,
    decreases n,
{
    if n > 1 {
        tasks_run_every_ten_seconds((n - 1) as nat);
    }
    assert(elapsed_after((n - 1) as nat) == (n - 1) % 100);
}

/// On shutdown a background task runs once more, wherever in its interval it is, and ends.
pub proof fn tasks_run_once_more_on_shutdown(elapsed: u32)
    ensures
        server::ticked(elapsed, true).1 == Tick::RunAndStop,
{
}

/// The id of the `n`th session.
pub open spec fn nth_id(n: nat) -> u32
    decreases n,
{
    if n == 0 {
        0
    } else {
        server::next_id(nth_id((n - 1) as nat))
    }
}

/// Session ids count up from one, and start over only behind the largest.
pub proof fn session_ids_count_up(n: nat)
    ensures
        nth_id(n) == n % 0x1_0000_0000,
    decreases n,
{
    if n > 0 {
        session_ids_count_up((n - 1) as nat);
    }
}

/// Recovery goes by what is on disk: without a snapshot that loads there is none, and
/// otherwise the log's changes are carried out on what the snapshot holds, in order, and what
/// has expired by then is left out.
pub proof fn recovery_replays_the_log_on_the_snapshot(
    m: Data,
    cs: Seq<WriteCommandView>,
    now: Milliseconds,
    key: Seq<u8>,
)
    requires
        forall|i: int| 0 <= i < cs.len() ==> persister_laws::fits(#[trigger] cs[i]),
    ensures
        server::recovered(None, aof::entries(cs), now) == Err::<Data, Option<AofError>>(None),
        ({
            let found = server::recovered(Some(m), aof::entries(cs), now);
            let replayed = persister_laws::applied_all(
                m,
                cs,
                persister_laws::steady(now, cs.len()),
            );
            &&& found is Ok
            &&& found->Ok_0.dom().contains(key) == cache_laws::is_live(replayed, key, now)
            &&& found->Ok_0.dom().contains(key) ==> found->Ok_0[key] == replayed[key]
        }),
{
    let log = aof::entries(cs);
    let none = Seq::<u8>::empty();
    let nows = persister_laws::steady(now, cs.len());
    let readings = aof::steady(now, log.len());
    persister_laws::entries_outnumber(cs);
    frame_laws::no_bytes_are_incomplete();
    assert(log + none =~= log);
    frame_laws::other_headers_are_refused(none, none);
    persister_laws::log_replays_in_order(m, cs, none, nows, readings);
    let replayed = persister_laws::applied_all(m, cs, nows);
    cache_laws::sweep_keeps_what_is_live(replayed, now);
    let found = cache::unexpired(replayed, now);
    assert(found.dom().contains(key) == cache_laws::is_live(replayed, key, now));
}

/// What is recovered is what the replay led to, less what has expired at a reading of the
/// clock; a replay that stopped, or a clock that fails, is passed on.
pub proof fn recovery_sweeps_what_the_replay_led_to(
    data: Data,
    replay: Result<(), AofError>,
    r: Result<Cache, RecoveryError>,
)
    requires
        server::swept_to((data, replay), r),
    ensures
        replay matches Err(e) ==> r == Err::<Cache, RecoveryError>(RecoveryError::Aof(e)),
        replay is Ok ==> match r {
            Ok(found) => exists|now: Milliseconds|
                {
                    &&& time::is_reading(Ok(now))
                    &&& #[trigger] holds_what_is_live(found@, data, now)
                },
            Err(RecoveryError::Cache(CacheError::SystemTime(e))) => time::is_reading(Err(e)),
            Err(_) => false,
        },
{
    if replay is Ok {
        if let Ok(found) = r {
            let now = choose|now: Milliseconds|
                time::is_reading(Ok(now)) && found@ == #[trigger] cache::unexpired(data, now);
            cache_laws::sweep_keeps_what_is_live(data, now);
            assert forall|key: Seq<u8>| #[trigger] found@.dom().contains(key)
                == cache_laws::is_live(data, key, now) by {
                assert(cache::unexpired(data, now).dom().contains(key) == cache_laws::is_live(
                    data,
                    key,
                    now,
                ));
            }
            assert(holds_what_is_live(found@, data, now));
        }
    }
}

/// `found` holds exactly the keys of `data` that can be seen at `now`, as they are.
pub open spec fn holds_what_is_live(found: Data, data: Data, now: Milliseconds) -> bool {
    &&& forall|key: Seq<u8>| #[trigger]
        found.dom().contains(key) == cache_laws::is_live(data, key, now)
    &&& forall|key: Seq<u8>| #[trigger] found.dom().contains(key) ==> found[key] == data[key]
}

/// A snapshot makes the log redundant: recovered from it, with the log that it emptied, a
/// server finds what the cache held, less what has expired by then.
pub proof fn a_snapshot_covers_for_the_log(
    before: &Persister,
    cache: &Cache,
    after: &Persister,
    r: Result<(), RepositoryError>,
    now: Milliseconds,
    key: Seq<u8>,
)
    requires
        Persister::snapshotted(before, cache, after, r),
        r is Ok,
    ensures
        ({
            let found = server::recovered(
                snapshot::contents(after.snapshot@),
                after.aof@,
                now,
            );
            &&& found is Ok
            &&& found->Ok_0.dom().contains(key) == cache_laws::is_live(cache@, key, now)
            &&& found->Ok_0.dom().contains(key) ==> found->Ok_0[key] == cache@[key]
        }),
{
    let none = Seq::<WriteCommandView>::empty();
    recovery_replays_the_log_on_the_snapshot(cache@, none, now, key);
    assert(aof::entries(none) == Seq::<u8>::empty());
    assert(persister_laws::applied_all(cache@, none, persister_laws::steady(now, 0)) == cache@);
}

/// A snapshot that is refused leaves the one before it, and the log, as they were.
pub proof fn a_refused_snapshot_loses_nothing(
    before: &Persister,
    cache: &Cache,
    after: &Persister,
    r: Result<(), RepositoryError>,
)
    requires
        Persister::snapshotted(before, cache, after, r),
        r is Err,
    ensures
        after.snapshot@ == before.snapshot@,
        after.aof@ == before.aof@,
{
}

/// A change that is logged stands at the end of the log, as the request that a client would
/// have sent; what stood there before, and the snapshot, stay. The log refuses none.
pub proof fn a_logged_change_stands_at_the_end(
    before: &Persister,
    c: WriteCommandView,
    after: &Persister,
    e: RepositoryError,
)
    requires
        Persister::logged(before, c, after),
    ensures
        after.aof@ == before.aof@ + frame::encode(persister_laws::as_request(c)),
        after.snapshot == before.snapshot,
        !Persister::refused_with(before, c, e),
{
    persister_laws::changes_are_logged_as_requests(c);
}

/// What was snapshotted and what was logged since is what a server finds again: recovered
/// from the rows of a snapshot and the log of some changes, by one reading of the clock, the
/// cache holds what carrying out these changes on these rows leads to, less what has expired.
pub proof fn what_was_kept_is_recovered(
    rows: Seq<RowView>,
    cs: Seq<WriteCommandView>,
    now: Milliseconds,
    r: Result<Cache, RecoveryError>,
)
    requires
        snapshot::within_limits(rows),
        forall|i: int| 0 <= i < cs.len() ==> persister_laws::fits(#[trigger] cs[i]),
        server::is_recovery_at(snapshot::encoded_rows(rows), aof::entries(cs), now, r),
    ensures
        r is Ok,
        holds_what_is_live(
            r->Ok_0@,
            persister_laws::applied_all(
                snapshot::map_of_rows(rows),
                cs,
                persister_laws::steady(now, cs.len()),
            ),
            now,
        ),
{
    let m = snapshot::map_of_rows(rows);
    let stored = snapshot::encoded_rows(rows);
    assert(stored + Seq::<u8>::empty() =~= stored);
    snapshot::stored_rows_are_found(rows, Seq::empty());
    let data = persister_laws::applied_all(m, cs, persister_laws::steady(now, cs.len()));
    assert forall|key: Seq<u8>| #[trigger] r->Ok_0@.dom().contains(key) == cache_laws::is_live(
        data,
        key,
        now,
    ) by {
        recovery_replays_the_log_on_the_snapshot(m, cs, now, key);
    }
    assert forall|key: Seq<u8>| #[trigger] r->Ok_0@.dom().contains(key) implies r->Ok_0@[key]
        == data[key] by {
        recovery_replays_the_log_on_the_snapshot(m, cs, now, key);
    }
    recovery_replays_the_log_on_the_snapshot(m, cs, now, Seq::empty());
}

/// A server that reads the clock as it recovers goes by what it said: recovered from the rows
/// of a snapshot and the log of some changes, the cache holds what a replay by some readings
/// leads to, less what has expired at another; it fails only with the clock. A snapshot that
/// does not load is reported as such.
pub proof fn recovery_goes_by_the_clock(
    rows: Seq<RowView>,
    tail: Seq<u8>,
    log: Seq<u8>,
    r: Result<Cache, RecoveryError>,
)
    requires
        snapshot::within_limits(rows),
        server::is_recovery(snapshot::encoded_rows(rows) + tail, log, r),
    ensures
        exists|readings: Seq<(Reading, Reading)>|
            {
                let replay = #[trigger] aof::replayed(log, snapshot::map_of_rows(rows), readings);
                &&& aof::were_read(log, snapshot::map_of_rows(rows), readings)
                &&& server::swept_to(replay, r)
            },
{
    snapshot::stored_rows_are_found(rows, tail);
    let m = snapshot::map_of_rows(rows);
    let readings = choose|readings: Seq<(Reading, Reading)>|
        {
            &&& aof::were_read(log, m, readings)
            &&& #[trigger] server::swept_to(aof::replayed(log, m, readings), r)
        };
    assert(server::swept_to(aof::replayed(log, m, readings), r));
}

/// A snapshot that does not load stops recovery, whatever the log holds.
pub proof fn an_unreadable_snapshot_stops_recovery(
    stored: Seq<u8>,
    log: Seq<u8>,
    now: Milliseconds,
    r: Result<Cache, RecoveryError>,
)
    requires
        stored.len() > 0,
        forall|rows: Seq<RowView>| !#[trigger] snapshot::starts_with_rows(stored, rows),
        server::is_recovery(stored, log, r) || server::is_recovery_at(stored, log, now, r),
    ensures
        r matches Err(RecoveryError::Snapshot(SnapshotError::Read(_))),
{
}

} // verus!
