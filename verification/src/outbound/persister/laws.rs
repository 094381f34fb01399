//! Laws of persistence: the log replays to what it logged, a torn tail costs the torn
//! command only, and a restart finds what was there.

use vstd::prelude::*;

use crate::bytes;
use crate::decimal;
use crate::domain::cache;
use crate::domain::cache::{CacheError, Data, EntryView};
use crate::domain::cache_laws;
use crate::domain::command::cache::write::WriteCommandView;
use crate::domain::command::cache::CacheCommandView;
use crate::domain::command::CommandView;
use crate::domain::time;
use crate::domain::time::{Milliseconds, Reading};
use crate::outbound::persister::aof;
use crate::outbound::persister::aof::AofError;
use crate::resp::command as parser;
use crate::resp::command_laws;
use crate::resp::frame;
use crate::resp::frame::{FrameError, FrameView};
use crate::resp::frame_laws;
use crate::resp::verb_laws;

verus! {

/// What carrying out `cs` one after the other does to the data, the `i`th at `nows[i]`.
pub open spec fn applied_all(
    m: Data,
    cs: Seq<WriteCommandView>,
    nows: Seq<Milliseconds>,
) -> Data
    decreases cs.len(),
{
    if cs.len() == 0 {
        m
    } else {
        cache::written(applied_all(m, cs.drop_last(), nows), cs.last(), nows[cs.len() - 1]).0
    }
}

/// The lengths in `c` fit a `usize`, as those of every command in memory do.
pub open spec fn fits(c: WriteCommandView) -> bool {
    match c {
        WriteCommandView::SetKey { key, value, .. } => key.len() <= usize::MAX && value.len()
            <= usize::MAX,
        WriteCommandView::Delete { key } => key.len() <= usize::MAX,
        WriteCommandView::ExpireAt { key, .. } => key.len() <= usize::MAX,
        WriteCommandView::Persist { key } => key.len() <= usize::MAX,
    }
}

proof fn short_frames_fit(frames: Seq<FrameView>)
    requires
        frames.len() <= 5,
        forall|i: int|
            0 <= i < frames.len() ==> (#[trigger] frames[i]) is BulkString
                && frames[i]->BulkString_0.len() <= usize::MAX,
    ensures
        frame::all_fit(frames),
    decreases frames.len(),
{
    if frames.len() > 0 {
        let rest = frames.drop_first();
        assert forall|i: int| 0 <= i < rest.len() implies (#[trigger] rest[i]) is BulkString
            && rest[i]->BulkString_0.len() <= usize::MAX by {
            assert(rest[i] == frames[i + 1]);
        }
        assert(frames[0] is BulkString);
        assert(frame::fits(frames[0]));
        short_frames_fit(rest);
    }
}

proof fn deadline_digits_fit(n: u64)
    ensures
        decimal::digits(n as nat).len() <= 20,
{
    reveal_with_fuel(decimal::digits, 20);
}

/// The frame of a change that fits does so too.
proof fn write_frame_fits(c: WriteCommandView)
    requires
        fits(c),
    ensures
        frame::fits(frame::write_frame(c)),
{
    command_laws::log_words();
    let frames = frame::write_frame(c)->Array_0;
    match c {
        WriteCommandView::SetKey { expires_at: Some(t), .. } => {
            deadline_digits_fit(t.0);
        },
        WriteCommandView::ExpireAt { expires_at, .. } => {
            deadline_digits_fit(expires_at.0);
        },
        _ => {},
    }
    short_frames_fit(frames);
}

/// The log of several changes starts with the first of them.
proof fn entries_from_first(cs: Seq<WriteCommandView>)
    requires
        cs.len() > 0,
    ensures
        aof::entries(cs) == aof::entry(cs[0]) + aof::entries(cs.drop_first()),
    decreases cs.len(),
{
    let rest = cs.drop_first();
    if cs.len() == 1 {
        assert(cs.drop_last() =~= Seq::<WriteCommandView>::empty());
        assert(rest =~= Seq::<WriteCommandView>::empty());
        assert(aof::entries(cs) =~= aof::entry(cs[0]) + aof::entries(rest));
    } else {
        entries_from_first(cs.drop_last());
        assert(cs.drop_last().drop_first() =~= rest.drop_last());
        assert(aof::entries(cs) =~= aof::entry(cs[0]) + aof::entries(rest));
    }
}

/// Carrying out several changes starts with the first of them.
proof fn applied_from_first(m: Data, cs: Seq<WriteCommandView>, nows: Seq<Milliseconds>)
    requires
        cs.len() > 0,
        nows.len() == cs.len(),
    ensures
        applied_all(m, cs, nows) == applied_all(
            cache::written(m, cs[0], nows[0]).0,
            cs.drop_first(),
            nows.drop_first(),
        ),
    decreases cs.len(),
{
    let first = cache::written(m, cs[0], nows[0]).0;
    let rest = cs.drop_first();
    if cs.len() == 1 {
        assert(cs.drop_last() =~= Seq::<WriteCommandView>::empty());
        assert(rest =~= Seq::<WriteCommandView>::empty());
        assert(applied_all(m, cs.drop_last(), nows) == m);
        assert(applied_all(first, rest, nows.drop_first()) == first);
    } else {
        let front = cs.drop_last();
        applied_prefix(m, front, nows, nows.drop_last());
        applied_from_first(m, front, nows.drop_last());
        assert(front.drop_first() =~= rest.drop_last());
        applied_prefix(first, rest.drop_last(), nows.drop_first(), nows.drop_last().drop_first());
        assert(rest.last() == cs.last());
        assert(nows.drop_first()[rest.len() - 1] == nows[cs.len() - 1]);
    }
}

/// Only the readings of the changes carried out count.
proof fn applied_prefix(
    m: Data,
    cs: Seq<WriteCommandView>,
    a: Seq<Milliseconds>,
    b: Seq<Milliseconds>,
)
    requires
        a.len() >= cs.len(),
        b.len() >= cs.len(),
        forall|i: int| 0 <= i < cs.len() ==> #[trigger] a[i] == b[i],
    ensures
        applied_all(m, cs, a) == applied_all(m, cs, b),
    decreases cs.len(),
{
    if cs.len() > 0 {
        applied_prefix(m, cs.drop_last(), a, b);
        assert(a[cs.len() - 1] == b[cs.len() - 1]);
    }
}

/// Replaying a log carries out the changes it logged, in order, and stops cleanly at a
/// tail that breaks off.
pub proof fn log_replays_in_order(
    m: Data,
    cs: Seq<WriteCommandView>,
    torn: Seq<u8>,
    nows: Seq<Milliseconds>,
    readings: Seq<(Reading, Reading)>,
)
    requires
        forall|i: int| 0 <= i < cs.len() ==> fits(#[trigger] cs[i]),
        frame::streamed(torn) matches Err(FrameError::Incomplete),
        nows.len() == cs.len(),
        readings.len() >= cs.len(),
        forall|i: int| 0 <= i < cs.len() ==> (#[trigger] readings[i]).1 == Ok::<
            Milliseconds,
            std::time::SystemTimeError,
        >(nows[i]),
    ensures
        aof::replayed(aof::entries(cs) + torn, m, readings).0 == applied_all(m, cs, nows),
        aof::replayed(aof::entries(cs) + torn, m, readings).1 is Ok,
    decreases cs.len(),
{
    if cs.len() == 0 {
        assert(aof::entries(cs) + torn =~= torn);
    } else {
        let c = cs[0];
        let rest = cs.drop_first();
        let tail = aof::entries(rest) + torn;
        entries_from_first(cs);
        assert(aof::entries(cs) + torn =~= aof::entry(c) + tail);
        write_frame_fits(c);
        frame_laws::streaming_undoes_encode(frame::write_frame(c), tail);
        let (lift, run) = readings[0];
        command_laws::logged_command_reads_back(c, lift);
        let cc = CacheCommandView::Write(c);
        assert(readings[0].1 == Ok::<Milliseconds, std::time::SystemTimeError>(nows[0]));
        if !cache::needs_clock(m, cc) {
            cache::clockless_commands(m, cc, nows[0], Milliseconds(0));
        }
        let next = cache::written(m, c, nows[0]).0;
        assert(aof::applied(m, cc, run) == Ok::<Data, std::time::SystemTimeError>(next));
        assert forall|i: int| 0 <= i < rest.len() implies fits(#[trigger] rest[i]) by {
            assert(fits(cs[i + 1]));
        }
        let later = readings.drop_first();
        assert forall|i: int| 0 <= i < rest.len() implies (#[trigger] later[i]).1 == Ok::<
            Milliseconds,
            std::time::SystemTimeError,
        >(nows.drop_first()[i]) by {
            assert(readings[i + 1].1 == Ok::<Milliseconds, std::time::SystemTimeError>(
                nows[i + 1],
            ));
        }
        log_replays_in_order(next, rest, torn, nows.drop_first(), later);
        applied_from_first(m, cs, nows);
    }
}

/// A command cut short by a crash costs that command only: wherever the cut falls, replay
/// carries out everything logged before it.
pub proof fn torn_append_costs_one_command(
    m: Data,
    cs: Seq<WriteCommandView>,
    last: WriteCommandView,
    at: int,
    nows: Seq<Milliseconds>,
    readings: Seq<(Reading, Reading)>,
)
    requires
        forall|i: int| 0 <= i < cs.len() ==> fits(#[trigger] cs[i]),
        fits(last),
        0 <= at < aof::entry(last).len(),
        nows.len() == cs.len(),
        readings.len() >= cs.len(),
        forall|i: int| 0 <= i < cs.len() ==> (#[trigger] readings[i]).1 == Ok::<
            Milliseconds,
            std::time::SystemTimeError,
        >(nows[i]),
    ensures
        ({
            let s = aof::entries(cs) + aof::entry(last).take(at);
            &&& aof::replayed(s, m, readings).0 == applied_all(m, cs, nows)
            &&& aof::replayed(s, m, readings).1 is Ok
        }),
{
    write_frame_fits(last);
    frame_laws::cut_frame_is_incomplete(frame::write_frame(last), at);
    log_replays_in_order(m, cs, aof::entry(last).take(at), nows, readings);
}

/// Something that happened to a live cache.
pub enum Event {
    /// A command was carried out.
    Ran(CacheCommandView, Milliseconds),
    /// What had expired was swept.
    Swept(Milliseconds),
}

impl Event {
    /// When it happened.
    pub open spec fn at(self) -> Milliseconds {
        match self {
            Event::Ran(_, now) => now,
            Event::Swept(now) => now,
        }
    }
}

/// What the data is after all that happened, oldest first.
pub open spec fn lived(m: Data, events: Seq<Event>) -> Data
    decreases events.len(),
{
    if events.len() == 0 {
        m
    } else {
        let before = lived(m, events.drop_last());
        match events.last() {
            Event::Ran(c, now) => cache::executed(before, c, now).0,
            Event::Swept(now) => cache::unexpired(before, now),
        }
    }
}

/// What was logged of all that happened: the changes, oldest first.
pub open spec fn logged(events: Seq<Event>) -> Seq<WriteCommandView>
    decreases events.len(),
{
    if events.len() == 0 {
        Seq::empty()
    } else {
        let before = logged(events.drop_last());
        match events.last() {
            Event::Ran(CacheCommandView::Write(c), _) => before.push(c),
            _ => before,
        }
    }
}

/// `c` moves a key's deadline to where it has not passed at `now`, or takes it off.
pub open spec fn revives(c: WriteCommandView, now: Milliseconds) -> bool {
    match c {
        WriteCommandView::ExpireAt { expires_at, .. } => !expires_at.passed_at(now),
        WriteCommandView::Persist { .. } => true,
        _ => false,
    }
}

/// At the last change to `key`, if it revived the key, the live cache and the replayed one
/// agreed on whether the key was there.
pub open spec fn last_change_agrees(
    m: Data,
    events: Seq<Event>,
    nows: Seq<Milliseconds>,
    now: Milliseconds,
    key: Seq<u8>,
) -> bool
    decreases events.len(),
{
    if events.len() == 0 {
        true
    } else {
        let earlier = events.drop_last();
        match events.last() {
            Event::Ran(CacheCommandView::Write(c), _) => if cache_laws::key_of(c) == key {
                revives(c, now) ==> lived(m, earlier).dom().contains(key) == applied_all(
                    m,
                    logged(earlier),
                    nows,
                ).dom().contains(key)
            } else {
                last_change_agrees(m, earlier, nows, now, key)
            },
            _ => last_change_agrees(m, earlier, nows, now, key),
        }
    }
}

/// There is no entry, or its deadline has passed.
spec fn gone(e: Option<EntryView>, now: Milliseconds) -> bool {
    match e {
        Some(e) => e.expired(now),
        None => true,
    }
}

/// Where the live cache and the replayed one both hold a key, they hold the same value.
proof fn values_agree(m: Data, events: Seq<Event>, nows: Seq<Milliseconds>, key: Seq<u8>)
    ensures
        ({
            let a = cache::entry(lived(m, events), key);
            let b = cache::entry(applied_all(m, logged(events), nows), key);
            a is Some && b is Some ==> a->Some_0.value == b->Some_0.value
        }),
    decreases events.len(),
{
    if events.len() > 0 {
        let earlier = events.drop_last();
        values_agree(m, earlier, nows, key);
        let live = lived(m, earlier);
        let replayed = applied_all(m, logged(earlier), nows);
        match events.last() {
            Event::Ran(CacheCommandView::Write(c), at) => {
                assert(logged(events).drop_last() =~= logged(earlier));
                let reading = nows[logged(events).len() - 1];
                if key != cache_laws::key_of(c) {
                    cache_laws::other_keys_stay(live, CacheCommandView::Write(c), key, at);
                    cache_laws::other_keys_stay(replayed, CacheCommandView::Write(c), key, reading);
                }
            },
            Event::Ran(CacheCommandView::Read(c), at) => {
                if key != cache_laws::key_read(c) {
                    cache_laws::other_keys_stay(live, CacheCommandView::Read(c), key, at);
                }
            },
            Event::Swept(at) => {},
        }
    }
}

/// What the last change to a key settles: the same entry in both caches or none that can be
/// seen, or else an entry that can be seen in just one of them.
proof fn last_change_settles(
    m: Data,
    events: Seq<Event>,
    nows: Seq<Milliseconds>,
    now: Milliseconds,
    key: Seq<u8>,
)
    requires
        forall|i: int| 0 <= i < events.len() ==> (#[trigger] events[i]).at().0 <= now.0,
        nows.len() >= logged(events).len(),
        forall|i: int| 0 <= i < nows.len() ==> (#[trigger] nows[i]).0 <= now.0,
    ensures
        ({
            let a = cache::entry(lived(m, events), key);
            let b = cache::entry(applied_all(m, logged(events), nows), key);
            if last_change_agrees(m, events, nows, now, key) {
                a == b || gone(a, now) && gone(b, now)
            } else {
                a is None && !gone(b, now) || b is None && !gone(a, now)
            }
        }),
    decreases events.len(),
{
    if events.len() > 0 {
        let earlier = events.drop_last();
        assert forall|i: int| 0 <= i < earlier.len() implies (#[trigger] earlier[i]).at().0
            <= now.0 by {
            assert(earlier[i] == events[i]);
        }
        last_change_settles(m, earlier, nows, now, key);
        values_agree(m, earlier, nows, key);
        let live = lived(m, earlier);
        let replayed = applied_all(m, logged(earlier), nows);
        let last = events[events.len() - 1];
        assert(last.at().0 <= now.0);
        match last {
            Event::Ran(CacheCommandView::Write(c), at) => {
                assert(logged(events).drop_last() =~= logged(earlier));
                let reading = nows[logged(events).len() - 1];
                assert(reading.0 <= now.0);
                if key != cache_laws::key_of(c) {
                    cache_laws::other_keys_stay(live, CacheCommandView::Write(c), key, at);
                    cache_laws::other_keys_stay(replayed, CacheCommandView::Write(c), key, reading);
                }
            },
            Event::Ran(CacheCommandView::Read(c), at) => {
                if key != cache_laws::key_read(c) {
                    cache_laws::other_keys_stay(live, CacheCommandView::Read(c), key, at);
                }
            },
            Event::Swept(at) => {},
        }
    }
}

/// A restart finds what was there: from the time of the replay on, a read of a key in the
/// replayed cache sees what it would have seen in the live one.
///
/// That is so exactly where [`last_change_agrees`]. It fails where the last change to the
/// key moved or took off its deadline, and an earlier deadline, which only one of the two
/// caches saw pass in time, had made that cache drop the key.
pub proof fn restart_finds_what_was_there(
    m: Data,
    events: Seq<Event>,
    nows: Seq<Milliseconds>,
    now: Milliseconds,
    key: Seq<u8>,
)
    requires
        forall|i: int| 0 <= i < events.len() ==> (#[trigger] events[i]).at().0 <= now.0,
        nows.len() >= logged(events).len(),
        forall|i: int| 0 <= i < nows.len() ==> (#[trigger] nows[i]).0 <= now.0,
    ensures
        (cache::lookup(applied_all(m, logged(events), nows), key, now) == cache::lookup(
            lived(m, events),
            key,
            now,
        )) == last_change_agrees(m, events, nows, now, key),
{
    last_change_settles(m, events, nows, now, key);
    values_agree(m, events, nows, key);
}

/// No entry of `m` has expired at `now`.
pub open spec fn nothing_expired(m: Data, now: Milliseconds) -> bool {
    forall|key: Seq<u8>| #[trigger] m.dom().contains(key) ==> !m[key].expired(now)
}

/// The deadline that `c` sets, if any, has not passed at `now`.
pub open spec fn deadline_ahead(c: WriteCommandView, now: Milliseconds) -> bool {
    match c {
        WriteCommandView::SetKey { expires_at: Some(t), .. } => !t.passed_at(now),
        WriteCommandView::ExpireAt { expires_at, .. } => !expires_at.passed_at(now),
        _ => true,
    }
}

/// While no deadline passes, replaying the log rebuilds the live cache exactly.
pub proof fn replay_is_exact_while_no_deadline_passes(
    m: Data,
    events: Seq<Event>,
    nows: Seq<Milliseconds>,
    now: Milliseconds,
)
    requires
        nothing_expired(m, now),
        forall|i: int| 0 <= i < logged(events).len() ==> deadline_ahead(
            #[trigger] logged(events)[i],
            now,
        ),
        forall|i: int| 0 <= i < events.len() ==> (#[trigger] events[i]).at().0 <= now.0,
        nows.len() >= logged(events).len(),
        forall|i: int| 0 <= i < nows.len() ==> (#[trigger] nows[i]).0 <= now.0,
    ensures
        applied_all(m, logged(events), nows) == lived(m, events),
        nothing_expired(lived(m, events), now),
    decreases events.len(),
{
    if events.len() > 0 {
        let earlier = events.drop_last();
        assert forall|i: int| 0 <= i < earlier.len() implies (#[trigger] earlier[i]).at().0
            <= now.0 by {
            assert(earlier[i] == events[i]);
        }
        assert forall|i: int| 0 <= i < logged(earlier).len() implies deadline_ahead(
            #[trigger] logged(earlier)[i],
            now,
        ) by {
            assert(logged(events)[i] == logged(earlier)[i]);
        }
        replay_is_exact_while_no_deadline_passes(m, earlier, nows, now);
        let live = lived(m, earlier);
        let last = events[events.len() - 1];
        assert(last.at().0 <= now.0);
        match last {
            Event::Ran(CacheCommandView::Write(c), at) => {
                assert(logged(events).drop_last() =~= logged(earlier));
                let reading = nows[logged(events).len() - 1];
                assert(reading.0 <= now.0);
                assert(deadline_ahead(logged(events)[logged(events).len() - 1], now));
                assert(cache::written(live, c, reading).0 == cache::written(live, c, at).0);
            },
            Event::Ran(CacheCommandView::Read(c), at) => {
                assert(cache::queried(live, c, at).0 == live);
            },
            Event::Swept(at) => {
                assert(cache::unexpired(live, at) =~= live);
            },
        }
    }
}

/// `n` times the reading `now`.
pub open spec fn steady(now: Milliseconds, n: nat) -> Seq<Milliseconds> {
    Seq::new(n, |i: int| now)
}

/// A log has at least as many bytes as changes.
pub proof fn entries_outnumber(cs: Seq<WriteCommandView>)
    ensures
        aof::entries(cs).len() >= cs.len(),
    decreases cs.len(),
{
    if cs.len() > 0 {
        entries_outnumber(cs.drop_last());
    }
}

/// `c` fixes what stands under its key at `now`, whatever stood there before.
pub open spec fn resets(c: WriteCommandView, now: Milliseconds) -> bool {
    match c {
        WriteCommandView::SetKey { .. } => true,
        WriteCommandView::Delete { .. } => true,
        WriteCommandView::ExpireAt { expires_at, .. } => expires_at.passed_at(now),
        WriteCommandView::Persist { .. } => false,
    }
}

/// One of `cs`, the `i`th at `nows[i]`, fixes what stands under `key`.
pub open spec fn any_resets(
    cs: Seq<WriteCommandView>,
    nows: Seq<Milliseconds>,
    key: Seq<u8>,
) -> bool
    decreases cs.len(),
{
    cs.len() > 0 && (any_resets(cs.drop_last(), nows, key) || (cache_laws::key_of(cs.last()) == key
        && resets(cs.last(), nows[cs.len() - 1])))
}

/// One of `cs` is about `key`.
spec fn any_touches(cs: Seq<WriteCommandView>, key: Seq<u8>) -> bool
    decreases cs.len(),
{
    cs.len() > 0 && (any_touches(cs.drop_last(), key) || cache_laws::key_of(cs.last()) == key)
}

/// Where one of the changes fixes a key, what stood there before does not count.
proof fn reset_forgets(
    a: Data,
    b: Data,
    cs: Seq<WriteCommandView>,
    nows: Seq<Milliseconds>,
    key: Seq<u8>,
)
    requires
        any_resets(cs, nows, key),
    ensures
        cache::entry(applied_all(a, cs, nows), key) == cache::entry(applied_all(b, cs, nows), key),
    decreases cs.len(),
{
    let front = cs.drop_last();
    let c = cs.last();
    let reading = nows[cs.len() - 1];
    let x = applied_all(a, front, nows);
    let y = applied_all(b, front, nows);
    if any_resets(front, nows, key) {
        reset_forgets(a, b, front, nows, key);
        if cache_laws::key_of(c) != key {
            cache_laws::other_keys_stay(x, CacheCommandView::Write(c), key, reading);
            cache_laws::other_keys_stay(y, CacheCommandView::Write(c), key, reading);
        }
    }
}

/// Where none of the changes fixes a key, it stays if it was there, with its value; and
/// once a change is about it, its deadline no longer depends on what it was.
proof fn without_reset(
    a: Data,
    b: Data,
    cs: Seq<WriteCommandView>,
    nows: Seq<Milliseconds>,
    key: Seq<u8>,
)
    requires
        !any_resets(cs, nows, key),
    ensures
        ({
            let before = cache::entry(a, key);
            let after = cache::entry(applied_all(a, cs, nows), key);
            let other = cache::entry(applied_all(b, cs, nows), key);
            &&& before is Some == after is Some
            &&& before is Some ==> before->Some_0.value == after->Some_0.value
            &&& !any_touches(cs, key) ==> before == after
            &&& any_touches(cs, key) && after is Some && other is Some ==> after->Some_0.expires_at
                == other->Some_0.expires_at
        }),
    decreases cs.len(),
{
    if cs.len() > 0 {
        let front = cs.drop_last();
        let c = cs.last();
        let reading = nows[cs.len() - 1];
        without_reset(a, b, front, nows, key);
        without_reset(b, a, front, nows, key);
        let x = applied_all(a, front, nows);
        let y = applied_all(b, front, nows);
        if cache_laws::key_of(c) != key {
            cache_laws::other_keys_stay(x, CacheCommandView::Write(c), key, reading);
            cache_laws::other_keys_stay(y, CacheCommandView::Write(c), key, reading);
        }
    }
}

/// Replaying changes that the data already holds changes nothing, by the same readings of
/// the clock.
pub proof fn replaying_again_changes_nothing(
    m: Data,
    cs: Seq<WriteCommandView>,
    nows: Seq<Milliseconds>,
)
    ensures
        applied_all(applied_all(m, cs, nows), cs, nows) == applied_all(m, cs, nows),
{
    let held = applied_all(m, cs, nows);
    let again = applied_all(held, cs, nows);
    assert forall|key: Seq<u8>| #[trigger] cache::entry(again, key) == cache::entry(held, key) by {
        if any_resets(cs, nows, key) {
            reset_forgets(held, m, cs, nows, key);
        } else {
            without_reset(held, m, cs, nows, key);
            without_reset(m, held, cs, nows, key);
        }
    }
    assert forall|key: Seq<u8>| again.dom().contains(key) == held.dom().contains(key) by {
        assert(cache::entry(again, key) == cache::entry(held, key));
    }
    assert forall|key: Seq<u8>| again.dom().contains(key) implies #[trigger] again[key]
        == held[key] by {
        assert(cache::entry(again, key) == cache::entry(held, key));
    }
    assert(again =~= held);
}

/// Where none of the logged changes fixes a key, the live cache holds it only with the
/// value it started with; and once a change is about it, with the deadline of the last one.
proof fn lived_without_reset(
    m: Data,
    events: Seq<Event>,
    nows: Seq<Milliseconds>,
    key: Seq<u8>,
)
    requires
        !any_resets(logged(events), nows, key),
    ensures
        ({
            let before = cache::entry(m, key);
            let live = cache::entry(lived(m, events), key);
            let replayed = cache::entry(applied_all(m, logged(events), nows), key);
            &&& live is Some ==> before is Some && replayed is Some
            &&& live is Some && any_touches(logged(events), key) ==> live->Some_0.expires_at
                == replayed->Some_0.expires_at
        }),
    decreases events.len(),
{
    if events.len() > 0 {
        let earlier = events.drop_last();
        let live = lived(m, earlier);
        let replayed = applied_all(m, logged(earlier), nows);
        match events.last() {
            Event::Ran(CacheCommandView::Write(c), at) => {
                assert(logged(events).drop_last() =~= logged(earlier));
                let reading = nows[logged(events).len() - 1];
                lived_without_reset(m, earlier, nows, key);
                if key != cache_laws::key_of(c) {
                    cache_laws::other_keys_stay(live, CacheCommandView::Write(c), key, at);
                    cache_laws::other_keys_stay(replayed, CacheCommandView::Write(c), key, reading);
                }
            },
            Event::Ran(CacheCommandView::Read(c), at) => {
                lived_without_reset(m, earlier, nows, key);
                if key != cache_laws::key_read(c) {
                    cache_laws::other_keys_stay(live, CacheCommandView::Read(c), key, at);
                }
            },
            Event::Swept(at) => {
                lived_without_reset(m, earlier, nows, key);
            },
        }
    }
}

/// A crash between writing the snapshot and emptying the log is harmless: the log is then
/// replayed on a snapshot that already holds what it logged, and a read of a key still sees
/// what it would have seen in the live cache.
///
/// That is so of every key that a restart would have found without the new snapshot, and
/// of those that no change in the log fixed.
pub proof fn interrupted_snapshot_is_harmless(
    m: Data,
    events: Seq<Event>,
    nows: Seq<Milliseconds>,
    now: Milliseconds,
    key: Seq<u8>,
)
    requires
        forall|i: int| 0 <= i < events.len() ==> (#[trigger] events[i]).at().0 <= now.0,
        nows.len() >= logged(events).len(),
        forall|i: int| 0 <= i < nows.len() ==> (#[trigger] nows[i]).0 <= now.0,
    ensures
        (cache::lookup(applied_all(lived(m, events), logged(events), nows), key, now)
            == cache::lookup(lived(m, events), key, now)) == (last_change_agrees(
            m,
            events,
            nows,
            now,
            key,
        ) || !any_resets(logged(events), nows, key)),
{
    let snapshot = lived(m, events);
    let cs = logged(events);
    restart_finds_what_was_there(m, events, nows, now, key);
    if any_resets(cs, nows, key) {
        reset_forgets(snapshot, m, cs, nows, key);
    } else {
        without_reset(snapshot, m, cs, nows, key);
        lived_without_reset(m, events, nows, key);
    }
}

/// A change as the request that a client would have sent, with its deadline as a date in
/// milliseconds.
pub open spec fn as_request(c: WriteCommandView) -> FrameView {
    match c {
        WriteCommandView::SetKey { key, value, expires_at: None } => verb_laws::request(
            seq![seq![83u8, 69, 84], key, value],
        ),
        WriteCommandView::SetKey { key, value, expires_at: Some(t) } => verb_laws::request(
            seq![
                seq![83u8, 69, 84],
                key,
                value,
                seq![80u8, 88, 65, 84],
                decimal::digits(t.0 as nat),
            ],
        ),
        WriteCommandView::Delete { key } => verb_laws::request(seq![seq![68u8, 69, 76], key]),
        WriteCommandView::ExpireAt { key, expires_at } => verb_laws::request(
            seq![
                seq![80u8, 69, 88, 80, 73, 82, 69, 65, 84],
                key,
                decimal::digits(expires_at.0 as nat),
            ],
        ),
        WriteCommandView::Persist { key } => verb_laws::request(
            seq![seq![80u8, 69, 82, 83, 73, 83, 84], key],
        ),
    }
}

/// A change is logged as the bytes of the request that a client would have sent, and several
/// are logged one behind the other.
pub proof fn changes_are_logged_as_requests(c: WriteCommandView)
    ensures
        frame::write_frame(c) == as_request(c),
        aof::entry(c) == frame::encode(as_request(c)),
{
    reveal_strlit("SET");
    reveal_strlit("DEL");
    reveal_strlit("PEXPIREAT");
    reveal_strlit("PERSIST");
    reveal_strlit("PXAT");
    bytes::ascii_text("SET"@);
    bytes::ascii_text("DEL"@);
    bytes::ascii_text("PEXPIREAT"@);
    bytes::ascii_text("PERSIST"@);
    bytes::ascii_text("PXAT"@);
    assert(bytes::text("SET"@) =~= seq![83u8, 69, 84]);
    assert(bytes::text("DEL"@) =~= seq![68u8, 69, 76]);
    assert(bytes::text("PEXPIREAT"@) =~= seq![80u8, 69, 88, 80, 73, 82, 69, 65, 84]);
    assert(bytes::text("PERSIST"@) =~= seq![80u8, 69, 82, 83, 73, 83, 84]);
    assert(bytes::text("PXAT"@) =~= seq![80u8, 88, 65, 84]);
    assert(frame::write_frame(c)->Array_0 =~= as_request(c)->Array_0);
}

/// The log of several changes is the log of the first ones and that of the others behind it.
pub proof fn logs_stand_one_behind_the_other(cs: Seq<WriteCommandView>, c: WriteCommandView)
    ensures
        aof::entries(Seq::<WriteCommandView>::empty()) == Seq::<u8>::empty(),
        aof::entries(cs.push(c)) == aof::entries(cs) + frame::encode(as_request(c)),
{
    changes_are_logged_as_requests(c);
    assert(cs.push(c).drop_last() =~= cs);
}

/// Replay goes request by request: one that is about the cache is carried out, one that is
/// not is passed over, and either way the rest is replayed on top. What is no request stops
/// it with what was wrong, and keeps what was done.
pub proof fn replay_goes_request_by_request(
    s: Seq<u8>,
    m: Data,
    readings: Seq<(Reading, Reading)>,
)
    ensures
        match frame::streamed(s) {
            Err(e) => aof::replayed(s, m, readings) == (
                m,
                if e == FrameError::Incomplete {
                    Ok::<(), AofError>(())
                } else {
                    Err(AofError::Frame(e))
                },
            ),
            Ok((f, rest)) => match parser::command_of(f, readings[0].0) {
                Err(e) => aof::replayed(s, m, readings) == (
                    m,
                    Err::<(), AofError>(AofError::Command(e)),
                ),
                Ok(CommandView::Cache(c)) => match readings[0].1 {
                    Ok(now) => aof::replayed(s, m, readings) == aof::replayed(
                        rest,
                        cache::executed(m, c, now).0,
                        readings.drop_first(),
                    ),
                    Err(e) => cache::needs_clock(m, c) ==> aof::replayed(s, m, readings) == (
                        m,
                        Err::<(), AofError>(AofError::Cache(CacheError::SystemTime(e))),
                    ),
                },
                Ok(_) => aof::replayed(s, m, readings) == aof::replayed(
                    rest,
                    m,
                    readings.drop_first(),
                ),
            },
        },
{
    frame::parse_shrinks(s);
    if let Ok((f, _)) = frame::streamed(s) {
        if let Ok(CommandView::Cache(c)) = parser::command_of(f, readings[0].0) {
            if let Ok(now) = readings[0].1 {
                if !cache::needs_clock(m, c) {
                    cache::clockless_commands(m, c, now, Milliseconds(0));
                }
            }
        }
    }
}

/// By one reading of the clock every request is lifted and run by it.
pub proof fn a_steady_clock_says_the_same(now: Milliseconds, n: nat, i: int)
    requires
        0 <= i < n,
    ensures
        aof::steady(now, n).len() == n,
        aof::steady(now, n)[i].0 == Ok::<Milliseconds, std::time::SystemTimeError>(now),
        aof::steady(now, n)[i].1 == Ok::<Milliseconds, std::time::SystemTimeError>(now),
{
}

/// A replay looks at the clock wherever a request or its command cannot do without it.
pub proof fn replay_goes_by_the_clock(s: Seq<u8>, m: Data, readings: Seq<(Reading, Reading)>)
    requires
        aof::were_read(s, m, readings),
    ensures
        frame::streamed(s) matches Ok((f, rest)) ==> {
            &&& parser::needs_clock(f) ==> time::is_reading(readings[0].0)
            &&& match parser::command_of(f, readings[0].0) {
                Ok(CommandView::Cache(c)) => {
                    &&& cache::needs_clock(m, c) ==> time::is_reading(readings[0].1)
                    &&& readings[0].1 matches Ok(now) ==> aof::were_read(
                        rest,
                        cache::executed(m, c, now).0,
                        readings.drop_first(),
                    )
                },
                Ok(_) => aof::were_read(rest, m, readings.drop_first()),
                Err(_) => true,
            }
        },
{
    frame::parse_shrinks(s);
    if let Ok((f, _)) = frame::streamed(s) {
        if let Ok(CommandView::Cache(c)) = parser::command_of(f, readings[0].0) {
            if let Ok(now) = readings[0].1 {
                if !cache::needs_clock(m, c) {
                    cache::clockless_commands(m, c, now, Milliseconds(0));
                }
            }
        }
    }
}

} // verus!
