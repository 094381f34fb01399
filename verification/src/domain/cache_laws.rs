//! Laws of the cache: what a read gives back of a write, what expiry hides, and what each
//! operation leaves alone.

use vstd::prelude::*;

use crate::domain::cache;
use crate::domain::cache::{CacheError, Data, EntryView};
use crate::domain::command::cache::read::ReadCommandView;
use crate::domain::command::cache::write::WriteCommandView;
use crate::domain::command::cache::CacheCommandView;
use crate::domain::command::outcome::{CommandOutcomeView, TtlOutcome};
use crate::domain::time;
use crate::domain::time::Milliseconds;

verus! {

/// The key that a change is about.
pub open spec fn key_of(c: WriteCommandView) -> Seq<u8> {
    match c {
        WriteCommandView::SetKey { key, .. } => key,
        WriteCommandView::Delete { key } => key,
        WriteCommandView::ExpireAt { key, .. } => key,
        WriteCommandView::Persist { key } => key,
    }
}

/// The key that a read is about.
pub open spec fn key_read(c: ReadCommandView) -> Seq<u8> {
    match c {
        ReadCommandView::Get { key } => key,
        ReadCommandView::Exists { key } => key,
        ReadCommandView::Ttl { key } => key,
    }
}

/// `GET` behind `SET` gives the value back, until the deadline passes.
pub proof fn get_after_set(
    m: Data,
    key: Seq<u8>,
    value: Seq<u8>,
    expires_at: Option<Milliseconds>,
    set_at: Milliseconds,
    now: Milliseconds,
)
    ensures
        ({
            let after = cache::written(
                m,
                WriteCommandView::SetKey { key, value, expires_at },
                set_at,
            ).0;
            cache::queried(after, ReadCommandView::Get { key }, now).1
                == CommandOutcomeView::Value(
                if expires_at matches Some(t) && t.passed_at(now) {
                    None
                } else {
                    Some(value)
                },
            )
        }),
{
}

/// A plain `SET` clears any deadline the key had.
pub proof fn plain_set_clears_deadline(
    m: Data,
    key: Seq<u8>,
    value: Seq<u8>,
    set_at: Milliseconds,
    now: Milliseconds,
)
    ensures
        ({
            let after = cache::written(
                m,
                WriteCommandView::SetKey { key, value, expires_at: None },
                set_at,
            ).0;
            cache::ttl_outcome(after, key, now) == TtlOutcome::TtlNotFound
        }),
{
}

/// A key set for a whole number of seconds reads back as that many seconds, by the same
/// reading of the clock.
pub proof fn fresh_ttl_reads_back_whole(
    m: Data,
    key: Seq<u8>,
    value: Seq<u8>,
    seconds: u64,
    now: Milliseconds,
)
    requires
        seconds > 0,
        now.0 + seconds * 1000 <= u64::MAX,
    ensures
        ({
            let expires_at = Some(now.plus(Milliseconds((seconds * 1000) as u64)));
            let after = cache::written(m, WriteCommandView::SetKey { key, value, expires_at }, now).0;
            cache::ttl_outcome(after, key, now) == TtlOutcome::Remaining(
                crate::domain::time::Seconds(seconds),
            )
        }),
{
}

/// Once a key's deadline has passed, no read shows it: `GET` finds nothing, `EXISTS` counts
/// nothing, and `TTL` knows no such key.
pub proof fn expired_is_never_shown(m: Data, key: Seq<u8>, now: Milliseconds)
    requires
        m.dom().contains(key),
        m[key].expired(now),
    ensures
        cache::queried(m, ReadCommandView::Get { key }, now).1 == CommandOutcomeView::Value(None),
        cache::queried(m, ReadCommandView::Exists { key }, now).1 == CommandOutcomeView::Integer(0),
        cache::queried(m, ReadCommandView::Ttl { key }, now).1 == CommandOutcomeView::Ttl(
            TtlOutcome::KeyNotFound,
        ),
{
}

/// `EXISTS` agrees with `GET`, and `TTL` knows the key exactly when they do.
pub proof fn exists_agrees_with_get(m: Data, key: Seq<u8>, now: Milliseconds)
    ensures
        (cache::queried(m, ReadCommandView::Exists { key }, now).1 == CommandOutcomeView::Integer(
            1,
        )) == !(cache::queried(m, ReadCommandView::Get { key }, now).1
            == CommandOutcomeView::Value(None)),
        (cache::queried(m, ReadCommandView::Ttl { key }, now).1 == CommandOutcomeView::Ttl(
            TtlOutcome::KeyNotFound,
        )) == (cache::queried(m, ReadCommandView::Get { key }, now).1
            == CommandOutcomeView::Value(None)),
{
}

/// A read changes nothing that a read at the same time or later could see, of any key.
pub proof fn reads_do_not_disturb(
    m: Data,
    c: ReadCommandView,
    key: Seq<u8>,
    now: Milliseconds,
    later: Milliseconds,
)
    requires
        now.0 <= later.0,
    ensures
        cache::lookup(cache::queried(m, c, now).0, key, later) == cache::lookup(m, key, later),
{
}

/// The sweep changes nothing that a read at the same time or later could see, leaves
/// nothing that has expired, and takes nothing that has not.
pub proof fn sweep_takes_only_expired(m: Data, now: Milliseconds)
    ensures
        forall|k: Seq<u8>| #[trigger]
            cache::unexpired(m, now).dom().contains(k) ==> !cache::unexpired(m, now)[k].expired(now),
        forall|k: Seq<u8>, later: Milliseconds|
            now.0 <= later.0 ==> #[trigger] cache::lookup(cache::unexpired(m, now), k, later)
                == cache::lookup(m, k, later),
        cache::unexpired(cache::unexpired(m, now), now) == cache::unexpired(m, now),
{
    assert(cache::unexpired(cache::unexpired(m, now), now) =~= cache::unexpired(m, now));
}

/// A command touches its own key only.
pub proof fn other_keys_stay(m: Data, c: CacheCommandView, key: Seq<u8>, now: Milliseconds)
    requires
        match c {
            CacheCommandView::Read(r) => key != key_read(r),
            CacheCommandView::Write(w) => key != key_of(w),
        },
    ensures
        cache::entry(cache::executed(m, c, now).0, key) == cache::entry(m, key),
{
}

/// `DEL` takes the key out, and says whether it was there.
pub proof fn delete_removes(m: Data, key: Seq<u8>, deleted_at: Milliseconds, now: Milliseconds)
    ensures
        ({
            let (after, outcome) = cache::written(m, WriteCommandView::Delete { key }, deleted_at);
            &&& outcome == CommandOutcomeView::Bool(m.dom().contains(key))
            &&& cache::lookup(after, key, now) is None
        }),
{
}

/// A deadline in the past deletes the key at once, and still counts as applied.
pub proof fn past_deadline_deletes(
    m: Data,
    key: Seq<u8>,
    expires_at: Milliseconds,
    now: Milliseconds,
)
    requires
        m.dom().contains(key),
        expires_at.passed_at(now),
    ensures
        ({
            let (after, outcome) = cache::written(
                m,
                WriteCommandView::ExpireAt { key, expires_at },
                now,
            );
            outcome == CommandOutcomeView::Bool(true) && !after.dom().contains(key)
        }),
{
}

/// `PERSIST` takes the deadline off and keeps the value, for good.
pub proof fn persist_keeps_value(
    m: Data,
    key: Seq<u8>,
    persisted_at: Milliseconds,
    now: Milliseconds,
)
    requires
        cache::has_deadline(m, key),
    ensures
        ({
            let (after, outcome) = cache::written(
                m,
                WriteCommandView::Persist { key },
                persisted_at,
            );
            &&& outcome == CommandOutcomeView::Bool(true)
            &&& cache::lookup(after, key, now) == Some(
                EntryView { value: m[key].value, expires_at: None },
            )
        }),
{
}

/// `key` can be seen at `now`: it is there, and no deadline of its own has been reached.
pub open spec fn is_live(m: Data, key: Seq<u8>, now: Milliseconds) -> bool {
    m.dom().contains(key) && (m[key].expires_at matches Some(t) ==> now.0 < t.0)
}

/// What is left of `m` once `key` has been read at `now`: all of it, but for the key itself
/// where its deadline has been reached.
pub open spec fn left_by_read(m: Data, key: Seq<u8>, now: Milliseconds) -> Data {
    if is_live(m, key, now) {
        m
    } else {
        m.remove(key)
    }
}

/// `GET` gives the value of a key that can be seen, byte for byte, and else nothing.
pub proof fn get_shows_live_values(m: Data, key: Seq<u8>, now: Milliseconds)
    ensures
        ({
            let (after, outcome) = cache::executed(
                m,
                CacheCommandView::Read(ReadCommandView::Get { key }),
                now,
            );
            &&& is_live(m, key, now) ==> outcome == CommandOutcomeView::Value(Some(m[key].value))
            &&& !is_live(m, key, now) ==> outcome == CommandOutcomeView::Value(None)
            &&& after == left_by_read(m, key, now)
        }),
{
    absent_keys_leave_nothing(m, key);
}

proof fn absent_keys_leave_nothing(m: Data, key: Seq<u8>)
    ensures
        !m.dom().contains(key) ==> m.remove(key) == m,
{
    if !m.dom().contains(key) {
        assert(m.remove(key) =~= m);
    }
}

/// `EXISTS` counts a key that can be seen, and no other.
pub proof fn exists_counts_live_keys(m: Data, key: Seq<u8>, now: Milliseconds)
    ensures
        ({
            let (after, outcome) = cache::executed(
                m,
                CacheCommandView::Read(ReadCommandView::Exists { key }),
                now,
            );
            &&& is_live(m, key, now) ==> outcome == CommandOutcomeView::Integer(1)
            &&& !is_live(m, key, now) ==> outcome == CommandOutcomeView::Integer(0)
            &&& after == left_by_read(m, key, now)
        }),
{
    absent_keys_leave_nothing(m, key);
}

/// `TTL` gives the whole seconds up to the deadline of a key that can be seen, rounded up:
/// no less than is left, and less than a second more.
pub proof fn ttl_counts_the_seconds_left(m: Data, key: Seq<u8>, now: Milliseconds)
    ensures
        ({
            let (after, outcome) = cache::executed(
                m,
                CacheCommandView::Read(ReadCommandView::Ttl { key }),
                now,
            );
            &&& !is_live(m, key, now) ==> outcome == CommandOutcomeView::Ttl(
                TtlOutcome::KeyNotFound,
            )
            &&& is_live(m, key, now) && m[key].expires_at is None ==> outcome
                == CommandOutcomeView::Ttl(TtlOutcome::TtlNotFound)
            &&& is_live(m, key, now) && m[key].expires_at is Some ==> {
                let left = m[key].expires_at->Some_0.0 - now.0;
                &&& outcome matches CommandOutcomeView::Ttl(TtlOutcome::Remaining(n))
                &&& left <= n.0 * 1000
                &&& n.0 * 1000 < left + 1000
            }
            &&& after == left_by_read(m, key, now)
        }),
{
    absent_keys_leave_nothing(m, key);
}

/// `SET` stores the value and the deadline under the key, in place of what was there, and
/// touches nothing else.
pub proof fn set_stores_what_it_is_given(
    m: Data,
    key: Seq<u8>,
    value: Seq<u8>,
    expires_at: Option<Milliseconds>,
    now: Milliseconds,
)
    ensures
        ({
            let (after, outcome) = cache::executed(
                m,
                CacheCommandView::Write(WriteCommandView::SetKey { key, value, expires_at }),
                now,
            );
            &&& outcome == CommandOutcomeView::Done
            &&& after.dom().contains(key)
            &&& after[key].value == value
            &&& after[key].expires_at == expires_at
            &&& after.remove(key) == m.remove(key)
        }),
{
    let after = m.insert(key, EntryView { value, expires_at });
    assert(after.remove(key) =~= m.remove(key));
}

/// `DEL` takes out the key and nothing else, whatever its deadline, and says whether it was
/// there.
pub proof fn delete_takes_out_one_key(m: Data, key: Seq<u8>, now: Milliseconds)
    ensures
        ({
            let (after, outcome) = cache::executed(
                m,
                CacheCommandView::Write(WriteCommandView::Delete { key }),
                now,
            );
            &&& outcome == CommandOutcomeView::Bool(m.dom().contains(key))
            &&& after == m.remove(key)
        }),
{
}

/// A deadline that lies ahead is put on the key, which keeps its value; one that has been
/// reached takes the key out. Either way it says whether the key was there, and touches
/// nothing else; on a key that is not there it does nothing.
pub proof fn expire_moves_the_deadline(
    m: Data,
    key: Seq<u8>,
    expires_at: Milliseconds,
    now: Milliseconds,
)
    ensures
        ({
            let (after, outcome) = cache::executed(
                m,
                CacheCommandView::Write(WriteCommandView::ExpireAt { key, expires_at }),
                now,
            );
            &&& outcome == CommandOutcomeView::Bool(m.dom().contains(key))
            &&& !m.dom().contains(key) ==> after == m
            &&& after.dom().contains(key) == (m.dom().contains(key) && now.0 < expires_at.0)
            &&& after.dom().contains(key) ==> after[key].value == m[key].value
                && after[key].expires_at == Some(expires_at)
            &&& after.remove(key) == m.remove(key)
        }),
{
    absent_keys_leave_nothing(m, key);
    let kept = m.insert(key, EntryView { value: m[key].value, expires_at: Some(expires_at) });
    assert(kept.remove(key) =~= m.remove(key));
    assert(m.remove(key).remove(key) =~= m.remove(key));
}

/// `PERSIST` takes the deadline off a key, which keeps its value, and says whether there was
/// one; it touches nothing else.
pub proof fn persist_takes_the_deadline_off(m: Data, key: Seq<u8>, now: Milliseconds)
    ensures
        ({
            let (after, outcome) = cache::executed(
                m,
                CacheCommandView::Write(WriteCommandView::Persist { key }),
                now,
            );
            let had = m.dom().contains(key) && m[key].expires_at is Some;
            &&& outcome == CommandOutcomeView::Bool(had)
            &&& !had ==> after == m
            &&& had ==> after.dom().contains(key) && after[key].value == m[key].value
                && after[key].expires_at is None
            &&& after.remove(key) == m.remove(key)
        }),
{
    let cleared = m.insert(key, EntryView { value: m[key].value, expires_at: None });
    assert(cleared.remove(key) =~= m.remove(key));
}

/// The sweep keeps exactly what can be seen, as it is.
pub proof fn sweep_keeps_what_is_live(m: Data, now: Milliseconds)
    ensures
        forall|k: Seq<u8>| #[trigger]
            cache::unexpired(m, now).dom().contains(k) <==> is_live(m, k, now),
        forall|k: Seq<u8>| #[trigger]
            cache::unexpired(m, now).dom().contains(k) ==> cache::unexpired(m, now)[k] == m[k],
{
}

/// The questions that a cache answers of one key, each by what can be seen of it: its entry,
/// its deadline, the time it has left.
pub proof fn answers_about_one_key(m: Data, key: Seq<u8>, now: Milliseconds)
    ensures
        cache::lookup(m, key, now) == (if is_live(m, key, now) {
            Some(m[key])
        } else {
            None
        }),
        cache::swept(m, key, now) == left_by_read(m, key, now),
        !is_live(m, key, now) ==> cache::deadline(m, key, now) is None && cache::time_left(
            m,
            key,
            now,
        ) is None,
        is_live(m, key, now) ==> cache::deadline(m, key, now) == Some(m[key].expires_at),
        is_live(m, key, now) && m[key].expires_at is None ==> cache::time_left(m, key, now) == Some(
            None::<Milliseconds>,
        ),
        is_live(m, key, now) && m[key].expires_at is Some ==> {
            &&& cache::time_left(m, key, now) matches Some(Some(left))
            &&& left.0 == m[key].expires_at->Some_0.0 - now.0
        },
        m.dom().contains(key) ==> cache::entry(m, key) == Some(m[key]),
        !m.dom().contains(key) ==> cache::entry(m, key) is None,
{
    absent_keys_leave_nothing(m, key);
}

/// A command looks at the clock where its outcome may depend on it, and nowhere else: reads
/// of a key with a deadline, and setting one.
pub proof fn the_clock_is_read_where_it_counts(m: Data, key: Seq<u8>, c: WriteCommandView)
    ensures
        cache::needs_clock(m, CacheCommandView::Read(ReadCommandView::Get { key })),
        cache::needs_clock(m, CacheCommandView::Read(ReadCommandView::Exists { key })) == (
        m.dom().contains(key) && m[key].expires_at is Some),
        cache::needs_clock(m, CacheCommandView::Read(ReadCommandView::Ttl { key }))
            == m.dom().contains(key),
        cache::needs_clock(m, CacheCommandView::Write(c)) == c is ExpireAt,
{
}

/// An entry has expired once the clock reaches its deadline, and without one never.
pub proof fn entries_expire_at_their_deadline(e: EntryView, now: Milliseconds)
    ensures
        e.expired(now) == (e.expires_at matches Some(t) && now.0 >= t.0),
{
}

/// The sweep counts what it takes out: with what it leaves, that makes up what there was.
pub proof fn the_sweep_counts_what_it_takes(m: Data, now: Milliseconds)
    requires
        m.dom().finite(),
    ensures
        cache::unexpired(m, now).dom().finite(),
        cache::expired_count(m, now) + cache::unexpired(m, now).dom().len() == m.dom().len(),
{
    let gone = m.dom().filter(|k: Seq<u8>| m[k].expired(now));
    let left = cache::unexpired(m, now).dom();
    sweep_keeps_what_is_live(m, now);
    assert(left =~= m.dom().difference(gone));
    vstd::set_lib::lemma_set_difference_len(m.dom(), gone);
    assert(m.dom().intersect(gone) =~= gone);
}

/// A sweep by the clock takes out what has expired at what the clock said, no more and no
/// less, and counts it; where the clock cannot be read, it takes out nothing.
pub proof fn a_sweep_goes_by_the_clock(before: Data, after: Data, r: Result<usize, CacheError>)
    requires
        before.dom().finite(),
        cache::is_sweep(before, after, r),
    ensures
        match r {
            Ok(n) => {
                &&& after.dom().finite()
                &&& n + after.dom().len() == before.dom().len()
                &&& exists|now: Milliseconds|
                    {
                        &&& #[trigger] time::is_reading(Ok(now))
                        &&& forall|key: Seq<u8>| #[trigger]
                            after.dom().contains(key) == is_live(before, key, now)
                        &&& forall|key: Seq<u8>| #[trigger]
                            after.dom().contains(key) ==> after[key] == before[key]
                    }
            },
            Err(CacheError::SystemTime(e)) => time::is_reading(Err(e)) && after == before,
            Err(_) => false,
        },
{
    if r is Ok {
        let now = choose|now: Milliseconds|
            {
                &&& time::is_reading(Ok(now))
                &&& after == #[trigger] cache::unexpired(before, now)
                &&& r->Ok_0 == cache::expired_count(before, now)
            };
        the_sweep_counts_what_it_takes(before, now);
        sweep_keeps_what_is_live(before, now);
        assert(time::is_reading(Ok(now)));
    }
}

} // verus!
