//! In-memory key-value store with TTLs, expired lazily and swept actively.
//!
//! Read paths drop expired keys as they encounter them. The sweeper calls
//! [`Cache::remove_expired`] on a tick to reclaim keys nobody has touched.
//!
//! ## Expiry
//!
//! Deadlines are absolute UNIX milliseconds. Relative TTLs are made absolute at parse
//! time, so storage only ever sees one form and it serializes cleanly. See
//! [`crate::domain::time`] for the clock and the conversion.
//!
//! Every operation that looks at the clock comes in two forms: one that reads it, and one
//! (`*_at`) that takes the reading as an argument and whose outcome is fixed by it.
//!
//! ## Sharing
//!
//! The cache itself is a plain value. Whoever shares it between threads puts it behind a
//! lock.

use std::time::SystemTimeError;
use vstd::prelude::*;

use crate::byte_map::ByteMap;
use crate::bytes;
use crate::domain::command::cache::read::{ReadCommand, ReadCommandView};
use crate::domain::command::cache::write::{WriteCommand, WriteCommandView};
use crate::domain::command::cache::{CacheCommand, CacheCommandView};
use crate::domain::command::outcome::{CommandOutcome, CommandOutcomeView, TtlOutcome};
use crate::domain::time;
use crate::domain::time::Milliseconds;

verus! {

/// Failure inside a [`Cache`] operation.
#[derive(Debug)]
pub enum CacheError {
    /// A thread panicked while holding the lock that shares the cache. The in-memory state
    /// may be inconsistent, so the cache can't be used safely after this. Reported by the
    /// lock's owner; no operation here returns it.
    MutexPoisoned,
    /// The clock read landed before the UNIX epoch, which takes a badly wrong system
    /// clock.
    SystemTime(SystemTimeError),
}

impl CacheError {
    /// The text that describes the fault.
    pub open spec fn spec_message(self) -> Seq<u8> {
        match self {
            CacheError::MutexPoisoned => bytes::text("cache mutex poisoned"@),
            CacheError::SystemTime(_) => time::clock_error_message(),
        }
    }

    /// The text that describes the fault.
    pub fn message(&self) -> (r: Vec<u8>)
        ensures
            r@ == self.spec_message(),
    {
        match self {
            CacheError::MutexPoisoned => bytes::to_bytes("cache mutex poisoned"),
            CacheError::SystemTime(_) => time::clock_message(),
        }
    }
}

/// Value bytes plus an optional deadline.
///
/// `None` means no expiry: the entry lives until something removes it. A past timestamp is
/// accepted, and the next read on that key treats it as expired and drops it.
#[derive(Debug, PartialEq, Hash)]
pub struct Entry {
    /// Opaque payload. UTF-8 is never enforced, so a value can be a jpeg, a RESP fragment,
    /// anything.
    pub value: Vec<u8>,
    /// Absolute UNIX millisecond deadline, or `None` for no TTL.
    pub expires_at: Option<Milliseconds>,
}

/// What an [`Entry`] stands for.
#[verifier::ext_equal]
pub struct EntryView {
    /// Opaque payload.
    pub value: Seq<u8>,
    /// Absolute UNIX millisecond deadline, or `None` for no TTL.
    pub expires_at: Option<Milliseconds>,
}

impl View for Entry {
    type V = EntryView;

    open spec fn view(&self) -> EntryView {
        EntryView { value: self.value@, expires_at: self.expires_at }
    }
}

impl EntryView {
    /// The deadline, if there is one, has passed.
    pub open spec fn expired(self, now: Milliseconds) -> bool {
        self.expires_at matches Some(t) && t.passed_at(now)
    }
}

impl Clone for Entry {
    fn clone(&self) -> (r: Self)
        ensures
            r@ == self@,
    {
        Entry { value: bytes::copy(self.value.as_slice()), expires_at: self.expires_at }
    }
}

impl Default for Entry {
    fn default() -> (r: Self)
        ensures
            r@ == (EntryView { value: Seq::empty(), expires_at: None }),
    {
        let r = Entry { value: Vec::new(), expires_at: None };
        assert(r@.value =~= Seq::<u8>::empty());
        r
    }
}

impl Entry {
    /// Value bytes plus an optional deadline.
    pub fn new(value: Vec<u8>, expires_at: Option<Milliseconds>) -> (r: Self)
        ensures
            r@ == (EntryView { value: value@, expires_at }),
    {
        Entry { value, expires_at }
    }

    /// `true` if the deadline has passed at `now`.
    pub fn is_expired(&self, now: Milliseconds) -> (r: bool)
        ensures
            r == self@.expired(now),
    {
        match self.expires_at {
            Some(t) => now.get() >= t.get(),
            None => false,
        }
    }
}

/// What a cache holds: the entry under each key.
pub type Data = Map<Seq<u8>, EntryView>;

/// The live entry under `key` at `now`.
pub open spec fn lookup(m: Data, key: Seq<u8>, now: Milliseconds) -> Option<EntryView> {
    if m.dom().contains(key) && !m[key].expired(now) {
        Some(m[key])
    } else {
        None
    }
}

/// `m` without the entry under `key`, if that has expired at `now`.
pub open spec fn swept(m: Data, key: Seq<u8>, now: Milliseconds) -> Data {
    if m.dom().contains(key) && m[key].expired(now) {
        m.remove(key)
    } else {
        m
    }
}

/// `m` without any entry that has expired at `now`.
pub open spec fn unexpired(m: Data, now: Milliseconds) -> Data {
    Map::new(|k: Seq<u8>| m.dom().contains(k) && !m[k].expired(now), |k: Seq<u8>| m[k])
}

/// `r` is what a sweep that reads the clock comes to, with `after` left of `before`.
pub open spec fn is_sweep(before: Data, after: Data, r: Result<usize, CacheError>) -> bool {
    match r {
        Ok(n) => exists|now: Milliseconds|
            {
                &&& time::is_reading(Ok(now))
                &&& after == #[trigger] unexpired(before, now)
                &&& n == expired_count(before, now)
            },
        Err(CacheError::SystemTime(e)) => time::is_reading(Err(e)) && after == before,
        Err(_) => false,
    }
}

/// How many entries of `m` have expired at `now`.
pub open spec fn expired_count(m: Data, now: Milliseconds) -> nat {
    m.dom().filter(|k: Seq<u8>| m[k].expired(now)).len()
}

/// What stood under `key`.
pub open spec fn entry(m: Data, key: Seq<u8>) -> Option<EntryView> {
    if m.dom().contains(key) {
        Some(m[key])
    } else {
        None
    }
}

/// The deadline of `key` at `now`: `None` where there is no live key.
pub open spec fn deadline(m: Data, key: Seq<u8>, now: Milliseconds) -> Option<
    Option<Milliseconds>,
> {
    match lookup(m, key, now) {
        Some(e) => Some(e.expires_at),
        None => None,
    }
}

/// The time that `key` has left at `now`: `None` where there is no live key.
pub open spec fn time_left(m: Data, key: Seq<u8>, now: Milliseconds) -> Option<
    Option<Milliseconds>,
> {
    match deadline(m, key, now) {
        None => None,
        Some(None) => Some(None),
        Some(Some(t)) => Some(Some(t.minus(now))),
    }
}

/// `m` with a deadline on `key`. A deadline that has passed takes the key out.
pub open spec fn with_deadline(
    m: Data,
    key: Seq<u8>,
    expires_at: Milliseconds,
    now: Milliseconds,
) -> Data {
    if expires_at.passed_at(now) {
        m.remove(key)
    } else if m.dom().contains(key) {
        m.insert(key, EntryView { value: m[key].value, expires_at: Some(expires_at) })
    } else {
        m
    }
}

/// `key` is there and carries a deadline.
pub open spec fn has_deadline(m: Data, key: Seq<u8>) -> bool {
    m.dom().contains(key) && m[key].expires_at is Some
}

/// `m` with no deadline on `key`.
pub open spec fn without_deadline(m: Data, key: Seq<u8>) -> Data {
    if has_deadline(m, key) {
        m.insert(key, EntryView { value: m[key].value, expires_at: None })
    } else {
        m
    }
}

/// `true` as 1, `false` as 0.
pub open spec fn count(b: bool) -> int {
    if b {
        1
    } else {
        0
    }
}

/// What `TTL` says of `key` at `now`: whole seconds, rounded up.
pub open spec fn ttl_outcome(m: Data, key: Seq<u8>, now: Milliseconds) -> TtlOutcome {
    match time_left(m, key, now) {
        None => TtlOutcome::KeyNotFound,
        Some(None) => TtlOutcome::TtlNotFound,
        Some(Some(left)) => TtlOutcome::Remaining(left.seconds_up()),
    }
}

/// What a change does to the data, and what comes of it.
pub open spec fn written(m: Data, c: WriteCommandView, now: Milliseconds) -> (
    Data,
    CommandOutcomeView,
) {
    match c {
        WriteCommandView::SetKey { key, value, expires_at } => (
            m.insert(key, EntryView { value, expires_at }),
            CommandOutcomeView::Done,
        ),
        WriteCommandView::Delete { key } => (
            m.remove(key),
            CommandOutcomeView::Bool(m.dom().contains(key)),
        ),
        WriteCommandView::ExpireAt { key, expires_at } => (
            with_deadline(m, key, expires_at, now),
            CommandOutcomeView::Bool(m.dom().contains(key)),
        ),
        WriteCommandView::Persist { key } => (
            without_deadline(m, key),
            CommandOutcomeView::Bool(has_deadline(m, key)),
        ),
    }
}

/// What a read leaves of the data, and what comes of it.
pub open spec fn queried(m: Data, c: ReadCommandView, now: Milliseconds) -> (
    Data,
    CommandOutcomeView,
) {
    match c {
        ReadCommandView::Get { key } => (
            swept(m, key, now),
            CommandOutcomeView::Value(
                match lookup(m, key, now) {
                    Some(e) => Some(e.value),
                    None => None,
                },
            ),
        ),
        ReadCommandView::Exists { key } => (
            swept(m, key, now),
            CommandOutcomeView::Integer(count(lookup(m, key, now) is Some)),
        ),
        ReadCommandView::Ttl { key } => (
            swept(m, key, now),
            CommandOutcomeView::Ttl(ttl_outcome(m, key, now)),
        ),
    }
}

/// What a command does to the data at `now`, and what comes of it.
pub open spec fn executed(m: Data, c: CacheCommandView, now: Milliseconds) -> (
    Data,
    CommandOutcomeView,
) {
    match c {
        CacheCommandView::Read(c) => queried(m, c, now),
        CacheCommandView::Write(c) => written(m, c, now),
    }
}

/// A command that cannot be carried out without a reading of the clock.
pub open spec fn needs_clock(m: Data, c: CacheCommandView) -> bool {
    match c {
        CacheCommandView::Read(ReadCommandView::Get { .. }) => true,
        CacheCommandView::Read(ReadCommandView::Exists { key }) => has_deadline(m, key),
        CacheCommandView::Read(ReadCommandView::Ttl { key }) => m.dom().contains(key),
        CacheCommandView::Write(WriteCommandView::ExpireAt { .. }) => true,
        CacheCommandView::Write(_) => false,
    }
}

/// What an optional entry stands for.
pub open spec fn optional_entry(e: Option<Entry>) -> Option<EntryView> {
    match e {
        Some(e) => Some(e@),
        None => None,
    }
}

/// Key-value store. `Default` gives you an empty one. To rebuild from disk, pass a
/// snapshot-loaded map to [`Cache::new`] and replay the log on top.
#[derive(Debug)]
pub struct Cache {
    inner: ByteMap<Entry>,
}

impl View for Cache {
    type V = Data;

    closed spec fn view(&self) -> Data {
        self.inner@
    }
}

impl Default for Cache {
    fn default() -> (r: Self)
        ensures
            r@ == Map::<Seq<u8>, EntryView>::empty(),
    {
        Cache { inner: ByteMap::new() }
    }
}

impl Cache {
    /// A cache over `data`.
    pub fn new(data: ByteMap<Entry>) -> (r: Self)
        ensures
            r@ == data@,
    {
        Cache { inner: data }
    }

    /// The entries under their keys.
    pub closed spec fn map(self) -> ByteMap<Entry> {
        self.inner
    }

    /// The entries under their keys.
    pub fn as_map(&self) -> (r: &ByteMap<Entry>)
        ensures
            *r == self.map(),
            r@ == self@,
    {
        &self.inner
    }

    /// Drop the entry under `key` if it has expired at `now`.
    fn sweep(&mut self, key: &[u8], now: Milliseconds)
        ensures
            final(self)@ == swept(old(self)@, key@, now),
    {
        let expired: bool = match self.inner.get(key) {
            Some(e) => e.is_expired(now),
            None => false,
        };
        if expired {
            self.inner.remove(key);
        }
    }

    /// [`Cache::get`] by the reading `now`.
    pub fn get_at(&mut self, key: &[u8], now: Milliseconds) -> (r: Option<Entry>)
        ensures
            optional_entry(r) == lookup(old(self)@, key@, now),
            final(self)@ == swept(old(self)@, key@, now),
    {
        self.sweep(key, now);
        match self.inner.get(key) {
            Some(e) => Some(e.clone()),
            None => None,
        }
    }

    /// Fetch a clone of the [`Entry`] for `key`, or `None` if it is missing or expired. An
    /// expired entry is removed on the way out.
    pub fn get(&mut self, key: &[u8]) -> (r: Result<Option<Entry>, CacheError>)
        ensures
            match r {
                Ok(e) => exists|now: Milliseconds|
                    {
                        &&& time::is_reading(Ok(now))
                        &&& optional_entry(e) == #[trigger] lookup(old(self)@, key@, now)
                        &&& final(self)@ == swept(old(self)@, key@, now)
                    },
                Err(CacheError::SystemTime(e)) => {
                    &&& time::is_reading(Err(e))
                    &&& final(self)@ == old(self)@
                },
                Err(_) => false,
            },
    {
        match Milliseconds::now() {
            Ok(now) => {
                let e = self.get_at(key, now);
                assert(optional_entry(e) == lookup(old(self)@, key@, now));
                Ok(e)
            },
            Err(e) => Err(CacheError::SystemTime(e)),
        }
    }

    /// Insert or replace `key`, returning whatever was there before.
    ///
    /// An already-past deadline is accepted as-is and the next read drops it. Callers do
    /// not need to check the clock first.
    pub fn insert(&mut self, key: Vec<u8>, entry: Entry) -> (r: Result<Option<Entry>, CacheError>)
        ensures
            r is Ok,
            optional_entry(r->Ok_0) == self::entry(old(self)@, key@),
            final(self)@ == old(self)@.insert(key@, entry@),
            forall|now: Milliseconds| #[trigger]
                written(
                    old(self)@,
                    WriteCommandView::SetKey {
                        key: key@,
                        value: entry@.value,
                        expires_at: entry@.expires_at,
                    },
                    now,
                ).0 == final(self)@,
    {
        Ok(self.inner.insert(key, entry))
    }

    /// Remove `key`, returning whatever was there. Unconditional: TTL is not consulted.
    pub fn remove(&mut self, key: &[u8]) -> (r: Result<Option<Entry>, CacheError>)
        ensures
            r is Ok,
            optional_entry(r->Ok_0) == entry(old(self)@, key@),
            final(self)@ == old(self)@.remove(key@),
            forall|now: Milliseconds| #[trigger]
                written(old(self)@, WriteCommandView::Delete { key: key@ }, now).0 == final(self)@,
    {
        Ok(self.inner.remove(key))
    }

    /// [`Cache::contains`] by the reading `now`.
    pub fn contains_at(&mut self, key: &[u8], now: Milliseconds) -> (r: bool)
        ensures
            r == (lookup(old(self)@, key@, now) is Some),
            final(self)@ == swept(old(self)@, key@, now),
    {
        self.sweep(key, now);
        self.inner.contains_key(key)
    }

    /// Test for `key`. An expired key returns `false` and is dropped on the way out, so
    /// this agrees with what [`Cache::get`] would say. The clock is only read where the
    /// key has a deadline.
    pub fn contains(&mut self, key: &[u8]) -> (r: Result<bool, CacheError>)
        ensures
            match r {
                Ok(b) => exists|now: Milliseconds|
                    {
                        &&& has_deadline(old(self)@, key@) ==> time::is_reading(Ok(now))
                        &&& b == (#[trigger] lookup(old(self)@, key@, now) is Some)
                        &&& final(self)@ == swept(old(self)@, key@, now)
                    },
                Err(CacheError::SystemTime(e)) => {
                    &&& has_deadline(old(self)@, key@)
                    &&& time::is_reading(Err(e))
                    &&& final(self)@ == old(self)@
                },
                Err(_) => false,
            },
    {
        let timed: Option<bool> = match self.inner.get(key) {
            Some(e) => Some(e.expires_at.is_some()),
            None => None,
        };
        match timed {
            None => {
                assert(lookup(self@, key@, Milliseconds(0)) is None);
                Ok(false)
            },
            Some(false) => {
                assert(lookup(self@, key@, Milliseconds(0)) is Some);
                Ok(true)
            },
            Some(true) => match Milliseconds::now() {
                Ok(now) => {
                    let b: bool = self.contains_at(key, now);
                    assert(b == (lookup(old(self)@, key@, now) is Some));
                    Ok(b)
                },
                Err(e) => Err(CacheError::SystemTime(e)),
            },
        }
    }

    /// [`Cache::set_expires_at`] by the reading `now`.
    pub fn set_expires_at_at(
        &mut self,
        key: &[u8],
        expires_at: Milliseconds,
        now: Milliseconds,
    ) -> (r: bool)
        ensures
            r == old(self)@.dom().contains(key@),
            final(self)@ == with_deadline(old(self)@, key@, expires_at, now),
    {
        if now.get() >= expires_at.get() {
            return self.inner.remove(key).is_some();
        }
        match self.inner.remove(key) {
            None => {
                assert(self@ =~= old(self)@);
                false
            },
            Some(e) => {
                let updated = Entry { value: e.value, expires_at: Some(expires_at) };
                self.inner.insert(bytes::copy(key), updated);
                assert(self@ =~= with_deadline(old(self)@, key@, expires_at, now));
                true
            },
        }
    }

    /// Put a deadline on an existing key. `true` if it was applied, `false` if `key` was
    /// missing.
    ///
    /// A past timestamp deletes the key immediately rather than storing a guaranteed-stale
    /// entry, and still reports `true`.
    pub fn set_expires_at(&mut self, key: &[u8], expires_at: Milliseconds) -> (r: Result<
        bool,
        CacheError,
    >)
        ensures
            match r {
                Ok(b) => b == old(self)@.dom().contains(key@) && exists|now: Milliseconds|
                    {
                        &&& time::is_reading(Ok(now))
                        &&& final(self)@ == #[trigger] with_deadline(
                            old(self)@,
                            key@,
                            expires_at,
                            now,
                        )
                    },
                Err(CacheError::SystemTime(e)) => {
                    &&& time::is_reading(Err(e))
                    &&& final(self)@ == old(self)@
                },
                Err(_) => false,
            },
    {
        match Milliseconds::now() {
            Ok(now) => {
                let b: bool = self.set_expires_at_at(key, expires_at, now);
                assert(self@ == with_deadline(old(self)@, key@, expires_at, now));
                Ok(b)
            },
            Err(e) => Err(CacheError::SystemTime(e)),
        }
    }

    /// [`Cache::get_expires_at`] by the reading `now`.
    pub fn get_expires_at_at(&mut self, key: &[u8], now: Milliseconds) -> (r: Option<
        Option<Milliseconds>,
    >)
        ensures
            r == deadline(old(self)@, key@, now),
            final(self)@ == swept(old(self)@, key@, now),
    {
        self.sweep(key, now);
        match self.inner.get(key) {
            Some(e) => Some(e.expires_at),
            None => None,
        }
    }

    /// Query the deadline on `key`. The nested `Option` carries three states:
    ///
    /// - `Ok(None)`, `key` is missing, or was expired and just got swept here.
    /// - `Ok(Some(None))`, `key` exists with no TTL.
    /// - `Ok(Some(Some(t)))`, `key` expires at UNIX millisecond `t`.
    ///
    /// A passed deadline removes the entry and reports `Ok(None)`. The clock is only read
    /// where the key is there.
    pub fn get_expires_at(&mut self, key: &[u8]) -> (r: Result<
        Option<Option<Milliseconds>>,
        CacheError,
    >)
        ensures
            match r {
                Ok(t) => exists|now: Milliseconds|
                    {
                        &&& old(self)@.dom().contains(key@) ==> time::is_reading(Ok(now))
                        &&& t == #[trigger] deadline(old(self)@, key@, now)
                        &&& final(self)@ == swept(old(self)@, key@, now)
                    },
                Err(CacheError::SystemTime(e)) => {
                    &&& old(self)@.dom().contains(key@)
                    &&& time::is_reading(Err(e))
                    &&& final(self)@ == old(self)@
                },
                Err(_) => false,
            },
    {
        if !self.inner.contains_key(key) {
            assert(deadline(self@, key@, Milliseconds(0)) is None);
            return Ok(None);
        }
        match Milliseconds::now() {
            Ok(now) => {
                let t = self.get_expires_at_at(key, now);
                assert(t == deadline(old(self)@, key@, now));
                Ok(t)
            },
            Err(e) => Err(CacheError::SystemTime(e)),
        }
    }

    /// [`Cache::time_to_live`] by the reading `now`.
    pub fn time_to_live_at(&mut self, key: &[u8], now: Milliseconds) -> (r: Option<
        Option<Milliseconds>,
    >)
        ensures
            r == time_left(old(self)@, key@, now),
            final(self)@ == swept(old(self)@, key@, now),
    {
        match self.get_expires_at_at(key, now) {
            None => None,
            Some(None) => Some(None),
            Some(Some(t)) => Some(Some(t.saturating_sub(now))),
        }
    }

    /// Time remaining on `key`, in milliseconds. Same three states as
    /// [`Cache::get_expires_at`]:
    ///
    /// - `Ok(None)`, `key` missing or just expired.
    /// - `Ok(Some(None))`, `key` exists with no TTL.
    /// - `Ok(Some(Some(n)))`, `n` millis left.
    ///
    /// Feeds the `TTL` reply (`:-2`, `:-1`, `:n`), which reports seconds and so has to
    /// divide.
    pub fn time_to_live(&mut self, key: &[u8]) -> (r: Result<
        Option<Option<Milliseconds>>,
        CacheError,
    >)
        ensures
            match r {
                Ok(t) => exists|now: Milliseconds|
                    {
                        &&& old(self)@.dom().contains(key@) ==> time::is_reading(Ok(now))
                        &&& t == #[trigger] time_left(old(self)@, key@, now)
                        &&& final(self)@ == swept(old(self)@, key@, now)
                    },
                Err(CacheError::SystemTime(e)) => {
                    &&& old(self)@.dom().contains(key@)
                    &&& time::is_reading(Err(e))
                    &&& final(self)@ == old(self)@
                },
                Err(_) => false,
            },
    {
        if !self.inner.contains_key(key) {
            assert(time_left(self@, key@, Milliseconds(0)) is None);
            return Ok(None);
        }
        match Milliseconds::now() {
            Ok(now) => {
                let t = self.time_to_live_at(key, now);
                assert(t == time_left(old(self)@, key@, now));
                Ok(t)
            },
            Err(e) => Err(CacheError::SystemTime(e)),
        }
    }

    /// Drop the TTL on `key` but keep the value. `false` if `key` is missing or had no TTL
    /// to begin with. Feeds `PERSIST`.
    pub fn remove_ttl(&mut self, key: &[u8]) -> (r: Result<bool, CacheError>)
        ensures
            r is Ok,
            r->Ok_0 == has_deadline(old(self)@, key@),
            final(self)@ == without_deadline(old(self)@, key@),
    {
        let timed: bool = match self.inner.get(key) {
            Some(e) => e.expires_at.is_some(),
            None => false,
        };
        if !timed {
            return Ok(false);
        }
        match self.inner.remove(key) {
            None => Ok(false),
            Some(e) => {
                self.inner.insert(bytes::copy(key), Entry { value: e.value, expires_at: None });
                assert(self@ =~= without_deadline(old(self)@, key@));
                Ok(true)
            },
        }
    }

    /// [`Cache::remove_expired`] by the reading `now`.
    pub fn remove_expired_at(&mut self, now: Milliseconds) -> (r: usize)
        ensures
            final(self)@ == unexpired(old(self)@, now),
            old(self)@.dom().finite(),
            r == old(self)@.dom().len() - final(self)@.dom().len(),
            r == old(self)@.dom().filter(|k: Seq<u8>| old(self)@[k].expired(now)).len(),
            r == expired_count(old(self)@, now),
    {
        let total: usize = self.inner.len();
        let ghost m = self@;
        let ghost keys = self.inner.keys();
        let mut expired: Vec<Vec<u8>> = Vec::new();
        let mut i: usize = 0;
        while i < total
            invariant
                i <= total == keys.len(),
                keys == self.inner.keys(),
                m == self.inner@,
                m == self@,
                forall|k: Seq<u8>| #[trigger] m.dom().contains(k) <==> keys.contains(k),
                forall|j: int|
                    0 <= j < expired@.len() ==> m.dom().contains((#[trigger] expired@[j])@)
                        && m[expired@[j]@].expired(now),
                forall|j: int|
                    0 <= j < i && m[#[trigger] keys[j]].expired(now) ==> exists|p: int|
                        0 <= p < expired@.len() && (#[trigger] expired@[p])@ == keys[j],
            decreases total - i,
        {
            let (key, e) = self.inner.entry_at(i);
            if e.is_expired(now) {
                let ghost before = expired@;
                expired.push(bytes::copy(key.as_slice()));
                proof {
                    assert forall|j: int|
                        0 <= j < i + 1 && m[#[trigger] keys[j]].expired(now) implies exists|p: int|
                        0 <= p < expired@.len() && (#[trigger] expired@[p])@ == keys[j] by {
                        if j < i {
                            let p = choose|p: int|
                                0 <= p < before.len() && (#[trigger] before[p])@ == keys[j];
                            assert(expired@[p]@ == keys[j]);
                        } else {
                            assert(expired@[before.len() as int]@ == keys[j]);
                        }
                    }
                }
            }
            i = i + 1;
        }
        let ghost doomed = m.dom().filter(|k: Seq<u8>| m[k].expired(now));
        let mut next: usize = 0;
        while next < expired.len()
            invariant
                next <= expired@.len(),
                forall|j: int|
                    0 <= j < expired@.len() ==> m.dom().contains((#[trigger] expired@[j])@)
                        && m[expired@[j]@].expired(now),
                forall|k: Seq<u8>|
                    self@.dom().contains(k) <==> m.dom().contains(k) && !(exists|p: int|
                        0 <= p < next && (#[trigger] expired@[p])@ == k),
                forall|k: Seq<u8>| #[trigger] self@.dom().contains(k) ==> self@[k] == m[k],
            decreases expired@.len() - next,
        {
            let ghost before = self@;
            self.inner.remove(expired[next].as_slice());
            proof {
                let gone = expired@[next as int]@;
                assert forall|k: Seq<u8>|
                    self@.dom().contains(k) <==> m.dom().contains(k) && !(exists|p: int|
                        0 <= p < next + 1 && (#[trigger] expired@[p])@ == k) by {
                    if k == gone {
                        assert(expired@[next as int]@ == k);
                    }
                }
            }
            next = next + 1;
        }
        proof {
            assert forall|k: Seq<u8>| self@.dom().contains(k) <==> m.dom().contains(k)
                && !m[k].expired(now) by {
                if m.dom().contains(k) && m[k].expired(now) {
                    assert(keys.contains(k));
                    let j = choose|j: int| 0 <= j < keys.len() && keys[j] == k;
                    assert(m[keys[j]].expired(now));
                    let p = choose|p: int|
                        0 <= p < expired@.len() && (#[trigger] expired@[p])@ == keys[j];
                    assert(expired@[p]@ == k);
                }
                if m.dom().contains(k) && !self@.dom().contains(k) {
                    let p = choose|p: int|
                        0 <= p < expired@.len() && (#[trigger] expired@[p])@ == k;
                    assert(m[expired@[p]@].expired(now));
                }
            }
            assert(self@ =~= unexpired(m, now));
            assert(doomed =~= m.dom().difference(self@.dom()));
            vstd::set_lib::lemma_len_subset(self@.dom(), m.dom());
            vstd::set_lib::lemma_set_difference_len(m.dom(), self@.dom());
            assert(m.dom().intersect(self@.dom()) =~= self@.dom());
        }
        let left: usize = self.inner.len();
        total - left
    }

    /// Sweep every expired entry, returning how many went. The sweeper calls this on a
    /// tick.
    pub fn remove_expired(&mut self) -> (r: Result<usize, CacheError>)
        ensures
            match r {
                Ok(n) => n == old(self)@.dom().len() - final(self)@.dom().len() && exists|
                    now: Milliseconds,
                |
                    {
                        &&& time::is_reading(Ok(now))
                        &&& final(self)@ == #[trigger] unexpired(old(self)@, now)
                    },
                Err(CacheError::SystemTime(e)) => {
                    &&& time::is_reading(Err(e))
                    &&& final(self)@ == old(self)@
                },
                Err(_) => false,
            },
            is_sweep(old(self)@, final(self)@, r),
    {
        match Milliseconds::now() {
            Ok(now) => {
                let n: usize = self.remove_expired_at(now);
                assert(self@ == unexpired(old(self)@, now));
                Ok(n)
            },
            Err(e) => Err(CacheError::SystemTime(e)),
        }
    }

    /// [`Cache::execute`] by the reading `now`.
    pub fn execute_at(&mut self, command: &CacheCommand, now: Milliseconds) -> (r: CommandOutcome)
        ensures
            (final(self)@, r@) == executed(old(self)@, command@, now),
    {
        match command {
            CacheCommand::Read(ReadCommand::Get { key }) => match self.get_at(
                key.as_slice(),
                now,
            ) {
                Some(e) => CommandOutcome::Value(Some(e.value)),
                None => CommandOutcome::Value(None),
            },
            CacheCommand::Read(ReadCommand::Exists { key }) => {
                let found: bool = self.contains_at(key.as_slice(), now);
                CommandOutcome::Integer(
                    if found {
                        1
                    } else {
                        0
                    },
                )
            },
            CacheCommand::Read(ReadCommand::Ttl { key }) => CommandOutcome::Ttl(
                match self.time_to_live_at(key.as_slice(), now) {
                    None => TtlOutcome::KeyNotFound,
                    Some(None) => TtlOutcome::TtlNotFound,
                    Some(Some(left)) => TtlOutcome::Remaining(left.to_seconds_rounded_up()),
                },
            ),
            CacheCommand::Write(c) => self.write_at(c, now),
        }
    }

    /// Carry out a change by the reading `now`.
    pub fn write_at(&mut self, command: &WriteCommand, now: Milliseconds) -> (r: CommandOutcome)
        ensures
            (final(self)@, r@) == written(old(self)@, command@, now),
    {
        match command {
            WriteCommand::SetKey { key, value, expires_at } => {
                let entry = Entry::new(bytes::copy(value.as_slice()), *expires_at);
                self.inner.insert(bytes::copy(key.as_slice()), entry);
                CommandOutcome::Done
            },
            WriteCommand::Delete { key } => {
                let removed = self.inner.remove(key.as_slice());
                CommandOutcome::Bool(removed.is_some())
            },
            WriteCommand::ExpireAt { key, expires_at } => {
                CommandOutcome::Bool(self.set_expires_at_at(key.as_slice(), *expires_at, now))
            },
            WriteCommand::Persist { key } => {
                let cleared: bool = match self.remove_ttl(key.as_slice()) {
                    Ok(b) => b,
                    Err(_) => false,
                };
                CommandOutcome::Bool(cleared)
            },
        }
    }

    /// Run a command. Reads drop what has expired; `TTL` reports whole seconds, rounded up
    /// so a just-set 60s TTL reads back as 60 rather than 59; a plain `SET` clears any TTL
    /// the key already had. The clock is only read where the command cannot do without it.
    pub fn execute(&mut self, command: &CacheCommand) -> (r: Result<CommandOutcome, CacheError>)
        ensures
            match r {
                Ok(outcome) => exists|now: Milliseconds|
                    {
                        &&& needs_clock(old(self)@, command@) ==> time::is_reading(Ok(now))
                        &&& (final(self)@, outcome@) == #[trigger] executed(
                            old(self)@,
                            command@,
                            now,
                        )
                    },
                Err(CacheError::SystemTime(e)) => {
                    &&& needs_clock(old(self)@, command@)
                    &&& time::is_reading(Err(e))
                    &&& final(self)@ == old(self)@
                },
                Err(_) => false,
            },
    {
        let timed: bool = match command {
            CacheCommand::Read(ReadCommand::Get { .. }) => true,
            CacheCommand::Read(ReadCommand::Exists { key }) => match self.inner.get(
                key.as_slice(),
            ) {
                Some(e) => e.expires_at.is_some(),
                None => false,
            },
            CacheCommand::Read(ReadCommand::Ttl { key }) => self.inner.contains_key(key.as_slice()),
            CacheCommand::Write(WriteCommand::ExpireAt { .. }) => true,
            CacheCommand::Write(_) => false,
        };
        let now: Milliseconds = if timed {
            match Milliseconds::now() {
                Ok(now) => now,
                Err(e) => {
                    return Err(CacheError::SystemTime(e));
                },
            }
        } else {
            // The outcome is the same at every reading.
            Milliseconds::new(0)
        };
        let outcome = self.execute_at(command, now);
        assert((self@, outcome@) == executed(old(self)@, command@, now));
        Ok(outcome)
    }
}

/// A command that needs no clock does the same at every reading.
pub proof fn clockless_commands(m: Data, c: CacheCommandView, a: Milliseconds, b: Milliseconds)
    requires
        !needs_clock(m, c),
    ensures
        executed(m, c, a) == executed(m, c, b),
{
}

} // verus!
