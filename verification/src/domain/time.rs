//! Clock access and the units deadlines are measured in.
//!
//! Everything below the parser stores and compares deadlines as [`Milliseconds`]. The wire
//! speaks both units (`EXPIRE` and `EXAT` in seconds, `PEXPIREAT` and `PXAT` in millis), so
//! [`Seconds`] exists only long enough to be converted at parse time. Nothing downstream
//! has to care which verb produced a deadline.

use std::time::{Duration, SystemTime, SystemTimeError, UNIX_EPOCH};
use vstd::prelude::*;

use crate::bytes;

verus! {

/// `std::time::SystemTime`, a point in time. Nothing is claimed of its contents.
#[verifier::external_type_specification]
#[verifier::external_body]
pub struct ExSystemTime(std::time::SystemTime);

/// `std::time::SystemTimeError`, a clock reading that lies before the epoch.
#[verifier::external_type_specification]
#[verifier::external_body]
pub struct ExSystemTimeError(std::time::SystemTimeError);

/// `SystemTime::now` reads the system clock. Nothing is claimed of the reading: it is
/// whatever the machine says.
pub assume_specification[ std::time::SystemTime::now ]() -> std::time::SystemTime;

/// How far a reading of the clock lies after the UNIX epoch, or how far before it: what
/// `SystemTime::duration_since` gives for it.
pub uninterp spec fn span_since_epoch(reading: SystemTime) -> Result<Duration, SystemTimeError>;

/// `SystemTime::duration_since`, measured from the UNIX epoch. It fails for a reading that
/// lies before the epoch. Claimed is that the span depends on the reading alone.
#[verifier::external_body]
fn since_epoch(reading: SystemTime) -> (r: Result<Duration, SystemTimeError>)
    ensures
        r == span_since_epoch(reading),
{
    reading.duration_since(UNIX_EPOCH)
}

/// The whole milliseconds in a span: what `Duration::as_millis` counts.
pub uninterp spec fn whole_millis(span: Duration) -> u128;

/// `Duration::as_millis` counts a span in whole milliseconds. Claimed is that the count
/// depends on the span alone.
pub assume_specification[ std::time::Duration::as_millis ](span: &std::time::Duration) -> (r: u128)
    ensures
        r == whole_millis(*span),
;

/// The UNIX time that a reading of the clock stands for, or the clock's error where the
/// reading lies before the epoch.
pub open spec fn unix_time(reading: SystemTime) -> Reading {
    match span_since_epoch(reading) {
        Ok(span) => Ok(Milliseconds(saturated(whole_millis(span) as int))),
        Err(e) => Err(e),
    }
}

/// What reading the clock comes to: the UNIX time, or the clock's error.
pub type Reading = Result<Milliseconds, SystemTimeError>;

/// The clock was read, and it came to `r`.
pub open spec fn is_reading(r: Reading) -> bool {
    exists|reading: SystemTime|
        call_ensures(SystemTime::now, (), reading) && r == #[trigger] unix_time(reading)
}

/// The text that describes a clock before the epoch.
pub open spec fn clock_error_message() -> Seq<u8> {
    bytes::text("second time provided was later than self"@)
}

/// The text that describes a clock before the epoch.
pub fn clock_message() -> (r: Vec<u8>)
    ensures
        r@ == clock_error_message(),
{
    bytes::to_bytes("second time provided was later than self")
}

/// A second count, straight off the wire. Convert to [`Milliseconds`] before it goes
/// anywhere.
#[derive(Debug, Clone, Copy, PartialEq, Eq, PartialOrd, Ord, Hash, Structural)]
pub struct Seconds(pub u64);

impl Seconds {
    /// So many seconds.
    pub fn new(value: u64) -> (r: Self)
        ensures
            r == Seconds(value),
    {
        Seconds(value)
    }

    /// The count.
    pub fn get(&self) -> (r: u64)
        ensures
            r == self.0,
    {
        self.0
    }
}

/// A millisecond count: either a UNIX timestamp or a duration, depending on who made it.
#[derive(Debug, Clone, Copy, PartialEq, Eq, PartialOrd, Ord, Hash, Structural)]
pub struct Milliseconds(pub u64);

impl Default for Milliseconds {
    fn default() -> (r: Self)
        ensures
            r == Milliseconds(0),
    {
        Milliseconds(0)
    }
}

/// `n`, or the largest `u64` where `n` is larger.
pub open spec fn saturated(n: int) -> u64 {
    if n > u64::MAX {
        u64::MAX
    } else {
        n as u64
    }
}

impl Milliseconds {
    /// The sum, clamped at `u64::MAX`.
    pub open spec fn plus(self, other: Milliseconds) -> Milliseconds {
        Milliseconds(saturated(self.0 + other.0))
    }

    /// The difference, floored at zero.
    pub open spec fn minus(self, other: Milliseconds) -> Milliseconds {
        Milliseconds(
            if self.0 >= other.0 {
                (self.0 - other.0) as u64
            } else {
                0
            },
        )
    }

    /// Whole seconds, rounded up.
    pub open spec fn seconds_up(self) -> Seconds {
        Seconds(((self.0 + 999) / 1000) as u64)
    }

    /// A deadline has passed once the clock reaches it.
    pub open spec fn passed_at(self, now: Milliseconds) -> bool {
        now.0 >= self.0
    }

    /// So many milliseconds.
    pub fn new(value: u64) -> (r: Self)
        ensures
            r == Milliseconds(value),
    {
        Milliseconds(value)
    }

    /// The count.
    pub fn get(&self) -> (r: u64)
        ensures
            r == self.0,
    {
        self.0
    }

    /// A millisecond count from the clock, narrowed to 64 bits. It saturates at `u64::MAX`
    /// in year 584,556,019.
    pub fn from_millis(millis: u128) -> (r: Self)
        ensures
            r == Milliseconds(saturated(millis as int)),
    {
        if millis > u64::MAX as u128 {
            Milliseconds(u64::MAX)
        } else {
            Milliseconds(millis as u64)
        }
    }

    /// The UNIX time that a reading of the clock stands for.
    pub fn at(reading: SystemTime) -> (r: Result<Self, SystemTimeError>)
        ensures
            r == unix_time(reading),
    {
        match since_epoch(reading) {
            Ok(span) => Ok(Milliseconds::from_millis(span.as_millis())),
            Err(e) => Err(e),
        }
    }

    /// Current UNIX time, or the clock's error where it stands before the epoch.
    ///
    /// `SystemTime` rather than `Instant` because `Instant` is process-local and these
    /// deadlines outlive the process.
    pub fn now() -> (r: Result<Self, SystemTimeError>)
        ensures
            is_reading(r),
    {
        let reading = SystemTime::now();
        let r = Milliseconds::at(reading);
        assert(r == unix_time(reading));
        r
    }

    /// Difference floored at zero, so a passed deadline reads as no time left.
    #[must_use]
    pub fn saturating_sub(self, other: Self) -> (r: Self)
        ensures
            r == self.minus(other),
    {
        Milliseconds(self.0.saturating_sub(other.0))
    }

    /// Sum clamped at `u64::MAX`. Turns a relative TTL into an absolute deadline.
    #[must_use]
    pub fn saturating_add(self, other: Self) -> (r: Self)
        ensures
            r == self.plus(other),
    {
        Milliseconds(self.0.saturating_add(other.0))
    }

    /// Round up to whole seconds. `TTL` reports seconds, so its reply divides here.
    ///
    /// Up rather than down because this is used on a remaining duration: `SET k v EX 60`
    /// read back a microsecond later has 59.999s left, and that is answered with 60.
    pub fn to_seconds_rounded_up(self) -> (r: Seconds)
        ensures
            r == self.seconds_up(),
    {
        if self.0 % 1000 == 0 {
            Seconds(self.0 / 1000)
        } else {
            Seconds(self.0 / 1000 + 1)
        }
    }
}

impl Seconds {
    /// The same span in milliseconds, clamped at `u64::MAX`.
    pub open spec fn millis(self) -> Milliseconds {
        Milliseconds(saturated(self.0 * 1000))
    }
}

/// Saturating at `u64::MAX` rather than erroring: an absurd `EXPIREAT 99999999999999999999`
/// clamps to a deadline no clock reaches, which is what was asked for anyway.
impl From<Seconds> for Milliseconds {
    fn from(value: Seconds) -> (r: Self) {
        if value.0 > u64::MAX / 1000 {
            Milliseconds(u64::MAX)
        } else {
            Milliseconds(value.0 * 1000)
        }
    }
}

impl vstd::std_specs::convert::FromSpecImpl<Seconds> for Milliseconds {
    open spec fn obeys_from_spec() -> bool {
        true
    }

    open spec fn from_spec(value: Seconds) -> Milliseconds {
        value.millis()
    }
}

/// A count is kept as it is while it fits, and is the largest one where it does not.
pub proof fn counts_are_clamped(n: int)
    requires
        n >= 0,
    ensures
        n <= u64::MAX ==> saturated(n) == n,
        n > u64::MAX ==> saturated(n) == u64::MAX,
{
}

/// A deadline lies as far ahead as was asked for, or as far as deadlines go.
pub proof fn deadlines_lie_ahead(now: Milliseconds, span: Milliseconds)
    ensures
        now.0 + span.0 <= u64::MAX ==> now.plus(span).0 == now.0 + span.0,
        now.0 + span.0 > u64::MAX ==> now.plus(span).0 == u64::MAX,
{
}

/// What is left is what there is between the two, and nothing once the deadline is reached.
pub proof fn time_left_is_the_difference(deadline: Milliseconds, now: Milliseconds)
    ensures
        now.0 < deadline.0 ==> deadline.minus(now).0 == deadline.0 - now.0,
        now.0 >= deadline.0 ==> deadline.minus(now).0 == 0,
        deadline.passed_at(now) == (now.0 >= deadline.0),
{
}

/// A second is a thousand milliseconds, up to where they no longer fit.
pub proof fn a_second_is_a_thousand_milliseconds(s: Seconds)
    ensures
        s.0 * 1000 <= u64::MAX ==> s.millis().0 == s.0 * 1000,
        s.0 * 1000 > u64::MAX ==> s.millis().0 == u64::MAX,
{
}

/// A reading of the clock is the milliseconds since the epoch, or the clock's own error.
pub proof fn readings_count_from_the_epoch(reading: SystemTime)
    ensures
        match span_since_epoch(reading) {
            Ok(span) => {
                &&& unix_time(reading) is Ok
                &&& whole_millis(span) <= u64::MAX ==> unix_time(reading)->Ok_0.0 == whole_millis(
                    span,
                )
                &&& whole_millis(span) > u64::MAX ==> unix_time(reading)->Ok_0.0 == u64::MAX
            },
            Err(e) => unix_time(reading) == Err::<Milliseconds, SystemTimeError>(e),
        },
{
}

/// A whole number of seconds that did not saturate reads back as that many seconds.
pub proof fn seconds_round_trip(s: Seconds)
    requires
        s.0 * 1000 <= u64::MAX,
    ensures
        s.millis().seconds_up() == s,
{
}

/// Rounding up never reports less time than is left, nor a whole second more.
pub proof fn rounding_up_is_tight(m: Milliseconds)
    ensures
        m.seconds_up().0 * 1000 >= m.0,
        m.seconds_up().0 * 1000 < m.0 + 1000,
{
}

/// A deadline set some time ahead, taken back from the same clock reading, leaves that
/// time, unless the deadline saturated.
pub proof fn deadline_leaves_its_span(now: Milliseconds, span: Milliseconds)
    requires
        now.0 + span.0 <= u64::MAX,
    ensures
        now.plus(span).minus(now) == span,
{
}

/// What reading the clock comes to is what the clock said: the milliseconds since the epoch,
/// neither earlier nor later, or its own error.
pub proof fn a_reading_is_the_clocks(r: Reading)
    requires
        is_reading(r),
    ensures
        exists|reading: SystemTime|
            call_ensures(SystemTime::now, (), reading) && match #[trigger] span_since_epoch(
                reading,
            ) {
                Ok(span) => r matches Ok(now) && now.0 == (if whole_millis(span) <= u64::MAX {
                    whole_millis(span) as int
                } else {
                    u64::MAX as int
                }),
                Err(e) => r == Err::<Milliseconds, SystemTimeError>(e),
            },
{
    let reading = choose|reading: SystemTime|
        call_ensures(SystemTime::now, (), reading) && r == #[trigger] unix_time(reading);
    readings_count_from_the_epoch(reading);
}

} // verus!
