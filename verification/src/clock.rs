use vstd::prelude::*;

verus! {

/// The earliest second, counted from the Unix epoch, that chrono's
/// `DateTime<Utc>` can hold (January 1 of the year -262143).
pub const MIN_UNIX_SECS: i64 = -8334601228800;

/// The latest second, counted from the Unix epoch, that chrono's
/// `DateTime<Utc>` can hold (December 31 of the year 262142, 23:59:59).
pub const MAX_UNIX_SECS: i64 = 8210266876799;

/// The largest number of seconds that chrono's `TimeDelta::seconds` accepts
/// (`i64::MAX / 1000`), in either direction.
pub const MAX_DELTA_SECS: i64 = 9223372036854775;

/// An instant in UTC: whole seconds from the Unix epoch and the
/// nanoseconds past that second.
#[derive(Clone, Copy, Debug, PartialEq, Eq, Structural)]
pub struct Timestamp {
    pub secs: i64,
    pub nanos: u32,
}

impl Timestamp {
    /// An instant that chrono's `DateTime<Utc>` can hold, not in a leap
    /// second.
    pub open spec fn valid(self) -> bool {
        &&& MIN_UNIX_SECS <= self.secs <= MAX_UNIX_SECS
        &&& self.nanos < 1_000_000_000
    }

    /// Nanoseconds from the Unix epoch.
    pub open spec fn total_nanos(self) -> int {
        self.secs * 1_000_000_000 + self.nanos
    }

    /// Whether `self` is strictly before `other`.
    pub open spec fn before(self, other: Timestamp) -> bool {
        self.secs < other.secs || (self.secs == other.secs && self.nanos < other.nanos)
    }

    /// Tests `before`.
    pub fn is_before(&self, other: &Timestamp) -> (res: bool)
        ensures
            res == self.before(*other),
    {
        self.secs < other.secs || (self.secs == other.secs && self.nanos < other.nanos)
    }
}

/// Between valid instants, `before` is the order of the instants in time.
pub proof fn lemma_before_is_time_order(a: Timestamp, b: Timestamp)
    requires
        a.valid(),
        b.valid(),
    ensures
        a.before(b) <==> a.total_nanos() < b.total_nanos(),
{
}

/// Whole seconds in a span of `d` nanoseconds, rounded toward zero.
pub open spec fn whole_seconds(d: int) -> int {
    if d >= 0 {
        d / 1_000_000_000
    } else {
        -((-d) / 1_000_000_000)
    }
}

/// The instant `secs` whole seconds after `t`.
pub open spec fn plus_seconds(t: Timestamp, secs: int) -> Timestamp {
    Timestamp { secs: (t.secs + secs) as i64, nanos: t.nanos }
}

/// Whether chrono can add `secs` seconds to `t` without panicking: the
/// count fits a `TimeDelta` and the sum stays in the `DateTime<Utc>` range.
pub open spec fn can_add_seconds(t: Timestamp, secs: int) -> bool {
    &&& -MAX_DELTA_SECS <= secs <= MAX_DELTA_SECS
    &&& MIN_UNIX_SECS <= t.secs + secs <= MAX_UNIX_SECS
}

/// Tests `can_add_seconds`.
pub fn addable(t: Timestamp, secs: i64) -> (res: bool)
    ensures
        res == can_add_seconds(t, secs as int),
{
    -MAX_DELTA_SECS <= secs && secs <= MAX_DELTA_SECS && MIN_UNIX_SECS as i128 <= t.secs as i128
        + secs as i128 && t.secs as i128 + secs as i128 <= MAX_UNIX_SECS as i128
}

/// `chrono::Utc::now()`: the current time, read from the system clock.
/// chrono builds it from the time since the Unix epoch (panicking if the
/// clock is before it) with a sub-second part below one second, through
/// `DateTime::from_timestamp(..).unwrap()`; so the instant is valid and not
/// before the epoch. Which instant comes back is not stated.
#[verifier::external_body]
pub(crate) fn now_utc() -> (res: Timestamp)
    ensures
        res.valid(),
        res.secs >= 0,
{
    let now = chrono::Utc::now();
    Timestamp { secs: now.timestamp(), nanos: now.timestamp_subsec_nanos() }
}

/// `chrono::DateTime::<Utc>::from_timestamp(secs, 0)`: the instant `secs`
/// seconds after the epoch when chrono can hold it, else `None`. The
/// result is read back with `timestamp()` and `timestamp_subsec_nanos()`,
/// which chrono documents to round-trip.
#[verifier::external_body]
pub(crate) fn timestamp_from_unix(secs: i64) -> (res: Option<Timestamp>)
    ensures
        res == (if MIN_UNIX_SECS <= secs <= MAX_UNIX_SECS {
            Some(Timestamp { secs, nanos: 0 })
        } else {
            None
        }),
{
    chrono::DateTime::<chrono::Utc>::from_timestamp(secs, 0).map(
        |d| Timestamp { secs: d.timestamp(), nanos: d.timestamp_subsec_nanos() },
    )
}

/// `DateTime<Utc> + TimeDelta::seconds(secs)`: the instant `secs` seconds
/// after `t`. Both chrono calls panic outside `can_add_seconds`, which the
/// precondition rules out. `t` is carried into chrono by
/// `DateTime::from_timestamp`, which succeeds on a valid instant.
#[verifier::external_body]
pub(crate) fn add_seconds(t: Timestamp, secs: i64) -> (res: Timestamp)
    requires
        t.valid(),
        can_add_seconds(t, secs as int),
    ensures
        res == plus_seconds(t, secs as int),
        res.valid(),
{
    let d = chrono::DateTime::<chrono::Utc>::from_timestamp(t.secs, t.nanos).unwrap()
        + chrono::Duration::seconds(secs);
    Timestamp { secs: d.timestamp(), nanos: d.timestamp_subsec_nanos() }
}

/// `(later - earlier).num_seconds()` on chrono's `DateTime<Utc>`: the span
/// between the instants in whole seconds, rounded toward zero. The
/// instants are carried into chrono by `DateTime::from_timestamp`, which
/// succeeds on valid instants.
#[verifier::external_body]
pub(crate) fn whole_seconds_between(later: Timestamp, earlier: Timestamp) -> (res: i64)
    requires
        later.valid(),
        earlier.valid(),
    ensures
        res as int == whole_seconds(later.total_nanos() - earlier.total_nanos()),
{
    let a = chrono::DateTime::<chrono::Utc>::from_timestamp(later.secs, later.nanos).unwrap();
    let b = chrono::DateTime::<chrono::Utc>::from_timestamp(earlier.secs, earlier.nanos).unwrap();
    (a - b).num_seconds()
}

} // verus!
