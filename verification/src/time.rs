use vstd::prelude::*;

verus! {

/// A bound on the seconds of every date `chrono` can represent (its dates
/// span about ±8.3 trillion seconds around the epoch).
pub const MAX_ABS_SECS: i64 = 9_000_000_000_000;

/// A point in time in UTC: whole seconds since the Unix epoch and the
/// nanoseconds past that second (at or above one billion only during a leap
/// second).
#[derive(Debug, Clone, Copy, PartialEq, Eq, Structural)]
pub struct Timestamp {
    pub secs: i64,
    pub nanos: u32,
}

impl Timestamp {
    /// Holds of every time a `chrono::DateTime<Utc>` can hold; it keeps the
    /// arithmetic on timestamps in range.
    pub open spec fn wf(self) -> bool {
        &&& -MAX_ABS_SECS < self.secs < MAX_ABS_SECS
        &&& self.nanos < 2_000_000_000
    }

    /// Microseconds since the epoch, as `DateTime::timestamp_micros` counts
    /// them: whole seconds times a million plus the whole microseconds of the
    /// fraction.
    pub open spec fn micros_spec(self) -> int {
        self.secs * 1_000_000 + self.nanos / 1000
    }

    /// Chronological order, as `DateTime<Utc>` compares: by second, then by
    /// nanosecond.
    pub open spec fn before(self, other: Timestamp) -> bool {
        self.secs < other.secs || (self.secs == other.secs && self.nanos < other.nanos)
    }

    pub fn timestamp_micros(&self) -> (m: i64)
        requires
            self.wf(),
        ensures
            m == self.micros_spec(),
    {
        assert(-9_000_000_000_000_000_000 < self.secs * 1_000_000 < 9_000_000_000_000_000_000) by (nonlinear_arith)
            requires
                -MAX_ABS_SECS < self.secs < MAX_ABS_SECS,
        ;
        self.secs * 1_000_000 + (self.nanos / 1000) as i64
    }

    /// Whether `self` comes strictly before `other`.
    pub fn is_before(&self, other: &Timestamp) -> (b: bool)
        ensures
            b == self.before(*other),
    {
        self.secs < other.secs || (self.secs == other.secs && self.nanos < other.nanos)
    }
}

/// Calls `chrono::Utc::now` and takes the seconds and sub-second nanoseconds
/// of the result. The clock decides the value; the contract claims only that
/// it lies in the range `chrono` can represent.
#[verifier::external_body]
pub(crate) fn now() -> (t: Timestamp)
    ensures
        t.wf(),
{
    let t = chrono::Utc::now();
    Timestamp { secs: t.timestamp(), nanos: t.timestamp_subsec_nanos() }
}

} // verus!
