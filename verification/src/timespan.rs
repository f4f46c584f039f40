use vstd::prelude::*;

verus! {

/// One end of a span of time; instants are microseconds since the Unix epoch.
#[derive(Clone, Copy, Debug, PartialEq, Eq, Structural)]
pub enum TimeBound {
    Included(i64),
    Excluded(i64),
    Unbounded,
}

/// A span of time with a lower and an upper end, as a database range column holds it.
#[derive(Clone, Copy, Debug, PartialEq, Eq, Structural)]
pub struct Timespan {
    pub lower: TimeBound,
    pub upper: TimeBound,
}

/// Microseconds in one second.
pub const MICROS_PER_SEC: i64 = 1_000_000;

/// The span from `start` (included) to `end` (excluded).
pub open spec fn half_open(start: i64, end: i64) -> Timespan {
    Timespan { lower: TimeBound::Included(start), upper: TimeBound::Excluded(end) }
}

impl Timespan {
    /// The span from `start` (included) to `end` (excluded).
    pub fn new(start: i64, end: i64) -> (t: Timespan)
        ensures
            t == half_open(start, end),
    {
        Timespan { lower: TimeBound::Included(start), upper: TimeBound::Excluded(end) }
    }
}

/// The instant of a bound that has one.
pub open spec fn bound_instant(b: TimeBound) -> i64
    recommends
        !(b is Unbounded),
{
    match b {
        TimeBound::Included(x) => x,
        TimeBound::Excluded(x) => x,
        TimeBound::Unbounded => 0,
    }
}

} // verus!
