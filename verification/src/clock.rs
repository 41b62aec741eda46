//! Elapsed time and deadlines.
use vstd::prelude::*;

verus! {

pub const NANOS_PER_SEC: u32 = 1_000_000_000;

/// A length of time: whole seconds, and nanoseconds below a second.
#[derive(Clone, Copy, Debug, PartialEq, Eq, Structural)]
pub struct Span {
    pub secs: u64,
    pub nanos: u32,
}

impl Span {
    pub open spec fn wf(self) -> bool {
        self.nanos < NANOS_PER_SEC
    }

    /// The same length in nanoseconds.
    pub open spec fn total_nanos(self) -> int {
        self.secs * NANOS_PER_SEC + self.nanos
    }

    /// Whether the fraction of a second is below a second.
    pub fn is_well_formed(&self) -> (yes: bool)
        ensures
            yes == self.wf(),
    {
        self.nanos < NANOS_PER_SEC
    }
}

/// Whether `limit` seconds have not yet gone by after `elapsed`.
pub open spec fn before_deadline(elapsed: Span, limit: u64) -> bool {
    elapsed.total_nanos() < limit * NANOS_PER_SEC
}

/// What is left of `limit` seconds after `elapsed`, if anything is.
pub open spec fn left_of(elapsed: Span, limit: u64) -> Option<Span> {
    if before_deadline(elapsed, limit) {
        Some(
            Span {
                secs: ((limit * NANOS_PER_SEC - elapsed.total_nanos()) / NANOS_PER_SEC as int) as u64,
                nanos: ((limit * NANOS_PER_SEC - elapsed.total_nanos()) % NANOS_PER_SEC as int) as u32,
            },
        )
    } else {
        None
    }
}

/// The time that is left of `limit` seconds, or nothing once they are over.
pub fn time_left(elapsed: Span, limit: u64) -> (left: Option<Span>)
    requires
        elapsed.wf(),
    ensures
        left == left_of(elapsed, limit),
        left is Some <==> before_deadline(elapsed, limit),
        left is Some <==> elapsed.secs < limit,
        left matches Some(span) ==> span.nanos < 1_000_000_000 && (elapsed.secs + span.secs)
            * 1_000_000_000 + elapsed.nanos + span.nanos == limit * 1_000_000_000,
        left matches Some(span) ==> span.wf() && span.total_nanos() == limit * NANOS_PER_SEC
            - elapsed.total_nanos(),
{
    if elapsed.secs >= limit {
        None
    } else if elapsed.nanos == 0 {
        Some(Span { secs: limit - elapsed.secs, nanos: 0 })
    } else {
        Some(Span { secs: limit - elapsed.secs - 1, nanos: NANOS_PER_SEC - elapsed.nanos })
    }
}

/// Waiting out what `time_left` returns reaches the deadline exactly.
pub proof fn law_wait_reaches_deadline(elapsed: Span, limit: u64)
    requires
        elapsed.wf(),
        before_deadline(elapsed, limit),
    ensures
        left_of(elapsed, limit)->0.wf(),
        elapsed.total_nanos() + left_of(elapsed, limit)->0.total_nanos() == limit * NANOS_PER_SEC,
{
}

/// Time is left exactly while fewer whole seconds have passed than the limit, and
/// what is left, put to what has passed, is the limit to the nanosecond.
pub proof fn law_what_is_left_makes_up_the_limit(elapsed: Span, limit: u64)
    requires
        elapsed.nanos < 1_000_000_000,
    ensures
        elapsed.wf(),
        before_deadline(elapsed, limit) <==> elapsed.secs < limit,
        left_of(elapsed, limit) is Some <==> elapsed.secs < limit,
        left_of(elapsed, limit) matches Some(left) ==> left.nanos < 1_000_000_000 && (elapsed.secs
            + left.secs) * 1_000_000_000 + elapsed.nanos + left.nanos == limit * 1_000_000_000,
        elapsed.total_nanos() == elapsed.secs * 1_000_000_000 + elapsed.nanos,
{
}

/// A later look at the clock leaves no more time than an earlier one.
pub proof fn law_time_only_runs_out(earlier: Span, later: Span, limit: u64)
    requires
        earlier.wf(),
        later.wf(),
        earlier.total_nanos() <= later.total_nanos(),
        left_of(later, limit) is Some,
    ensures
        left_of(earlier, limit) is Some,
        left_of(earlier, limit)->0.total_nanos() - left_of(later, limit)->0.total_nanos()
            == later.total_nanos() - earlier.total_nanos(),
{
}

} // verus!
