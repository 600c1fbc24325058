//! Report windows: closed intervals on the time line, and the window that a
//! report holds its own against.

use crate::error::ReportError;
use crate::instant::{Instant, NANOS_PER_SEC};
use vstd::prelude::*;

verus! {

/// Nanoseconds from the epoch to the earliest bound of a window: where the
/// window before the longest window of instants begins.
pub const EARLIEST_NANOS: i128 = -377_736_998_400_999_999_999;

/// Nanoseconds from the epoch to the latest bound of a window: thirty days
/// after the last instant.
pub const LATEST_NANOS: i128 = 253_404_979_199_999_999_999;

/// Whether a window may begin or end `n` nanoseconds after the epoch.
pub open spec fn reachable(n: int) -> bool {
    EARLIEST_NANOS <= n <= LATEST_NANOS
}

/// Where the window before `[start, end]` ends: one second before `start`.
pub open spec fn previous_end(start: int) -> int {
    start - NANOS_PER_SEC
}

/// Where the window before `[start, end]` starts: as long before its end as
/// `start` is before `end`.
pub open spec fn previous_start(start: int, end: int) -> int {
    previous_end(start) - (end - start)
}

/// The window before `[start, end]` is as long as that window and ends before
/// it starts, so the two never overlap; a window of a single instant has a
/// single instant before it.
pub proof fn law_previous_window(start: int, end: int)
    requires
        start <= end,
    ensures
        previous_end(start) - previous_start(start, end) == end - start,
        previous_end(start) < start,
        previous_start(start, end) <= previous_end(start),
        start == end ==> previous_start(start, end) == previous_end(start),
{
}

/// A point on the UTC time line where a window begins or ends. Bounds reach
/// further than instants do: to the start of the window before any window of
/// instants, and to thirty days after any instant.
#[derive(Clone, Copy, Debug, PartialEq, Eq)]
pub struct Bound {
    nanos: i128,
}

impl View for Bound {
    type V = int;

    /// Nanoseconds since the epoch.
    open spec fn view(&self) -> int {
        self.spec_nanos() as int
    }
}

impl Bound {
    /// Nanoseconds since the epoch.
    pub closed spec fn spec_nanos(&self) -> i128 {
        self.nanos
    }

    /// The bound lies where windows may begin or end.
    #[verifier::type_invariant]
    pub open spec fn wf(self) -> bool {
        reachable(self.spec_nanos() as int)
    }

    /// The bound at an instant.
    pub fn at(t: &Instant) -> (r: Bound)
        ensures
            r.wf(),
            r@ == t@,
    {
        Bound { nanos: t.to_nanos() }
    }

    /// The bound `n` nanoseconds after the epoch.
    pub(crate) fn within(n: i128) -> (r: Bound)
        requires
            reachable(n as int),
        ensures
            r.wf(),
            r@ == n,
    {
        Bound { nanos: n }
    }

    /// Nanoseconds since the epoch.
    #[verifier::when_used_as_spec(spec_nanos)]
    pub fn to_nanos(&self) -> (r: i128)
        ensures
            r == self.spec_nanos(),
            self.wf(),
    {
        proof {
            use_type_invariant(self);
        }
        self.nanos
    }

    /// Whole seconds since the epoch, rounded towards the past.
    pub fn secs(&self) -> (r: i64)
        ensures
            r == self@ / (NANOS_PER_SEC as int),
    {
        proof {
            use_type_invariant(self);
        }
        let above: i128 = self.nanos + 377_736_998_401_000_000_000;
        (above / 1_000_000_000 - 377_736_998_401) as i64
    }

    /// Nanoseconds past the whole second.
    pub fn subsec_nanos(&self) -> (r: u32)
        ensures
            r == self@ % (NANOS_PER_SEC as int),
    {
        proof {
            use_type_invariant(self);
        }
        let above: i128 = self.nanos + 377_736_998_401_000_000_000;
        (above % 1_000_000_000) as u32
    }
}

/// A closed interval `[start, end]` on the time line with `start <= end`.
#[derive(Clone, Copy, Debug, PartialEq, Eq)]
pub struct ReportWindow {
    start: Bound,
    end: Bound,
}

impl ReportWindow {
    /// Where the window begins.
    pub closed spec fn spec_start(&self) -> Bound {
        self.start
    }

    /// Where the window ends.
    pub closed spec fn spec_end(&self) -> Bound {
        self.end
    }

    /// Both bounds lie where windows may, and the start is not after the end.
    #[verifier::type_invariant]
    pub open spec fn wf(self) -> bool {
        &&& self.spec_start().wf()
        &&& self.spec_end().wf()
        &&& self.spec_start()@ <= self.spec_end()@
    }

    /// Whether the instant `t` nanoseconds after the epoch lies in the window.
    pub open spec fn holds(self, t: int) -> bool {
        self.spec_start()@ <= t <= self.spec_end()@
    }

    /// The window from `start` to `end`, both included. It is `InvalidRange`
    /// exactly where `end` is before `start`.
    pub fn new(start: Instant, end: Instant) -> (r: Result<ReportWindow, ReportError>)
        ensures
            r is Ok == (start@ <= end@),
            r matches Ok(w) ==> w.wf() && w.spec_start()@ == start@ && w.spec_end()@ == end@,
            r matches Err(e) ==> e == ReportError::InvalidRange,
    {
        if end.precedes(&start) {
            return Err(ReportError::InvalidRange);
        }
        Ok(ReportWindow { start: Bound::at(&start), end: Bound::at(&end) })
    }

    /// The window between two bounds, both included.
    pub(crate) fn between(start: Bound, end: Bound) -> (r: ReportWindow)
        requires
            start@ <= end@,
        ensures
            r.wf(),
            r.spec_start() == start,
            r.spec_end() == end,
    {
        proof {
            use_type_invariant(&start);
            use_type_invariant(&end);
        }
        ReportWindow { start, end }
    }

    /// Where the window begins.
    #[verifier::when_used_as_spec(spec_start)]
    pub fn start(&self) -> (r: Bound)
        ensures
            r == self.spec_start(),
            self.wf(),
    {
        proof {
            use_type_invariant(self);
        }
        self.start
    }

    /// Where the window ends.
    #[verifier::when_used_as_spec(spec_end)]
    pub fn end(&self) -> (r: Bound)
        ensures
            r == self.spec_end(),
            self.wf(),
    {
        proof {
            use_type_invariant(self);
        }
        self.end
    }

    /// Whether `t` lies in the window, bounds included.
    pub fn contains(&self, t: &Instant) -> (r: bool)
        ensures
            r == self.holds(t@),
    {
        let at: i128 = t.to_nanos();
        self.start.to_nanos() <= at && at <= self.end.to_nanos()
    }
}

/// The window before `[start, end]`: as long as it, and ending one second
/// before `start`. It is `InvalidRange` exactly where `end` is before `start`.
pub fn resolve_previous_window(start: Instant, end: Instant) -> (r: Result<
    ReportWindow,
    ReportError,
>)
    ensures
        r is Ok == (start@ <= end@),
        r matches Ok(w) ==> {
            &&& w.wf()
            &&& w.spec_start()@ == previous_start(start@, end@)
            &&& w.spec_end()@ == previous_end(start@)
            &&& w.spec_end()@ - w.spec_start()@ == end@ - start@
            &&& w.spec_end()@ < start@
        },
        r matches Err(e) ==> e == ReportError::InvalidRange,
{
    if end.precedes(&start) {
        return Err(ReportError::InvalidRange);
    }
    let first: i128 = start.to_nanos();
    let last: i128 = end.to_nanos();
    let before: i128 = first - 1_000_000_000;
    Ok(ReportWindow::between(Bound::within(before - (last - first)), Bound::within(before)))
}

} // verus!
