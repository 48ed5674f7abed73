//! Counting frames against the wall clock.
//!
//! The arithmetic of the counter is verified for every reading of the clock;
//! the clock itself is trusted and nothing is claimed of what it reads.

use core::time::Duration;
use std::time::Instant;
use vstd::prelude::*;

verus! {

/// The standard library's monotonic clock reading, carried through opaquely.
#[verifier::external_type_specification]
#[verifier::external_body]
pub struct ExInstant(Instant);

/// `Instant::now`: the present reading of the monotonic clock. The reading
/// differs from call to call, so no property of it is stated.
#[verifier::external_body]
fn clock_now() -> (now: Instant) {
    Instant::now()
}

/// `Instant::duration_since`: the time that passed from `earlier` to `later`
/// (zero when `earlier` is the later of the two). The readings come from the
/// clock, so no property of the span is stated.
#[verifier::external_body]
fn span_between(later: &Instant, earlier: &Instant) -> (span: Duration) {
    later.duration_since(*earlier)
}

/// `Duration::as_secs`: the whole seconds in a span. The contract leaves the
/// number open, since the spans measured here come from the clock.
pub assume_specification[ Duration::as_secs ](span: &Duration) -> (secs: u64);

/// What `tally` returns: the running count afterwards, and the number of frames
/// to report if a full second has gone by.
pub open spec fn tally_spec(frames: u64, elapsed_secs: u64) -> (u64, Option<u64>) {
    if elapsed_secs >= 1 {
        (0u64, Some((frames + 1) as u64))
    } else {
        ((frames + 1) as u64, None)
    }
}

/// Counts one more frame, given the whole seconds since counting last began.
/// Once a second has passed the total is handed out and the count restarts.
pub fn tally(frames: u64, elapsed_secs: u64) -> (r: (u64, Option<u64>))
    requires
        frames < u64::MAX,
    ensures
        r == tally_spec(frames, elapsed_secs),
        elapsed_secs >= 1 ==> r.0 == 0 && r.1 == Some((frames + 1) as u64),
        elapsed_secs == 0 ==> r.0 == frames + 1 && r.1.is_none(),
{
    let counted: u64 = frames + 1;
    if elapsed_secs >= 1 {
        (0, Some(counted))
    } else {
        (counted, None)
    }
}

/// Counts frames and reports how many were drawn in each second.
pub struct FpsCounter {
    timestamp: Instant,
    count: u64,
}

impl FpsCounter {
    /// Frames counted since the last report.
    pub closed spec fn frames(&self) -> u64 {
        self.count
    }

    /// A counter that starts counting now.
    pub fn new() -> (r: FpsCounter)
        ensures
            r.frames() == 0,
    {
        FpsCounter { timestamp: clock_now(), count: 0 }
    }

    /// Frames counted since the last report.
    pub fn pending(&self) -> (n: u64)
        ensures
            n == self.frames(),
    {
        self.count
    }

    /// Counts one frame. When at least a second has passed since counting
    /// began, returns the number of frames in that span and starts over.
    pub fn count(&mut self) -> (report: Option<u64>)
        requires
            old(self).frames() < u64::MAX,
        ensures
            exists|elapsed_secs: u64|
                (final(self).frames(), report) == #[trigger] tally_spec(
                    old(self).frames(),
                    elapsed_secs,
                ),
            report matches Some(n) ==> n == old(self).frames() + 1 && final(self).frames() == 0,
            report.is_none() ==> final(self).frames() == old(self).frames() + 1,
    {
        let now = clock_now();
        let span = span_between(&now, &self.timestamp);
        let elapsed_secs: u64 = span.as_secs();
        let (frames, report) = tally(self.count, elapsed_secs);
        self.count = frames;
        if report.is_some() {
            self.timestamp = clock_now();
        }
        assert((self.frames(), report) == tally_spec(old(self).frames(), elapsed_secs));
        report
    }
}

} // verus!
