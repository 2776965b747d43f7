use vstd::prelude::*;
use std::time::{Duration, Instant};

verus! {

#[verifier::external_type_specification]
#[verifier::external_body]
pub struct ExInstant(Instant);

/// Relies on `std::time::Instant::now`: a reading of the monotonic clock.
#[verifier::external_body]
fn now() -> Instant {
    Instant::now()
}

/// Relies on `std::time::Instant::duration_since`: the time from `earlier` to
/// `later`, zero if `earlier` is the later of the two.
#[verifier::external_body]
fn duration_since(later: &Instant, earlier: &Instant) -> Duration {
    later.duration_since(*earlier)
}

/// Relies on `std::time::Duration::as_millis`: the whole milliseconds of `d`.
#[verifier::external_body]
fn as_millis(d: &Duration) -> u128 {
    d.as_millis()
}

/// What the counter reports for one displayed frame: the milliseconds since
/// the previous report, and the number of the frame.
#[derive(Clone, Copy, Debug, PartialEq, Eq, Structural)]
pub struct FrameTiming {
    pub elapsed_ms: u128,
    pub frame: usize,
}

/// Counts displayed frames and times the gap between them.
pub struct FpsCounter {
    last_second: Instant,
    frame: usize,
}

impl FpsCounter {
    pub closed spec fn frame_count(&self) -> usize {
        self.frame
    }

    /// A counter at frame one, timed from now.
    pub fn start() -> (r: FpsCounter)
        ensures
            r.frame_count() == 1,
    {
        FpsCounter { last_second: now(), frame: 1 }
    }

    /// The number of the next frame to report.
    pub fn frame(&self) -> (r: usize)
        ensures
            r == self.frame_count(),
    {
        self.frame
    }

    /// Reports the current frame with the time since the last report, then
    /// moves on to the next frame.
    pub fn update(&mut self) -> (r: FrameTiming)
        requires
            old(self).frame_count() < usize::MAX,
        ensures
            r.frame == old(self).frame_count(),
            final(self).frame_count() == old(self).frame_count() + 1,
    {
        let frame_start = now();
        let elapsed_ms = as_millis(&duration_since(&frame_start, &self.last_second));
        let timing = FrameTiming { elapsed_ms, frame: self.frame };
        self.last_second = now();
        self.frame = self.frame + 1;
        timing
    }
}

} // verus!
