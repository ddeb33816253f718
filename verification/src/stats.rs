//! Codec throughput counters and a bounded window of recent timings.
use std::collections::VecDeque;
use std::time::{Duration, Instant};
use vstd::prelude::*;

use crate::metrics::wrap_inc;

verus! {

/// Number of timing samples kept when no window size was set.
pub const DEFAULT_WINDOW: usize = 120;

/// Calls `Instant::now`: the current time.  Nothing is stated of the
/// instant it returns, which depends on the clock.
#[verifier::external_body]
fn instant_now() -> (r: Instant) {
    Instant::now()
}

/// The whole nanoseconds a duration holds, as `Duration::as_nanos` gives
/// them.
pub uninterp spec fn duration_nanos(dur: Duration) -> u128;

/// Calls `Duration::as_nanos`: the whole nanoseconds in `dur`, a value
/// that depends on `dur` alone.  Claimed: the result is `duration_nanos`
/// of the argument; what that is for a given duration is not written out,
/// since `Duration` is opaque here.
#[verifier::external_body]
fn duration_as_nanos(dur: Duration) -> (r: u128)
    ensures
        r == duration_nanos(dur),
{
    dur.as_nanos()
}

/// A duration's nanoseconds, clamped to `u64::MAX`.
pub open spec fn clamped_nanos(dur: Duration) -> u64 {
    if duration_nanos(dur) > u64::MAX {
        u64::MAX
    } else {
        duration_nanos(dur) as u64
    }
}

/// `n`, clamped to `u64::MAX`.
fn clamp_to_u64(n: u128) -> (r: u64)
    ensures
        r == if n > u64::MAX {
            u64::MAX as int
        } else {
            n as int
        },
{
    if n > u64::MAX as u128 {
        u64::MAX
    } else {
        n as u64
    }
}

/// Counters of processed frames, errors and backpressure, with the most
/// recent per-frame timings.  Every holder of a codec's stats sees the
/// same counters: a value is shared by reference (behind a lock where
/// threads share it), never copied, so the type has no `Clone`.
#[derive(Debug)]
pub struct CodecStats {
    processed: u64,
    errors: u64,
    backpressure: u64,
    last_nanos: u64,
    samples: VecDeque<(Instant, u64)>,
    max: usize,
}

impl CodecStats {
    /// Processed, error and backpressure counts.
    pub closed spec fn counts(&self) -> (u64, u64, u64) {
        (self.processed, self.errors, self.backpressure)
    }

    /// Duration in nanoseconds of the last recorded frame; 0 when none.
    pub closed spec fn last(&self) -> u64 {
        self.last_nanos
    }

    /// The timing samples held, oldest first.
    pub closed spec fn window(&self) -> Seq<(Instant, u64)> {
        self.samples@
    }

    /// The number of samples the window holds at most.
    pub closed spec fn window_size(&self) -> usize {
        self.max
    }

    /// The window never holds more samples than its size, which is positive.
    pub closed spec fn inv(&self) -> bool {
        &&& self.max >= 1
        &&& self.samples@.len() <= self.max
    }

    /// Zero counters and an empty window of the default size.
    pub fn new() -> (r: Self)
        ensures
            r.inv(),
            r.counts() == (0u64, 0u64, 0u64),
            r.last() == 0,
            r.window() == Seq::<(Instant, u64)>::empty(),
            r.window_size() == DEFAULT_WINDOW,
    {
        CodecStats {
            processed: 0,
            errors: 0,
            backpressure: 0,
            last_nanos: 0,
            samples: VecDeque::new(),
            max: DEFAULT_WINDOW,
        }
    }

    /// Count one processed frame.
    pub fn inc_processed(&mut self)
        requires
            old(self).inv(),
        ensures
            final(self).inv(),
            final(self).counts() == (wrap_inc(old(self).counts().0), old(self).counts().1, old(
                self,
            ).counts().2),
            final(self).window() == old(self).window(),
            final(self).window_size() == old(self).window_size(),
            final(self).last() == old(self).last(),
    {
        self.processed = bump(self.processed);
    }

    /// Count one error.
    pub fn inc_errors(&mut self)
        requires
            old(self).inv(),
        ensures
            final(self).inv(),
            final(self).counts() == (old(self).counts().0, wrap_inc(old(self).counts().1), old(
                self,
            ).counts().2),
            final(self).window() == old(self).window(),
            final(self).window_size() == old(self).window_size(),
            final(self).last() == old(self).last(),
    {
        self.errors = bump(self.errors);
    }

    /// Count one backpressure event.
    pub fn inc_backpressure(&mut self)
        requires
            old(self).inv(),
        ensures
            final(self).inv(),
            final(self).counts() == (old(self).counts().0, old(self).counts().1, wrap_inc(
                old(self).counts().2,
            )),
            final(self).window() == old(self).window(),
            final(self).window_size() == old(self).window_size(),
            final(self).last() == old(self).last(),
    {
        self.backpressure = bump(self.backpressure);
    }

    /// Processed frames.
    pub fn processed(&self) -> (r: u64)
        ensures
            r == self.counts().0,
    {
        self.processed
    }

    /// Errors.
    pub fn errors(&self) -> (r: u64)
        ensures
            r == self.counts().1,
    {
        self.errors
    }

    /// Backpressure events.
    pub fn backpressure(&self) -> (r: u64)
        ensures
            r == self.counts().2,
    {
        self.backpressure
    }

    /// Number of timing samples in the window.
    pub fn samples(&self) -> (r: u64)
        ensures
            r == self.window().len(),
    {
        self.samples.len() as u64
    }

    /// Duration in nanoseconds of the last recorded frame; 0 when none.
    pub fn last_nanos(&self) -> (r: u64)
        ensures
            r == self.last(),
    {
        self.last_nanos
    }

    /// The durations in the window, oldest first.
    pub fn sample_nanos(&self) -> (r: Vec<u64>)
        ensures
            r@.len() == self.window().len(),
            forall|i: int| 0 <= i < r@.len() ==> #[trigger] r@[i] == self.window()[i].1,
    {
        let mut out: Vec<u64> = Vec::new();
        let mut i: usize = 0;
        while i < self.samples.len()
            invariant
                i <= self.samples@.len(),
                out@.len() == i,
                forall|k: int| 0 <= k < i ==> #[trigger] out@[k] == self.samples@[k].1,
            decreases self.samples@.len() - i,
        {
            out.push(self.samples[i].1);
            i = i + 1;
        }
        out
    }

    /// When the oldest and the newest samples in the window were taken, if
    /// there are at least two.
    pub fn window_bounds(&self) -> (r: Option<(Instant, Instant)>)
        ensures
            self.window().len() < 2 ==> r is None,
            self.window().len() >= 2 ==> r == Some(
                (self.window()[0].0, self.window()[self.window().len() - 1].0),
            ),
    {
        let n = self.samples.len();
        if n < 2 {
            return None;
        }
        Some((self.samples[0].0, self.samples[n - 1].0))
    }

    /// Record a frame that took `nanos` nanoseconds, finished at `at`: it
    /// becomes the last duration and the newest sample, and the oldest
    /// samples leave the window until it fits.
    pub fn record_sample(&mut self, at: Instant, nanos: u64)
        requires
            old(self).inv(),
        ensures
            final(self).inv(),
            final(self).counts() == old(self).counts(),
            final(self).last() == nanos,
            final(self).window_size() == old(self).window_size(),
            ({
                let full = old(self).window().push((at, nanos));
                let keep = if full.len() > old(self).window_size() {
                    old(self).window_size() as int
                } else {
                    full.len() as int
                };
                final(self).window() == full.subrange(full.len() - keep, full.len() as int)
            }),
    {
        self.last_nanos = nanos;
        let ghost full = self.samples@.push((at, nanos));
        self.samples.push_back((at, nanos));
        self.trim();
        proof {
            assert(self.samples@ == full.subrange(full.len() - self.samples@.len(), full.len() as int));
        }
    }

    /// Record how long a frame took: its nanoseconds, clamped to `u64::MAX`,
    /// become the last duration and the newest sample, stamped with the
    /// current time, and the oldest samples leave the window until it fits.
    pub fn record_duration(&mut self, dur: Duration)
        requires
            old(self).inv(),
        ensures
            final(self).inv(),
            final(self).counts() == old(self).counts(),
            final(self).window_size() == old(self).window_size(),
            final(self).window().len() == if old(self).window().len() + 1 > old(
                self,
            ).window_size() {
                old(self).window_size() as int
            } else {
                old(self).window().len() + 1 as int
            },
            final(self).window()[final(self).window().len() - 1].1 == final(self).last(),
            final(self).last() == clamped_nanos(dur),
            ({
                let stamp = final(self).window()[final(self).window().len() - 1].0;
                let full = old(self).window().push((stamp, clamped_nanos(dur)));
                let keep = if full.len() > old(self).window_size() {
                    old(self).window_size() as int
                } else {
                    full.len() as int
                };
                final(self).window() == full.subrange(full.len() - keep, full.len() as int)
            }),
    {
        let nanos = clamp_to_u64(duration_as_nanos(dur));
        let now = instant_now();
        self.record_sample(now, nanos);
    }

    /// Keep at most `window` samples (at least one), dropping the oldest.
    pub fn set_window_size(&mut self, window: usize)
        requires
            old(self).inv(),
        ensures
            final(self).inv(),
            final(self).counts() == old(self).counts(),
            final(self).last() == old(self).last(),
            final(self).window_size() == if window == 0 {
                1
            } else {
                window
            },
            ({
                let w = old(self).window();
                let keep = if w.len() > final(self).window_size() {
                    final(self).window_size() as int
                } else {
                    w.len() as int
                };
                final(self).window() == w.subrange(w.len() - keep, w.len() as int)
            }),
    {
        let window = if window == 0 {
            1
        } else {
            window
        };
        self.max = window;
        self.trim();
    }

    /// Drop the oldest samples until the window fits its size.
    fn trim(&mut self)
        requires
            old(self).max >= 1,
        ensures
            final(self).inv(),
            final(self).max == old(self).max,
            final(self).counts() == old(self).counts(),
            final(self).last_nanos == old(self).last_nanos,
            ({
                let w = old(self).samples@;
                let keep = if w.len() > old(self).max {
                    old(self).max as int
                } else {
                    w.len() as int
                };
                final(self).samples@ == w.subrange(w.len() - keep, w.len() as int)
            }),
    {
        let ghost w = self.samples@;
        while self.samples.len() > self.max
            invariant
                self.max == old(self).max,
                self.max >= 1,
                self.processed == old(self).processed,
                self.errors == old(self).errors,
                self.backpressure == old(self).backpressure,
                self.last_nanos == old(self).last_nanos,
                w == old(self).samples@,
                self.samples@.len() <= w.len(),
                self.samples@.len() >= self.max || w.len() <= self.max,
                w.len() <= self.max ==> self.samples@.len() == w.len(),
                self.samples@ == w.subrange(w.len() - self.samples@.len(), w.len() as int),
            decreases self.samples@.len(),
        {
            self.samples.pop_front();
        }
    }
}

impl Default for CodecStats {
    fn default() -> (r: Self)
        ensures
            r.inv(),
            r.counts() == (0u64, 0u64, 0u64),
            r.last() == 0,
            r.window() == Seq::<(Instant, u64)>::empty(),
            r.window_size() == DEFAULT_WINDOW,
    {
        CodecStats::new()
    }
}

fn bump(n: u64) -> (r: u64)
    ensures
        r == wrap_inc(n),
{
    if n == u64::MAX {
        0
    } else {
        n + 1
    }
}

} // verus!
