//! Counters for buffer-pool and queue pressure.
use vstd::prelude::*;

verus! {

/// `n + 1`, wrapping to zero past `u64::MAX` as an atomic counter does.
pub open spec fn wrap_inc(n: u64) -> u64 {
    if n == u64::MAX {
        0
    } else {
        (n + 1) as u64
    }
}

/// `n - 1`, wrapping to `u64::MAX` below zero as an atomic counter does.
pub open spec fn wrap_dec(n: u64) -> u64 {
    if n == 0 {
        u64::MAX
    } else {
        (n - 1) as u64
    }
}

/// The counters of a [`Metrics`].
pub struct MetricsView {
    pub hits: u64,
    pub misses: u64,
    pub allocations: u64,
    pub backpressure: u64,
    pub leases_out: u64,
    pub peak_leases_out: u64,
}

/// Counters after one more lease was checked out: the lease count goes up by
/// one and the high-water mark rises to it when it is higher.
pub open spec fn after_acquire(m: MetricsView) -> MetricsView {
    let current: u64 = if m.leases_out == u64::MAX {
        u64::MAX
    } else {
        (m.leases_out + 1) as u64
    };
    MetricsView {
        leases_out: wrap_inc(m.leases_out),
        peak_leases_out: if current > m.peak_leases_out {
            current
        } else {
            m.peak_leases_out
        },
        ..m
    }
}

/// Counters after a lease was returned.
pub open spec fn after_release(m: MetricsView) -> MetricsView {
    MetricsView { leases_out: wrap_dec(m.leases_out), ..m }
}

/// One update of a [`Metrics`]: the method of that name was called.
#[derive(Debug, Clone, Copy, PartialEq, Eq, Structural)]
pub enum MetricsEvent {
    Hit,
    Miss,
    Alloc,
    Backpressure,
    LeaseAcquired,
    LeaseReleased,
}

/// Counters after one update.
pub open spec fn metrics_step(m: MetricsView, e: MetricsEvent) -> MetricsView {
    match e {
        MetricsEvent::Hit => MetricsView { hits: wrap_inc(m.hits), ..m },
        MetricsEvent::Miss => MetricsView { misses: wrap_inc(m.misses), ..m },
        MetricsEvent::Alloc => MetricsView { allocations: wrap_inc(m.allocations), ..m },
        MetricsEvent::Backpressure => MetricsView { backpressure: wrap_inc(m.backpressure), ..m },
        MetricsEvent::LeaseAcquired => after_acquire(m),
        MetricsEvent::LeaseReleased => after_release(m),
    }
}

/// Counters after a sequence of updates, in order.
pub open spec fn metrics_run(m: MetricsView, events: Seq<MetricsEvent>) -> MetricsView
    decreases events.len(),
{
    if events.len() == 0 {
        m
    } else {
        metrics_step(metrics_run(m, events.drop_last()), events.last())
    }
}

/// Leases out after a sequence of updates, counted without wrapping:
/// checkouts less returns.
pub open spec fn leases_counted(events: Seq<MetricsEvent>) -> int
    decreases events.len(),
{
    if events.len() == 0 {
        0
    } else {
        leases_counted(events.drop_last()) + match events.last() {
            MetricsEvent::LeaseAcquired => 1int,
            MetricsEvent::LeaseReleased => -1int,
            _ => 0int,
        }
    }
}

/// The largest number of leases out at any point of a sequence of updates
/// (0 before the first).
pub open spec fn leases_peak(events: Seq<MetricsEvent>) -> int
    decreases events.len(),
{
    if events.len() == 0 {
        0
    } else {
        let before = leases_peak(events.drop_last());
        let now = leases_counted(events);
        if now > before {
            now
        } else {
            before
        }
    }
}

/// The counters of fresh [`Metrics`].
pub open spec fn metrics_zero() -> MetricsView {
    MetricsView { hits: 0, misses: 0, allocations: 0, backpressure: 0, leases_out: 0, peak_leases_out: 0 }
}

/// From fresh counters, through any updates in which returns never
/// outnumber checkouts and at most `u64::MAX` leases are ever out (past
/// that the count wraps), the lease count is the checkouts less the
/// returns, and the high-water mark is the largest lease count ever
/// reached, 0 if none was taken; so it never falls below the current
/// count.
pub proof fn lemma_peak_is_largest_reached(events: Seq<MetricsEvent>)
    requires
        forall|i: int| 0 <= i <= events.len() ==> 0 <= #[trigger] leases_counted(events.take(i)) <= u64::MAX,
    ensures
        metrics_run(metrics_zero(), events).leases_out == leases_counted(events),
        metrics_run(metrics_zero(), events).peak_leases_out == leases_peak(events),
        metrics_run(metrics_zero(), events).peak_leases_out >= metrics_run(metrics_zero(), events).leases_out,
    decreases events.len(),
{
    if events.len() > 0 {
        let prev = events.drop_last();
        assert forall|i: int| 0 <= i <= prev.len() implies 0 <= #[trigger] leases_counted(prev.take(i)) <= u64::MAX by {
            assert(prev.take(i) == events.take(i));
        }
        lemma_peak_is_largest_reached(prev);
        assert(events.take(events.len() as int) == events);
        assert(events.take(prev.len() as int) == prev);
        assert(0 <= leases_counted(events.take(events.len() as int)) <= u64::MAX);
        assert(0 <= leases_counted(events.take(prev.len() as int)) <= u64::MAX);
        lemma_peak_at_least_count(prev);
    } else {
        assert(events.take(0) == events);
    }
}

proof fn lemma_peak_at_least_count(events: Seq<MetricsEvent>)
    ensures
        leases_peak(events) >= leases_counted(events),
        leases_peak(events) >= 0,
    decreases events.len(),
{
    if events.len() > 0 {
        lemma_peak_at_least_count(events.drop_last());
    }
}

/// Lightweight counters for pool/queue backpressure.
#[derive(Debug, Clone)]
pub struct Metrics {
    hits: u64,
    misses: u64,
    allocations: u64,
    backpressure: u64,
    leases_out: u64,
    peak_leases_out: u64,
}

impl View for Metrics {
    type V = MetricsView;

    closed spec fn view(&self) -> MetricsView {
        MetricsView {
            hits: self.hits,
            misses: self.misses,
            allocations: self.allocations,
            backpressure: self.backpressure,
            leases_out: self.leases_out,
            peak_leases_out: self.peak_leases_out,
        }
    }
}

impl Default for Metrics {
    fn default() -> (r: Self)
        ensures
            r@ == metrics_zero(),
            r@ == (MetricsView {
                hits: 0,
                misses: 0,
                allocations: 0,
                backpressure: 0,
                leases_out: 0,
                peak_leases_out: 0,
            }),
    {
        Metrics {
            hits: 0,
            misses: 0,
            allocations: 0,
            backpressure: 0,
            leases_out: 0,
            peak_leases_out: 0,
        }
    }
}

fn inc(n: u64) -> (r: u64)
    ensures
        r == wrap_inc(n),
{
    if n == u64::MAX {
        0
    } else {
        n + 1
    }
}

impl Metrics {
    /// Increment hit counter.
    pub fn hit(&mut self)
        ensures
            final(self)@ == (MetricsView { hits: wrap_inc(old(self)@.hits), ..old(self)@ }),
            final(self)@ == metrics_step(old(self)@, MetricsEvent::Hit),
    {
        self.hits = inc(self.hits);
    }

    /// Increment miss counter.
    pub fn miss(&mut self)
        ensures
            final(self)@ == (MetricsView { misses: wrap_inc(old(self)@.misses), ..old(self)@ }),
            final(self)@ == metrics_step(old(self)@, MetricsEvent::Miss),
    {
        self.misses = inc(self.misses);
    }

    /// Increment allocation counter.
    pub fn record_alloc(&mut self)
        ensures
            final(self)@ == (MetricsView {
                allocations: wrap_inc(old(self)@.allocations),
                ..old(self)@
            }),
            final(self)@ == metrics_step(old(self)@, MetricsEvent::Alloc),
    {
        self.allocations = inc(self.allocations);
    }

    /// Increment backpressure counter.
    pub fn backpressure(&mut self)
        ensures
            final(self)@ == (MetricsView {
                backpressure: wrap_inc(old(self)@.backpressure),
                ..old(self)@
            }),
            final(self)@ == metrics_step(old(self)@, MetricsEvent::Backpressure),
    {
        self.backpressure = inc(self.backpressure);
    }

    /// Record a checked-out pooled buffer.
    pub fn lease_acquired(&mut self)
        ensures
            final(self)@ == after_acquire(old(self)@),
            final(self)@ == metrics_step(old(self)@, MetricsEvent::LeaseAcquired),
    {
        let previous = self.leases_out;
        self.leases_out = inc(previous);
        let current = previous.saturating_add(1);
        if current > self.peak_leases_out {
            self.peak_leases_out = current;
        }
    }

    /// Record a returned/dropped lease.
    pub fn lease_released(&mut self)
        ensures
            final(self)@ == after_release(old(self)@),
            final(self)@ == metrics_step(old(self)@, MetricsEvent::LeaseReleased),
    {
        self.leases_out = if self.leases_out == 0 {
            u64::MAX
        } else {
            self.leases_out - 1
        };
    }

    /// Snapshot of hits.
    pub fn hits(&self) -> (r: u64)
        ensures
            r == self@.hits,
    {
        self.hits
    }

    /// Snapshot of misses.
    pub fn misses(&self) -> (r: u64)
        ensures
            r == self@.misses,
    {
        self.misses
    }

    /// Snapshot of allocations.
    pub fn allocations(&self) -> (r: u64)
        ensures
            r == self@.allocations,
    {
        self.allocations
    }

    /// Snapshot of backpressure events.
    pub fn backpressure_count(&self) -> (r: u64)
        ensures
            r == self@.backpressure,
    {
        self.backpressure
    }

    /// Snapshot of currently checked-out buffers.
    pub fn leases_out(&self) -> (r: u64)
        ensures
            r == self@.leases_out,
    {
        self.leases_out
    }

    /// High-water mark of concurrently checked-out buffers.
    pub fn peak_leases_out(&self) -> (r: u64)
        ensures
            r == self@.peak_leases_out,
    {
        self.peak_leases_out
    }
}

/// The high-water mark never falls below the number of leases out: a
/// checkout keeps it at or above the new count, and a return (of a lease
/// that was out) only lowers the count.
pub proof fn lemma_peak_covers_leases_out(m: MetricsView)
    requires
        m.leases_out <= m.peak_leases_out,
        m.leases_out < u64::MAX,
    ensures
        after_acquire(m).leases_out <= after_acquire(m).peak_leases_out,
        after_acquire(m).peak_leases_out >= m.peak_leases_out,
        m.leases_out > 0 ==> after_release(m).leases_out <= after_release(m).peak_leases_out,
        after_release(m).peak_leases_out == m.peak_leases_out,
{
}

/// A checkout followed by a return leaves the lease count as it was and the
/// high-water mark at least where it was.
pub proof fn lemma_acquire_release_restores_count(m: MetricsView)
    requires
        m.leases_out < u64::MAX,
    ensures
        after_release(after_acquire(m)).leases_out == m.leases_out,
        after_release(after_acquire(m)).peak_leases_out >= m.peak_leases_out,
        after_release(after_acquire(m)).hits == m.hits,
{
}

} // verus!
