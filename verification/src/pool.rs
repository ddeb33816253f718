//! Buffer pool bookkeeping: a free list of fixed-size chunks handed out and
//! taken back, with hit/miss/allocation counters and a bound on how many
//! free chunks are retained.
use vstd::prelude::*;

use crate::frame::{sat_add, sat_mul, saturating_mul};
use crate::metrics::{after_acquire, after_release, metrics_zero, wrap_inc, Metrics, MetricsView};

verus! {

/// Snapshot of a pool's free list, outstanding chunks and counters.
#[derive(Debug, Clone, Copy, PartialEq, Eq, Structural)]
pub struct BufferPoolStats {
    pub chunk_size: usize,
    pub free: usize,
    pub free_bytes: usize,
    pub max_free: usize,
    pub retained: usize,
    pub retained_bytes: usize,
    pub in_use: usize,
    pub in_use_bytes: usize,
    pub peak_in_use: usize,
    pub peak_in_use_bytes: usize,
    pub hits: u64,
    pub misses: u64,
    pub allocations: u64,
}

/// Counters after a lease from a pool with `free` buffers on its free
/// list: a hit when one is free, else a miss and an allocation; one more
/// lease out either way.
pub open spec fn after_lease(m: MetricsView, free: nat) -> MetricsView {
    if free > 0 {
        after_acquire(MetricsView { hits: wrap_inc(m.hits), ..m })
    } else {
        after_acquire(MetricsView { misses: wrap_inc(m.misses), allocations: wrap_inc(m.allocations), ..m })
    }
}

/// A call on a pool: `lease` or `release`.
#[derive(Debug, Clone, Copy, PartialEq, Eq, Structural)]
pub enum PoolOp {
    Lease,
    Release,
}

/// Counters and free-list length of a pool retaining up to `max_free` free
/// buffers, after a sequence of calls, in order.
pub open spec fn pool_run(m: MetricsView, free: nat, max_free: nat, ops: Seq<PoolOp>) -> (MetricsView, nat)
    decreases ops.len(),
{
    if ops.len() == 0 {
        (m, free)
    } else {
        let (pm, pf) = pool_run(m, free, max_free, ops.drop_last());
        match ops.last() {
            PoolOp::Lease => (after_lease(pm, pf), if pf > 0 {
                (pf - 1) as nat
            } else {
                0
            }),
            PoolOp::Release => (after_release(pm), if pf < max_free {
                pf + 1
            } else {
                pf
            }),
        }
    }
}

/// How many leases a sequence of calls takes.
pub open spec fn leases_taken(ops: Seq<PoolOp>) -> nat
    decreases ops.len(),
{
    if ops.len() == 0 {
        0
    } else {
        leases_taken(ops.drop_last()) + if ops.last() == PoolOp::Lease {
            1nat
        } else {
            0nat
        }
    }
}

/// Every lease either reuses a free buffer or allocates exactly one: from
/// a fresh pool, after any calls taking at most `u64::MAX` leases (past
/// that the counters wrap), hits and misses add up to the leases taken and
/// allocations equal misses.
pub proof fn lemma_every_lease_hits_or_allocates(free: nat, max_free: nat, ops: Seq<PoolOp>)
    requires
        leases_taken(ops) <= u64::MAX,
    ensures
        pool_run(metrics_zero(), free, max_free, ops).0.hits + pool_run(metrics_zero(), free, max_free, ops).0.misses
            == leases_taken(ops),
        pool_run(metrics_zero(), free, max_free, ops).0.allocations == pool_run(metrics_zero(), free, max_free, ops).0.misses,
    decreases ops.len(),
{
    if ops.len() > 0 {
        lemma_every_lease_hits_or_allocates(free, max_free, ops.drop_last());
    }
}

/// A pool of `chunk_size`-byte buffers: leases come from the free list when
/// it has one, else are freshly allocated; released buffers are cleared and
/// kept while fewer than `max_free` are free.
pub struct BufferPool {
    free: Vec<Vec<u8>>,
    chunk_size: usize,
    max_free: usize,
    metrics: Metrics,
}

impl BufferPool {
    /// Number of buffers on the free list.
    pub closed spec fn free_count(&self) -> nat {
        self.free@.len()
    }

    /// The buffers on the free list, the next to be handed out last.
    pub closed spec fn free_list(&self) -> Seq<Seq<u8>> {
        self.free@.map_values(|b: Vec<u8>| b@)
    }

    /// Size of each fresh buffer.
    pub closed spec fn chunk(&self) -> usize {
        self.chunk_size
    }

    /// Most free buffers retained.
    pub closed spec fn max_retained(&self) -> usize {
        self.max_free
    }

    /// The pool's counters.
    pub closed spec fn counters(&self) -> MetricsView {
        self.metrics@
    }

    /// A pool starting with `capacity` zeroed buffers of `chunk_size` bytes,
    /// retaining up to `max_free` free ones.
    pub fn with_limits(capacity: usize, chunk_size: usize, max_free: usize) -> (r: Self)
        ensures
            r.free_count() == capacity,
            r.free_list() == Seq::new(capacity as nat, |i: int| Seq::new(chunk_size as nat, |j: int| 0u8)),
            r.chunk() == chunk_size,
            r.max_retained() == max_free,
            r.counters() == (MetricsView {
                hits: 0,
                misses: 0,
                allocations: 0,
                backpressure: 0,
                leases_out: 0,
                peak_leases_out: 0,
            }),
    {
        let mut free: Vec<Vec<u8>> = Vec::new();
        let mut i: usize = 0;
        while i < capacity
            invariant
                i <= capacity,
                free@.len() == i,
                forall|k: int| 0 <= k < i ==> #[trigger] free@[k]@ == Seq::new(chunk_size as nat, |j: int| 0u8),
            decreases capacity - i,
        {
            let chunk = vec![0u8; chunk_size];
            assert(chunk@ =~= Seq::new(chunk_size as nat, |j: int| 0u8));
            free.push(chunk);
            i = i + 1;
        }
        assert(free@.map_values(|b: Vec<u8>| b@) =~= Seq::new(capacity as nat, |k: int| Seq::new(chunk_size as nat, |j: int| 0u8)));
        BufferPool { free, chunk_size, max_free, metrics: Metrics::default() }
    }

    /// A pool starting with `capacity` buffers, all of them retained.
    pub fn with_capacity(capacity: usize, chunk_size: usize) -> (r: Self)
        ensures
            r.free_count() == capacity,
            r.free_list() == Seq::new(capacity as nat, |i: int| Seq::new(chunk_size as nat, |j: int| 0u8)),
            r.chunk() == chunk_size,
            r.max_retained() == capacity,
            r.counters() == (MetricsView {
                hits: 0,
                misses: 0,
                allocations: 0,
                backpressure: 0,
                leases_out: 0,
                peak_leases_out: 0,
            }),
    {
        Self::with_limits(capacity, chunk_size, capacity)
    }

    /// A pool starting empty that allocates on demand.
    pub fn lazy(chunk_size: usize, max_free: usize) -> (r: Self)
        ensures
            r.free_count() == 0,
            r.free_list() == Seq::<Seq<u8>>::empty(),
            r.chunk() == chunk_size,
            r.max_retained() == max_free,
            r.counters() == (MetricsView {
                hits: 0,
                misses: 0,
                allocations: 0,
                backpressure: 0,
                leases_out: 0,
                peak_leases_out: 0,
            }),
    {
        let pool = BufferPool { free: Vec::new(), chunk_size, max_free, metrics: Metrics::default() };
        assert(pool.free_list() =~= Seq::<Seq<u8>>::empty());
        pool
    }

    /// Hand out a buffer: the last free one (a hit), or a fresh zeroed
    /// buffer of `chunk_size` bytes (a miss and an allocation).
    pub fn lease(&mut self) -> (r: Vec<u8>)
        ensures
            final(self).chunk() == old(self).chunk(),
            final(self).max_retained() == old(self).max_retained(),
            final(self).counters() == after_lease(old(self).counters(), old(self).free_count()),
            old(self).free_count() > 0 ==> r@ == old(self).free_list().last() && final(self).free_list()
                == old(self).free_list().drop_last(),
            old(self).free_count() > 0 ==> final(self).free_count() == old(self).free_count() - 1
                && final(self).counters() == after_acquire(
                MetricsView { hits: wrap_inc(old(self).counters().hits), ..old(self).counters() },
            ),
            old(self).free_count() == 0 ==> final(self).free_count() == 0 && r@.len()
                == old(self).chunk() && final(self).counters() == after_acquire(
                MetricsView {
                    misses: wrap_inc(old(self).counters().misses),
                    allocations: wrap_inc(old(self).counters().allocations),
                    ..old(self).counters()
                },
            ),
    {
        let buf = match self.free.pop() {
            Some(b) => {
                self.metrics.hit();
                b
            },
            None => {
                self.metrics.miss();
                self.metrics.record_alloc();
                vec![0u8; self.chunk_size]
            },
        };
        self.metrics.lease_acquired();
        buf
    }

    /// Take a buffer back: it is counted as released, cleared, and kept on
    /// the free list when fewer than `max_free` buffers are free.
    pub fn release(&mut self, buf: Vec<u8>)
        ensures
            final(self).chunk() == old(self).chunk(),
            final(self).max_retained() == old(self).max_retained(),
            final(self).counters() == after_release(old(self).counters()),
            final(self).free_list() == if old(self).free_count() < old(self).max_retained() {
                old(self).free_list().push(Seq::empty())
            } else {
                old(self).free_list()
            },
            final(self).free_count() == if old(self).free_count() < old(self).max_retained() {
                old(self).free_count() + 1
            } else {
                old(self).free_count()
            },
    {
        self.metrics.lease_released();
        let mut buf = buf;
        buf.clear();
        if self.free.len() < self.max_free {
            self.free.push(buf);
        }
    }

    /// Snapshot of the pool: free and outstanding buffers, their bytes at
    /// `chunk_size` each (saturating), and the counters.
    pub fn stats(&self) -> (r: BufferPoolStats)
        ensures
            ({
                let c = self.chunk() as int;
                let free = self.free_count() as int;
                &&& r.chunk_size == self.chunk()
                &&& r.free == free
                &&& r.free_bytes == sat_mul(free, c)
                &&& r.max_free == self.max_retained()
                &&& r.in_use == self.counters().leases_out as usize
                &&& r.in_use_bytes == sat_mul(r.in_use as int, c)
                &&& r.retained == sat_add(free, r.in_use as int)
                &&& r.retained_bytes == sat_mul(r.retained as int, c)
                &&& r.peak_in_use == self.counters().peak_leases_out as usize
                &&& r.peak_in_use_bytes == sat_mul(r.peak_in_use as int, c)
                &&& r.hits == self.counters().hits
                &&& r.misses == self.counters().misses
                &&& r.allocations == self.counters().allocations
            }),
    {
        let free = self.free.len();
        let free_bytes = saturating_mul(free, self.chunk_size);
        let in_use = truncate_count(self.metrics.leases_out());
        let in_use_bytes = saturating_mul(in_use, self.chunk_size);
        let retained = free.saturating_add(in_use);
        let retained_bytes = saturating_mul(retained, self.chunk_size);
        let peak_in_use = truncate_count(self.metrics.peak_leases_out());
        BufferPoolStats {
            chunk_size: self.chunk_size,
            free,
            free_bytes,
            max_free: self.max_free,
            retained,
            retained_bytes,
            in_use,
            in_use_bytes,
            peak_in_use,
            peak_in_use_bytes: saturating_mul(peak_in_use, self.chunk_size),
            hits: self.metrics.hits(),
            misses: self.metrics.misses(),
            allocations: self.metrics.allocations(),
        }
    }
}

/// A 64-bit count as a `usize`, keeping its low-order bits where `usize`
/// is narrower.
fn truncate_count(n: u64) -> (r: usize)
    ensures
        r == n as usize,
{
    n as usize
}

} // verus!
