use styx::metrics::Metrics;
use styx::pool::BufferPool;

#[test]
fn lazy_pool_starts_empty_and_recycles_on_release() {
    let mut pool = BufferPool::lazy(16, 2);
    let stats = pool.stats();
    assert_eq!(stats.free, 0);
    assert_eq!(stats.retained, 0);

    let lease = pool.lease();
    assert_eq!(pool.stats().in_use, 1);
    pool.release(lease);

    let stats = pool.stats();
    assert_eq!(stats.free, 1);
    assert_eq!(stats.retained, 1);
    assert_eq!(stats.retained_bytes, 16);
}

#[test]
fn pool_reuses_free_buffers_and_bounds_the_free_list() {
    let mut pool = BufferPool::with_limits(1, 8, 1);
    let a = pool.lease();
    assert_eq!(a.len(), 8);
    let b = pool.lease();
    assert_eq!(b.len(), 8);
    let stats = pool.stats();
    assert_eq!(stats.hits, 1);
    assert_eq!(stats.misses, 1);
    assert_eq!(stats.allocations, 1);
    assert_eq!(stats.in_use, 2);
    assert_eq!(stats.peak_in_use, 2);
    pool.release(a);
    pool.release(b);
    let stats = pool.stats();
    assert_eq!(stats.free, 1);
    assert_eq!(stats.in_use, 0);
    assert_eq!(stats.peak_in_use_bytes, 16);
    let c = pool.lease();
    assert!(c.is_empty());
    assert_eq!(pool.stats().hits, 2);
}

#[test]
fn peak_leases_is_the_largest_count_reached() {
    let mut m = Metrics::default();
    m.lease_acquired();
    m.lease_acquired();
    m.lease_released();
    m.hit();
    m.lease_acquired();
    m.lease_acquired();
    m.lease_released();
    m.backpressure();
    m.lease_released();
    assert_eq!(m.leases_out(), 1);
    assert_eq!(m.peak_leases_out(), 3);
}

#[test]
fn every_lease_is_a_hit_or_an_allocation() {
    let mut pool = BufferPool::lazy(8, 4);
    let a = pool.lease();
    let b = pool.lease();
    pool.release(a);
    let c = pool.lease();
    let d = pool.lease();
    pool.release(b);
    pool.release(c);
    let _e = pool.lease();
    let _f = pool.lease();
    pool.release(d);
    let stats = pool.stats();
    assert_eq!(stats.hits + stats.misses, 6);
    assert_eq!(stats.allocations, stats.misses);
    assert_eq!(stats.misses, 3);
    assert_eq!(stats.hits, 3);
}

#[test]
fn a_hit_hands_back_the_last_returned_buffer_cleared() {
    let mut pool = BufferPool::lazy(4, 2);
    let mut a = pool.lease();
    assert_eq!(a, vec![0u8; 4]);
    a[0] = 9;
    pool.release(a);
    let again = pool.lease();
    assert!(again.is_empty());
}
