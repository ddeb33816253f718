//! Bookkeeping behind the image conversions: one value (a buffer pool) kept
//! for each of the few most recently used frame sizes, and the counters of
//! staging copies.
use vstd::prelude::*;

use crate::frame::{sat_mul, saturating_mul};

verus! {

/// Frame sizes for which a pool is kept.
pub const PACKED_FRAME_POOL_SLOTS: usize = 4;

/// No two entries share a key.
pub open spec fn keys_unique<T>(s: Seq<(usize, T)>) -> bool {
    forall|i: int, j: int| 0 <= i < j < s.len() ==> s[i].0 != s[j].0
}

/// The index of the first entry with key `k`, if any.
pub open spec fn key_index<T>(s: Seq<(usize, T)>, k: usize) -> Option<int> {
    if exists|i: int| 0 <= i < s.len() && s[i].0 == k {
        Some(choose|i: int| 0 <= i < s.len() && s[i].0 == k)
    } else {
        None
    }
}

/// The entries after `k` is used: a present entry moves to the front; a
/// new one (with `fresh`) is put in front and the least recent entry past
/// the capacity is dropped.
pub open spec fn after_use<T>(s: Seq<(usize, T)>, k: usize, fresh: T) -> Seq<(usize, T)> {
    match key_index(s, k) {
        Some(i) => seq![s[i]] + s.remove(i),
        None => {
            let grown = seq![(k, fresh)] + s;
            if grown.len() > PACKED_FRAME_POOL_SLOTS {
                grown.take(PACKED_FRAME_POOL_SLOTS as int)
            } else {
                grown
            }
        },
    }
}

/// Values kept for the most recently used keys, most recent first.
pub struct RecentSlots<T> {
    slots: Vec<(usize, T)>,
}

impl<T> RecentSlots<T> {
    /// The entries, most recent first.
    pub closed spec fn entries(&self) -> Seq<(usize, T)> {
        self.slots@
    }

    /// Keys are unique and at most `PACKED_FRAME_POOL_SLOTS` are kept.
    pub open spec fn wf(&self) -> bool {
        keys_unique(self.entries()) && self.entries().len() <= PACKED_FRAME_POOL_SLOTS
    }

    /// No entries.
    pub fn new() -> (r: Self)
        ensures
            r.entries() == Seq::<(usize, T)>::empty(),
            r.wf(),
    {
        RecentSlots { slots: Vec::new() }
    }

    /// Use key `k`: its entry moves to the front, or an entry holding
    /// `fresh` is made for it; returns whether it was present.
    pub fn touch(&mut self, k: usize, fresh: T) -> (hit: bool)
        requires
            old(self).wf(),
        ensures
            hit == (key_index(old(self).entries(), k) is Some),
            final(self).entries() == after_use(old(self).entries(), k, fresh),
            final(self).wf(),
            final(self).entries()[0].0 == k,
    {
        let n = self.slots.len();
        let mut i: usize = 0;
        while i < n
            invariant
                i <= n,
                n == self.slots@.len(),
                self.slots@ == old(self).slots@,
                keys_unique(self.slots@),
                self.slots@.len() <= PACKED_FRAME_POOL_SLOTS,
                forall|j: int| 0 <= j < i ==> self.slots@[j].0 != k,
            decreases n - i,
        {
            if self.slots[i].0 == k {
                proof {
                    let s = self.slots@;
                    assert(s[i as int].0 == k);
                    let c = choose|j: int| 0 <= j < s.len() && s[j].0 == k;
                    assert(c == i) by {
                        if c < i {
                        } else if c > i {
                            assert(s[i as int].0 != s[c].0);
                        }
                    }
                }
                let e = self.slots.remove(i);
                self.slots.insert(0, e);
                proof {
                    let s = old(self).slots@;
                    let r = self.slots@;
                    assert forall|a: int, b: int| 0 <= a < b < r.len() implies r[a].0 != r[b].0 by {
                        let ia = if a == 0 {
                            i as int
                        } else if a - 1 < i {
                            a - 1
                        } else {
                            a
                        };
                        let ib = if b - 1 < i {
                            b - 1
                        } else {
                            b
                        };
                        assert(r[a] == s[ia]);
                        assert(r[b] == s[ib]);
                        assert(ia != ib);
                        if ia < ib {
                        } else {
                        }
                    }
                }
                return true;
            }
            i = i + 1;
        }
        proof {
            assert(!(exists|j: int| 0 <= j < self.slots@.len() && self.slots@[j].0 == k));
        }
        self.slots.insert(0, (k, fresh));
        if self.slots.len() > PACKED_FRAME_POOL_SLOTS {
            self.slots.truncate(PACKED_FRAME_POOL_SLOTS);
        }
        proof {
            let s = old(self).slots@;
            let r = self.slots@;
            assert forall|a: int, b: int| 0 <= a < b < r.len() implies r[a].0 != r[b].0 by {
                if a == 0 {
                    assert(r[b] == s[b - 1]);
                } else {
                    assert(r[a] == s[a - 1]);
                    assert(r[b] == s[b - 1]);
                }
            }
        }
        false
    }

    /// The most recent entry's value.
    pub fn front(&self) -> (r: &T)
        requires
            self.entries().len() > 0,
        ensures
            *r == self.entries()[0].1,
    {
        &self.slots[0].1
    }

    /// Number of entries.
    pub fn len(&self) -> (r: usize)
        ensures
            r == self.entries().len(),
    {
        self.slots.len()
    }

    /// The entry at position `i`, most recent first.
    pub fn get(&self, i: usize) -> (r: &(usize, T))
        requires
            i < self.entries().len(),
        ensures
            *r == self.entries()[i as int],
    {
        &self.slots[i]
    }

    /// Drop every entry.
    pub fn clear(&mut self)
        ensures
            final(self).entries() == Seq::<(usize, T)>::empty(),
            final(self).wf(),
    {
        self.slots = Vec::new();
    }
}

/// Counters of the copies made into staging buffers.
#[derive(Debug, Clone, Copy, PartialEq, Eq, Structural)]
pub struct StagingCopyStats {
    /// Copies made (wrapping).
    pub copies: u64,
    /// Bytes copied in all (wrapping).
    pub bytes: u64,
    /// Bytes of the largest single copy.
    pub peak_copy_bytes: u64,
}

/// The counters after a copy of `bytes` bytes: one more copy, the bytes
/// added, both wrapping, and the peak raised to the copy where it is
/// larger.
pub open spec fn after_copy(s: StagingCopyStats, bytes: u64) -> StagingCopyStats {
    StagingCopyStats {
        copies: if s.copies == u64::MAX {
            0
        } else {
            (s.copies + 1) as u64
        },
        bytes: ((s.bytes + bytes) % 0x1_0000_0000_0000_0000) as u64,
        peak_copy_bytes: if bytes > s.peak_copy_bytes {
            bytes
        } else {
            s.peak_copy_bytes
        },
    }
}

impl Default for StagingCopyStats {
    fn default() -> (r: Self)
        ensures
            r == (StagingCopyStats { copies: 0, bytes: 0, peak_copy_bytes: 0 }),
    {
        StagingCopyStats { copies: 0, bytes: 0, peak_copy_bytes: 0 }
    }
}

impl StagingCopyStats {
    /// Count a copy of `bytes` bytes.
    pub fn record(&mut self, bytes: u64)
        ensures
            *final(self) == after_copy(*old(self), bytes),
    {
        self.copies = self.copies.wrapping_add(1);
        self.bytes = self.bytes.wrapping_add(bytes);
        if bytes > self.peak_copy_bytes {
            self.peak_copy_bytes = bytes;
        }
    }
}

/// Recording a copy leaves the peak at least that copy, and no lower than
/// it was.
pub proof fn lemma_peak_bounds_each_copy(s: StagingCopyStats, bytes: u64)
    ensures
        after_copy(s, bytes).peak_copy_bytes >= bytes,
        after_copy(s, bytes).peak_copy_bytes >= s.peak_copy_bytes,
{
}

/// Bytes from which rows read out of an external plane are first staged in
/// one contiguous copy.
pub const STAGE_THRESHOLD_BYTES: usize = 262144;

/// Whether the `height` rows of `src_stride` bytes read out of an external
/// plane of `plane_len` bytes are staged first: the plane holds them all
/// and they reach the threshold.
pub fn stages_external_copy(plane_len: usize, src_stride: usize, height: usize) -> (r: bool)
    ensures
        r == (plane_len >= sat_mul(src_stride as int, height as int) && sat_mul(src_stride as int, height as int)
            >= STAGE_THRESHOLD_BYTES),
{
    let required = saturating_mul(src_stride, height);
    plane_len >= required && required >= STAGE_THRESHOLD_BYTES
}

} // verus!
