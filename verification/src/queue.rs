//! Bounded FIFO queue semantics: the decisions of sending, receiving and
//! closing, with the pressure counters that go with them.
use std::collections::VecDeque;
use vstd::prelude::*;

use crate::metrics::wrap_inc;

verus! {

/// Result of attempting to enqueue.
#[derive(Debug, Clone, Copy, PartialEq, Eq, Structural)]
pub enum SendOutcome {
    /// Value was accepted.
    Sent,
    /// Queue is full.
    Full,
    /// Queue is closed.
    Closed,
}

/// Result of attempting to dequeue.
#[derive(Debug)]
pub enum RecvOutcome<T> {
    /// Received value.
    Data(T),
    /// Queue has been closed and drained.
    Closed,
    /// Queue currently empty.
    Empty,
}

/// Result of waiting for a receive operation.
#[derive(Debug)]
pub enum RecvWaitOutcome<T> {
    /// Received value.
    Data(T),
    /// Queue has been closed and drained.
    Closed,
    /// Timed out while waiting for data.
    Timeout,
}

/// Result of waiting for a send operation.
#[derive(Debug)]
pub enum SendWaitOutcome<T> {
    /// Value was accepted.
    Sent,
    /// Queue has been closed.
    Closed(T),
    /// Timed out while waiting for capacity.
    Timeout(T),
}

/// What a waiting send does after one attempt.
#[derive(Debug)]
pub enum SendWaitStep<T> {
    /// The wait is over.
    Done(SendWaitOutcome<T>),
    /// No room yet: wait for a receive or closure, then try again.
    Wait(T),
}

/// What a waiting receive does after one attempt.
#[derive(Debug)]
pub enum RecvWaitStep<T> {
    /// The wait is over.
    Done(RecvWaitOutcome<T>),
    /// Nothing yet: wait for a send or closure, then try again.
    Wait,
}

/// Snapshot of bounded queue pressure and wait behavior.
#[derive(Debug, Clone, Copy, PartialEq, Eq, Structural)]
pub struct QueueStats {
    pub depth: u64,
    pub capacity: u64,
    pub send_backpressure: u64,
    pub send_timeouts: u64,
    pub recv_empty: u64,
    pub recv_timeouts: u64,
}

impl Default for QueueStats {
    fn default() -> (r: Self)
        ensures
            r == (QueueStats {
                depth: 0,
                capacity: 0,
                send_backpressure: 0,
                send_timeouts: 0,
                recv_empty: 0,
                recv_timeouts: 0,
            }),
    {
        QueueStats {
            depth: 0,
            capacity: 0,
            send_backpressure: 0,
            send_timeouts: 0,
            recv_empty: 0,
            recv_timeouts: 0,
        }
    }
}

/// Default capacity of [`BoundedQueue::default_bounded`].
pub const DEFAULT_QUEUE_CAPACITY: usize = 4;

/// A bounded first-in first-out queue that can be closed.
///
/// Items are kept in arrival order; at most `capacity` are held.  Closing
/// stops further sends while the items already held can still be received.
pub struct BoundedQueue<T> {
    items: VecDeque<T>,
    capacity: usize,
    closed: bool,
    send_backpressure: u64,
    send_timeouts: u64,
    recv_empty: u64,
    recv_timeouts: u64,
}

impl<T> BoundedQueue<T> {
    /// The items held, oldest first.
    pub closed spec fn items(&self) -> Seq<T> {
        self.items@
    }

    /// The largest number of items the queue holds.
    pub closed spec fn cap(&self) -> nat {
        self.capacity as nat
    }

    /// Whether the queue has been closed.
    pub closed spec fn is_closed(&self) -> bool {
        self.closed
    }

    /// The counters, as a stats record without depth and capacity.
    pub closed spec fn counters(&self) -> (u64, u64, u64, u64) {
        (self.send_backpressure, self.send_timeouts, self.recv_empty, self.recv_timeouts)
    }

    /// The queue never holds more than its capacity, which is positive.
    pub closed spec fn inv(&self) -> bool {
        &&& self.items@.len() <= self.capacity
        &&& self.capacity > 0
    }

    /// An open, empty queue holding at most `capacity` items.
    pub fn new(capacity: usize) -> (r: Self)
        requires
            capacity > 0,
        ensures
            r.inv(),
            r.items() == Seq::<T>::empty(),
            r.cap() == capacity,
            !r.is_closed(),
            r.counters() == (0u64, 0u64, 0u64, 0u64),
    {
        BoundedQueue {
            items: VecDeque::new(),
            capacity,
            closed: false,
            send_backpressure: 0,
            send_timeouts: 0,
            recv_empty: 0,
            recv_timeouts: 0,
        }
    }

    /// An open, empty queue of the default capacity.
    pub fn default_bounded() -> (r: Self)
        ensures
            r.inv(),
            r.items() == Seq::<T>::empty(),
            r.cap() == DEFAULT_QUEUE_CAPACITY,
            !r.is_closed(),
    {
        Self::new(DEFAULT_QUEUE_CAPACITY)
    }

    /// Append `value` when there is room, handing it back otherwise.  The
    /// closed flag is not consulted.
    pub fn try_push(&mut self, value: T) -> (r: Result<(), T>)
        requires
            old(self).inv(),
        ensures
            final(self).inv(),
            final(self).cap() == old(self).cap(),
            final(self).is_closed() == old(self).is_closed(),
            final(self).counters() == old(self).counters(),
            old(self).items().len() < old(self).cap() ==> r is Ok && final(self).items()
                == old(self).items().push(value),
            old(self).items().len() >= old(self).cap() ==> r == Err::<(), T>(value)
                && final(self).items() == old(self).items(),
    {
        if self.items.len() < self.capacity {
            self.items.push_back(value);
            Ok(())
        } else {
            Err(value)
        }
    }

    /// Attempt to send without blocking: `Closed` once closed, `Full` (counted
    /// as backpressure, the value dropped) when at capacity, else `Ok`.
    pub fn send(&mut self, value: T) -> (r: SendOutcome)
        requires
            old(self).inv(),
        ensures
            final(self).inv(),
            final(self).cap() == old(self).cap(),
            final(self).is_closed() == old(self).is_closed(),
            old(self).is_closed() ==> r == SendOutcome::Closed && final(self).items()
                == old(self).items() && final(self).counters() == old(self).counters(),
            !old(self).is_closed() && old(self).items().len() < old(self).cap() ==> r
                == SendOutcome::Sent && final(self).items() == old(self).items().push(value)
                && final(self).counters() == old(self).counters(),
            !old(self).is_closed() && old(self).items().len() >= old(self).cap() ==> r
                == SendOutcome::Full && final(self).items() == old(self).items()
                && final(self).counters() == (
                wrap_inc(old(self).counters().0),
                old(self).counters().1,
                old(self).counters().2,
                old(self).counters().3,
            ),
    {
        if self.closed {
            return SendOutcome::Closed;
        }
        match self.try_push(value) {
            Ok(()) => SendOutcome::Sent,
            Err(_) => {
                self.send_backpressure = bump(self.send_backpressure);
                SendOutcome::Full
            },
        }
    }

    /// Take the oldest item; when there is none, `Closed` once closed and
    /// `Empty` (counted) otherwise.
    pub fn recv(&mut self) -> (r: RecvOutcome<T>)
        requires
            old(self).inv(),
        ensures
            final(self).inv(),
            final(self).cap() == old(self).cap(),
            final(self).is_closed() == old(self).is_closed(),
            old(self).items().len() > 0 ==> r == RecvOutcome::Data(old(self).items()[0])
                && final(self).items() == old(self).items().drop_first()
                && final(self).counters() == old(self).counters(),
            old(self).items().len() == 0 && old(self).is_closed() ==> r
                == RecvOutcome::<T>::Closed && final(self).items() == old(self).items()
                && final(self).counters() == old(self).counters(),
            old(self).items().len() == 0 && !old(self).is_closed() ==> r
                == RecvOutcome::<T>::Empty && final(self).items() == old(self).items()
                && final(self).counters() == (
                old(self).counters().0,
                old(self).counters().1,
                wrap_inc(old(self).counters().2),
                old(self).counters().3,
            ),
    {
        match self.items.pop_front() {
            Some(value) => RecvOutcome::Data(value),
            None => {
                if self.closed {
                    RecvOutcome::Closed
                } else {
                    self.recv_empty = bump(self.recv_empty);
                    RecvOutcome::Empty
                }
            },
        }
    }

    /// Close the queue to further sends.
    pub fn close(&mut self)
        requires
            old(self).inv(),
        ensures
            final(self).inv(),
            final(self).is_closed(),
            final(self).items() == old(self).items(),
            final(self).cap() == old(self).cap(),
            final(self).counters() == old(self).counters(),
    {
        self.closed = true;
    }

    /// Whether the queue has been closed.
    pub fn closed(&self) -> (r: bool)
        ensures
            r == self.is_closed(),
    {
        self.closed
    }

    /// Current queue depth.
    pub fn len(&self) -> (r: usize)
        ensures
            r == self.items().len(),
    {
        self.items.len()
    }

    /// Whether the queue currently contains no items.
    pub fn is_empty(&self) -> (r: bool)
        ensures
            r == (self.items().len() == 0),
    {
        self.items.len() == 0
    }

    /// Queue capacity.
    pub fn capacity(&self) -> (r: usize)
        ensures
            r == self.cap(),
    {
        self.capacity
    }

    /// One attempt of a send that waits for capacity: a closed queue hands
    /// the value back; room takes it; otherwise the wait times out (and is
    /// counted) once its deadline has passed, or goes on.
    pub fn send_wait_step(&mut self, value: T, deadline_passed: bool) -> (r: SendWaitStep<T>)
        requires
            old(self).inv(),
        ensures
            final(self).inv(),
            final(self).cap() == old(self).cap(),
            final(self).is_closed() == old(self).is_closed(),
            old(self).is_closed() ==> r == SendWaitStep::Done(SendWaitOutcome::Closed(value))
                && final(self).items() == old(self).items() && final(self).counters() == old(
                self,
            ).counters(),
            !old(self).is_closed() && old(self).items().len() < old(self).cap() ==> r
                == SendWaitStep::<T>::Done(SendWaitOutcome::Sent) && final(self).items() == old(
                self,
            ).items().push(value) && final(self).counters() == old(self).counters(),
            !old(self).is_closed() && old(self).items().len() >= old(self).cap() && deadline_passed
                ==> r == SendWaitStep::Done(SendWaitOutcome::Timeout(value)) && final(self).items()
                == old(self).items() && final(self).counters() == (
                old(self).counters().0,
                wrap_inc(old(self).counters().1),
                old(self).counters().2,
                old(self).counters().3,
            ),
            !old(self).is_closed() && old(self).items().len() >= old(self).cap() && !deadline_passed
                ==> r == SendWaitStep::Wait(value) && final(self).items() == old(self).items()
                && final(self).counters() == old(self).counters(),
    {
        if self.closed {
            return SendWaitStep::Done(SendWaitOutcome::Closed(value));
        }
        match self.try_push(value) {
            Ok(()) => SendWaitStep::Done(SendWaitOutcome::Sent),
            Err(v) => {
                if deadline_passed {
                    self.note_send_timeout();
                    SendWaitStep::Done(SendWaitOutcome::Timeout(v))
                } else {
                    SendWaitStep::Wait(v)
                }
            },
        }
    }

    /// One attempt of a receive that waits for data: data or a closed,
    /// drained queue ends the wait; an empty open queue is counted as such,
    /// and the wait times out (and is counted) once its deadline has
    /// passed, or goes on.
    pub fn recv_wait_step(&mut self, deadline_passed: bool) -> (r: RecvWaitStep<T>)
        requires
            old(self).inv(),
        ensures
            final(self).inv(),
            final(self).cap() == old(self).cap(),
            final(self).is_closed() == old(self).is_closed(),
            old(self).items().len() > 0 ==> r == RecvWaitStep::Done(RecvWaitOutcome::Data(old(self).items()[0]))
                && final(self).items() == old(self).items().drop_first()
                && final(self).counters() == old(self).counters(),
            old(self).items().len() == 0 && old(self).is_closed() ==> r
                == RecvWaitStep::<T>::Done(RecvWaitOutcome::Closed) && final(self).items() == old(self).items()
                && final(self).counters() == old(self).counters(),
            old(self).items().len() == 0 && !old(self).is_closed() && deadline_passed ==> r
                == RecvWaitStep::<T>::Done(RecvWaitOutcome::Timeout) && final(self).items() == old(self).items()
                && final(self).counters() == (
                old(self).counters().0,
                old(self).counters().1,
                wrap_inc(old(self).counters().2),
                wrap_inc(old(self).counters().3),
            ),
            old(self).items().len() == 0 && !old(self).is_closed() && !deadline_passed ==> r
                == RecvWaitStep::<T>::Wait && final(self).items() == old(self).items()
                && final(self).counters() == (
                old(self).counters().0,
                old(self).counters().1,
                wrap_inc(old(self).counters().2),
                old(self).counters().3,
            ),
    {
        match self.recv() {
            RecvOutcome::Data(v) => RecvWaitStep::Done(RecvWaitOutcome::Data(v)),
            RecvOutcome::Closed => RecvWaitStep::Done(RecvWaitOutcome::Closed),
            RecvOutcome::Empty => {
                if deadline_passed {
                    self.note_recv_timeout();
                    RecvWaitStep::Done(RecvWaitOutcome::Timeout)
                } else {
                    RecvWaitStep::Wait
                }
            },
        }
    }

    /// Count a send that gave up waiting for capacity.
    pub fn note_send_timeout(&mut self)
        requires
            old(self).inv(),
        ensures
            final(self).inv(),
            final(self).items() == old(self).items(),
            final(self).cap() == old(self).cap(),
            final(self).is_closed() == old(self).is_closed(),
            final(self).counters() == (
                old(self).counters().0,
                wrap_inc(old(self).counters().1),
                old(self).counters().2,
                old(self).counters().3,
            ),
    {
        self.send_timeouts = bump(self.send_timeouts);
    }

    /// Count a receive that gave up waiting for data.
    pub fn note_recv_timeout(&mut self)
        requires
            old(self).inv(),
        ensures
            final(self).inv(),
            final(self).items() == old(self).items(),
            final(self).cap() == old(self).cap(),
            final(self).is_closed() == old(self).is_closed(),
            final(self).counters() == (
                old(self).counters().0,
                old(self).counters().1,
                old(self).counters().2,
                wrap_inc(old(self).counters().3),
            ),
    {
        self.recv_timeouts = bump(self.recv_timeouts);
    }

    /// Snapshot bounded queue stats.
    pub fn stats(&self) -> (r: QueueStats)
        ensures
            r.depth == self.items().len(),
            r.capacity == self.cap(),
            (r.send_backpressure, r.send_timeouts, r.recv_empty, r.recv_timeouts)
                == self.counters(),
    {
        QueueStats {
            depth: self.items.len() as u64,
            capacity: self.capacity as u64,
            send_backpressure: self.send_backpressure,
            send_timeouts: self.send_timeouts,
            recv_empty: self.recv_empty,
            recv_timeouts: self.recv_timeouts,
        }
    }
}

fn bump(n: u64) -> (r: u64)
    ensures
        r == wrap_inc(n),
{
    if n == u64::MAX {
        0
    } else {
        n + 1
    }
}


/// First in, first out: the contents of a queue after `send` accepts `v`
/// are the previous contents followed by `v`, and `recv` takes from the
/// front; so on a non-empty queue a send and a receive commute, and the
/// value sent comes out after exactly the values queued before it.
pub proof fn lemma_fifo<T>(items: Seq<T>, v: T)
    ensures
        items.len() > 0 ==> items.push(v).drop_first() == items.drop_first().push(v),
        items.push(v).subrange(0, items.len() as int) == items,
        items.push(v)[items.len() as int] == v,
{
    if items.len() > 0 {
        assert(items.push(v).drop_first() =~= items.drop_first().push(v));
    }
    assert(items.push(v).subrange(0, items.len() as int) =~= items);
}

} // verus!
