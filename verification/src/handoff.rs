//! The producer/consumer hand-off: a bounded queue with backpressure, and
//! the acquisition loop's decision table. Pushing onto a full queue is
//! refused, which is what makes a slow consumer throttle the producer
//! instead of growing memory without bound.

use vstd::prelude::*;
use crate::sample::Sample;

verus! {

/// One captured burst together with its acquisition timestamp,
/// nanosecond resolution.
pub struct TimedBurst {
    pub samples: Vec<Sample>,
    pub timestamp_ns: u128,
}

/// The bounded hand-off queue between the acquisition side and the
/// processing side. Ownership of a burst transfers whole: a pushed burst
/// is held until popped, never shared.
pub struct HandoffQueue {
    items: Vec<TimedBurst>,
    capacity: usize,
}

impl HandoffQueue {
    /// The queued bursts, oldest first.
    pub closed spec fn contents(&self) -> Seq<TimedBurst> {
        self.items@
    }

    /// The fixed bound on how many bursts may be outstanding.
    pub closed spec fn cap(&self) -> int {
        self.capacity as int
    }

    /// The queue never holds more bursts than its capacity.
    pub open spec fn wf(&self) -> bool {
        self.contents().len() <= self.cap()
    }

    /// Room for one more burst.
    pub open spec fn can_accept(&self) -> bool {
        self.contents().len() < self.cap()
    }

    /// An empty queue with the given capacity.
    pub fn new(capacity: usize) -> (q: HandoffQueue)
        requires
            capacity > 0,
        ensures
            q.wf(),
            q.cap() == capacity,
            q.contents() == Seq::<TimedBurst>::empty(),
    {
        let q = HandoffQueue { items: Vec::new(), capacity };
        proof {
            assert(q.contents() =~= Seq::<TimedBurst>::empty());
        }
        q
    }

    /// How many bursts are outstanding.
    pub fn len(&self) -> (n: usize)
        ensures
            n == self.contents().len(),
    {
        self.items.len()
    }

    /// The fixed capacity.
    pub fn capacity(&self) -> (n: usize)
        ensures
            n == self.cap(),
    {
        self.capacity
    }

    /// Offers a burst. A queue below capacity takes it; a full queue
    /// refuses and hands it back unchanged, and the producer must wait
    /// until the consumer removes one — the backpressure of the hand-off.
    pub fn try_push(&mut self, burst: TimedBurst) -> (r: Option<TimedBurst>)
        requires
            old(self).wf(),
        ensures
            final(self).wf(),
            final(self).cap() == old(self).cap(),
            old(self).can_accept() ==> r is None
                && final(self).contents() == old(self).contents().push(burst),
            !old(self).can_accept() ==> r == Some(burst)
                && final(self).contents() == old(self).contents(),
    {
        if self.items.len() < self.capacity {
            self.items.push(burst);
            None
        } else {
            Some(burst)
        }
    }

    /// Removes the oldest outstanding burst, if any.
    pub fn pop(&mut self) -> (r: Option<TimedBurst>)
        requires
            old(self).wf(),
        ensures
            final(self).wf(),
            final(self).cap() == old(self).cap(),
            old(self).contents().len() == 0 ==> r is None
                && final(self).contents() == old(self).contents(),
            old(self).contents().len() > 0 ==> r == Some(old(self).contents()[0])
                && final(self).contents() == old(self).contents().drop_first(),
    {
        if self.items.len() == 0 {
            None
        } else {
            let burst = self.items.remove(0);
            proof {
                assert(self.items@ =~= old(self).items@.drop_first());
            }
            Some(burst)
        }
    }
}

/// A queue holding as many bursts as its capacity accepts no more: the
/// producer is held back until the consumer removes one, after which
/// there is room again.
pub proof fn lemma_backpressure(full: &HandoffQueue, drained: &HandoffQueue)
    requires
        full.wf(),
        full.contents().len() == full.cap(),
        full.cap() > 0,
        drained.cap() == full.cap(),
        drained.contents().len() < full.contents().len(),
    ensures
        !full.can_accept(),
        drained.can_accept(),
{
}

/// What one iteration of the acquisition loop observed.
#[derive(Clone, Copy, Debug, PartialEq, Eq, Structural)]
pub enum AcqEvent {
    BurstReady,
    ReadFailed,
    QueueFull,
    ReceiverGone,
}

/// What the acquisition loop does next.
#[derive(Clone, Copy, Debug, PartialEq, Eq, Structural)]
pub enum AcqAction {
    Enqueue,
    RetryRead,
    WaitForConsumer,
    TerminateFatal,
}

/// The acquisition loop's decision table: a failed read is transient and
/// the loop retries; a full queue applies backpressure and the loop
/// waits; a consumer that is gone for good is the one fatal condition.
pub fn acquisition_step(event: AcqEvent) -> (a: AcqAction)
    ensures
        event == AcqEvent::BurstReady ==> a == AcqAction::Enqueue,
        event == AcqEvent::ReadFailed ==> a == AcqAction::RetryRead,
        event == AcqEvent::QueueFull ==> a == AcqAction::WaitForConsumer,
        event == AcqEvent::ReceiverGone ==> a == AcqAction::TerminateFatal,
{
    match event {
        AcqEvent::BurstReady => AcqAction::Enqueue,
        AcqEvent::ReadFailed => AcqAction::RetryRead,
        AcqEvent::QueueFull => AcqAction::WaitForConsumer,
        AcqEvent::ReceiverGone => AcqAction::TerminateFatal,
    }
}

} // verus!
