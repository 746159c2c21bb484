//! The event queue capability: a strict FIFO of events, swappable by the
//! caller. Insertion order is the dispatch order.
use vstd::prelude::*;

use crate::events::{FsmError, FsmEvent, FsmResult};

verus! {

/// A FIFO capability for the events of one machine. The queued events are
/// modelled as a sequence, oldest first; `enqueue` appends, `dequeue` takes
/// the front. An implementation whose `reliable` holds never rejects an
/// event.
pub trait FsmEventQueue: Sized {
    /// The queued events, oldest first.
    spec fn events(&self) -> Seq<FsmEvent>;

    /// Whether `enqueue` is promised to succeed.
    spec fn reliable(&self) -> bool;

    fn enqueue(&mut self, ev: FsmEvent) -> (r: FsmResult<()>)
        ensures
            r is Ok ==> final(self).events() == old(self).events().push(ev),
            r is Err ==> final(self).events() == old(self).events(),
            old(self).reliable() ==> r is Ok,
            final(self).reliable() == old(self).reliable(),
    ;

    fn dequeue(&mut self) -> (r: Option<FsmEvent>)
        ensures
            match r {
                Some(ev) => old(self).events().len() > 0 && ev == old(self).events()[0]
                    && final(self).events() == old(self).events().drop_first(),
                None => old(self).events().len() == 0
                    && final(self).events() == old(self).events(),
            },
            final(self).reliable() == old(self).reliable(),
    ;

    fn len(&self) -> (n: usize)
        ensures
            n == self.events().len(),
    ;
}

/// The growable queue: a `Vec` of events, always reliable.
pub struct FsmEventQueueVec {
    pub items: Vec<FsmEvent>,
}

impl FsmEventQueueVec {
    /// An empty queue.
    pub fn new() -> (r: FsmEventQueueVec)
        ensures
            r.events() == Seq::<FsmEvent>::empty(),
            r.reliable(),
    {
        FsmEventQueueVec { items: Vec::new() }
    }
}

impl FsmEventQueue for FsmEventQueueVec {
    open spec fn events(&self) -> Seq<FsmEvent> {
        self.items@
    }

    open spec fn reliable(&self) -> bool {
        true
    }

    fn enqueue(&mut self, ev: FsmEvent) -> (r: FsmResult<()>) {
        self.items.push(ev);
        Ok(())
    }

    fn dequeue(&mut self) -> (r: Option<FsmEvent>) {
        if self.items.len() == 0 {
            None
        } else {
            let ev = self.items.remove(0);
            proof {
                assert(old(self).items@.remove(0) =~= old(self).items@.drop_first());
            }
            Some(ev)
        }
    }

    fn len(&self) -> (n: usize) {
        self.items.len()
    }
}

/// A bounded queue for deployments that cannot grow: enqueue is refused
/// with `QueueOverCapacity` once `capacity` events are waiting.
pub struct FsmEventQueueBounded {
    pub items: Vec<FsmEvent>,
    pub capacity: usize,
}

impl FsmEventQueueBounded {
    /// An empty queue that holds at most `capacity` events.
    pub fn new(capacity: usize) -> (r: FsmEventQueueBounded)
        ensures
            r.events() == Seq::<FsmEvent>::empty(),
            r.capacity == capacity,
    {
        FsmEventQueueBounded { items: Vec::new(), capacity }
    }
}

impl FsmEventQueue for FsmEventQueueBounded {
    open spec fn events(&self) -> Seq<FsmEvent> {
        self.items@
    }

    open spec fn reliable(&self) -> bool {
        false
    }

    fn enqueue(&mut self, ev: FsmEvent) -> (r: FsmResult<()>)
        ensures
            r is Ok <==> old(self).items@.len() < old(self).capacity,
            r is Err ==> r == FsmResult::<()>::Err(FsmError::QueueOverCapacity),
            final(self).capacity == old(self).capacity,
    {
        if self.items.len() < self.capacity {
            self.items.push(ev);
            Ok(())
        } else {
            Err(FsmError::QueueOverCapacity)
        }
    }

    fn dequeue(&mut self) -> (r: Option<FsmEvent>)
        ensures
            final(self).capacity == old(self).capacity,
    {
        if self.items.len() == 0 {
            None
        } else {
            let ev = self.items.remove(0);
            proof {
                assert(old(self).items@.remove(0) =~= old(self).items@.drop_first());
            }
            Some(ev)
        }
    }

    fn len(&self) -> (n: usize) {
        self.items.len()
    }
}

} // verus!
