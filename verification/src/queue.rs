//! The response queue: a bounded FIFO of decoded replies not yet consumed.

use vstd::prelude::*;

use crate::protocol::{ReplyModel, Response};

verus! {

/// Capacity of the response queue.
pub const QUEUE_CAPACITY: usize = 4;

/// Small bounded FIFO holding decoded replies not yet consumed. Its view is
/// the sequence of reply models, front first.
pub struct ResponseQueue {
    items: Vec<Response>,
}

impl View for ResponseQueue {
    type V = Seq<ReplyModel>;

    closed spec fn view(&self) -> Seq<ReplyModel> {
        self.items@.map_values(|r: Response| r@)
    }
}

impl ResponseQueue {
    /// The queue never holds more than its capacity.
    pub open spec fn wf(&self) -> bool {
        self@.len() <= QUEUE_CAPACITY
    }

    /// An empty queue.
    pub fn new() -> (r: ResponseQueue)
        ensures
            r.wf(),
            r@ == Seq::<ReplyModel>::empty(),
    {
        let q = ResponseQueue { items: Vec::new() };
        proof {
            assert(q@ =~= Seq::<ReplyModel>::empty());
        }
        q
    }

    /// Number of replies pending.
    pub fn len(&self) -> (r: usize)
        ensures
            r == self@.len(),
    {
        self.items.len()
    }

    /// Append a reply at the back. A full queue rejects the reply and hands
    /// it back unchanged: this caps memory and bounds how many unclaimed
    /// events are tolerated before back-pressure.
    pub fn enqueue(&mut self, r: Response) -> (res: Result<(), Response>)
        requires
            old(self).wf(),
        ensures
            final(self).wf(),
            old(self)@.len() < QUEUE_CAPACITY ==> res is Ok && final(self)@ == old(self)@.push(r@),
            old(self)@.len() >= QUEUE_CAPACITY ==> final(self)@ == old(self)@ && (res matches Err(
                back,
            ) && back == r),
    {
        if self.items.len() < QUEUE_CAPACITY {
            self.items.push(r);
            proof {
                assert(self@ =~= old(self)@.push(r@));
            }
            Ok(())
        } else {
            Err(r)
        }
    }

    /// Remove and return the front reply, if any.
    pub fn dequeue(&mut self) -> (res: Option<Response>)
        ensures
            old(self)@.len() == 0 ==> res is None && final(self)@ == old(self)@,
            old(self)@.len() > 0 ==> (res matches Some(x) && x@ == old(self)@[0] && final(self)@
                == old(self)@.drop_first()),
            final(self)@.len() <= old(self)@.len(),
    {
        if self.items.len() == 0 {
            None
        } else {
            let x = self.items.remove(0);
            proof {
                assert(self@ =~= old(self)@.drop_first());
            }
            Some(x)
        }
    }
}

} // verus!
