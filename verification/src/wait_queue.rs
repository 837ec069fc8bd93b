//! The first-in, first-out queues in which requests wait.

use crate::request::{QrwRequest, RequestKind};
use crossbeam::queue::SegQueue;
use vstd::prelude::*;

verus! {

/// `crossbeam::queue::SegQueue`, an unbounded queue.
#[verifier::external_type_specification]
#[verifier::external_body]
#[verifier::reject_recursive_types(T)]
pub struct ExSegQueue<T>(SegQueue<T>);

/// The requests in `queue`, the one that was pushed first at the front.
pub uninterp spec fn queued(queue: SegQueue<QrwRequest>) -> Seq<QrwRequest>;

/// Calls `crossbeam::queue::SegQueue::new`, which makes a queue that holds nothing.
#[verifier::external_body]
fn empty_queue() -> (queue: SegQueue<QrwRequest>)
    ensures
        queued(queue) == Seq::<QrwRequest>::empty(),
{
    SegQueue::new()
}

/// Calls `crossbeam::queue::SegQueue::push`, which puts a request at the back of the queue. The
/// unique borrow rules out pushes and pops by others meanwhile.
#[verifier::external_body]
fn push(queue: &mut SegQueue<QrwRequest>, request: QrwRequest)
    ensures
        queued(*final(queue)) == queued(*old(queue)).push(request),
{
    queue.push(request)
}

/// Calls `crossbeam::queue::SegQueue::pop`, which takes the request at the front of the queue, or
/// fails if the queue holds nothing. The unique borrow rules out pushes and pops by others
/// meanwhile.
#[verifier::external_body]
fn pop(queue: &mut SegQueue<QrwRequest>) -> (popped: Option<QrwRequest>)
    ensures
        queued(*old(queue)).len() == 0 ==> popped is None && queued(*final(queue)) == queued(
            *old(queue),
        ),
        queued(*old(queue)).len() > 0 ==> popped == Some(queued(*old(queue))[0]) && queued(
            *final(queue),
        ) == queued(*old(queue)).drop_first(),
{
    queue.pop().ok()
}

/// Calls `crossbeam::queue::SegQueue::is_empty`, which tells whether the queue holds nothing. The
/// unique borrow rules out pushes and pops by others meanwhile.
#[verifier::external_body]
fn is_empty(queue: &mut SegQueue<QrwRequest>) -> (empty: bool)
    ensures
        empty == (queued(*old(queue)).len() == 0),
        queued(*final(queue)) == queued(*old(queue)),
{
    queue.is_empty()
}

/// A queue of requests at whose front one can look. It stands for the requests that wait in it,
/// the next one first.
pub struct WaitQueue {
    queue: SegQueue<QrwRequest>,
    // The front of the queue, once it was looked at.
    tip: Option<QrwRequest>,
}

impl View for WaitQueue {
    type V = Seq<QrwRequest>;

    closed spec fn view(&self) -> Seq<QrwRequest> {
        match self.tip {
            Some(tip) => seq![tip] + queued(self.queue),
            None => queued(self.queue),
        }
    }
}

impl WaitQueue {
    /// A queue in which nobody waits.
    pub(crate) fn new() -> (queue: WaitQueue)
        ensures
            queue@ == Seq::<QrwRequest>::empty(),
    {
        WaitQueue { queue: empty_queue(), tip: None }
    }

    /// Puts a request behind those that wait already.
    pub(crate) fn push_request(&mut self, request: QrwRequest)
        ensures
            final(self)@ == old(self)@.push(request),
    {
        push(&mut self.queue, request);
        assert(self@ =~= old(self)@.push(request));
    }

    /// Pops the next request and returns it or `None` if the queue is empty.
    pub(crate) fn pop_request(&mut self) -> (popped: Option<QrwRequest>)
        ensures
            old(self)@.len() == 0 ==> popped is None && final(self)@ == old(self)@,
            old(self)@.len() > 0 ==> {
                &&& popped == Some(old(self)@[0])
                &&& final(self)@ == old(self)@.drop_first()
            },
    {
        let mut popped = self.tip.take();
        self.tip = pop(&mut self.queue);
        // Pop twice if the tip was `None` but the queue was not empty.
        if popped.is_none() && self.tip.is_some() {
            popped = self.tip.take();
            self.tip = pop(&mut self.queue);
        }
        proof {
            if old(self)@.len() == 0 {
                assert(self@ =~= old(self)@);
            } else {
                assert(self@ =~= old(self)@.drop_first());
            }
        }
        popped
    }

    /// Returns the `RequestKind` of the next request or `None` if the queue is empty.
    pub(crate) fn peek_request_kind(&mut self) -> (kind: Option<RequestKind>)
        ensures
            final(self)@ == old(self)@,
            kind == (if old(self)@.len() == 0 {
                None
            } else {
                Some(old(self)@[0].kind)
            }),
    {
        if self.tip.is_none() {
            self.tip = pop(&mut self.queue);
        }
        assert(self@ =~= old(self)@);
        match &self.tip {
            Some(request) => Some(request.kind),
            None => None,
        }
    }

    /// Returns whether nobody waits.
    pub(crate) fn is_empty(&mut self) -> (empty: bool)
        ensures
            final(self)@ == old(self)@,
            empty == (old(self)@.len() == 0),
    {
        self.tip.is_none() && is_empty(&mut self.queue)
    }
}

} // verus!
