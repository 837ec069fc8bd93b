//! The one-shot channels over which a lock tells its waiters that the lock is theirs.

use crate::request::QrwRequest;
use crate::wait_queue::WaitQueue;
use futures::sync::oneshot::{self, Receiver, Sender};
use vstd::prelude::*;

verus! {

/// `futures::sync::oneshot::Sender`, the half of a channel that a lock keeps.
#[verifier::external_type_specification]
#[verifier::external_body]
#[verifier::reject_recursive_types(T)]
pub struct ExSender<T>(Sender<T>);

/// `futures::sync::oneshot::Receiver`, the half of a channel that a waiter keeps.
#[verifier::external_type_specification]
#[verifier::external_body]
#[verifier::reject_recursive_types(T)]
pub struct ExReceiver<T>(Receiver<T>);

/// `futures::sync::oneshot::Canceled`, the error of a receiver whose sender is gone.
#[verifier::external_type_specification]
#[verifier::external_body]
pub struct ExCanceled(oneshot::Canceled);

/// The lock was dropped before it answered the request.
#[derive(Debug, Clone, Copy, PartialEq, Eq, Structural)]
pub struct RequestCanceled;

/// The sending half of the channel whose receiving half is `rx`.
pub uninterp spec fn sender_of(rx: Receiver<()>) -> Sender<()>;

/// Calls `futures::sync::oneshot::channel`, which makes a channel and returns its two halves.
#[verifier::external_body]
fn channel() -> (halves: (Sender<()>, Receiver<()>))
    ensures
        halves.0 == sender_of(halves.1),
{
    oneshot::channel()
}

/// What was seen by a future that was polled to `polled`.
pub open spec fn outcome<G>(polled: Result<Option<G>, RequestCanceled>) -> Result<
    Option<()>,
    RequestCanceled,
> {
    match polled {
        Ok(Some(_)) => Ok(Some(())),
        Ok(None) => Ok(None),
        Err(error) => Err(error),
    }
}

/// Whether what came over a channel is a grant.
pub open spec fn is_grant(received: Result<Option<()>, RequestCanceled>) -> bool {
    received matches Ok(Some(_))
}

/// One attempt to tell a waiter that the lock is theirs.
pub struct Notice {
    /// The request that was answered.
    pub request: QrwRequest,
    /// Whether the waiter was still there to be told.
    pub delivered: bool,
}

/// Sends grants to waiters. It stands for the sends that were made through it, in their order,
/// each with its outcome, and for the sending halves whose receiving half it knows to be closed.
pub struct Courier {
    log: Ghost<Seq<Notice>>,
    closed: Ghost<Set<Sender<()>>>,
}

impl View for Courier {
    type V = Seq<Notice>;

    closed spec fn view(&self) -> Seq<Notice> {
        self.log@
    }
}

impl Courier {
    /// The sending halves whose receiving half is known to be closed.
    pub closed spec fn gone(&self) -> Set<Sender<()>> {
        self.closed@
    }

    /// A courier that has sent nothing and knows of nobody who is gone.
    pub(crate) fn new() -> (courier: Courier)
        ensures
            courier@ == Seq::<Notice>::empty(),
            courier.gone() == Set::<Sender<()>>::empty(),
    {
        Courier { log: Ghost(Seq::empty()), closed: Ghost(Set::empty()) }
    }

    /// Calls `futures::sync::oneshot::Sender::send` on the request's sender: `Ok` if the message
    /// was handed over, `Err` if the receiver had been closed or dropped. So it fails if the
    /// receiver is known to be closed. Otherwise it rests on the receiving half and is left open
    /// here: [`sees`] says to whoever has that half what came of it. The attempt and its outcome
    /// are put on record.
    #[verifier::external_body]
    pub(crate) fn send(&mut self, request: QrwRequest) -> (sent: Result<(), ()>)
        ensures
            final(self)@ == old(self)@.push(Notice { request, delivered: sent is Ok }),
            final(self).gone() == old(self).gone(),
            old(self).gone().contains(request.tx) ==> sent is Err,
    {
        request.tx.send(())
    }
}

/// Whether nothing among `sent` was delivered to one of those who are `gone`.
pub open spec fn passes_over(gone: Set<Sender<()>>, sent: Seq<Notice>) -> bool {
    forall|i: int|
        0 <= i < sent.len() && gone.contains((#[trigger] sent[i]).request.tx) ==> !sent[i].delivered
}

/// What a waiter does with the receiving half of its channel.
pub enum Receipt {
    /// Closes it.
    Closed,
    /// Looks for a grant without waiting, and sees `Some` if it has come, `None` if it may still
    /// come, the error if it never will.
    Looked(Result<Option<()>, RequestCanceled>),
    /// Lends it to somebody who may do anything with it.
    Lent,
}

/// Whether the request with the sending half `tx` waits in `queue`.
pub open spec fn waits(queue: Seq<QrwRequest>, tx: Sender<()>) -> bool {
    exists|i: int| 0 <= i < queue.len() && (#[trigger] queue[i]).tx == tx
}

/// Whether one of `notices` is to the sending half `tx`, and whether it was delivered.
pub open spec fn told(notices: Seq<Notice>, tx: Sender<()>, delivered: bool) -> bool {
    exists|i: int|
        0 <= i < notices.len() && (#[trigger] notices[i]).request.tx == tx && notices[i].delivered
            == delivered
}

/// Whether the receiving half was lent to somebody.
pub open spec fn lent(receipts: Seq<Receipt>) -> bool {
    exists|i: int| 0 <= i < receipts.len() && (#[trigger] receipts[i]) is Lent
}

/// Whether the receiving half was closed.
pub open spec fn closed(receipts: Seq<Receipt>) -> bool {
    exists|i: int| 0 <= i < receipts.len() && (#[trigger] receipts[i]) is Closed
}

/// Whether a grant has been taken out of the receiving half.
pub open spec fn redeemed(receipts: Seq<Receipt>) -> bool {
    exists|i: int|
        0 <= i < receipts.len() && (#[trigger] receipts[i]) is Looked && is_grant(
            receipts[i]->Looked_0,
        )
}

/// Whether one who waits on `rx`, and has done `receipts` with it, sees `received` when looking,
/// as far as a lock whose courier has sent `notices`, and in which `queue` waits, decides it:
/// - while the request waits, there is no grant, but one may come unless `rx` was closed;
/// - if a notice was not delivered, there is no grant and none will come, and that happens only to
///   one who closed `rx`;
/// - if a notice was delivered, there is the grant, unless it was taken before.
pub open spec fn sees(
    rx: Receiver<()>,
    receipts: Seq<Receipt>,
    notices: Seq<Notice>,
    queue: Seq<QrwRequest>,
    received: Result<Option<()>, RequestCanceled>,
) -> bool {
    let tx = sender_of(rx);
    &&& waits(queue, tx) ==> !is_grant(received)
    &&& waits(queue, tx) && !lent(receipts) ==> (received is Err <==> closed(receipts))
    &&& told(notices, tx, false) ==> received is Err
    &&& told(notices, tx, false) && !lent(receipts) ==> closed(receipts)
    &&& told(notices, tx, true) && !lent(receipts) && !redeemed(receipts) ==> is_grant(received)
}

/// Whether the waiter on `rx`, who has done `receipts` with it, was told of every grant that was
/// sent to them among `notices`, unless they closed `rx` or lent it to somebody before.
pub open spec fn reached(
    rx: Receiver<()>,
    receipts: Seq<Receipt>,
    notices: Seq<Notice>,
) -> bool {
    !lent(receipts) && !closed(receipts) ==> !told(notices, sender_of(rx), false)
}

/// What one who is still there to be told sees when looking: that the grant may still come if the
/// request is `waiting`, and the grant otherwise.
pub open spec fn due(waiting: bool) -> Result<Option<()>, RequestCanceled> {
    if waiting {
        Ok(None)
    } else {
        Ok(Some(()))
    }
}

/// Whether a waiter that had done `before` with its receiving half has then closed it, looked a
/// last time and done nothing else, which is `after`.
pub open spec fn withdrawn(before: Seq<Receipt>, after: Seq<Receipt>) -> bool {
    &&& after.len() == before.len() + 2
    &&& after.last() is Looked
    &&& after == before.push(Receipt::Closed).push(after.last())
}

/// What a look shows, with the error of this library.
pub open spec fn seen(received: Result<Option<()>, oneshot::Canceled>) -> Result<
    Option<()>,
    RequestCanceled,
> {
    match received {
        Ok(message) => Ok(message),
        Err(_) => Err(RequestCanceled),
    }
}

/// Makes a channel and returns its sending half, and its receiving half as an inbox with which
/// nothing was done. There is no other way to an inbox, so that an inbox knows all that was done
/// with its half.
pub(crate) fn open() -> (halves: (Sender<()>, Inbox))
    ensures
        halves.0 == sender_of(halves.1.receiver()),
        halves.1.receipts() == Seq::<Receipt>::empty(),
{
    let (tx, rx) = channel();
    (tx, Inbox { rx, log: Ghost(Seq::empty()) })
}

/// Where a waiter receives its grant. It stands for the receiving half of a channel and for all
/// that was done with that half, in order.
pub struct Inbox {
    rx: Receiver<()>,
    log: Ghost<Seq<Receipt>>,
}

impl Inbox {
    /// The receiving half.
    pub closed spec fn receiver(&self) -> Receiver<()> {
        self.rx
    }

    /// What was done with the receiving half.
    pub closed spec fn receipts(&self) -> Seq<Receipt> {
        self.log@
    }

    /// Hands the receiving half over to somebody who may do anything with it.
    pub(crate) fn into_receiver(self) -> (rx: Receiver<()>)
        ensures
            rx == self.receiver(),
    {
        self.rx
    }

    /// Calls `futures::sync::oneshot::Receiver::close`: a send that starts afterwards fails, so
    /// that `courier` knows the sending half to be one whose receiving half is closed. A send
    /// before that failed only if the receiving half had been closed or dropped already. The call
    /// is put on record, and the receiver stays the same half of the same channel.
    #[verifier::external_body]
    pub(crate) fn close(&mut self, courier: &mut Courier)
        ensures
            final(self).receiver() == old(self).receiver(),
            final(self).receipts() == old(self).receipts().push(Receipt::Closed),
            final(courier)@ == old(courier)@,
            final(courier).gone() == old(courier).gone().insert(sender_of(old(self).receiver())),
            reached(old(self).receiver(), old(self).receipts(), final(courier)@),
    {
        self.rx.close()
    }

    /// Calls `futures::sync::oneshot::Receiver::try_recv`, which looks for a message without
    /// waiting. A message is there from when the sending half has sent it until it is taken; an
    /// error is seen once the sending half is gone, or the receiving half is closed, and there is
    /// no message. The sending half is gone once it has sent, and the borrows of `courier` and
    /// `queue` rule out sends from there meanwhile. A send fails only if the receiving half was
    /// closed or dropped, and this one is not dropped. If the sending half is neither with
    /// `courier` nor with `queue`, what is seen is left open. The look and what was seen are put
    /// on record, and the receiver stays the same half of the same channel.
    #[verifier::external_body]
    fn try_recv(&mut self, courier: &Courier, queue: &WaitQueue) -> (received: Result<
        Option<()>,
        oneshot::Canceled,
    >)
        ensures
            final(self).receiver() == old(self).receiver(),
            final(self).receipts() == old(self).receipts().push(Receipt::Looked(seen(received))),
            sees(
                old(self).receiver(),
                old(self).receipts(),
                courier@,
                queue@,
                seen(received),
            ),
    {
        self.rx.try_recv()
    }

    /// Looks for a grant without waiting. The lock that owes the grant has `courier`, and the
    /// request waits in `queue` if it waits.
    pub(crate) fn look(&mut self, courier: &Courier, queue: &WaitQueue) -> (received: Result<
        Option<()>,
        RequestCanceled,
    >)
        ensures
            final(self).receiver() == old(self).receiver(),
            final(self).receipts() == old(self).receipts().push(Receipt::Looked(received)),
            sees(old(self).receiver(), old(self).receipts(), courier@, queue@, received),
    {
        match self.try_recv(courier, queue) {
            Ok(message) => Ok(message),
            Err(_) => Err(RequestCanceled),
        }
    }

    /// Lends the receiving half, to whoever arranges for a wakeup when the grant comes.
    pub(crate) fn receiver_mut(&mut self) -> (rx: &mut Receiver<()>)
        ensures
            *rx == old(self).receiver(),
            final(self).receiver() == *final(rx),
            final(self).receipts() == old(self).receipts().push(Receipt::Lent),
    {
        proof {
            self.log@ = self.log@.push(Receipt::Lent);
        }
        &mut self.rx
    }
}

} // verus!
