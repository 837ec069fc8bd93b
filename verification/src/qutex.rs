//! A queue-backed exclusive data lock.

use crate::channel::{self, Courier, Inbox, Notice, Receipt, RequestCanceled};
use crate::laws;
use crate::request::{QrwRequest, Request, RequestKind};
use crate::serving::{self, Mode, Stamp};
use crate::wait_queue::WaitQueue;
use futures::sync::oneshot::{Receiver, Sender};
use vstd::prelude::*;

verus! {

/// What a `Qutex` amounts to.
#[verifier::ext_equal]
pub struct QutexView<T> {
    /// Whether somebody holds the lock.
    pub locked: bool,
    /// The requests that wait, the next one first.
    pub pending: Seq<QrwRequest>,
    /// The grants that were sent so far.
    pub notices: Seq<Notice>,
    /// The senders of those who are known to have withdrawn.
    pub gone: Set<Sender<()>>,
    /// Which qutex it is. Nothing is known of this but that it never changes.
    pub id: int,
    /// How often the qutex was unlocked.
    pub turn: nat,
    /// The value that the lock protects.
    pub value: T,
}

impl<T> QutexView<T> {
    /// What holds of every qutex: a request is one to write, that is for exclusive access.
    pub open spec fn wf(self) -> bool {
        forall|i: int|
            0 <= i < self.pending.len() ==> (#[trigger] self.pending[i]).kind == RequestKind::Write
    }

    /// Who holds the lock: nobody or one writer.
    pub open spec fn mode(self) -> Mode {
        if self.locked {
            Mode::Write
        } else {
            Mode::Unlocked
        }
    }

    /// The qutex after its holder is gone, before the queue is processed.
    pub open spec fn unlocked(self) -> QutexView<T> {
        QutexView { locked: false, turn: self.turn + 1, ..self }
    }

    /// The qutex and its turn.
    pub open spec fn stamp(self) -> Stamp {
        Stamp { id: self.id, turn: self.turn }
    }

    /// The qutex after a request that is behind those that wait already.
    pub open spec fn requested(self, request: Request) -> QutexView<T> {
        QutexView { pending: self.pending.push(request.as_write()), ..self }
    }

    /// The qutex after the one who waits on `rx` has withdrawn.
    pub open spec fn withdrawn(self, rx: Receiver<()>) -> QutexView<T> {
        QutexView { gone: self.gone.insert(channel::sender_of(rx)), ..self }
    }

    /// The notices that were sent between `self` and `later`.
    pub open spec fn sent_until(self, later: QutexView<T>) -> Seq<Notice> {
        later.notices.skip(self.notices.len() as int)
    }

    /// Whether `later` is what processing the queue makes of `self`: the waiting requests are
    /// served. Nothing is delivered to one who has withdrawn.
    pub open spec fn processed(self, later: QutexView<T>) -> bool {
        &&& self.notices.is_prefix_of(later.notices)
        &&& serving::served(self.mode(), self.pending, self.sent_until(later), later.pending)
        &&& later.mode() == serving::mode_after(self.mode(), self.sent_until(later))
        &&& channel::passes_over(self.gone, self.sent_until(later))
        &&& later.gone == self.gone
        &&& later.id == self.id
        &&& later.turn == self.turn
        &&& later.value == self.value
    }
}

/// A queue-backed exclusive data lock.
pub struct Qutex<T> {
    state: usize,
    cell: T,
    queue: WaitQueue,
    courier: Courier,
    id: Ghost<int>,
    turn: Ghost<nat>,
}

impl<T> View for Qutex<T> {
    type V = QutexView<T>;

    closed spec fn view(&self) -> QutexView<T> {
        QutexView {
            locked: self.state != 0,
            pending: self.queue@,
            notices: self.courier@,
            gone: self.courier.gone(),
            id: self.id@,
            turn: self.turn@,
            value: self.cell,
        }
    }
}

impl<T> Qutex<T> {
    /// Whether the qutex keeps to what holds of every qutex.
    pub open spec fn wf(&self) -> bool {
        &&& self.has_valid_state()
        &&& self@.wf()
    }

    /// Whether the state is one that a qutex can have: zero, or one while it is locked.
    pub closed spec fn has_valid_state(&self) -> bool {
        self.state <= 1
    }

    /// Creates and returns a new `Qutex`.
    pub fn new(val: T) -> (qutex: Qutex<T>)
        ensures
            qutex.wf(),
            qutex@ == (QutexView {
                locked: false,
                pending: Seq::empty(),
                notices: Seq::empty(),
                gone: Set::empty(),
                id: qutex@.id,
                turn: 0,
                value: val,
            }),
    {
        Qutex {
            state: 0,
            cell: val,
            queue: WaitQueue::new(),
            courier: Courier::new(),
            id: Ghost(arbitrary()),
            turn: Ghost(0),
        }
    }

    /// Returns a new `FutureGuard` which will resolve into a `Guard` that carries `handle`.
    pub fn lock<L>(&mut self, handle: L) -> (future: FutureGuard<L>)
        requires
            old(self).wf(),
        ensures
            final(self).wf(),
            final(self)@ == old(self)@.requested(
                Request { tx: channel::sender_of(future.receiver()) },
            ),
            future.handle() == Some(handle),
            future.qutex_id() == final(self)@.id,
            future.receipts() == Seq::<Receipt>::empty(),
    {
        let (tx, inbox) = channel::open();
        self.push_request(Request::new(tx));
        FutureGuard { qutex: Some(handle), rx: inbox, id: Ghost(self@.id) }
    }

    /// Pushes a lock request onto the queue.
    pub fn push_request(&mut self, req: Request)
        requires
            old(self).wf(),
        ensures
            final(self).wf(),
            final(self)@ == old(self)@.requested(req),
            final(self)@ == (QutexView {
                pending: old(self)@.pending.push(
                    QrwRequest { tx: req.tx, kind: RequestKind::Write },
                ),
                ..old(self)@
            }),
    {
        self.queue.push_request(QrwRequest::new(req.tx, RequestKind::Write));
    }

    /// Returns a mutable reference to the inner value, or `None` while somebody holds the lock.
    ///
    /// A request that still waits is no hindrance: whoever made it has no access yet.
    pub fn get_mut(&mut self) -> (value: Option<&mut T>)
        ensures
            value is Some <==> !old(self)@.locked,
            match value {
                Some(value) => {
                    &&& *value == old(self)@.value
                    &&& final(self)@ == (QutexView { value: *final(value), ..old(self)@ })
                },
                None => final(self)@ == old(self)@,
            },
            final(self).wf() == old(self).wf(),
    {
        if self.state == 0 {
            Some(&mut self.cell)
        } else {
            None
        }
    }

    /// Returns a reference to the inner value, whoever holds the lock.
    pub fn get(&self) -> (value: &T)
        ensures
            *value == self@.value,
    {
        &self.cell
    }

    /// Grants the lock to the next request in the queue if it is unlocked. A request whose
    /// requester is gone is passed over.
    pub fn process_queue(&mut self)
        requires
            old(self).wf(),
        ensures
            final(self).wf(),
            old(self)@.processed(final(self)@),
            old(self)@.locked ==> final(self)@ == old(self)@,
            !final(self)@.locked ==> final(self)@.pending.len() == 0,
            final(self)@.pending.is_suffix_of(old(self)@.pending),
            final(self)@.value == old(self)@.value,
    {
        let ghost before = self@;
        let ghost mut sent = Seq::<Notice>::empty();
        proof {
            assert(before.pending.skip(0) =~= before.pending);
            assert(before.notices + sent =~= before.notices);
        }
        if self.state == 0 {
            // Unlocked:
            self.state = 1;
            loop
                invariant_except_break
                    self.state == 1,
                    serving::mode_after(Mode::Unlocked, sent) is Unlocked,
                invariant
                    before.wf(),
                    serving::answers(Mode::Unlocked, before.pending, sent),
                    channel::passes_over(before.gone, sent),
                    self@ == (QutexView {
                        locked: self@.locked,
                        pending: before.pending.skip(sent.len() as int),
                        notices: before.notices + sent,
                        ..before
                    }),
                ensures
                    self.state <= 1,
                    self.state == 0 ==> self@.pending.len() == 0,
                    serving::mode_after(Mode::Unlocked, sent) == self@.mode(),
                decreases self@.pending.len(),
            {
                if let Some(request) = self.queue.pop_request() {
                    // If there is a send error, a requester has dropped its receiver so just go
                    // to the next.
                    let ghost sender = request;
                    let delivered = self.courier.send(request).is_ok();
                    proof {
                        let notice = Notice { request: sender, delivered };
                        serving::lemma_answer_next(Mode::Unlocked, before.pending, sent, notice);
                        sent = sent.push(notice);
                        assert(self@.pending =~= before.pending.skip(sent.len() as int));
                        assert(self@.notices =~= before.notices + sent);
                    }
                    if delivered {
                        break;
                    }
                } else {
                    self.state = 0;
                    break;
                }
            }
        }
        assert(before.sent_until(self@) =~= sent);
        proof {
            laws::law_qutex_has_one_holder(before, self@);
            laws::law_qutex_first_come_first_served(before, self@);
        }
    }

    /// Unlocks this (the caller's) lock and grants it to the next request in the queue.
    pub fn direct_unlock(&mut self)
        requires
            old(self).wf(),
        ensures
            final(self).wf(),
            old(self)@.unlocked().processed(final(self)@),
            (QutexView {
                locked: false,
                turn: final(self)@.turn,
                ..old(self)@
            }).processed(final(self)@),
    {
        self.state = 0;
        proof {
            self.turn@ = self.turn@ + 1;
        }
        self.process_queue()
    }

    /// Returns whether somebody holds the lock.
    pub fn is_locked(&self) -> (locked: bool)
        ensures
            locked == self@.locked,
    {
        self.state != 0
    }
}

impl<T> From<T> for Qutex<T> {
    fn from(val: T) -> (qutex: Qutex<T>)
        ensures
            qutex.wf(),
            qutex@ == (QutexView {
                locked: false,
                pending: Seq::empty(),
                notices: Seq::empty(),
                gone: Set::empty(),
                id: qutex@.id,
                turn: 0,
                value: val,
            }),
    {
        Qutex::new(val)
    }
}

impl<T> vstd::std_specs::convert::FromSpecImpl<T> for Qutex<T> {
    open spec fn obeys_from_spec() -> bool {
        false
    }

    open spec fn from_spec(val: T) -> Qutex<T> {
        arbitrary()
    }
}

/// Allows access to the data contained within a lock just like a mutex guard.
pub struct Guard<L> {
    qutex: L,
    stamp: Ghost<Stamp>,
}

impl<L> Guard<L> {
    /// The handle to the qutex.
    pub closed spec fn handle(&self) -> L {
        self.qutex
    }

    /// The qutex, and the turn of it, that the guard belongs to.
    pub closed spec fn stamp(&self) -> Stamp {
        self.stamp@
    }

    /// Whether `qutex` is the qutex of this guard, in the guard's turn, and is locked.
    pub open spec fn fits<T>(&self, qutex: QutexView<T>) -> bool {
        &&& self.stamp() == qutex.stamp()
        &&& qutex.locked
    }

    /// Returns the handle to the qutex.
    pub fn qutex(&self) -> (handle: &L)
        ensures
            *handle == self.handle(),
    {
        &self.qutex
    }

    /// Releases the lock held by a `Guard` and returns the original handle.
    pub fn unlock<T>(guard: Guard<L>, qutex: &mut Qutex<T>) -> (handle: L)
        requires
            old(qutex).wf(),
            guard.fits(old(qutex)@),
        ensures
            final(qutex).wf(),
            old(qutex)@.unlocked().processed(final(qutex)@),
            handle == guard.handle(),
    {
        qutex.direct_unlock();
        guard.qutex
    }

    /// Returns a reference to the data contained within the lock.
    pub fn deref<'a, T>(&self, qutex: &'a Qutex<T>) -> (value: &'a T)
        requires
            self.fits(qutex@),
        ensures
            *value == qutex@.value,
    {
        &qutex.cell
    }

    /// Returns a mutable reference to the data contained within the lock.
    pub fn deref_mut<'a, T>(&mut self, qutex: &'a mut Qutex<T>) -> (value: &'a mut T)
        requires
            old(self).fits(old(qutex)@),
        ensures
            *value == old(qutex)@.value,
            final(qutex)@ == (QutexView { value: *final(value), ..old(qutex)@ }),
            final(qutex).wf() == old(qutex).wf(),
            *final(self) == *old(self),
    {
        &mut qutex.cell
    }
}

/// A future which resolves to a `Guard`.
#[must_use]
pub struct FutureGuard<L> {
    qutex: Option<L>,
    rx: Inbox,
    id: Ghost<int>,
}

impl<L> FutureGuard<L> {
    /// The handle to the qutex, until the future has resolved.
    pub closed spec fn handle(&self) -> Option<L> {
        self.qutex
    }

    /// Returns the handle to the qutex, or `None` once the future has resolved.
    pub fn qutex(&self) -> (handle: Option<&L>)
        ensures
            handle == (match self.handle() {
                Some(qutex) => Some(&qutex),
                None => None,
            }),
    {
        self.qutex.as_ref()
    }

    /// What the future waits on.
    pub closed spec fn receiver(&self) -> Receiver<()> {
        self.rx.receiver()
    }

    /// What was done so far with what the future waits on.
    pub closed spec fn receipts(&self) -> Seq<Receipt> {
        self.rx.receipts()
    }

    /// Which qutex the future belongs to.
    pub closed spec fn qutex_id(&self) -> int {
        self.id@
    }

    /// Makes what progress the qutex allows and then looks whether this future's request was
    /// granted. Must not be called again once it has returned a guard.
    ///
    /// Does not arrange for a wakeup: see [`FutureGuard::receiver_mut`].
    pub fn poll<T>(&mut self, qutex: &mut Qutex<T>) -> (polled: Result<
        Option<Guard<L>>,
        RequestCanceled,
    >)
        requires
            old(self).handle() is Some,
            old(self).qutex_id() == old(qutex)@.id,
            old(qutex).wf(),
        ensures
            final(qutex).wf(),
            final(self).qutex_id() == old(self).qutex_id(),
            old(qutex)@.processed(final(qutex)@),
            final(self).receiver() == old(self).receiver(),
            final(self).receipts() == old(self).receipts().push(
                Receipt::Looked(channel::outcome(polled)),
            ),
            channel::sees(
                old(self).receiver(),
                old(self).receipts(),
                final(qutex)@.notices,
                final(qutex)@.pending,
                channel::outcome(polled),
            ),
            match polled {
                Ok(Some(guard)) => {
                    &&& guard.handle() == old(self).handle()->0
                    &&& guard.stamp() == final(qutex)@.stamp()
                    &&& final(self).handle() is None
                },
                _ => final(self).handle() == old(self).handle(),
            },
    {
        qutex.process_queue();
        let received = self.rx.look(&qutex.courier, &qutex.queue);
        assert(received matches Ok(Some(unit)) ==> unit == ());
        self.resolve(qutex, received)
    }

    /// Resolves the future according to what came over its channel.
    /// Must not be called again once it has returned a guard.
    pub fn resolve<T>(
        &mut self,
        qutex: &Qutex<T>,
        received: Result<Option<()>, RequestCanceled>,
    ) -> (resolved: Result<Option<Guard<L>>, RequestCanceled>)
        requires
            old(self).handle() is Some,
            old(self).qutex_id() == qutex@.id,
        ensures
            final(self).qutex_id() == old(self).qutex_id(),
            final(self).receiver() == old(self).receiver(),
            final(self).receipts() == old(self).receipts(),
            received matches Ok(Some(_)) ==> {
                &&& resolved matches Ok(Some(guard))
                &&& guard.handle() == old(self).handle()->0
                &&& guard.stamp() == qutex@.stamp()
                &&& final(self).handle() is None
            },
            received matches Ok(None) ==> {
                &&& resolved matches Ok(None)
                &&& final(self).handle() == old(self).handle()
            },
            received matches Err(error) ==> {
                &&& resolved matches Err(same) && same == error
                &&& final(self).handle() == old(self).handle()
            },
    {
        match received {
            Ok(Some(_)) => match self.qutex.take() {
                Some(handle) => Ok(Some(Guard { qutex: handle, stamp: Ghost(qutex@.stamp()) })),
                None => Ok(None),
            },
            Ok(None) => Ok(None),
            Err(error) => Err(error),
        }
    }

    /// The receiver that this future waits on, for whoever arranges for a wakeup.
    pub fn receiver_mut(&mut self) -> (rx: &mut Receiver<()>)
        ensures
            *rx == old(self).receiver(),
            final(self).receiver() == *final(rx),
            final(self).receipts() == old(self).receipts().push(Receipt::Lent),
            final(self).handle() == old(self).handle(),
            final(self).qutex_id() == old(self).qutex_id(),
    {
        self.rx.receiver_mut()
    }

    /// Gracefully unlocks if this future has a lock acquired but has not yet
    /// been polled to completion, and withdraws its request otherwise.
    pub fn cancel<T>(&mut self, qutex: &mut Qutex<T>)
        requires
            old(qutex).wf(),
            old(self).handle() is Some ==> old(self).qutex_id() == old(qutex)@.id,
        ensures
            final(qutex).wf(),
            final(self).handle() is None,
            final(self).qutex_id() == old(self).qutex_id(),
            final(self).receiver() == old(self).receiver(),
            old(self).handle() is None ==> final(qutex)@ == old(qutex)@ && final(self).receipts()
                == old(self).receipts(),
            old(self).handle() is Some ==> {
                &&& channel::withdrawn(old(self).receipts(), final(self).receipts())
                &&& channel::reached(
                    old(self).receiver(),
                    old(self).receipts(),
                    old(qutex)@.notices,
                )
                &&& channel::sees(
                    old(self).receiver(),
                    old(self).receipts().push(Receipt::Closed),
                    old(qutex)@.notices,
                    old(qutex)@.pending,
                    final(self).receipts().last()->Looked_0,
                )
                &&& if channel::is_grant(final(self).receipts().last()->Looked_0) {
                    old(qutex)@.withdrawn(old(self).receiver()).unlocked().processed(
                        final(qutex)@,
                    )
                } else {
                    final(qutex)@ == old(qutex)@.withdrawn(old(self).receiver())
                }
            },
    {
        if self.qutex.is_some() {
            self.rx.close(&mut qutex.courier);
            let received = self.rx.look(&qutex.courier, &qutex.queue);
            self.abandon(qutex, received);
        }
    }

    /// Gives up the lock if what came over this future's channel is a grant that no guard was
    /// made of.
    pub fn abandon<T>(
        &mut self,
        qutex: &mut Qutex<T>,
        received: Result<Option<()>, RequestCanceled>,
    )
        requires
            old(qutex).wf(),
            old(self).handle() is Some ==> old(self).qutex_id() == old(qutex)@.id,
        ensures
            final(qutex).wf(),
            if old(self).handle() is Some && channel::is_grant(received) {
                old(qutex)@.unlocked().processed(final(qutex)@)
            } else {
                final(qutex)@ == old(qutex)@
            },
            final(self).handle() is None,
            final(self).qutex_id() == old(self).qutex_id(),
            final(self).receiver() == old(self).receiver(),
            final(self).receipts() == old(self).receipts(),
    {
        if self.qutex.take().is_some() {
            match received {
                Ok(Some(_)) => qutex.direct_unlock(),
                _ => (),
            }
        }
    }
}

} // verus!
