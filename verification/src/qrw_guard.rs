//! The futures and guards of a [`QrwLock`].
//!
//! Each carries the handle `L` by which its owner finds the lock again, and belongs to one lock. A
//! guard belongs to one turn of those who hold the lock, too: a `ReadGuard` is one of its readers,
//! a `WriteGuard` its writer, and once they have given up the lock the guard fits it no more.

use crate::channel::{self, Inbox, Receipt, RequestCanceled};
use crate::qrw_lock::{LockView, QrwLock};
use crate::request::{QrwRequest, RequestKind};
use crate::serving::{Mode, Stamp};
use futures::sync::oneshot::Receiver;
use vstd::prelude::*;

verus! {

/// Allows read-only access to the data contained within a lock.
pub struct ReadGuard<L> {
    lock: L,
    stamp: Ghost<Stamp>,
}

impl<L> ReadGuard<L> {
    /// The handle to the lock.
    pub closed spec fn handle(&self) -> L {
        self.lock
    }

    /// The lock, and the turn of it, that the guard belongs to.
    pub closed spec fn stamp(&self) -> Stamp {
        self.stamp@
    }

    /// Whether `lock` is the lock of this guard, in the guard's turn, and is read-locked.
    pub open spec fn fits<T>(&self, lock: LockView<T>) -> bool {
        &&& self.stamp() == lock.stamp()
        &&& lock.mode is Read
    }

    /// Returns the handle to the lock.
    pub fn lock(&self) -> (handle: &L)
        ensures
            *handle == self.handle(),
    {
        &self.lock
    }

    /// Converts this `ReadGuard` into a precursor of a `WriteGuard`.
    ///
    /// If there are other readers, or another upgrade waits, this gives up the read lock until
    /// the upgrade is granted.
    pub fn upgrade<T>(guard: ReadGuard<L>, lock: &mut QrwLock<T>) -> (future: FutureUpgrade<L>)
        requires
            old(lock).wf(),
            guard.fits(old(lock)@),
        ensures
            final(lock).wf(),
            future.receiver() is None <==> old(lock)@.upgrades_at_once(),
            future.receiver() is None <==> old(lock)@.mode == Mode::Read(1)
                && old(lock)@.upgrades.len() == 0,
            future.receiver() is None ==> final(lock)@.mode is Write,
            future.receiver() matches Some(rx) ==> final(lock)@.upgrades
                == old(lock)@.upgrades.push(
                QrwRequest { tx: channel::sender_of(rx), kind: RequestKind::Write },
            ),
            final(lock)@.pending == old(lock)@.pending,
            final(lock)@ == (match future.receiver() {
                None => old(lock)@.upgraded(),
                Some(rx) => old(lock)@.upgrade_requested(rx),
            }),
            future.receipts() == Seq::<Receipt>::empty(),
            future.handle() == Some(guard.handle()),
            future.stamp() == final(lock)@.stamp(),
    {
        match lock.try_upgrade() {
            Ok(_) => FutureUpgrade {
                lock: Some(guard.lock),
                rx: None,
                stamp: Ghost(lock@.stamp()),
            },
            Err(inbox) => FutureUpgrade {
                lock: Some(guard.lock),
                rx: Some(inbox),
                stamp: Ghost(lock@.stamp()),
            },
        }
    }

    /// Releases the lock held by this `ReadGuard` and returns the original handle.
    pub fn release<T>(guard: ReadGuard<L>, lock: &mut QrwLock<T>) -> (handle: L)
        requires
            old(lock).wf(),
            guard.fits(old(lock)@),
        ensures
            final(lock).wf(),
            old(lock)@.reader_gone().processed(final(lock)@),
            handle == guard.handle(),
    {
        lock.release_read_lock();
        guard.lock
    }

    /// Returns a reference to the data contained within the lock.
    pub fn deref<'a, T>(&self, lock: &'a QrwLock<T>) -> (value: &'a T)
        requires
            self.fits(lock@),
        ensures
            *value == lock@.value,
    {
        lock.get()
    }
}

/// Allows read or write access to the data contained within a lock.
pub struct WriteGuard<L> {
    lock: L,
    stamp: Ghost<Stamp>,
}

impl<L> WriteGuard<L> {
    /// The handle to the lock.
    pub closed spec fn handle(&self) -> L {
        self.lock
    }

    /// The lock, and the turn of it, that the guard belongs to.
    pub closed spec fn stamp(&self) -> Stamp {
        self.stamp@
    }

    /// Whether `lock` is the lock of this guard, in the guard's turn, and is write-locked.
    pub open spec fn fits<T>(&self, lock: LockView<T>) -> bool {
        &&& self.stamp() == lock.stamp()
        &&& lock.mode is Write
    }

    /// Returns the handle to the lock.
    pub fn lock(&self) -> (handle: &L)
        ensures
            *handle == self.handle(),
    {
        &self.lock
    }

    /// Converts this `WriteGuard` into a `ReadGuard` and fulfills any other
    /// pending read requests.
    pub fn downgrade<T>(guard: WriteGuard<L>, lock: &mut QrwLock<T>) -> (reader: ReadGuard<L>)
        requires
            old(lock).wf(),
            guard.fits(old(lock)@),
        ensures
            final(lock).wf(),
            old(lock)@.downgraded().processed(final(lock)@),
            reader.handle() == guard.handle(),
            reader.stamp() == final(lock)@.stamp(),
    {
        lock.downgrade_write_lock();
        ReadGuard { lock: guard.lock, stamp: Ghost(lock@.stamp()) }
    }

    /// Releases the lock held by this `WriteGuard` and returns the original handle.
    pub fn release<T>(guard: WriteGuard<L>, lock: &mut QrwLock<T>) -> (handle: L)
        requires
            old(lock).wf(),
            guard.fits(old(lock)@),
        ensures
            final(lock).wf(),
            old(lock)@.writer_gone().processed(final(lock)@),
            handle == guard.handle(),
    {
        lock.release_write_lock();
        guard.lock
    }

    /// Returns a reference to the data contained within the lock.
    pub fn deref<'a, T>(&self, lock: &'a QrwLock<T>) -> (value: &'a T)
        requires
            self.fits(lock@),
        ensures
            *value == lock@.value,
    {
        lock.get()
    }

    /// Returns a mutable reference to the data contained within the lock.
    pub fn deref_mut<'a, T>(&mut self, lock: &'a mut QrwLock<T>) -> (value: &'a mut T)
        requires
            old(self).fits(old(lock)@),
        ensures
            *value == old(lock)@.value,
            final(lock)@ == (LockView { value: *final(value), ..old(lock)@ }),
            *final(self) == *old(self),
    {
        lock.value_mut()
    }
}

/// A precursor to a `WriteGuard`.
#[must_use]
pub struct FutureUpgrade<L> {
    lock: Option<L>,
    // Designates whether or not to resolve immediately:
    rx: Option<Inbox>,
    stamp: Ghost<Stamp>,
}

impl<L> FutureUpgrade<L> {
    /// The handle to the lock, until the future has resolved.
    pub closed spec fn handle(&self) -> Option<L> {
        self.lock
    }

    /// Returns the handle to the lock, or `None` once the future has resolved.
    pub fn lock(&self) -> (handle: Option<&L>)
        ensures
            handle == (match self.handle() {
                Some(lock) => Some(&lock),
                None => None,
            }),
    {
        self.lock.as_ref()
    }

    /// What the future waits on, if the upgrade did not come about at once.
    pub closed spec fn receiver(&self) -> Option<Receiver<()>> {
        match self.rx {
            Some(inbox) => Some(inbox.receiver()),
            None => None,
        }
    }

    /// What was done so far with what the future waits on.
    pub closed spec fn receipts(&self) -> Seq<Receipt> {
        match self.rx {
            Some(inbox) => inbox.receipts(),
            None => Seq::empty(),
        }
    }

    /// The lock that the future belongs to, and the turn of it in which the upgrade was called
    /// for. If the upgrade came about at once, that is the turn of the writer.
    pub closed spec fn stamp(&self) -> Stamp {
        self.stamp@
    }

    /// The stamp of a guard that the future resolves to while the lock is `lock`.
    pub open spec fn guard_stamp<T>(&self, lock: LockView<T>) -> Stamp {
        if self.receiver() is None {
            self.stamp()
        } else {
            lock.stamp()
        }
    }

    /// Returns whether the future waits, or has waited, for an upgrade that did not come about at
    /// once.
    pub fn is_waiting(&self) -> (waiting: bool)
        ensures
            waiting == (self.receiver() is Some),
    {
        self.rx.is_some()
    }

    /// Returns the guard if the upgrade came about at once. Otherwise makes what progress the
    /// lock allows and then looks whether the upgrade was granted. Must not be called again once
    /// it has returned a guard.
    ///
    /// Does not arrange for a wakeup: see [`FutureUpgrade::receiver_mut`].
    pub fn poll<T>(&mut self, lock: &mut QrwLock<T>) -> (polled: Result<
        Option<WriteGuard<L>>,
        RequestCanceled,
    >)
        requires
            old(self).handle() is Some,
            old(self).stamp().id == old(lock)@.id,
            old(lock).wf(),
        ensures
            final(lock).wf(),
            final(self).stamp() == old(self).stamp(),
            final(self).receiver() == old(self).receiver(),
            old(self).receiver() is None ==> {
                &&& polled matches Ok(Some(_))
                &&& final(lock)@ == old(lock)@
                &&& final(self).receipts() == old(self).receipts()
            },
            old(self).receiver() is Some ==> {
                &&& old(lock)@.processed(final(lock)@)
                &&& final(self).receipts() == old(self).receipts().push(
                    Receipt::Looked(channel::outcome(polled)),
                )
                &&& channel::sees(
                    old(self).receiver()->0,
                    old(self).receipts(),
                    final(lock)@.notices,
                    final(lock)@.upgrades,
                    channel::outcome(polled),
                )
            },
            match polled {
                Ok(Some(guard)) => {
                    &&& guard.handle() == old(self).handle()->0
                    &&& guard.stamp() == old(self).guard_stamp(final(lock)@)
                    &&& final(self).handle() is None
                },
                _ => final(self).handle() == old(self).handle(),
            },
    {
        let received = match &mut self.rx {
            Some(inbox) => {
                lock.process_queues();
                lock.look_for_upgrade(inbox)
            },
            None => Ok(Some(())),
        };
        assert(received matches Ok(Some(unit)) ==> unit == ());
        self.resolve(lock, received)
    }

    /// Resolves the future according to what came over its channel.
    /// Must not be called again once it has returned a guard.
    pub fn resolve<T>(
        &mut self,
        lock: &QrwLock<T>,
        received: Result<Option<()>, RequestCanceled>,
    ) -> (resolved: Result<Option<WriteGuard<L>>, RequestCanceled>)
        requires
            old(self).handle() is Some,
            old(self).stamp().id == lock@.id,
        ensures
            final(self).stamp() == old(self).stamp(),
            final(self).receiver() == old(self).receiver(),
            final(self).receipts() == old(self).receipts(),
            received matches Ok(Some(_)) ==> {
                &&& resolved matches Ok(Some(guard))
                &&& guard.handle() == old(self).handle()->0
                &&& guard.stamp() == old(self).guard_stamp(lock@)
                &&& final(self).handle() is None
            },
            received matches Ok(None) ==> {
                &&& resolved matches Ok(None)
                &&& final(self).handle() == old(self).handle()
            },
            received matches Err(error) ==> {
                &&& resolved matches Err(same) && same == error
                &&& final(self).handle() == old(self).handle()
            },
    {
        match received {
            Ok(Some(_)) => match self.lock.take() {
                Some(handle) => Ok(
                    Some(WriteGuard { lock: handle, stamp: Ghost(self.guard_stamp(lock@)) }),
                ),
                None => Ok(None),
            },
            Ok(None) => Ok(None),
            Err(error) => Err(error),
        }
    }

    /// The receiver that this future waits on, for whoever arranges for a wakeup.
    pub fn receiver_mut(&mut self) -> (rx: Option<&mut Receiver<()>>)
        ensures
            final(self).handle() == old(self).handle(),
            final(self).stamp() == old(self).stamp(),
            match rx {
                Some(rx) => {
                    &&& old(self).receiver() == Some(*rx)
                    &&& final(self).receiver() == Some(*final(rx))
                    &&& final(self).receipts() == old(self).receipts().push(Receipt::Lent)
                },
                None => {
                    &&& old(self).receiver() is None
                    &&& final(self).receiver() is None
                    &&& final(self).receipts() == old(self).receipts()
                },
            },
    {
        match &mut self.rx {
            Some(inbox) => Some(inbox.receiver_mut()),
            None => None,
        }
    }

    /// Gracefully unlocks if this future has a lock acquired but has not yet
    /// been polled to completion, and withdraws its upgrade otherwise.
    pub fn cancel<T>(&mut self, lock: &mut QrwLock<T>)
        requires
            old(lock).wf(),
            old(self).handle() is Some ==> old(self).stamp().id == old(lock)@.id,
            old(self).handle() is Some && old(self).receiver() is None ==> old(lock)@.mode is Write
                && old(self).stamp() == old(lock)@.stamp(),
        ensures
            final(lock).wf(),
            final(self).handle() is None,
            final(self).stamp() == old(self).stamp(),
            final(self).receiver() == old(self).receiver(),
            old(self).handle() is None ==> final(lock)@ == old(lock)@ && final(self).receipts()
                == old(self).receipts(),
            old(self).handle() is Some && old(self).receiver() is None ==> {
                &&& old(lock)@.writer_gone().processed(final(lock)@)
                &&& final(self).receipts() == old(self).receipts()
            },
            old(self).handle() is Some && old(self).receiver() is Some ==> {
                &&& channel::withdrawn(old(self).receipts(), final(self).receipts())
                &&& channel::reached(
                    old(self).receiver()->0,
                    old(self).receipts(),
                    old(lock)@.notices,
                )
                &&& channel::sees(
                    old(self).receiver()->0,
                    old(self).receipts().push(Receipt::Closed),
                    old(lock)@.notices,
                    old(lock)@.upgrades,
                    final(self).receipts().last()->Looked_0,
                )
                &&& if old(lock)@.mode is Write && channel::is_grant(
                    final(self).receipts().last()->Looked_0,
                ) {
                    old(lock)@.withdrawn(old(self).receiver()->0).writer_gone().processed(
                        final(lock)@,
                    )
                } else {
                    final(lock)@ == old(lock)@.withdrawn(old(self).receiver()->0)
                }
            },
    {
        if self.lock.is_some() {
            let received = match &mut self.rx {
                Some(inbox) => {
                    lock.close_inbox(inbox);
                    lock.look_for_upgrade(inbox)
                },
                None => Ok(Some(())),
            };
            // A grant that came was counted when it was sent, so the lock is write-locked then.
            if lock.is_write_locked() {
                self.abandon(lock, received);
            } else {
                self.lock = None;
            }
        }
    }

    /// Gives up the lock if what came over this future's channel is a grant that no guard was
    /// made of.
    pub fn abandon<T>(
        &mut self,
        lock: &mut QrwLock<T>,
        received: Result<Option<()>, RequestCanceled>,
    )
        requires
            old(lock).wf(),
            old(self).handle() is Some ==> old(self).stamp().id == old(lock)@.id,
            old(self).handle() is Some && channel::is_grant(received) ==> old(lock)@.mode is Write
                && old(self).guard_stamp(old(lock)@) == old(lock)@.stamp(),
        ensures
            final(lock).wf(),
            if old(self).handle() is Some && channel::is_grant(received) {
                old(lock)@.writer_gone().processed(final(lock)@)
            } else {
                final(lock)@ == old(lock)@
            },
            final(self).handle() is None,
            final(self).stamp() == old(self).stamp(),
            final(self).receiver() == old(self).receiver(),
            final(self).receipts() == old(self).receipts(),
    {
        if self.lock.take().is_some() {
            match received {
                Ok(Some(_)) => lock.release_write_lock(),
                _ => (),
            }
        }
    }
}

/// A future which resolves to a `ReadGuard`.
#[must_use]
pub struct FutureReadGuard<L> {
    lock: Option<L>,
    rx: Inbox,
    id: Ghost<int>,
}

impl<L> FutureReadGuard<L> {
    /// The handle to the lock, until the future has resolved.
    pub closed spec fn handle(&self) -> Option<L> {
        self.lock
    }

    /// Returns the handle to the lock, or `None` once the future has resolved.
    pub fn lock(&self) -> (handle: Option<&L>)
        ensures
            handle == (match self.handle() {
                Some(lock) => Some(&lock),
                None => None,
            }),
    {
        self.lock.as_ref()
    }

    /// What the future waits on.
    pub closed spec fn receiver(&self) -> Receiver<()> {
        self.rx.receiver()
    }

    /// What was done so far with what the future waits on.
    pub closed spec fn receipts(&self) -> Seq<Receipt> {
        self.rx.receipts()
    }

    /// Which lock the future belongs to.
    pub closed spec fn lock_id(&self) -> int {
        self.id@
    }

    /// Makes what progress the lock allows and then looks whether this future's request was
    /// granted. Must not be called again once it has returned a guard.
    ///
    /// Does not arrange for a wakeup: see [`FutureReadGuard::receiver_mut`].
    pub fn poll<T>(&mut self, lock: &mut QrwLock<T>) -> (polled: Result<
        Option<ReadGuard<L>>,
        RequestCanceled,
    >)
        requires
            old(self).handle() is Some,
            old(self).lock_id() == old(lock)@.id,
            old(lock).wf(),
        ensures
            final(lock).wf(),
            final(self).lock_id() == old(self).lock_id(),
            old(lock)@.processed(final(lock)@),
            final(self).receiver() == old(self).receiver(),
            final(self).receipts() == old(self).receipts().push(
                Receipt::Looked(channel::outcome(polled)),
            ),
            channel::sees(
                old(self).receiver(),
                old(self).receipts(),
                final(lock)@.notices,
                final(lock)@.pending,
                channel::outcome(polled),
            ),
            match polled {
                Ok(Some(guard)) => {
                    &&& guard.handle() == old(self).handle()->0
                    &&& guard.stamp() == final(lock)@.stamp()
                    &&& final(self).handle() is None
                },
                _ => final(self).handle() == old(self).handle(),
            },
    {
        lock.process_queues();
        let received = lock.look_for_grant(&mut self.rx);
        assert(received matches Ok(Some(unit)) ==> unit == ());
        self.resolve(lock, received)
    }

    /// Resolves the future according to what came over its channel.
    /// Must not be called again once it has returned a guard.
    pub fn resolve<T>(
        &mut self,
        lock: &QrwLock<T>,
        received: Result<Option<()>, RequestCanceled>,
    ) -> (resolved: Result<Option<ReadGuard<L>>, RequestCanceled>)
        requires
            old(self).handle() is Some,
            old(self).lock_id() == lock@.id,
        ensures
            final(self).lock_id() == old(self).lock_id(),
            final(self).receiver() == old(self).receiver(),
            final(self).receipts() == old(self).receipts(),
            received matches Ok(Some(_)) ==> {
                &&& resolved matches Ok(Some(guard))
                &&& guard.handle() == old(self).handle()->0
                &&& guard.stamp() == lock@.stamp()
                &&& final(self).handle() is None
            },
            received matches Ok(None) ==> {
                &&& resolved matches Ok(None)
                &&& final(self).handle() == old(self).handle()
            },
            received matches Err(error) ==> {
                &&& resolved matches Err(same) && same == error
                &&& final(self).handle() == old(self).handle()
            },
    {
        match received {
            Ok(Some(_)) => match self.lock.take() {
                Some(handle) => Ok(
                    Some(ReadGuard { lock: handle, stamp: Ghost(lock@.stamp()) }),
                ),
                None => Ok(None),
            },
            Ok(None) => Ok(None),
            Err(error) => Err(error),
        }
    }

    /// The receiver that this future waits on, for whoever arranges for a wakeup.
    pub fn receiver_mut(&mut self) -> (rx: &mut Receiver<()>)
        ensures
            *rx == old(self).receiver(),
            final(self).receiver() == *final(rx),
            final(self).receipts() == old(self).receipts().push(Receipt::Lent),
            final(self).handle() == old(self).handle(),
            final(self).lock_id() == old(self).lock_id(),
    {
        self.rx.receiver_mut()
    }

    /// Gracefully unlocks if this future has a lock acquired but has not yet
    /// been polled to completion, and withdraws its request otherwise.
    pub fn cancel<T>(&mut self, lock: &mut QrwLock<T>)
        requires
            old(lock).wf(),
            old(self).handle() is Some ==> old(self).lock_id() == old(lock)@.id,
        ensures
            final(lock).wf(),
            final(self).handle() is None,
            final(self).lock_id() == old(self).lock_id(),
            final(self).receiver() == old(self).receiver(),
            old(self).handle() is None ==> final(lock)@ == old(lock)@ && final(self).receipts()
                == old(self).receipts(),
            old(self).handle() is Some ==> {
                &&& channel::withdrawn(old(self).receipts(), final(self).receipts())
                &&& channel::reached(
                    old(self).receiver(),
                    old(self).receipts(),
                    old(lock)@.notices,
                )
                &&& channel::sees(
                    old(self).receiver(),
                    old(self).receipts().push(Receipt::Closed),
                    old(lock)@.notices,
                    old(lock)@.pending,
                    final(self).receipts().last()->Looked_0,
                )
                &&& if old(lock)@.mode is Read && channel::is_grant(
                    final(self).receipts().last()->Looked_0,
                ) {
                    old(lock)@.withdrawn(old(self).receiver()).reader_gone().processed(
                        final(lock)@,
                    )
                } else {
                    final(lock)@ == old(lock)@.withdrawn(old(self).receiver())
                }
            },
    {
        if self.lock.is_some() {
            lock.close_inbox(&mut self.rx);
            let received = lock.look_for_grant(&mut self.rx);
            // A grant that came was counted when it was sent, so the lock is read-locked then.
            if lock.is_read_locked() {
                self.abandon(lock, received);
            } else {
                self.lock = None;
            }
        }
    }

    /// Gives up the lock if what came over this future's channel is a grant that no guard was
    /// made of.
    pub fn abandon<T>(
        &mut self,
        lock: &mut QrwLock<T>,
        received: Result<Option<()>, RequestCanceled>,
    )
        requires
            old(lock).wf(),
            old(self).handle() is Some ==> old(self).lock_id() == old(lock)@.id,
            old(self).handle() is Some && channel::is_grant(received) ==> old(lock)@.mode is Read,
        ensures
            final(lock).wf(),
            if old(self).handle() is Some && channel::is_grant(received) {
                old(lock)@.reader_gone().processed(final(lock)@)
            } else {
                final(lock)@ == old(lock)@
            },
            final(self).handle() is None,
            final(self).lock_id() == old(self).lock_id(),
            final(self).receiver() == old(self).receiver(),
            final(self).receipts() == old(self).receipts(),
    {
        if self.lock.take().is_some() {
            match received {
                Ok(Some(_)) => lock.release_read_lock(),
                _ => (),
            }
        }
    }
}

/// A future which resolves to a `WriteGuard`.
#[must_use]
pub struct FutureWriteGuard<L> {
    lock: Option<L>,
    rx: Inbox,
    id: Ghost<int>,
}

impl<L> FutureWriteGuard<L> {
    /// The handle to the lock, until the future has resolved.
    pub closed spec fn handle(&self) -> Option<L> {
        self.lock
    }

    /// Returns the handle to the lock, or `None` once the future has resolved.
    pub fn lock(&self) -> (handle: Option<&L>)
        ensures
            handle == (match self.handle() {
                Some(lock) => Some(&lock),
                None => None,
            }),
    {
        self.lock.as_ref()
    }

    /// What the future waits on.
    pub closed spec fn receiver(&self) -> Receiver<()> {
        self.rx.receiver()
    }

    /// What was done so far with what the future waits on.
    pub closed spec fn receipts(&self) -> Seq<Receipt> {
        self.rx.receipts()
    }

    /// Which lock the future belongs to.
    pub closed spec fn lock_id(&self) -> int {
        self.id@
    }

    /// Makes what progress the lock allows and then looks whether this future's request was
    /// granted. Must not be called again once it has returned a guard.
    ///
    /// Does not arrange for a wakeup: see [`FutureWriteGuard::receiver_mut`].
    pub fn poll<T>(&mut self, lock: &mut QrwLock<T>) -> (polled: Result<
        Option<WriteGuard<L>>,
        RequestCanceled,
    >)
        requires
            old(self).handle() is Some,
            old(self).lock_id() == old(lock)@.id,
            old(lock).wf(),
        ensures
            final(lock).wf(),
            final(self).lock_id() == old(self).lock_id(),
            old(lock)@.processed(final(lock)@),
            final(self).receiver() == old(self).receiver(),
            final(self).receipts() == old(self).receipts().push(
                Receipt::Looked(channel::outcome(polled)),
            ),
            channel::sees(
                old(self).receiver(),
                old(self).receipts(),
                final(lock)@.notices,
                final(lock)@.pending,
                channel::outcome(polled),
            ),
            match polled {
                Ok(Some(guard)) => {
                    &&& guard.handle() == old(self).handle()->0
                    &&& guard.stamp() == final(lock)@.stamp()
                    &&& final(self).handle() is None
                },
                _ => final(self).handle() == old(self).handle(),
            },
    {
        lock.process_queues();
        let received = lock.look_for_grant(&mut self.rx);
        assert(received matches Ok(Some(unit)) ==> unit == ());
        self.resolve(lock, received)
    }

    /// Resolves the future according to what came over its channel.
    /// Must not be called again once it has returned a guard.
    pub fn resolve<T>(
        &mut self,
        lock: &QrwLock<T>,
        received: Result<Option<()>, RequestCanceled>,
    ) -> (resolved: Result<Option<WriteGuard<L>>, RequestCanceled>)
        requires
            old(self).handle() is Some,
            old(self).lock_id() == lock@.id,
        ensures
            final(self).lock_id() == old(self).lock_id(),
            final(self).receiver() == old(self).receiver(),
            final(self).receipts() == old(self).receipts(),
            received matches Ok(Some(_)) ==> {
                &&& resolved matches Ok(Some(guard))
                &&& guard.handle() == old(self).handle()->0
                &&& guard.stamp() == lock@.stamp()
                &&& final(self).handle() is None
            },
            received matches Ok(None) ==> {
                &&& resolved matches Ok(None)
                &&& final(self).handle() == old(self).handle()
            },
            received matches Err(error) ==> {
                &&& resolved matches Err(same) && same == error
                &&& final(self).handle() == old(self).handle()
            },
    {
        match received {
            Ok(Some(_)) => match self.lock.take() {
                Some(handle) => Ok(
                    Some(WriteGuard { lock: handle, stamp: Ghost(lock@.stamp()) }),
                ),
                None => Ok(None),
            },
            Ok(None) => Ok(None),
            Err(error) => Err(error),
        }
    }

    /// The receiver that this future waits on, for whoever arranges for a wakeup.
    pub fn receiver_mut(&mut self) -> (rx: &mut Receiver<()>)
        ensures
            *rx == old(self).receiver(),
            final(self).receiver() == *final(rx),
            final(self).receipts() == old(self).receipts().push(Receipt::Lent),
            final(self).handle() == old(self).handle(),
            final(self).lock_id() == old(self).lock_id(),
    {
        self.rx.receiver_mut()
    }

    /// Gracefully unlocks if this future has a lock acquired but has not yet
    /// been polled to completion, and withdraws its request otherwise.
    pub fn cancel<T>(&mut self, lock: &mut QrwLock<T>)
        requires
            old(lock).wf(),
            old(self).handle() is Some ==> old(self).lock_id() == old(lock)@.id,
        ensures
            final(lock).wf(),
            final(self).handle() is None,
            final(self).lock_id() == old(self).lock_id(),
            final(self).receiver() == old(self).receiver(),
            old(self).handle() is None ==> final(lock)@ == old(lock)@ && final(self).receipts()
                == old(self).receipts(),
            old(self).handle() is Some ==> {
                &&& channel::withdrawn(old(self).receipts(), final(self).receipts())
                &&& channel::reached(
                    old(self).receiver(),
                    old(self).receipts(),
                    old(lock)@.notices,
                )
                &&& channel::sees(
                    old(self).receiver(),
                    old(self).receipts().push(Receipt::Closed),
                    old(lock)@.notices,
                    old(lock)@.pending,
                    final(self).receipts().last()->Looked_0,
                )
                &&& if old(lock)@.mode is Write && channel::is_grant(
                    final(self).receipts().last()->Looked_0,
                ) {
                    old(lock)@.withdrawn(old(self).receiver()).writer_gone().processed(
                        final(lock)@,
                    )
                } else {
                    final(lock)@ == old(lock)@.withdrawn(old(self).receiver())
                }
            },
    {
        if self.lock.is_some() {
            lock.close_inbox(&mut self.rx);
            let received = lock.look_for_grant(&mut self.rx);
            // A grant that came was counted when it was sent, so the lock is write-locked then.
            if lock.is_write_locked() {
                self.abandon(lock, received);
            } else {
                self.lock = None;
            }
        }
    }

    /// Gives up the lock if what came over this future's channel is a grant that no guard was
    /// made of.
    pub fn abandon<T>(
        &mut self,
        lock: &mut QrwLock<T>,
        received: Result<Option<()>, RequestCanceled>,
    )
        requires
            old(lock).wf(),
            old(self).handle() is Some ==> old(self).lock_id() == old(lock)@.id,
            old(self).handle() is Some && channel::is_grant(received) ==> old(lock)@.mode is Write,
        ensures
            final(lock).wf(),
            if old(self).handle() is Some && channel::is_grant(received) {
                old(lock)@.writer_gone().processed(final(lock)@)
            } else {
                final(lock)@ == old(lock)@
            },
            final(self).handle() is None,
            final(self).lock_id() == old(self).lock_id(),
            final(self).receiver() == old(self).receiver(),
            final(self).receipts() == old(self).receipts(),
    {
        if self.lock.take().is_some() {
            match received {
                Ok(Some(_)) => lock.release_write_lock(),
                _ => (),
            }
        }
    }
}

impl<T> QrwLock<T> {
    /// Returns a new `FutureReadGuard` which will resolve into a `ReadGuard` that carries
    /// `handle`.
    pub fn read<L>(&mut self, handle: L) -> (future: FutureReadGuard<L>)
        requires
            old(self).wf(),
        ensures
            final(self).wf(),
            final(self)@ == old(self)@.requested(
                QrwRequest {
                    tx: channel::sender_of(future.receiver()),
                    kind: RequestKind::Read,
                },
            ),
            future.receipts() == Seq::<Receipt>::empty(),
            future.handle() == Some(handle),
            future.lock_id() == final(self)@.id,
    {
        let (tx, inbox) = channel::open();
        self.enqueue_lock_request(QrwRequest::new(tx, RequestKind::Read));
        FutureReadGuard { lock: Some(handle), rx: inbox, id: Ghost(self@.id) }
    }

    /// Returns a new `FutureWriteGuard` which will resolve into a `WriteGuard` that carries
    /// `handle`.
    pub fn write<L>(&mut self, handle: L) -> (future: FutureWriteGuard<L>)
        requires
            old(self).wf(),
        ensures
            final(self).wf(),
            final(self)@ == old(self)@.requested(
                QrwRequest {
                    tx: channel::sender_of(future.receiver()),
                    kind: RequestKind::Write,
                },
            ),
            future.receipts() == Seq::<Receipt>::empty(),
            future.handle() == Some(handle),
            future.lock_id() == final(self)@.id,
    {
        let (tx, inbox) = channel::open();
        self.enqueue_lock_request(QrwRequest::new(tx, RequestKind::Write));
        FutureWriteGuard { lock: Some(handle), rx: inbox, id: Ghost(self@.id) }
    }
}

} // verus!
