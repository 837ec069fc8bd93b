//! A queue-backed read/write data lock.
//!
//! As with any queue-backed system, deadlocks must be carefully avoided when
//! interoperating with other queues.

use crate::channel::{self, Courier, Inbox, Notice, Receipt, RequestCanceled};
use crate::contention::{READ_COUNT_MASK, WRITE_LOCKED};
use crate::laws;
use crate::request::{QrwRequest, RequestKind};
use crate::serving::{self, Mode, Stamp};
use crate::wait_queue::WaitQueue;
use futures::sync::oneshot::{Receiver, Sender};
use vstd::prelude::*;

verus! {

/// What a `QrwLock` amounts to.
#[verifier::ext_equal]
pub struct LockView<T> {
    /// Who holds the lock.
    pub mode: Mode,
    /// The requests that wait, the next one first.
    pub pending: Seq<QrwRequest>,
    /// The upgrades that wait, the next one first.
    pub upgrades: Seq<QrwRequest>,
    /// The grants that were sent so far.
    pub notices: Seq<Notice>,
    /// The senders of those who are known to have withdrawn.
    pub gone: Set<Sender<()>>,
    /// Which lock it is. Nothing is known of this but that it never changes.
    pub id: int,
    /// How often those who held the lock have given it up, or gone over from reading to writing
    /// or back.
    pub turn: nat,
    /// The value that the lock protects.
    pub value: T,
}

impl<T> LockView<T> {
    /// What holds of every lock: the read count fits its bits and is not zero while there are
    /// readers, and an upgrade is a request to write.
    pub open spec fn wf(self) -> bool {
        &&& serving::valid_mode(self.mode)
        &&& forall|i: int|
            0 <= i < self.upgrades.len() ==> (#[trigger] self.upgrades[i]).kind
                == RequestKind::Write
    }

    /// The lock and its turn.
    pub open spec fn stamp(self) -> Stamp {
        Stamp { id: self.id, turn: self.turn }
    }

    /// The lock after one of its readers is gone, before the queues are processed. Its turn ends
    /// with the last of them.
    pub open spec fn reader_gone(self) -> LockView<T> {
        let mode = serving::one_reader_less(self.mode);
        LockView {
            mode,
            turn: if mode is Read {
                self.turn
            } else {
                self.turn + 1
            },
            ..self
        }
    }

    /// The lock after its writer is gone, before the queues are processed.
    pub open spec fn writer_gone(self) -> LockView<T> {
        LockView { mode: Mode::Unlocked, turn: self.turn + 1, ..self }
    }

    /// The lock after its writer has become its only reader, before the queues are processed.
    pub open spec fn downgraded(self) -> LockView<T> {
        LockView { mode: Mode::Read(1), turn: self.turn + 1, ..self }
    }

    /// Whether an upgrade of a reader comes about at once: there is no other reader, and no
    /// upgrade waits.
    pub open spec fn upgrades_at_once(self) -> bool {
        self.mode == Mode::Read(1) && self.upgrades.len() == 0
    }

    /// The lock after an upgrade of one of its readers that came about at once.
    pub open spec fn upgraded(self) -> LockView<T> {
        LockView { mode: Mode::Write, turn: self.turn + 1, ..self }
    }

    /// The lock after one of its readers has begun to wait on `rx` for an upgrade. The reader is
    /// no longer counted, and the upgrade is behind those that wait already.
    pub open spec fn upgrade_requested(self, rx: Receiver<()>) -> LockView<T> {
        let upgrade = QrwRequest { tx: channel::sender_of(rx), kind: RequestKind::Write };
        LockView { upgrades: self.upgrades.push(upgrade), ..self.reader_gone() }
    }

    /// The lock after a request that is behind those that wait already.
    pub open spec fn requested(self, request: QrwRequest) -> LockView<T> {
        LockView { pending: self.pending.push(request), ..self }
    }

    /// The lock after the one who waits on `rx` has withdrawn.
    pub open spec fn withdrawn(self, rx: Receiver<()>) -> LockView<T> {
        LockView { gone: self.gone.insert(channel::sender_of(rx)), ..self }
    }

    /// The notices that were sent between `self` and `later`.
    pub open spec fn sent_until(self, later: LockView<T>) -> Seq<Notice> {
        later.notices.skip(self.notices.len() as int)
    }

    /// The notices to waiting upgrades among those that were sent between `self` and `later`.
    pub open spec fn upgrades_answered(self, later: LockView<T>) -> Seq<Notice> {
        self.sent_until(later).take(self.upgrades.len() - later.upgrades.len())
    }

    /// The notices to waiting requests among those that were sent between `self` and `later`.
    pub open spec fn requests_answered(self, later: LockView<T>) -> Seq<Notice> {
        self.sent_until(later).skip(self.upgrades.len() - later.upgrades.len())
    }

    /// Whether `later` is what processing the queues makes of `self`: first the waiting upgrades
    /// are served and then the waiting requests. Nothing is delivered to one who has withdrawn.
    pub open spec fn processed(self, later: LockView<T>) -> bool {
        let upgraded = serving::mode_after(self.mode, self.upgrades_answered(later));
        &&& self.notices.is_prefix_of(later.notices)
        &&& 0 <= self.upgrades.len() - later.upgrades.len() <= self.sent_until(later).len()
        &&& serving::served(
            self.mode,
            self.upgrades,
            self.upgrades_answered(later),
            later.upgrades,
        )
        &&& serving::served(upgraded, self.pending, self.requests_answered(later), later.pending)
        &&& later.mode == serving::mode_after(upgraded, self.requests_answered(later))
        &&& channel::passes_over(self.gone, self.sent_until(later))
        &&& later.gone == self.gone
        &&& later.id == self.id
        &&& later.turn == self.turn
        &&& later.value == self.value
    }
}

/// A queue-backed read/write data lock.
///
/// As with any queue-backed system, deadlocks must be carefully avoided when
/// interoperating with other queues.
pub struct QrwLock<T> {
    state: usize,
    cell: T,
    queue: WaitQueue,
    upgrade_queue: WaitQueue,
    courier: Courier,
    id: Ghost<int>,
    turn: Ghost<nat>,
}

impl<T> View for QrwLock<T> {
    type V = LockView<T>;

    closed spec fn view(&self) -> LockView<T> {
        LockView {
            mode: serving::word_mode(self.state),
            pending: self.queue@,
            upgrades: self.upgrade_queue@,
            notices: self.courier@,
            gone: self.courier.gone(),
            id: self.id@,
            turn: self.turn@,
            value: self.cell,
        }
    }
}

/// A queue whose first request is not admitted is served by sending nothing.
proof fn lemma_served_nothing(mode: Mode, queue: Seq<QrwRequest>)
    requires
        queue.len() == 0 || !serving::admits(mode, queue[0].kind),
    ensures
        serving::served(mode, queue, Seq::empty(), queue),
        serving::mode_after(mode, Seq::empty()) == mode,
{
    assert(queue.skip(0) =~= queue);
}

/// Two batches of notices, to upgrades and then to requests, amount to a processed queue.
proof fn lemma_processed<T>(
    before: LockView<T>,
    after: LockView<T>,
    first: Seq<Notice>,
    rest: Seq<Notice>,
)
    requires
        after.notices == before.notices + first + rest,
        serving::served(before.mode, before.upgrades, first, after.upgrades),
        serving::served(
            serving::mode_after(before.mode, first),
            before.pending,
            rest,
            after.pending,
        ),
        after.mode == serving::mode_after(serving::mode_after(before.mode, first), rest),
        channel::passes_over(before.gone, first),
        channel::passes_over(before.gone, rest),
        after.gone == before.gone,
        after.id == before.id,
        after.turn == before.turn,
        after.value == before.value,
        before.wf(),
        serving::valid_mode(after.mode),
    ensures
        before.processed(after),
        after.wf(),
{
    assert(before.sent_until(after) =~= first + rest);
    assert(before.upgrades_answered(after) =~= first);
    assert(before.requests_answered(after) =~= rest);
}

impl<T> QrwLock<T> {
    /// Whether the lock keeps to what holds of every lock.
    pub open spec fn wf(&self) -> bool {
        self@.wf()
    }

    /// Fulfills the pending requests that a lock with the word `state` admits, and returns the
    /// word that the lock has then. The lock itself keeps its word.
    fn fulfill_request(&mut self, state: usize) -> (new_state: usize)
        requires
            serving::valid_word(state),
        ensures
            old(self)@.notices.is_prefix_of(final(self)@.notices),
            serving::served(
                serving::word_mode(state),
                old(self)@.pending,
                old(self)@.sent_until(final(self)@),
                final(self)@.pending,
            ),
            channel::passes_over(old(self)@.gone, old(self)@.sent_until(final(self)@)),
            serving::valid_word(new_state),
            serving::word_mode(new_state) == serving::mode_after(
                serving::word_mode(state),
                old(self)@.sent_until(final(self)@),
            ),
            final(self)@ == (LockView {
                pending: final(self)@.pending,
                notices: final(self)@.notices,
                ..old(self)@
            }),
            final(self).state == old(self).state,
    {
        let ghost mode = serving::word_mode(state);
        let ghost before = self@;
        let ghost mut sent = Seq::<Notice>::empty();
        let mut new_state: usize = state;
        proof {
            assert(self@.pending =~= before.pending.skip(0));
            assert(before.notices + sent =~= before.notices);
        }
        loop
            invariant
                serving::answers(mode, before.pending, sent),
                channel::passes_over(before.gone, sent),
                serving::valid_word(new_state),
                serving::word_mode(new_state) == serving::mode_after(mode, sent),
                self@ == (LockView {
                    pending: before.pending.skip(sent.len() as int),
                    notices: before.notices + sent,
                    ..before
                }),
                self.state == old(self).state,
            ensures
                self@.pending.len() == 0 || !serving::admits(
                    serving::mode_after(mode, sent),
                    self@.pending[0].kind,
                ),
            decreases self@.pending.len(),
        {
            let admitted = match self.queue.peek_request_kind() {
                Some(kind) => serving::word_admits(new_state, kind),
                None => false,
            };
            if !admitted {
                break;
            }
            if let Some(request) = self.queue.pop_request() {
                let kind = request.kind;
                // If there is a send error, a requester has dropped its receiver so just go to
                // the next, otherwise process.
                let ghost sender = request;
                let delivered = self.courier.send(request).is_ok();
                if delivered {
                    new_state = serving::word_granted(new_state, kind);
                }
                proof {
                    let notice = Notice { request: sender, delivered };
                    serving::lemma_answer_next(mode, before.pending, sent, notice);
                    sent = sent.push(notice);
                    assert(self@.pending =~= before.pending.skip(sent.len() as int));
                    assert(self@.notices =~= before.notices + sent);
                }
            }
        }
        assert(before.sent_until(self@) =~= sent);
        new_state
    }

    /// Fulfills an upgrade request, if there is one whose requester is still there, and tells
    /// whether it did. The lock itself keeps its word.
    fn process_upgrade_queue(&mut self) -> (upgraded: bool)
        requires
            old(self).wf(),
            old(self)@.mode is Unlocked,
        ensures
            old(self)@.notices.is_prefix_of(final(self)@.notices),
            serving::served(
                Mode::Unlocked,
                old(self)@.upgrades,
                old(self)@.sent_until(final(self)@),
                final(self)@.upgrades,
            ),
            channel::passes_over(old(self)@.gone, old(self)@.sent_until(final(self)@)),
            serving::mode_after(Mode::Unlocked, old(self)@.sent_until(final(self)@)) == (
            if upgraded {
                Mode::Write
            } else {
                Mode::Unlocked
            }),
            final(self)@ == (LockView {
                upgrades: final(self)@.upgrades,
                notices: final(self)@.notices,
                ..old(self)@
            }),
    {
        let ghost before = self@;
        let ghost mut sent = Seq::<Notice>::empty();
        let mut upgraded = false;
        proof {
            assert(self@.upgrades =~= before.upgrades.skip(0));
            assert(before.notices + sent =~= before.notices);
        }
        loop
            invariant_except_break
                !upgraded,
                serving::mode_after(Mode::Unlocked, sent) is Unlocked,
            invariant
                before.wf(),
                before.mode is Unlocked,
                serving::answers(Mode::Unlocked, before.upgrades, sent),
                channel::passes_over(before.gone, sent),
                self@ == (LockView {
                    upgrades: before.upgrades.skip(sent.len() as int),
                    notices: before.notices + sent,
                    ..before
                }),
            ensures
                upgraded || self@.upgrades.len() == 0,
                serving::mode_after(Mode::Unlocked, sent) == (if upgraded {
                    Mode::Write
                } else {
                    Mode::Unlocked
                }),
            decreases self@.upgrades.len(),
        {
            match self.upgrade_queue.pop_request() {
                Some(request) => {
                    let ghost sender = request;
                    let delivered = self.courier.send(request).is_ok();
                    proof {
                        let notice = Notice { request: sender, delivered };
                        serving::lemma_answer_next(Mode::Unlocked, before.upgrades, sent, notice);
                        sent = sent.push(notice);
                        assert(self@.upgrades =~= before.upgrades.skip(sent.len() as int));
                        assert(self@.notices =~= before.notices + sent);
                    }
                    if delivered {
                        upgraded = true;
                        break;
                    }
                },
                None => {
                    break;
                },
            }
        }
        assert(before.sent_until(self@) =~= sent);
        upgraded
    }

    /// Grants the lock to the requests that are next, as far as it can be granted.
    ///
    /// If the lock is unlocked, it goes to the first waiting upgrade or else to the requests at
    /// the front of the queue. If it is write-locked, nothing happens. If it is read-locked and
    /// the next request or consecutive requests in the queue are read requests, those are
    /// fulfilled and the read-lock count goes up appropriately. A request whose requester is gone
    /// is passed over.
    pub fn process_queues(&mut self)
        requires
            old(self).wf(),
        ensures
            final(self).wf(),
            old(self)@.processed(final(self)@),
            final(self)@.mode is Unlocked ==> final(self)@.pending.len() == 0
                && final(self)@.upgrades.len() == 0,
            final(self)@.mode matches Mode::Read(readers) ==> final(self)@.pending.len() == 0
                || final(self)@.pending[0].kind == RequestKind::Write || readers
                == READ_COUNT_MASK,
            old(self)@.mode is Write ==> final(self)@ == old(self)@,
            old(self)@.mode is Read ==> final(self)@.mode is Read && final(self)@.upgrades
                == old(self)@.upgrades,
            final(self)@.pending.is_suffix_of(old(self)@.pending),
            final(self)@.upgrades.is_suffix_of(old(self)@.upgrades),
            final(self)@.value == old(self)@.value,
    {
        let ghost before = self@;
        let ghost nothing = Seq::<Notice>::empty();
        match self.state {
            // Unlocked:
            0 => {
                let upgraded = self.process_upgrade_queue();
                let ghost middle = self@;
                let ghost first = before.sent_until(middle);
                let new_state: usize = if upgraded {
                    WRITE_LOCKED
                } else {
                    self.fulfill_request(0)
                };
                self.state = new_state;
                proof {
                    if upgraded {
                        lemma_served_nothing(Mode::Write, before.pending);
                        assert(middle.sent_until(self@) =~= nothing);
                    }
                    assert(self@.notices =~= before.notices + first + middle.sent_until(self@));
                    lemma_processed(before, self@, first, middle.sent_until(self@));
                }
            },
            // Write locked:
            WRITE_LOCKED => {
                proof {
                    lemma_served_nothing(Mode::Write, before.upgrades);
                    lemma_served_nothing(Mode::Write, before.pending);
                    assert(self@.notices =~= before.notices + nothing + nothing);
                    lemma_processed(before, self@, nothing, nothing);
                }
            },
            // Read locked:
            state => {
                if let Some(RequestKind::Read) = self.queue.peek_request_kind() {
                    // We are read locked and the next request is a read.
                    let new_state: usize = self.fulfill_request(state);
                    self.state = new_state;
                } else {
                    proof {
                        lemma_served_nothing(before.mode, before.pending);
                        assert(before.sent_until(self@) =~= nothing);
                    }
                }
                proof {
                    lemma_served_nothing(before.mode, before.upgrades);
                    assert(self@.notices =~= before.notices + nothing + before.sent_until(self@));
                    lemma_processed(before, self@, nothing, before.sent_until(self@));
                }
            },
        }
        proof {
            laws::law_nobody_waits_without_need(before, self@);
            laws::law_first_come_first_served(before, self@);
            if before.mode is Read {
                laws::law_read_lock_admits_readers_only(before, self@);
            }
            if before.mode is Write {
                laws::law_write_lock_blocks_everybody(before, self@);
            }
        }
    }

    /// Enqueues an upgrade of one of the readers, which is no longer counted, and returns what
    /// the upgraded reader waits on.
    fn enqueue_upgrade_request(&mut self) -> (inbox: Inbox)
        requires
            old(self).wf(),
            old(self)@.mode is Read,
        ensures
            final(self).wf(),
            final(self)@ == old(self)@.upgrade_requested(inbox.receiver()),
            inbox.receipts() == Seq::<Receipt>::empty(),
    {
        let (tx, inbox) = channel::open();
        self.upgrade_queue.push_request(QrwRequest::new(tx, RequestKind::Write));
        self.leave_reading();
        inbox
    }

    /// Counts one reader less.
    fn leave_reading(&mut self)
        requires
            old(self).wf(),
            old(self)@.mode is Read,
        ensures
            final(self).wf(),
            final(self)@ == old(self)@.reader_gone(),
    {
        self.state = self.state - 1;
        proof {
            if self.state == 0 {
                self.turn@ = self.turn@ + 1;
            }
        }
    }

    /// Converts a single read lock into a write lock, or else gives up the read lock and returns
    /// what the upgraded reader waits on.
    pub(crate) fn try_upgrade(&mut self) -> (upgraded: Result<(), Inbox>)
        requires
            old(self).wf(),
            old(self)@.mode is Read,
        ensures
            final(self).wf(),
            upgraded is Ok <==> old(self)@.upgrades_at_once(),
            upgraded is Ok <==> old(self)@.mode == Mode::Read(1) && old(self)@.upgrades.len() == 0,
            upgraded is Ok ==> final(self)@.mode is Write && final(self)@.upgrades.len() == 0,
            upgraded matches Err(inbox) ==> final(self)@.upgrades == old(self)@.upgrades.push(
                QrwRequest {
                    tx: channel::sender_of(inbox.receiver()),
                    kind: RequestKind::Write,
                },
            ),
            final(self)@.pending == old(self)@.pending,
            match upgraded {
                Ok(_) => final(self)@ == old(self)@.upgraded(),
                Err(inbox) => {
                    &&& final(self)@ == old(self)@.upgrade_requested(inbox.receiver())
                    &&& inbox.receipts() == Seq::<Receipt>::empty()
                },
            },
    {
        if self.state == 1 && self.upgrade_queue.is_empty() {
            self.state = WRITE_LOCKED;
            proof {
                self.turn@ = self.turn@ + 1;
            }
            Ok(())
        } else {
            Err(self.enqueue_upgrade_request())
        }
    }

    /// Converts a single read lock (read count of '1') into a write lock.
    ///
    /// Returns an error containing a oneshot receiver if there is currently more than one read
    /// lock or another upgrade waits. The read lock is given up then, and once the other readers
    /// are gone the receiver channel will be completed.
    ///
    /// Do not call this method directly unless you are using a custom guard or are otherwise
    /// managing the lock state manually. Use `ReadGuard::upgrade` instead.
    pub fn upgrade_read_lock(&mut self) -> (upgraded: Result<(), Receiver<()>>)
        requires
            old(self).wf(),
            old(self)@.mode is Read,
        ensures
            final(self).wf(),
            upgraded is Ok <==> old(self)@.upgrades_at_once(),
            upgraded is Ok <==> old(self)@.mode == Mode::Read(1) && old(self)@.upgrades.len() == 0,
            upgraded is Ok ==> final(self)@.mode is Write && final(self)@.upgrades.len() == 0,
            upgraded matches Err(rx) ==> final(self)@.upgrades == old(self)@.upgrades.push(
                QrwRequest { tx: channel::sender_of(rx), kind: RequestKind::Write },
            ),
            final(self)@.pending == old(self)@.pending,
            final(self)@ == (match upgraded {
                Ok(_) => old(self)@.upgraded(),
                Err(rx) => old(self)@.upgrade_requested(rx),
            }),
    {
        match self.try_upgrade() {
            Ok(_) => Ok(()),
            Err(inbox) => Err(inbox.into_receiver()),
        }
    }

    /// Converts a write lock into a read lock then processes the queue, allowing additional read
    /// requests to acquire locks.
    ///
    /// Use `WriteGuard::downgrade` rather than calling this directly.
    pub fn downgrade_write_lock(&mut self)
        requires
            old(self).wf(),
            old(self)@.mode is Write,
        ensures
            final(self).wf(),
            old(self)@.downgraded().processed(final(self)@),
            (LockView {
                mode: Mode::Read(1),
                turn: final(self)@.turn,
                ..old(self)@
            }).processed(final(self)@),
    {
        self.state = 1;
        proof {
            self.turn@ = self.turn@ + 1;
        }
        self.process_queues();
    }

    /// Decreases the reader count by one and grants the lock to the next requesters in the queue
    /// if possible.
    ///
    /// If a reader waits to be upgraded and no other reader is left, its upgrade is fulfilled.
    pub fn release_read_lock(&mut self)
        requires
            old(self).wf(),
            old(self)@.mode is Read,
        ensures
            final(self).wf(),
            old(self)@.reader_gone().processed(final(self)@),
            old(self)@.mode matches Mode::Read(readers) ==> (LockView {
                mode: if readers > 1 {
                    Mode::Read((readers - 1) as nat)
                } else {
                    Mode::Unlocked
                },
                turn: final(self)@.turn,
                ..old(self)@
            }).processed(final(self)@),
    {
        self.leave_reading();
        self.process_queues();
    }

    /// Unlocks this (the caller's) lock and grants it to the next requesters in the queue if
    /// possible.
    pub fn release_write_lock(&mut self)
        requires
            old(self).wf(),
            old(self)@.mode is Write,
        ensures
            final(self).wf(),
            old(self)@.writer_gone().processed(final(self)@),
            (LockView {
                mode: Mode::Unlocked,
                turn: final(self)@.turn,
                ..old(self)@
            }).processed(final(self)@),
    {
        self.state = 0;
        proof {
            self.turn@ = self.turn@ + 1;
        }
        self.process_queues();
    }

    /// Returns the current number of read locks.
    pub fn read_count(&self) -> (count: Option<u32>)
        requires
            self.wf(),
        ensures
            count == Some(
                match self@.mode {
                    Mode::Read(readers) => readers as u32,
                    _ => 0,
                },
            ),
    {
        let state: usize = self.state;
        assert(state <= 0x00FF_FFFF ==> state & 0x00FF_FFFF == state) by (bit_vector);
        assert(0x0100_0000usize & 0x00FF_FFFF == 0) by (bit_vector);
        let read_count: usize = state & READ_COUNT_MASK;
        Some(read_count as u32)
    }

    /// Returns whether there are readers.
    pub fn is_read_locked(&self) -> (locked: bool)
        requires
            self.wf(),
        ensures
            locked == (self@.mode is Read),
    {
        self.state != 0 && self.state != WRITE_LOCKED
    }

    /// Returns whether there is a writer.
    pub fn is_write_locked(&self) -> (locked: bool)
        requires
            self.wf(),
        ensures
            locked == (self@.mode is Write),
    {
        self.state == WRITE_LOCKED
    }

    /// Returns the lock word: the read count, or the `WRITE_LOCKED` bit, or zero.
    pub fn state(&self) -> (word: usize)
        requires
            self.wf(),
        ensures
            serving::valid_word(word),
            serving::word_mode(word) == self@.mode,
    {
        self.state
    }

    /// Creates and returns a new `QrwLock`.
    pub fn new(val: T) -> (lock: QrwLock<T>)
        ensures
            lock.wf(),
            lock@ == (LockView {
                mode: Mode::Unlocked,
                pending: Seq::empty(),
                upgrades: Seq::empty(),
                notices: Seq::empty(),
                gone: Set::empty(),
                id: lock@.id,
                turn: 0,
                value: val,
            }),
    {
        QrwLock {
            state: 0,
            cell: val,
            queue: WaitQueue::new(),
            upgrade_queue: WaitQueue::new(),
            courier: Courier::new(),
            id: Ghost(arbitrary()),
            turn: Ghost(0),
        }
    }

    /// Pushes a lock request onto the queue.
    pub fn enqueue_lock_request(&mut self, req: QrwRequest)
        requires
            old(self).wf(),
        ensures
            final(self).wf(),
            final(self)@ == old(self)@.requested(req),
            final(self)@ == (LockView { pending: old(self)@.pending.push(req), ..old(self)@ }),
    {
        self.queue.push_request(req);
    }

    /// Returns a mutable reference to the inner value, or `None` while somebody holds the lock.
    ///
    /// A request that still waits is no hindrance: whoever made it has no access yet.
    pub fn get_mut(&mut self) -> (value: Option<&mut T>)
        ensures
            value is Some <==> old(self)@.mode is Unlocked,
            match value {
                Some(value) => {
                    &&& *value == old(self)@.value
                    &&& final(self)@ == (LockView { value: *final(value), ..old(self)@ })
                },
                None => final(self)@ == old(self)@,
            },
    {
        if self.state == 0 {
            Some(&mut self.cell)
        } else {
            None
        }
    }

    /// Returns a mutable reference to the inner value, for the writer.
    pub(crate) fn value_mut(&mut self) -> (value: &mut T)
        ensures
            *value == old(self)@.value,
            final(self)@ == (LockView { value: *final(value), ..old(self)@ }),
    {
        &mut self.cell
    }

    /// Withdraws the request or upgrade whose grant would come to `inbox`.
    pub(crate) fn close_inbox(&mut self, inbox: &mut Inbox)
        ensures
            final(self)@ == old(self)@.withdrawn(old(inbox).receiver()),
            final(inbox).receiver() == old(inbox).receiver(),
            final(inbox).receipts() == old(inbox).receipts().push(Receipt::Closed),
            channel::reached(old(inbox).receiver(), old(inbox).receipts(), old(self)@.notices),
    {
        inbox.close(&mut self.courier);
    }

    /// Looks in `inbox` for the grant of a request.
    pub(crate) fn look_for_grant(&self, inbox: &mut Inbox) -> (received: Result<
        Option<()>,
        RequestCanceled,
    >)
        ensures
            final(inbox).receiver() == old(inbox).receiver(),
            final(inbox).receipts() == old(inbox).receipts().push(Receipt::Looked(received)),
            channel::sees(
                old(inbox).receiver(),
                old(inbox).receipts(),
                self@.notices,
                self@.pending,
                received,
            ),
    {
        inbox.look(&self.courier, &self.queue)
    }

    /// Looks in `inbox` for the grant of an upgrade.
    pub(crate) fn look_for_upgrade(&self, inbox: &mut Inbox) -> (received: Result<
        Option<()>,
        RequestCanceled,
    >)
        ensures
            final(inbox).receiver() == old(inbox).receiver(),
            final(inbox).receipts() == old(inbox).receipts().push(Receipt::Looked(received)),
            channel::sees(
                old(inbox).receiver(),
                old(inbox).receipts(),
                self@.notices,
                self@.upgrades,
                received,
            ),
    {
        inbox.look(&self.courier, &self.upgrade_queue)
    }

    /// Returns a reference to the inner value, whoever holds the lock.
    pub fn get(&self) -> (value: &T)
        ensures
            *value == self@.value,
    {
        &self.cell
    }
}

impl<T> From<T> for QrwLock<T> {
    fn from(val: T) -> (lock: QrwLock<T>)
        ensures
            lock.wf(),
            lock@ == (LockView {
                mode: Mode::Unlocked,
                pending: Seq::empty(),
                upgrades: Seq::empty(),
                notices: Seq::empty(),
                gone: Set::empty(),
                id: lock@.id,
                turn: 0,
                value: val,
            }),
    {
        QrwLock::new(val)
    }
}

impl<T> vstd::std_specs::convert::FromSpecImpl<T> for QrwLock<T> {
    open spec fn obeys_from_spec() -> bool {
        false
    }

    open spec fn from_spec(val: T) -> QrwLock<T> {
        arbitrary()
    }
}

} // verus!
