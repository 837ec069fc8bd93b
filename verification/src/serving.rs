//! The order in which a lock answers the requests that wait for it.

use crate::channel::Notice;
use crate::contention::{READ_COUNT_MASK, WRITE_LOCKED};
use crate::request::{QrwRequest, RequestKind};
use vstd::prelude::*;

verus! {

/// Who holds a lock.
pub enum Mode {
    /// Nobody.
    Unlocked,
    /// This many readers, at least one.
    Read(nat),
    /// One writer.
    Write,
}

/// Which lock a guard belongs to, and which turn of those who hold that lock.
pub struct Stamp {
    /// Which lock it is.
    pub id: int,
    /// Which turn of it.
    pub turn: nat,
}

/// Whether a lock word, its `CONTENDED` bit aside, is one that a lock can have.
pub open spec fn valid_word(word: usize) -> bool {
    word == WRITE_LOCKED || word <= READ_COUNT_MASK
}

/// The meaning of a lock word.
pub open spec fn word_mode(word: usize) -> Mode {
    if word == 0 {
        Mode::Unlocked
    } else if word == WRITE_LOCKED {
        Mode::Write
    } else {
        Mode::Read(word as nat)
    }
}

/// Whether a lock in `mode` can be granted to a request of `kind`: to any request while nobody
/// holds it, and to one more reader beside other readers, as far as the count goes.
pub open spec fn admits(mode: Mode, kind: RequestKind) -> bool {
    match mode {
        Mode::Unlocked => true,
        Mode::Read(readers) => kind == RequestKind::Read && readers < READ_COUNT_MASK,
        Mode::Write => false,
    }
}

/// Who holds a lock after it was granted in `mode` to a request of `kind`.
pub open spec fn granted(mode: Mode, kind: RequestKind) -> Mode {
    match kind {
        RequestKind::Read => match mode {
            Mode::Read(readers) => Mode::Read(readers + 1),
            _ => Mode::Read(1),
        },
        RequestKind::Write => Mode::Write,
    }
}

/// Who holds a lock after one of the readers that held it in `mode` is gone.
pub open spec fn one_reader_less(mode: Mode) -> Mode {
    match mode {
        Mode::Read(readers) if readers > 1 => Mode::Read((readers - 1) as nat),
        _ => Mode::Unlocked,
    }
}

/// Who holds a lock after the notices `sent`, in their order. One that was not delivered, because
/// its waiter is gone, grants nothing.
pub open spec fn mode_after(mode: Mode, sent: Seq<Notice>) -> Mode
    decreases sent.len(),
{
    if sent.len() == 0 {
        mode
    } else {
        let before = mode_after(mode, sent.drop_last());
        if sent.last().delivered {
            granted(before, sent.last().request.kind)
        } else {
            before
        }
    }
}

/// Whether `sent` are the notices that a lock in `mode` owes to the requests in `queue`, and
/// `left` the requests that go on waiting: the requests are answered from the front, each while
/// the lock admits it, and the first of those left, if any, is one that the lock does not admit.
pub open spec fn served(
    mode: Mode,
    queue: Seq<QrwRequest>,
    sent: Seq<Notice>,
    left: Seq<QrwRequest>,
) -> bool {
    &&& answers(mode, queue, sent)
    &&& left == queue.skip(sent.len() as int)
    &&& left.len() == 0 || !admits(mode_after(mode, sent), left[0].kind)
}

/// Whether `sent` answers the requests at the front of `queue`, each while the lock admits it.
pub open spec fn answers(mode: Mode, queue: Seq<QrwRequest>, sent: Seq<Notice>) -> bool {
    &&& sent.len() <= queue.len()
    &&& forall|i: int| 0 <= i < sent.len() ==> #[trigger] answers_at(mode, queue, sent, i)
}

/// Whether the notice at `i` answers the request at `i`, and the lock admits that request after
/// the notices before.
pub open spec fn answers_at(
    mode: Mode,
    queue: Seq<QrwRequest>,
    sent: Seq<Notice>,
    i: int,
) -> bool {
    &&& sent[i].request == queue[i]
    &&& admits(mode_after(mode, sent.take(i)), queue[i].kind)
}

/// One more answer to the request at the front.
pub(crate) proof fn lemma_answer_next(
    mode: Mode,
    queue: Seq<QrwRequest>,
    sent: Seq<Notice>,
    notice: Notice,
)
    requires
        answers(mode, queue, sent),
        sent.len() < queue.len(),
        notice.request == queue[sent.len() as int],
        admits(mode_after(mode, sent), notice.request.kind),
    ensures
        answers(mode, queue, sent.push(notice)),
        mode_after(mode, sent.push(notice)) == (if notice.delivered {
            granted(mode_after(mode, sent), notice.request.kind)
        } else {
            mode_after(mode, sent)
        }),
{
    let more = sent.push(notice);
    assert(more.drop_last() =~= sent);
    assert forall|i: int| 0 <= i < more.len() implies #[trigger] answers_at(
        mode,
        queue,
        more,
        i,
    ) by {
        assert(more.take(i) =~= sent.take(i));
        if i < sent.len() {
            assert(answers_at(mode, queue, sent, i));
        } else {
            assert(sent.take(i) =~= sent);
        }
    }
}

/// The requests that were answered, in the order of their answers.
pub open spec fn requests_of(sent: Seq<Notice>) -> Seq<QrwRequest> {
    sent.map_values(|notice: Notice| notice.request)
}

/// Whether a mode is one that a lock can be in: there are readers in read mode, and no more than
/// can be counted.
pub open spec fn valid_mode(mode: Mode) -> bool {
    mode matches Mode::Read(readers) ==> 0 < readers <= READ_COUNT_MASK
}

/// The number of those who hold a lock.
pub open spec fn holders(mode: Mode) -> nat {
    match mode {
        Mode::Unlocked => 0,
        Mode::Read(readers) => readers,
        Mode::Write => 1,
    }
}

/// The number of notices to requests of `kind` that were delivered.
pub open spec fn grants(sent: Seq<Notice>, kind: RequestKind) -> nat
    decreases sent.len(),
{
    if sent.len() == 0 {
        0
    } else if sent.last().delivered && sent.last().request.kind == kind {
        grants(sent.drop_last(), kind) + 1
    } else {
        grants(sent.drop_last(), kind)
    }
}

/// The number of notices that were delivered.
pub open spec fn deliveries(sent: Seq<Notice>) -> nat
    decreases sent.len(),
{
    if sent.len() == 0 {
        0
    } else {
        deliveries(sent.drop_last()) + (if sent.last().delivered {
            1nat
        } else {
            0
        })
    }
}

/// The answers to a queue without the last one are answers too.
pub(crate) proof fn lemma_answers_take(
    mode: Mode,
    queue: Seq<QrwRequest>,
    sent: Seq<Notice>,
    n: int,
)
    requires
        answers(mode, queue, sent),
        0 <= n <= sent.len(),
    ensures
        answers(mode, queue, sent.take(n)),
{
    let fewer = sent.take(n);
    assert forall|i: int| 0 <= i < fewer.len() implies #[trigger] answers_at(
        mode,
        queue,
        fewer,
        i,
    ) by {
        assert(answers_at(mode, queue, sent, i));
        assert(fewer.take(i) =~= sent.take(i));
    }
}

/// Who holds the lock after the notices up to and with the one at `i`.
proof fn lemma_mode_after_step(mode: Mode, sent: Seq<Notice>, i: int)
    requires
        0 <= i < sent.len(),
    ensures
        mode_after(mode, sent.take(i + 1)) == (if sent[i].delivered {
            granted(mode_after(mode, sent.take(i)), sent[i].request.kind)
        } else {
            mode_after(mode, sent.take(i))
        }),
        deliveries(sent.take(i + 1)) == deliveries(sent.take(i)) + (if sent[i].delivered {
            1nat
        } else {
            0
        }),
{
    assert(sent.take(i + 1).drop_last() =~= sent.take(i));
}

/// Every delivered notice makes one more holder, and no other does.
pub proof fn lemma_holders_counted(mode: Mode, queue: Seq<QrwRequest>, sent: Seq<Notice>)
    requires
        valid_mode(mode),
        answers(mode, queue, sent),
    ensures
        valid_mode(mode_after(mode, sent)),
        holders(mode_after(mode, sent)) == holders(mode) + deliveries(sent),
    decreases sent.len(),
{
    if sent.len() > 0 {
        let last = sent.len() - 1;
        lemma_answers_take(mode, queue, sent, last);
        lemma_holders_counted(mode, queue, sent.take(last));
        lemma_mode_after_step(mode, sent, last);
        assert(answers_at(mode, queue, sent, last));
        assert(sent.take(last + 1) =~= sent);
    }
}

/// A delivered notice to a writer is the last that is sent, and the first that is delivered: the
/// lock was unlocked until then.
pub proof fn lemma_writer_alone(mode: Mode, queue: Seq<QrwRequest>, sent: Seq<Notice>, i: int)
    requires
        valid_mode(mode),
        answers(mode, queue, sent),
        0 <= i < sent.len(),
        sent[i].delivered,
        sent[i].request.kind == RequestKind::Write,
    ensures
        mode is Unlocked,
        i == sent.len() - 1,
        deliveries(sent) == 1,
        mode_after(mode, sent) is Write,
{
    lemma_answers_take(mode, queue, sent, i);
    lemma_holders_counted(mode, queue, sent.take(i));
    assert(answers_at(mode, queue, sent, i));
    lemma_mode_after_step(mode, sent, i);
    if i + 1 < sent.len() {
        assert(answers_at(mode, queue, sent, i + 1));
    }
    assert(sent.take(i + 1) =~= sent);
}

/// A lock in which nobody waits any more than it admits stays as it is.
pub(crate) proof fn lemma_served_again(
    mode: Mode,
    queue: Seq<QrwRequest>,
    sent: Seq<Notice>,
    left: Seq<QrwRequest>,
)
    requires
        served(mode, queue, sent, left),
        queue.len() == 0 || !admits(mode, queue[0].kind),
    ensures
        sent.len() == 0,
        left == queue,
        mode_after(mode, sent) == mode,
{
    if sent.len() > 0 {
        assert(answers_at(mode, queue, sent, 0));
        assert(sent.take(0) =~= Seq::empty());
    }
    assert(queue.skip(0) =~= queue);
}

/// As many read requests at the front as the count has room for are all answered, if the lock is
/// not locked for writing.
pub(crate) proof fn lemma_reads_answered(
    mode: Mode,
    queue: Seq<QrwRequest>,
    sent: Seq<Notice>,
    left: Seq<QrwRequest>,
    n: int,
)
    requires
        valid_mode(mode),
        !(mode is Write),
        served(mode, queue, sent, left),
        0 <= n <= queue.len(),
        holders(mode) + n <= READ_COUNT_MASK,
        forall|i: int| 0 <= i < n ==> (#[trigger] queue[i]).kind == RequestKind::Read,
    ensures
        sent.len() >= n,
{
    if sent.len() < n {
        lemma_holders_counted(mode, queue, sent);
        lemma_deliveries_bound(sent);
        assert(left[0] == queue[sent.len() as int]);
        if mode_after(mode, sent) is Write {
            lemma_write_has_writer(mode, sent);
            let i = choose|i: int|
                0 <= i < sent.len() && (#[trigger] sent[i]).request.kind == RequestKind::Write;
            assert(answers_at(mode, queue, sent, i));
            assert(queue[i].kind == RequestKind::Read);
        }
    }
}

/// No more notices were delivered than were sent.
proof fn lemma_deliveries_bound(sent: Seq<Notice>)
    ensures
        deliveries(sent) <= sent.len(),
    decreases sent.len(),
{
    if sent.len() > 0 {
        lemma_deliveries_bound(sent.drop_last());
    }
}

/// A lock is locked for writing only by a notice to a writer.
proof fn lemma_write_has_writer(mode: Mode, sent: Seq<Notice>)
    requires
        !(mode is Write),
        mode_after(mode, sent) is Write,
    ensures
        exists|i: int|
            0 <= i < sent.len() && (#[trigger] sent[i]).request.kind == RequestKind::Write,
    decreases sent.len(),
{
    let last = sent.len() - 1;
    if sent.last().delivered {
        assert(sent[last].request.kind == RequestKind::Write);
    } else {
        lemma_write_has_writer(mode, sent.drop_last());
        let i = choose|i: int|
            0 <= i < sent.drop_last().len() && (#[trigger] sent.drop_last()[i]).request.kind
                == RequestKind::Write;
        assert(sent[i].request.kind == RequestKind::Write);
    }
}

/// A lock that is unlocked after it was served has nobody waiting.
pub proof fn lemma_unlocked_nobody_waits(
    mode: Mode,
    queue: Seq<QrwRequest>,
    sent: Seq<Notice>,
    left: Seq<QrwRequest>,
)
    requires
        served(mode, queue, sent, left),
        mode_after(mode, sent) is Unlocked,
    ensures
        left.len() == 0,
{
}

/// Decides whether a lock with this word can be granted to a request of `kind`.
pub fn word_admits(word: usize, kind: RequestKind) -> (admitted: bool)
    requires
        valid_word(word),
    ensures
        admitted == admits(word_mode(word), kind),
{
    word == 0 || (kind == RequestKind::Read && word < READ_COUNT_MASK)
}

/// The word of a lock after it was granted to a request of `kind`.
pub fn word_granted(word: usize, kind: RequestKind) -> (next: usize)
    requires
        valid_word(word),
        admits(word_mode(word), kind),
    ensures
        valid_word(next),
        word_mode(next) == granted(word_mode(word), kind),
{
    match kind {
        RequestKind::Read => word + 1,
        RequestKind::Write => WRITE_LOCKED,
    }
}

} // verus!
