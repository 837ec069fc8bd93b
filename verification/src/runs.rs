//! What the operations on a lock amount to over a whole run.

use crate::channel::{self, Notice, Receipt, RequestCanceled};
use crate::laws;
use crate::qrw_guard::{ReadGuard, WriteGuard};
use crate::qrw_lock::LockView;
use crate::qutex::{Guard, QutexView};
use crate::request::{QrwRequest, Request, RequestKind};
use crate::serving::{self, Mode};
use futures::sync::oneshot::{Receiver, Sender};
use vstd::prelude::*;

verus! {

/// An operation on a lock, as its owner calls for it.
pub enum Operation<T> {
    /// A request is enqueued.
    Request(QrwRequest),
    /// The queues are processed.
    Process,
    /// A reader releases the lock.
    ReleaseRead,
    /// The writer releases the lock.
    ReleaseWrite,
    /// A reader becomes the writer at once.
    Upgrade,
    /// A reader begins to wait for an upgrade.
    AwaitUpgrade(Receiver<()>),
    /// The writer becomes a reader.
    Downgrade,
    /// One who waits for a request or an upgrade withdraws.
    Withdraw(Receiver<()>),
    /// The writer changes the value.
    Assign(T),
    /// Somebody changes the value while nobody holds the lock.
    Replace(T),
}

/// Whether `operation` can be called for in `before` and makes `after` of it.
pub open spec fn operates<T>(
    before: LockView<T>,
    operation: Operation<T>,
    after: LockView<T>,
) -> bool {
    match operation {
        Operation::Request(request) => after == before.requested(request),
        Operation::Process => before.processed(after),
        Operation::ReleaseRead => before.mode is Read && before.reader_gone().processed(after),
        Operation::ReleaseWrite => before.mode is Write && before.writer_gone().processed(after),
        Operation::Upgrade => before.upgrades_at_once() && after == before.upgraded(),
        Operation::AwaitUpgrade(rx) => before.mode is Read && !before.upgrades_at_once() && after
            == before.upgrade_requested(rx),
        Operation::Downgrade => before.mode is Write && before.downgraded().processed(after),
        Operation::Withdraw(rx) => after == before.withdrawn(rx),
        Operation::Assign(value) => before.mode is Write && after == (LockView { value, ..before }),
        Operation::Replace(value) => before.mode is Unlocked && after == (LockView {
            value,
            ..before
        }),
    }
}

/// Whether `states` is what `operations` make of a new lock, one after the other.
pub open spec fn is_run<T>(states: Seq<LockView<T>>, operations: Seq<Operation<T>>) -> bool {
    &&& states.len() == operations.len() + 1
    &&& states[0].mode is Unlocked
    &&& states[0].pending.len() == 0
    &&& states[0].upgrades.len() == 0
    &&& states[0].notices.len() == 0
    &&& states[0].gone == Set::<Sender<()>>::empty()
    &&& forall|i: int|
        0 <= i < operations.len() ==> operates(states[i], #[trigger] operations[i], states[i + 1])
}

/// How many have been let in to read and to write and have not left.
pub struct Census {
    pub readers: int,
    pub writers: int,
}

/// The census after an operation, before anybody is let in by it: what its caller gave up or
/// turned into something else.
pub open spec fn census_called<T>(census: Census, operation: Operation<T>) -> Census {
    let Census { readers, writers } = census;
    match operation {
        Operation::ReleaseRead | Operation::AwaitUpgrade(_) => Census {
            readers: readers - 1,
            writers,
        },
        Operation::ReleaseWrite => Census { readers, writers: writers - 1 },
        Operation::Upgrade => Census { readers: readers - 1, writers: writers + 1 },
        Operation::Downgrade => Census { readers: readers + 1, writers: writers - 1 },
        _ => census,
    }
}

/// The census after the notices `sent`: each that was delivered lets one more in.
pub open spec fn census_notified(census: Census, sent: Seq<Notice>) -> Census
    decreases sent.len(),
{
    if sent.len() == 0 {
        census
    } else {
        let Census { readers, writers } = census_notified(census, sent.drop_last());
        if !sent.last().delivered {
            Census { readers, writers }
        } else if sent.last().request.kind == RequestKind::Read {
            Census { readers: readers + 1, writers }
        } else {
            Census { readers, writers: writers + 1 }
        }
    }
}

/// The census after the first `n` operations of a run.
pub open spec fn census<T>(
    states: Seq<LockView<T>>,
    operations: Seq<Operation<T>>,
    n: nat,
) -> Census
    decreases n,
{
    if n == 0 {
        Census { readers: 0, writers: 0 }
    } else {
        census_notified(
            census_called(census(states, operations, (n - 1) as nat), operations[n - 1]),
            states[n - 1].sent_until(states[n as int]),
        )
    }
}

/// What a mode says of the census.
pub open spec fn census_of(mode: Mode) -> Census {
    match mode {
        Mode::Unlocked => Census { readers: 0, writers: 0 },
        Mode::Read(readers) => Census { readers: readers as int, writers: 0 },
        Mode::Write => Census { readers: 0, writers: 1 },
    }
}

/// The answers to requests let in those whom the mode then counts.
proof fn lemma_census_answered(mode: Mode, queue: Seq<QrwRequest>, sent: Seq<Notice>, n: int)
    requires
        serving::answers(mode, queue, sent),
        0 <= n <= sent.len(),
    ensures
        census_notified(census_of(mode), sent.take(n)) == census_of(
            serving::mode_after(mode, sent.take(n)),
        ),
    decreases n,
{
    if n == 0 {
        assert(sent.take(0) =~= Seq::empty());
    } else {
        lemma_census_answered(mode, queue, sent, n - 1);
        assert(sent.take(n).drop_last() =~= sent.take(n - 1));
        assert(serving::answers_at(mode, queue, sent, n - 1));
    }
}

/// Two batches of notices let in what the second lets in after the first.
proof fn lemma_census_add(census: Census, first: Seq<Notice>, rest: Seq<Notice>)
    ensures
        census_notified(census, first + rest) == census_notified(
            census_notified(census, first),
            rest,
        ),
    decreases rest.len(),
{
    if rest.len() == 0 {
        assert(first + rest =~= first);
    } else {
        assert((first + rest).drop_last() =~= first + rest.drop_last());
        lemma_census_add(census, first, rest.drop_last());
    }
}

/// Processing lets in those whom the mode then counts.
proof fn lemma_census_processed<T>(before: LockView<T>, after: LockView<T>)
    requires
        before.processed(after),
    ensures
        census_notified(census_of(before.mode), before.sent_until(after)) == census_of(after.mode),
{
    let first = before.upgrades_answered(after);
    let rest = before.requests_answered(after);
    let upgraded = serving::mode_after(before.mode, first);
    laws::law_first_come_first_served(before, after);
    lemma_census_answered(before.mode, before.upgrades, first, first.len() as int);
    lemma_census_answered(upgraded, before.pending, rest, rest.len() as int);
    assert(first.take(first.len() as int) =~= first);
    assert(rest.take(rest.len() as int) =~= rest);
    lemma_census_add(census_of(before.mode), first, rest);
}

/// An operation keeps what holds of every lock, and the mode goes on to say who has been let in.
pub proof fn law_operation_keeps_lock_valid<T>(
    before: LockView<T>,
    operation: Operation<T>,
    after: LockView<T>,
)
    requires
        before.wf(),
        operates(before, operation, after),
    ensures
        after.wf(),
        census_of(after.mode) == census_notified(
            census_called(census_of(before.mode), operation),
            before.sent_until(after),
        ),
{
    match operation {
        Operation::Process => {
            laws::law_processing_keeps_lock_valid(before, after);
            lemma_census_processed(before, after);
        },
        Operation::ReleaseRead => {
            laws::law_processing_keeps_lock_valid(before.reader_gone(), after);
            lemma_census_processed(before.reader_gone(), after);
            assert(before.sent_until(after) == before.reader_gone().sent_until(after));
        },
        Operation::ReleaseWrite => {
            laws::law_processing_keeps_lock_valid(before.writer_gone(), after);
            lemma_census_processed(before.writer_gone(), after);
            assert(before.sent_until(after) == before.writer_gone().sent_until(after));
        },
        Operation::Downgrade => {
            laws::law_processing_keeps_lock_valid(before.downgraded(), after);
            lemma_census_processed(before.downgraded(), after);
            assert(before.sent_until(after) == before.downgraded().sent_until(after));
        },
        _ => {
            assert(before.sent_until(after) =~= Seq::empty());
        },
    }
}

/// Mutual exclusion: at no time of a run is there more than one writer, or a writer beside a
/// reader, among those who have been let in and have not left.
pub proof fn law_mutual_exclusion<T>(
    states: Seq<LockView<T>>,
    operations: Seq<Operation<T>>,
    n: nat,
)
    requires
        is_run(states, operations),
        n <= operations.len(),
    ensures
        census(states, operations, n).readers >= 0,
        0 <= census(states, operations, n).writers <= 1,
        census(states, operations, n).writers == 0 || census(states, operations, n).readers == 0,
        census(states, operations, n) == census_of(states[n as int].mode),
        states[n as int].wf(),
    decreases n,
{
    if n > 0 {
        let last = (n - 1) as nat;
        law_mutual_exclusion(states, operations, last);
        assert(operates(states[last as int], operations[last as int], states[last as int + 1]));
        law_operation_keeps_lock_valid(
            states[last as int],
            operations[last as int],
            states[n as int],
        );
    }
}

/// The lock on which an operation processes the queues, or the one before the operation.
pub open spec fn called<T>(before: LockView<T>, operation: Operation<T>) -> LockView<T> {
    match operation {
        Operation::ReleaseRead => before.reader_gone(),
        Operation::ReleaseWrite => before.writer_gone(),
        Operation::Downgrade => before.downgraded(),
        _ => before,
    }
}

/// Whether an operation processes the queues.
pub open spec fn processes<T>(operation: Operation<T>) -> bool {
    match operation {
        Operation::Process
        | Operation::ReleaseRead
        | Operation::ReleaseWrite
        | Operation::Downgrade => true,
        _ => false,
    }
}

/// The requests that were made in the first `n` operations of a run.
pub open spec fn requests_made<T>(operations: Seq<Operation<T>>, n: nat) -> Seq<QrwRequest>
    decreases n,
{
    if n == 0 {
        Seq::empty()
    } else {
        let before = requests_made(operations, (n - 1) as nat);
        match operations[n - 1] {
            Operation::Request(request) => before.push(request),
            _ => before,
        }
    }
}

/// The requests that were answered in the first `n` operations of a run.
pub open spec fn requests_answered<T>(
    states: Seq<LockView<T>>,
    operations: Seq<Operation<T>>,
    n: nat,
) -> Seq<QrwRequest>
    decreases n,
{
    if n == 0 {
        Seq::empty()
    } else {
        let before = requests_answered(states, operations, (n - 1) as nat);
        if processes(operations[n - 1]) {
            before + serving::requests_of(states[n - 1].requests_answered(states[n as int]))
        } else {
            before
        }
    }
}

/// Nobody is overtaken or forgotten: at every time of a run, the requests that were answered, in
/// the order of their answers, followed by those that wait, are the requests in the order in
/// which they were made.
pub proof fn law_nobody_is_overtaken<T>(
    states: Seq<LockView<T>>,
    operations: Seq<Operation<T>>,
    n: nat,
)
    requires
        is_run(states, operations),
        n <= operations.len(),
    ensures
        requests_made(operations, n) == requests_answered(states, operations, n)
            + states[n as int].pending,
    decreases n,
{
    if n == 0 {
        assert(states[0].pending =~= Seq::empty());
    } else {
        let last = (n - 1) as nat;
        let before = states[n - 1];
        let after = states[n as int];
        let operation = operations[n - 1];
        law_nobody_is_overtaken(states, operations, last);
        assert(operates(states[n - 1], operations[n - 1], states[n - 1 + 1]));
        if processes(operation) {
            let start = called(before, operation);
            laws::law_first_come_first_served(start, after);
            assert(start.requests_answered(after) == before.requests_answered(after));
        }
        assert(requests_made(operations, n) =~= requests_answered(states, operations, n)
            + after.pending);
    }
}

/// The upgrades that began to wait in the first `n` operations of a run.
pub open spec fn upgrades_made<T>(operations: Seq<Operation<T>>, n: nat) -> Seq<QrwRequest>
    decreases n,
{
    if n == 0 {
        Seq::empty()
    } else {
        let before = upgrades_made(operations, (n - 1) as nat);
        match operations[n - 1] {
            Operation::AwaitUpgrade(rx) => before.push(
                QrwRequest { tx: channel::sender_of(rx), kind: RequestKind::Write },
            ),
            _ => before,
        }
    }
}

/// The upgrades that were answered in the first `n` operations of a run.
pub open spec fn upgrades_answered<T>(
    states: Seq<LockView<T>>,
    operations: Seq<Operation<T>>,
    n: nat,
) -> Seq<QrwRequest>
    decreases n,
{
    if n == 0 {
        Seq::empty()
    } else {
        let before = upgrades_answered(states, operations, (n - 1) as nat);
        if processes(operations[n - 1]) {
            before + serving::requests_of(states[n - 1].upgrades_answered(states[n as int]))
        } else {
            before
        }
    }
}

/// No upgrade is overtaken by another or forgotten: at every time of a run, the upgrades that
/// were answered, in the order of their answers, followed by those that wait, are the upgrades in
/// the order in which they began to wait.
pub proof fn law_no_upgrade_is_overtaken<T>(
    states: Seq<LockView<T>>,
    operations: Seq<Operation<T>>,
    n: nat,
)
    requires
        is_run(states, operations),
        n <= operations.len(),
    ensures
        upgrades_made(operations, n) == upgrades_answered(states, operations, n)
            + states[n as int].upgrades,
    decreases n,
{
    if n == 0 {
        assert(states[0].upgrades =~= Seq::empty());
    } else {
        let last = (n - 1) as nat;
        let before = states[n - 1];
        let after = states[n as int];
        let operation = operations[n - 1];
        law_no_upgrade_is_overtaken(states, operations, last);
        assert(operates(states[n - 1], operations[n - 1], states[n - 1 + 1]));
        if processes(operation) {
            let start = called(before, operation);
            laws::law_first_come_first_served(start, after);
            assert(start.upgrades_answered(after) == before.upgrades_answered(after));
        }
        assert(upgrades_made(operations, n) =~= upgrades_answered(states, operations, n)
            + after.upgrades);
    }
}

/// Whether an operation changes the value.
pub open spec fn changes_value<T>(operation: Operation<T>) -> bool {
    match operation {
        Operation::Assign(_) | Operation::Replace(_) => true,
        _ => false,
    }
}

/// The value stays as it is as long as nobody changes it, whatever else is done with the lock.
pub proof fn law_value_stays<T>(
    states: Seq<LockView<T>>,
    operations: Seq<Operation<T>>,
    n: nat,
    m: nat,
)
    requires
        is_run(states, operations),
        n <= m <= operations.len(),
        forall|i: int| n <= i < m ==> !changes_value(#[trigger] operations[i]),
    ensures
        states[m as int].value == states[n as int].value,
    decreases m,
{
    if n < m {
        law_value_stays(states, operations, n, (m - 1) as nat);
        assert(operates(states[m - 1], operations[m - 1], states[m - 1 + 1]));
    }
}

/// A read gives back the last write: from when the value was changed until it is changed again,
/// whoever is let in to the lock finds the value that was written.
pub proof fn law_read_gives_back_write<T>(
    states: Seq<LockView<T>>,
    operations: Seq<Operation<T>>,
    written: T,
    n: nat,
    m: nat,
)
    requires
        is_run(states, operations),
        n < m <= operations.len(),
        operations[n as int] == Operation::Assign(written) || operations[n as int]
            == Operation::Replace(written),
        forall|i: int| n < i < m ==> !changes_value(#[trigger] operations[i]),
    ensures
        states[m as int].value == written,
{
    assert(operates(states[n as int], operations[n as int], states[n as int + 1]));
    law_value_stays(states, operations, (n + 1) as nat, m);
}

/// One more in a queue does not make anybody else leave it.
proof fn lemma_waits_on(queue: Seq<QrwRequest>, request: QrwRequest, tx: Sender<()>)
    requires
        channel::waits(queue, tx),
    ensures
        channel::waits(queue.push(request), tx),
{
    let i = choose|i: int| 0 <= i < queue.len() && (#[trigger] queue[i]).tx == tx;
    assert(queue.push(request)[i].tx == tx);
}

/// Whether one who waited for a request or an upgrade goes on waiting in `queue`, or was told.
pub open spec fn accounted_for(
    queue: Seq<QrwRequest>,
    notices: Seq<Notice>,
    tx: Sender<()>,
) -> bool {
    channel::waits(queue, tx) || channel::told(notices, tx, true) || channel::told(
        notices,
        tx,
        false,
    )
}

/// One who waits goes on waiting or is told, however the run goes on.
proof fn lemma_waiter_accounted_for<T>(
    states: Seq<LockView<T>>,
    operations: Seq<Operation<T>>,
    tx: Sender<()>,
    n: nat,
    m: nat,
)
    requires
        is_run(states, operations),
        n <= m <= operations.len(),
        channel::waits(states[n as int].pending, tx),
    ensures
        accounted_for(states[m as int].pending, states[m as int].notices, tx),
    decreases m,
{
    if n < m {
        let before = states[m - 1];
        let after = states[m as int];
        lemma_waiter_accounted_for(states, operations, tx, n, (m - 1) as nat);
        assert(operates(states[m - 1], operations[m - 1], states[m - 1 + 1]));
        if processes(operations[m - 1]) {
            laws::law_nobody_is_forgotten(called(before, operations[m - 1]), after, tx);
        }
        match operations[m - 1] {
            Operation::Request(request) => {
                if channel::waits(before.pending, tx) {
                    lemma_waits_on(before.pending, request, tx);
                }
            },
            _ => {},
        }
    }
}

/// A waiter who is still there gets the lock in their turn: one who waited at some time of a
/// run, and has neither withdrawn nor lent the channel to somebody, sees at any later time that
/// the grant may still come if the request waits, and sees the grant otherwise.
pub proof fn law_waiter_is_granted<T>(
    states: Seq<LockView<T>>,
    operations: Seq<Operation<T>>,
    n: nat,
    m: nat,
    rx: Receiver<()>,
    receipts: Seq<Receipt>,
    received: Result<Option<()>, RequestCanceled>,
)
    requires
        is_run(states, operations),
        n <= m <= operations.len(),
        channel::waits(states[n as int].pending, channel::sender_of(rx)),
        !channel::lent(receipts),
        !channel::closed(receipts),
        !channel::redeemed(receipts),
        channel::sees(
            rx,
            receipts,
            states[m as int].notices,
            states[m as int].pending,
            received,
        ),
    ensures
        received == channel::due(
            channel::waits(states[m as int].pending, channel::sender_of(rx)),
        ),
{
    lemma_waiter_accounted_for(states, operations, channel::sender_of(rx), n, m);
    laws::lemma_unit(received);
}

/// One who waits goes on waiting or is told, however the run goes on.
proof fn lemma_upgrader_accounted_for<T>(
    states: Seq<LockView<T>>,
    operations: Seq<Operation<T>>,
    tx: Sender<()>,
    n: nat,
    m: nat,
)
    requires
        is_run(states, operations),
        n <= m <= operations.len(),
        channel::waits(states[n as int].upgrades, tx),
    ensures
        accounted_for(states[m as int].upgrades, states[m as int].notices, tx),
    decreases m,
{
    if n < m {
        let before = states[m - 1];
        let after = states[m as int];
        lemma_upgrader_accounted_for(states, operations, tx, n, (m - 1) as nat);
        assert(operates(states[m - 1], operations[m - 1], states[m - 1 + 1]));
        if processes(operations[m - 1]) {
            laws::law_nobody_is_forgotten(called(before, operations[m - 1]), after, tx);
        }
        match operations[m - 1] {
            Operation::AwaitUpgrade(own) => {
                if channel::waits(before.upgrades, tx) {
                    lemma_waits_on(before.upgrades, after.upgrades.last(), tx);
                    assert(after.upgrades == before.upgrades.push(after.upgrades.last()));
                }
            },
            _ => {},
        }
    }
}

/// A waiter who is still there gets the upgrade in their turn: one who waited for an upgrade at
/// some time of a run, and has neither withdrawn nor lent the channel to somebody, sees at any
/// later time that the grant may still come if the upgrade waits, and sees the grant otherwise.
pub proof fn law_upgrader_is_granted<T>(
    states: Seq<LockView<T>>,
    operations: Seq<Operation<T>>,
    n: nat,
    m: nat,
    rx: Receiver<()>,
    receipts: Seq<Receipt>,
    received: Result<Option<()>, RequestCanceled>,
)
    requires
        is_run(states, operations),
        n <= m <= operations.len(),
        channel::waits(states[n as int].upgrades, channel::sender_of(rx)),
        !channel::lent(receipts),
        !channel::closed(receipts),
        !channel::redeemed(receipts),
        channel::sees(
            rx,
            receipts,
            states[m as int].notices,
            states[m as int].upgrades,
            received,
        ),
    ensures
        received == channel::due(
            channel::waits(states[m as int].upgrades, channel::sender_of(rx)),
        ),
{
    lemma_upgrader_accounted_for(states, operations, channel::sender_of(rx), n, m);
    laws::lemma_unit(received);
}

/// A waiter who withdrew is never granted the lock: from then on to the end of a run, nothing is
/// delivered to them.
pub proof fn law_withdrawn_is_never_granted<T>(
    states: Seq<LockView<T>>,
    operations: Seq<Operation<T>>,
    rx: Receiver<()>,
    n: nat,
    m: nat,
)
    requires
        is_run(states, operations),
        n < m <= operations.len(),
        operations[n as int] == Operation::<T>::Withdraw(rx),
    ensures
        states[m as int].gone.contains(channel::sender_of(rx)),
        channel::told(states[m as int].notices, channel::sender_of(rx), true) ==> channel::told(
            states[n as int].notices,
            channel::sender_of(rx),
            true,
        ),
    decreases m,
{
    let tx = channel::sender_of(rx);
    let before = states[m - 1];
    let after = states[m as int];
    assert(operates(states[m - 1], operations[m - 1], states[m - 1 + 1]));
    if n < m - 1 {
        law_withdrawn_is_never_granted(states, operations, rx, n, (m - 1) as nat);
        if processes(operations[m - 1]) {
            laws::law_withdrawn_waiter_is_passed_over(called(before, operations[m - 1]), after, tx);
        }
    }
}

/// An upgrade that comes about at once overtakes nobody: it is one of the only reader, at a time
/// when nobody waits for an upgrade and everybody who ever did has been answered. The reader is
/// the writer then, whoever waits, and nothing else has changed.
pub proof fn law_upgrade_at_once_overtakes_nobody<T>(
    states: Seq<LockView<T>>,
    operations: Seq<Operation<T>>,
    i: int,
)
    requires
        is_run(states, operations),
        0 <= i < operations.len(),
        operations[i] is Upgrade,
    ensures
        states[i].mode == Mode::Read(1),
        states[i].upgrades.len() == 0,
        upgrades_made(operations, i as nat) == upgrades_answered(states, operations, i as nat),
        states[i + 1].mode is Write,
        states[i + 1].upgrades.len() == 0,
        states[i + 1].pending == states[i].pending,
        states[i + 1].notices == states[i].notices,
        states[i + 1].gone == states[i].gone,
        states[i + 1].value == states[i].value,
{
    assert(operates(states[i], operations[i], states[i + 1]));
    law_no_upgrade_is_overtaken(states, operations, i as nat);
    assert(upgrades_answered(states, operations, i as nat) + states[i].upgrades
        =~= upgrades_answered(states, operations, i as nat));
}

/// A reader waits for an upgrade only behind other readers or other upgrades: the only reader does
/// not while no upgrade waits, whatever requests do. One who waits is a reader no more, and waits
/// behind all the upgrades that wait already, and nothing else has changed.
pub proof fn law_only_reader_need_not_wait<T>(
    states: Seq<LockView<T>>,
    operations: Seq<Operation<T>>,
    i: int,
    rx: Receiver<()>,
)
    requires
        is_run(states, operations),
        0 <= i < operations.len(),
        operations[i] == Operation::<T>::AwaitUpgrade(rx),
    ensures
        states[i].mode is Read,
        states[i].mode != Mode::Read(1) || states[i].upgrades.len() > 0,
        states[i + 1].mode == (if states[i].mode == Mode::Read(1) {
            Mode::Unlocked
        } else {
            Mode::Read((states[i].mode->Read_0 - 1) as nat)
        }),
        states[i + 1].upgrades.len() == states[i].upgrades.len() + 1,
        states[i + 1].upgrades.drop_last() == states[i].upgrades,
        states[i + 1].upgrades.last().tx == channel::sender_of(rx),
        states[i + 1].upgrades.last().kind == RequestKind::Write,
        states[i + 1].pending == states[i].pending,
        states[i + 1].notices == states[i].notices,
        states[i + 1].gone == states[i].gone,
        states[i + 1].value == states[i].value,
{
    assert(operates(states[i], operations[i], states[i + 1]));
    law_mutual_exclusion(states, operations, i as nat);
    assert(states[i + 1].upgrades.drop_last() =~= states[i].upgrades);
}

/// Of two upgrades the one that was called for first is granted first: when a reader becomes the
/// writer at once, everybody who began to wait for an upgrade before has been told.
pub proof fn law_earlier_upgrade_is_told_first<T>(
    states: Seq<LockView<T>>,
    operations: Seq<Operation<T>>,
    i: nat,
    j: nat,
    rx: Receiver<()>,
)
    requires
        is_run(states, operations),
        i < j < operations.len(),
        operations[i as int] == Operation::<T>::AwaitUpgrade(rx),
        operations[j as int] is Upgrade,
    ensures
        channel::told(states[j as int].notices, channel::sender_of(rx), true) || channel::told(
            states[j as int].notices,
            channel::sender_of(rx),
            false,
        ),
{
    let tx = channel::sender_of(rx);
    let next = (i + 1) as nat;
    law_only_reader_need_not_wait(states, operations, i as int, rx);
    let waiting = states[next as int].upgrades;
    assert(waiting[waiting.len() - 1].tx == tx);
    assert(channel::waits(waiting, tx));
    lemma_upgrader_accounted_for(states, operations, tx, next, j);
    law_upgrade_at_once_overtakes_nobody(states, operations, j as int);
}

/// A request waits behind all those that wait already, and changes nothing else.
pub proof fn law_request_waits_behind_all<T>(
    before: LockView<T>,
    request: QrwRequest,
    after: LockView<T>,
)
    requires
        operates(before, Operation::Request(request), after),
    ensures
        after.pending.len() == before.pending.len() + 1,
        after.pending.drop_last() == before.pending,
        after.pending.last() == request,
        after.mode == before.mode,
        after.upgrades == before.upgrades,
        after.notices == before.notices,
        after.gone == before.gone,
        after.value == before.value,
        after.id == before.id,
{
    assert(after.pending.drop_last() =~= before.pending);
}

/// A withdrawal is known of the one who withdraws and of nobody else, and changes nothing else.
pub proof fn law_withdrawal_is_of_one<T>(
    before: LockView<T>,
    rx: Receiver<()>,
    after: LockView<T>,
    tx: Sender<()>,
)
    requires
        operates(before, Operation::Withdraw(rx), after),
    ensures
        after.gone.contains(tx) <==> before.gone.contains(tx) || tx == channel::sender_of(rx),
        after.mode == before.mode,
        after.pending == before.pending,
        after.upgrades == before.upgrades,
        after.notices == before.notices,
        after.value == before.value,
        after.id == before.id,
{
}

/// A release is of one: one of several readers leaves one reader less, and the last reader or the
/// writer leaves a lock that nobody holds. Then the queues are processed, and whoever waited is
/// answered or waits on.
pub proof fn law_release_is_of_one<T>(
    before: LockView<T>,
    operation: Operation<T>,
    after: LockView<T>,
)
    requires
        before.wf(),
        operation is ReleaseRead || operation is ReleaseWrite,
        operates(before, operation, after),
    ensures
        operation is ReleaseRead <==> before.mode is Read,
        operation is ReleaseWrite <==> before.mode is Write,
        before.mode matches Mode::Read(readers) ==> (if readers > 1 {
            (LockView { mode: Mode::Read((readers - 1) as nat), ..before }).processed(after)
        } else {
            (LockView { mode: Mode::Unlocked, turn: after.turn, ..before }).processed(after)
        }),
        before.mode is Write ==> (LockView {
            mode: Mode::Unlocked,
            turn: after.turn,
            ..before
        }).processed(after),
        before.mode != Mode::Read(1) && before.mode is Read ==> after.mode is Read,
{
    if before.mode is Read && before.mode != Mode::Read(1) {
        laws::law_read_lock_admits_readers_only(before.reader_gone(), after);
    }
}

/// A downgrade leaves its caller as a reader beside those who are let in by it: the lock is one
/// that has one reader, and the queues are processed.
pub proof fn law_downgrade_leaves_one_reader<T>(before: LockView<T>, after: LockView<T>)
    requires
        operates(before, Operation::Downgrade, after),
    ensures
        before.mode is Write,
        (LockView { mode: Mode::Read(1), turn: after.turn, ..before }).processed(after),
{
}

/// Whether an operation ends a turn: the last reader or the writer gives the lock up, or goes over
/// from reading to writing or back.
pub open spec fn ends_turn<T>(before: LockView<T>, operation: Operation<T>) -> bool {
    match operation {
        Operation::ReleaseRead | Operation::AwaitUpgrade(_) => before.mode == Mode::Read(1),
        Operation::ReleaseWrite | Operation::Upgrade | Operation::Downgrade => true,
        _ => false,
    }
}

/// A turn that has ended does not come back, so that no guard of it fits the lock again.
pub proof fn law_turn_never_comes_back<T>(
    states: Seq<LockView<T>>,
    operations: Seq<Operation<T>>,
    n: nat,
    m: nat,
)
    requires
        is_run(states, operations),
        n < m <= operations.len(),
    ensures
        states[m as int].id == states[n as int].id,
        states[m as int].turn >= states[n as int].turn,
        ends_turn(states[n as int], operations[n as int]) ==> states[m as int].turn
            > states[n as int].turn,
    decreases m,
{
    if n + 1 < m {
        law_turn_never_comes_back(states, operations, n, (m - 1) as nat);
    }
    law_mutual_exclusion(states, operations, (m - 1) as nat);
    assert(operates(states[m - 1], operations[m - 1], states[m - 1 + 1]));
}

/// Whether the operation at `i` of a run lets a writer in.
pub open spec fn lets_writer_in<T>(
    states: Seq<LockView<T>>,
    operations: Seq<Operation<T>>,
    i: int,
) -> bool {
    operations[i] is Upgrade || serving::grants(
        states[i].sent_until(states[i + 1]),
        RequestKind::Write,
    ) > 0
}

/// One who is let in to write holds the lock in the turn in which they are let in.
proof fn lemma_writer_let_in<T>(
    states: Seq<LockView<T>>,
    operations: Seq<Operation<T>>,
    i: int,
)
    requires
        is_run(states, operations),
        0 <= i < operations.len(),
        lets_writer_in(states, operations, i),
    ensures
        states[i + 1].mode is Write,
        states[i].mode is Write ==> states[i + 1].turn > states[i].turn,
{
    let before = states[i];
    let after = states[i + 1];
    let sent = before.sent_until(after);
    law_mutual_exclusion(states, operations, i as nat);
    assert(operates(states[i], operations[i], states[i + 1]));
    if !(operations[i] is Upgrade) {
        if processes(operations[i]) {
            let start = called(before, operations[i]);
            assert(start.sent_until(after) == sent);
            let k = lemma_grant_among(sent, RequestKind::Write);
            laws::law_writer_is_alone(start, after, k);
        } else {
            assert(sent =~= Seq::empty());
        }
    }
}

/// Notices that grant something have one that grants it.
proof fn lemma_grant_among(sent: Seq<Notice>, kind: RequestKind) -> (i: int)
    requires
        serving::grants(sent, kind) > 0,
    ensures
        0 <= i < sent.len(),
        sent[i].delivered,
        sent[i].request.kind == kind,
    decreases sent.len(),
{
    if sent.last().delivered && sent.last().request.kind == kind {
        sent.len() - 1
    } else {
        lemma_grant_among(sent.drop_last(), kind)
    }
}

/// A writer holds the lock until their turn ends.
proof fn lemma_writer_stays<T>(
    states: Seq<LockView<T>>,
    operations: Seq<Operation<T>>,
    n: nat,
    m: nat,
)
    requires
        is_run(states, operations),
        n <= m <= operations.len(),
        states[n as int].mode is Write,
    ensures
        states[m as int].turn >= states[n as int].turn,
        states[m as int].turn == states[n as int].turn ==> states[m as int].mode is Write,
    decreases m,
{
    if n < m {
        lemma_writer_stays(states, operations, n, (m - 1) as nat);
        law_turn_never_comes_back(states, operations, (m - 1) as nat, m);
        assert(operates(states[m - 1], operations[m - 1], states[m - 1 + 1]));
        if states[m - 1].mode is Write && operations[m - 1] is Process {
            laws::law_write_lock_blocks_everybody(states[m - 1], states[m as int]);
        }
    }
}

/// Each turn has one writer: of two who are let in to write in a run, the later one has a later
/// turn.
pub proof fn law_one_writer_in_a_turn<T>(
    states: Seq<LockView<T>>,
    operations: Seq<Operation<T>>,
    i: int,
    j: int,
)
    requires
        is_run(states, operations),
        0 <= i < j < operations.len(),
        lets_writer_in(states, operations, i),
        lets_writer_in(states, operations, j),
    ensures
        states[j + 1].turn > states[i + 1].turn,
{
    lemma_writer_let_in(states, operations, i);
    lemma_writer_let_in(states, operations, j);
    lemma_writer_stays(states, operations, (i + 1) as nat, j as nat);
    law_turn_never_comes_back(states, operations, j as nat, (j + 1) as nat);
}

/// Mutual exclusion of guards: the guards of two who are let in to write in a run never fit the
/// lock at the same time.
pub proof fn law_write_guards_never_meet<L, T>(
    states: Seq<LockView<T>>,
    operations: Seq<Operation<T>>,
    i: int,
    j: int,
    first: WriteGuard<L>,
    second: WriteGuard<L>,
    lock: LockView<T>,
)
    requires
        is_run(states, operations),
        0 <= i < j < operations.len(),
        lets_writer_in(states, operations, i),
        lets_writer_in(states, operations, j),
        first.stamp() == states[i + 1].stamp(),
        second.stamp() == states[j + 1].stamp(),
    ensures
        !(first.fits(lock) && second.fits(lock)),
{
    law_one_writer_in_a_turn(states, operations, i, j);
}

/// Readers hold the lock until their turn ends, and the value stays while they do.
proof fn lemma_readers_stay<T>(
    states: Seq<LockView<T>>,
    operations: Seq<Operation<T>>,
    n: nat,
    m: nat,
)
    requires
        is_run(states, operations),
        n <= m <= operations.len(),
        states[n as int].mode is Read,
    ensures
        states[m as int].turn >= states[n as int].turn,
        states[m as int].turn == states[n as int].turn ==> states[m as int].mode is Read
            && states[m as int].value == states[n as int].value,
    decreases m,
{
    if n < m {
        let before = states[m - 1];
        let after = states[m as int];
        lemma_readers_stay(states, operations, n, (m - 1) as nat);
        law_turn_never_comes_back(states, operations, (m - 1) as nat, m);
        law_mutual_exclusion(states, operations, (m - 1) as nat);
        assert(operates(states[m - 1], operations[m - 1], states[m - 1 + 1]));
        let start = called(before, operations[m - 1]);
        if processes(operations[m - 1]) && start.mode is Read {
            laws::law_read_lock_admits_readers_only(start, after);
        }
    }
}

/// A reader sees one value: whenever a guard to read fits the lock in a run, the value is the
/// same.
pub proof fn law_read_guard_sees_one_value<L, T>(
    states: Seq<LockView<T>>,
    operations: Seq<Operation<T>>,
    n: nat,
    m: nat,
    guard: ReadGuard<L>,
)
    requires
        is_run(states, operations),
        n <= m <= operations.len(),
        guard.fits(states[n as int]),
        guard.fits(states[m as int]),
    ensures
        states[m as int].value == states[n as int].value,
{
    lemma_readers_stay(states, operations, n, m);
}

/// The value stays while there are readers.
pub proof fn law_value_stays_while_read<T>(
    states: Seq<LockView<T>>,
    operations: Seq<Operation<T>>,
    n: nat,
    m: nat,
)
    requires
        is_run(states, operations),
        n <= m <= operations.len(),
        forall|i: int| n <= i < m ==> (#[trigger] states[i]).mode is Read,
    ensures
        states[m as int].value == states[n as int].value,
    decreases m,
{
    if n < m {
        law_value_stays_while_read(states, operations, n, (m - 1) as nat);
        assert(states[m - 1].mode is Read);
        assert(operates(states[m - 1], operations[m - 1], states[m - 1 + 1]));
    }
}

/// An operation on a qutex, as its owner calls for it.
pub enum QutexOperation<T> {
    /// A request is enqueued.
    Request(Request),
    /// The queue is processed.
    Process,
    /// The holder unlocks the qutex.
    Unlock,
    /// One who waits withdraws.
    Withdraw(Receiver<()>),
    /// The holder changes the value.
    Assign(T),
    /// Somebody changes the value while nobody holds the qutex.
    Replace(T),
}

/// Whether `operation` can be called for in `before` and makes `after` of it.
pub open spec fn qutex_operates<T>(
    before: QutexView<T>,
    operation: QutexOperation<T>,
    after: QutexView<T>,
) -> bool {
    match operation {
        QutexOperation::Request(request) => after == before.requested(request),
        QutexOperation::Process => before.processed(after),
        QutexOperation::Unlock => before.locked && before.unlocked().processed(after),
        QutexOperation::Withdraw(rx) => after == before.withdrawn(rx),
        QutexOperation::Assign(value) => before.locked && after == (QutexView { value, ..before }),
        QutexOperation::Replace(value) => !before.locked && after == (QutexView {
            value,
            ..before
        }),
    }
}

/// Whether `states` is what `operations` make of a new qutex, one after the other.
pub open spec fn is_qutex_run<T>(
    states: Seq<QutexView<T>>,
    operations: Seq<QutexOperation<T>>,
) -> bool {
    &&& states.len() == operations.len() + 1
    &&& !states[0].locked
    &&& states[0].pending.len() == 0
    &&& states[0].notices.len() == 0
    &&& states[0].gone == Set::<Sender<()>>::empty()
    &&& forall|i: int|
        0 <= i < operations.len() ==> qutex_operates(
            states[i],
            #[trigger] operations[i],
            states[i + 1],
        )
}

/// How many have been let in by the first `n` operations of a run and have not left.
pub open spec fn qutex_census<T>(
    states: Seq<QutexView<T>>,
    operations: Seq<QutexOperation<T>>,
    n: nat,
) -> int
    decreases n,
{
    if n == 0 {
        0
    } else {
        let before = qutex_census(states, operations, (n - 1) as nat);
        let left: int = if operations[n - 1] is Unlock {
            1
        } else {
            0
        };
        before - left + serving::deliveries(states[n - 1].sent_until(states[n as int]))
    }
}

/// Mutual exclusion: at no time of a run is there more than one among those who have been let in
/// and have not left, and the qutex is locked just while there is one.
pub proof fn law_qutex_mutual_exclusion<T>(
    states: Seq<QutexView<T>>,
    operations: Seq<QutexOperation<T>>,
    n: nat,
)
    requires
        is_qutex_run(states, operations),
        n <= operations.len(),
    ensures
        qutex_census(states, operations, n) == (if states[n as int].locked {
            1int
        } else {
            0
        }),
    decreases n,
{
    if n > 0 {
        let before = states[n - 1];
        let after = states[n as int];
        law_qutex_mutual_exclusion(states, operations, (n - 1) as nat);
        assert(qutex_operates(states[n - 1], operations[n - 1], states[n - 1 + 1]));
        match operations[n - 1] {
            QutexOperation::Process => {
                laws::law_qutex_has_one_holder(before, after);
                if before.locked {
                    assert(before.sent_until(after) =~= Seq::empty());
                }
            },
            QutexOperation::Unlock => {
                laws::law_qutex_has_one_holder(before.unlocked(), after);
                assert(before.sent_until(after) == before.unlocked().sent_until(after));
            },
            _ => {
                assert(before.sent_until(after) =~= Seq::empty());
            },
        }
    }
}

/// The requests that were made in the first `n` operations of a run.
pub open spec fn qutex_requests_made<T>(
    operations: Seq<QutexOperation<T>>,
    n: nat,
) -> Seq<QrwRequest>
    decreases n,
{
    if n == 0 {
        Seq::empty()
    } else {
        let before = qutex_requests_made(operations, (n - 1) as nat);
        match operations[n - 1] {
            QutexOperation::Request(request) => before.push(request.as_write()),
            _ => before,
        }
    }
}

/// Nobody is overtaken or forgotten: at every time of a run, the requests that were answered, in
/// the order of their answers, followed by those that wait, are the requests in the order in
/// which they were made.
pub proof fn law_qutex_overtakes_nobody<T>(
    states: Seq<QutexView<T>>,
    operations: Seq<QutexOperation<T>>,
    n: nat,
)
    requires
        is_qutex_run(states, operations),
        n <= operations.len(),
    ensures
        qutex_requests_made(operations, n) == serving::requests_of(states[n as int].notices)
            + states[n as int].pending,
    decreases n,
{
    if n == 0 {
        assert(serving::requests_of(states[0].notices) + states[0].pending =~= Seq::empty());
    } else {
        let before = states[n - 1];
        let after = states[n as int];
        law_qutex_overtakes_nobody(states, operations, (n - 1) as nat);
        assert(qutex_operates(states[n - 1], operations[n - 1], states[n - 1 + 1]));
        match operations[n - 1] {
            QutexOperation::Process => {
                laws::law_qutex_first_come_first_served(before, after);
            },
            QutexOperation::Unlock => {
                laws::law_qutex_first_come_first_served(before.unlocked(), after);
            },
            _ => {},
        }
        assert(serving::requests_of(after.notices) =~= serving::requests_of(before.notices)
            + serving::requests_of(before.sent_until(after)));
        assert(qutex_requests_made(operations, n) =~= serving::requests_of(after.notices)
            + after.pending);
    }
}

/// Whether an operation changes the value of a qutex.
pub open spec fn qutex_changes_value<T>(operation: QutexOperation<T>) -> bool {
    match operation {
        QutexOperation::Assign(_) | QutexOperation::Replace(_) => true,
        _ => false,
    }
}

/// The value stays as it is as long as nobody changes it, whatever else is done with the qutex.
pub proof fn law_qutex_value_stays<T>(
    states: Seq<QutexView<T>>,
    operations: Seq<QutexOperation<T>>,
    n: nat,
    m: nat,
)
    requires
        is_qutex_run(states, operations),
        n <= m <= operations.len(),
        forall|i: int| n <= i < m ==> !qutex_changes_value(#[trigger] operations[i]),
    ensures
        states[m as int].value == states[n as int].value,
    decreases m,
{
    if n < m {
        law_qutex_value_stays(states, operations, n, (m - 1) as nat);
        assert(qutex_operates(states[m - 1], operations[m - 1], states[m - 1 + 1]));
    }
}

/// A read gives back the last write: from when the value was changed until it is changed again,
/// whoever holds the qutex finds the value that was written.
pub proof fn law_qutex_read_gives_back_write<T>(
    states: Seq<QutexView<T>>,
    operations: Seq<QutexOperation<T>>,
    written: T,
    n: nat,
    m: nat,
)
    requires
        is_qutex_run(states, operations),
        n < m <= operations.len(),
        operations[n as int] == QutexOperation::Assign(written) || operations[n as int]
            == QutexOperation::Replace(written),
        forall|i: int| n < i < m ==> !qutex_changes_value(#[trigger] operations[i]),
    ensures
        states[m as int].value == written,
{
    assert(qutex_operates(states[n as int], operations[n as int], states[n as int + 1]));
    law_qutex_value_stays(states, operations, (n + 1) as nat, m);
}

/// One who waits goes on waiting or is told, however the run goes on.
proof fn lemma_qutex_waiter_accounted_for<T>(
    states: Seq<QutexView<T>>,
    operations: Seq<QutexOperation<T>>,
    tx: Sender<()>,
    n: nat,
    m: nat,
)
    requires
        is_qutex_run(states, operations),
        n <= m <= operations.len(),
        channel::waits(states[n as int].pending, tx),
    ensures
        accounted_for(states[m as int].pending, states[m as int].notices, tx),
    decreases m,
{
    if n < m {
        let before = states[m - 1];
        let after = states[m as int];
        lemma_qutex_waiter_accounted_for(states, operations, tx, n, (m - 1) as nat);
        assert(qutex_operates(states[m - 1], operations[m - 1], states[m - 1 + 1]));
        match operations[m - 1] {
            QutexOperation::Process => {
                laws::law_qutex_forgets_nobody(before, after, tx);
            },
            QutexOperation::Unlock => {
                laws::law_qutex_forgets_nobody(before.unlocked(), after, tx);
            },
            QutexOperation::Request(request) => {
                if channel::waits(before.pending, tx) {
                    lemma_waits_on(before.pending, request.as_write(), tx);
                }
            },
            _ => {},
        }
    }
}

/// A waiter who is still there gets the qutex in their turn: one who waited at some time of a
/// run, and has neither withdrawn nor lent the channel to somebody, sees at any later time that
/// the grant may still come if the request waits, and sees the grant otherwise.
pub proof fn law_qutex_waiter_is_granted<T>(
    states: Seq<QutexView<T>>,
    operations: Seq<QutexOperation<T>>,
    n: nat,
    m: nat,
    rx: Receiver<()>,
    receipts: Seq<Receipt>,
    received: Result<Option<()>, RequestCanceled>,
)
    requires
        is_qutex_run(states, operations),
        n <= m <= operations.len(),
        channel::waits(states[n as int].pending, channel::sender_of(rx)),
        !channel::lent(receipts),
        !channel::closed(receipts),
        !channel::redeemed(receipts),
        channel::sees(
            rx,
            receipts,
            states[m as int].notices,
            states[m as int].pending,
            received,
        ),
    ensures
        received == channel::due(
            channel::waits(states[m as int].pending, channel::sender_of(rx)),
        ),
{
    lemma_qutex_waiter_accounted_for(states, operations, channel::sender_of(rx), n, m);
    laws::lemma_unit(received);
}

/// A waiter who withdrew is never granted the qutex: from then on to the end of a run, nothing is
/// delivered to them.
pub proof fn law_qutex_withdrawn_is_never_granted<T>(
    states: Seq<QutexView<T>>,
    operations: Seq<QutexOperation<T>>,
    rx: Receiver<()>,
    n: nat,
    m: nat,
)
    requires
        is_qutex_run(states, operations),
        n < m <= operations.len(),
        operations[n as int] == QutexOperation::<T>::Withdraw(rx),
    ensures
        states[m as int].gone.contains(channel::sender_of(rx)),
        channel::told(states[m as int].notices, channel::sender_of(rx), true) ==> channel::told(
            states[n as int].notices,
            channel::sender_of(rx),
            true,
        ),
    decreases m,
{
    let tx = channel::sender_of(rx);
    let before = states[m - 1];
    let after = states[m as int];
    assert(qutex_operates(states[m - 1], operations[m - 1], states[m - 1 + 1]));
    if n < m - 1 {
        law_qutex_withdrawn_is_never_granted(states, operations, rx, n, (m - 1) as nat);
        match operations[m - 1] {
            QutexOperation::Process => {
                laws::law_qutex_passes_over_withdrawn_waiter(before, after, tx);
            },
            QutexOperation::Unlock => {
                laws::law_qutex_passes_over_withdrawn_waiter(before.unlocked(), after, tx);
            },
            _ => {},
        }
    }
}

/// A turn that has ended does not come back, so that no guard of it fits the qutex again.
pub proof fn law_qutex_turn_never_comes_back<T>(
    states: Seq<QutexView<T>>,
    operations: Seq<QutexOperation<T>>,
    n: nat,
    m: nat,
)
    requires
        is_qutex_run(states, operations),
        n < m <= operations.len(),
    ensures
        states[m as int].id == states[n as int].id,
        states[m as int].turn >= states[n as int].turn,
        operations[n as int] is Unlock ==> states[m as int].turn > states[n as int].turn,
    decreases m,
{
    if n + 1 < m {
        law_qutex_turn_never_comes_back(states, operations, n, (m - 1) as nat);
    }
    assert(qutex_operates(states[m - 1], operations[m - 1], states[m - 1 + 1]));
}

/// Whether the operation at `i` of a run lets somebody in.
pub open spec fn lets_holder_in<T>(states: Seq<QutexView<T>>, i: int) -> bool {
    serving::deliveries(states[i].sent_until(states[i + 1])) > 0
}

/// Somebody holds the qutex from when they are let in until their turn ends.
proof fn lemma_holder_stays<T>(
    states: Seq<QutexView<T>>,
    operations: Seq<QutexOperation<T>>,
    n: nat,
    m: nat,
)
    requires
        is_qutex_run(states, operations),
        n <= m <= operations.len(),
        states[n as int].locked,
    ensures
        states[m as int].turn >= states[n as int].turn,
        states[m as int].turn == states[n as int].turn ==> states[m as int].locked,
    decreases m,
{
    if n < m {
        lemma_holder_stays(states, operations, n, (m - 1) as nat);
        law_qutex_turn_never_comes_back(states, operations, (m - 1) as nat, m);
        assert(qutex_operates(states[m - 1], operations[m - 1], states[m - 1 + 1]));
        if operations[m - 1] is Process {
            laws::law_qutex_has_one_holder(states[m - 1], states[m as int]);
        }
    }
}

/// One who is let in holds the qutex in the turn in which they are let in.
proof fn lemma_holder_let_in<T>(
    states: Seq<QutexView<T>>,
    operations: Seq<QutexOperation<T>>,
    i: int,
)
    requires
        is_qutex_run(states, operations),
        0 <= i < operations.len(),
        lets_holder_in(states, i),
    ensures
        states[i + 1].locked,
        states[i].locked ==> states[i + 1].turn > states[i].turn,
{
    let before = states[i];
    let after = states[i + 1];
    assert(qutex_operates(states[i], operations[i], states[i + 1]));
    match operations[i] {
        QutexOperation::Process => {
            laws::law_qutex_has_one_holder(before, after);
            if before.locked {
                assert(before.sent_until(after) =~= Seq::empty());
            }
        },
        QutexOperation::Unlock => {
            laws::law_qutex_has_one_holder(before.unlocked(), after);
            assert(before.sent_until(after) == before.unlocked().sent_until(after));
        },
        _ => {
            assert(before.sent_until(after) =~= Seq::empty());
        },
    }
}

/// Mutual exclusion of guards: the guards of two who are let in in a run never fit the qutex at
/// the same time.
pub proof fn law_qutex_guards_never_meet<L, T>(
    states: Seq<QutexView<T>>,
    operations: Seq<QutexOperation<T>>,
    i: int,
    j: int,
    first: Guard<L>,
    second: Guard<L>,
    qutex: QutexView<T>,
)
    requires
        is_qutex_run(states, operations),
        0 <= i < j < operations.len(),
        lets_holder_in(states, i),
        lets_holder_in(states, j),
        first.stamp() == states[i + 1].stamp(),
        second.stamp() == states[j + 1].stamp(),
    ensures
        states[j + 1].turn > states[i + 1].turn,
        !(first.fits(qutex) && second.fits(qutex)),
{
    lemma_holder_let_in(states, operations, i);
    lemma_holder_let_in(states, operations, j);
    lemma_holder_stays(states, operations, (i + 1) as nat, j as nat);
    law_qutex_turn_never_comes_back(states, operations, j as nat, (j + 1) as nat);
}

/// A request waits behind all those that wait for a qutex already, and changes nothing else.
pub proof fn law_qutex_request_waits_behind_all<T>(
    before: QutexView<T>,
    request: Request,
    after: QutexView<T>,
)
    requires
        qutex_operates(before, QutexOperation::Request(request), after),
    ensures
        after.pending.len() == before.pending.len() + 1,
        after.pending.drop_last() == before.pending,
        after.pending.last().tx == request.tx,
        after.pending.last().kind == RequestKind::Write,
        after.locked == before.locked,
        after.notices == before.notices,
        after.gone == before.gone,
        after.value == before.value,
        after.id == before.id,
{
    assert(after.pending.drop_last() =~= before.pending);
}

/// A withdrawal is known of the one who withdraws and of nobody else, and changes nothing else of
/// a qutex.
pub proof fn law_qutex_withdrawal_is_of_one<T>(
    before: QutexView<T>,
    rx: Receiver<()>,
    after: QutexView<T>,
    tx: Sender<()>,
)
    requires
        qutex_operates(before, QutexOperation::Withdraw(rx), after),
    ensures
        after.gone.contains(tx) <==> before.gone.contains(tx) || tx == channel::sender_of(rx),
        after.locked == before.locked,
        after.pending == before.pending,
        after.notices == before.notices,
        after.value == before.value,
        after.id == before.id,
{
}

/// An unlock leaves a qutex that nobody holds, and the queue is processed.
pub proof fn law_unlock_frees_qutex<T>(before: QutexView<T>, after: QutexView<T>)
    requires
        qutex_operates(before, QutexOperation::Unlock, after),
    ensures
        before.locked,
        (QutexView { locked: false, turn: after.turn, ..before }).processed(after),
{
}

} // verus!
