//! What the locks promise of every run of their operations.

use crate::channel::{self, Notice, Receipt, RequestCanceled};
use crate::contention::{CONTENDED, READ_COUNT_MASK, WRITE_LOCKED};
use crate::qrw_guard::{ReadGuard, WriteGuard};
use crate::qrw_lock::LockView;
use crate::qutex::QutexView;
use crate::request::{QrwRequest, Request, RequestKind};
use crate::serving::{self, Mode};
use futures::sync::oneshot::{Receiver, Sender};
use vstd::prelude::*;

verus! {

/// The deliveries of two batches of notices add up.
proof fn lemma_deliveries_add(first: Seq<Notice>, rest: Seq<Notice>)
    ensures
        serving::deliveries(first + rest) == serving::deliveries(first) + serving::deliveries(
            rest,
        ),
    decreases rest.len(),
{
    if rest.len() == 0 {
        assert(first + rest =~= first);
    } else {
        assert((first + rest).drop_last() =~= first + rest.drop_last());
        lemma_deliveries_add(first, rest.drop_last());
    }
}

/// The notices that processing sends are those to upgrades and then those to requests.
proof fn lemma_sent_parts<T>(before: LockView<T>, after: LockView<T>)
    requires
        before.processed(after),
    ensures
        before.sent_until(after) == before.upgrades_answered(after) + before.requests_answered(
            after,
        ),
        before.upgrades_answered(after).len() == before.upgrades.len() - after.upgrades.len(),
        before.requests_answered(after).len() == before.pending.len() - after.pending.len(),
        after.notices == before.notices + before.sent_until(after),
{
    assert(before.sent_until(after) =~= before.upgrades_answered(after)
        + before.requests_answered(after));
    assert(after.notices =~= before.notices + before.sent_until(after));
}

/// Processing keeps what holds of every lock.
pub proof fn law_processing_keeps_lock_valid<T>(before: LockView<T>, after: LockView<T>)
    requires
        before.wf(),
        before.processed(after),
    ensures
        after.wf(),
{
    let first = before.upgrades_answered(after);
    let rest = before.requests_answered(after);
    serving::lemma_holders_counted(before.mode, before.upgrades, first);
    serving::lemma_holders_counted(
        serving::mode_after(before.mode, first),
        before.pending,
        rest,
    );
}

/// Those who hold the lock are those who held it and those whose grant was delivered. One who is
/// gone when the grant is sent never holds the lock.
pub proof fn law_every_delivery_makes_a_holder<T>(before: LockView<T>, after: LockView<T>)
    requires
        before.wf(),
        before.processed(after),
    ensures
        serving::holders(after.mode) == serving::holders(before.mode) + serving::deliveries(
            before.sent_until(after),
        ),
{
    let first = before.upgrades_answered(after);
    let rest = before.requests_answered(after);
    lemma_sent_parts(before, after);
    lemma_deliveries_add(first, rest);
    serving::lemma_holders_counted(before.mode, before.upgrades, first);
    serving::lemma_holders_counted(
        serving::mode_after(before.mode, first),
        before.pending,
        rest,
    );
}

/// A writer is alone: write access is granted only while nobody holds the lock, and nothing is
/// granted beside it.
pub proof fn law_writer_is_alone<T>(before: LockView<T>, after: LockView<T>, i: int)
    requires
        before.wf(),
        before.processed(after),
        0 <= i < before.sent_until(after).len(),
        before.sent_until(after)[i].delivered,
        before.sent_until(after)[i].request.kind == RequestKind::Write,
    ensures
        before.mode is Unlocked,
        after.mode is Write,
        serving::deliveries(before.sent_until(after)) == 1,
{
    let first = before.upgrades_answered(after);
    let rest = before.requests_answered(after);
    let upgraded = serving::mode_after(before.mode, first);
    lemma_sent_parts(before, after);
    law_every_delivery_makes_a_holder(before, after);
    serving::lemma_holders_counted(before.mode, before.upgrades, first);
    if i < first.len() {
        assert(first[i] == before.sent_until(after)[i]);
        serving::lemma_writer_alone(before.mode, before.upgrades, first, i);
        serving::lemma_served_again(upgraded, before.pending, rest, after.pending);
    } else {
        let j = i - first.len();
        assert(rest[j] == before.sent_until(after)[i]);
        serving::lemma_writer_alone(upgraded, before.pending, rest, j);
    }
}

/// While a writer holds the lock, processing changes nothing.
pub proof fn law_write_lock_blocks_everybody<T>(before: LockView<T>, after: LockView<T>)
    requires
        before.mode is Write,
        before.processed(after),
    ensures
        after == before,
{
    let first = before.upgrades_answered(after);
    let rest = before.requests_answered(after);
    serving::lemma_served_again(before.mode, before.upgrades, first, after.upgrades);
    serving::lemma_served_again(before.mode, before.pending, rest, after.pending);
    lemma_sent_parts(before, after);
    assert(after.notices =~= before.notices);
}

/// While readers hold the lock, only readers join them, and upgrades go on waiting.
pub proof fn law_read_lock_admits_readers_only<T>(before: LockView<T>, after: LockView<T>)
    requires
        before.wf(),
        before.mode is Read,
        before.processed(after),
    ensures
        after.mode is Read,
        after.upgrades == before.upgrades,
        forall|i: int|
            0 <= i < before.sent_until(after).len() ==> (#[trigger] before.sent_until(
                after,
            )[i]).request.kind == RequestKind::Read,
{
    let first = before.upgrades_answered(after);
    let rest = before.requests_answered(after);
    let sent = before.sent_until(after);
    serving::lemma_served_again(before.mode, before.upgrades, first, after.upgrades);
    lemma_sent_parts(before, after);
    assert(sent =~= rest);
    law_every_delivery_makes_a_holder(before, after);
    assert forall|i: int| 0 <= i < sent.len() implies (#[trigger] sent[i]).request.kind
        == RequestKind::Read by {
        lemma_readers_before(before.mode, before.pending, rest, i);
    }
    lemma_readers_stay(before.mode, before.pending, rest);
}

/// While readers hold the lock, what is answered next is a read request.
proof fn lemma_readers_before(
    mode: Mode,
    queue: Seq<QrwRequest>,
    sent: Seq<Notice>,
    i: int,
)
    requires
        mode is Read,
        serving::answers(mode, queue, sent),
        0 <= i < sent.len(),
    ensures
        sent[i].request.kind == RequestKind::Read,
        serving::mode_after(mode, sent.take(i)) is Read,
    decreases i,
{
    assert(serving::answers_at(mode, queue, sent, i));
    if i == 0 {
        assert(sent.take(0) =~= Seq::empty());
    } else {
        lemma_readers_before(mode, queue, sent, i - 1);
        assert(sent.take(i).drop_last() =~= sent.take(i - 1));
    }
}

/// Readers keep the lock through the answers to other requests.
proof fn lemma_readers_stay(mode: Mode, queue: Seq<QrwRequest>, sent: Seq<Notice>)
    requires
        mode is Read,
        serving::answers(mode, queue, sent),
    ensures
        serving::mode_after(mode, sent) is Read,
{
    if sent.len() > 0 {
        let last = sent.len() - 1;
        lemma_readers_before(mode, queue, sent, last);
        assert(sent.drop_last() =~= sent.take(last));
    }
}

/// First come, first served: requests are answered in the order in which they wait, and those
/// that are left wait on in that order. So do upgrades.
pub proof fn law_first_come_first_served<T>(before: LockView<T>, after: LockView<T>)
    requires
        before.processed(after),
    ensures
        before.sent_until(after).len() == (before.upgrades.len() - after.upgrades.len()) + (
        before.pending.len() - after.pending.len()),
        after.notices == before.notices + before.sent_until(after),
        before.sent_until(after) == before.upgrades_answered(after) + before.requests_answered(
            after,
        ),
        before.upgrades == serving::requests_of(before.upgrades_answered(after)) + after.upgrades,
        before.pending == serving::requests_of(before.requests_answered(after)) + after.pending,
{
    let first = before.upgrades_answered(after);
    let rest = before.requests_answered(after);
    let upgraded = serving::mode_after(before.mode, first);
    lemma_sent_parts(before, after);
    lemma_answered_in_order(before.mode, before.upgrades, first, after.upgrades);
    lemma_answered_in_order(upgraded, before.pending, rest, after.pending);
}

/// The requests that were answered and those that are left make up the queue.
pub(crate) proof fn lemma_answered_in_order(
    mode: Mode,
    queue: Seq<QrwRequest>,
    sent: Seq<Notice>,
    left: Seq<QrwRequest>,
)
    requires
        serving::served(mode, queue, sent, left),
    ensures
        queue == serving::requests_of(sent) + left,
{
    let requests = serving::requests_of(sent) + left;
    assert forall|i: int| 0 <= i < queue.len() implies queue[i] == requests[i] by {
        if i < sent.len() {
            assert(serving::answers_at(mode, queue, sent, i));
        }
    }
    assert(queue =~= requests);
}

/// One of a queue that was served is left in it or was told.
proof fn lemma_left_or_told(
    mode: Mode,
    queue: Seq<QrwRequest>,
    sent: Seq<Notice>,
    left: Seq<QrwRequest>,
    tx: Sender<()>,
)
    requires
        serving::served(mode, queue, sent, left),
        channel::waits(queue, tx),
    ensures
        channel::waits(left, tx) || channel::told(sent, tx, true) || channel::told(
            sent,
            tx,
            false,
        ),
{
    let i = choose|i: int| 0 <= i < queue.len() && (#[trigger] queue[i]).tx == tx;
    if i < sent.len() {
        assert(serving::answers_at(mode, queue, sent, i));
        assert(channel::told(sent, tx, sent[i].delivered));
    } else {
        assert(left[i - sent.len()].tx == tx);
    }
}

/// What was told stays told when more is told.
proof fn lemma_told_among(
    before: Seq<Notice>,
    part: Seq<Notice>,
    after: Seq<Notice>,
    tx: Sender<()>,
    delivered: bool,
)
    requires
        channel::told(part, tx, delivered),
    ensures
        channel::told(before + part + after, tx, delivered),
{
    let all = before + part + after;
    let i = choose|i: int|
        0 <= i < part.len() && (#[trigger] part[i]).request.tx == tx && part[i].delivered
            == delivered;
    assert(all[before.len() + i] == part[i]);
}

/// Nobody is forgotten: one who waits goes on waiting or is told, and whoever was told has been
/// told for good. Together with what a look shows, this is what a future comes to: it waits while
/// its request waits, resolves if its grant was delivered, and fails otherwise.
pub proof fn law_nobody_is_forgotten<T>(before: LockView<T>, after: LockView<T>, tx: Sender<()>)
    requires
        before.processed(after),
    ensures
        channel::waits(before.pending, tx) ==> channel::waits(after.pending, tx) || channel::told(
            after.notices,
            tx,
            true,
        ) || channel::told(after.notices, tx, false),
        channel::waits(before.upgrades, tx) ==> channel::waits(after.upgrades, tx)
            || channel::told(after.notices, tx, true) || channel::told(after.notices, tx, false),
        channel::told(before.notices, tx, true) ==> channel::told(after.notices, tx, true),
        channel::told(before.notices, tx, false) ==> channel::told(after.notices, tx, false),
{
    let first = before.upgrades_answered(after);
    let rest = before.requests_answered(after);
    let upgraded = serving::mode_after(before.mode, first);
    let none = Seq::<Notice>::empty();
    lemma_sent_parts(before, after);
    assert(after.notices =~= before.notices + first + rest);
    assert(after.notices =~= (before.notices + first) + rest + none);
    assert(after.notices =~= none + before.notices + before.sent_until(after));
    if channel::waits(before.upgrades, tx) {
        lemma_left_or_told(before.mode, before.upgrades, first, after.upgrades, tx);
    }
    if channel::waits(before.pending, tx) {
        lemma_left_or_told(upgraded, before.pending, rest, after.pending, tx);
    }
    assert forall|delivered: bool| #[trigger] channel::told(first, tx, delivered) implies
        channel::told(after.notices, tx, delivered) by {
        lemma_told_among(before.notices, first, rest, tx, delivered);
    }
    assert forall|delivered: bool| #[trigger] channel::told(rest, tx, delivered) implies
        channel::told(after.notices, tx, delivered) by {
        lemma_told_among(before.notices + first, rest, none, tx, delivered);
    }
    assert forall|delivered: bool| #[trigger] channel::told(before.notices, tx, delivered) implies
        channel::told(after.notices, tx, delivered) by {
        lemma_told_among(none, before.notices, before.sent_until(after), tx, delivered);
    }
}

/// A waiter who is still there gets the lock: one who waits for a request to be granted, and has
/// neither withdrawn nor lent the channel to somebody, sees after processing that the grant may
/// still come if the request goes on waiting, and sees the grant otherwise.
pub proof fn law_waiter_gets_the_lock<T>(
    before: LockView<T>,
    after: LockView<T>,
    rx: Receiver<()>,
    receipts: Seq<Receipt>,
    received: Result<Option<()>, RequestCanceled>,
)
    requires
        before.processed(after),
        channel::waits(before.pending, channel::sender_of(rx)),
        !channel::lent(receipts),
        !channel::closed(receipts),
        !channel::redeemed(receipts),
        channel::sees(rx, receipts, after.notices, after.pending, received),
    ensures
        received == channel::due(channel::waits(after.pending, channel::sender_of(rx))),
{
    law_nobody_is_forgotten(before, after, channel::sender_of(rx));
    lemma_unit(received);
}

/// A waiter who is still there gets the upgrade: one who waits for an upgrade, and has neither
/// withdrawn nor lent the channel to somebody, sees after processing that the grant may still
/// come if the upgrade goes on waiting, and sees the grant otherwise.
pub proof fn law_waiter_gets_the_upgrade<T>(
    before: LockView<T>,
    after: LockView<T>,
    rx: Receiver<()>,
    receipts: Seq<Receipt>,
    received: Result<Option<()>, RequestCanceled>,
)
    requires
        before.processed(after),
        channel::waits(before.upgrades, channel::sender_of(rx)),
        !channel::lent(receipts),
        !channel::closed(receipts),
        !channel::redeemed(receipts),
        channel::sees(rx, receipts, after.notices, after.upgrades, received),
    ensures
        received == channel::due(channel::waits(after.upgrades, channel::sender_of(rx))),
{
    law_nobody_is_forgotten(before, after, channel::sender_of(rx));
    lemma_unit(received);
}

/// The first who waits for a lock that nobody holds gets it if they are still there and nobody
/// waits for an upgrade.
pub proof fn law_first_waiter_gets_a_free_lock<T>(
    before: LockView<T>,
    after: LockView<T>,
    rx: Receiver<()>,
    receipts: Seq<Receipt>,
    received: Result<Option<()>, RequestCanceled>,
)
    requires
        before.mode is Unlocked,
        before.upgrades.len() == 0,
        before.pending.len() > 0,
        before.pending[0].tx == channel::sender_of(rx),
        before.processed(after),
        !channel::lent(receipts),
        !channel::closed(receipts),
        !channel::redeemed(receipts),
        channel::sees(rx, receipts, after.notices, after.pending, received),
    ensures
        received == channel::due(false),
        before.pending[0].kind == RequestKind::Read ==> after.mode is Read,
        before.pending[0].kind == RequestKind::Write ==> after.mode is Write,
{
    let tx = channel::sender_of(rx);
    let rest = before.requests_answered(after);
    lemma_sent_parts(before, after);
    assert(before.upgrades_answered(after) =~= Seq::empty());
    if rest.len() == 0 {
        assert(after.pending =~= before.pending);
    }
    assert(serving::answers_at(before.mode, before.pending, rest, 0));
    let first = after.notices[before.notices.len() as int];
    assert(first == rest[0]);
    assert(channel::told(after.notices, tx, first.delivered));
    lemma_unit(received);
    lemma_first_grant(before.pending, rest);
}

/// The first who waits for an upgrade of a lock that nobody holds gets it if they are still there.
pub proof fn law_first_waiter_gets_a_free_upgrade<T>(
    before: LockView<T>,
    after: LockView<T>,
    rx: Receiver<()>,
    receipts: Seq<Receipt>,
    received: Result<Option<()>, RequestCanceled>,
)
    requires
        before.wf(),
        before.mode is Unlocked,
        before.upgrades.len() > 0,
        before.upgrades[0].tx == channel::sender_of(rx),
        before.processed(after),
        !channel::lent(receipts),
        !channel::closed(receipts),
        !channel::redeemed(receipts),
        channel::sees(rx, receipts, after.notices, after.upgrades, received),
    ensures
        received == channel::due(false),
        after.mode is Write,
        after.pending == before.pending,
{
    let tx = channel::sender_of(rx);
    let answered = before.upgrades_answered(after);
    lemma_sent_parts(before, after);
    if answered.len() == 0 {
        assert(after.upgrades =~= before.upgrades);
    }
    assert(serving::answers_at(before.mode, before.upgrades, answered, 0));
    let first = after.notices[before.notices.len() as int];
    assert(first == answered[0]);
    assert(channel::told(after.notices, tx, first.delivered));
    lemma_unit(received);
    lemma_first_grant(before.upgrades, answered);
    serving::lemma_served_again(
        Mode::Write,
        before.pending,
        before.requests_answered(after),
        after.pending,
    );
}

/// A grant to the first in a queue for an unlocked lock decides how the lock is locked.
proof fn lemma_first_grant(queue: Seq<QrwRequest>, sent: Seq<Notice>)
    requires
        serving::answers(Mode::Unlocked, queue, sent),
        sent.len() > 0,
        sent[0].delivered,
    ensures
        queue[0].kind == RequestKind::Read ==> serving::mode_after(Mode::Unlocked, sent) is Read,
        queue[0].kind == RequestKind::Write ==> serving::mode_after(Mode::Unlocked, sent) is Write,
{
    assert(serving::answers_at(Mode::Unlocked, queue, sent, 0));
    if queue[0].kind == RequestKind::Write {
        serving::lemma_writer_alone(Mode::Unlocked, queue, sent, 0);
    } else {
        lemma_grants_counted(Mode::Unlocked, queue, sent);
        lemma_grant_counts(sent, 0);
    }
}

/// A grant counts.
proof fn lemma_grant_counts(sent: Seq<Notice>, i: int)
    requires
        0 <= i < sent.len(),
        sent[i].delivered,
    ensures
        serving::grants(sent, sent[i].request.kind) > 0,
    decreases sent.len(),
{
    if i < sent.len() - 1 {
        lemma_grant_counts(sent.drop_last(), i);
    }
}

/// A waiter who withdraws gives back what was granted: one who waited for a request to be
/// granted, and has neither withdrawn before nor lent the channel to somebody, finds the grant
/// when withdrawing just if the request waits no more.
pub proof fn law_withdrawing_gives_the_lock_back<T>(
    before: LockView<T>,
    after: LockView<T>,
    rx: Receiver<()>,
    receipts: Seq<Receipt>,
    received: Result<Option<()>, RequestCanceled>,
)
    requires
        before.processed(after),
        channel::waits(before.pending, channel::sender_of(rx)),
        !channel::lent(receipts),
        !channel::closed(receipts),
        !channel::redeemed(receipts),
        channel::reached(rx, receipts, after.notices),
        channel::sees(
            rx,
            receipts.push(Receipt::Closed),
            after.notices,
            after.pending,
            received,
        ),
    ensures
        channel::is_grant(received) <==> !channel::waits(after.pending, channel::sender_of(rx)),
{
    law_nobody_is_forgotten(before, after, channel::sender_of(rx));
    lemma_closing(receipts);
}

/// A waiter who withdraws gives back what was granted: one who waited for an upgrade, and has
/// neither withdrawn before nor lent the channel to somebody, finds the grant when withdrawing
/// just if the upgrade waits no more.
pub proof fn law_withdrawing_gives_the_upgrade_back<T>(
    before: LockView<T>,
    after: LockView<T>,
    rx: Receiver<()>,
    receipts: Seq<Receipt>,
    received: Result<Option<()>, RequestCanceled>,
)
    requires
        before.processed(after),
        channel::waits(before.upgrades, channel::sender_of(rx)),
        !channel::lent(receipts),
        !channel::closed(receipts),
        !channel::redeemed(receipts),
        channel::reached(rx, receipts, after.notices),
        channel::sees(
            rx,
            receipts.push(Receipt::Closed),
            after.notices,
            after.upgrades,
            received,
        ),
    ensures
        channel::is_grant(received) <==> !channel::waits(after.upgrades, channel::sender_of(rx)),
{
    law_nobody_is_forgotten(before, after, channel::sender_of(rx));
    lemma_closing(receipts);
}

/// To close the receiving half neither lends it nor takes a grant out of it.
proof fn lemma_closing(receipts: Seq<Receipt>)
    ensures
        channel::lent(receipts.push(Receipt::Closed)) ==> channel::lent(receipts),
        channel::redeemed(receipts.push(Receipt::Closed)) ==> channel::redeemed(receipts),
{
    let more = receipts.push(Receipt::Closed);
    if channel::lent(more) {
        let i = choose|i: int| 0 <= i < more.len() && (#[trigger] more[i]) is Lent;
        assert(receipts[i] == more[i]);
    }
    if channel::redeemed(more) {
        let i = choose|i: int|
            0 <= i < more.len() && (#[trigger] more[i]) is Looked && channel::is_grant(
                more[i]->Looked_0,
            );
        assert(receipts[i] == more[i]);
    }
}

/// Whoever is still there is counted: if no notice of a processing failed, everybody who was
/// answered holds the lock, beside those who held it.
pub proof fn law_present_waiters_are_counted<T>(before: LockView<T>, after: LockView<T>)
    requires
        before.wf(),
        before.processed(after),
        forall|i: int|
            0 <= i < before.sent_until(after).len() ==> !channel::told(
                after.notices,
                (#[trigger] before.sent_until(after)[i]).request.tx,
                false,
            ),
    ensures
        serving::deliveries(before.sent_until(after)) == before.sent_until(after).len(),
        serving::holders(after.mode) == serving::holders(before.mode) + before.sent_until(
            after,
        ).len(),
{
    let sent = before.sent_until(after);
    lemma_sent_parts(before, after);
    assert forall|i: int| 0 <= i < sent.len() implies (#[trigger] sent[i]).delivered by {
        let notice = after.notices[before.notices.len() + i];
        assert(notice == sent[i]);
        assert(channel::told(after.notices, notice.request.tx, notice.delivered));
    }
    lemma_everything_delivered(sent);
    law_every_delivery_makes_a_holder(before, after);
}

/// Notices of which each was delivered.
proof fn lemma_everything_delivered(sent: Seq<Notice>)
    requires
        forall|i: int| 0 <= i < sent.len() ==> (#[trigger] sent[i]).delivered,
    ensures
        serving::deliveries(sent) == sent.len(),
    decreases sent.len(),
{
    if sent.len() > 0 {
        assert(sent[sent.len() - 1].delivered);
        lemma_everything_delivered(sent.drop_last());
    }
}

/// A reader and a writer exclude each other: there is no lock that a guard to read and a guard to
/// write both fit.
pub proof fn law_guards_exclude_each_other<L, T>(
    reader: ReadGuard<L>,
    writer: WriteGuard<L>,
    lock: LockView<T>,
)
    ensures
        !(reader.fits(lock) && writer.fits(lock)),
{
}

/// A grant carries nothing.
pub(crate) proof fn lemma_unit(received: Result<Option<()>, RequestCanceled>)
    ensures
        channel::is_grant(received) ==> received == channel::due(false),
{
    assert(received matches Ok(Some(unit)) ==> unit == ());
}

/// A waiter who withdrew is passed over: processing delivers nothing to them, and they go on
/// being known to have withdrawn.
pub proof fn law_withdrawn_waiter_is_passed_over<T>(
    before: LockView<T>,
    after: LockView<T>,
    tx: Sender<()>,
)
    requires
        before.processed(after),
        before.gone.contains(tx),
    ensures
        after.gone.contains(tx),
        !channel::told(before.sent_until(after), tx, true),
        channel::told(after.notices, tx, true) ==> channel::told(before.notices, tx, true),
{
    lemma_sent_parts(before, after);
    lemma_passed_over(before.gone, before.notices, before.sent_until(after), tx);
}

/// Nothing that passes over those who are gone tells one of them that the lock is theirs.
proof fn lemma_passed_over(
    gone: Set<Sender<()>>,
    before: Seq<Notice>,
    sent: Seq<Notice>,
    tx: Sender<()>,
)
    requires
        channel::passes_over(gone, sent),
        gone.contains(tx),
    ensures
        !channel::told(sent, tx, true),
        channel::told(before + sent, tx, true) ==> channel::told(before, tx, true),
{
    let all = before + sent;
    if channel::told(all, tx, true) {
        let i = choose|i: int|
            0 <= i < all.len() && (#[trigger] all[i]).request.tx == tx && all[i].delivered == true;
        if i < before.len() {
            assert(before[i] == all[i]);
        } else {
            assert(sent[i - before.len()] == all[i]);
        }
    }
}

/// A lock is not lost to those who withdrew: if everybody who waits for a lock that nobody holds
/// has withdrawn, nobody holds it or waits for it after processing.
pub proof fn law_withdrawn_waiters_leave_lock_free<T>(before: LockView<T>, after: LockView<T>)
    requires
        before.wf(),
        before.mode is Unlocked,
        before.processed(after),
        forall|i: int|
            0 <= i < before.pending.len() ==> before.gone.contains(
                (#[trigger] before.pending[i]).tx,
            ),
        forall|i: int|
            0 <= i < before.upgrades.len() ==> before.gone.contains(
                (#[trigger] before.upgrades[i]).tx,
            ),
    ensures
        after.mode is Unlocked,
        after.pending.len() == 0,
        after.upgrades.len() == 0,
        serving::deliveries(before.sent_until(after)) == 0,
{
    let first = before.upgrades_answered(after);
    let rest = before.requests_answered(after);
    let sent = before.sent_until(after);
    let upgraded = serving::mode_after(before.mode, first);
    lemma_sent_parts(before, after);
    assert forall|i: int| 0 <= i < sent.len() implies !(#[trigger] sent[i]).delivered by {
        if i < first.len() {
            assert(serving::answers_at(before.mode, before.upgrades, first, i));
            assert(sent[i] == first[i]);
        } else {
            assert(serving::answers_at(upgraded, before.pending, rest, i - first.len()));
            assert(sent[i] == rest[i - first.len()]);
        }
    }
    lemma_nothing_delivered(sent);
    law_every_delivery_makes_a_holder(before, after);
    law_processing_keeps_lock_valid(before, after);
    law_nobody_waits_for_an_unlocked_lock(before, after);
}

/// Notices of which none was delivered.
proof fn lemma_nothing_delivered(sent: Seq<Notice>)
    requires
        forall|i: int| 0 <= i < sent.len() ==> !(#[trigger] sent[i]).delivered,
    ensures
        serving::deliveries(sent) == 0,
    decreases sent.len(),
{
    if sent.len() > 0 {
        assert(!sent[sent.len() - 1].delivered);
        lemma_nothing_delivered(sent.drop_last());
    }
}

/// A lock that nobody holds after processing has nobody waiting for it.
pub proof fn law_nobody_waits_for_an_unlocked_lock<T>(before: LockView<T>, after: LockView<T>)
    requires
        before.processed(after),
        after.mode is Unlocked,
    ensures
        after.pending.len() == 0,
        after.upgrades.len() == 0,
{
    let first = before.upgrades_answered(after);
    let rest = before.requests_answered(after);
    let upgraded = serving::mode_after(before.mode, first);
    lemma_unlocked_from(upgraded, rest);
    serving::lemma_unlocked_nobody_waits(upgraded, before.pending, rest, after.pending);
    serving::lemma_unlocked_nobody_waits(before.mode, before.upgrades, first, after.upgrades);
}

/// Nobody waits without need: after processing, a request waits only behind a writer, or behind
/// readers if it is one to write or would not be counted, and an upgrade waits only behind those
/// who hold the lock.
pub proof fn law_nobody_waits_without_need<T>(before: LockView<T>, after: LockView<T>)
    requires
        before.wf(),
        before.processed(after),
    ensures
        after.pending.len() > 0 ==> match after.mode {
            Mode::Unlocked => false,
            Mode::Read(readers) => after.pending[0].kind == RequestKind::Write || readers
                == READ_COUNT_MASK,
            Mode::Write => true,
        },
        after.upgrades.len() > 0 ==> !(after.mode is Unlocked),
{
    law_processing_keeps_lock_valid(before, after);
    if after.mode is Unlocked {
        law_nobody_waits_for_an_unlocked_lock(before, after);
    }
}

/// What is granted in one processing is granted to one writer or to readers: once something was
/// delivered to a reader, only readers are answered, and once something was delivered to a writer,
/// nobody is.
pub proof fn law_grants_go_together<T>(before: LockView<T>, after: LockView<T>, i: int, j: int)
    requires
        before.wf(),
        before.processed(after),
        0 <= i < j < before.sent_until(after).len(),
        before.sent_until(after)[i].delivered,
    ensures
        before.sent_until(after)[i].request.kind == RequestKind::Read,
        before.sent_until(after)[j].request.kind == RequestKind::Read,
{
    let first = before.upgrades_answered(after);
    let rest = before.requests_answered(after);
    let sent = before.sent_until(after);
    let upgraded = serving::mode_after(before.mode, first);
    lemma_sent_parts(before, after);
    if i < first.len() {
        assert(sent[i] == first[i]);
        assert(serving::answers_at(before.mode, before.upgrades, first, i));
        serving::lemma_writer_alone(before.mode, before.upgrades, first, i);
        serving::lemma_served_again(upgraded, before.pending, rest, after.pending);
    } else {
        let k = i - first.len();
        let l = j - first.len();
        assert(sent[i] == rest[k]);
        assert(sent[j] == rest[l]);
        serving::lemma_holders_counted(before.mode, before.upgrades, first);
        if rest[k].request.kind == RequestKind::Write {
            serving::lemma_writer_alone(upgraded, before.pending, rest, k);
        } else {
            lemma_reader_let_in(upgraded, before.pending, rest, k, l);
        }
    }
}

/// Once a reader was let in, what is answered next is a read request.
proof fn lemma_reader_let_in(
    mode: Mode,
    queue: Seq<QrwRequest>,
    sent: Seq<Notice>,
    i: int,
    j: int,
)
    requires
        serving::answers(mode, queue, sent),
        0 <= i < j < sent.len(),
        sent[i].delivered,
        sent[i].request.kind == RequestKind::Read,
    ensures
        serving::mode_after(mode, sent.take(j)) is Read,
        sent[j].request.kind == RequestKind::Read,
    decreases j,
{
    assert(serving::answers_at(mode, queue, sent, j));
    assert(serving::answers_at(mode, queue, sent, j - 1));
    assert(sent.take(j).drop_last() =~= sent.take(j - 1));
    if i < j - 1 {
        lemma_reader_let_in(mode, queue, sent, i, j - 1);
    }
}

/// What processing comes to is decided by who is still there: two processings of one lock that
/// fare the same with those whom both answer are the same.
pub proof fn law_processing_is_decided_by_deliveries<T>(
    before: LockView<T>,
    after: LockView<T>,
    other: LockView<T>,
)
    requires
        before.processed(after),
        before.processed(other),
        forall|i: int|
            0 <= i < before.sent_until(after).len() && i < before.sent_until(other).len() ==> (
            #[trigger] before.sent_until(after)[i]).delivered == before.sent_until(
                other,
            )[i].delivered,
    ensures
        after == other,
{
    let first = before.upgrades_answered(after);
    let rest = before.requests_answered(after);
    let sent = before.sent_until(after);
    let first_other = before.upgrades_answered(other);
    let rest_other = before.requests_answered(other);
    let sent_other = before.sent_until(other);
    lemma_sent_parts(before, after);
    lemma_sent_parts(before, other);
    assert forall|i: int| 0 <= i < first.len() && i < first_other.len() implies (
    #[trigger] first[i]).delivered == first_other[i].delivered by {
        assert(first[i] == sent[i]);
        assert(first_other[i] == sent_other[i]);
    }
    lemma_served_alike(
        before.mode,
        before.upgrades,
        first,
        after.upgrades,
        first_other,
        other.upgrades,
    );
    assert forall|i: int| 0 <= i < rest.len() && i < rest_other.len() implies (
    #[trigger] rest[i]).delivered == rest_other[i].delivered by {
        assert(rest[i] == sent[first.len() + i]);
        assert(rest_other[i] == sent_other[first.len() + i]);
    }
    lemma_served_alike(
        serving::mode_after(before.mode, first),
        before.pending,
        rest,
        after.pending,
        rest_other,
        other.pending,
    );
}

/// A queue that is served twice in the same way is served alike.
proof fn lemma_served_alike(
    mode: Mode,
    queue: Seq<QrwRequest>,
    sent: Seq<Notice>,
    left: Seq<QrwRequest>,
    sent_other: Seq<Notice>,
    left_other: Seq<QrwRequest>,
)
    requires
        serving::served(mode, queue, sent, left),
        serving::served(mode, queue, sent_other, left_other),
        forall|i: int|
            0 <= i < sent.len() && i < sent_other.len() ==> (#[trigger] sent[i]).delivered
                == sent_other[i].delivered,
    ensures
        sent == sent_other,
        left == left_other,
{
    let common = if sent.len() <= sent_other.len() {
        sent.len() as int
    } else {
        sent_other.len() as int
    };
    assert forall|i: int| 0 <= i < common implies sent[i] == sent_other[i] by {
        assert(serving::answers_at(mode, queue, sent, i));
        assert(serving::answers_at(mode, queue, sent_other, i));
    }
    assert(sent.take(common) =~= sent_other.take(common));
    if sent.len() < sent_other.len() {
        assert(sent.take(common) =~= sent);
        assert(serving::answers_at(mode, queue, sent_other, common));
    }
    if sent_other.len() < sent.len() {
        assert(sent_other.take(common) =~= sent_other);
        assert(serving::answers_at(mode, queue, sent, common));
    }
    assert(sent =~= sent_other);
}

/// Notices never unlock a lock.
proof fn lemma_unlocked_from(mode: Mode, sent: Seq<Notice>)
    requires
        serving::mode_after(mode, sent) is Unlocked,
    ensures
        mode is Unlocked,
    decreases sent.len(),
{
    if sent.len() > 0 {
        lemma_unlocked_from(mode, sent.drop_last());
    }
}

/// Processing a lock twice in a row is the same as processing it once.
pub proof fn law_processing_twice_is_once<T>(
    before: LockView<T>,
    after: LockView<T>,
    again: LockView<T>,
)
    requires
        before.wf(),
        before.processed(after),
        after.processed(again),
    ensures
        again == after,
{
    law_processing_keeps_lock_valid(before, after);
    let first = after.upgrades_answered(again);
    let rest = after.requests_answered(again);
    if after.mode is Unlocked {
        law_nobody_waits_for_an_unlocked_lock(before, after);
    }
    serving::lemma_served_again(after.mode, after.upgrades, first, again.upgrades);
    serving::lemma_served_again(after.mode, after.pending, rest, again.pending);
    lemma_sent_parts(after, again);
    assert(again.notices =~= after.notices);
}

/// Upgrades come first: an unlocked lock goes to a waiting upgrade before any request, and to a
/// request only if everybody who waited for an upgrade is gone.
pub proof fn law_upgrades_come_first<T>(before: LockView<T>, after: LockView<T>)
    requires
        before.wf(),
        before.mode is Unlocked,
        before.upgrades.len() > 0,
        before.processed(after),
    ensures
        before.sent_until(after).len() > 0,
        before.sent_until(after)[0].request == before.upgrades[0],
        after.pending == before.pending || (after.upgrades.len() == 0 && serving::deliveries(
            before.sent_until(after).take(before.upgrades.len() as int),
        ) == 0),
{
    let first = before.upgrades_answered(after);
    let rest = before.requests_answered(after);
    let upgraded = serving::mode_after(before.mode, first);
    lemma_sent_parts(before, after);
    if first.len() == 0 {
        assert(after.upgrades =~= before.upgrades);
    } else {
        assert(serving::answers_at(before.mode, before.upgrades, first, 0));
    }
    serving::lemma_holders_counted(before.mode, before.upgrades, first);
    if upgraded is Unlocked {
        assert(before.sent_until(after).take(before.upgrades.len() as int) =~= first);
    } else {
        lemma_not_unlocked_by_upgrades(before, first);
        serving::lemma_served_again(upgraded, before.pending, rest, after.pending);
    }
}

/// What upgrades make of an unlocked lock is a lock that is unlocked or locked for writing.
proof fn lemma_not_unlocked_by_upgrades<T>(before: LockView<T>, first: Seq<Notice>)
    requires
        before.wf(),
        before.mode is Unlocked,
        serving::answers(before.mode, before.upgrades, first),
    ensures
        !(serving::mode_after(before.mode, first) is Read),
{
    if first.len() > 0 {
        let last = first.len() - 1;
        assert(serving::answers_at(before.mode, before.upgrades, first, last));
        assert(before.upgrades[last].kind == RequestKind::Write);
        assert(first.take(last) =~= first.drop_last());
    }
}

/// Reads are chained: if no writer holds the lock and no upgrade can be granted, all the read
/// requests at the front of the queue are answered at once, as far as the read count goes.
pub proof fn law_reads_are_chained<T>(before: LockView<T>, after: LockView<T>, n: int)
    requires
        before.wf(),
        !(before.mode is Write),
        before.mode is Unlocked ==> before.upgrades.len() == 0,
        before.processed(after),
        0 <= n <= before.pending.len(),
        serving::holders(before.mode) + n <= READ_COUNT_MASK,
        forall|i: int| 0 <= i < n ==> (#[trigger] before.pending[i]).kind == RequestKind::Read,
    ensures
        before.sent_until(after).len() >= n,
        forall|i: int|
            0 <= i < n ==> (#[trigger] before.sent_until(after)[i]).request == before.pending[i],
{
    let first = before.upgrades_answered(after);
    let rest = before.requests_answered(after);
    serving::lemma_served_again(before.mode, before.upgrades, first, after.upgrades);
    lemma_sent_parts(before, after);
    assert(before.sent_until(after) =~= rest);
    serving::lemma_reads_answered(before.mode, before.pending, rest, after.pending, n);
    assert forall|i: int| 0 <= i < n implies (#[trigger] before.sent_until(after)[i]).request
        == before.pending[i] by {
        assert(serving::answers_at(before.mode, before.pending, rest, i));
    }
}

/// A writer that becomes a reader stays one: a downgrade lets other readers in and no writer.
pub proof fn law_downgrade_keeps_reading<T>(before: LockView<T>, after: LockView<T>)
    requires
        before.wf(),
        before.mode is Write,
        before.downgraded().processed(after),
    ensures
        after.mode is Read,
        after.upgrades == before.upgrades,
{
    law_read_lock_admits_readers_only(before.downgraded(), after);
}

/// A downgrade undoes an upgrade that came about at once, if nobody waits: the lock is as it was,
/// two turns later.
pub proof fn law_downgrade_undoes_upgrade<T>(before: LockView<T>, after: LockView<T>)
    requires
        before.wf(),
        before.upgrades_at_once(),
        before.pending.len() == 0,
        before.upgraded().downgraded().processed(after),
    ensures
        after == (LockView { turn: before.turn + 2, ..before }),
{
    let first = before.upgrades_answered(after);
    let rest = before.requests_answered(after);
    serving::lemma_served_again(before.mode, before.upgrades, first, after.upgrades);
    serving::lemma_served_again(before.mode, before.pending, rest, after.pending);
    lemma_sent_parts(before.upgraded().downgraded(), after);
    assert(after.notices =~= before.notices);
}

/// A release undoes a grant: a lock that nobody held or waited for is granted to whoever asks for
/// it next, if they are still there, and is as it was, but for the notice and the turn, once they
/// release it.
pub proof fn law_release_undoes_grant<T>(
    before: LockView<T>,
    request: QrwRequest,
    during: LockView<T>,
    after: LockView<T>,
)
    requires
        before.mode is Unlocked,
        before.pending.len() == 0,
        before.upgrades.len() == 0,
        before.requested(request).processed(during),
        during.notices.last().delivered,
        (if request.kind == RequestKind::Read {
            during.reader_gone()
        } else {
            during.writer_gone()
        }).processed(after),
    ensures
        during.mode == (if request.kind == RequestKind::Read {
            Mode::Read(1)
        } else {
            Mode::Write
        }),
        during.notices == before.notices.push(Notice { request, delivered: true }),
        after == (LockView { notices: during.notices, turn: before.turn + 1, ..before }),
{
    let start = before.requested(request);
    let rest = start.requests_answered(during);
    lemma_sent_parts(start, during);
    assert(start.upgrades_answered(during) =~= Seq::empty());
    if rest.len() == 0 {
        assert(during.pending =~= start.pending);
    }
    assert(start.pending =~= seq![request]);
    assert(serving::answers_at(start.mode, start.pending, rest, 0));
    assert(rest.take(0) =~= Seq::empty());
    assert(rest.drop_last() =~= Seq::empty());
    assert(during.notices =~= before.notices.push(rest[0]));
    assert(rest[0] == during.notices.last());
    let released = if request.kind == RequestKind::Read {
        during.reader_gone()
    } else {
        during.writer_gone()
    };
    assert(released.upgrades_answered(after) =~= Seq::empty());
    serving::lemma_served_again(
        released.mode,
        released.pending,
        released.requests_answered(after),
        after.pending,
    );
    lemma_sent_parts(released, after);
    assert(after.notices =~= during.notices);
    assert(after.pending =~= before.pending);
    assert(after.upgrades =~= before.upgrades);
}

/// Processing grants a qutex to one at a time: to nobody while somebody holds it, and else to at
/// most one, who holds it then. One who is gone when the grant is sent never holds it.
pub proof fn law_qutex_has_one_holder<T>(before: QutexView<T>, after: QutexView<T>)
    requires
        before.processed(after),
    ensures
        before.locked ==> after == before,
        !before.locked ==> serving::deliveries(before.sent_until(after)) == (if after.locked {
            1nat
        } else {
            0
        }),
{
    let sent = before.sent_until(after);
    serving::lemma_holders_counted(before.mode(), before.pending, sent);
    if before.locked {
        serving::lemma_served_again(before.mode(), before.pending, sent, after.pending);
        assert(after.notices =~= before.notices);
    }
}

/// First come, first served: the requests for a qutex are answered in the order in which they
/// wait, and those that are left wait on in that order.
pub proof fn law_qutex_first_come_first_served<T>(before: QutexView<T>, after: QutexView<T>)
    requires
        before.processed(after),
    ensures
        after.notices == before.notices + before.sent_until(after),
        before.pending == serving::requests_of(before.sent_until(after)) + after.pending,
{
    lemma_answered_in_order(
        before.mode(),
        before.pending,
        before.sent_until(after),
        after.pending,
    );
    assert(after.notices =~= before.notices + before.sent_until(after));
}

/// Nobody is forgotten: one who waits for a qutex goes on waiting or is told, and whoever was
/// told has been told for good.
pub proof fn law_qutex_forgets_nobody<T>(
    before: QutexView<T>,
    after: QutexView<T>,
    tx: Sender<()>,
)
    requires
        before.processed(after),
    ensures
        channel::waits(before.pending, tx) ==> channel::waits(after.pending, tx) || channel::told(
            after.notices,
            tx,
            true,
        ) || channel::told(after.notices, tx, false),
        channel::told(before.notices, tx, true) ==> channel::told(after.notices, tx, true),
        channel::told(before.notices, tx, false) ==> channel::told(after.notices, tx, false),
{
    let sent = before.sent_until(after);
    let none = Seq::<Notice>::empty();
    assert(after.notices =~= before.notices + sent + none);
    assert(after.notices =~= none + before.notices + sent);
    if channel::waits(before.pending, tx) {
        lemma_left_or_told(before.mode(), before.pending, sent, after.pending, tx);
    }
    assert forall|delivered: bool| #[trigger] channel::told(sent, tx, delivered) implies
        channel::told(after.notices, tx, delivered) by {
        lemma_told_among(before.notices, sent, none, tx, delivered);
    }
    assert forall|delivered: bool| #[trigger] channel::told(before.notices, tx, delivered) implies
        channel::told(after.notices, tx, delivered) by {
        lemma_told_among(none, before.notices, sent, tx, delivered);
    }
}

/// A waiter who is still there gets the qutex: one who waits for it, and has neither withdrawn nor
/// lent the channel to somebody, sees after processing that the grant may still come if the
/// request goes on waiting, and sees the grant otherwise.
pub proof fn law_waiter_gets_the_qutex<T>(
    before: QutexView<T>,
    after: QutexView<T>,
    rx: Receiver<()>,
    receipts: Seq<Receipt>,
    received: Result<Option<()>, RequestCanceled>,
)
    requires
        before.processed(after),
        channel::waits(before.pending, channel::sender_of(rx)),
        !channel::lent(receipts),
        !channel::closed(receipts),
        !channel::redeemed(receipts),
        channel::sees(rx, receipts, after.notices, after.pending, received),
    ensures
        received == channel::due(channel::waits(after.pending, channel::sender_of(rx))),
{
    law_qutex_forgets_nobody(before, after, channel::sender_of(rx));
    lemma_unit(received);
}

/// The first who waits for a qutex that nobody holds gets it if they are still there.
pub proof fn law_first_waiter_gets_a_free_qutex<T>(
    before: QutexView<T>,
    after: QutexView<T>,
    rx: Receiver<()>,
    receipts: Seq<Receipt>,
    received: Result<Option<()>, RequestCanceled>,
)
    requires
        before.wf(),
        !before.locked,
        before.pending.len() > 0,
        before.pending[0].tx == channel::sender_of(rx),
        before.processed(after),
        !channel::lent(receipts),
        !channel::closed(receipts),
        !channel::redeemed(receipts),
        channel::sees(rx, receipts, after.notices, after.pending, received),
    ensures
        received == channel::due(false),
        after.locked,
        after.pending == before.pending.drop_first(),
{
    let tx = channel::sender_of(rx);
    lemma_free_qutex_goes_to_first(before, after);
    let first = after.notices[before.notices.len() as int];
    assert(first == before.sent_until(after)[0]);
    assert(channel::told(after.notices, tx, first.delivered));
    lemma_unit(received);
}

/// A waiter who withdraws gives back what was granted: one who waited for a qutex, and has
/// neither withdrawn before nor lent the channel to somebody, finds the grant when withdrawing
/// just if the request waits no more.
pub proof fn law_withdrawing_gives_the_qutex_back<T>(
    before: QutexView<T>,
    after: QutexView<T>,
    rx: Receiver<()>,
    receipts: Seq<Receipt>,
    received: Result<Option<()>, RequestCanceled>,
)
    requires
        before.processed(after),
        channel::waits(before.pending, channel::sender_of(rx)),
        !channel::lent(receipts),
        !channel::closed(receipts),
        !channel::redeemed(receipts),
        channel::reached(rx, receipts, after.notices),
        channel::sees(
            rx,
            receipts.push(Receipt::Closed),
            after.notices,
            after.pending,
            received,
        ),
    ensures
        channel::is_grant(received) <==> !channel::waits(after.pending, channel::sender_of(rx)),
{
    law_qutex_forgets_nobody(before, after, channel::sender_of(rx));
    lemma_closing(receipts);
}

/// A waiter who withdrew is passed over: processing a qutex delivers nothing to them, and they go
/// on being known to have withdrawn.
pub proof fn law_qutex_passes_over_withdrawn_waiter<T>(
    before: QutexView<T>,
    after: QutexView<T>,
    tx: Sender<()>,
)
    requires
        before.processed(after),
        before.gone.contains(tx),
    ensures
        after.gone.contains(tx),
        !channel::told(before.sent_until(after), tx, true),
        channel::told(after.notices, tx, true) ==> channel::told(before.notices, tx, true),
{
    assert(after.notices =~= before.notices + before.sent_until(after));
    lemma_passed_over(before.gone, before.notices, before.sent_until(after), tx);
}

/// A qutex is not lost to those who withdrew: if everybody who waits for a qutex that nobody
/// holds has withdrawn, nobody holds it or waits for it after processing.
pub proof fn law_withdrawn_waiters_leave_qutex_free<T>(before: QutexView<T>, after: QutexView<T>)
    requires
        !before.locked,
        before.processed(after),
        forall|i: int|
            0 <= i < before.pending.len() ==> before.gone.contains(
                (#[trigger] before.pending[i]).tx,
            ),
    ensures
        !after.locked,
        after.pending.len() == 0,
        serving::deliveries(before.sent_until(after)) == 0,
{
    let sent = before.sent_until(after);
    assert forall|i: int| 0 <= i < sent.len() implies !(#[trigger] sent[i]).delivered by {
        assert(serving::answers_at(before.mode(), before.pending, sent, i));
    }
    lemma_nothing_delivered(sent);
    law_qutex_has_one_holder(before, after);
    law_nobody_waits_for_an_unlocked_qutex(before, after);
}

/// A qutex that nobody holds after processing has nobody waiting for it.
pub proof fn law_nobody_waits_for_an_unlocked_qutex<T>(before: QutexView<T>, after: QutexView<T>)
    requires
        before.processed(after),
        !after.locked,
    ensures
        after.pending.len() == 0,
{
    serving::lemma_unlocked_nobody_waits(
        before.mode(),
        before.pending,
        before.sent_until(after),
        after.pending,
    );
}

/// A qutex is offered to one after the other until somebody takes it: all notices of a processing
/// but the last fail.
pub proof fn law_qutex_is_offered_until_taken<T>(
    before: QutexView<T>,
    after: QutexView<T>,
    i: int,
)
    requires
        before.wf(),
        before.processed(after),
        0 <= i < before.sent_until(after).len() - 1,
    ensures
        !before.sent_until(after)[i].delivered,
{
    let sent = before.sent_until(after);
    assert(serving::answers_at(before.mode(), before.pending, sent, i));
    if sent[i].delivered {
        serving::lemma_writer_alone(before.mode(), before.pending, sent, i);
    }
}

/// What processing a qutex comes to is decided by who is still there: two processings of one qutex
/// that fare the same with those whom both answer are the same.
pub proof fn law_qutex_processing_is_decided_by_deliveries<T>(
    before: QutexView<T>,
    after: QutexView<T>,
    other: QutexView<T>,
)
    requires
        before.processed(after),
        before.processed(other),
        forall|i: int|
            0 <= i < before.sent_until(after).len() && i < before.sent_until(other).len() ==> (
            #[trigger] before.sent_until(after)[i]).delivered == before.sent_until(
                other,
            )[i].delivered,
    ensures
        after == other,
{
    lemma_served_alike(
        before.mode(),
        before.pending,
        before.sent_until(after),
        after.pending,
        before.sent_until(other),
        other.pending,
    );
    assert(after.notices =~= before.notices + before.sent_until(after));
    assert(other.notices =~= before.notices + before.sent_until(other));
}

/// Processing a qutex keeps what holds of every qutex.
pub proof fn law_processing_keeps_qutex_valid<T>(before: QutexView<T>, after: QutexView<T>)
    requires
        before.wf(),
        before.processed(after),
    ensures
        after.wf(),
{
}

/// Processing a qutex twice in a row is the same as processing it once.
pub proof fn law_processing_qutex_twice_is_once<T>(
    before: QutexView<T>,
    after: QutexView<T>,
    again: QutexView<T>,
)
    requires
        before.processed(after),
        after.processed(again),
    ensures
        again == after,
{
    if !after.locked {
        law_nobody_waits_for_an_unlocked_qutex(before, after);
    }
    let sent = after.sent_until(again);
    serving::lemma_served_again(after.mode(), after.pending, sent, again.pending);
    assert(again.notices =~= after.notices);
}

/// An unlock hands the qutex on: the first who waits is told, and the qutex stays locked unless
/// everybody who waited is gone.
pub proof fn law_unlock_hands_qutex_on<T>(before: QutexView<T>, after: QutexView<T>)
    requires
        before.wf(),
        before.pending.len() > 0,
        before.unlocked().processed(after),
    ensures
        before.sent_until(after).len() > 0,
        before.sent_until(after)[0].request == before.pending[0],
        before.sent_until(after)[0].delivered ==> after.locked && after.pending
            == before.pending.drop_first(),
        !after.locked ==> after.pending.len() == 0,
{
    assert(before.sent_until(after) == before.unlocked().sent_until(after));
    lemma_free_qutex_goes_to_first(before.unlocked(), after);
}

/// A qutex that nobody holds is offered to the first who waits.
proof fn lemma_free_qutex_goes_to_first<T>(before: QutexView<T>, after: QutexView<T>)
    requires
        before.wf(),
        !before.locked,
        before.pending.len() > 0,
        before.processed(after),
    ensures
        before.sent_until(after).len() > 0,
        before.sent_until(after)[0].request == before.pending[0],
        before.sent_until(after)[0].delivered ==> after.locked && after.pending
            == before.pending.drop_first(),
        !after.locked ==> after.pending.len() == 0,
{
    let sent = before.sent_until(after);
    let mode = Mode::Unlocked;
    if sent.len() == 0 {
        assert(after.pending =~= before.pending);
    }
    assert(serving::answers_at(mode, before.pending, sent, 0));
    if sent[0].delivered {
        serving::lemma_writer_alone(mode, before.pending, sent, 0);
        assert(after.pending =~= before.pending.drop_first());
    }
    if !after.locked {
        law_nobody_waits_for_an_unlocked_qutex(before, after);
    }
}

/// A release undoes a grant: a qutex that nobody held or waited for is granted to whoever asks
/// for it next, if they are still there, and is as it was, but for the notice and the turn, once
/// they unlock it.
pub proof fn law_unlock_undoes_grant<T>(
    before: QutexView<T>,
    request: Request,
    during: QutexView<T>,
    after: QutexView<T>,
)
    requires
        !before.locked,
        before.pending.len() == 0,
        before.requested(request).processed(during),
        during.notices.last().delivered,
        during.unlocked().processed(after),
    ensures
        during.locked,
        during.notices == before.notices.push(
            Notice { request: request.as_write(), delivered: true },
        ),
        after == (QutexView { notices: during.notices, turn: before.turn + 1, ..before }),
{
    let start = before.requested(request);
    let sent = start.sent_until(during);
    if sent.len() == 0 {
        assert(during.pending =~= start.pending);
    }
    assert(start.pending =~= seq![request.as_write()]);
    assert(serving::answers_at(start.mode(), start.pending, sent, 0));
    assert(sent.drop_last() =~= Seq::empty());
    assert(during.notices =~= before.notices.push(sent[0]));
    assert(sent[0] == during.notices.last());
    let released = during.unlocked();
    serving::lemma_served_again(
        released.mode(),
        released.pending,
        released.sent_until(after),
        after.pending,
    );
    assert(after.notices =~= during.notices);
    assert(after.pending =~= before.pending);
}

/// What a lock that no writer holds makes of the requests that wait is this. Either nobody holds
/// it, and one write request is granted and no read request. Or no write request is granted, and
/// each read request that is granted adds one to the word. If nothing is granted, because nobody
/// waits or everybody who is answered is gone, the word stays and nobody waits on, unless there
/// are readers and the next request is one to write or would not be counted.
pub proof fn law_requests_are_fulfilled(
    word: usize,
    queue: Seq<QrwRequest>,
    sent: Seq<Notice>,
    left: Seq<QrwRequest>,
    fulfilled: usize,
)
    requires
        word <= READ_COUNT_MASK,
        serving::served(serving::word_mode(word), queue, sent, left),
        serving::valid_word(fulfilled),
        serving::word_mode(fulfilled) == serving::mode_after(serving::word_mode(word), sent),
    ensures
        ({
            &&& word == 0
            &&& fulfilled == WRITE_LOCKED
            &&& serving::grants(sent, RequestKind::Write) == 1
            &&& serving::grants(sent, RequestKind::Read) == 0
        }) || ({
            &&& serving::grants(sent, RequestKind::Write) == 0
            &&& fulfilled == word + serving::grants(sent, RequestKind::Read)
        }),
        serving::deliveries(sent) == serving::grants(sent, RequestKind::Read) + serving::grants(
            sent,
            RequestKind::Write,
        ),
        serving::deliveries(sent) == 0 ==> fulfilled == word,
        serving::deliveries(sent) == 0 ==> left.len() == 0 || (word > 0 && (left[0].kind
            == RequestKind::Write || word == READ_COUNT_MASK)),
{
    let mode = serving::word_mode(word);
    lemma_grants_counted(mode, queue, sent);
}

/// Processing a lock that no writer holds, and that no upgrade can be granted of, does this. Either
/// nobody held it, and one write request is granted and no read request. Or no write request is
/// granted, and those who are granted a read request join the readers. If nothing is granted, the
/// lock is held as before and nobody waits on, unless there are readers and the next request is
/// one to write or would not be counted.
pub proof fn law_processing_fulfills_requests<T>(before: LockView<T>, after: LockView<T>)
    requires
        before.wf(),
        !(before.mode is Write),
        before.mode is Unlocked ==> before.upgrades.len() == 0,
        before.processed(after),
    ensures
        ({
            &&& before.mode is Unlocked
            &&& after.mode is Write
            &&& serving::grants(before.sent_until(after), RequestKind::Write) == 1
            &&& serving::grants(before.sent_until(after), RequestKind::Read) == 0
        }) || ({
            &&& !(after.mode is Write)
            &&& serving::grants(before.sent_until(after), RequestKind::Write) == 0
            &&& serving::holders(after.mode) == serving::holders(before.mode) + serving::grants(
                before.sent_until(after),
                RequestKind::Read,
            )
        }),
        serving::deliveries(before.sent_until(after)) == 0 ==> after.mode == before.mode,
        serving::deliveries(before.sent_until(after)) == 0 ==> after.pending.len() == 0 || (
        before.mode is Read && (after.pending[0].kind == RequestKind::Write || before.mode
            == Mode::Read(READ_COUNT_MASK as nat))),
{
    let first = before.upgrades_answered(after);
    let rest = before.requests_answered(after);
    serving::lemma_served_again(before.mode, before.upgrades, first, after.upgrades);
    lemma_sent_parts(before, after);
    assert(before.sent_until(after) =~= rest);
    lemma_grants_counted(before.mode, before.pending, rest);
}

/// The answers of a lock that no writer holds grant to one writer or to readers.
proof fn lemma_grants_counted(mode: Mode, queue: Seq<QrwRequest>, sent: Seq<Notice>)
    requires
        serving::valid_mode(mode),
        !(mode is Write),
        serving::answers(mode, queue, sent),
    ensures
        serving::deliveries(sent) == serving::grants(sent, RequestKind::Read) + serving::grants(
            sent,
            RequestKind::Write,
        ),
        if serving::mode_after(mode, sent) is Write {
            &&& mode is Unlocked
            &&& serving::grants(sent, RequestKind::Write) == 1
            &&& serving::grants(sent, RequestKind::Read) == 0
        } else {
            &&& serving::grants(sent, RequestKind::Write) == 0
            &&& serving::holders(serving::mode_after(mode, sent)) == serving::holders(mode)
                + serving::grants(sent, RequestKind::Read)
        },
        serving::valid_mode(serving::mode_after(mode, sent)),
    decreases sent.len(),
{
    if sent.len() > 0 {
        let last = sent.len() - 1;
        serving::lemma_answers_take(mode, queue, sent, last);
        assert(sent.take(last) =~= sent.drop_last());
        lemma_grants_counted(mode, queue, sent.drop_last());
        assert(serving::answers_at(mode, queue, sent, last));
    }
}

/// A lock word says who holds the lock, and nothing else: two words that mean the same are the
/// same.
pub proof fn law_word_is_its_mode(word: usize, other: usize)
    requires
        serving::valid_word(word),
        serving::valid_word(other),
        serving::word_mode(word) == serving::word_mode(other),
    ensures
        word == other,
{
}

/// A lock word never counts readers and marks a writer at once, and it leaves the `CONTENDED` bit
/// free.
pub proof fn law_word_bits_exclude(word: usize)
    requires
        serving::valid_word(word),
    ensures
        word & WRITE_LOCKED == 0 || word & READ_COUNT_MASK == 0,
        word & CONTENDED == 0,
        (word | CONTENDED) & CONTENDED != 0,
{
    assert(word <= 0x00FF_FFFF ==> word & 0x0100_0000 == 0 && word & 0x0200_0000 == 0)
        by (bit_vector);
    assert(word == 0x0100_0000 ==> word & 0x00FF_FFFF == 0 && word & 0x0200_0000 == 0)
        by (bit_vector);
    assert((word | 0x0200_0000) & 0x0200_0000 != 0) by (bit_vector);
}

} // verus!
