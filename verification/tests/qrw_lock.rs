use futures::sync::oneshot;
use qutex::serving::{word_admits, word_granted};
use qutex::{
    FutureReadGuard, FutureWriteGuard, QrwLock, QrwRequest, ReadGuard, RequestCanceled,
    RequestKind, WriteGuard,
};

const READ_COUNT_MASK: usize = 0x00FF_FFFF;
const WRITE_LOCKED: usize = 1 << 24;

/// Polls `future` and expects its guard.
fn reader(lock: &mut QrwLock<i32>, future: &mut FutureReadGuard<u32>) -> ReadGuard<u32> {
    match future.poll(lock) {
        Ok(Some(guard)) => guard,
        _ => panic!("no read guard"),
    }
}

/// Polls `future` and expects its guard.
fn writer(lock: &mut QrwLock<i32>, future: &mut FutureWriteGuard<u32>) -> WriteGuard<u32> {
    match future.poll(lock) {
        Ok(Some(guard)) => guard,
        _ => panic!("no write guard"),
    }
}

/// Whether a request that was made with a channel of the test's own was granted.
fn granted(rx: &mut oneshot::Receiver<()>) -> bool {
    rx.try_recv() == Ok(Some(()))
}

fn request(lock: &mut QrwLock<i32>, kind: RequestKind) -> oneshot::Receiver<()> {
    let (tx, rx) = oneshot::channel();
    lock.enqueue_lock_request(QrwRequest::new(tx, kind));
    rx
}

#[test]
fn qrw_lock_simple() {
    let mut lock = QrwLock::from(0i32);

    let mut future_r0 = Some(lock.read("r0"));
    let mut future_w0 = Some(lock.write("w0"));
    let mut future_r1 = Some(lock.read("r1"));
    let mut future_r2 = Some(lock.read("r2"));
    let mut future_u0 = Some(lock.read("u0"));
    let mut upgrade_u0 = None;
    // This read will take place before the above read lock can be
    // upgraded because read requests are processed in a chained fashion:
    let mut future_r3 = Some(lock.read("r3"));

    let mut rounds = 0;
    while future_r0.is_some()
        || future_w0.is_some()
        || future_r1.is_some()
        || future_r2.is_some()
        || future_u0.is_some()
        || upgrade_u0.is_some()
        || future_r3.is_some()
    {
        rounds += 1;
        assert!(rounds <= 2);

        if let Some(mut future) = future_r0.take() {
            match future.poll(&mut lock).unwrap() {
                Some(guard) => {
                    assert_eq!(*guard.deref(&lock), 0);
                    println!("val[r0]: {}", *guard.deref(&lock));
                    assert_eq!(ReadGuard::release(guard, &mut lock), "r0");
                }
                None => future_r0 = Some(future),
            }
        }

        if let Some(mut future) = future_w0.take() {
            match future.poll(&mut lock).unwrap() {
                Some(mut guard) => {
                    *guard.deref_mut(&mut lock) = 5;
                    println!("val is now: {}", *guard.deref(&lock));
                    assert_eq!(WriteGuard::release(guard, &mut lock), "w0");
                }
                None => future_w0 = Some(future),
            }
        }

        if let Some(mut future) = future_r1.take() {
            match future.poll(&mut lock).unwrap() {
                Some(guard) => {
                    assert_eq!(*guard.deref(&lock), 5);
                    println!("val[r1]: {}", *guard.deref(&lock));
                    ReadGuard::release(guard, &mut lock);
                }
                None => future_r1 = Some(future),
            }
        }

        if let Some(mut future) = future_r2.take() {
            match future.poll(&mut lock).unwrap() {
                Some(guard) => {
                    assert_eq!(*guard.deref(&lock), 5);
                    println!("val[r2]: {}", *guard.deref(&lock));
                    ReadGuard::release(guard, &mut lock);
                }
                None => future_r2 = Some(future),
            }
        }

        if let Some(mut future) = future_u0.take() {
            match future.poll(&mut lock).unwrap() {
                Some(read_guard) => {
                    println!("Upgrading read guard...");
                    upgrade_u0 = Some(ReadGuard::upgrade(read_guard, &mut lock));
                }
                None => future_u0 = Some(future),
            }
        }
        if let Some(mut upgrade) = upgrade_u0.take() {
            match upgrade.poll(&mut lock).unwrap() {
                Some(mut write_guard) => {
                    println!("Read guard upgraded.");
                    *write_guard.deref_mut(&mut lock) = 6;
                    assert_eq!(WriteGuard::release(write_guard, &mut lock), "u0");
                }
                None => upgrade_u0 = Some(upgrade),
            }
        }

        if let Some(mut future) = future_r3.take() {
            match future.poll(&mut lock).unwrap() {
                Some(guard) => {
                    // Value should not yet be affected by the events following the
                    // above write guard upgrade.
                    assert_eq!(*guard.deref(&lock), 5);
                    println!("val[r3]: {}", *guard.deref(&lock));
                    ReadGuard::release(guard, &mut lock);
                }
                None => future_r3 = Some(future),
            }
        }
    }

    let mut future_guard = lock.read("last");
    let guard = future_guard.poll(&mut lock).unwrap().unwrap();
    assert_eq!(*guard.deref(&lock), 6);
}

#[test]
fn new_lock_is_unlocked() {
    let lock = QrwLock::new(3i32);
    assert_eq!(lock.state(), 0);
    assert_eq!(lock.read_count(), Some(0));
    assert!(!lock.is_read_locked());
    assert!(!lock.is_write_locked());
}

#[test]
fn get_mut_reaches_the_value() {
    let mut lock = QrwLock::new(3i32);
    *lock.get_mut().unwrap() = 4;
    let mut future = lock.read(0);
    let guard = reader(&mut lock, &mut future);
    assert_eq!(*guard.deref(&lock), 4);
}

#[test]
fn requests_are_granted_in_their_order() {
    let mut lock = QrwLock::new(0i32);
    let mut r0 = request(&mut lock, RequestKind::Read);
    let mut r1 = request(&mut lock, RequestKind::Read);
    let mut w0 = request(&mut lock, RequestKind::Write);
    let mut r2 = request(&mut lock, RequestKind::Read);
    let mut w1 = request(&mut lock, RequestKind::Write);
    assert_eq!(lock.state(), 0);

    lock.process_queues();
    assert_eq!(lock.state(), 2);
    assert_eq!(lock.read_count(), Some(2));
    assert!(granted(&mut r0) && granted(&mut r1));
    assert!(!granted(&mut w0) && !granted(&mut r2) && !granted(&mut w1));

    // The read behind the write must not overtake it.
    lock.process_queues();
    assert_eq!(lock.state(), 2);

    lock.release_read_lock();
    assert_eq!(lock.state(), 1);
    assert!(!granted(&mut w0));
    lock.release_read_lock();
    assert_eq!(lock.state(), WRITE_LOCKED);
    assert_eq!(lock.read_count(), Some(0));
    assert!(granted(&mut w0));
    assert!(!granted(&mut r2));

    lock.process_queues();
    assert_eq!(lock.state(), WRITE_LOCKED);
    lock.release_write_lock();
    assert_eq!(lock.state(), 1);
    assert!(granted(&mut r2));
    lock.release_read_lock();
    assert!(granted(&mut w1));
    lock.release_write_lock();
    assert_eq!(lock.state(), 0);
}

#[test]
fn requesters_that_are_gone_are_passed_over() {
    let mut lock = QrwLock::new(0i32);
    drop(request(&mut lock, RequestKind::Read));
    drop(request(&mut lock, RequestKind::Write));
    let mut w0 = request(&mut lock, RequestKind::Write);
    drop(request(&mut lock, RequestKind::Write));
    let mut r0 = request(&mut lock, RequestKind::Read);
    drop(request(&mut lock, RequestKind::Read));
    let mut r1 = request(&mut lock, RequestKind::Read);

    lock.process_queues();
    assert_eq!(lock.state(), WRITE_LOCKED);
    assert!(granted(&mut w0));
    lock.release_write_lock();
    assert_eq!(lock.state(), 2);
    assert!(granted(&mut r0) && granted(&mut r1));
}

#[test]
fn a_reader_that_is_gone_lets_no_writer_in_beside_readers() {
    let mut lock = QrwLock::new(0i32);
    let mut r0 = request(&mut lock, RequestKind::Read);
    lock.process_queues();
    assert!(granted(&mut r0));

    drop(request(&mut lock, RequestKind::Read));
    let mut w0 = request(&mut lock, RequestKind::Write);
    lock.process_queues();
    assert_eq!(lock.state(), 1);
    assert!(!granted(&mut w0));

    lock.release_read_lock();
    assert_eq!(lock.state(), WRITE_LOCKED);
    assert!(granted(&mut w0));
}

#[test]
fn the_only_reader_is_upgraded_at_once_and_downgraded_again() {
    let mut lock = QrwLock::new(1i32);
    let mut future = lock.read(7);
    let guard = reader(&mut lock, &mut future);
    let mut upgrade = ReadGuard::upgrade(guard, &mut lock);
    assert!(lock.is_write_locked());
    let mut guard = upgrade.poll(&mut lock).unwrap().unwrap();
    *guard.deref_mut(&mut lock) += 1;
    assert_eq!(*guard.deref(&lock), 2);
    let guard = WriteGuard::downgrade(guard, &mut lock);
    assert_eq!(lock.state(), 1);
    assert_eq!(*guard.deref(&lock), 2);
    assert_eq!(ReadGuard::release(guard, &mut lock), 7);
    assert_eq!(lock.state(), 0);
}

#[test]
fn a_downgrade_lets_readers_in_and_no_writer() {
    let mut lock = QrwLock::new(0i32);
    let mut future = lock.write(1);
    let guard = writer(&mut lock, &mut future);
    let mut r0 = request(&mut lock, RequestKind::Read);
    let mut r1 = request(&mut lock, RequestKind::Read);
    let mut w0 = request(&mut lock, RequestKind::Write);
    let guard = WriteGuard::downgrade(guard, &mut lock);
    assert_eq!(lock.state(), 3);
    assert!(granted(&mut r0) && granted(&mut r1) && !granted(&mut w0));
    ReadGuard::release(guard, &mut lock);
    assert_eq!(lock.state(), 2);
}

#[test]
fn upgrades_come_before_requests() {
    let mut lock = QrwLock::new(0i32);
    let mut fr0 = lock.read(0);
    let mut fr1 = lock.read(1);
    let g0 = reader(&mut lock, &mut fr0);
    let g1 = reader(&mut lock, &mut fr1);
    let mut w = request(&mut lock, RequestKind::Write);

    let mut up0 = ReadGuard::upgrade(g0, &mut lock);
    assert_eq!(lock.state(), 1);
    assert!(up0.poll(&mut lock).unwrap().is_none());
    // A second upgrade of the only reader left waits behind the first.
    let mut up1 = ReadGuard::upgrade(g1, &mut lock);
    assert_eq!(lock.state(), 0);

    // Nobody holds the lock, and the first upgrade gets it.
    assert!(up1.poll(&mut lock).unwrap().is_none());
    assert_eq!(lock.state(), WRITE_LOCKED);
    let guard = up0.poll(&mut lock).unwrap().unwrap();
    assert_eq!(WriteGuard::release(guard, &mut lock), 0);
    assert!(!granted(&mut w));
    let guard = up1.poll(&mut lock).unwrap().unwrap();
    assert_eq!(WriteGuard::release(guard, &mut lock), 1);
    assert!(granted(&mut w));
}

#[test]
fn upgrades_of_those_that_are_gone_are_passed_over() {
    let mut lock = QrwLock::new(0i32);
    let mut fr0 = lock.read(0);
    let mut fr1 = lock.read(1);
    let g0 = reader(&mut lock, &mut fr0);
    let g1 = reader(&mut lock, &mut fr1);
    let mut up0 = ReadGuard::upgrade(g0, &mut lock);
    up0.cancel(&mut lock);
    let mut r = request(&mut lock, RequestKind::Read);
    ReadGuard::release(g1, &mut lock);
    assert_eq!(lock.state(), 1);
    assert!(granted(&mut r));
}

#[test]
fn many_upgrades_take_turns() {
    let mut lock = QrwLock::new(0i32);
    let upgrade_count = 12;
    let mut readers = Vec::new();
    let mut upgraders = Vec::new();
    for i in 0..upgrade_count {
        readers.push(lock.read(i));
        upgraders.push(lock.read(i));
    }
    let mut read_guards = Vec::new();
    for future in readers.iter_mut() {
        read_guards.push(reader(&mut lock, future));
    }
    assert_eq!(lock.read_count(), Some(2 * upgrade_count));
    let mut upgrades = Vec::new();
    for future in upgraders.iter_mut() {
        let guard = reader(&mut lock, future);
        upgrades.push(ReadGuard::upgrade(guard, &mut lock));
    }
    assert_eq!(lock.read_count(), Some(upgrade_count));
    for guard in read_guards {
        ReadGuard::release(guard, &mut lock);
    }
    for upgrade in upgrades.iter_mut() {
        let mut guard = upgrade.poll(&mut lock).unwrap().unwrap();
        *guard.deref_mut(&mut lock) += 1;
        WriteGuard::release(guard, &mut lock);
    }
    let mut future = lock.read(0);
    let guard = reader(&mut lock, &mut future);
    assert_eq!(*guard.deref(&lock), upgrade_count as i32);
}

#[test]
fn reads_see_the_writes_before_them() {
    let mut lock = QrwLock::new(0i32);
    let loop_count = 15;
    let redundancy_count = 700;
    let mut writes = Vec::new();
    let mut reads = Vec::new();
    for i in 0..loop_count {
        writes.push(lock.write(i));
        reads.push(lock.read(i));
    }
    for i in 0..loop_count {
        // The read cannot come before the write.
        assert!(reads[i as usize].poll(&mut lock).unwrap().is_none());
        let mut guard = writer(&mut lock, &mut writes[i as usize]);
        for _ in 0..redundancy_count {
            *guard.deref_mut(&mut lock) += 1;
        }
        WriteGuard::release(guard, &mut lock);
        let guard = reader(&mut lock, &mut reads[i as usize]);
        assert_eq!(*guard.deref(&lock), redundancy_count * (i as i32 + 1));
        ReadGuard::release(guard, &mut lock);
    }
    assert_eq!(*lock.get_mut().unwrap(), loop_count as i32 * redundancy_count);
}

#[test]
fn a_canceled_read_that_was_granted_is_released() {
    let mut lock = QrwLock::new(0i32);
    let mut future = lock.read(0);
    let mut w = request(&mut lock, RequestKind::Write);
    lock.process_queues();
    assert_eq!(lock.state(), 1);
    future.cancel(&mut lock);
    assert_eq!(lock.state(), WRITE_LOCKED);
    assert!(granted(&mut w));
    // A second time there is nothing left to give up.
    future.cancel(&mut lock);
    assert_eq!(lock.state(), WRITE_LOCKED);
}

#[test]
fn a_canceled_write_that_was_granted_is_released() {
    let mut lock = QrwLock::new(0i32);
    let mut future = lock.write(0);
    let mut r = request(&mut lock, RequestKind::Read);
    lock.process_queues();
    assert_eq!(lock.state(), WRITE_LOCKED);
    future.cancel(&mut lock);
    assert_eq!(lock.state(), 1);
    assert!(granted(&mut r));
}

#[test]
fn canceled_requests_that_wait_are_withdrawn() {
    let mut lock = QrwLock::new(0i32);
    let mut held = lock.write(0);
    let guard = writer(&mut lock, &mut held);
    let mut read = lock.read(1);
    let mut write = lock.write(2);
    read.cancel(&mut lock);
    write.cancel(&mut lock);
    assert_eq!(lock.state(), WRITE_LOCKED);
    let mut last = lock.write(3);
    WriteGuard::release(guard, &mut lock);
    let guard = writer(&mut lock, &mut last);
    assert_eq!(WriteGuard::release(guard, &mut lock), 3);
    assert_eq!(lock.state(), 0);
}

#[test]
fn canceled_upgrades_are_released() {
    let mut lock = QrwLock::new(0i32);
    let mut future = lock.read(0);
    let guard = reader(&mut lock, &mut future);
    let mut upgrade = ReadGuard::upgrade(guard, &mut lock);
    assert_eq!(lock.state(), WRITE_LOCKED);
    upgrade.cancel(&mut lock);
    assert_eq!(lock.state(), 0);

    let mut f0 = lock.read(0);
    let mut f1 = lock.read(1);
    let g0 = reader(&mut lock, &mut f0);
    let g1 = reader(&mut lock, &mut f1);
    let mut upgrade = ReadGuard::upgrade(g0, &mut lock);
    ReadGuard::release(g1, &mut lock);
    assert_eq!(lock.state(), WRITE_LOCKED);
    upgrade.cancel(&mut lock);
    assert_eq!(lock.state(), 0);
}

#[test]
fn abandoning_follows_what_was_received() {
    let mut lock = QrwLock::new(0i32);
    let mut f0 = lock.read(0);
    let mut f1 = lock.read(1);
    let mut f2 = lock.read(2);
    lock.process_queues();
    assert_eq!(lock.state(), 3);
    f0.abandon(&mut lock, Ok(None));
    assert_eq!(lock.state(), 3);
    f1.abandon(&mut lock, Err(RequestCanceled));
    assert_eq!(lock.state(), 3);
    f2.abandon(&mut lock, Ok(Some(())));
    assert_eq!(lock.state(), 2);
    f2.abandon(&mut lock, Ok(Some(())));
    assert_eq!(lock.state(), 2);
}

#[test]
fn resolving_follows_what_was_received() {
    let mut lock = QrwLock::new(0i32);
    let mut read = lock.read(8);
    assert!(read.resolve(&lock, Ok(None)).unwrap().is_none());
    assert_eq!(read.resolve(&lock, Err(RequestCanceled)).err(), Some(RequestCanceled));
    let guard = read.resolve(&lock, Ok(Some(()))).unwrap().unwrap();
    lock.process_queues();
    assert_eq!(ReadGuard::release(guard, &mut lock), 8);

    let mut write = lock.write(9);
    assert!(write.resolve(&lock, Ok(None)).unwrap().is_none());
    assert_eq!(write.resolve(&lock, Err(RequestCanceled)).err(), Some(RequestCanceled));
    let guard = write.resolve(&lock, Ok(Some(()))).unwrap().unwrap();
    lock.process_queues();
    assert_eq!(WriteGuard::release(guard, &mut lock), 9);
}

#[test]
fn a_request_to_a_lock_that_is_gone_is_canceled() {
    let mut gone = QrwLock::new(0i32);
    let mut read = gone.read(0);
    let mut write = gone.write(1);
    drop(gone);
    let mut lock = QrwLock::new(0i32);
    assert_eq!(read.poll(&mut lock).err(), Some(RequestCanceled));
    assert_eq!(write.poll(&mut lock).err(), Some(RequestCanceled));
}

#[test]
fn the_receiver_can_be_lent() {
    let mut lock = QrwLock::new(0i32);
    let mut future = lock.read(0);
    lock.process_queues();
    assert!(granted(future.receiver_mut()));

    let mut first = lock.read(1);
    let guard = reader(&mut lock, &mut first);
    let mut upgrade = ReadGuard::upgrade(guard, &mut lock);
    lock.release_read_lock();
    assert!(granted(upgrade.receiver_mut().unwrap()));
}

#[test]
fn upgrade_read_lock_returns_what_to_wait_on() {
    let mut lock = QrwLock::new(0i32);
    let mut r0 = request(&mut lock, RequestKind::Read);
    let mut r1 = request(&mut lock, RequestKind::Read);
    lock.process_queues();
    assert!(granted(&mut r0) && granted(&mut r1));
    let mut rx = lock.upgrade_read_lock().err().unwrap();
    assert_eq!(lock.state(), 1);
    assert_eq!(rx.try_recv(), Ok(None));
    lock.release_read_lock();
    assert_eq!(lock.state(), WRITE_LOCKED);
    assert!(granted(&mut rx));
    lock.downgrade_write_lock();
    assert_eq!(lock.state(), 1);
    assert!(lock.upgrade_read_lock().is_ok());
    assert_eq!(lock.state(), WRITE_LOCKED);
}

#[test]
fn words_say_what_they_admit() {
    assert!(word_admits(0, RequestKind::Read));
    assert!(word_admits(0, RequestKind::Write));
    assert!(word_admits(5, RequestKind::Read));
    assert!(!word_admits(5, RequestKind::Write));
    assert!(!word_admits(READ_COUNT_MASK, RequestKind::Read));
    assert!(!word_admits(WRITE_LOCKED, RequestKind::Read));
    assert!(!word_admits(WRITE_LOCKED, RequestKind::Write));
    assert_eq!(word_granted(0, RequestKind::Read), 1);
    assert_eq!(word_granted(READ_COUNT_MASK - 1, RequestKind::Read), READ_COUNT_MASK);
    assert_eq!(word_granted(0, RequestKind::Write), WRITE_LOCKED);
}

#[test]
fn handles_of_a_lock_stay_with_futures_and_guards() {
    let mut lock = QrwLock::new(0i32);
    let mut future = lock.read(12);
    assert_eq!(future.lock(), Some(&12));
    let guard = reader(&mut lock, &mut future);
    assert_eq!(future.lock(), None);
    assert_eq!(*guard.lock(), 12);
    let mut upgrade = ReadGuard::upgrade(guard, &mut lock);
    assert_eq!(upgrade.lock(), Some(&12));
    let guard = upgrade.poll(&mut lock).unwrap().unwrap();
    assert_eq!(upgrade.lock(), None);
    assert_eq!(*guard.lock(), 12);
    WriteGuard::release(guard, &mut lock);
    let mut future = lock.write(13);
    assert_eq!(future.lock(), Some(&13));
    assert_eq!(*writer(&mut lock, &mut future).lock(), 13);
}

#[test]
fn an_upgrade_resolves_by_what_was_received() {
    let mut lock = QrwLock::new(0i32);
    let mut f0 = lock.read(0);
    let mut f1 = lock.read(1);
    let g0 = reader(&mut lock, &mut f0);
    let _g1 = reader(&mut lock, &mut f1);
    let mut upgrade = ReadGuard::upgrade(g0, &mut lock);
    assert!(upgrade.resolve(&lock, Ok(None)).unwrap().is_none());
    assert_eq!(upgrade.resolve(&lock, Err(RequestCanceled)).err(), Some(RequestCanceled));
    upgrade.abandon(&mut lock, Ok(None));
    assert_eq!(lock.state(), 1);
    assert_eq!(upgrade.lock(), None);
}

#[test]
fn a_waiter_who_withdrew_is_never_granted() {
    let mut lock = QrwLock::new(0i32);
    let mut read = lock.read(0);
    let mut write = lock.write(1);
    read.cancel(&mut lock);
    write.cancel(&mut lock);
    lock.process_queues();
    assert_eq!(lock.state(), 0);

    let mut first = lock.write(2);
    let mut gone = lock.write(3);
    let mut last = lock.read(4);
    let guard = writer(&mut lock, &mut first);
    gone.cancel(&mut lock);
    WriteGuard::release(guard, &mut lock);
    assert_eq!(lock.state(), 1);
    let guard = reader(&mut lock, &mut last);
    ReadGuard::release(guard, &mut lock);
    assert_eq!(lock.state(), 0);
}

#[test]
fn an_upgrader_who_withdrew_is_never_granted() {
    let mut lock = QrwLock::new(0i32);
    let mut first = lock.read(0);
    let mut second = lock.read(1);
    let first = reader(&mut lock, &mut first);
    let second = reader(&mut lock, &mut second);
    let mut upgrade = ReadGuard::upgrade(first, &mut lock);
    assert!(upgrade.poll(&mut lock).unwrap().is_none());
    upgrade.cancel(&mut lock);
    ReadGuard::release(second, &mut lock);
    assert_eq!(lock.state(), 0);
}

#[test]
fn a_waiter_who_stays_is_granted_in_turn() {
    let mut lock = QrwLock::new(0i32);
    let mut write = lock.write(0);
    let mut read = lock.read(1);
    let mut last = lock.write(2);
    let guard = writer(&mut lock, &mut write);
    for _ in 0..3 {
        assert!(read.poll(&mut lock).unwrap().is_none());
        assert!(last.poll(&mut lock).unwrap().is_none());
    }
    WriteGuard::release(guard, &mut lock);
    let guard = reader(&mut lock, &mut read);
    assert!(last.poll(&mut lock).unwrap().is_none());
    ReadGuard::release(guard, &mut lock);
    writer(&mut lock, &mut last);
    assert_eq!(lock.state(), WRITE_LOCKED);
}

#[test]
fn the_value_stays_until_it_is_changed() {
    let mut lock = QrwLock::new(1i32);
    *lock.get_mut().unwrap() = 2;
    let mut write = lock.write(0);
    let mut gone = lock.write(1);
    let mut guard = writer(&mut lock, &mut write);
    assert_eq!(*guard.deref(&lock), 2);
    *guard.deref_mut(&mut lock) = 3;
    gone.cancel(&mut lock);
    let guard = WriteGuard::downgrade(guard, &mut lock);
    assert_eq!(*guard.deref(&lock), 3);
    let mut upgrade = ReadGuard::upgrade(guard, &mut lock);
    let guard = upgrade.poll(&mut lock).unwrap().unwrap();
    assert_eq!(*guard.deref(&lock), 3);
    WriteGuard::release(guard, &mut lock);
    let mut read = lock.read(2);
    let guard = reader(&mut lock, &mut read);
    assert_eq!(*guard.deref(&lock), 3);
}

#[test]
fn granted_requests_make_up_the_word() {
    let mut lock = QrwLock::new(0i32);
    let mut reads = Vec::new();
    for _ in 0..3 {
        reads.push(request(&mut lock, RequestKind::Read));
    }
    let mut write = request(&mut lock, RequestKind::Write);
    lock.process_queues();
    assert_eq!(lock.state(), 3);
    assert!(reads.iter_mut().all(granted));
    assert!(!granted(&mut write));
    for _ in 0..3 {
        lock.release_read_lock();
    }
    assert_eq!(lock.state(), WRITE_LOCKED);
    assert!(granted(&mut write));
    lock.release_write_lock();
    assert_eq!(lock.state(), 0);

    for kind in [RequestKind::Write, RequestKind::Read, RequestKind::Write] {
        drop(request(&mut lock, kind));
    }
    lock.process_queues();
    assert_eq!(lock.state(), 0);
}

#[test]
fn a_read_that_was_granted_along_is_counted_and_given_back() {
    let mut lock = QrwLock::new(0i32);
    let mut first = lock.read(1);
    let mut second = lock.read(2);
    let guard = reader(&mut lock, &mut second);
    assert_eq!(lock.read_count(), Some(2));
    first.cancel(&mut lock);
    assert_eq!(lock.read_count(), Some(1));
    ReadGuard::release(guard, &mut lock);
    assert_eq!(lock.read_count(), Some(0));
    let mut write = lock.write(3);
    writer(&mut lock, &mut write);
}

#[test]
fn get_mut_is_refused_while_somebody_holds_the_lock() {
    let mut lock = QrwLock::new(1i32);
    let mut read = lock.read(0);
    let mut write = lock.write(1);
    assert_eq!(lock.get_mut(), Some(&mut 1));
    let guard = reader(&mut lock, &mut read);
    assert!(lock.get_mut().is_none());
    assert_eq!(*lock.get(), 1);
    ReadGuard::release(guard, &mut lock);
    let guard = writer(&mut lock, &mut write);
    assert!(lock.get_mut().is_none());
    WriteGuard::release(guard, &mut lock);
    assert_eq!(lock.get_mut(), Some(&mut 1));
}

#[test]
fn an_upgrade_tells_whether_it_waits() {
    let mut lock = QrwLock::new(0i32);
    let mut first = lock.read(0);
    let mut second = lock.read(1);
    let first = reader(&mut lock, &mut first);
    let second = reader(&mut lock, &mut second);
    let mut waiting = ReadGuard::upgrade(first, &mut lock);
    assert!(waiting.is_waiting());
    waiting.cancel(&mut lock);
    let mut third = lock.read(2);
    let third = reader(&mut lock, &mut third);
    ReadGuard::release(third, &mut lock);
    ReadGuard::release(second, &mut lock);
    let mut last = lock.read(3);
    let last = reader(&mut lock, &mut last);
    assert!(!ReadGuard::upgrade(last, &mut lock).is_waiting());
    assert_eq!(lock.state(), WRITE_LOCKED);
}

#[test]
fn readers_see_one_value_until_all_of_them_are_gone() {
    let mut lock = QrwLock::new(7i32);
    let mut first = lock.read(0);
    let mut second = lock.read(1);
    let mut write = lock.write(2);
    let first = reader(&mut lock, &mut first);
    let second = reader(&mut lock, &mut second);
    assert!(write.poll(&mut lock).unwrap().is_none());
    ReadGuard::release(first, &mut lock);
    assert!(write.poll(&mut lock).unwrap().is_none());
    assert_eq!(*second.deref(&lock), 7);
    ReadGuard::release(second, &mut lock);
    let mut guard = writer(&mut lock, &mut write);
    *guard.deref_mut(&mut lock) = 8;
    assert_eq!(*guard.deref(&lock), 8);
}
