use futures::sync::oneshot;
use qutex::{FutureGuard, Guard, Qutex, Request, RequestCanceled};

/// Polls `future` and expects its guard.
fn locked<T>(qutex: &mut Qutex<T>, future: &mut FutureGuard<u32>) -> Guard<u32> {
    match future.poll(qutex) {
        Ok(Some(guard)) => guard,
        _ => panic!("no guard"),
    }
}

fn request(qutex: &mut Qutex<i32>) -> oneshot::Receiver<()> {
    let (tx, rx) = oneshot::channel();
    qutex.push_request(Request::new(tx));
    rx
}

#[test]
fn qutex_simple() {
    let mut val = Qutex::from(999i32);

    println!("Reading val...");
    {
        let mut future_guard = val.lock(0);
        let guard = locked(&mut val, &mut future_guard);
        println!("val: {}", *guard.deref(&val));
        assert_eq!(*guard.deref(&val), 999);
        Guard::unlock(guard, &mut val);
    }

    println!("Storing new val...");
    {
        let mut future_guard = val.lock(1);
        let mut guard = locked(&mut val, &mut future_guard);
        *guard.deref_mut(&mut val) = 5;
        Guard::unlock(guard, &mut val);
    }

    println!("Reading val...");
    {
        let mut future_guard = val.lock(2);
        let guard = locked(&mut val, &mut future_guard);
        println!("val: {}", *guard.deref(&val));
        assert_eq!(*guard.deref(&val), 5);
        Guard::unlock(guard, &mut val);
    }
}

#[test]
fn unlock_actually_unlocks() {
    let mut qutex = Qutex::new(0i32);
    let mut first = qutex.lock(3);
    let mut second = qutex.lock(4);
    let guard = locked(&mut qutex, &mut first);
    assert!(qutex.is_locked());
    assert!(second.poll(&mut qutex).unwrap().is_none());
    assert_eq!(Guard::unlock(guard, &mut qutex), 3);
    let guard = locked(&mut qutex, &mut second);
    assert_eq!(Guard::unlock(guard, &mut qutex), 4);
    assert!(!qutex.is_locked());
}

#[test]
fn holders_take_turns() {
    let thread_count = 20;
    let start_val = 0i32;
    let mut qutex = Qutex::new(start_val);
    let mut futures = Vec::new();
    for i in 0..2 * thread_count {
        futures.push(qutex.lock(i));
    }
    for i in (0..2 * thread_count as usize).rev() {
        if i > 0 {
            assert!(futures[i].poll(&mut qutex).unwrap().is_none());
        }
    }
    for (i, future) in futures.iter_mut().enumerate() {
        let mut guard = locked(&mut qutex, future);
        if i < thread_count as usize {
            *guard.deref_mut(&mut qutex) += 1;
            assert_eq!(*guard.deref(&qutex), i as i32 + 1);
        } else {
            *guard.deref_mut(&mut qutex) -= 1;
        }
        assert_eq!(Guard::unlock(guard, &mut qutex), i as u32);
    }
    let mut future = qutex.lock(0);
    let guard = locked(&mut qutex, &mut future);
    assert_eq!(*guard.deref(&qutex), start_val);
}

#[test]
fn requests_are_granted_one_at_a_time() {
    let mut qutex = Qutex::new(0i32);
    let mut first = request(&mut qutex);
    drop(request(&mut qutex));
    let mut second = request(&mut qutex);
    assert!(!qutex.is_locked());
    qutex.process_queue();
    assert!(qutex.is_locked());
    assert_eq!(first.try_recv(), Ok(Some(())));
    assert_eq!(second.try_recv(), Ok(None));
    qutex.process_queue();
    assert_eq!(second.try_recv(), Ok(None));
    qutex.direct_unlock();
    assert!(qutex.is_locked());
    assert_eq!(second.try_recv(), Ok(Some(())));
    qutex.direct_unlock();
    assert!(!qutex.is_locked());
}

#[test]
fn a_qutex_whose_requesters_are_gone_stays_unlocked() {
    let mut qutex = Qutex::new(0i32);
    drop(request(&mut qutex));
    drop(request(&mut qutex));
    qutex.process_queue();
    assert!(!qutex.is_locked());
}

#[test]
fn canceling_unlocks_if_granted_and_withdraws_if_not() {
    let mut qutex = Qutex::new(0i32);
    let mut first = qutex.lock(0);
    let mut second = qutex.lock(1);
    let mut third = qutex.lock(2);
    qutex.process_queue();
    second.cancel(&mut qutex);
    assert!(qutex.is_locked());
    first.cancel(&mut qutex);
    let guard = locked(&mut qutex, &mut third);
    assert_eq!(Guard::unlock(guard, &mut qutex), 2);
    assert!(!qutex.is_locked());
    third.cancel(&mut qutex);
    assert!(!qutex.is_locked());
}

#[test]
fn abandoning_a_qutex_follows_what_was_received() {
    let mut qutex = Qutex::new(0i32);
    let mut first = qutex.lock(0);
    let mut second = qutex.lock(1);
    let mut third = qutex.lock(2);
    qutex.process_queue();
    second.abandon(&mut qutex, Ok(None));
    third.abandon(&mut qutex, Err(RequestCanceled));
    assert!(qutex.is_locked());
    drop(second);
    drop(third);
    first.abandon(&mut qutex, Ok(Some(())));
    assert!(!qutex.is_locked());
}

#[test]
fn resolving_a_qutex_follows_what_was_received() {
    let mut qutex = Qutex::new(0i32);
    let mut future = qutex.lock(6);
    assert!(future.resolve(&qutex, Ok(None)).unwrap().is_none());
    assert_eq!(future.resolve(&qutex, Err(RequestCanceled)).err(), Some(RequestCanceled));
    let guard = future.resolve(&qutex, Ok(Some(()))).unwrap().unwrap();
    assert_eq!(Guard::unlock(guard, &mut qutex), 6);
}

#[test]
fn a_request_to_a_qutex_that_is_gone_is_canceled() {
    let mut gone = Qutex::new(0i32);
    let mut future = gone.lock(0);
    drop(gone);
    let mut qutex = Qutex::new(0i32);
    assert_eq!(future.poll(&mut qutex).err(), Some(RequestCanceled));
}

#[test]
fn the_receiver_of_a_qutex_can_be_lent() {
    let mut qutex = Qutex::new(0i32);
    let mut future = qutex.lock(0);
    assert_eq!(future.receiver_mut().try_recv(), Ok(None));
    qutex.process_queue();
    assert_eq!(future.receiver_mut().try_recv(), Ok(Some(())));
}

#[test]
fn get_mut_reaches_the_value_of_a_qutex() {
    let mut qutex = Qutex::new(3i32);
    *qutex.get_mut().unwrap() += 1;
    let mut future = qutex.lock(0);
    let guard = locked(&mut qutex, &mut future);
    assert_eq!(*guard.deref(&qutex), 4);
}

#[test]
fn every_holder_adds_to_the_value() {
    let holder_count = 100;
    let start_val = 0i32;
    let mut qutex = Qutex::new(start_val);
    let mut futures = Vec::new();
    for i in 0..holder_count {
        futures.push(qutex.lock(i));
    }
    for future in futures.iter_mut() {
        let mut guard = locked(&mut qutex, future);
        *guard.deref_mut(&mut qutex) += 1;
        Guard::unlock(guard, &mut qutex);
    }
    let mut future = qutex.lock(0);
    let guard = locked(&mut qutex, &mut future);
    assert_eq!(*guard.deref(&qutex), start_val + holder_count as i32);
}

#[test]
fn handles_stay_with_futures_and_guards() {
    let mut qutex = Qutex::new(0i32);
    let mut future = qutex.lock(12);
    assert_eq!(future.qutex(), Some(&12));
    let guard = locked(&mut qutex, &mut future);
    assert_eq!(future.qutex(), None);
    assert_eq!(*guard.qutex(), 12);
}

#[test]
fn a_waiter_who_withdrew_never_gets_the_qutex() {
    let mut qutex = Qutex::new(0i32);
    let mut gone = qutex.lock(0);
    gone.cancel(&mut qutex);
    qutex.process_queue();
    assert!(!qutex.is_locked());

    let mut first = qutex.lock(1);
    let mut gone = qutex.lock(2);
    let mut last = qutex.lock(3);
    let guard = locked(&mut qutex, &mut first);
    gone.cancel(&mut qutex);
    Guard::unlock(guard, &mut qutex);
    assert!(qutex.is_locked());
    let guard = locked(&mut qutex, &mut last);
    assert_eq!(Guard::unlock(guard, &mut qutex), 3);
    assert!(!qutex.is_locked());
}

#[test]
fn the_value_of_a_qutex_stays_until_it_is_changed() {
    let mut qutex = Qutex::new(1i32);
    *qutex.get_mut().unwrap() = 2;
    let mut first = qutex.lock(0);
    let mut gone = qutex.lock(1);
    let mut last = qutex.lock(2);
    let mut guard = locked(&mut qutex, &mut first);
    assert_eq!(*guard.deref(&qutex), 2);
    *guard.deref_mut(&mut qutex) = 3;
    gone.cancel(&mut qutex);
    Guard::unlock(guard, &mut qutex);
    let guard = locked(&mut qutex, &mut last);
    assert_eq!(*guard.deref(&qutex), 3);
}

#[test]
fn get_mut_is_refused_while_somebody_holds_the_qutex() {
    let mut qutex = Qutex::new(1i32);
    let mut future = qutex.lock(0);
    assert_eq!(qutex.get_mut(), Some(&mut 1));
    let guard = locked(&mut qutex, &mut future);
    assert!(qutex.get_mut().is_none());
    assert_eq!(*qutex.get(), 1);
    Guard::unlock(guard, &mut qutex);
    assert_eq!(qutex.get_mut(), Some(&mut 1));
}
