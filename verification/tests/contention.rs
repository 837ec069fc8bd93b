use qutex::{Backoff, Contention, QrwLock};
use std::sync::atomic::AtomicUsize;
use std::sync::atomic::Ordering::SeqCst;

const CONTENDED: usize = 1 << 25;

#[test]
fn a_free_word_is_acquired() {
    let mut contention = Contention::new();
    assert_eq!(contention.observe(0), Backoff::Acquired(0));
    assert_eq!(contention.observe(7), Backoff::Acquired(7));
    assert_eq!(contention.observe(1 << 24), Backoff::Acquired(1 << 24));
}

#[test]
fn the_wait_doubles_until_the_thread_yields() {
    let mut contention = Contention::new();
    for i in 0..16 {
        assert_eq!(contention.observe(CONTENDED | 3), Backoff::Spin(2 << i));
    }
    for _ in 0..3 {
        assert_eq!(contention.observe(CONTENDED), Backoff::Yield);
    }
    assert_eq!(contention.observe(3), Backoff::Acquired(3));
}

#[test]
fn a_word_is_acquired_once() {
    let mut lock = QrwLock::new(0i32);
    let mut future = lock.read(0);
    assert!(future.poll(&mut lock).unwrap().is_some());
    let word = lock.state();
    assert_eq!(Contention::new().observe(word), Backoff::Acquired(1));
    assert_eq!(Contention::new().observe(word | CONTENDED), Backoff::Spin(2));
}

#[test]
fn a_word_is_acquired_again_once_it_is_handed_back() {
    let word = AtomicUsize::new(5);
    assert_eq!(Contention::new().observe(word.fetch_or(CONTENDED, SeqCst)), Backoff::Acquired(5));
    assert_eq!(word.load(SeqCst), CONTENDED | 5);
    let mut contention = Contention::new();
    assert_eq!(contention.observe(word.fetch_or(CONTENDED, SeqCst)), Backoff::Spin(2));
    assert_eq!(contention.observe(word.fetch_or(CONTENDED, SeqCst)), Backoff::Spin(4));
    word.store(4, SeqCst);
    assert_eq!(contention.observe(word.fetch_or(CONTENDED, SeqCst)), Backoff::Acquired(4));
}
