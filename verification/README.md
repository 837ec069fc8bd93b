# Qutex

Queue-backed data locks whose waiters are woken through one-shot channels instead of blocking a
thread. `Qutex` gives exclusive access to a value, `QrwLock` shared or exclusive access with
upgrades and downgrades. The locks are verified with Verus.

## Layout

- `src/` is the verified library. A lock there is the lock itself, worked on through `&mut`.
  - `serving` says whom a lock admits and in which order requests are answered.
  - `qrw_lock` and `qutex` are the locks, `qrw_guard` the futures and guards of a `QrwLock`.
  - `wait_queue` and `channel` hold what is taken on trust from `crossbeam` and `futures`.
  - `contention` decides how a thread competes for the right to work on a lock.
  - `laws` and `runs` state what holds of the operations together: mutual exclusion of those who
    hold a lock and of their guards, first come first served, a waiter who stays is granted the
    lock, one who withdraws is passed over or gives the lock back, reads give back the last write,
    reads chained, upgrades first. What they say of a waiter ends where the receiver of its future
    is lent to somebody, as it must be to arrange for a wakeup: the borrower may close or empty it.
- `app/` shares a lock between threads: reference-counted handles, guards that release on drop,
  `futures::Future` and `async` methods. A task must not be polled from within the notification
  of its grant.
- `tests/` exercises the library with real queues and channels.

## Example

```rust
use qutex::{Guard, Qutex};

let mut qutex = Qutex::new(0);
let mut future = qutex.lock("handle");
if let Ok(Some(mut guard)) = future.poll(&mut qutex) {
    *guard.deref_mut(&mut qutex) += 1;
    let handle = Guard::unlock(guard, &mut qutex);
    assert_eq!(handle, "handle");
}
```
