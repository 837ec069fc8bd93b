//! Queue-backed data locks whose waiters are woken through one-shot channels instead of blocking
//! a thread.
//!
//! [`Qutex`] gives exclusive access to a value, [`QrwLock`] shared or exclusive access. A lock
//! here is the lock itself and not a shared handle to it: every operation takes `&mut` access to
//! it, which is the access that winning the `CONTENDED` bit of a lock word confers (see
//! [`Contention`]). Futures and guards carry the handle `L` by which their owner finds the lock
//! again, and hand it back when they are released.

pub mod channel;
pub mod contention;
pub mod laws;
pub mod qrw_guard;
pub mod qrw_lock;
pub mod qutex;
pub mod request;
pub mod runs;
pub mod serving;
pub mod wait_queue;

pub use channel::RequestCanceled;
pub use contention::{Backoff, Contention};
pub use qrw_guard::{FutureReadGuard, FutureUpgrade, FutureWriteGuard, ReadGuard, WriteGuard};
pub use qrw_lock::QrwLock;
pub use qutex::{FutureGuard, Guard, Qutex};
pub use request::{QrwRequest, Request, RequestKind};
