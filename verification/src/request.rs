//! What the waiters of a lock ask for.

use futures::sync::oneshot::Sender;
use vstd::prelude::*;

verus! {

/// Specifies whether a `QrwRequest` is a read or write request.
#[derive(Debug, Clone, Copy, PartialEq, Eq, Structural)]
pub enum RequestKind {
    Read,
    Write,
}

/// A request to lock the lock for either read or write access.
#[derive(Debug)]
pub struct QrwRequest {
    /// Where the grant is sent.
    pub tx: Sender<()>,
    /// The access asked for.
    pub kind: RequestKind,
}

impl QrwRequest {
    /// Returns a new `QrwRequest`.
    pub fn new(tx: Sender<()>, kind: RequestKind) -> (request: QrwRequest)
        ensures
            request == (QrwRequest { tx, kind }),
    {
        QrwRequest { tx, kind }
    }
}

/// A request to lock the qutex for exclusive access.
#[derive(Debug)]
pub struct Request {
    /// Where the grant is sent.
    pub tx: Sender<()>,
}

impl Request {
    /// Returns a new `Request`.
    pub fn new(tx: Sender<()>) -> (request: Request)
        ensures
            request == (Request { tx }),
    {
        Request { tx }
    }

    /// The request as it waits in a queue: one for exclusive access is one to write.
    pub open spec fn as_write(self) -> QrwRequest {
        QrwRequest { tx: self.tx, kind: RequestKind::Write }
    }
}

} // verus!
