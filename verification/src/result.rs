//! The result handle a submission returns: a one-shot receiver over the
//! operation's reply.

use vstd::prelude::*;

use crate::errors::IoError;

verus! {

/// A one-shot handle onto the reply of one submitted operation. Exactly
/// one reply is composed for it when the operation is processed; `wait`
/// consumes the handle and yields that reply, so each reply is delivered
/// exactly once.
#[must_use]
pub struct AsyncIOResult<T> {
    result: Result<T, IoError>,
}

impl<T> AsyncIOResult<T> {
    /// The one reply this handle carries.
    pub closed spec fn reply(&self) -> Result<T, IoError> {
        self.result
    }

    /// Wrap a processed operation's reply into a handle.
    pub fn ready(result: Result<T, IoError>) -> (r: Self)
        ensures
            r.reply() == result,
    {
        AsyncIOResult { result }
    }

    /// Block until the reply arrives and return it: exactly the one reply
    /// the operation produced, delivered once.
    pub fn wait(self) -> (r: Result<T, IoError>)
        ensures
            r == self.reply(),
    {
        self.result
    }
}

} // verus!
