//! The whole-repository advisory lock: callers take it shared or exclusive
//! to coordinate access to the repository as a whole, independently of the
//! per-path exclusion the workers use. Any number of shared holders may
//! coexist; an exclusive holder excludes everyone else.

use vstd::prelude::*;

use crate::errors::{IoError, IoErrorKind};

verus! {

/// The repository lock's state: how many shared holders, and whether an
/// exclusive holder exists. Never both.
pub struct RepoLock {
    readers: usize,
    writer: bool,
}

impl RepoLock {
    /// How many shared holders there are.
    pub closed spec fn readers(&self) -> nat {
        self.readers as nat
    }

    /// Whether an exclusive holder exists.
    pub closed spec fn writer(&self) -> bool {
        self.writer
    }

    /// Shared and exclusive holders never coexist.
    pub closed spec fn wf(&self) -> bool {
        !(self.writer && self.readers > 0)
    }

    /// A released lock.
    pub fn new() -> (r: Self)
        ensures
            r.wf(),
            r.readers() == 0,
            !r.writer(),
    {
        RepoLock { readers: 0, writer: false }
    }

    /// Take the lock shared: granted exactly when no exclusive holder
    /// exists; a refused caller retries once the holder releases.
    pub fn lock_shared(&mut self) -> (r: Result<(), IoError>)
        requires
            old(self).wf(),
            old(self).readers() < usize::MAX,
        ensures
            final(self).wf(),
            r is Ok <==> !old(self).writer(),
            r is Ok ==> final(self).readers() == old(self).readers() + 1 && !final(self).writer(),
            r matches Err(e) ==> *final(self) == *old(self) && e.kind == IoErrorKind::Interrupted,
    {
        if self.writer {
            Err(IoError { kind: IoErrorKind::Interrupted })
        } else {
            self.readers = self.readers + 1;
            Ok(())
        }
    }

    /// Release one shared hold.
    pub fn unlock_shared(&mut self)
        requires
            old(self).wf(),
            old(self).readers() > 0,
        ensures
            final(self).wf(),
            final(self).readers() == old(self).readers() - 1,
            final(self).writer() == old(self).writer(),
    {
        self.readers = self.readers - 1;
    }

    /// Take the lock exclusive: granted exactly when nobody holds the lock
    /// at all.
    pub fn lock_exclusive(&mut self) -> (r: Result<(), IoError>)
        requires
            old(self).wf(),
        ensures
            final(self).wf(),
            r is Ok <==> !old(self).writer() && old(self).readers() == 0,
            r is Ok ==> final(self).writer() && final(self).readers() == 0,
            r matches Err(e) ==> *final(self) == *old(self) && e.kind == IoErrorKind::Interrupted,
    {
        if self.writer || self.readers > 0 {
            Err(IoError { kind: IoErrorKind::Interrupted })
        } else {
            self.writer = true;
            Ok(())
        }
    }

    /// Release the exclusive hold.
    pub fn unlock_exclusive(&mut self)
        requires
            old(self).wf(),
            old(self).writer(),
        ensures
            final(self).wf(),
            !final(self).writer(),
            final(self).readers() == old(self).readers(),
    {
        self.writer = false;
    }
}

/// Exclusion law of the repository lock: while an exclusive hold exists no
/// shared hold exists, and the other way round — the two modes never
/// overlap.
pub proof fn lemma_lock_modes_exclusive(lock: RepoLock)
    requires
        lock.wf(),
    ensures
        lock.writer() ==> lock.readers() == 0,
        lock.readers() > 0 ==> !lock.writer(),
{
}

} // verus!
