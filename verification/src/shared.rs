//! State shared by all workers of one pool: the aggregate write statistics
//! and the path-keyed in-progress registry. In a running pool every worker
//! mutates this state under one mutex; the operations here are the verified
//! transitions taken while that mutex is held.

use vstd::prelude::*;

use crate::pending::InProgressSet;
use crate::stats::WriteStats;

verus! {

/// Write statistics and the in-progress registry, guarded together.
pub struct AsyncIOThreadShared {
    write_stats: WriteStats,
    in_progress: InProgressSet,
}

impl AsyncIOThreadShared {
    /// The current statistics.
    pub closed spec fn stats(&self) -> WriteStats {
        self.write_stats
    }

    /// The set of paths currently held by workers.
    pub closed spec fn in_progress(&self) -> Set<Seq<u8>> {
        self.in_progress@
    }

    pub closed spec fn wf(&self) -> bool {
        self.in_progress.wf()
    }

    /// Fresh shared state: zero counters, no path in progress.
    pub fn new() -> (r: Self)
        ensures
            r.wf(),
            r.stats().new_chunks == 0,
            r.stats().new_bytes == 0,
            r.in_progress() == Set::<Seq<u8>>::empty(),
    {
        AsyncIOThreadShared { write_stats: WriteStats::zero(), in_progress: InProgressSet::new() }
    }

    /// A snapshot of the aggregate write statistics.
    pub fn get_stats(&self) -> (r: WriteStats)
        ensures
            r == self.stats(),
    {
        self.write_stats
    }

    /// One attempt to take exclusion on `path`: succeeds and registers the
    /// path exactly when no worker holds it; otherwise changes nothing. A
    /// worker that needs the path and is refused retries after a pause.
    pub fn try_acquire(&mut self, path: &Vec<u8>) -> (r: bool)
        requires
            old(self).wf(),
        ensures
            final(self).wf(),
            final(self).stats() == old(self).stats(),
            r == !old(self).in_progress().contains(path@),
            r ==> final(self).in_progress() == old(self).in_progress().insert(path@),
            !r ==> *final(self) == *old(self),
    {
        if self.in_progress.contains(path) {
            false
        } else {
            self.in_progress.insert(path);
            true
        }
    }

    /// Release exclusion on a held path.
    pub fn release(&mut self, path: &Vec<u8>)
        requires
            old(self).wf(),
            old(self).in_progress().contains(path@),
        ensures
            final(self).wf(),
            final(self).stats() == old(self).stats(),
            final(self).in_progress() == old(self).in_progress().remove(path@),
    {
        self.in_progress.remove(path);
    }

    /// Account for one write of `len` bytes handed to the backend.
    pub fn record_write(&mut self, len: usize)
        requires
            old(self).wf(),
            old(self).stats().new_chunks < usize::MAX,
            old(self).stats().new_bytes + len <= u64::MAX,
        ensures
            final(self).wf(),
            final(self).in_progress() == old(self).in_progress(),
            final(self).stats().new_chunks == old(self).stats().new_chunks + 1,
            final(self).stats().new_bytes == old(self).stats().new_bytes + len,
    {
        self.write_stats.record_write(len);
    }

    /// A snapshot handle onto the same statistics and registry contents.
    pub fn duplicate(&self) -> (r: Self)
        ensures
            r.stats() == self.stats(),
            r.in_progress() == self.in_progress(),
            r.wf() == self.wf(),
    {
        AsyncIOThreadShared {
            write_stats: self.write_stats,
            in_progress: self.in_progress.duplicate(),
        }
    }

    /// Whether no path is in progress; true between operations of a
    /// single-owner pool and at teardown.
    pub fn in_progress_is_empty(&self) -> (r: bool)
        ensures
            r == self.in_progress().is_empty(),
    {
        self.in_progress.is_empty()
    }
}

} // verus!
