//! Aggregate write statistics kept by the worker pool.

use vstd::prelude::*;

verus! {

/// Counters of what the pool has handed to the backend so far: every write
/// that reaches the backend adds the payload length to `new_bytes` and one
/// to `new_chunks`. Both are non-decreasing over the life of the pool.
#[derive(Clone, Copy, Debug)]
pub struct WriteStats {
    pub new_chunks: usize,
    pub new_bytes: u64,
}

impl WriteStats {
    /// Fresh counters, all zero.
    pub fn zero() -> (r: WriteStats)
        ensures
            r.new_chunks == 0,
            r.new_bytes == 0,
    {
        WriteStats { new_chunks: 0, new_bytes: 0 }
    }

    /// Account for one write of `len` bytes that reached the backend.
    pub fn record_write(&mut self, len: usize)
        requires
            old(self).new_chunks < usize::MAX,
            old(self).new_bytes + len <= u64::MAX,
        ensures
            final(self).new_chunks == old(self).new_chunks + 1,
            final(self).new_bytes == old(self).new_bytes + len,
    {
        self.new_chunks = self.new_chunks + 1;
        self.new_bytes = self.new_bytes + len as u64;
    }
}

} // verus!
