//! The pool facade: the handle through which callers submit operations.
//! Each submission composes a message, has it processed, and returns a
//! one-shot result handle. Between submissions no path is in flight, so a
//! submission never waits on the in-progress registry.

use vstd::prelude::*;

use crate::backend::{dir_exists, listing_covers, scope_set, MemBackend, Metadata};
use crate::batch::{batches_view, concat_all, flatten_batches, paths_view};
use crate::bytes::{in_scope, is_direct_child, joined};
use crate::errors::{IoError, IoErrorKind};
use crate::lock::RepoLock;
use crate::result::AsyncIOResult;
use crate::sgdata::SGData;
use crate::shared::AsyncIOThreadShared;
use crate::worker::AsyncIOThread;

verus! {

/// Relies on num_cpus::get: the number of logical CPUs of the machine the
/// pool runs on, which is always at least one.
#[verifier::external_body]
fn logical_cpus() -> (r: usize)
    ensures
        1 <= r,
{
    num_cpus::get()
}

/// How many workers a pool spawns, and the capacity of its work queue:
/// four per logical CPU.
pub fn worker_count() -> (r: usize)
    ensures
        4 <= r,
{
    let cpus = logical_cpus();
    if cpus <= usize::MAX / 4 {
        4 * cpus
    } else {
        usize::MAX
    }
}

/// A handle to the worker pool. Submissions are processed against the
/// pool's backend under per-path exclusion; every handle-returning
/// operation yields exactly one reply through its handle.
pub struct AsyncIO {
    thread: AsyncIOThread,
    lock: RepoLock,
}

impl AsyncIO {
    /// The root path every caller-supplied path is joined onto.
    pub closed spec fn root(&self) -> Seq<u8> {
        self.thread.root()
    }

    /// The backend contents: full paths mapped to file contents.
    pub closed spec fn files(&self) -> Map<Seq<u8>, Seq<u8>> {
        self.thread.files()
    }

    /// The aggregate write statistics.
    pub closed spec fn write_stats(&self) -> crate::stats::WriteStats {
        self.thread.shared().stats()
    }

    /// The set of paths currently in flight.
    pub closed spec fn in_progress(&self) -> Set<Seq<u8>> {
        self.thread.shared().in_progress()
    }

    /// The whole-repository lock's state.
    pub closed spec fn lock_state(&self) -> RepoLock {
        self.lock
    }

    /// Between submissions the pool is consistent and no path is in
    /// flight.
    pub closed spec fn wf(&self) -> bool {
        self.thread.wf() && self.thread.shared().in_progress().is_empty() && self.lock.wf()
    }

    /// A pool over the given backend, with fresh shared state.
    pub fn new(root_path: Vec<u8>, backend: MemBackend) -> (r: Self)
        requires
            backend.wf(),
        ensures
            r.wf(),
            r.root() == root_path@,
            r.files() == backend@,
            r.write_stats().new_chunks == 0,
            r.write_stats().new_bytes == 0,
            r.lock_state().readers() == 0,
            !r.lock_state().writer(),
    {
        let shared = AsyncIOThreadShared::new();
        proof {
            assert(shared.in_progress().is_empty());
        }
        AsyncIO { thread: AsyncIOThread::new(root_path, shared, backend), lock: RepoLock::new() }
    }

    /// A snapshot handle onto the pool's write statistics.
    pub fn stats(&self) -> (r: AsyncIOThreadShared)
        ensures
            r.stats() == self.write_stats(),
    {
        self.thread.shared_state().duplicate()
    }

    /// Write `sg` at `path`, overwriting a file already there; the handle
    /// always reports success, and the write is counted in the stats.
    pub fn write(&mut self, path: &Vec<u8>, sg: &SGData) -> (r: AsyncIOResult<()>)
        requires
            old(self).wf(),
            sg.wf(),
            old(self).write_stats().new_chunks < usize::MAX,
            old(self).write_stats().new_bytes + sg@.len() <= u64::MAX,
        ensures
            final(self).wf(),
            final(self).root() == old(self).root(),
            final(self).lock_state() == old(self).lock_state(),
            final(self).files() == old(self).files().insert(joined(old(self).root(), path@), sg@),
            final(self).write_stats().new_chunks == old(self).write_stats().new_chunks + 1,
            final(self).write_stats().new_bytes == old(self).write_stats().new_bytes + sg@.len(),
            r.reply() is Ok,
    {
        let res = self.thread.write(path, sg, false);
        AsyncIOResult::ready(res)
    }

    /// Write `sg` at `path` idempotently: a path already written, or
    /// already in flight, reports success without a second backend write.
    pub fn write_idempotent(&mut self, path: &Vec<u8>, sg: &SGData) -> (r: AsyncIOResult<()>)
        requires
            old(self).wf(),
            sg.wf(),
            old(self).write_stats().new_chunks < usize::MAX,
            old(self).write_stats().new_bytes + sg@.len() <= u64::MAX,
        ensures
            final(self).wf(),
            final(self).root() == old(self).root(),
            final(self).lock_state() == old(self).lock_state(),
            old(self).files().contains_key(joined(old(self).root(), path@)) ==> final(self).files() == old(self).files(),
            !old(self).files().contains_key(joined(old(self).root(), path@)) ==> final(self).files() == old(self).files().insert(joined(old(self).root(), path@), sg@),
            final(self).write_stats().new_chunks == old(self).write_stats().new_chunks + 1,
            final(self).write_stats().new_bytes == old(self).write_stats().new_bytes + sg@.len(),
            r.reply() is Ok,
    {
        let res = self.thread.write(path, sg, true);
        AsyncIOResult::ready(res)
    }

    /// A fire-and-forget write: as `write`, but no handle is returned. A
    /// backend failure would abort the worker; this backend never fails a
    /// write.
    pub fn write_checked(&mut self, path: &Vec<u8>, sg: &SGData)
        requires
            old(self).wf(),
            sg.wf(),
            old(self).write_stats().new_chunks < usize::MAX,
            old(self).write_stats().new_bytes + sg@.len() <= u64::MAX,
        ensures
            final(self).wf(),
            final(self).root() == old(self).root(),
            final(self).lock_state() == old(self).lock_state(),
            final(self).files() == old(self).files().insert(joined(old(self).root(), path@), sg@),
            final(self).write_stats().new_chunks == old(self).write_stats().new_chunks + 1,
            final(self).write_stats().new_bytes == old(self).write_stats().new_bytes + sg@.len(),
    {
        let _ = self.thread.write(path, sg, false);
    }

    /// A fire-and-forget idempotent write.
    pub fn write_checked_idempotent(&mut self, path: &Vec<u8>, sg: &SGData)
        requires
            old(self).wf(),
            sg.wf(),
            old(self).write_stats().new_chunks < usize::MAX,
            old(self).write_stats().new_bytes + sg@.len() <= u64::MAX,
        ensures
            final(self).wf(),
            final(self).root() == old(self).root(),
            final(self).lock_state() == old(self).lock_state(),
            old(self).files().contains_key(joined(old(self).root(), path@)) ==> final(self).files() == old(self).files(),
            !old(self).files().contains_key(joined(old(self).root(), path@)) ==> final(self).files() == old(self).files().insert(joined(old(self).root(), path@), sg@),
            final(self).write_stats().new_chunks == old(self).write_stats().new_chunks + 1,
            final(self).write_stats().new_bytes == old(self).write_stats().new_bytes + sg@.len(),
    {
        let _ = self.thread.write(path, sg, true);
    }

    /// Read the file at `path`; a missing path reports not-found.
    pub fn read(&mut self, path: &Vec<u8>) -> (r: AsyncIOResult<SGData>)
        requires
            old(self).wf(),
        ensures
            final(self).wf(),
            final(self).root() == old(self).root(),
            final(self).lock_state() == old(self).lock_state(),
            final(self).files() == old(self).files(),
            final(self).write_stats() == old(self).write_stats(),
            r.reply() is Ok <==> old(self).files().contains_key(joined(old(self).root(), path@)),
            r.reply() matches Ok(d) ==> d@ == old(self).files()[joined(old(self).root(), path@)],
            r.reply() matches Err(e) ==> e.kind == IoErrorKind::NotFound,
    {
        let res = self.thread.read(path);
        AsyncIOResult::ready(res)
    }

    /// Stat the path: its length and whether it is a regular file.
    pub fn read_metadata(&mut self, path: &Vec<u8>) -> (r: AsyncIOResult<Metadata>)
        requires
            old(self).wf(),
        ensures
            final(self).wf(),
            final(self).root() == old(self).root(),
            final(self).lock_state() == old(self).lock_state(),
            final(self).files() == old(self).files(),
            final(self).write_stats() == old(self).write_stats(),
            old(self).files().contains_key(joined(old(self).root(), path@)) ==> (r.reply()
                matches Ok(m) && m.is_file && m.len == old(self).files()[joined(
                old(self).root(),
                path@,
            )].len()),
            !old(self).files().contains_key(joined(old(self).root(), path@)) && dir_exists(
                old(self).files(),
                joined(old(self).root(), path@),
            ) ==> (r.reply() matches Ok(m) && !m.is_file && m.len == 0),
            !old(self).files().contains_key(joined(old(self).root(), path@)) && !dir_exists(
                old(self).files(),
                joined(old(self).root(), path@),
            ) ==> (r.reply() matches Err(e) && e.kind == IoErrorKind::NotFound),
    {
        let res = self.thread.read_metadata(path);
        AsyncIOResult::ready(res)
    }

    /// List the direct children of the directory at `path`.
    pub fn list(&self, path: &Vec<u8>) -> (r: AsyncIOResult<Vec<Vec<u8>>>)
        requires
            self.wf(),
        ensures
            r.reply() is Ok <==> dir_exists(self.files(), joined(self.root(), path@)),
            r.reply() matches Ok(v) ==> forall|t: int|
                0 <= t < v@.len() ==> #[trigger] self.files().contains_key(v@[t]@)
                    && is_direct_child(joined(self.root(), path@), v@[t]@),
            r.reply() matches Ok(v) ==> listing_covers(
                self.files(),
                joined(self.root(), path@),
                v@,
            ),
            r.reply() matches Ok(v) ==> forall|t1: int, t2: int|
                0 <= t1 < t2 < v@.len() ==> v@[t1]@ != v@[t2]@,
            r.reply() matches Err(e) ==> e.kind == IoErrorKind::NotFound,
    {
        AsyncIOResult::ready(self.thread.list(path))
    }

    /// Walk everything at or below `path` and return the stream of file
    /// paths the batches carry, flattened back into one sequence: every
    /// stored file in scope exactly once, and nothing else. A path with
    /// nothing below it yields an empty sequence, not an error.
    pub fn list_recursively(&self, path: &Vec<u8>) -> (r: Vec<Vec<u8>>)
        requires
            self.wf(),
        ensures
            forall|t: int| 0 <= t < r@.len() ==> #[trigger] self.files().contains_key(r@[t]@)
                && in_scope(joined(self.root(), path@), r@[t]@),
            forall|k: Seq<u8>| #[trigger] self.files().contains_key(k) && in_scope(
                joined(self.root(), path@),
                k,
            ) ==> exists|t: int| 0 <= t < r@.len() && #[trigger] r@[t]@ == k,
            forall|t1: int, t2: int| 0 <= t1 < t2 < r@.len() ==> r@[t1]@ != r@[t2]@,
    {
        let batches = self.thread.list_recursively(path);
        let items = flatten_batches(&batches);
        proof {
            let flat = concat_all(batches_view(batches@));
            assert(paths_view(items@) == flat);
            assert(items@.len() == flat.len());
            assert forall|t: int| 0 <= t < items@.len()
                implies #[trigger] self.files().contains_key(items@[t]@) && in_scope(
                joined(self.root(), path@),
                items@[t]@,
            ) by {
                assert(paths_view(items@)[t] == items@[t]@);
                assert(flat[t] == items@[t]@);
            }
            assert forall|k: Seq<u8>| #[trigger] self.files().contains_key(k) && in_scope(
                joined(self.root(), path@),
                k,
            ) implies exists|t: int| 0 <= t < items@.len() && #[trigger] items@[t]@ == k by {
                assert(flat.contains(k));
                let t = choose|t: int| 0 <= t < flat.len() && flat[t] == k;
                assert(paths_view(items@)[t] == items@[t]@);
                assert(items@[t]@ == k);
            }
            assert forall|t1: int, t2: int| 0 <= t1 < t2 < items@.len() implies items@[t1]@
                != items@[t2]@ by {
                assert(paths_view(items@)[t1] == items@[t1]@);
                assert(paths_view(items@)[t2] == items@[t2]@);
            }
        }
        items
    }

    /// Remove the file at `path`; a missing path reports not-found.
    pub fn remove(&mut self, path: &Vec<u8>) -> (r: AsyncIOResult<()>)
        requires
            old(self).wf(),
        ensures
            final(self).wf(),
            final(self).root() == old(self).root(),
            final(self).lock_state() == old(self).lock_state(),
            final(self).write_stats() == old(self).write_stats(),
            r.reply() is Ok <==> old(self).files().contains_key(joined(old(self).root(), path@)),
            r.reply() is Ok ==> final(self).files() == old(self).files().remove(
                joined(old(self).root(), path@),
            ),
            r.reply() matches Err(e) ==> final(self).files() == old(self).files() && e.kind
                == IoErrorKind::NotFound,
    {
        AsyncIOResult::ready(self.thread.remove(path))
    }

    /// Remove `path` and everything below it; a path with nothing stored
    /// there reports not-found.
    pub fn remove_dir_all(&mut self, path: &Vec<u8>) -> (r: AsyncIOResult<()>)
        requires
            old(self).wf(),
        ensures
            final(self).wf(),
            final(self).root() == old(self).root(),
            final(self).lock_state() == old(self).lock_state(),
            final(self).write_stats() == old(self).write_stats(),
            r.reply() is Ok <==> exists|k: Seq<u8>| #[trigger] old(self).files().contains_key(k)
                && in_scope(joined(old(self).root(), path@), k),
            r.reply() is Ok ==> final(self).files() == old(self).files().remove_keys(
                scope_set(joined(old(self).root(), path@)),
            ),
            r.reply() matches Err(e) ==> final(self).files() == old(self).files() && e.kind
                == IoErrorKind::NotFound,
    {
        let res = self.thread.remove_dir_all(path);
        proof {
            let dir = joined(old(self).root(), path@);
            if res is Ok {
                let k = choose|k: Seq<u8>| #[trigger] old(self).thread.files().contains_key(k)
                    && in_scope(dir, k);
                assert(old(self).files().contains_key(k) && in_scope(dir, k));
            }
            if exists|k: Seq<u8>| #[trigger] old(self).files().contains_key(k) && in_scope(
                dir,
                k,
            ) {
                let k = choose|k: Seq<u8>| #[trigger] old(self).files().contains_key(k)
                    && in_scope(dir, k);
                assert(old(self).thread.files().contains_key(k) && in_scope(dir, k));
                assert(res is Ok);
            }
        }
        AsyncIOResult::ready(res)
    }

    /// Move the file at `src` to `dst`; a missing `src` reports not-found.
    /// The two paths must differ: a rename onto itself would wait on its
    /// own exclusion forever.
    pub fn rename(&mut self, src: &Vec<u8>, dst: &Vec<u8>) -> (r: AsyncIOResult<()>)
        requires
            old(self).wf(),
            src@ != dst@,
        ensures
            final(self).wf(),
            final(self).root() == old(self).root(),
            final(self).lock_state() == old(self).lock_state(),
            final(self).write_stats() == old(self).write_stats(),
            r.reply() is Ok <==> old(self).files().contains_key(joined(old(self).root(), src@)),
            r.reply() is Ok ==> final(self).files() == old(self).files().remove(
                joined(old(self).root(), src@),
            ).insert(joined(old(self).root(), dst@), old(self).files()[joined(
                old(self).root(),
                src@,
            )]),
            r.reply() matches Err(e) ==> final(self).files() == old(self).files() && e.kind
                == IoErrorKind::NotFound,
    {
        AsyncIOResult::ready(self.thread.rename(src, dst))
    }

    /// Take the whole-repository lock shared: granted exactly when no
    /// exclusive holder exists.
    pub fn lock_shared(&mut self) -> (r: Result<(), IoError>)
        requires
            old(self).wf(),
            old(self).lock_state().readers() < usize::MAX,
        ensures
            final(self).wf(),
            final(self).root() == old(self).root(),
            final(self).files() == old(self).files(),
            final(self).write_stats() == old(self).write_stats(),
            r is Ok <==> !old(self).lock_state().writer(),
            r is Ok ==> final(self).lock_state().readers() == old(self).lock_state().readers()
                + 1 && !final(self).lock_state().writer(),
            r is Err ==> final(self).lock_state() == old(self).lock_state(),
    {
        self.lock.lock_shared()
    }

    /// Release one shared hold of the whole-repository lock.
    pub fn unlock_shared(&mut self)
        requires
            old(self).wf(),
            old(self).lock_state().readers() > 0,
        ensures
            final(self).wf(),
            final(self).root() == old(self).root(),
            final(self).files() == old(self).files(),
            final(self).write_stats() == old(self).write_stats(),
            final(self).lock_state().readers() == old(self).lock_state().readers() - 1,
            final(self).lock_state().writer() == old(self).lock_state().writer(),
    {
        self.lock.unlock_shared()
    }

    /// Take the whole-repository lock exclusive: granted exactly when
    /// nobody holds the lock at all.
    pub fn lock_exclusive(&mut self) -> (r: Result<(), IoError>)
        requires
            old(self).wf(),
        ensures
            final(self).wf(),
            final(self).root() == old(self).root(),
            final(self).files() == old(self).files(),
            final(self).write_stats() == old(self).write_stats(),
            r is Ok <==> !old(self).lock_state().writer() && old(self).lock_state().readers()
                == 0,
            r is Ok ==> final(self).lock_state().writer() && final(self).lock_state().readers()
                == 0,
            r is Err ==> final(self).lock_state() == old(self).lock_state(),
    {
        self.lock.lock_exclusive()
    }

    /// Release the exclusive hold of the whole-repository lock.
    pub fn unlock_exclusive(&mut self)
        requires
            old(self).wf(),
            old(self).lock_state().writer(),
        ensures
            final(self).wf(),
            final(self).root() == old(self).root(),
            final(self).files() == old(self).files(),
            final(self).write_stats() == old(self).write_stats(),
            !final(self).lock_state().writer(),
            final(self).lock_state().readers() == old(self).lock_state().readers(),
    {
        self.lock.unlock_exclusive()
    }
}

/// Shutdown law: whenever the facade is quiescent — in particular when the
/// last handle is dropped and the pool is torn down — the in-progress
/// registry is empty: every acquired path was released.
pub proof fn lemma_shutdown_registry_empty(aio: AsyncIO)
    requires
        aio.wf(),
    ensures
        aio.in_progress().is_empty(),
{
}

/// Round-trip law: a write leaves exactly its payload at the full path, so
/// a read of the same path afterwards yields content equal to what was
/// written; and because the path is then present, a second idempotent
/// write of it changes nothing.
pub proof fn lemma_write_read_round_trip(
    files: Map<Seq<u8>, Seq<u8>>,
    full: Seq<u8>,
    data: Seq<u8>,
)
    ensures
        files.insert(full, data).contains_key(full),
        files.insert(full, data)[full] == data,
{
}

} // verus!
