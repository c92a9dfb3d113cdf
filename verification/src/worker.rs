//! A worker of the pool: it owns one backend instance, shares the stats
//! and in-progress registry with its peers, and dispatches one message at a
//! time. Each operation joins the caller's path onto the root path, takes
//! per-path exclusion where the operation mutates or reads a single path,
//! delegates to the backend, releases the exclusion, and yields one reply.

use vstd::prelude::*;

use crate::backend::{dir_exists, listing_covers, scope_set, MemBackend, Metadata};
use crate::batch::{batch_paths, batches_view, concat_all, paths_view, BATCH_FLUSH_ABOVE};
use crate::bytes::{in_scope, is_direct_child, join_path, joined};
use crate::errors::{IoError, IoErrorKind};
use crate::sgdata::SGData;
use crate::shared::AsyncIOThreadShared;

verus! {

/// One request to the pool, with the values it carries. A checked write is
/// one whose sender keeps no handle: it gets no reply.
pub enum Message {
    Write { path: Vec<u8>, data: SGData, idempotent: bool, checked: bool },
    Read { path: Vec<u8> },
    ReadMetadata { path: Vec<u8> },
    List { path: Vec<u8> },
    ListRecursively { path: Vec<u8> },
    Remove { path: Vec<u8> },
    RemoveDirAll { path: Vec<u8> },
    Rename { src: Vec<u8>, dst: Vec<u8> },
}

/// The one reply a message produces. `Done` is the absent reply of a
/// checked write.
pub enum Reply {
    Unit(Result<(), IoError>),
    Data(Result<SGData, IoError>),
    Meta(Result<Metadata, IoError>),
    Paths(Result<Vec<Vec<u8>>, IoError>),
    Batches(Vec<Vec<Vec<u8>>>),
    Done,
}

/// The reply a message is owed: every message gets exactly one reply, of
/// the shape its operation calls for, except a checked write, which gets
/// none.
pub open spec fn reply_matches(m: Message, r: Reply) -> bool {
    match m {
        Message::Write { checked, .. } => if checked {
            r is Done
        } else {
            r is Unit
        },
        Message::Read { .. } => r is Data,
        Message::ReadMetadata { .. } => r is Meta,
        Message::List { .. } => r is Paths,
        Message::ListRecursively { .. } => r is Batches,
        Message::Remove { .. } => r is Unit,
        Message::RemoveDirAll { .. } => r is Unit,
        Message::Rename { .. } => r is Unit,
    }
}

/// What a message asks for is well formed: a write carries a payload that
/// fits in memory, and a rename never names one path twice, which would
/// make the second exclusion wait on the first forever.
pub open spec fn msg_wf(m: Message) -> bool {
    match m {
        Message::Write { data, .. } => data.wf(),
        Message::Rename { src, dst, .. } => src@ != dst@,
        _ => true,
    }
}

/// The payload bytes the writes among `msgs` carry.
pub open spec fn write_bytes(msgs: Seq<Message>) -> int
    decreases msgs.len(),
{
    if msgs.len() == 0 {
        0
    } else {
        (match msgs[0] {
            Message::Write { data, .. } => data@.len() as int,
            _ => 0,
        }) + write_bytes(msgs.skip(1))
    }
}

/// How many writes `msgs` holds.
pub open spec fn write_count(msgs: Seq<Message>) -> int
    decreases msgs.len(),
{
    if msgs.len() == 0 {
        0
    } else {
        (match msgs[0] {
            Message::Write { .. } => 1int,
            _ => 0,
        }) + write_count(msgs.skip(1))
    }
}

proof fn lemma_write_sums_nonneg(msgs: Seq<Message>)
    ensures
        write_bytes(msgs) >= 0,
        write_count(msgs) >= 0,
    decreases msgs.len(),
{
    if msgs.len() > 0 {
        lemma_write_sums_nonneg(msgs.skip(1));
    }
}

/// What one message leaves in the backend, with every caller path joined
/// onto `root`.
pub open spec fn files_after_msg(
    files: Map<Seq<u8>, Seq<u8>>,
    root: Seq<u8>,
    m: Message,
) -> Map<Seq<u8>, Seq<u8>> {
    match m {
        Message::Write { path, data, idempotent, .. } => if idempotent && files.contains_key(
            joined(root, path@),
        ) {
            files
        } else {
            files.insert(joined(root, path@), data@)
        },
        Message::Remove { path } => if files.contains_key(joined(root, path@)) {
            files.remove(joined(root, path@))
        } else {
            files
        },
        Message::RemoveDirAll { path } => files.remove_keys(scope_set(joined(root, path@))),
        Message::Rename { src, dst } => if files.contains_key(joined(root, src@)) {
            files.remove(joined(root, src@)).insert(
                joined(root, dst@),
                files[joined(root, src@)],
            )
        } else {
            files
        },
        _ => files,
    }
}

/// What a queue of messages leaves in the backend, processed in arrival
/// order.
pub open spec fn files_after(
    files: Map<Seq<u8>, Seq<u8>>,
    root: Seq<u8>,
    msgs: Seq<Message>,
) -> Map<Seq<u8>, Seq<u8>>
    decreases msgs.len(),
{
    if msgs.len() == 0 {
        files
    } else {
        files_after(files_after_msg(files, root, msgs[0]), root, msgs.skip(1))
    }
}

/// The outcome of one attempt at a write: done with the backend's result,
/// or refused because the path is already in flight and the write is not
/// idempotent, in which case the caller pauses and tries again.
pub enum WriteAttempt {
    Done(Result<(), IoError>),
    Busy,
}

/// A worker: the root path, the state shared with its peers, and its own
/// backend instance.
pub struct AsyncIOThread {
    root_path: Vec<u8>,
    shared: AsyncIOThreadShared,
    backend: MemBackend,
}

impl AsyncIOThread {
    pub closed spec fn root(&self) -> Seq<u8> {
        self.root_path@
    }

    /// The shared state as this worker sees it.
    pub closed spec fn shared(&self) -> AsyncIOThreadShared {
        self.shared
    }

    /// The backend contents as this worker sees them.
    pub closed spec fn files(&self) -> Map<Seq<u8>, Seq<u8>> {
        self.backend@
    }

    pub closed spec fn wf(&self) -> bool {
        self.shared.wf() && self.backend.wf()
    }

    /// A worker over a fresh backend instance and the given shared state.
    pub fn new(root_path: Vec<u8>, shared: AsyncIOThreadShared, backend: MemBackend) -> (r: Self)
        requires
            shared.wf(),
            backend.wf(),
        ensures
            r.wf(),
            r.root() == root_path@,
            r.shared() == shared,
            r.files() == backend@,
    {
        AsyncIOThread { root_path, shared, backend }
    }

    /// A snapshot of the shared state.
    pub fn shared_state(&self) -> (r: &AsyncIOThreadShared)
        ensures
            r == self.shared(),
    {
        &self.shared
    }

    /// One attempt at a write. If the full path is free, it is taken, the
    /// payload is handed to the backend, the write is counted in the
    /// stats, and the path is released. If the path is in flight, an
    /// idempotent write succeeds at once without touching the backend or
    /// the stats; any other write is refused as busy.
    pub fn try_write(&mut self, path: &Vec<u8>, data: &SGData, idempotent: bool) -> (r:
        WriteAttempt)
        requires
            old(self).wf(),
            data.wf(),
            old(self).shared().stats().new_chunks < usize::MAX,
            old(self).shared().stats().new_bytes + data@.len() <= u64::MAX,
        ensures
            final(self).wf(),
            final(self).root() == old(self).root(),
            final(self).shared().in_progress() == old(self).shared().in_progress(),
            r is Busy <==> old(self).shared().in_progress().contains(
                joined(old(self).root(), path@),
            ) && !idempotent,
            r is Busy ==> *final(self) == *old(self),
            r matches WriteAttempt::Done(res) ==> res is Ok,
            old(self).shared().in_progress().contains(joined(old(self).root(), path@))
                && idempotent ==> *final(self) == *old(self) && r is Done,
            !old(self).shared().in_progress().contains(joined(old(self).root(), path@)) ==> {
                &&& final(self).shared().stats().new_chunks == old(self).shared().stats().new_chunks + 1
                &&& final(self).shared().stats().new_bytes == old(self).shared().stats().new_bytes
                    + data@.len()
                &&& (idempotent && old(self).files().contains_key(
                    joined(old(self).root(), path@),
                ) ==> final(self).files() == old(self).files())
                &&& (!(idempotent && old(self).files().contains_key(
                    joined(old(self).root(), path@),
                )) ==> final(self).files() == old(self).files().insert(
                    joined(old(self).root(), path@),
                    data@,
                ))
            },
    {
        let full = join_path(&self.root_path, path);
        if !self.shared.try_acquire(&full) {
            if idempotent {
                WriteAttempt::Done(Ok(()))
            } else {
                WriteAttempt::Busy
            }
        } else {
            let res = self.backend.write(&full, data, idempotent);
            self.shared.record_write(data.len());
            self.shared.release(&full);
            proof {
                crate::pending::lemma_acquire_excludes(
                    old(self).shared().in_progress(),
                    full@,
                );
            }
            WriteAttempt::Done(res)
        }
    }

    /// Process one write message to completion. The caller never holds the
    /// path itself unless the write is idempotent: a held path would never
    /// come free within this call.
    pub fn write(&mut self, path: &Vec<u8>, data: &SGData, idempotent: bool) -> (r: Result<
        (),
        IoError,
    >)
        requires
            old(self).wf(),
            data.wf(),
            old(self).shared().stats().new_chunks < usize::MAX,
            old(self).shared().stats().new_bytes + data@.len() <= u64::MAX,
            idempotent || !old(self).shared().in_progress().contains(
                joined(old(self).root(), path@),
            ),
        ensures
            final(self).wf(),
            final(self).root() == old(self).root(),
            final(self).shared().in_progress() == old(self).shared().in_progress(),
            r is Ok,
            old(self).shared().in_progress().contains(joined(old(self).root(), path@))
                ==> *final(self) == *old(self),
            !old(self).shared().in_progress().contains(joined(old(self).root(), path@)) ==> {
                &&& final(self).shared().stats().new_chunks == old(self).shared().stats().new_chunks + 1
                &&& final(self).shared().stats().new_bytes == old(self).shared().stats().new_bytes
                    + data@.len()
                &&& (idempotent && old(self).files().contains_key(
                    joined(old(self).root(), path@),
                ) ==> final(self).files() == old(self).files())
                &&& (!(idempotent && old(self).files().contains_key(
                    joined(old(self).root(), path@),
                )) ==> final(self).files() == old(self).files().insert(
                    joined(old(self).root(), path@),
                    data@,
                ))
            },
    {
        match self.try_write(path, data, idempotent) {
            WriteAttempt::Done(res) => res,
            // A busy path would mean the caller itself holds it, which the
            // precondition rules out.
            WriteAttempt::Busy => vstd::pervasive::unreached(),
        }
    }

    /// Process one read message: take the path, read it, release it, and
    /// yield the backend's result. The caller never holds the path itself.
    pub fn read(&mut self, path: &Vec<u8>) -> (r: Result<SGData, IoError>)
        requires
            old(self).wf(),
            !old(self).shared().in_progress().contains(joined(old(self).root(), path@)),
        ensures
            final(self).wf(),
            final(self).root() == old(self).root(),
            final(self).shared().stats() == old(self).shared().stats(),
            final(self).shared().in_progress() == old(self).shared().in_progress(),
            final(self).files() == old(self).files(),
            r is Ok <==> old(self).files().contains_key(joined(old(self).root(), path@)),
            r matches Ok(d) ==> d@ == old(self).files()[joined(old(self).root(), path@)]
                && d.wf(),
            r matches Err(e) ==> e.kind == IoErrorKind::NotFound,
    {
        let full = join_path(&self.root_path, path);
        let _acquired = self.shared.try_acquire(&full);
        let res = self.backend.read(&full);
        self.shared.release(&full);
        proof {
            crate::pending::lemma_acquire_excludes(old(self).shared().in_progress(), full@);
        }
        res
    }

    /// Process one stat message, under the same exclusion as a read.
    pub fn read_metadata(&mut self, path: &Vec<u8>) -> (r: Result<Metadata, IoError>)
        requires
            old(self).wf(),
            !old(self).shared().in_progress().contains(joined(old(self).root(), path@)),
        ensures
            final(self).wf(),
            final(self).root() == old(self).root(),
            final(self).shared().stats() == old(self).shared().stats(),
            final(self).shared().in_progress() == old(self).shared().in_progress(),
            final(self).files() == old(self).files(),
            old(self).files().contains_key(joined(old(self).root(), path@)) ==> (r matches Ok(m)
                && m.is_file && m.len == old(self).files()[joined(old(self).root(), path@)].len()),
            !old(self).files().contains_key(joined(old(self).root(), path@)) && dir_exists(
                old(self).files(),
                joined(old(self).root(), path@),
            ) ==> (r matches Ok(m) && !m.is_file && m.len == 0),
            !old(self).files().contains_key(joined(old(self).root(), path@)) && !dir_exists(
                old(self).files(),
                joined(old(self).root(), path@),
            ) ==> (r matches Err(e) && e.kind == IoErrorKind::NotFound),
    {
        let full = join_path(&self.root_path, path);
        let _acquired = self.shared.try_acquire(&full);
        let res = self.backend.read_metadata(&full);
        self.shared.release(&full);
        proof {
            crate::pending::lemma_acquire_excludes(old(self).shared().in_progress(), full@);
        }
        res
    }

    /// Process one remove message, under the same exclusion as a read.
    pub fn remove(&mut self, path: &Vec<u8>) -> (r: Result<(), IoError>)
        requires
            old(self).wf(),
            !old(self).shared().in_progress().contains(joined(old(self).root(), path@)),
        ensures
            final(self).wf(),
            final(self).root() == old(self).root(),
            final(self).shared().stats() == old(self).shared().stats(),
            final(self).shared().in_progress() == old(self).shared().in_progress(),
            r is Ok <==> old(self).files().contains_key(joined(old(self).root(), path@)),
            r is Ok ==> final(self).files() == old(self).files().remove(
                joined(old(self).root(), path@),
            ),
            r matches Err(e) ==> final(self).files() == old(self).files() && e.kind
                == IoErrorKind::NotFound,
    {
        let full = join_path(&self.root_path, path);
        let _acquired = self.shared.try_acquire(&full);
        let res = self.backend.remove(&full);
        self.shared.release(&full);
        proof {
            crate::pending::lemma_acquire_excludes(old(self).shared().in_progress(), full@);
        }
        res
    }

    /// Process one rename message. Exclusion is taken on the source and
    /// then on the destination; the two must differ, or the second would
    /// wait on the first forever.
    pub fn rename(&mut self, src: &Vec<u8>, dst: &Vec<u8>) -> (r: Result<(), IoError>)
        requires
            old(self).wf(),
            src@ != dst@,
            !old(self).shared().in_progress().contains(joined(old(self).root(), src@)),
            !old(self).shared().in_progress().contains(joined(old(self).root(), dst@)),
        ensures
            final(self).wf(),
            final(self).root() == old(self).root(),
            final(self).shared().stats() == old(self).shared().stats(),
            final(self).shared().in_progress() == old(self).shared().in_progress(),
            r is Ok <==> old(self).files().contains_key(joined(old(self).root(), src@)),
            r is Ok ==> final(self).files() == old(self).files().remove(
                joined(old(self).root(), src@),
            ).insert(
                joined(old(self).root(), dst@),
                old(self).files()[joined(old(self).root(), src@)],
            ),
            r matches Err(e) ==> final(self).files() == old(self).files() && e.kind
                == IoErrorKind::NotFound,
    {
        let full_src = join_path(&self.root_path, src);
        let full_dst = join_path(&self.root_path, dst);
        proof {
            crate::bytes::lemma_joined_injective(self.root(), src@, dst@);
        }
        let _src_taken = self.shared.try_acquire(&full_src);
        let _dst_taken = self.shared.try_acquire(&full_dst);
        let res = self.backend.rename(&full_src, &full_dst);
        self.shared.release(&full_dst);
        self.shared.release(&full_src);
        proof {
            assert(self.shared().in_progress() =~= old(self).shared().in_progress());
        }
        res
    }

    /// Process one single-level listing message; no exclusion is taken.
    pub fn list(&self, path: &Vec<u8>) -> (r: Result<Vec<Vec<u8>>, IoError>)
        requires
            self.wf(),
        ensures
            r is Ok <==> dir_exists(self.files(), joined(self.root(), path@)),
            r matches Ok(v) ==> forall|t: int|
                0 <= t < v@.len() ==> #[trigger] self.files().contains_key(v@[t]@)
                    && is_direct_child(joined(self.root(), path@), v@[t]@),
            r matches Ok(v) ==> listing_covers(self.files(), joined(self.root(), path@), v@),
            r matches Ok(v) ==> forall|t1: int, t2: int|
                0 <= t1 < t2 < v@.len() ==> v@[t1]@ != v@[t2]@,
            r matches Err(e) ==> e.kind == IoErrorKind::NotFound,
    {
        let full = join_path(&self.root_path, path);
        self.backend.list(&full)
    }

    /// Process one recursive-listing message: walk everything stored at or
    /// below the path and stream it out in flushed batches. A path with
    /// nothing below it yields no batches at all. No exclusion is taken.
    pub fn list_recursively(&self, path: &Vec<u8>) -> (r: Vec<Vec<Vec<u8>>>)
        requires
            self.wf(),
        ensures
            forall|t: int| 0 <= t < concat_all(batches_view(r@)).len()
                ==> #[trigger] self.files().contains_key(concat_all(batches_view(r@))[t])
                && in_scope(joined(self.root(), path@), concat_all(batches_view(r@))[t]),
            forall|k: Seq<u8>| #[trigger] self.files().contains_key(k) && in_scope(
                joined(self.root(), path@),
                k,
            ) ==> concat_all(batches_view(r@)).contains(k),
            forall|t1: int, t2: int|
                0 <= t1 < t2 < concat_all(batches_view(r@)).len() ==> concat_all(
                    batches_view(r@),
                )[t1] != concat_all(batches_view(r@))[t2],
            forall|i: int| 0 <= i < r@.len() - 1 ==> r@[i]@.len() == BATCH_FLUSH_ABOVE + 1,
            forall|i: int| 0 <= i < r@.len() ==> 1 <= #[trigger] r@[i]@.len()
                <= BATCH_FLUSH_ABOVE + 1,
    {
        let full = join_path(&self.root_path, path);
        let found = self.backend.list_recursively(&full);
        let batches = batch_paths(&found);
        proof {
            let items = concat_all(batches_view(batches@));
            assert(items == paths_view(found@));
            assert(items.len() == found@.len());
            assert forall|t: int| 0 <= t < items.len()
                implies #[trigger] self.files().contains_key(items[t]) && in_scope(
                joined(self.root(), path@),
                items[t],
            ) by {
                assert(items[t] == found@[t]@);
            }
            assert forall|k: Seq<u8>| #[trigger] self.files().contains_key(k) && in_scope(
                joined(self.root(), path@),
                k,
            ) implies items.contains(k) by {
                let t = choose|t: int| 0 <= t < found@.len() && #[trigger] found@[t]@ == k;
                assert(items[t] == k);
            }
            assert forall|t1: int, t2: int| 0 <= t1 < t2 < items.len() implies items[t1]
                != items[t2] by {
                assert(items[t1] == found@[t1]@ && items[t2] == found@[t2]@);
            }
        }
        batches
    }

    /// Process one recursive-remove message; no exclusion is taken.
    pub fn remove_dir_all(&mut self, path: &Vec<u8>) -> (r: Result<(), IoError>)
        requires
            old(self).wf(),
        ensures
            final(self).wf(),
            final(self).root() == old(self).root(),
            final(self).shared() == old(self).shared(),
            r is Ok <==> exists|k: Seq<u8>| #[trigger] old(self).files().contains_key(k)
                && in_scope(joined(old(self).root(), path@), k),
            r is Ok ==> final(self).files() == old(self).files().remove_keys(
                scope_set(joined(old(self).root(), path@)),
            ),
            r matches Err(e) ==> final(self).files() == old(self).files() && e.kind
                == IoErrorKind::NotFound,
    {
        let full = join_path(&self.root_path, path);
        let res = self.backend.remove_dir_all(&full);
        proof {
            let dir = joined(old(self).root(), path@);
            if res is Ok {
                let k = choose|k: Seq<u8>| #[trigger] old(self).files().contains_key(k)
                    && in_scope(full@, k);
                assert(old(self).files().contains_key(k) && in_scope(dir, k));
            }
            if exists|k: Seq<u8>| #[trigger] old(self).files().contains_key(k) && in_scope(
                dir,
                k,
            ) {
                let k = choose|k: Seq<u8>| #[trigger] old(self).files().contains_key(k)
                    && in_scope(dir, k);
                assert(old(self).files().contains_key(k) && in_scope(full@, k));
                assert(res is Ok);
            }
        }
        res
    }

    /// Dispatch a queue of messages in arrival order, yielding one reply
    /// per message. Between messages no path is in flight, so every write
    /// reaches the backend: the stats grow by exactly the writes' payload
    /// bytes and count.
    pub fn run(&mut self, msgs: &Vec<Message>) -> (replies: Vec<Reply>)
        requires
            old(self).wf(),
            old(self).shared().in_progress().is_empty(),
            forall|i: int| 0 <= i < msgs@.len() ==> msg_wf(#[trigger] msgs@[i]),
            old(self).shared().stats().new_bytes + write_bytes(msgs@) <= u64::MAX,
            old(self).shared().stats().new_chunks + write_count(msgs@) <= usize::MAX,
        ensures
            final(self).wf(),
            final(self).root() == old(self).root(),
            final(self).shared().in_progress().is_empty(),
            replies@.len() == msgs@.len(),
            forall|i: int| 0 <= i < msgs@.len() ==> reply_matches(
                #[trigger] msgs@[i],
                replies@[i],
            ),
            final(self).shared().stats().new_bytes == old(self).shared().stats().new_bytes
                + write_bytes(msgs@),
            final(self).shared().stats().new_chunks == old(self).shared().stats().new_chunks
                + write_count(msgs@),
            final(self).files() == files_after(old(self).files(), old(self).root(), msgs@),
    {
        let mut replies: Vec<Reply> = Vec::new();
        let mut i: usize = 0;
        proof {
            assert(msgs@.skip(0) =~= msgs@);
        }
        while i < msgs.len()
            invariant
                i <= msgs.len(),
                self.wf(),
                self.root() == old(self).root(),
                self.shared().in_progress().is_empty(),
                forall|t: int| 0 <= t < msgs@.len() ==> msg_wf(#[trigger] msgs@[t]),
                replies@.len() == i,
                forall|t: int| 0 <= t < i ==> reply_matches(#[trigger] msgs@[t], replies@[t]),
                self.shared().stats().new_bytes == old(self).shared().stats().new_bytes
                    + write_bytes(msgs@.take(i as int)),
                self.shared().stats().new_chunks == old(self).shared().stats().new_chunks
                    + write_count(msgs@.take(i as int)),
                old(self).shared().stats().new_bytes + write_bytes(msgs@) <= u64::MAX,
                old(self).shared().stats().new_chunks + write_count(msgs@) <= usize::MAX,
                files_after(self.files(), old(self).root(), msgs@.skip(i as int))
                    == files_after(old(self).files(), old(self).root(), msgs@),
            decreases msgs.len() - i,
        {
            proof {
                lemma_write_split(msgs@, i as int);
                lemma_write_sums_nonneg(msgs@.skip(i + 1));
                lemma_write_sums_nonneg(msgs@.take(i as int));
            }
            let ghost prev_files = self.files();
            let ghost root = old(self).root();
            let reply = match &msgs[i] {
                Message::Write { path, data, idempotent, checked } => {
                    let res = self.write(path, data, *idempotent);
                    if *checked {
                        Reply::Done
                    } else {
                        Reply::Unit(res)
                    }
                },
                Message::Read { path } => Reply::Data(self.read(path)),
                Message::ReadMetadata { path } => Reply::Meta(self.read_metadata(path)),
                Message::List { path } => Reply::Paths(self.list(path)),
                Message::ListRecursively { path } => Reply::Batches(self.list_recursively(path)),
                Message::Remove { path } => Reply::Unit(self.remove(path)),
                Message::RemoveDirAll { path } => {
                    let res = self.remove_dir_all(path);
                    proof {
                        if res is Err {
                            let dir = joined(root, match msgs@[i as int] {
                                Message::RemoveDirAll { path } => path@,
                                _ => Seq::empty(),
                            });
                            assert(self.files() =~= self.files().remove_keys(scope_set(dir)));
                        }
                    }
                    Reply::Unit(res)
                },
                Message::Rename { src, dst } => Reply::Unit(self.rename(src, dst)),
            };
            replies.push(reply);
            proof {
                assert(msgs@.skip(i as int)[0] == msgs@[i as int]);
                assert(msgs@.skip(i as int).skip(1) =~= msgs@.skip(i + 1));
                assert(self.files() == files_after_msg(prev_files, root, msgs@[i as int]));
            }
            i = i + 1;
        }
        proof {
            assert(msgs@.take(msgs@.len() as int) =~= msgs@);
            assert(msgs@.skip(msgs@.len() as int) =~= Seq::<Message>::empty());
        }
        replies
    }
}

/// Splitting the write totals of a queue at one message.
proof fn lemma_write_split(msgs: Seq<Message>, i: int)
    requires
        0 <= i < msgs.len(),
    ensures
        write_bytes(msgs.take(i + 1)) == write_bytes(msgs.take(i)) + (match msgs[i] {
            Message::Write { data, .. } => data@.len() as int,
            _ => 0,
        }),
        write_count(msgs.take(i + 1)) == write_count(msgs.take(i)) + (match msgs[i] {
            Message::Write { .. } => 1int,
            _ => 0,
        }),
        write_bytes(msgs.take(i)) + write_bytes(msgs.skip(i)) == write_bytes(msgs),
        write_count(msgs.take(i)) + write_count(msgs.skip(i)) == write_count(msgs),
        write_bytes(msgs.take(i + 1)) + write_bytes(msgs.skip(i + 1)) == write_bytes(msgs),
        write_count(msgs.take(i + 1)) + write_count(msgs.skip(i + 1)) == write_count(msgs),
    decreases msgs.len(),
{
    lemma_write_take_skip(msgs, i);
    lemma_write_take_skip(msgs, i + 1);
    lemma_write_push(msgs.take(i), msgs[i]);
    assert(msgs.take(i + 1) =~= msgs.take(i).push(msgs[i]));
}

proof fn lemma_write_take_skip(msgs: Seq<Message>, i: int)
    requires
        0 <= i <= msgs.len(),
    ensures
        write_bytes(msgs.take(i)) + write_bytes(msgs.skip(i)) == write_bytes(msgs),
        write_count(msgs.take(i)) + write_count(msgs.skip(i)) == write_count(msgs),
    decreases i,
{
    if i == 0 {
        assert(msgs.take(0) =~= Seq::<Message>::empty());
        assert(msgs.skip(0) =~= msgs);
    } else {
        lemma_write_take_skip(msgs.skip(1), i - 1);
        assert(msgs.take(i)[0] == msgs[0]);
        assert(msgs.take(i).skip(1) =~= msgs.skip(1).take(i - 1));
        assert(msgs.skip(1).skip(i - 1) =~= msgs.skip(i));
    }
}

proof fn lemma_write_push(msgs: Seq<Message>, m: Message)
    ensures
        write_bytes(msgs.push(m)) == write_bytes(msgs) + (match m {
            Message::Write { data, .. } => data@.len() as int,
            _ => 0,
        }),
        write_count(msgs.push(m)) == write_count(msgs) + (match m {
            Message::Write { .. } => 1int,
            _ => 0,
        }),
    decreases msgs.len(),
{
    if msgs.len() == 0 {
        assert(msgs.push(m).skip(1) =~= Seq::<Message>::empty());
        assert(write_bytes(Seq::<Message>::empty()) == 0);
        assert(write_count(Seq::<Message>::empty()) == 0);
        assert(msgs.push(m)[0] == m);
        assert(write_bytes(msgs) == 0);
        assert(write_count(msgs) == 0);
    } else {
        lemma_write_push(msgs.skip(1), m);
        assert(msgs.push(m).skip(1) =~= msgs.skip(1).push(m));
        assert(msgs.push(m)[0] == msgs[0]);
        assert(write_bytes(msgs.push(m)) == (match msgs[0] {
            Message::Write { data, .. } => data@.len() as int,
            _ => 0,
        }) + write_bytes(msgs.skip(1).push(m)));
        assert(write_count(msgs.push(m)) == (match msgs[0] {
            Message::Write { .. } => 1int,
            _ => 0,
        }) + write_count(msgs.skip(1).push(m)));
    }
}

} // verus!
