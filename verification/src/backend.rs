//! The storage backend the workers drive: a path-keyed store of regular
//! files. It models a filesystem as a map from full paths to contents;
//! directories exist implicitly as proper prefixes of stored paths.

use vstd::prelude::*;

use crate::bytes::{check_in_scope, check_is_direct_child, check_is_under, clone_bytes};
use crate::bytes::{is_direct_child, is_under, in_scope};
use crate::errors::{IoError, IoErrorKind};
use crate::sgdata::{sg_from_bytes, SGData};

verus! {

/// Stat-like information about a path.
#[derive(Clone, Copy, Debug)]
pub struct Metadata {
    pub len: u64,
    pub is_file: bool,
}

struct FileEntry {
    path: Vec<u8>,
    data: Vec<u8>,
}

/// Whether some stored file lies strictly below `dir`, so that `dir`
/// exists as a directory.
pub open spec fn dir_exists(m: Map<Seq<u8>, Seq<u8>>, dir: Seq<u8>) -> bool {
    exists|k: Seq<u8>| #[trigger] m.contains_key(k) && is_under(dir, k)
}

/// The keys a recursive removal or walk of `dir` covers.
pub open spec fn scope_set(dir: Seq<u8>) -> Set<Seq<u8>> {
    Set::new(|k: Seq<u8>| in_scope(dir, k))
}

/// Every stored direct child of `dir` appears among the listed paths.
pub open spec fn listing_covers(
    m: Map<Seq<u8>, Seq<u8>>,
    dir: Seq<u8>,
    v: Seq<Vec<u8>>,
) -> bool {
    forall|k: Seq<u8>| #[trigger] m.contains_key(k) && is_direct_child(dir, k) ==> exists|t: int|
        0 <= t < v.len() && #[trigger] v[t]@ == k
}

spec fn map_of(s: Seq<FileEntry>) -> Map<Seq<u8>, Seq<u8>>
    decreases s.len(),
{
    if s.len() == 0 {
        Map::empty()
    } else {
        map_of(s.drop_last()).insert(s.last().path@, s.last().data@)
    }
}

spec fn distinct_paths(s: Seq<FileEntry>) -> bool {
    forall|i: int, j: int| 0 <= i < j < s.len() ==> s[i].path@ != s[j].path@
}

proof fn lemma_map_of_contains(s: Seq<FileEntry>)
    ensures
        forall|p: Seq<u8>|
            map_of(s).contains_key(p) <==> exists|i: int|
                0 <= i < s.len() && #[trigger] s[i].path@ == p,
    decreases s.len(),
{
    if s.len() == 0 {
    } else {
        lemma_map_of_contains(s.drop_last());
        assert forall|p: Seq<u8>| map_of(s).contains_key(p) implies exists|i: int|
            0 <= i < s.len() && #[trigger] s[i].path@ == p by {
            if p == s.last().path@ {
                assert(s[s.len() - 1].path@ == p);
            } else {
                assert(map_of(s.drop_last()).contains_key(p));
                let i = choose|i: int|
                    0 <= i < s.drop_last().len() && #[trigger] s.drop_last()[i].path@ == p;
                assert(s[i].path@ == p);
            }
        }
        assert forall|p: Seq<u8>|
            (exists|i: int| 0 <= i < s.len() && #[trigger] s[i].path@ == p)
            implies map_of(s).contains_key(p) by {
            let i = choose|i: int| 0 <= i < s.len() && #[trigger] s[i].path@ == p;
            if i < s.len() - 1 {
                assert(s.drop_last()[i].path@ == p);
                assert(map_of(s.drop_last()).contains_key(p));
            }
        }
    }
}

proof fn lemma_map_of_index(s: Seq<FileEntry>, i: int)
    requires
        distinct_paths(s),
        0 <= i < s.len(),
    ensures
        map_of(s).contains_key(s[i].path@),
        map_of(s)[s[i].path@] == s[i].data@,
    decreases s.len(),
{
    if i == s.len() - 1 {
    } else {
        assert(distinct_paths(s.drop_last()));
        assert(s.drop_last()[i] == s[i]);
        lemma_map_of_index(s.drop_last(), i);
        assert(s[i].path@ != s.last().path@);
    }
}

proof fn lemma_map_of_remove(s: Seq<FileEntry>, i: int)
    requires
        distinct_paths(s),
        0 <= i < s.len(),
    ensures
        map_of(s.remove(i)) == map_of(s).remove(s[i].path@),
    decreases s.len(),
{
    let p = s[i].path@;
    if i == s.len() - 1 {
        assert(s.remove(i) =~= s.drop_last());
        lemma_map_of_contains(s.drop_last());
        assert forall|q: Seq<u8>| #![auto]
            map_of(s.drop_last()).contains_key(q) implies q != p by {
            let j = choose|j: int|
                0 <= j < s.drop_last().len() && #[trigger] s.drop_last()[j].path@ == q;
            assert(s[j].path@ == q);
        }
        assert(map_of(s.drop_last()) =~= map_of(s).remove(p));
    } else {
        assert(distinct_paths(s.drop_last()));
        assert(s.drop_last()[i] == s[i]);
        lemma_map_of_remove(s.drop_last(), i);
        assert(s.remove(i).drop_last() =~= s.drop_last().remove(i));
        assert(s.remove(i).last() == s.last());
        assert(map_of(s.remove(i)) == map_of(s.drop_last().remove(i)).insert(
            s.last().path@,
            s.last().data@,
        ));
        assert(s[i].path@ != s.last().path@);
        assert(map_of(s.drop_last()).remove(p).insert(s.last().path@, s.last().data@)
            =~= map_of(s.drop_last()).insert(s.last().path@, s.last().data@).remove(p));
    }
}

proof fn lemma_map_of_push(s: Seq<FileEntry>, e: FileEntry)
    ensures
        map_of(s.push(e)) == map_of(s).insert(e.path@, e.data@),
{
    assert(s.push(e).drop_last() =~= s);
    assert(s.push(e).last() == e);
}

/// A storage backend held in memory: full paths mapped to file contents.
pub struct MemBackend {
    files: Vec<FileEntry>,
}

impl MemBackend {
    /// The store as a map from full path to content.
    pub closed spec fn view(&self) -> Map<Seq<u8>, Seq<u8>> {
        map_of(self.files@)
    }

    pub closed spec fn wf(&self) -> bool {
        distinct_paths(self.files@)
    }

    /// An empty store.
    pub fn new() -> (r: MemBackend)
        ensures
            r.wf(),
            r@ == Map::<Seq<u8>, Seq<u8>>::empty(),
    {
        MemBackend { files: Vec::new() }
    }

    fn find(&self, path: &Vec<u8>) -> (r: Option<usize>)
        ensures
            r matches Some(i) ==> i < self.files@.len() && self.files@[i as int].path@ == path@,
            r is None ==> forall|j: int|
                0 <= j < self.files@.len() ==> self.files@[j].path@ != path@,
    {
        let mut i: usize = 0;
        while i < self.files.len()
            invariant
                i <= self.files.len(),
                forall|j: int| 0 <= j < i ==> self.files@[j].path@ != path@,
            decreases self.files.len() - i,
        {
            if crate::bytes::bytes_eq(&self.files[i].path, path) {
                return Some(i);
            }
            i = i + 1;
        }
        None
    }

    /// Whether `path` is a stored file.
    pub fn contains(&self, path: &Vec<u8>) -> (r: bool)
        ensures
            r == self@.contains_key(path@),
    {
        proof {
            lemma_map_of_contains(self.files@);
        }
        self.find(path).is_some()
    }

    /// Store `data` at `path`. An existing file is overwritten, except that
    /// an idempotent write to an existing path is skipped. Never fails.
    pub fn write(&mut self, path: &Vec<u8>, data: &SGData, idempotent: bool) -> (r: Result<
        (),
        IoError,
    >)
        requires
            old(self).wf(),
            data.wf(),
        ensures
            final(self).wf(),
            r is Ok,
            idempotent && old(self)@.contains_key(path@) ==> final(self)@ == old(self)@,
            !(idempotent && old(self)@.contains_key(path@)) ==> final(self)@ == old(self)@.insert(
                path@,
                data@,
            ),
    {
        proof {
            lemma_map_of_contains(self.files@);
        }
        match self.find(path) {
            Some(i) => {
                if idempotent {
                    return Ok(());
                }
                proof {
                    lemma_map_of_remove(self.files@, i as int);
                }
                self.files.remove(i);
                proof {
                    let olds = old(self).files@;
                    assert forall|a: int, b: int|
                        0 <= a < b < self.files@.len()
                        implies self.files@[a].path@ != self.files@[b].path@ by {
                        let a0: int = if a < i { a } else { a + 1 };
                        let b0: int = if b < i { b } else { b + 1 };
                        assert(self.files@[a] == olds[a0] && self.files@[b] == olds[b0]);
                    }
                    assert forall|j: int|
                        0 <= j < self.files@.len() implies self.files@[j].path@ != path@ by {
                        let j0: int = if j < i { j } else { j + 1 };
                        assert(self.files@[j] == olds[j0]);
                        assert(olds[i as int].path@ == path@);
                    }
                }
                self.push_entry(path, data);
                proof {
                    assert(self@ =~= old(self)@.insert(path@, data@));
                }
                Ok(())
            },
            None => {
                self.push_entry(path, data);
                Ok(())
            },
        }
    }

    fn push_entry(&mut self, path: &Vec<u8>, data: &SGData)
        requires
            old(self).wf(),
            data.wf(),
            forall|j: int| 0 <= j < old(self).files@.len() ==> old(self).files@[j].path@ != path@,
        ensures
            final(self).wf(),
            final(self)@ == old(self)@.insert(path@, data@),
    {
        let e = FileEntry { path: clone_bytes(path), data: data.to_linear() };
        proof {
            lemma_map_of_push(self.files@, e);
        }
        self.files.push(e);
    }

    /// Read the file at `path`; a missing path is a not-found error.
    pub fn read(&self, path: &Vec<u8>) -> (r: Result<SGData, IoError>)
        requires
            self.wf(),
        ensures
            r is Ok <==> self@.contains_key(path@),
            r matches Ok(d) ==> d@ == self@[path@] && d.wf(),
            r matches Err(e) ==> e.kind == IoErrorKind::NotFound,
    {
        proof {
            lemma_map_of_contains(self.files@);
        }
        match self.find(path) {
            Some(i) => {
                proof {
                    lemma_map_of_index(self.files@, i as int);
                }
                Ok(sg_from_bytes(&self.files[i].data))
            },
            None => Err(IoError::not_found()),
        }
    }

    /// Stat `path`: a stored file reports its length; a directory that some
    /// stored file lies under reports itself; anything else is not found.
    pub fn read_metadata(&self, path: &Vec<u8>) -> (r: Result<Metadata, IoError>)
        requires
            self.wf(),
        ensures
            self@.contains_key(path@) ==> (r matches Ok(m) && m.is_file && m.len
                == self@[path@].len()),
            !self@.contains_key(path@) && dir_exists(self@, path@) ==> (r matches Ok(m)
                && !m.is_file && m.len == 0),
            !self@.contains_key(path@) && !dir_exists(self@, path@) ==> (r matches Err(e)
                && e.kind == IoErrorKind::NotFound),
    {
        proof {
            lemma_map_of_contains(self.files@);
        }
        match self.find(path) {
            Some(i) => {
                proof {
                    lemma_map_of_index(self.files@, i as int);
                }
                Ok(Metadata { len: self.files[i].data.len() as u64, is_file: true })
            },
            None => {
                let mut j: usize = 0;
                while j < self.files.len()
                    invariant
                        j <= self.files.len(),
                        self.wf(),
                        !self@.contains_key(path@),
                        forall|t: int| 0 <= t < j ==> !is_under(path@, self.files@[t].path@),
                    decreases self.files.len() - j,
                {
                    if check_is_under(path, &self.files[j].path) {
                        proof {
                            lemma_map_of_index(self.files@, j as int);
                            assert(dir_exists(self@, path@));
                        }
                        return Ok(Metadata { len: 0, is_file: false });
                    }
                    j = j + 1;
                }
                proof {
                    lemma_map_of_contains(self.files@);
                    assert forall|k: Seq<u8>|
                        self@.contains_key(k) implies !is_under(path@, k) by {
                        let t = choose|t: int|
                            0 <= t < self.files@.len() && #[trigger] self.files@[t].path@ == k;
                    }
                }
                Err(IoError::not_found())
            },
        }
    }

    /// Remove the file at `path`; a missing path is a not-found error.
    pub fn remove(&mut self, path: &Vec<u8>) -> (r: Result<(), IoError>)
        requires
            old(self).wf(),
        ensures
            final(self).wf(),
            r is Ok <==> old(self)@.contains_key(path@),
            r is Ok ==> final(self)@ == old(self)@.remove(path@),
            r matches Err(e) ==> *final(self) == *old(self) && e.kind == IoErrorKind::NotFound,
    {
        proof {
            lemma_map_of_contains(self.files@);
        }
        match self.find(path) {
            Some(i) => {
                proof {
                    lemma_map_of_remove(self.files@, i as int);
                }
                self.files.remove(i);
                proof {
                    let olds = old(self).files@;
                    assert forall|a: int, b: int|
                        0 <= a < b < self.files@.len()
                        implies self.files@[a].path@ != self.files@[b].path@ by {
                        let a0: int = if a < i { a } else { a + 1 };
                        let b0: int = if b < i { b } else { b + 1 };
                        assert(self.files@[a] == olds[a0] && self.files@[b] == olds[b0]);
                    }
                }
                Ok(())
            },
            None => Err(IoError::not_found()),
        }
    }

    fn find_in_scope(&self, dir: &Vec<u8>) -> (r: Option<usize>)
        ensures
            r matches Some(i) ==> i < self.files@.len() && in_scope(
                dir@,
                self.files@[i as int].path@,
            ),
            r is None ==> forall|j: int|
                0 <= j < self.files@.len() ==> !in_scope(dir@, self.files@[j].path@),
    {
        let mut i: usize = 0;
        while i < self.files.len()
            invariant
                i <= self.files.len(),
                forall|j: int| 0 <= j < i ==> !in_scope(dir@, self.files@[j].path@),
            decreases self.files.len() - i,
        {
            if check_in_scope(dir, &self.files[i].path) {
                return Some(i);
            }
            i = i + 1;
        }
        None
    }

    /// Remove `path` and everything below it; if nothing is stored there,
    /// a not-found error.
    pub fn remove_dir_all(&mut self, path: &Vec<u8>) -> (r: Result<(), IoError>)
        requires
            old(self).wf(),
        ensures
            final(self).wf(),
            r is Ok <==> exists|k: Seq<u8>| #[trigger] old(self)@.contains_key(k) && in_scope(
                path@,
                k,
            ),
            r is Ok ==> final(self)@ == old(self)@.remove_keys(scope_set(path@)),
            r matches Err(e) ==> *final(self) == *old(self) && e.kind == IoErrorKind::NotFound,
    {
        let mut removed_any = false;
        let mut done = false;
        while !done
            invariant
                self.wf(),
                old(self).wf(),
                forall|q: Seq<u8>| !in_scope(path@, q) ==> (self@.contains_key(q)
                    <==> old(self)@.contains_key(q)),
                forall|q: Seq<u8>| #[trigger] self@.contains_key(q) && !in_scope(path@, q)
                    ==> self@[q] == old(self)@[q],
                forall|q: Seq<u8>| #[trigger] self@.contains_key(q) ==> old(
                    self,
                )@.contains_key(q),
                removed_any ==> exists|k: Seq<u8>| #[trigger] old(self)@.contains_key(k)
                    && in_scope(path@, k),
                !removed_any ==> *self == *old(self),
                done ==> forall|q: Seq<u8>| #[trigger] self@.contains_key(q) ==> !in_scope(
                    path@,
                    q,
                ),
            decreases self.files@.len(), (if done { 0int } else { 1int }),
        {
            match self.find_in_scope(path) {
                Some(i) => {
                    proof {
                        lemma_map_of_index(self.files@, i as int);
                        lemma_map_of_remove(self.files@, i as int);
                        assert(self@.contains_key(self.files@[i as int].path@));
                    }
                    let ghost olds = self.files@;
                    self.files.remove(i);
                    removed_any = true;
                    proof {
                        assert forall|a: int, b: int|
                            0 <= a < b < self.files@.len()
                            implies self.files@[a].path@ != self.files@[b].path@ by {
                            let a0: int = if a < i { a } else { a + 1 };
                            let b0: int = if b < i { b } else { b + 1 };
                            assert(self.files@[a] == olds[a0] && self.files@[b] == olds[b0]);
                        }
                        assert(old(self)@.contains_key(olds[i as int].path@));
                        assert(in_scope(path@, olds[i as int].path@));
                    }
                },
                None => {
                    proof {
                        lemma_map_of_contains(self.files@);
                        assert forall|q: Seq<u8>| #[trigger] self@.contains_key(q)
                            implies !in_scope(path@, q) by {
                            let t = choose|t: int|
                                0 <= t < self.files@.len() && #[trigger] self.files@[t].path@
                                == q;
                        }
                    }
                    done = true;
                },
            }
        }
        if removed_any {
            proof {
                assert(self@ =~= old(self)@.remove_keys(scope_set(path@)));
            }
            Ok(())
        } else {
            Err(IoError::not_found())
        }
    }

    /// Move the file at `src` to `dst`, replacing any file already at
    /// `dst`; a missing `src` is a not-found error.
    pub fn rename(&mut self, src: &Vec<u8>, dst: &Vec<u8>) -> (r: Result<(), IoError>)
        requires
            old(self).wf(),
        ensures
            final(self).wf(),
            r is Ok <==> old(self)@.contains_key(src@),
            r is Ok ==> final(self)@ == old(self)@.remove(src@).insert(
                dst@,
                old(self)@[src@],
            ),
            r matches Err(e) ==> *final(self) == *old(self) && e.kind == IoErrorKind::NotFound,
    {
        proof {
            lemma_map_of_contains(self.files@);
        }
        match self.find(src) {
            Some(i) => {
                proof {
                    lemma_map_of_index(self.files@, i as int);
                    lemma_map_of_remove(self.files@, i as int);
                }
                let ghost olds = self.files@;
                let moved = self.files.remove(i);
                proof {
                    assert forall|a: int, b: int|
                        0 <= a < b < self.files@.len()
                        implies self.files@[a].path@ != self.files@[b].path@ by {
                        let a0: int = if a < i { a } else { a + 1 };
                        let b0: int = if b < i { b } else { b + 1 };
                        assert(self.files@[a] == olds[a0] && self.files@[b] == olds[b0]);
                    }
                }
                let sg = sg_from_bytes(&moved.data);
                match self.find(dst) {
                    Some(j) => {
                        proof {
                            lemma_map_of_remove(self.files@, j as int);
                        }
                        let ghost mids = self.files@;
                        self.files.remove(j);
                        proof {
                            assert forall|a: int, b: int|
                                0 <= a < b < self.files@.len()
                                implies self.files@[a].path@ != self.files@[b].path@ by {
                                let a0: int = if a < j { a } else { a + 1 };
                                let b0: int = if b < j { b } else { b + 1 };
                                assert(self.files@[a] == mids[a0] && self.files@[b] == mids[b0]);
                            }
                            assert forall|t: int|
                                0 <= t < self.files@.len()
                                implies self.files@[t].path@ != dst@ by {
                                let t0: int = if t < j { t } else { t + 1 };
                                assert(self.files@[t] == mids[t0]);
                                assert(mids[j as int].path@ == dst@);
                            }
                        }
                        self.push_entry(dst, &sg);
                        proof {
                            assert(self@ =~= old(self)@.remove(src@).insert(
                                dst@,
                                old(self)@[src@],
                            ));
                        }
                        Ok(())
                    },
                    None => {
                        self.push_entry(dst, &sg);
                        proof {
                            assert(self@ =~= old(self)@.remove(src@).insert(
                                dst@,
                                old(self)@[src@],
                            ));
                        }
                        Ok(())
                    },
                }
            },
            None => Err(IoError::not_found()),
        }
    }

    /// The stored files that are direct children of the directory `path`;
    /// a directory nothing lies under is a not-found error.
    #[verifier::rlimit(60)]
    pub fn list(&self, path: &Vec<u8>) -> (r: Result<Vec<Vec<u8>>, IoError>)
        requires
            self.wf(),
        ensures
            r is Ok <==> dir_exists(self@, path@),
            r matches Ok(v) ==> forall|t: int|
                0 <= t < v@.len() ==> #[trigger] self@.contains_key(v@[t]@) && is_direct_child(
                    path@,
                    v@[t]@,
                ),
            r matches Ok(v) ==> listing_covers(self@, path@, v@),
            r matches Ok(v) ==> forall|t1: int, t2: int|
                0 <= t1 < t2 < v@.len() ==> v@[t1]@ != v@[t2]@,
            r matches Err(e) ==> e.kind == IoErrorKind::NotFound,
    {
        proof {
            lemma_map_of_contains(self.files@);
        }
        let mut out: Vec<Vec<u8>> = Vec::new();
        let mut any_under = false;
        let mut i: usize = 0;
        while i < self.files.len()
            invariant
                i <= self.files.len(),
                self.wf(),
                forall|t: int| 0 <= t < out@.len() ==> exists|j: int|
                    0 <= j < i && #[trigger] out@[t]@ == self.files@[j].path@,
                forall|t: int| 0 <= t < out@.len() ==> is_direct_child(path@, #[trigger] out@[t]@),
                forall|j: int| 0 <= j < i && is_direct_child(path@, #[trigger] self.files@[j].path@)
                    ==> exists|t: int| 0 <= t < out@.len() && #[trigger] out@[t]@
                    == self.files@[j].path@,
                forall|t1: int, t2: int| 0 <= t1 < t2 < out@.len() ==> out@[t1]@ != out@[t2]@,
                any_under == exists|j: int| 0 <= j < i && is_under(
                    path@,
                    #[trigger] self.files@[j].path@,
                ),
            decreases self.files.len() - i,
        {
            if check_is_under(path, &self.files[i].path) {
                if !any_under {
                    any_under = true;
                }
                proof {
                    assert(is_under(path@, self.files@[i as int].path@));
                }
            }
            if check_is_direct_child(path, &self.files[i].path) {
                let p = clone_bytes(&self.files[i].path);
                let ghost prev = out@;
                proof {
                    assert forall|t: int| 0 <= t < out@.len()
                        implies out@[t]@ != self.files@[i as int].path@ by {
                        let j = choose|j: int|
                            0 <= j < i && #[trigger] out@[t]@ == self.files@[j].path@;
                    }
                }
                out.push(p);
                proof {
                    assert(out@[out@.len() - 1]@ == self.files@[i as int].path@);
                    assert forall|t: int| 0 <= t < out@.len() implies exists|j: int|
                        0 <= j < i + 1 && #[trigger] out@[t]@ == self.files@[j].path@ by {
                        if t < prev.len() {
                            let j = choose|j: int|
                                0 <= j < i && #[trigger] prev[t]@ == self.files@[j].path@;
                            assert(out@[t]@ == self.files@[j].path@);
                        } else {
                            assert(out@[t]@ == self.files@[i as int].path@);
                        }
                    }
                    assert forall|j: int|
                        0 <= j < i + 1 && is_direct_child(
                            path@,
                            #[trigger] self.files@[j].path@,
                        ) implies exists|t: int|
                        0 <= t < out@.len() && #[trigger] out@[t]@ == self.files@[j].path@ by {
                        if j < i {
                            let t = choose|t: int|
                                0 <= t < prev.len() && #[trigger] prev[t]@
                                == self.files@[j].path@;
                            assert(out@[t]@ == self.files@[j].path@);
                        } else {
                            assert(out@[out@.len() - 1]@ == self.files@[j].path@);
                        }
                    }
                }
            }
            i = i + 1;
        }
        if any_under {
            proof {
                lemma_map_of_contains(self.files@);
                assert forall|t: int| 0 <= t < out@.len()
                    implies #[trigger] self@.contains_key(out@[t]@) && is_direct_child(
                    path@,
                    out@[t]@,
                ) by {
                    let j = choose|j: int|
                        0 <= j < self.files@.len() && #[trigger] out@[t]@ == self.files@[j].path@;
                }
                assert(listing_covers(self@, path@, out@)) by {
                    assert forall|k: Seq<u8>| #[trigger] self@.contains_key(k)
                        && is_direct_child(path@, k) implies exists|t: int|
                        0 <= t < out@.len() && #[trigger] out@[t]@ == k by {
                        let j = choose|j: int|
                            0 <= j < self.files@.len() && #[trigger] self.files@[j].path@ == k;
                        assert(is_direct_child(path@, self.files@[j].path@));
                        let t = choose|t: int|
                            0 <= t < out@.len() && #[trigger] out@[t]@ == self.files@[j].path@;
                        assert(out@[t]@ == k);
                    }
                }
                assert(dir_exists(self@, path@)) by {
                    let j = choose|j: int|
                        0 <= j < self.files@.len() && is_under(
                            path@,
                            #[trigger] self.files@[j].path@,
                        );
                    lemma_map_of_index(self.files@, j);
                }
            }
            Ok(out)
        } else {
            proof {
                lemma_map_of_contains(self.files@);
                assert forall|k: Seq<u8>|
                    self@.contains_key(k) implies !is_under(path@, k) by {
                    let t = choose|t: int|
                        0 <= t < self.files@.len() && #[trigger] self.files@[t].path@ == k;
                }
            }
            Err(IoError::not_found())
        }
    }

    /// Every stored file at or below `path`, each exactly once; empty when
    /// nothing is stored there.
    pub fn list_recursively(&self, path: &Vec<u8>) -> (r: Vec<Vec<u8>>)
        requires
            self.wf(),
        ensures
            forall|t: int| 0 <= t < r@.len() ==> #[trigger] self@.contains_key(r@[t]@) && in_scope(
                path@,
                r@[t]@,
            ),
            forall|k: Seq<u8>| #[trigger] self@.contains_key(k) && in_scope(path@, k)
                ==> exists|t: int| 0 <= t < r@.len() && #[trigger] r@[t]@ == k,
            forall|t1: int, t2: int| 0 <= t1 < t2 < r@.len() ==> r@[t1]@ != r@[t2]@,
    {
        proof {
            lemma_map_of_contains(self.files@);
        }
        let mut out: Vec<Vec<u8>> = Vec::new();
        let mut i: usize = 0;
        while i < self.files.len()
            invariant
                i <= self.files.len(),
                self.wf(),
                forall|t: int| 0 <= t < out@.len() ==> exists|j: int|
                    0 <= j < i && #[trigger] out@[t]@ == self.files@[j].path@,
                forall|t: int| 0 <= t < out@.len() ==> in_scope(path@, #[trigger] out@[t]@),
                forall|j: int| 0 <= j < i && in_scope(path@, #[trigger] self.files@[j].path@)
                    ==> exists|t: int| 0 <= t < out@.len() && #[trigger] out@[t]@
                    == self.files@[j].path@,
                forall|t1: int, t2: int| 0 <= t1 < t2 < out@.len() ==> out@[t1]@ != out@[t2]@,
            decreases self.files.len() - i,
        {
            if check_in_scope(path, &self.files[i].path) {
                let p = clone_bytes(&self.files[i].path);
                let ghost prev = out@;
                proof {
                    assert forall|t: int| 0 <= t < out@.len()
                        implies out@[t]@ != self.files@[i as int].path@ by {
                        let j = choose|j: int|
                            0 <= j < i && #[trigger] out@[t]@ == self.files@[j].path@;
                    }
                }
                out.push(p);
                proof {
                    assert(out@[out@.len() - 1]@ == self.files@[i as int].path@);
                    assert forall|t: int| 0 <= t < out@.len() implies exists|j: int|
                        0 <= j < i + 1 && #[trigger] out@[t]@ == self.files@[j].path@ by {
                        if t < prev.len() {
                            let j = choose|j: int|
                                0 <= j < i && #[trigger] prev[t]@ == self.files@[j].path@;
                            assert(out@[t]@ == self.files@[j].path@);
                        } else {
                            assert(out@[t]@ == self.files@[i as int].path@);
                        }
                    }
                    assert forall|j: int|
                        0 <= j < i + 1 && in_scope(path@, #[trigger] self.files@[j].path@)
                        implies exists|t: int|
                        0 <= t < out@.len() && #[trigger] out@[t]@ == self.files@[j].path@ by {
                        if j < i {
                            let t = choose|t: int|
                                0 <= t < prev.len() && #[trigger] prev[t]@
                                == self.files@[j].path@;
                            assert(out@[t]@ == self.files@[j].path@);
                        } else {
                            assert(out@[out@.len() - 1]@ == self.files@[j].path@);
                        }
                    }
                }
            }
            i = i + 1;
        }
        proof {
            lemma_map_of_contains(self.files@);
            assert forall|t: int| 0 <= t < out@.len()
                implies #[trigger] self@.contains_key(out@[t]@) && in_scope(path@, out@[t]@) by {
                let j = choose|j: int|
                    0 <= j < self.files@.len() && #[trigger] out@[t]@ == self.files@[j].path@;
            }
            assert forall|k: Seq<u8>| #[trigger] self@.contains_key(k) && in_scope(path@, k)
                implies exists|t: int| 0 <= t < out@.len() && #[trigger] out@[t]@ == k by {
                let j = choose|j: int|
                    0 <= j < self.files@.len() && #[trigger] self.files@[j].path@ == k;
            }
        }
        out
    }
}

} // verus!
