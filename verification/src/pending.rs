//! The path-keyed in-progress registry: the set of full paths some worker
//! currently holds exclusion for. A path is inserted when a worker takes an
//! operation on it and removed when the operation finishes, so at any moment
//! at most one worker holds a given path.

use vstd::prelude::*;

use crate::bytes::{bytes_eq, clone_bytes};

verus! {

/// The set of paths currently being operated on.
pub struct InProgressSet {
    paths: Vec<Vec<u8>>,
}

impl InProgressSet {
    /// The registry as a set of byte-string paths.
    pub closed spec fn view(&self) -> Set<Seq<u8>> {
        Set::new(
            |s: Seq<u8>|
                exists|i: int| 0 <= i < self.paths@.len() && self.paths@[i]@ == s,
        )
    }

    /// No path is registered twice.
    pub closed spec fn wf(&self) -> bool {
        forall|i: int, j: int|
            0 <= i < j < self.paths@.len() ==> self.paths@[i]@ != self.paths@[j]@
    }

    /// An empty registry.
    pub fn new() -> (r: Self)
        ensures
            r@ == Set::<Seq<u8>>::empty(),
            r.wf(),
    {
        let r = InProgressSet { paths: Vec::new() };
        proof {
            assert(r@ =~= Set::<Seq<u8>>::empty());
        }
        r
    }

    /// Whether `path` is registered.
    pub fn contains(&self, path: &Vec<u8>) -> (r: bool)
        ensures
            r == self@.contains(path@),
    {
        let mut i: usize = 0;
        while i < self.paths.len()
            invariant
                i <= self.paths.len(),
                forall|j: int| 0 <= j < i ==> self.paths@[j]@ != path@,
            decreases self.paths.len() - i,
        {
            if bytes_eq(&self.paths[i], path) {
                proof {
                    assert(self@.contains(path@));
                }
                return true;
            }
            i = i + 1;
        }
        proof {
            assert(!self@.contains(path@));
        }
        false
    }

    /// Register a path that is not yet registered.
    pub fn insert(&mut self, path: &Vec<u8>)
        requires
            old(self).wf(),
            !old(self)@.contains(path@),
        ensures
            final(self).wf(),
            final(self)@ == old(self)@.insert(path@),
    {
        let p = clone_bytes(path);
        self.paths.push(p);
        proof {
            let olds = old(self).paths@;
            let news = self.paths@;
            assert forall|i: int, j: int|
                0 <= i < j < news.len() implies news[i]@ != news[j]@ by {
                if j < olds.len() {
                } else {
                    assert(news[j]@ == path@);
                    assert(!old(self)@.contains(path@));
                    assert(olds[i]@ == news[i]@);
                }
            }
            assert forall|s: Seq<u8>| old(self)@.insert(path@).contains(s)
                implies self@.contains(s) by {
                if s == path@ {
                    assert(news[news.len() - 1]@ == s);
                } else {
                    let i = choose|i: int| 0 <= i < olds.len() && olds[i]@ == s;
                    assert(news[i]@ == s);
                }
            }
            assert forall|s: Seq<u8>| self@.contains(s)
                implies old(self)@.insert(path@).contains(s) by {
                let i = choose|i: int| 0 <= i < news.len() && news[i]@ == s;
                if i < olds.len() {
                    assert(olds[i]@ == s);
                }
            }
            assert(self@ =~= old(self)@.insert(path@));
        }
    }

    /// Unregister a registered path.
    pub fn remove(&mut self, path: &Vec<u8>)
        requires
            old(self).wf(),
            old(self)@.contains(path@),
        ensures
            final(self).wf(),
            final(self)@ == old(self)@.remove(path@),
    {
        let mut i: usize = 0;
        while i < self.paths.len()
            invariant
                i <= self.paths.len(),
                *self == *old(self),
                old(self).wf(),
                old(self)@.contains(path@),
                forall|j: int| 0 <= j < i ==> self.paths@[j]@ != path@,
            decreases self.paths.len() - i,
        {
            if bytes_eq(&self.paths[i], path) {
                self.paths.remove(i);
                proof {
                    let olds = old(self).paths@;
                    let news = self.paths@;
                    assert(news == olds.remove(i as int));
                    assert forall|a: int, b: int|
                        0 <= a < b < news.len() implies news[a]@ != news[b]@ by {
                        let a0: int = if a < i { a } else { a + 1 };
                        let b0: int = if b < i { b } else { b + 1 };
                        assert(news[a]@ == olds[a0]@);
                        assert(news[b]@ == olds[b0]@);
                    }
                    assert forall|s: Seq<u8>| old(self)@.remove(path@).contains(s)
                        implies self@.contains(s) by {
                        let j = choose|j: int| 0 <= j < olds.len() && olds[j]@ == s;
                        assert(s != path@);
                        assert(j != i);
                        if j < i {
                            assert(news[j]@ == s);
                        } else {
                            assert(news[j - 1]@ == s);
                        }
                    }
                    assert forall|s: Seq<u8>| self@.contains(s)
                        implies old(self)@.remove(path@).contains(s) by {
                        let j = choose|j: int| 0 <= j < news.len() && news[j]@ == s;
                        let j0: int = if j < i { j } else { j + 1 };
                        assert(olds[j0]@ == s);
                        assert(olds[i as int]@ == path@);
                        assert(s != path@);
                    }
                    assert(self@ =~= old(self)@.remove(path@));
                }
                return;
            }
            i = i + 1;
        }
        proof {
            assert(!old(self)@.contains(path@));
        }
    }

    /// A copy of the registry holding the same paths.
    pub fn duplicate(&self) -> (r: Self)
        ensures
            r@ == self@,
            r.wf() == self.wf(),
    {
        let mut paths: Vec<Vec<u8>> = Vec::new();
        let mut i: usize = 0;
        while i < self.paths.len()
            invariant
                i <= self.paths.len(),
                paths@.len() == i,
                forall|j: int| 0 <= j < i ==> paths@[j]@ == self.paths@[j]@,
            decreases self.paths.len() - i,
        {
            paths.push(clone_bytes(&self.paths[i]));
            i = i + 1;
        }
        let r = InProgressSet { paths };
        proof {
            assert forall|s: Seq<u8>| r@.contains(s) implies self@.contains(s) by {
                let j = choose|j: int| 0 <= j < r.paths@.len() && #[trigger] r.paths@[j]@ == s;
                assert(self.paths@[j]@ == s);
            }
            assert forall|s: Seq<u8>| self@.contains(s) implies r@.contains(s) by {
                let j = choose|j: int|
                    0 <= j < self.paths@.len() && #[trigger] self.paths@[j]@ == s;
                assert(r.paths@[j]@ == s);
            }
            assert(r@ =~= self@);
            if self.wf() {
                assert forall|a: int, b: int|
                    0 <= a < b < r.paths@.len() implies r.paths@[a]@ != r.paths@[b]@ by {
                    assert(r.paths@[a]@ == self.paths@[a]@);
                    assert(r.paths@[b]@ == self.paths@[b]@);
                }
            }
            if r.wf() {
                assert forall|a: int, b: int|
                    0 <= a < b < self.paths@.len() implies self.paths@[a]@ != self.paths@[b]@ by {
                    assert(r.paths@[a]@ == self.paths@[a]@);
                    assert(r.paths@[b]@ == self.paths@[b]@);
                }
            }
        }
        r
    }

    /// Whether the registry is empty.
    pub fn is_empty(&self) -> (r: bool)
        ensures
            r == self@.is_empty(),
    {
        if self.paths.len() == 0 {
            proof {
                assert(self@ =~= Set::<Seq<u8>>::empty());
            }
            true
        } else {
            proof {
                assert(self@.contains(self.paths@[0]@));
            }
            false
        }
    }
}

/// Exclusion law: once a path is registered, a second registration of the
/// same path is refused until the first is removed — an acquired path is
/// held by exactly one worker at a time.
pub proof fn lemma_acquire_excludes(s: Set<Seq<u8>>, path: Seq<u8>)
    requires
        !s.contains(path),
    ensures
        s.insert(path).contains(path),
        s.insert(path).remove(path) == s,
{
    assert(s.insert(path).remove(path) =~= s);
}

} // verus!
