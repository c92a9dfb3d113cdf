//! Byte-string helpers for paths: copying, comparison, prefix tests and
//! joining a relative path onto the pool's root path.

use vstd::prelude::*;

verus! {

/// The path separator that `join_path` inserts between segments.
pub const SEPARATOR: u8 = 47;

/// Copy a byte string.
pub fn clone_bytes(v: &Vec<u8>) -> (r: Vec<u8>)
    ensures
        r@ == v@,
{
    let mut r: Vec<u8> = Vec::new();
    let mut i: usize = 0;
    while i < v.len()
        invariant
            i <= v.len(),
            r@ == v@.take(i as int),
        decreases v.len() - i,
    {
        r.push(v[i]);
        i = i + 1;
        proof {
            assert(r@ =~= v@.take(i as int));
        }
    }
    proof {
        assert(r@ =~= v@);
    }
    r
}

/// Compare two byte strings for equality.
pub fn bytes_eq(a: &Vec<u8>, b: &Vec<u8>) -> (r: bool)
    ensures
        r == (a@ == b@),
{
    if a.len() != b.len() {
        proof {
            assert(a@ != b@);
        }
        return false;
    }
    let mut i: usize = 0;
    while i < a.len()
        invariant
            i <= a.len(),
            a@.len() == b@.len(),
            forall|j: int| 0 <= j < i ==> a@[j] == b@[j],
        decreases a.len() - i,
    {
        if a[i] != b[i] {
            return false;
        }
        i = i + 1;
    }
    proof {
        assert(a@ =~= b@);
    }
    true
}

/// Whether `prefix` is a prefix of `v`.
pub fn starts_with(v: &Vec<u8>, prefix: &Vec<u8>) -> (r: bool)
    ensures
        r == prefix@.is_prefix_of(v@),
{
    if prefix.len() > v.len() {
        return false;
    }
    let mut i: usize = 0;
    while i < prefix.len()
        invariant
            i <= prefix.len(),
            prefix@.len() <= v@.len(),
            forall|j: int| 0 <= j < i ==> v@[j] == prefix@[j],
        decreases prefix.len() - i,
    {
        if v[i] != prefix[i] {
            proof {
                assert(!prefix@.is_prefix_of(v@));
            }
            return false;
        }
        i = i + 1;
    }
    proof {
        assert(prefix@ =~= v@.subrange(0, prefix@.len() as int));
    }
    true
}

/// Append `src` to the end of `dst`.
pub fn append_bytes(dst: &mut Vec<u8>, src: &Vec<u8>)
    ensures
        final(dst)@ == old(dst)@ + src@,
{
    let mut i: usize = 0;
    while i < src.len()
        invariant
            i <= src.len(),
            dst@ == old(dst)@ + src@.take(i as int),
        decreases src.len() - i,
    {
        dst.push(src[i]);
        i = i + 1;
        proof {
            assert(dst@ =~= old(dst)@ + src@.take(i as int));
        }
    }
    proof {
        assert(dst@ =~= old(dst)@ + src@);
    }
}

/// The full path a worker hands to the backend: the pool's root, one
/// separator, then the caller-supplied relative path.
pub open spec fn joined(root: Seq<u8>, rel: Seq<u8>) -> Seq<u8> {
    root + seq![SEPARATOR] + rel
}

/// Join a caller-supplied path onto the root path.
pub fn join_path(root: &Vec<u8>, rel: &Vec<u8>) -> (r: Vec<u8>)
    ensures
        r@ == joined(root@, rel@),
{
    let mut r = clone_bytes(root);
    r.push(SEPARATOR);
    append_bytes(&mut r, rel);
    proof {
        assert(r@ =~= joined(root@, rel@));
    }
    r
}

/// Joining distinct relative paths onto one root gives distinct full
/// paths.
pub proof fn lemma_joined_injective(root: Seq<u8>, a: Seq<u8>, b: Seq<u8>)
    requires
        a != b,
    ensures
        joined(root, a) != joined(root, b),
{
    if joined(root, a) == joined(root, b) {
        assert(joined(root, a).len() == root.len() + 1 + a.len());
        assert(joined(root, b).len() == root.len() + 1 + b.len());
        assert(a.len() == b.len());
        assert forall|i: int| 0 <= i < a.len() implies a[i] == b[i] by {
            assert(joined(root, a)[root.len() + 1 + i] == a[i]);
            assert(joined(root, b)[root.len() + 1 + i] == b[i]);
        }
        assert(a =~= b);
    }
}

/// Whether `k` lies strictly below the directory `dir`: it extends
/// `dir` by a separator and at least an empty remainder.
pub open spec fn is_under(dir: Seq<u8>, k: Seq<u8>) -> bool {
    (dir + seq![SEPARATOR]).is_prefix_of(k)
}

/// Whether `k` is `dir` itself or lies below it; the scope a recursive
/// walk of `dir` covers.
pub open spec fn in_scope(dir: Seq<u8>, k: Seq<u8>) -> bool {
    k == dir || is_under(dir, k)
}

/// Whether the stored path `k` is a direct child of directory `dir`:
/// below it, with no further separator in the remainder.
pub open spec fn is_direct_child(dir: Seq<u8>, k: Seq<u8>) -> bool {
    &&& is_under(dir, k)
    &&& forall|i: int| dir.len() + 1 <= i < k.len() ==> k[i] != SEPARATOR
}

/// Test whether `k` lies strictly below directory `dir`.
pub fn check_is_under(dir: &Vec<u8>, k: &Vec<u8>) -> (r: bool)
    ensures
        r == is_under(dir@, k@),
{
    let mut pref = clone_bytes(dir);
    pref.push(SEPARATOR);
    proof {
        assert(pref@ =~= dir@ + seq![SEPARATOR]);
    }
    starts_with(k, &pref)
}

/// Test whether `k` is `dir` itself or lies below it.
pub fn check_in_scope(dir: &Vec<u8>, k: &Vec<u8>) -> (r: bool)
    ensures
        r == in_scope(dir@, k@),
{
    if bytes_eq(k, dir) {
        true
    } else {
        check_is_under(dir, k)
    }
}

/// Test whether `k` is a direct child of directory `dir`.
pub fn check_is_direct_child(dir: &Vec<u8>, k: &Vec<u8>) -> (r: bool)
    ensures
        r == is_direct_child(dir@, k@),
{
    if !check_is_under(dir, k) {
        return false;
    }
    let kl: usize = k.len();
    let dl: usize = dir.len();
    proof {
        assert((dir@ + seq![SEPARATOR]).len() <= k@.len());
        assert(dl + 1 <= kl);
    }
    let mut i: usize = dl + 1;
    while i < k.len()
        invariant
            dir@.len() + 1 <= i <= k@.len() || k@.len() < dir@.len() + 1,
            is_under(dir@, k@),
            forall|j: int| dir@.len() + 1 <= j < i ==> k@[j] != SEPARATOR,
        decreases k.len() - i,
    {
        if k[i] == SEPARATOR {
            return false;
        }
        i = i + 1;
    }
    true
}

} // verus!
