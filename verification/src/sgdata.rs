//! The scatter-gather payload a write carries: an ordered list of byte
//! segments whose meaning is their concatenation.

use vstd::prelude::*;

use crate::bytes::{append_bytes, clone_bytes};

verus! {

/// The concatenation of a list of segments.
pub open spec fn flat_of(s: Seq<Vec<u8>>) -> Seq<u8>
    decreases s.len(),
{
    if s.len() == 0 {
        Seq::empty()
    } else {
        s[0]@ + flat_of(s.skip(1))
    }
}

/// Splitting a segment list anywhere splits its concatenation there.
pub proof fn lemma_flat_of_take_skip(s: Seq<Vec<u8>>, i: int)
    requires
        0 <= i <= s.len(),
    ensures
        flat_of(s) == flat_of(s.take(i)) + flat_of(s.skip(i)),
    decreases i,
{
    if i == 0 {
        assert(s.take(0) =~= Seq::<Vec<u8>>::empty());
        assert(s.skip(0) =~= s);
        assert(flat_of(s) =~= flat_of(s.take(0)) + flat_of(s.skip(0)));
    } else {
        lemma_flat_of_take_skip(s.skip(1), i - 1);
        assert(s.take(i)[0] == s[0]);
        assert(s.take(i).skip(1) =~= s.skip(1).take(i - 1));
        assert(s.skip(1).skip(i - 1) =~= s.skip(i));
        assert(flat_of(s) =~= flat_of(s.take(i)) + flat_of(s.skip(i)));
    }
}

/// Appending a segment appends its bytes to the concatenation.
pub proof fn lemma_flat_of_push(s: Seq<Vec<u8>>, v: Vec<u8>)
    ensures
        flat_of(s.push(v)) == flat_of(s) + v@,
    decreases s.len(),
{
    if s.len() == 0 {
        assert(s.push(v).skip(1) =~= Seq::<Vec<u8>>::empty());
        assert(flat_of(Seq::<Vec<u8>>::empty()) == Seq::<u8>::empty());
        assert(s.push(v)[0] == v);
        assert(flat_of(s.push(v)) == v@ + Seq::<u8>::empty());
        assert(flat_of(s.push(v)) =~= flat_of(s) + v@);
    } else {
        lemma_flat_of_push(s.skip(1), v);
        assert(s.push(v).skip(1) =~= s.skip(1).push(v));
        assert(s.push(v)[0] == s[0]);
        assert(flat_of(s.push(v)) == s[0]@ + (flat_of(s.skip(1)) + v@));
        assert(flat_of(s.push(v)) =~= flat_of(s) + v@);
    }
}

/// A scatter-gather byte payload.
#[derive(Debug)]
pub struct SGData {
    segments: Vec<Vec<u8>>,
}

impl SGData {
    /// The payload as one byte string: the segments concatenated.
    pub closed spec fn view(&self) -> Seq<u8> {
        flat_of(self.segments@)
    }

    /// The whole payload fits in one in-memory buffer.
    pub closed spec fn wf(&self) -> bool {
        self@.len() <= usize::MAX
    }

    /// An empty payload.
    pub fn new() -> (r: SGData)
        ensures
            r@ == Seq::<u8>::empty(),
            r.wf(),
    {
        SGData { segments: Vec::new() }
    }

    /// A payload of one segment.
    pub fn from_single(data: Vec<u8>) -> (r: SGData)
        ensures
            r@ == data@,
            r.wf(),
    {
        let ghost d = data@;
        let n: usize = data.len();
        let mut segments: Vec<Vec<u8>> = Vec::new();
        segments.push(data);
        let r = SGData { segments };
        proof {
            assert(r.segments@.skip(1) =~= Seq::<Vec<u8>>::empty());
            assert(flat_of(Seq::<Vec<u8>>::empty()) == Seq::<u8>::empty());
            assert(r.segments@[0]@ == d);
            assert(r@ == d + Seq::<u8>::empty());
            assert(r@ =~= d);
        }
        r
    }

    /// Append one segment to the payload.
    pub fn push_segment(&mut self, seg: Vec<u8>)
        requires
            old(self).wf(),
            old(self)@.len() + seg@.len() <= usize::MAX,
        ensures
            final(self).wf(),
            final(self)@ == old(self)@ + seg@,
    {
        proof {
            lemma_flat_of_push(self.segments@, seg);
        }
        self.segments.push(seg);
    }

    /// The payload's length in bytes.
    pub fn len(&self) -> (r: usize)
        requires
            self.wf(),
        ensures
            r == self@.len(),
    {
        let mut total: usize = 0;
        let mut i: usize = 0;
        while i < self.segments.len()
            invariant
                i <= self.segments.len(),
                self.wf(),
                total == flat_of(self.segments@.take(i as int)).len(),
            decreases self.segments.len() - i,
        {
            proof {
                lemma_flat_of_take_skip(self.segments@, i as int);
                lemma_flat_of_push(self.segments@.take(i as int), self.segments@[i as int]);
                assert(self.segments@.take(i + 1) =~= self.segments@.take(i as int).push(
                    self.segments@[i as int],
                ));
            }
            total = total + self.segments[i].len();
            i = i + 1;
        }
        proof {
            assert(self.segments@.take(self.segments@.len() as int) =~= self.segments@);
        }
        total
    }

    /// The payload flattened into one buffer.
    pub fn to_linear(&self) -> (r: Vec<u8>)
        requires
            self.wf(),
        ensures
            r@ == self@,
    {
        let mut out: Vec<u8> = Vec::new();
        let mut i: usize = 0;
        while i < self.segments.len()
            invariant
                i <= self.segments.len(),
                out@ == flat_of(self.segments@.take(i as int)),
            decreases self.segments.len() - i,
        {
            proof {
                lemma_flat_of_push(self.segments@.take(i as int), self.segments@[i as int]);
                assert(self.segments@.take(i + 1) =~= self.segments@.take(i as int).push(
                    self.segments@[i as int],
                ));
            }
            append_bytes(&mut out, &self.segments[i]);
            i = i + 1;
        }
        proof {
            assert(self.segments@.take(self.segments@.len() as int) =~= self.segments@);
        }
        out
    }

    /// A copy of the payload, flattened to one segment.
    pub fn duplicate(&self) -> (r: SGData)
        requires
            self.wf(),
        ensures
            r@ == self@,
            r.wf(),
    {
        SGData::from_single(self.to_linear())
    }
}

/// Copy a byte string into a fresh single-segment payload.
pub fn sg_from_bytes(data: &Vec<u8>) -> (r: SGData)
    ensures
        r@ == data@,
        r.wf(),
{
    SGData::from_single(clone_bytes(data))
}

} // verus!
