//! Batching for the recursive-listing protocol: a worker streams paths in
//! batches of more than `BATCH_FLUSH_ABOVE` entries, with one trailing
//! partial batch, and the receiving side flattens the batches back into a
//! stream of paths. Batching neither loses nor duplicates entries: the
//! concatenation of the batches is exactly the input sequence.

use vstd::prelude::*;

use crate::bytes::clone_bytes;

verus! {

/// A batch is flushed as soon as it holds more than this many paths.
pub const BATCH_FLUSH_ABOVE: usize = 100;

/// A sequence of paths, each seen as its byte string.
pub open spec fn paths_view(s: Seq<Vec<u8>>) -> Seq<Seq<u8>> {
    s.map_values(|p: Vec<u8>| p@)
}

/// A sequence of batches, each seen as its sequence of byte strings.
pub open spec fn batches_view(s: Seq<Vec<Vec<u8>>>) -> Seq<Seq<Seq<u8>>> {
    s.map_values(|b: Vec<Vec<u8>>| paths_view(b@))
}

/// The batches joined back into one sequence of paths.
pub open spec fn concat_all(bs: Seq<Seq<Seq<u8>>>) -> Seq<Seq<u8>>
    decreases bs.len(),
{
    if bs.len() == 0 {
        Seq::empty()
    } else {
        bs[0] + concat_all(bs.skip(1))
    }
}

/// Appending a batch appends its paths to the concatenation.
pub proof fn lemma_concat_all_push(bs: Seq<Seq<Seq<u8>>>, b: Seq<Seq<u8>>)
    ensures
        concat_all(bs.push(b)) == concat_all(bs) + b,
    decreases bs.len(),
{
    if bs.len() == 0 {
        assert(bs.push(b).skip(1) =~= Seq::<Seq<Seq<u8>>>::empty());
        assert(concat_all(Seq::<Seq<Seq<u8>>>::empty()) == Seq::<Seq<u8>>::empty());
        assert(bs.push(b)[0] == b);
        assert(concat_all(bs.push(b)) == b + Seq::<Seq<u8>>::empty());
        assert(concat_all(bs.push(b)) =~= concat_all(bs) + b);
    } else {
        lemma_concat_all_push(bs.skip(1), b);
        assert(bs.push(b).skip(1) =~= bs.skip(1).push(b));
        assert(bs.push(b)[0] == bs[0]);
        assert(concat_all(bs.push(b)) == bs[0] + (concat_all(bs.skip(1)) + b));
        assert(concat_all(bs.push(b)) =~= concat_all(bs) + b);
    }
}

/// Split `paths` into flushed batches: a batch is emitted once it exceeds
/// `BATCH_FLUSH_ABOVE` entries, and whatever remains is emitted as one
/// trailing partial batch. No path is lost or duplicated, and the order is
/// kept: the concatenation of the batches is the input.
pub fn batch_paths(paths: &Vec<Vec<u8>>) -> (r: Vec<Vec<Vec<u8>>>)
    ensures
        concat_all(batches_view(r@)) == paths_view(paths@),
        forall|i: int| 0 <= i < r@.len() - 1 ==> r@[i]@.len() == BATCH_FLUSH_ABOVE + 1,
        forall|i: int| 0 <= i < r@.len() ==> 1 <= #[trigger] r@[i]@.len()
            <= BATCH_FLUSH_ABOVE + 1,
        r@.len() == 0 <==> paths@.len() == 0,
{
    let mut out: Vec<Vec<Vec<u8>>> = Vec::new();
    let mut buf: Vec<Vec<u8>> = Vec::new();
    let mut i: usize = 0;
    while i < paths.len()
        invariant
            i <= paths.len(),
            concat_all(batches_view(out@)) + paths_view(buf@) =~= paths_view(
                paths@.take(i as int),
            ),
            buf@.len() <= BATCH_FLUSH_ABOVE,
            forall|t: int| 0 <= t < out@.len() ==> #[trigger] out@[t]@.len()
                == BATCH_FLUSH_ABOVE + 1,
            i > 0 ==> out@.len() > 0 || buf@.len() > 0,
        decreases paths.len() - i,
    {
        let p = clone_bytes(&paths[i]);
        proof {
            assert(paths_view(buf@.push(p)) =~= paths_view(buf@).push(paths@[i as int]@));
            assert(paths_view(paths@.take(i + 1)) =~= paths_view(paths@.take(i as int)).push(
                paths@[i as int]@,
            ));
        }
        buf.push(p);
        if buf.len() > BATCH_FLUSH_ABOVE {
            proof {
                lemma_concat_all_push(batches_view(out@), paths_view(buf@));
                assert(batches_view(out@.push(buf)) =~= batches_view(out@).push(
                    paths_view(buf@),
                ));
            }
            out.push(buf);
            buf = Vec::new();
            proof {
                assert(paths_view(Seq::<Vec<u8>>::empty()) =~= Seq::<Seq<u8>>::empty());
                assert(concat_all(batches_view(out@)) + paths_view(buf@) =~= paths_view(
                    paths@.take(i + 1),
                ));
            }
        }
        i = i + 1;
    }
    if buf.len() > 0 {
        proof {
            lemma_concat_all_push(batches_view(out@), paths_view(buf@));
            assert(batches_view(out@.push(buf)) =~= batches_view(out@).push(paths_view(buf@)));
        }
        out.push(buf);
    }
    proof {
        assert(paths@.take(paths@.len() as int) =~= paths@);
        assert(concat_all(batches_view(out@)) =~= paths_view(paths@));
    }
    out
}

/// Flatten streamed batches back into the sequence of paths they carry, in
/// order — the receiving side of the listing protocol.
pub fn flatten_batches(batches: &Vec<Vec<Vec<u8>>>) -> (r: Vec<Vec<u8>>)
    ensures
        paths_view(r@) == concat_all(batches_view(batches@)),
{
    let mut out: Vec<Vec<u8>> = Vec::new();
    let mut i: usize = 0;
    while i < batches.len()
        invariant
            i <= batches.len(),
            paths_view(out@) =~= concat_all(batches_view(batches@.take(i as int))),
        decreases batches.len() - i,
    {
        let b = &batches[i];
        let mut j: usize = 0;
        while j < b.len()
            invariant
                j <= b.len(),
                b == &batches[i as int],
                i < batches.len(),
                paths_view(out@) =~= concat_all(batches_view(batches@.take(i as int)))
                    + paths_view(b@.take(j as int)),
            decreases b.len() - j,
        {
            let p = clone_bytes(&b[j]);
            proof {
                assert(paths_view(out@.push(p)) =~= paths_view(out@).push(b@[j as int]@));
                assert(paths_view(b@.take(j + 1)) =~= paths_view(b@.take(j as int)).push(
                    b@[j as int]@,
                ));
            }
            out.push(p);
            j = j + 1;
        }
        proof {
            assert(b@.take(b@.len() as int) =~= b@);
            lemma_concat_all_push(
                batches_view(batches@.take(i as int)),
                paths_view(batches@[i as int]@),
            );
            assert(batches_view(batches@.take(i + 1)) =~= batches_view(
                batches@.take(i as int),
            ).push(paths_view(batches@[i as int]@)));
        }
        i = i + 1;
    }
    proof {
        assert(batches@.take(batches@.len() as int) =~= batches@);
    }
    out
}

/// Round trip of the listing protocol: flattening the batches that
/// `batch_paths` makes of any path sequence yields that sequence again —
/// batching loses nothing and duplicates nothing.
pub proof fn lemma_batch_round_trip(
    paths: Seq<Vec<u8>>,
    batches: Seq<Vec<Vec<u8>>>,
    items: Seq<Vec<u8>>,
)
    requires
        concat_all(batches_view(batches)) == paths_view(paths),
        paths_view(items) == concat_all(batches_view(batches)),
    ensures
        paths_view(items) == paths_view(paths),
        items.len() == paths.len(),
        forall|t: int| 0 <= t < items.len() ==> items[t]@ == paths[t]@,
{
    assert(paths_view(items).len() == items.len());
    assert(paths_view(paths).len() == paths.len());
    assert forall|t: int| 0 <= t < items.len() implies items[t]@ == paths[t]@ by {
        assert(paths_view(items)[t] == items[t]@);
        assert(paths_view(paths)[t] == paths[t]@);
    }
}

} // verus!
