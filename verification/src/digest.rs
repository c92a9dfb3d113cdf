//! Where a chunk lives in the repository: chunks are filed by the
//! hexadecimal form of their digest, two one-byte fan-out directories
//! deep, under a prefix chosen by the chunk's kind.

use vstd::prelude::*;

use crate::bytes::{append_bytes, SEPARATOR};

verus! {

/// What a chunk holds: payload data, or index bytes naming other chunks.
#[derive(Clone, Copy, Debug, PartialEq, Eq, Structural)]
pub enum ChunkType {
    Index,
    Data,
}

/// The lower-case hexadecimal digit for a value below sixteen.
pub open spec fn hex_digit(n: u8) -> u8
    recommends
        n < 16,
{
    if n < 10 {
        (48 + n) as u8
    } else {
        (87 + n) as u8
    }
}

/// The lower-case hexadecimal form of a byte string: two digits per byte,
/// high nibble first.
pub open spec fn hex_of(s: Seq<u8>) -> Seq<u8> {
    Seq::new(
        2 * s.len(),
        |i: int| if i % 2 == 0 {
            hex_digit(s[i / 2] / 16)
        } else {
            hex_digit(s[i / 2] % 16)
        },
    )
}

/// Encode a byte string in lower-case hexadecimal.
pub fn hex_encode(b: &Vec<u8>) -> (r: Vec<u8>)
    ensures
        r@ == hex_of(b@),
{
    let mut r: Vec<u8> = Vec::new();
    let mut i: usize = 0;
    while i < b.len()
        invariant
            i <= b.len(),
            r@ == hex_of(b@.take(i as int)),
        decreases b.len() - i,
    {
        let byte = b[i];
        let hi = byte / 16;
        let lo = byte % 16;
        r.push(if hi < 10 { 48 + hi } else { 87 + hi });
        r.push(if lo < 10 { 48 + lo } else { 87 + lo });
        i = i + 1;
        proof {
            assert(r@ =~= hex_of(b@.take(i as int)));
        }
    }
    proof {
        assert(b@.take(b@.len() as int) =~= b@);
    }
    r
}

/// The directory prefix a chunk kind files under.
pub open spec fn chunk_type_prefix(t: ChunkType) -> Seq<u8> {
    match t {
        ChunkType::Data => seq![99u8, 104u8, 117u8, 110u8, 107u8, 115u8],
        ChunkType::Index => seq![105u8, 110u8, 100u8, 101u8, 120u8],
    }
}

/// The repository path of a chunk: the kind's prefix, then one directory
/// for each of the digest's first two bytes in hexadecimal, then the full
/// digest in hexadecimal.
pub open spec fn digest_path(t: ChunkType, digest: Seq<u8>) -> Seq<u8> {
    chunk_type_prefix(t) + seq![SEPARATOR] + hex_of(digest.take(1)) + seq![SEPARATOR] + hex_of(
        digest.subrange(1, 2),
    ) + seq![SEPARATOR] + hex_of(digest)
}

/// File a digest under its repository path.
pub fn digest_to_path(chunk_type: ChunkType, digest: &Vec<u8>) -> (r: Vec<u8>)
    requires
        digest@.len() >= 2,
    ensures
        r@ == digest_path(chunk_type, digest@),
{
    let mut r: Vec<u8> = Vec::new();
    match chunk_type {
        ChunkType::Data => {
            r.push(99);
            r.push(104);
            r.push(117);
            r.push(110);
            r.push(107);
            r.push(115);
        },
        ChunkType::Index => {
            r.push(105);
            r.push(110);
            r.push(100);
            r.push(101);
            r.push(120);
        },
    }
    proof {
        assert(r@ =~= chunk_type_prefix(chunk_type));
    }
    r.push(SEPARATOR);
    let mut first: Vec<u8> = Vec::new();
    first.push(digest[0]);
    proof {
        assert(first@ =~= digest@.take(1));
    }
    let h1 = hex_encode(&first);
    append_bytes(&mut r, &h1);
    r.push(SEPARATOR);
    let mut second: Vec<u8> = Vec::new();
    second.push(digest[1]);
    proof {
        assert(second@ =~= digest@.subrange(1, 2));
    }
    let h2 = hex_encode(&second);
    append_bytes(&mut r, &h2);
    r.push(SEPARATOR);
    let h3 = hex_encode(digest);
    append_bytes(&mut r, &h3);
    proof {
        assert(r@ =~= digest_path(chunk_type, digest@));
    }
    r
}

} // verus!
