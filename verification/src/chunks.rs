//! Byte-chunk sequences: the shape in which part bodies arrive.
//!
//! A part's body is a finite sequence of byte chunks; its content is the
//! concatenation of the chunks in order.

use vstd::prelude::*;

verus! {

/// The mathematical content of a chunk sequence: each chunk as a `Seq<u8>`.
pub open spec fn chunk_views(chunks: Seq<Vec<u8>>) -> Seq<Seq<u8>> {
    chunks.map_values(|c: Vec<u8>| c@)
}

/// The byte content carried by a chunk sequence.
pub open spec fn chunk_bytes(chunks: Seq<Vec<u8>>) -> Seq<u8> {
    chunk_views(chunks).flatten()
}

/// Concatenating one more chunk appends its bytes.
pub proof fn lemma_chunk_bytes_push(chunks: Seq<Vec<u8>>, c: Vec<u8>)
    ensures
        chunk_bytes(chunks.push(c)) == chunk_bytes(chunks) + c@,
{
    assert(chunk_views(chunks.push(c)) =~= chunk_views(chunks).push(c@));
    chunk_views(chunks).lemma_flatten_push(c@);
    assert(chunk_bytes(chunks.push(c)) =~= chunk_bytes(chunks) + c@);
}

/// The bytes of a prefix of the chunk sequence are a prefix of its bytes;
/// in particular they are never longer.
pub proof fn lemma_chunk_bytes_take_len(chunks: Seq<Vec<u8>>, k: int)
    requires
        0 <= k <= chunks.len(),
    ensures
        chunk_bytes(chunks.take(k)).len() <= chunk_bytes(chunks).len(),
    decreases chunks.len() - k,
{
    if k < chunks.len() {
        assert(chunks.take(k + 1) =~= chunks.take(k).push(chunks[k]));
        lemma_chunk_bytes_push(chunks.take(k), chunks[k]);
        lemma_chunk_bytes_take_len(chunks, k + 1);
        assert(chunks.take(chunks.len() as int) =~= chunks);
    } else {
        assert(chunks.take(k) =~= chunks);
    }
}

/// Total byte length of a chunk sequence, or `None` where it exceeds the
/// range of `u64`.
pub fn chunk_total_len(chunks: &Vec<Vec<u8>>) -> (r: Option<u64>)
    ensures
        match r {
            Some(l) => l == chunk_bytes(chunks@).len(),
            None => chunk_bytes(chunks@).len() > u64::MAX,
        },
{
    let mut acc: u64 = 0;
    let mut k: usize = 0;
    proof {
        assert(chunks@.take(0) =~= Seq::<Vec<u8>>::empty());
    }
    while k < chunks.len()
        invariant
            k <= chunks@.len(),
            acc == chunk_bytes(chunks@.take(k as int)).len(),
        decreases chunks@.len() - k,
    {
        proof {
            assert(chunks@.take(k + 1) =~= chunks@.take(k as int).push(chunks@[k as int]));
            lemma_chunk_bytes_push(chunks@.take(k as int), chunks@[k as int]);
            lemma_chunk_bytes_take_len(chunks@, k + 1);
        }
        let l = chunks[k].len() as u64;
        if l > u64::MAX - acc {
            return None;
        }
        acc = acc + l;
        k += 1;
    }
    proof {
        assert(chunks@.take(chunks@.len() as int) =~= chunks@);
    }
    Some(acc)
}

/// Sequential consumption of an ordered chunk sequence: the whole object as
/// one contiguous byte vector.
pub fn concat_chunks(chunks: &Vec<Vec<u8>>) -> (r: Vec<u8>)
    requires
        chunk_bytes(chunks@).len() <= usize::MAX,
    ensures
        r@ == chunk_bytes(chunks@),
{
    let mut out: Vec<u8> = Vec::new();
    let mut k: usize = 0;
    while k < chunks.len()
        invariant
            k <= chunks@.len(),
            chunk_bytes(chunks@).len() <= usize::MAX,
            out@ == chunk_bytes(chunks@.take(k as int)),
        decreases chunks@.len() - k,
    {
        proof {
            assert(chunks@.take(k + 1) =~= chunks@.take(k as int).push(chunks@[k as int]));
            lemma_chunk_bytes_push(chunks@.take(k as int), chunks@[k as int]);
            lemma_chunk_bytes_take_len(chunks@, k + 1);
        }
        let mut j: usize = 0;
        let chunk = &chunks[k];
        while j < chunk.len()
            invariant
                j <= chunk@.len(),
                chunk == &chunks@[k as int],
                k < chunks@.len(),
                out@ == chunk_bytes(chunks@.take(k as int)) + chunk@.take(j as int),
                out@.len() + chunk@.len() - j <= usize::MAX,
            decreases chunk@.len() - j,
        {
            out.push(chunk[j]);
            j += 1;
            proof {
                assert(chunk@.take(j as int) =~= chunk@.take(j - 1).push(chunk@[j - 1]));
                assert(out@ =~= chunk_bytes(chunks@.take(k as int)) + chunk@.take(j as int));
            }
        }
        k += 1;
        proof {
            assert(chunk@.take(chunk@.len() as int) =~= chunk@);
        }
    }
    proof {
        assert(chunks@.take(chunks@.len() as int) =~= chunks@);
    }
    out
}

} // verus!
