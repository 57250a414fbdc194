//! The staging buffer: an in-memory model of the staging file.
//!
//! All writes of a download target this buffer alone; only on full success
//! is its content published to the destination. A positional write names
//! its own byte offset, independent of any cursor; writing past the current
//! end first extends the buffer with zero bytes, as write-at-offset file
//! semantics do.
//!
//! Correctness of concurrent use relies on the disjoint-range invariant
//! stated in `reassembly`, not on any locking: distinct parts write
//! non-overlapping ranges, so the order in which `write_part` is applied
//! for different parts does not change the final content.

use vstd::prelude::*;

use crate::chunks::chunk_bytes;
use crate::chunks::lemma_chunk_bytes_push;
use crate::chunks::lemma_chunk_bytes_take_len;

verus! {

/// The content after placing `chunk` at byte offset `offset` of `data`:
/// the touched range holds the chunk, any gap between the old end and the
/// offset holds zero bytes, and everything else is unchanged.
pub open spec fn write_at_spec(data: Seq<u8>, offset: int, chunk: Seq<u8>) -> Seq<u8>
    recommends
        0 <= offset,
{
    let end = offset + chunk.len();
    let n = if chunk.len() == 0 || data.len() >= end {
        data.len() as int
    } else {
        end
    };
    Seq::new(
        n as nat,
        |q: int|
            if offset <= q < end {
                chunk[q - offset]
            } else if q < data.len() {
                data[q]
            } else {
                0u8
            },
    )
}

/// Two consecutive positional writes are one write of the concatenation.
pub proof fn lemma_write_at_append(data: Seq<u8>, offset: int, c1: Seq<u8>, c2: Seq<u8>)
    requires
        0 <= offset,
    ensures
        write_at_spec(write_at_spec(data, offset, c1), offset + c1.len(), c2) == write_at_spec(
            data,
            offset,
            c1 + c2,
        ),
{
    assert(write_at_spec(write_at_spec(data, offset, c1), offset + c1.len(), c2) =~= write_at_spec(
        data,
        offset,
        c1 + c2,
    ));
}

/// A uniquely named temporary file exclusively owned by one in-flight
/// download, modelled by its byte content. Fresh and empty on creation.
pub struct StagingBuffer {
    data: Vec<u8>,
}

impl View for StagingBuffer {
    type V = Seq<u8>;

    closed spec fn view(&self) -> Seq<u8> {
        self.data@
    }
}

impl StagingBuffer {
    /// A fresh, empty staging buffer.
    pub fn new() -> (r: StagingBuffer)
        ensures
            r@ == Seq::<u8>::empty(),
    {
        StagingBuffer { data: Vec::new() }
    }

    pub fn len(&self) -> (r: usize)
        ensures
            r == self@.len(),
    {
        self.data.len()
    }

    /// Hand the accumulated content out for publication.
    pub fn into_bytes(self) -> (r: Vec<u8>)
        ensures
            r@ == self@,
    {
        self.data
    }

    /// One positional write of `chunk` at `offset`.
    ///
    /// On platforms lacking an atomic positional write of arbitrary length
    /// the underlying file write advances offset and length after each
    /// partial write; this loop verifies that advancing discipline.
    pub fn write_at(&mut self, offset: usize, chunk: &Vec<u8>)
        requires
            offset + chunk@.len() <= usize::MAX,
        ensures
            final(self)@ == write_at_spec(old(self)@, offset as int, chunk@),
    {
        if chunk.len() == 0 {
            proof {
                assert(self@ =~= write_at_spec(self@, offset as int, chunk@));
            }
            return ;
        }
        let ghost orig: Seq<u8> = self@;
        while self.data.len() < offset
            invariant
                orig.len() < offset ==> orig.len() <= self.data@.len() <= offset,
                orig.len() >= offset ==> self.data@ == orig,
                forall|q: int| 0 <= q < orig.len() && q < self.data@.len() ==> self.data@[q] == orig[q],
                forall|q: int| orig.len() <= q < self.data@.len() ==> self.data@[q] == 0u8,
            decreases offset - self.data.len(),
        {
            self.data.push(0u8);
        }
        let ghost padded: Seq<u8> = self.data@;
        let mut i: usize = 0;
        while i < chunk.len()
            invariant
                i <= chunk@.len(),
                offset + chunk@.len() <= usize::MAX,
                padded.len() >= offset,
                orig.len() >= offset ==> padded == orig,
                orig.len() < offset ==> padded.len() == offset,
                forall|q: int| 0 <= q < orig.len() && q < padded.len() ==> padded[q] == orig[q],
                forall|q: int| orig.len() <= q < padded.len() ==> padded[q] == 0u8,
                self.data@.len() == if padded.len() >= offset + i {
                    padded.len() as int
                } else {
                    offset + i
                },
                forall|q: int|
                    0 <= q < self.data@.len() && !(offset <= q < offset + i) ==> self.data@[q]
                        == padded[q],
                forall|q: int| offset <= q < offset + i ==> self.data@[q] == chunk@[q - offset],
            decreases chunk@.len() - i,
        {
            let pos = offset + i;
            if pos < self.data.len() {
                self.data.set(pos, chunk[i]);
            } else {
                self.data.push(chunk[i]);
            }
            i += 1;
        }
        proof {
            let res = write_at_spec(orig, offset as int, chunk@);
            assert(self.data@.len() == res.len());
            assert forall|q: int| 0 <= q < res.len() implies self.data@[q] == res[q] by {
                if offset <= q < offset + chunk@.len() {
                    assert(self.data@[q] == chunk@[q - offset]);
                } else {
                    assert(q < padded.len());
                    assert(self.data@[q] == padded[q]);
                    if q < orig.len() {
                        assert(padded[q] == orig[q]);
                    } else {
                        assert(padded[q] == 0u8);
                    }
                }
            }
            assert(self.data@ =~= res);
        }
    }

    /// Drain one part's chunk sequence: one positional write per chunk at
    /// the running offset, which starts at `base` and advances by each
    /// chunk's length. Writes within one part are strictly sequential,
    /// because the running offset is part-local mutable state.
    pub fn write_part(&mut self, base: usize, chunks: &Vec<Vec<u8>>)
        requires
            base + chunk_bytes(chunks@).len() <= usize::MAX,
        ensures
            final(self)@ == write_at_spec(old(self)@, base as int, chunk_bytes(chunks@)),
    {
        let ghost orig: Seq<u8> = self@;
        let mut offset: usize = base;
        let mut k: usize = 0;
        proof {
            assert(chunks@.take(0) =~= Seq::<Vec<u8>>::empty());
            assert(chunk_bytes(chunks@.take(0)) =~= Seq::<u8>::empty());
            assert(self@ =~= write_at_spec(orig, base as int, chunk_bytes(chunks@.take(0))));
        }
        while k < chunks.len()
            invariant
                k <= chunks@.len(),
                base + chunk_bytes(chunks@).len() <= usize::MAX,
                offset == base + chunk_bytes(chunks@.take(k as int)).len(),
                offset <= base + chunk_bytes(chunks@).len(),
                self@ == write_at_spec(orig, base as int, chunk_bytes(chunks@.take(k as int))),
            decreases chunks@.len() - k,
        {
            let ghost before = chunk_bytes(chunks@.take(k as int));
            proof {
                assert(chunks@.take(k + 1) =~= chunks@.take(k as int).push(chunks@[k as int]));
                lemma_chunk_bytes_push(chunks@.take(k as int), chunks@[k as int]);
                lemma_chunk_bytes_take_len(chunks@, k + 1);
            }
            self.write_at(offset, &chunks[k]);
            proof {
                lemma_write_at_append(orig, base as int, before, chunks@[k as int]@);
            }
            offset = offset + chunks[k].len();
            k += 1;
        }
        proof {
            assert(chunks@.take(chunks@.len() as int) =~= chunks@);
        }
    }
}

} // verus!
