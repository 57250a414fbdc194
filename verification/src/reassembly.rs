//! Positional reassembly of arrival-order tagged parts, and the ordering
//! laws it obeys.
//!
//! The unordered fetch mode surfaces parts in completion order, each tagged
//! with its 1-indexed part number. The reassembler places every part at its
//! own byte offset; because the ranges of distinct parts never overlap, the
//! completion order does not affect the final content.

use vstd::prelude::*;

use crate::chunks::chunk_bytes;
use crate::chunks::chunk_total_len;
use crate::metadata::ObjectMetadata;
use crate::staging::write_at_spec;
use crate::staging::StagingBuffer;

verus! {

/// One part as it arrives from the unordered fetch mode: its 1-indexed
/// part number and its body as a finite sequence of byte chunks.
pub struct FetchedPart {
    pub part_number: u64,
    pub chunks: Vec<Vec<u8>>,
}

impl FetchedPart {
    /// The byte content of this part.
    pub open spec fn bytes(self) -> Seq<u8> {
        chunk_bytes(self.chunks@)
    }
}

/// The arrivals form a complete fetch of the object: one arrival per part
/// number 1..=part_count, each carrying exactly that part's bytes, in any
/// arrival order.
pub open spec fn complete_fetch(meta: ObjectMetadata, arrivals: Seq<FetchedPart>) -> bool {
    &&& arrivals.len() == meta.part_count
    &&& forall|i: int|
        0 <= i < arrivals.len() ==> meta.valid_part((#[trigger] arrivals[i]).part_number as int)
    &&& forall|i: int, j: int|
        0 <= i < arrivals.len() && 0 <= j < arrivals.len() && i != j ==> (#[trigger] arrivals[i]).part_number
            != (#[trigger] arrivals[j]).part_number
    &&& forall|p: int|
        #[trigger] meta.valid_part(p) ==> exists|i: int|
            0 <= i < arrivals.len() && (#[trigger] arrivals[i]).part_number == p
    &&& forall|i: int|
        0 <= i < arrivals.len() ==> (#[trigger] arrivals[i]).bytes().len() == meta.spec_part_len(
            arrivals[i].part_number as int,
        )
}

/// The bytes of the arrival tagged with part number `p`.
pub open spec fn part_bytes(arrivals: Seq<FetchedPart>, p: int) -> Seq<u8> {
    let i = choose|i: int| 0 <= i < arrivals.len() && (#[trigger] arrivals[i]).part_number == p;
    arrivals[i].bytes()
}

/// Concatenation of the bytes of parts `1..=k`, in part-number order.
pub open spec fn ordered_bytes(meta: ObjectMetadata, arrivals: Seq<FetchedPart>, k: int) -> Seq<
    u8,
>
    decreases k,
{
    if k <= 0 {
        Seq::empty()
    } else {
        ordered_bytes(meta, arrivals, k - 1) + part_bytes(arrivals, k)
    }
}

/// The object's content: all parts concatenated in part-number order.
pub open spec fn object_content(meta: ObjectMetadata, arrivals: Seq<FetchedPart>) -> Seq<u8> {
    ordered_bytes(meta, arrivals, meta.part_count as int)
}

/// The byte length of the concatenation of parts `1..=k`.
pub open spec fn ordered_len(meta: ObjectMetadata, k: int) -> int {
    if k >= meta.part_count {
        meta.total_size as int
    } else {
        k * meta.per_part_size
    }
}

/// Disjointness: the byte ranges of two distinct parts never overlap; the
/// lower-numbered part's range ends no later than the other one starts.
pub proof fn lemma_part_ranges_disjoint(meta: ObjectMetadata, p: int, q: int)
    requires
        meta.wf(),
        meta.valid_part(p),
        meta.valid_part(q),
        p != q,
    ensures
        p < q ==> meta.spec_part_offset(p) + meta.spec_part_len(p) <= meta.spec_part_offset(q),
        q < p ==> meta.spec_part_offset(q) + meta.spec_part_len(q) <= meta.spec_part_offset(p),
{
    meta.lemma_offset_bounded(p);
    meta.lemma_offset_bounded(q);
    if p < q {
        assert(p * meta.per_part_size <= (q - 1) * meta.per_part_size) by (nonlinear_arith)
            requires
                p <= q - 1,
                0 <= meta.per_part_size,
        ;
        assert((p - 1) * meta.per_part_size + meta.per_part_size == p * meta.per_part_size)
            by (nonlinear_arith);
    } else {
        assert(q * meta.per_part_size <= (p - 1) * meta.per_part_size) by (nonlinear_arith)
            requires
                q <= p - 1,
                0 <= meta.per_part_size,
        ;
        assert((q - 1) * meta.per_part_size + meta.per_part_size == q * meta.per_part_size)
            by (nonlinear_arith);
    }
}

/// The ordered length grows by exactly one part's length at each step and
/// stays within the object.
proof fn lemma_ordered_len_step(meta: ObjectMetadata, k: int)
    requires
        meta.wf(),
        1 <= k <= meta.part_count,
    ensures
        ordered_len(meta, k) == ordered_len(meta, k - 1) + meta.spec_part_len(k),
        ordered_len(meta, k - 1) == meta.spec_part_offset(k),
        ordered_len(meta, k) <= meta.total_size,
        0 <= ordered_len(meta, k - 1),
{
    meta.lemma_offset_bounded(k);
    if k < meta.part_count {
        assert(k * meta.per_part_size == (k - 1) * meta.per_part_size + meta.per_part_size)
            by (nonlinear_arith);
        assert(k * meta.per_part_size <= (meta.part_count - 1) * meta.per_part_size)
            by (nonlinear_arith)
            requires
                k <= meta.part_count - 1,
                0 <= meta.per_part_size,
        ;
    }
}

/// Reassembly correctness: a buffer of the object's total size in which
/// every part's bytes stand at that part's own offset — however the parts
/// arrived — equals the concatenation of the parts in part-number order.
pub proof fn lemma_reassembly_is_ordered_concat(
    meta: ObjectMetadata,
    arrivals: Seq<FetchedPart>,
    out: Seq<u8>,
)
    requires
        meta.wf(),
        complete_fetch(meta, arrivals),
        out.len() == meta.total_size,
        forall|i: int|
            0 <= i < arrivals.len() ==> out.subrange(
                meta.spec_part_offset((#[trigger] arrivals[i]).part_number as int),
                meta.spec_part_offset(arrivals[i].part_number as int) + meta.spec_part_len(
                    arrivals[i].part_number as int,
                ),
            ) == arrivals[i].bytes(),
    ensures
        out == object_content(meta, arrivals),
{
    lemma_ordered_prefix(meta, arrivals, out, meta.part_count as int);
    assert(out.take(meta.total_size as int) =~= out);
}

/// Induction for `lemma_reassembly_is_ordered_concat`: the concatenation of
/// parts `1..=k` is the prefix of the buffer up to their combined length.
proof fn lemma_ordered_prefix(
    meta: ObjectMetadata,
    arrivals: Seq<FetchedPart>,
    out: Seq<u8>,
    k: int,
)
    requires
        meta.wf(),
        complete_fetch(meta, arrivals),
        out.len() == meta.total_size,
        0 <= k <= meta.part_count,
        forall|i: int|
            0 <= i < arrivals.len() ==> out.subrange(
                meta.spec_part_offset((#[trigger] arrivals[i]).part_number as int),
                meta.spec_part_offset(arrivals[i].part_number as int) + meta.spec_part_len(
                    arrivals[i].part_number as int,
                ),
            ) == arrivals[i].bytes(),
    ensures
        ordered_bytes(meta, arrivals, k) == out.take(ordered_len(meta, k)),
    decreases k,
{
    if k == 0 {
        assert(ordered_len(meta, 0) == 0);
        assert(ordered_bytes(meta, arrivals, 0) =~= out.take(0));
    } else {
        lemma_ordered_prefix(meta, arrivals, out, k - 1);
        lemma_ordered_len_step(meta, k);
        assert(meta.valid_part(k));
        let j = choose|i: int|
            0 <= i < arrivals.len() && (#[trigger] arrivals[i]).part_number == k;
        assert(0 <= j < arrivals.len() && arrivals[j].part_number == k);
        assert(part_bytes(arrivals, k) == arrivals[j].bytes());
        let lo = meta.spec_part_offset(k);
        let hi = lo + meta.spec_part_len(k);
        assert(out.subrange(lo, hi) == arrivals[j].bytes());
        assert(out.take(ordered_len(meta, k)) =~= out.take(lo) + out.subrange(lo, hi));
    }
}

/// Runtime check that arrival-tagged parts form a complete fetch, for
/// callers that receive them from the network and cannot assume their
/// shape: one arrival per part number, each of that part's exact length.
pub fn validate_arrivals(meta: &ObjectMetadata, arrivals: &Vec<FetchedPart>) -> (r: bool)
    requires
        meta.wf(),
    ensures
        r == complete_fetch(*meta, arrivals@),
{
    let n = arrivals.len();
    if n as u64 != meta.part_count {
        return false;
    }
    let mut seen: Vec<bool> = Vec::new();
    let mut s: usize = 0;
    while s < n
        invariant
            seen@.len() == s <= n,
            forall|t: int| 0 <= t < s ==> !(#[trigger] seen@[t]),
        decreases n - s,
    {
        seen.push(false);
        s += 1;
    }
    let mut k: usize = 0;
    while k < n
        invariant
            meta.wf(),
            k <= n,
            n == arrivals@.len(),
            n as u64 == meta.part_count,
            seen@.len() == n,
            forall|t: int|
                0 <= t < n ==> ((#[trigger] seen@[t]) <==> exists|i: int|
                    0 <= i < k && (#[trigger] arrivals@[i]).part_number == t + 1),
            forall|i: int|
                0 <= i < k ==> meta.valid_part((#[trigger] arrivals@[i]).part_number as int),
            forall|i: int, j: int|
                0 <= i < k && 0 <= j < k && i != j ==> (#[trigger] arrivals@[i]).part_number != (
                #[trigger] arrivals@[j]).part_number,
            forall|i: int|
                0 <= i < k ==> (#[trigger] arrivals@[i]).bytes().len() == meta.spec_part_len(
                    arrivals@[i].part_number as int,
                ),
        decreases n - k,
    {
        let p = arrivals[k].part_number;
        if p < 1 || p > meta.part_count {
            proof {
                assert(complete_fetch(*meta, arrivals@) ==> meta.valid_part(
                    arrivals@[k as int].part_number as int,
                ));
            }
            return false;
        }
        let idx = (p - 1) as usize;
        if seen[idx] {
            proof {
                let i = choose|i: int|
                    0 <= i < k && (#[trigger] arrivals@[i]).part_number == idx + 1;
                assert(arrivals@[i].part_number == arrivals@[k as int].part_number);
                assert(complete_fetch(*meta, arrivals@) ==> arrivals@[i].part_number
                    != arrivals@[k as int].part_number);
            }
            return false;
        }
        seen.set(idx, true);
        proof {
            assert forall|t: int|
                0 <= t < n implies ((#[trigger] seen@[t]) <==> exists|i: int|
                0 <= i < k + 1 && (#[trigger] arrivals@[i]).part_number == t + 1) by {
                if t == idx {
                    assert(arrivals@[k as int].part_number == t + 1);
                } else {
                    assert(arrivals@[k as int].part_number != t + 1);
                }
            }
        }
        match chunk_total_len(&arrivals[k].chunks) {
            Some(l) => {
                let expected = meta.part_len(p);
                if l != expected {
                    proof {
                        assert(arrivals@[k as int].bytes().len() == l);
                        assert(complete_fetch(*meta, arrivals@)
                            ==> arrivals@[k as int].bytes().len() == meta.spec_part_len(
                            arrivals@[k as int].part_number as int,
                        ));
                    }
                    return false;
                }
            },
            None => {
                proof {
                    meta.lemma_offset_bounded(p as int);
                    assert(complete_fetch(*meta, arrivals@) ==> arrivals@[k as int].bytes().len()
                        == meta.spec_part_len(arrivals@[k as int].part_number as int));
                }
                return false;
            },
        }
        k += 1;
    }
    let mut j: usize = 0;
    while j < n
        invariant
            j <= n,
            n == arrivals@.len(),
            n as u64 == meta.part_count,
            seen@.len() == n,
            forall|t: int|
                0 <= t < n ==> ((#[trigger] seen@[t]) <==> exists|i: int|
                    0 <= i < n && (#[trigger] arrivals@[i]).part_number == t + 1),
            forall|t: int| 0 <= t < j ==> (#[trigger] seen@[t]),
        decreases n - j,
    {
        if !seen[j] {
            proof {
                assert(meta.valid_part(j + 1));
                assert(complete_fetch(*meta, arrivals@) ==> exists|i: int|
                    0 <= i < arrivals@.len() && (#[trigger] arrivals@[i]).part_number == j + 1);
            }
            return false;
        }
        j += 1;
    }
    proof {
        assert forall|p: int| #[trigger]
            meta.valid_part(p) implies exists|i: int|
            0 <= i < arrivals@.len() && (#[trigger] arrivals@[i]).part_number == p by {
            assert(seen@[p - 1]);
        }
    }
    true
}

/// Positional reassembly: place every arriving part's bytes at that part's
/// own offset in the staging buffer, in whatever order the parts arrived.
///
/// Writes for different parts target disjoint ranges, so in the concurrent
/// setting they may execute in any interleaving; this sequential loop
/// realizes one such order and the contract shows the content is
/// independent of it.
pub fn reassemble(meta: &ObjectMetadata, arrivals: &Vec<FetchedPart>) -> (r: StagingBuffer)
    requires
        meta.wf(),
        complete_fetch(*meta, arrivals@),
        meta.total_size <= usize::MAX,
    ensures
        r@.len() == meta.total_size,
        forall|i: int|
            0 <= i < arrivals@.len() ==> r@.subrange(
                meta.spec_part_offset((#[trigger] arrivals@[i]).part_number as int),
                meta.spec_part_offset(arrivals@[i].part_number as int) + meta.spec_part_len(
                    arrivals@[i].part_number as int,
                ),
            ) == arrivals@[i].bytes(),
        r@ == object_content(*meta, arrivals@),
{
    let mut buf = StagingBuffer::new();
    let n = arrivals.len();
    let mut k: usize = 0;
    while k < n
        invariant
            meta.wf(),
            complete_fetch(*meta, arrivals@),
            meta.total_size <= usize::MAX,
            k <= n,
            n == arrivals@.len(),
            buf@.len() <= meta.total_size,
            forall|i: int|
                0 <= i < k ==> meta.spec_part_offset((#[trigger] arrivals@[i]).part_number as int)
                    + meta.spec_part_len(arrivals@[i].part_number as int) <= buf@.len(),
            forall|i: int, q: int|
                0 <= i < k && 0 <= q < meta.spec_part_len(
                    (#[trigger] arrivals@[i]).part_number as int,
                ) ==> buf@[meta.spec_part_offset(arrivals@[i].part_number as int) + q] == (
                #[trigger] arrivals@[i].bytes()[q]),
        decreases n - k,
    {
        let p = arrivals[k].part_number;
        proof {
            assert(meta.valid_part(arrivals@[k as int].part_number as int));
            meta.lemma_offset_bounded(p as int);
            assert(arrivals@[k as int].bytes().len() == meta.spec_part_len(p as int));
        }
        let off = meta.part_offset(p);
        let ghost before: Seq<u8> = buf@;
        buf.write_part(off as usize, &arrivals[k].chunks);
        proof {
            let lenp = meta.spec_part_len(p as int);
            let offp = meta.spec_part_offset(p as int);
            assert(buf@ == write_at_spec(before, offp, arrivals@[k as int].bytes()));
            assert(buf@.len() <= meta.total_size);
            assert forall|i: int, q: int|
                0 <= i < k + 1 && 0 <= q < meta.spec_part_len(
                    (#[trigger] arrivals@[i]).part_number as int,
                ) implies buf@[meta.spec_part_offset(arrivals@[i].part_number as int) + q] == (
            #[trigger] arrivals@[i].bytes()[q]) by {
                let pi = arrivals@[i].part_number as int;
                if i < k {
                    assert(arrivals@[i].part_number != arrivals@[k as int].part_number);
                    lemma_part_ranges_disjoint(*meta, pi, p as int);
                    assert(buf@[meta.spec_part_offset(pi) + q] == before[meta.spec_part_offset(pi)
                        + q]);
                } else {
                    assert(buf@[offp + q] == arrivals@[k as int].bytes()[q]);
                }
            }
            assert forall|i: int|
                0 <= i < k + 1 implies meta.spec_part_offset(
                (#[trigger] arrivals@[i]).part_number as int,
            ) + meta.spec_part_len(arrivals@[i].part_number as int) <= buf@.len() by {
                meta.lemma_offset_bounded(arrivals@[i].part_number as int);
            }
        }
        k += 1;
    }
    proof {
        let n_int = meta.part_count as int;
        assert(meta.valid_part(n_int));
        let j = choose|i: int|
            0 <= i < arrivals@.len() && (#[trigger] arrivals@[i]).part_number == n_int;
        assert(0 <= j < arrivals@.len() && arrivals@[j].part_number == n_int);
        assert(meta.spec_part_offset(n_int) + meta.spec_part_len(n_int) == meta.total_size);
        assert(buf@.len() == meta.total_size);
        assert forall|i: int| 0 <= i < arrivals@.len() implies buf@.subrange(
            meta.spec_part_offset((#[trigger] arrivals@[i]).part_number as int),
            meta.spec_part_offset(arrivals@[i].part_number as int) + meta.spec_part_len(
                arrivals@[i].part_number as int,
            ),
        ) == arrivals@[i].bytes() by {
            let pi = arrivals@[i].part_number as int;
            meta.lemma_offset_bounded(pi);
            assert(buf@.subrange(
                meta.spec_part_offset(pi),
                meta.spec_part_offset(pi) + meta.spec_part_len(pi),
            ) =~= arrivals@[i].bytes());
        }
        lemma_reassembly_is_ordered_concat(*meta, arrivals@, buf@);
    }
    buf
}

} // verus!
