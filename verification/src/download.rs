//! The download orchestrator: the two usage modes' content pipelines and
//! their fail-fast error discipline.
//!
//! Both modes share the fetch layer. The ordered mode surfaces per-part
//! results strictly in part-number order (`OrderedFetch`); the unordered
//! mode surfaces arrival-tagged parts (`Vec<Result<FetchedPart, _>>`).
//! Only the ordered type composes with the decompression adapter, so
//! attaching the decoder to unordered output is impossible by construction.

use vstd::prelude::*;

use crate::chunks::concat_chunks;
use crate::decompress::decompress_bytes;
use crate::decompress::gunzip_of;
use crate::decompress::gunzip_ok_of;
use crate::errors::DownloadError;
use crate::metadata::ObjectMetadata;
use crate::reassembly::complete_fetch;
use crate::reassembly::object_content;
use crate::reassembly::ordered_bytes;
use crate::reassembly::part_bytes;
use crate::reassembly::reassemble;
use crate::reassembly::validate_arrivals;
use crate::reassembly::FetchedPart;

verus! {

/// The first failure in a sequence of per-item results: the one error a
/// fail-fast consumer surfaces.
pub open spec fn spec_first_error<T>(rs: Seq<Result<T, DownloadError>>) -> Option<DownloadError>
    decreases rs.len(),
{
    if rs.len() == 0 {
        None
    } else {
        match rs[0] {
            Result::Err(e) => Some(e),
            Result::Ok(_) => spec_first_error(rs.drop_first()),
        }
    }
}

/// The payloads of an all-successful result sequence.
pub open spec fn unwrap_oks<T>(rs: Seq<Result<T, DownloadError>>) -> Seq<T> {
    rs.map_values(|r: Result<T, DownloadError>| r->Ok_0)
}

/// Skipping an all-successful prefix does not change the first failure.
proof fn lemma_first_error_skip<T>(rs: Seq<Result<T, DownloadError>>, k: int)
    requires
        0 <= k <= rs.len(),
        forall|i: int| 0 <= i < k ==> (#[trigger] rs[i]) is Ok,
    ensures
        spec_first_error(rs) == spec_first_error(rs.skip(k)),
    decreases k,
{
    if k > 0 {
        assert(rs[0] is Ok);
        assert(forall|i: int| 0 <= i < k - 1 ==> (#[trigger] rs.drop_first()[i]) is Ok);
        lemma_first_error_skip(rs.drop_first(), k - 1);
        assert(rs.drop_first().skip(k - 1) =~= rs.skip(k));
    } else {
        assert(rs.skip(0) =~= rs);
    }
}

/// Fail-fast collection: all payloads in order, or the first error.
pub fn collect_results<T>(results: Vec<Result<T, DownloadError>>) -> (r: Result<
    Vec<T>,
    DownloadError,
>)
    ensures
        match r {
            Ok(items) => spec_first_error(results@) is None && items@ == unwrap_oks(results@),
            Err(e) => spec_first_error(results@) == Some(e),
        },
{
    let ghost all: Seq<Result<T, DownloadError>> = results@;
    let mut rest = results;
    let mut items: Vec<T> = Vec::new();
    let ghost mut k: int = 0;
    proof {
        assert(all.skip(0) =~= all);
    }
    while rest.len() > 0
        invariant
            all == results@,
            0 <= k <= all.len(),
            rest@ == all.skip(k),
            items@.len() == k,
            forall|i: int| 0 <= i < k ==> (#[trigger] all[i]) is Ok,
            forall|i: int| 0 <= i < k ==> items@[i] == (#[trigger] all[i])->Ok_0,
        decreases rest@.len(),
    {
        let item = rest.remove(0);
        proof {
            assert(all.skip(k)[0] == all[k]);
            assert(all.skip(k).remove(0) =~= all.skip(k + 1));
        }
        match item {
            Ok(t) => {
                items.push(t);
                proof {
                    k = k + 1;
                }
            },
            Err(e) => {
                proof {
                    lemma_first_error_skip(all, k);
                    assert(all.skip(k).len() > 0);
                    assert(all.skip(k)[0] == Err::<T, DownloadError>(e));
                    assert(spec_first_error(all.skip(k)) == Some(e));
                }
                return Err(e);
            },
        }
    }
    proof {
        lemma_first_error_skip(all, k);
        assert(all.skip(k).len() == 0);
        assert(items@ =~= unwrap_oks(all));
    }
    Ok(items)
}

/// The outcome of a successful materialize-to-file download: the metadata
/// the transfer ran under, and a content hash that collaborators outside
/// this core may fill in later — it is never computed here.
pub struct DownloadResult {
    pub object_metadata: ObjectMetadata,
    pub content_hash: Option<Vec<u8>>,
}

/// The result a finished materialize-to-file download reports: its
/// metadata, with no content hash.
pub fn download_result(meta: ObjectMetadata) -> (r: DownloadResult)
    ensures
        r.object_metadata == meta,
        r.content_hash is None,
{
    DownloadResult { object_metadata: meta, content_hash: None }
}

/// The fetch plan both modes share: one request per part number, for
/// `1..=part_count` in order. The fetch layer issues these lazily with
/// bounded concurrency; the bound caps simultaneous outstanding requests
/// and is configuration, not a per-call parameter.
pub fn part_numbers(part_count: u64) -> (v: Vec<u64>)
    requires
        part_count <= usize::MAX,
    ensures
        v@.len() == part_count,
        forall|i: int| 0 <= i < part_count ==> v@[i] == i + 1,
{
    let n = part_count as usize;
    let mut v: Vec<u64> = Vec::new();
    let mut i: usize = 0;
    while i < n
        invariant
            i <= n,
            n == part_count,
            v@.len() == i,
            forall|j: int| 0 <= j < i ==> v@[j] == j + 1,
        decreases n - i,
    {
        v.push((i as u64) + 1);
        i += 1;
    }
    v
}

/// Whether a download runs the ordered fetch through the decompression
/// adapter: exactly when the caller asked for transparent decompression
/// and the object carries the compression marker.
pub fn uses_decompression(meta: &ObjectMetadata, decompress: bool) -> (r: bool)
    ensures
        r == (decompress && meta.is_compressed),
{
    decompress && meta.is_compressed
}

/// The ordered fetch output as one byte sequence: the parts' bytes
/// concatenated in the order they stand.
pub open spec fn stream_parts_bytes(parts: Seq<FetchedPart>) -> Seq<u8> {
    parts.map_values(|fp: FetchedPart| fp.bytes()).flatten()
}

/// The parts stand strictly in part-number order.
pub open spec fn in_part_order(parts: Seq<FetchedPart>) -> bool {
    forall|i: int| 0 <= i < parts.len() ==> (#[trigger] parts[i]).part_number == i + 1
}

/// One more part appends its bytes to the stream.
proof fn lemma_stream_parts_bytes_push(parts: Seq<FetchedPart>, fp: FetchedPart)
    ensures
        stream_parts_bytes(parts.push(fp)) == stream_parts_bytes(parts) + fp.bytes(),
{
    let f = |p: FetchedPart| p.bytes();
    assert(parts.push(fp).map_values(f) =~= parts.map_values(f).push(fp.bytes()));
    parts.map_values(f).lemma_flatten_push(fp.bytes());
    assert(stream_parts_bytes(parts.push(fp)) =~= stream_parts_bytes(parts) + fp.bytes());
}

/// A prefix of the parts carries no more bytes than all of them.
proof fn lemma_stream_parts_bytes_take_len(parts: Seq<FetchedPart>, k: int)
    requires
        0 <= k <= parts.len(),
    ensures
        stream_parts_bytes(parts.take(k)).len() <= stream_parts_bytes(parts).len(),
    decreases parts.len() - k,
{
    if k < parts.len() {
        assert(parts.take(k + 1) =~= parts.take(k).push(parts[k]));
        lemma_stream_parts_bytes_push(parts.take(k), parts[k]);
        lemma_stream_parts_bytes_take_len(parts, k + 1);
        assert(parts.take(parts.len() as int) =~= parts);
    } else {
        assert(parts.take(k) =~= parts);
    }
}

/// Ordered-mode fetch output: per-part results strictly in part-number
/// order. A distinct type from the arrival-tagged unordered output, so the
/// decompression adapter composes only with ordered data.
pub struct OrderedFetch {
    pub parts: Vec<Result<FetchedPart, DownloadError>>,
}

impl OrderedFetch {
    /// The first failure of the underlying part requests, if any.
    pub open spec fn first_error(self) -> Option<DownloadError> {
        spec_first_error(self.parts@)
    }

    /// The stream's byte content when every part request succeeded.
    pub open spec fn bytes(self) -> Seq<u8> {
        stream_parts_bytes(unwrap_oks(self.parts@))
    }
}

/// Consume the ordered stream in full: the whole object as one contiguous
/// byte vector, or the first failure (fail-fast).
pub fn consume_ordered(stream: OrderedFetch) -> (r: Result<Vec<u8>, DownloadError>)
    requires
        stream.bytes().len() <= usize::MAX,
    ensures
        match r {
            Ok(b) => stream.first_error() is None && b@ == stream.bytes(),
            Err(e) => stream.first_error() == Some(e),
        },
{
    let ghost whole: Seq<u8> = stream.bytes();
    let parts = match collect_results(stream.parts) {
        Ok(p) => p,
        Err(e) => {
            return Err(e);
        },
    };
    let mut out: Vec<u8> = Vec::new();
    let mut k: usize = 0;
    proof {
        assert(parts@.take(0) =~= Seq::<FetchedPart>::empty());
        assert(stream_parts_bytes(parts@.take(0)) =~= Seq::<u8>::empty());
    }
    while k < parts.len()
        invariant
            k <= parts@.len(),
            stream_parts_bytes(parts@).len() <= usize::MAX,
            out@ == stream_parts_bytes(parts@.take(k as int)),
        decreases parts@.len() - k,
    {
        proof {
            assert(parts@.take(k + 1) =~= parts@.take(k as int).push(parts@[k as int]));
            lemma_stream_parts_bytes_push(parts@.take(k as int), parts@[k as int]);
            lemma_stream_parts_bytes_take_len(parts@, k + 1);
        }
        let mut piece = concat_chunks(&parts[k].chunks);
        out.append(&mut piece);
        k += 1;
    }
    proof {
        assert(parts@.take(parts@.len() as int) =~= parts@);
    }
    Ok(out)
}

/// The stream entry point's content, fully consumed: the ordered bytes raw,
/// or their gzip plaintext when transparent decompression applies to this
/// object. No local persistence is involved. Success is owed whenever
/// every part request succeeded and, on the decompression path, the
/// fetched bytes form a well-formed gzip stream.
pub fn stream_content(meta: &ObjectMetadata, stream: OrderedFetch, decompress: bool) -> (r: Result<
    Vec<u8>,
    DownloadError,
>)
    requires
        stream.bytes().len() <= usize::MAX,
    ensures
        match r {
            Ok(b) => {
                &&& stream.first_error() is None
                &&& (decompress && meta.is_compressed) ==> b@ == gunzip_of(stream.bytes())
                &&& !(decompress && meta.is_compressed) ==> b@ == stream.bytes()
            },
            Err(e) => {
                if stream.first_error() is Some {
                    stream.first_error() == Some(e)
                } else {
                    &&& decompress && meta.is_compressed
                    &&& !gunzip_ok_of(stream.bytes())
                    &&& e == DownloadError::IoError
                }
            },
        },
        stream.first_error() is None && !(decompress && meta.is_compressed) ==> r is Ok,
        stream.first_error() is None && decompress && meta.is_compressed && gunzip_ok_of(
            stream.bytes(),
        ) ==> r is Ok,
{
    let raw = match consume_ordered(stream) {
        Ok(b) => b,
        Err(e) => {
            return Err(e);
        },
    };
    if uses_decompression(meta, decompress) {
        decompress_bytes(&raw)
    } else {
        Ok(raw)
    }
}

/// Materialize-to-file content on the ordered path, taken when transparent
/// decompression applies: decode the ordered stream and stage its
/// plaintext. Success is owed whenever every part request succeeded and
/// the fetched bytes form a well-formed gzip stream.
pub fn decompressed_file_content(stream: OrderedFetch) -> (r: Result<Vec<u8>, DownloadError>)
    requires
        stream.bytes().len() <= usize::MAX,
    ensures
        match r {
            Ok(b) => stream.first_error() is None && b@ == gunzip_of(stream.bytes()),
            Err(e) => {
                if stream.first_error() is Some {
                    stream.first_error() == Some(e)
                } else {
                    !gunzip_ok_of(stream.bytes()) && e == DownloadError::IoError
                }
            },
        },
        stream.first_error() is None && gunzip_ok_of(stream.bytes()) ==> r is Ok,
{
    let raw = match consume_ordered(stream) {
        Ok(b) => b,
        Err(e) => {
            return Err(e);
        },
    };
    decompress_bytes(&raw)
}

/// Materialize-to-file content on the positional path, taken when no
/// transparent decompression applies: fail fast on the first fetch
/// failure, refuse an incomplete or ill-sized set of arrivals, and
/// reassemble the parts positionally.
///
/// Success is owed exactly when every part request succeeded and the
/// arrivals form a complete fetch; on any failure no content is produced,
/// so nothing is ever published to the destination (all-or-nothing).
/// Whether to validate part sizes against the storage convention is left
/// open by that convention; here a deviating collaborator is surfaced as
/// `TransportError`.
pub fn positional_file_content(
    meta: &ObjectMetadata,
    results: Vec<Result<FetchedPart, DownloadError>>,
) -> (r: Result<Vec<u8>, DownloadError>)
    requires
        meta.wf(),
        meta.total_size <= usize::MAX,
    ensures
        match r {
            Ok(b) => {
                &&& spec_first_error(results@) is None
                &&& complete_fetch(*meta, unwrap_oks(results@))
                &&& b@ == object_content(*meta, unwrap_oks(results@))
                &&& b@.len() == meta.total_size
            },
            Err(e) => {
                if spec_first_error(results@) is Some {
                    spec_first_error(results@) == Some(e)
                } else {
                    !complete_fetch(*meta, unwrap_oks(results@)) && e
                        == DownloadError::TransportError
                }
            },
        },
{
    let parts = match collect_results(results) {
        Ok(p) => p,
        Err(e) => {
            return Err(e);
        },
    };
    if !validate_arrivals(meta, &parts) {
        return Err(DownloadError::TransportError);
    }
    Ok(reassemble(meta, &parts).into_bytes())
}

/// Streaming/file equivalence for an uncompressed transfer: when the
/// ordered mode delivers the same parts in part-number order that the
/// unordered mode delivered arrival-tagged, full consumption of the
/// ordered stream equals the positionally reassembled file content, byte
/// for byte. (When transparent decompression applies, both entry points
/// decode the same ordered stream, so their outputs coincide by the same
/// token.)
pub proof fn lemma_stream_file_equivalence(
    meta: ObjectMetadata,
    ordered: Seq<FetchedPart>,
    tagged: Seq<FetchedPart>,
)
    requires
        meta.wf(),
        complete_fetch(meta, ordered),
        complete_fetch(meta, tagged),
        in_part_order(ordered),
        forall|p: int|
            #[trigger] meta.valid_part(p) ==> part_bytes(ordered, p) == part_bytes(tagged, p),
    ensures
        stream_parts_bytes(ordered) == object_content(meta, tagged),
{
    lemma_stream_prefix(meta, ordered, tagged, meta.part_count as int);
    assert(ordered.take(meta.part_count as int) =~= ordered);
}

/// Induction for `lemma_stream_file_equivalence`: the first `k` parts of
/// the ordered stream carry the concatenation of parts `1..=k`.
proof fn lemma_stream_prefix(
    meta: ObjectMetadata,
    ordered: Seq<FetchedPart>,
    tagged: Seq<FetchedPart>,
    k: int,
)
    requires
        meta.wf(),
        complete_fetch(meta, ordered),
        complete_fetch(meta, tagged),
        in_part_order(ordered),
        0 <= k <= meta.part_count,
        forall|p: int|
            #[trigger] meta.valid_part(p) ==> part_bytes(ordered, p) == part_bytes(tagged, p),
    ensures
        stream_parts_bytes(ordered.take(k)) == ordered_bytes(meta, tagged, k),
    decreases k,
{
    if k == 0 {
        assert(ordered.take(0) =~= Seq::<FetchedPart>::empty());
        assert(stream_parts_bytes(ordered.take(0)) =~= Seq::<u8>::empty());
    } else {
        lemma_stream_prefix(meta, ordered, tagged, k - 1);
        assert(ordered.take(k) =~= ordered.take(k - 1).push(ordered[k - 1]));
        lemma_stream_parts_bytes_push(ordered.take(k - 1), ordered[k - 1]);
        assert(meta.valid_part(k));
        let j = choose|i: int| 0 <= i < ordered.len() && (#[trigger] ordered[i]).part_number == k;
        assert(0 <= j < ordered.len() && ordered[j].part_number == k);
        assert(j == k - 1);
        assert(part_bytes(ordered, k) == ordered[k - 1].bytes());
        assert(stream_parts_bytes(ordered.take(k)) == ordered_bytes(meta, tagged, k));
    }
}

} // verus!
