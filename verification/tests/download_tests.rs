use esthri::decompress::decompress_bytes;
use esthri::download::collect_results;
use esthri::download::download_result;
use esthri::download::consume_ordered;
use esthri::download::decompressed_file_content;
use esthri::download::part_numbers;
use esthri::download::positional_file_content;
use esthri::download::stream_content;
use esthri::download::uses_decompression;
use esthri::download::OrderedFetch;
use esthri::errors::DownloadError;
use esthri::metadata::resolve_metadata;
use esthri::metadata::ObjectMetadata;
use esthri::paths::dir_plan;
use esthri::paths::key_basename;
use esthri::paths::parent_dir;
use esthri::paths::resolve_destination;
use esthri::paths::staging_dir;
use esthri::reassembly::reassemble;
use esthri::reassembly::validate_arrivals;
use esthri::reassembly::FetchedPart;
use esthri::staging::StagingBuffer;

fn meta(total_size: u64, part_count: u64, per_part_size: u64, is_compressed: bool) -> ObjectMetadata {
    ObjectMetadata { total_size, part_count, per_part_size, is_compressed }
}

fn part_payload(part: u64, len: usize) -> Vec<u8> {
    (0..len).map(|i| (part as u8).wrapping_mul(31).wrapping_add(i as u8)).collect()
}

fn gzip(data: &[u8]) -> Vec<u8> {
    let mut encoder = async_compression::futures::bufread::GzipEncoder::new(data);
    let mut out = Vec::new();
    futures::executor::block_on(futures::io::AsyncReadExt::read_to_end(&mut encoder, &mut out))
        .expect("gzip encoding in-memory cannot fail");
    out
}

// Object "big.bin" split into 4 parts of 1000 bytes each (4000 bytes in
// total), no compression, with parts completing fetch in the order
// 2, 4, 1, 3: the materialized file is exactly the 4 parts concatenated in
// part-number order.
#[test]
fn four_parts_complete_out_of_order() {
    let m = meta(4000, 4, 1000, false);
    assert!(m.well_formed());
    let mut expected: Vec<u8> = Vec::new();
    for p in 1..=4u64 {
        expected.extend_from_slice(&part_payload(p, 1000));
    }
    let results: Vec<Result<FetchedPart, DownloadError>> = [2u64, 4, 1, 3]
        .iter()
        .map(|&p| {
            // each part's body arrives as several chunks
            let body = part_payload(p, 1000);
            let chunks = vec![body[..100].to_vec(), body[100..700].to_vec(), body[700..].to_vec()];
            Ok(FetchedPart { part_number: p, chunks })
        })
        .collect();
    let out = positional_file_content(&m, results).expect("complete fetch must succeed");
    assert_eq!(out.len(), 4000);
    assert_eq!(out, expected);
}

// A probe that finds no object is the InvalidKey failure, so no content
// ever exists to be published at the destination.
#[test]
fn absent_object_is_invalid_key() {
    assert_eq!(resolve_metadata(None), Err(DownloadError::InvalidKey));
    let m = meta(4000, 4, 1000, false);
    assert_eq!(resolve_metadata(Some(m)), Ok(m));
}

// All-or-nothing: one failed part fetch makes the whole download fail with
// that error, and no content is produced.
#[test]
fn failed_part_fetch_aborts_download() {
    let m = meta(2000, 2, 1000, false);
    let results: Vec<Result<FetchedPart, DownloadError>> = vec![
        Ok(FetchedPart { part_number: 2, chunks: vec![part_payload(2, 1000)] }),
        Err(DownloadError::TransportError),
    ];
    assert_eq!(positional_file_content(&m, results), Err(DownloadError::TransportError));
}

// Fail-fast: the first failure in arrival order is the one surfaced.
#[test]
fn first_error_is_surfaced() {
    let results: Vec<Result<FetchedPart, DownloadError>> = vec![
        Ok(FetchedPart { part_number: 1, chunks: vec![] }),
        Err(DownloadError::IoError),
        Err(DownloadError::TransportError),
    ];
    match collect_results(results) {
        Err(e) => assert_eq!(e, DownloadError::IoError),
        Ok(_) => panic!("collection must fail"),
    }
}

// An incomplete fetch (a part missing), a duplicated part, or a part of
// the wrong size never reassembles: the collaborator deviating from the
// storage convention is surfaced as TransportError.
#[test]
fn malformed_arrivals_are_refused() {
    let m = meta(2000, 2, 1000, false);
    let missing: Vec<Result<FetchedPart, DownloadError>> =
        vec![Ok(FetchedPart { part_number: 2, chunks: vec![part_payload(2, 1000)] })];
    assert_eq!(positional_file_content(&m, missing), Err(DownloadError::TransportError));

    let duplicated: Vec<Result<FetchedPart, DownloadError>> = vec![
        Ok(FetchedPart { part_number: 2, chunks: vec![part_payload(2, 1000)] }),
        Ok(FetchedPart { part_number: 2, chunks: vec![part_payload(2, 1000)] }),
    ];
    assert_eq!(positional_file_content(&m, duplicated), Err(DownloadError::TransportError));

    let short: Vec<Result<FetchedPart, DownloadError>> = vec![
        Ok(FetchedPart { part_number: 1, chunks: vec![part_payload(1, 999)] }),
        Ok(FetchedPart { part_number: 2, chunks: vec![part_payload(2, 1000)] }),
    ];
    assert_eq!(positional_file_content(&m, short), Err(DownloadError::TransportError));
}

#[test]
fn validate_arrivals_accepts_exact_fetch() {
    let m = meta(2500, 3, 1000, false);
    assert!(m.well_formed());
    // the last part holds the 500-byte remainder
    let arrivals = vec![
        FetchedPart { part_number: 3, chunks: vec![part_payload(3, 500)] },
        FetchedPart { part_number: 1, chunks: vec![part_payload(1, 400), part_payload(1, 600)] },
        FetchedPart { part_number: 2, chunks: vec![part_payload(2, 1000)] },
    ];
    assert!(validate_arrivals(&m, &arrivals));
    let out = reassemble(&m, &arrivals).into_bytes();
    assert_eq!(out.len(), 2500);
    assert_eq!(&out[2000..], &part_payload(3, 500)[..]);
}

// Streaming/file equivalence: full consumption of the ordered stream and
// positional reassembly of the same parts give byte-identical output.
#[test]
fn stream_and_file_agree() {
    let m = meta(2500, 3, 1000, false);
    let body = |p: u64| part_payload(p, if p == 3 { 500 } else { 1000 });
    let ordered = OrderedFetch {
        parts: (1..=3u64)
            .map(|p| Ok(FetchedPart { part_number: p, chunks: vec![body(p)] }))
            .collect(),
    };
    let streamed = stream_content(&m, ordered, false).expect("ordered consumption succeeds");
    let tagged: Vec<Result<FetchedPart, DownloadError>> = [3u64, 1, 2]
        .iter()
        .map(|&p| Ok(FetchedPart { part_number: p, chunks: vec![body(p)] }))
        .collect();
    let materialized = positional_file_content(&m, tagged).expect("complete fetch succeeds");
    assert_eq!(streamed, materialized);
}

// Decompression correctness: for a compressed object of known plaintext,
// transparent decompression yields exactly the plaintext and switching it
// off yields the raw compressed bytes.
#[test]
fn decompression_yields_plaintext() {
    let plaintext: Vec<u8> = (0..3000u32).map(|i| (i % 251) as u8).collect();
    let compressed = gzip(&plaintext);
    let m = meta(compressed.len() as u64, 1, compressed.len() as u64, true);
    let make_stream = || OrderedFetch {
        parts: vec![Ok(FetchedPart { part_number: 1, chunks: vec![compressed.clone()] })],
    };
    assert!(uses_decompression(&m, true));
    assert!(!uses_decompression(&m, false));

    let decoded = stream_content(&m, make_stream(), true).expect("decoding succeeds");
    assert_eq!(decoded, plaintext);

    let raw = stream_content(&m, make_stream(), false).expect("raw consumption succeeds");
    assert_eq!(raw, compressed);

    let file = decompressed_file_content(make_stream()).expect("decoding succeeds");
    assert_eq!(file, plaintext);
}

// A gzip stream cut short (or not gzip at all) is the domain IoError.
#[test]
fn broken_gzip_stream_is_io_error() {
    let not_gzip = vec![0u8, 1, 2, 3, 4, 5];
    assert_eq!(decompress_bytes(&not_gzip), Err(DownloadError::IoError));
    let mut truncated = gzip(&[7u8; 4096]);
    truncated.truncate(truncated.len() / 2);
    assert_eq!(decompress_bytes(&truncated), Err(DownloadError::IoError));
}

#[test]
fn consume_ordered_concatenates_chunks() {
    let stream = OrderedFetch {
        parts: vec![
            Ok(FetchedPart { part_number: 1, chunks: vec![vec![1, 2], vec![], vec![3]] }),
            Ok(FetchedPart { part_number: 2, chunks: vec![vec![4, 5]] }),
        ],
    };
    assert_eq!(consume_ordered(stream), Ok(vec![1, 2, 3, 4, 5]));
}

#[test]
fn metadata_offsets_and_lengths() {
    let m = meta(4000, 4, 1000, false);
    assert_eq!(m.part_offset(1), 0);
    assert_eq!(m.part_offset(2), 1000);
    assert_eq!(m.part_offset(4), 3000);
    assert_eq!(m.part_len(1), 1000);
    assert_eq!(m.part_len(4), 1000);
    let uneven = meta(3500, 4, 1000, false);
    assert!(uneven.well_formed());
    assert_eq!(uneven.part_len(4), 500);
    // disjointness, concretely: each part's range ends where the next begins
    for p in 1..4u64 {
        assert_eq!(uneven.part_offset(p) + uneven.part_len(p), uneven.part_offset(p + 1));
    }
}

#[test]
fn malformed_metadata_is_rejected() {
    assert!(!meta(4000, 0, 1000, false).well_formed());
    assert!(!meta(4000, 4, 0, false).well_formed());
    // a declared total smaller than the full parts before the last
    assert!(!meta(2999, 4, 1000, false).well_formed());
    // a declared total beyond all parts
    assert!(!meta(4001, 4, 1000, false).well_formed());
}

// The hash of a finished download is populated elsewhere, never here.
#[test]
fn download_result_has_no_hash() {
    let m = meta(4000, 4, 1000, false);
    let r = download_result(m);
    assert_eq!(r.object_metadata, m);
    assert!(r.content_hash.is_none());
}

#[test]
fn fetch_plan_is_one_through_part_count() {
    assert_eq!(part_numbers(4), vec![1, 2, 3, 4]);
    assert_eq!(part_numbers(1), vec![1]);
}

// Idempotent destination semantics: a directory destination receives the
// key's final segment; a concrete path receives the bytes exactly.
#[test]
fn destination_resolution() {
    let key = b"data/archive/big.bin".to_vec();
    assert_eq!(key_basename(&key), Ok(b"big.bin".to_vec()));
    assert_eq!(
        resolve_destination(b"/tmp/downloads".to_vec(), true, &key),
        Ok(b"/tmp/downloads/big.bin".to_vec())
    );
    assert_eq!(
        resolve_destination(b"/tmp/out.bin".to_vec(), false, &key),
        Ok(b"/tmp/out.bin".to_vec())
    );
    // a key with no extractable filename segment cannot land in a directory
    let slashed = b"data/archive/".to_vec();
    assert_eq!(key_basename(&slashed), Err(DownloadError::PathError));
    assert_eq!(
        resolve_destination(b"/tmp/downloads".to_vec(), true, &slashed),
        Err(DownloadError::PathError)
    );
    assert_eq!(
        resolve_destination(b"/tmp/out.bin".to_vec(), false, &slashed),
        Ok(b"/tmp/out.bin".to_vec())
    );
}

#[test]
fn directory_plans() {
    // destination exists: work in its parent, create nothing
    let existing = b"/tmp/out.bin".to_vec();
    let plan = dir_plan(&existing, true, false);
    assert_eq!(plan.dir, b"/tmp".to_vec());
    assert!(!plan.create);
    // fresh path ending in a separator: the path itself is the directory
    let fresh_dir = b"/tmp/new/tree/".to_vec();
    let plan = dir_plan(&fresh_dir, false, false);
    assert_eq!(plan.dir, b"/tmp/new/tree/".to_vec());
    assert!(plan.create);
    // fresh file path: its parent is the directory
    let fresh_file = b"/tmp/new/out.bin".to_vec();
    let plan = dir_plan(&fresh_file, false, false);
    assert_eq!(plan.dir, b"/tmp/new".to_vec());
    assert!(plan.create);
    // parent of a root-level entry keeps the root
    assert_eq!(parent_dir(&b"/out.bin".to_vec()), b"/".to_vec());
    assert_eq!(parent_dir(&b"out.bin".to_vec()), b"".to_vec());
}

#[test]
fn staging_placement() {
    assert_eq!(staging_dir(Some(b"/scratch".to_vec()), b"/tmp".to_vec()), b"/scratch".to_vec());
    assert_eq!(staging_dir(None, b"/tmp".to_vec()), b"/tmp".to_vec());
}

// Positional writes land at their own offsets, pad any gap with zero
// bytes, and leave the rest untouched.
#[test]
fn staging_buffer_positional_writes() {
    let mut buf = StagingBuffer::new();
    buf.write_at(2, &vec![9, 9]);
    assert_eq!(buf.len(), 4);
    buf.write_at(0, &vec![1, 2]);
    buf.write_part(4, &vec![vec![5], vec![6, 7]]);
    assert_eq!(buf.into_bytes(), vec![1, 2, 9, 9, 5, 6, 7]);
}
