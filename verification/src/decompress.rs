//! The decompression adapter: transparent gzip decoding of an ordered byte
//! sequence.
//!
//! Decoding is delegated to an outside streaming decoder. In-memory gzip
//! decoding is a deterministic function of the input bytes alone, so both
//! its outcome and its output carry names here: `gunzip_ok_of` says whether
//! the bytes decode, `gunzip_of` names the plaintext they decode to. Any
//! decoder failure is mapped to the domain `IoError` kind.

use vstd::prelude::*;

use crate::errors::DownloadError;

verus! {

/// The plaintext that gzip decoding yields for the given compressed bytes.
pub uninterp spec fn gunzip_of(data: Seq<u8>) -> Seq<u8>;

/// Whether the given bytes form a well-formed gzip stream, i.e. whether
/// gzip decoding of them succeeds.
pub uninterp spec fn gunzip_ok_of(data: Seq<u8>) -> bool;

/// Relies on `async_compression::futures::bufread::GzipDecoder` (driven to
/// completion with `futures::executor::block_on` and
/// `futures::io::AsyncReadExt::read_to_end`): streaming gzip decoding,
/// whose outcome and output depend on the input bytes alone; `None`
/// exactly on the inputs the decoder refuses (bad framing, checksum or
/// length mismatch, truncation).
#[verifier::external_body]
fn gunzip(data: &Vec<u8>) -> (r: Option<Vec<u8>>)
    ensures
        r is Some <==> gunzip_ok_of(data@),
        match r {
            Some(out) => out@ == gunzip_of(data@),
            None => true,
        },
{
    let mut decoder = async_compression::futures::bufread::GzipDecoder::new(data.as_slice());
    let mut out: Vec<u8> = Vec::new();
    let res = futures::executor::block_on(futures::io::AsyncReadExt::read_to_end(
        &mut decoder,
        &mut out,
    ));
    match res {
        Ok(_) => Some(out),
        Err(_) => None,
    }
}

/// Decode one gzip stream: the plaintext exactly when the bytes form a
/// well-formed gzip stream, the domain `IoError` exactly otherwise.
pub fn decompress_bytes(data: &Vec<u8>) -> (r: Result<Vec<u8>, DownloadError>)
    ensures
        r is Ok <==> gunzip_ok_of(data@),
        match r {
            Ok(out) => out@ == gunzip_of(data@),
            Err(e) => e == DownloadError::IoError,
        },
{
    match gunzip(data) {
        Some(out) => Ok(out),
        None => Err(DownloadError::IoError),
    }
}

} // verus!
