//! Verified core of a chunked object-storage download engine.
//!
//! A remote object is stored as a sequence of parts (1-indexed, as produced
//! by a multipart upload). This crate verifies the logic that reconstructs
//! the object locally: metadata resolution, part/offset bookkeeping,
//! positional reassembly into a staging buffer, destination-path
//! resolution, and transparent gzip decompression of the ordered byte
//! stream.
//!
//! Network and file I/O live outside this crate; callers hand the library
//! plain values (byte vectors, flags, per-part results) and take plain
//! values back.

pub mod chunks;
pub mod decompress;
pub mod download;
pub mod errors;
pub mod metadata;
pub mod paths;
pub mod reassembly;
pub mod staging;
