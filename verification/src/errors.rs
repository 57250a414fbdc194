//! The error kinds a download can end with.

use vstd::prelude::*;

verus! {

/// A terminal failure of one download. Exactly one error is surfaced per
/// failed download: the first failure encountered (fail-fast).
#[derive(Clone, Copy, Debug, PartialEq, Eq, Structural)]
pub enum DownloadError {
    /// The storage service reported that the object does not exist.
    InvalidKey,
    /// A local file-system or decompression-stream failure.
    IoError,
    /// The destination path cannot be interpreted (for a directory
    /// destination, the key has no extractable filename segment).
    PathError,
    /// An opaque failure bubbled up from the network collaborator.
    TransportError,
}

} // verus!
