//! Object metadata and the part/offset convention of the storage service.

use vstd::prelude::*;

use crate::errors::DownloadError;

verus! {

/// Metadata of one remote object, derived once from a probe fetch of its
/// first part and immutable for the duration of one download.
///
/// Storage-service convention: parts are 1-indexed; every part except
/// possibly the last holds exactly `per_part_size` bytes; the last part
/// holds the non-empty remainder.
#[derive(Clone, Copy, Debug, PartialEq, Eq, Structural)]
pub struct ObjectMetadata {
    pub total_size: u64,
    pub part_count: u64,
    pub per_part_size: u64,
    pub is_compressed: bool,
}

impl ObjectMetadata {
    /// The shape the reconstruction relies on: at least one part, all parts
    /// before the last full, and a non-empty last part.
    pub open spec fn wf(self) -> bool {
        &&& 1 <= self.part_count
        &&& 1 <= self.per_part_size
        &&& (self.part_count - 1) * self.per_part_size < self.total_size
        &&& self.total_size <= self.part_count * self.per_part_size
    }

    /// Whether `p` addresses a part of this object.
    pub open spec fn valid_part(self, p: int) -> bool {
        1 <= p <= self.part_count
    }

    /// The byte offset at which part `p` starts.
    pub open spec fn spec_part_offset(self, p: int) -> int {
        (p - 1) * self.per_part_size
    }

    /// The exact byte length of part `p`.
    pub open spec fn spec_part_len(self, p: int) -> int {
        if p == self.part_count {
            self.total_size - self.spec_part_offset(p)
        } else {
            self.per_part_size as int
        }
    }

    /// Runtime check of `wf`, for callers that receive probe data from the
    /// network and cannot assume its shape.
    pub fn well_formed(&self) -> (r: bool)
        ensures
            r == self.wf(),
    {
        if self.part_count < 1 || self.per_part_size < 1 {
            return false;
        }
        let pc = self.part_count as u128;
        let pps = self.per_part_size as u128;
        let total = self.total_size as u128;
        proof {
            assert(pc * pps < 0x1_0000_0000_0000_0000_0000_0000_0000_0000) by (nonlinear_arith)
                requires
                    pc < 0x1_0000_0000_0000_0000,
                    pps < 0x1_0000_0000_0000_0000,
            ;
            assert((pc - 1) * pps <= pc * pps) by (nonlinear_arith)
                requires
                    1 <= pc,
                    0 <= pps,
            ;
        }
        (pc - 1) * pps < total && total <= pc * pps
    }

    /// Offsets are monotone in the part number and stay under `total_size`.
    pub proof fn lemma_offset_bounded(self, p: int)
        requires
            self.wf(),
            self.valid_part(p),
        ensures
            0 <= self.spec_part_offset(p) < self.total_size,
            self.spec_part_offset(p) + self.spec_part_len(p) <= self.total_size,
            1 <= self.spec_part_len(p),
    {
        assert(0 <= (p - 1) * self.per_part_size <= (self.part_count - 1) * self.per_part_size)
            by (nonlinear_arith)
            requires
                1 <= p <= self.part_count,
                1 <= self.per_part_size,
        ;
        if p < self.part_count {
            assert((p - 1) * self.per_part_size + self.per_part_size <= (self.part_count - 1)
                * self.per_part_size) by (nonlinear_arith)
                requires
                    1 <= p < self.part_count,
                    1 <= self.per_part_size,
            ;
        }
    }

    /// The byte offset at which part `part_number` starts.
    pub fn part_offset(&self, part_number: u64) -> (r: u64)
        requires
            self.wf(),
            self.valid_part(part_number as int),
        ensures
            r == self.spec_part_offset(part_number as int),
    {
        proof {
            self.lemma_offset_bounded(part_number as int);
        }
        (part_number - 1) * self.per_part_size
    }

    /// The exact byte length of part `part_number`.
    pub fn part_len(&self, part_number: u64) -> (r: u64)
        requires
            self.wf(),
            self.valid_part(part_number as int),
        ensures
            r == self.spec_part_len(part_number as int),
    {
        proof {
            self.lemma_offset_bounded(part_number as int);
        }
        if part_number == self.part_count {
            self.total_size - self.part_offset(part_number)
        } else {
            self.per_part_size
        }
    }
}

/// Resolve the outcome of a metadata probe: an absent object is the
/// `InvalidKey` failure; a present one yields its metadata unchanged.
pub fn resolve_metadata(probe: Option<ObjectMetadata>) -> (r: Result<
    ObjectMetadata,
    DownloadError,
>)
    ensures
        match probe {
            Some(m) => r == Ok::<ObjectMetadata, DownloadError>(m),
            None => r == Err::<ObjectMetadata, DownloadError>(DownloadError::InvalidKey),
        },
{
    match probe {
        Some(m) => Ok(m),
        None => Err(DownloadError::InvalidKey),
    }
}

} // verus!
