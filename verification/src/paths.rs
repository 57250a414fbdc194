//! Destination-path resolution and staging placement.
//!
//! Paths are modelled as byte strings with `/` (byte 47) as the separator;
//! the unverified edge converts between OS paths and these byte strings.

use vstd::prelude::*;

use crate::errors::DownloadError;

verus! {

/// The path separator.
pub const SEPARATOR: u8 = 47;

/// The start of the final segment of `s`: the position right after its
/// last separator, or 0 when it has none.
pub open spec fn basename_start(s: Seq<u8>) -> int
    decreases s.len(),
{
    if s.len() == 0 {
        0
    } else if s.last() == SEPARATOR {
        s.len() as int
    } else {
        basename_start(s.drop_last())
    }
}

/// The final segment of `s`: everything after its last separator.
pub open spec fn spec_basename(s: Seq<u8>) -> Seq<u8> {
    s.subrange(basename_start(s), s.len() as int)
}

/// The path up to its final segment: its parent directory. A path whose
/// only separator leads it keeps that root separator; a bare segment has
/// the empty parent.
pub open spec fn spec_parent(s: Seq<u8>) -> Seq<u8> {
    let b = basename_start(s);
    if b > 1 {
        s.subrange(0, b - 1)
    } else if b == 1 {
        s.subrange(0, 1)
    } else {
        Seq::empty()
    }
}

/// The path names a directory by shape: it ends in a separator.
pub open spec fn ends_in_separator(s: Seq<u8>) -> bool {
    s.len() > 0 && s.last() == SEPARATOR
}

/// `basename_start` is the unique split point: everything after it is
/// separator-free and it either opens the path or follows a separator.
proof fn lemma_basename_start(s: Seq<u8>)
    ensures
        0 <= basename_start(s) <= s.len(),
        basename_start(s) > 0 ==> s[basename_start(s) - 1] == SEPARATOR,
        forall|q: int| basename_start(s) <= q < s.len() ==> s[q] != SEPARATOR,
    decreases s.len(),
{
    if s.len() > 0 && s.last() != SEPARATOR {
        lemma_basename_start(s.drop_last());
        assert forall|q: int| basename_start(s) <= q < s.len() implies s[q] != SEPARATOR by {
            if q < s.len() - 1 {
                assert(s.drop_last()[q] != SEPARATOR);
            }
        }
    }
}

/// Any split point with the properties of `lemma_basename_start` is
/// `basename_start` itself.
proof fn lemma_basename_start_unique(s: Seq<u8>, b: int)
    requires
        0 <= b <= s.len(),
        b > 0 ==> s[b - 1] == SEPARATOR,
        forall|q: int| b <= q < s.len() ==> s[q] != SEPARATOR,
    ensures
        b == basename_start(s),
    decreases s.len(),
{
    if s.len() == 0 {
    } else if s.last() == SEPARATOR {
        if b < s.len() {
            assert(s[s.len() - 1] != SEPARATOR);
        }
    } else {
        assert(b < s.len());
        lemma_basename_start_unique(s.drop_last(), b);
    }
}

/// The split position of the final segment, found by a backward scan.
fn basename_split(path: &Vec<u8>) -> (b: usize)
    ensures
        b == basename_start(path@),
{
    let mut b: usize = path.len();
    while b > 0 && path[b - 1] != SEPARATOR
        invariant
            b <= path@.len(),
            forall|q: int| b <= q < path@.len() ==> path@[q] != SEPARATOR,
        decreases b,
    {
        b -= 1;
    }
    proof {
        lemma_basename_start_unique(path@, b as int);
    }
    b
}

/// A copy of `path[lo..hi]`.
fn sub_bytes(path: &Vec<u8>, lo: usize, hi: usize) -> (r: Vec<u8>)
    requires
        lo <= hi <= path@.len(),
    ensures
        r@ == path@.subrange(lo as int, hi as int),
{
    let mut out: Vec<u8> = Vec::new();
    let mut q: usize = lo;
    while q < hi
        invariant
            lo <= q <= hi <= path@.len(),
            out@ == path@.subrange(lo as int, q as int),
        decreases hi - q,
    {
        out.push(path[q]);
        q += 1;
        proof {
            assert(path@.subrange(lo as int, q as int) =~= path@.subrange(lo as int, q - 1).push(
                path@[q - 1],
            ));
        }
    }
    out
}

/// The final segment of the object key — the filename a directory
/// destination receives. A key with no extractable segment (empty, or
/// ending in a separator) cannot name a file: `PathError`.
pub fn key_basename(key: &Vec<u8>) -> (r: Result<Vec<u8>, DownloadError>)
    ensures
        match r {
            Ok(b) => b@ == spec_basename(key@) && b@.len() > 0,
            Err(e) => e == DownloadError::PathError && spec_basename(key@).len() == 0,
        },
{
    let b = basename_split(key);
    proof {
        lemma_basename_start(key@);
    }
    if b == key.len() {
        return Err(DownloadError::PathError);
    }
    Ok(sub_bytes(key, b, key.len()))
}

/// The parent directory of `path`.
pub fn parent_dir(path: &Vec<u8>) -> (r: Vec<u8>)
    ensures
        r@ == spec_parent(path@),
{
    let b = basename_split(path);
    proof {
        lemma_basename_start(path@);
    }
    if b > 1 {
        sub_bytes(path, 0, b - 1)
    } else if b == 1 {
        sub_bytes(path, 0, 1)
    } else {
        Vec::new()
    }
}

/// Where the final file lands (idempotent destination semantics): at
/// `destination` itself when it is a concrete file path, or at
/// `destination/<final segment of key>` when it names an existing
/// directory.
pub fn resolve_destination(destination: Vec<u8>, destination_is_dir: bool, key: &Vec<u8>) -> (r:
    Result<Vec<u8>, DownloadError>)
    requires
        destination@.len() + 1 + key@.len() <= usize::MAX,
    ensures
        match r {
            Ok(path) => {
                if destination_is_dir {
                    &&& spec_basename(key@).len() > 0
                    &&& path@ == destination@ + seq![SEPARATOR] + spec_basename(key@)
                } else {
                    path@ == destination@
                }
            },
            Err(e) => {
                &&& destination_is_dir
                &&& spec_basename(key@).len() == 0
                &&& e == DownloadError::PathError
            },
        },
{
    if !destination_is_dir {
        return Ok(destination);
    }
    let name = match key_basename(key) {
        Ok(n) => n,
        Err(e) => {
            return Err(e);
        },
    };
    let mut path = destination;
    let ghost dest: Seq<u8> = path@;
    path.push(SEPARATOR);
    let mut q: usize = 0;
    while q < name.len()
        invariant
            q <= name@.len(),
            path@ == dest + seq![SEPARATOR] + name@.take(q as int),
        decreases name@.len() - q,
    {
        path.push(name[q]);
        q += 1;
        proof {
            assert(dest + seq![SEPARATOR] + name@.take(q as int) =~= (dest + seq![SEPARATOR]
                + name@.take(q - 1)).push(name@[q - 1]));
        }
    }
    proof {
        assert(name@.take(name@.len() as int) =~= name@);
    }
    Ok(path)
}

/// The directory a download works in, and whether its chain may need to be
/// created first.
pub struct DirPlan {
    pub dir: Vec<u8>,
    pub create: bool,
}

/// Prepare the destination's directory: when the destination already
/// exists (as a file or a directory) nothing is created and the work
/// happens in its parent; otherwise the destination is taken as the
/// directory itself when it ends in a separator, else as a file path whose
/// parent is the directory, and the missing chain (if any, and if the
/// directory is named at all) is to be created.
pub fn dir_plan(path: &Vec<u8>, path_is_file: bool, path_is_dir: bool) -> (r: DirPlan)
    ensures
        (path_is_file || path_is_dir) ==> r.dir@ == spec_parent(path@) && !r.create,
        !(path_is_file || path_is_dir) ==> r.create && r.dir@ == (if ends_in_separator(path@) {
            path@
        } else {
            spec_parent(path@)
        }),
{
    if path_is_file || path_is_dir {
        DirPlan { dir: parent_dir(path), create: false }
    } else if path.len() > 0 && path[path.len() - 1] == SEPARATOR {
        DirPlan { dir: sub_bytes(path, 0, path.len()), create: true }
    } else {
        DirPlan { dir: parent_dir(path), create: true }
    }
}

/// Where the staging file is created: in the configured scratch directory
/// when one is set, else alongside the destination in its own directory.
pub fn staging_dir(scratch: Option<Vec<u8>>, destination_dir: Vec<u8>) -> (r: Vec<u8>)
    ensures
        match scratch {
            Some(s) => r@ == s@,
            None => r@ == destination_dir@,
        },
{
    match scratch {
        Some(s) => s,
        None => destination_dir,
    }
}

} // verus!
