//! The failures of the archive reader and of the level loader.

use vstd::prelude::*;

verus! {

/// Why opening an archive, resolving a lump or decoding one failed.
#[derive(Clone, Copy, PartialEq, Eq, Structural, Debug)]
pub enum WadError {
    /// The container is malformed: wrong magic, a header or directory that
    /// does not fit in the container's bytes, or a level marker heuristic
    /// violation (a "THINGS" entry first in the directory).
    Format,
    /// A lump's byte size does not fit the requested record size; carries
    /// the total size, the record size, their quotient and their remainder.
    SizeMismatch { total: usize, element: usize, quotient: usize, remainder: usize },
    /// A lump name or directory index with no entry.
    MissingLump,
    /// A lump's byte range lies outside the container's bytes; carries the
    /// lump's directory index.
    Io { index: usize },
}

} // verus!
