//! The ways in which a buffer can fail to be an archive.

use vstd::prelude::*;

verus! {

/// Why a buffer was rejected.
#[derive(Debug, Clone, Copy, PartialEq, Eq, Structural)]
pub enum ArchiveError {
    /// The header is malformed: the prelude or the entry table is cut short,
    /// the magic tag is wrong, or a filename field holds no terminated text.
    Format,
    /// The header is well formed, but some entry's payload reaches past the
    /// end of the buffer.
    Range,
}

impl ArchiveError {
    /// A one-line description of the error.
    pub fn message(&self) -> (text: &'static str)
        ensures
            text@ == (match *self {
                ArchiveError::Format => "not a valid DSARC FL archive"@,
                ArchiveError::Range => "entry payload lies outside the archive"@,
            }),
    {
        match self {
            ArchiveError::Format => "not a valid DSARC FL archive",
            ArchiveError::Range => "entry payload lies outside the archive",
        }
    }
}

} // verus!
