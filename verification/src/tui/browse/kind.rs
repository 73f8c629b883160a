//! The format family of a loaded image.

use vstd::prelude::*;

verus! {

/// One of the two image format families, normalised for the browser.
#[derive(Debug, Clone, Copy, PartialEq, Eq, Structural)]
pub enum ImageKind {
    /// Norton Ghost 11.x or 12.x (FEEF magic + partition records).
    Ghost11,
    /// Norton Ghost pre-11.x (FEEF magic + dirent stream).
    GhostOld,
    /// The header was valid but the format was not detected, or extraction
    /// failed.
    Unknown,
}

} // verus!
