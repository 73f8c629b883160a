//! Sizes of the pre-11.x layout.

use vstd::prelude::*;

verus! {

/// `FEEF` magic at the start of every `.gho` / `.ghs` file.
pub const GHO_MAGIC: u16 = 0xEFFE;

/// Size of a single Ghost file header in bytes.
pub const HEADER_SIZE: usize = 512;

/// The fixed 32 KiB size of a full FastLZ data block in pre-11.x format.
pub const DATA_FULL_BLOCK_SIZE: usize = 32768;

} // verus!
