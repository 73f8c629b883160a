//! Constants and helpers shared by the 11.x parsers.

use vstd::prelude::*;

use crate::error::{Error, Result};
use super::header;
use super::record::{self, Record};

verus! {

/// `FEEF` magic at the start of every `.gho` / `.ghs` file.
pub const GHO_MAGIC: u16 = 0xEFFE;

/// Size of a single Ghost file header in bytes.
pub const HEADER_SIZE: usize = 512;

/// No compression (blocks are stored verbatim).
pub const COMPRESSION_NONE: u8 = 0;

/// FastLZ (Z1) compression.
pub const COMPRESSION_FAST: u8 = 2;

/// Decoded block-level compression type.
#[derive(Debug, Clone, Copy, PartialEq, Eq, Structural)]
pub enum Compression {
    Uncompressed,
    FastLz,
    Zlib,
}

/// The compression named by the header byte `b`, or `None` when `b` names
/// no supported compression.
pub open spec fn spec_compression(b: u8) -> Option<Compression> {
    if b == COMPRESSION_NONE {
        Some(Compression::Uncompressed)
    } else if b == COMPRESSION_FAST {
        Some(Compression::FastLz)
    } else if 3 <= b <= 9 {
        Some(Compression::Zlib)
    } else {
        None
    }
}

impl Compression {
    /// Decode the header's compression byte: 0 = none, 2 = FastLZ,
    /// 3..=9 = zlib; anything else is unsupported.
    pub fn from_byte(b: u8) -> (r: Result<Self>)
        ensures
            match spec_compression(b) {
                Some(c) => r == Ok::<Compression, Error>(c),
                None => r == Err::<Compression, Error>(Error::UnsupportedCompression(b)),
            },
    {
        if b == COMPRESSION_NONE {
            Ok(Compression::Uncompressed)
        } else if b == COMPRESSION_FAST {
            Ok(Compression::FastLz)
        } else if 3 <= b && b <= 9 {
            Ok(Compression::Zlib)
        } else {
            Err(Error::UnsupportedCompression(b))
        }
    }
}

/// Look at `buf[off..]` and decide whether a known record header starts there.
pub fn looks_like_record(buf: &[u8], off: usize) -> (r: Option<Record>)
    ensures
        r == record::spec_parse_at(buf@, off as int),
{
    Record::parse_at(buf, off)
}

/// Look at `buf[off..]` and decide whether a 512-byte embedded file header
/// starts there.
pub fn looks_like_embedded_file_header(buf: &[u8], off: usize) -> (r: bool)
    ensures
        r == header::spec_looks_like_at(buf@, off as int),
{
    header::looks_like_at(buf, off)
}

} // verus!
