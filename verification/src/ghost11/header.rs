//! 512-byte Ghost file header (`FEEF` magic).

use vstd::prelude::*;

use crate::bytes::{le16, le32, read_le16, read_le32};
use crate::error::{Error, Result};
use super::family::{COMPRESSION_FAST, COMPRESSION_NONE, GHO_MAGIC, HEADER_SIZE};

verus! {

/// Parsed 512-byte file header.
#[derive(Debug, Clone, Copy, PartialEq, Eq, Structural)]
pub struct FileHeader {
    /// 1 = first/single file, 9 = span continuation file.
    pub file_type: u8,
    /// 0 = none, 2 = FastLZ, 3..=9 = zlib.
    pub compression: u8,
    /// Shared identifier across all span files of one logical image.
    pub image_id: u32,
    /// True if the encryption flag bit is set.
    pub encrypted: bool,
}

/// The header described by the first 512 bytes of `data`, whose magic is
/// known to be `FEEF`.
pub open spec fn spec_header(data: Seq<u8>) -> FileHeader {
    FileHeader {
        file_type: data[2],
        compression: data[3],
        image_id: le32(data, 4),
        encrypted: data[12] & 0x02u8 != 0,
    }
}

/// True when a file header with `FEEF` magic and file type 1 or 9 starts at
/// `buf[off]` and `buf` holds all 512 bytes of it.
pub open spec fn spec_looks_like_at(buf: Seq<u8>, off: int) -> bool {
    &&& 0 <= off
    &&& off + HEADER_SIZE <= buf.len()
    &&& le16(buf, off) == GHO_MAGIC
    &&& (buf[off + 2] == 1 || buf[off + 2] == 9)
}

impl FileHeader {
    /// Parse from the first 512 bytes of a `.gho`/`.ghs` file.
    pub fn parse(data: &[u8]) -> (r: Result<Self>)
        ensures
            data@.len() < HEADER_SIZE ==> r == Err::<FileHeader, Error>(
                Error::Truncated { offset: 0, expected: HEADER_SIZE, actual: data@.len() as usize },
            ),
            data@.len() >= HEADER_SIZE && le16(data@, 0) != GHO_MAGIC ==> r matches Err(Error::Format { offset: 0, .. }),
            data@.len() >= HEADER_SIZE && le16(data@, 0) == GHO_MAGIC ==> r == Ok::<FileHeader, Error>(spec_header(data@)),
            data@.len() >= HEADER_SIZE ==> (r is Ok <==> le16(data@, 0) == GHO_MAGIC),
    {
        if data.len() < HEADER_SIZE {
            return Err(Error::truncated(0, HEADER_SIZE, data.len()));
        }
        let magic = read_le16(data, 0);
        if magic != GHO_MAGIC {
            return Err(Error::format(0, "bad file magic, expected 0xeffe"));
        }
        Ok(FileHeader {
            file_type: data[2],
            compression: data[3],
            image_id: read_le32(data, 4),
            encrypted: data[12] & 0x02u8 != 0,
        })
    }

    /// True if the compression byte indicates FastLZ.
    pub fn is_fastlz(&self) -> (r: bool)
        ensures
            r == (self.compression == COMPRESSION_FAST),
    {
        self.compression == COMPRESSION_FAST
    }

    /// True if the compression byte indicates no compression.
    pub fn is_uncompressed(&self) -> (r: bool)
        ensures
            r == (self.compression == COMPRESSION_NONE),
    {
        self.compression == COMPRESSION_NONE
    }

    /// True if this header starts a fresh logical image (not a continuation).
    pub fn is_first(&self) -> (r: bool)
        ensures
            r == (self.file_type == 1),
    {
        self.file_type == 1
    }

    /// True if this header belongs to a continuation span file.
    pub fn is_continuation(&self) -> (r: bool)
        ensures
            r == (self.file_type == 9),
    {
        self.file_type == 9
    }
}

/// Check whether the bytes at `buf[off..]` look like an embedded 512-byte
/// file header (the stream parser skips span-continuation headers).
pub fn looks_like_at(buf: &[u8], off: usize) -> (r: bool)
    ensures
        r == spec_looks_like_at(buf@, off as int),
{
    if off > buf.len() || buf.len() - off < HEADER_SIZE {
        return false;
    }
    let magic = read_le16(buf, off);
    magic == GHO_MAGIC && (buf[off + 2] == 1 || buf[off + 2] == 9)
}

} // verus!
