//! Format detection and image opening.

use vstd::prelude::*;

use crate::bytes::{le16, read_le16, read_le32};
use crate::error::{fails_with, Error, ErrorClass, Result};
use crate::ghost11::{FileHeader, GHO_MAGIC, HEADER_SIZE};
use crate::ghostold::stream::{magic_at, scan_for_magic, RECORD_SCAN_LIMIT};
use crate::ghost11::record::{RECORD_TYPE_CONTINUATION, RECORD_TYPE_END, RECORD_TYPE_PARTITION, RECORD_TYPE_TRACK0};
use crate::ghostold::record::{
    RECORD_TYPE_BOOT_HMR, RECORD_TYPE_DATA_FULL, RECORD_TYPE_DATA_LAST, RECORD_TYPE_DATA_TRAILER, RECORD_TYPE_DIRENT,
    RECORD_TYPE_FIRST_DIRENT, RECORD_TYPE_PART2_BOOT, RECORD_TYPE_PART2_TABLE,
};

verus! {

/// The detected format family of a Ghost image.
#[derive(Debug, Clone, Copy, PartialEq, Eq, Structural)]
pub enum Format {
    /// Norton Ghost 11.x / 12.x (FEEF magic, partition records).
    Ghost11,
    /// Norton Ghost pre-11.x (FEEF magic, FAT-style directory).
    GhostOld,
}

/// True for the record type codes of 11.x images.
pub open spec fn is_ghost11_type(t: u16) -> bool {
    t == RECORD_TYPE_TRACK0 || t == RECORD_TYPE_PARTITION || t == RECORD_TYPE_CONTINUATION || t == RECORD_TYPE_END
}

/// True for the record type codes of pre-11.x images.
pub open spec fn is_ghostold_type(t: u16) -> bool {
    t == RECORD_TYPE_BOOT_HMR || t == RECORD_TYPE_FIRST_DIRENT || t == RECORD_TYPE_DIRENT || t == RECORD_TYPE_DATA_FULL
        || t == RECORD_TYPE_DATA_LAST || t == RECORD_TYPE_DATA_TRAILER || t == RECORD_TYPE_PART2_BOOT
        || t == RECORD_TYPE_PART2_TABLE
}

/// The format of an image: its header must parse; the first record found
/// after it (skipping up to 200 000 bytes of padding) decides by its type
/// code. `Err` when the header is bad or the record is not of either family.
pub open spec fn spec_detect_format(img: Seq<u8>) -> core::result::Result<Format, ErrorClass> {
    if img.len() < HEADER_SIZE {
        Err(ErrorClass::Truncated)
    } else if le16(img, 0) != GHO_MAGIC {
        Err(ErrorClass::Format)
    } else {
        let p = scan_for_magic(img, HEADER_SIZE as int, RECORD_SCAN_LIMIT as int);
        if !magic_at(img, p) {
            Err(ErrorClass::Format)
        } else if is_ghost11_type(le16(img, p)) {
            Ok(Format::Ghost11)
        } else if is_ghostold_type(le16(img, p)) {
            Ok(Format::GhostOld)
        } else {
            Err(ErrorClass::Format)
        }
    }
}

/// Detect which format family an image held in memory belongs to.
pub fn detect_format_bytes(image: &[u8]) -> (r: Result<Format>)
    ensures
        match spec_detect_format(image@) {
            Ok(f) => r == Ok::<Format, Error>(f),
            Err(c) => fails_with(r, c),
        },
{
    let _header = FileHeader::parse(image)?;
    let mut pos: usize = HEADER_SIZE;
    let mut left: usize = RECORD_SCAN_LIMIT;
    while left > 0 && image.len() - pos >= 10 && read_le32(image, pos + 4) != crate::ghostold::RECORD_MAGIC
        invariant
            HEADER_SIZE <= pos <= image@.len(),
            left <= RECORD_SCAN_LIMIT,
            scan_for_magic(image@, HEADER_SIZE as int, RECORD_SCAN_LIMIT as int) == scan_for_magic(image@, pos as int, left as int),
        decreases left,
    {
        pos += 1;
        left -= 1;
    }
    if image.len() - pos < 10 || read_le32(image, pos + 4) != crate::ghostold::RECORD_MAGIC {
        return Err(Error::format(pos as u64, "no record found after the file header"));
    }
    let t = read_le16(image, pos);
    if t == RECORD_TYPE_TRACK0 || t == RECORD_TYPE_PARTITION || t == RECORD_TYPE_CONTINUATION || t == RECORD_TYPE_END {
        Ok(Format::Ghost11)
    } else if t == RECORD_TYPE_BOOT_HMR || t == RECORD_TYPE_FIRST_DIRENT || t == RECORD_TYPE_DIRENT
        || t == RECORD_TYPE_DATA_FULL || t == RECORD_TYPE_DATA_LAST || t == RECORD_TYPE_DATA_TRAILER
        || t == RECORD_TYPE_PART2_BOOT || t == RECORD_TYPE_PART2_TABLE {
        Ok(Format::GhostOld)
    } else {
        Err(Error::format(pos as u64, "first record is of neither format family"))
    }
}

/// `std::io::Error::new` of kind `NotFound`, saying that the image at
/// `path` is not there. Nothing is stated of the value.
#[verifier::external_body]
fn not_found_error(path: &str) -> (e: std::io::Error) {
    std::io::Error::new(std::io::ErrorKind::NotFound, format!("image not found: {path}"))
}

/// `std::io::Error::new` of kind `InvalidInput` with the given message.
/// Nothing is stated of the value.
#[verifier::external_body]
fn invalid_input_error(message: &str) -> (e: std::io::Error) {
    std::io::Error::new(std::io::ErrorKind::InvalidInput, message.to_string())
}

/// Reader over a (possibly spanned) Ghost image, named by its path.
#[derive(Debug, Clone)]
pub struct ImageReader {
    path: String,
}

impl ImageReader {
    /// Open a single-file image at `path`; `exists` tells whether the file
    /// is there. For spanned images, concatenate first (see [`crate::span`]).
    pub fn open(path: &str, exists: bool) -> (r: Result<Self>)
        ensures
            exists ==> (r matches Ok(reader) && reader.spec_path() == path@),
            !exists ==> fails_with(r, ErrorClass::Io),
    {
        if !exists {
            return Err(Error::Io(not_found_error(path)));
        }
        Ok(ImageReader { path: path.to_owned() })
    }

    /// Open a spanned image (multiple `.gho` / `.ghs` files, in order); the
    /// reader is named by the first.
    pub fn open_spanned(paths: &[String]) -> (r: Result<Self>)
        ensures
            paths@.len() == 0 ==> fails_with(r, ErrorClass::Io),
            paths@.len() > 0 ==> (r matches Ok(reader) && reader.spec_path() == paths@[0]@),
    {
        if paths.len() == 0 {
            return Err(Error::Io(invalid_input_error("no input files")));
        }
        Ok(ImageReader { path: paths[0].clone() })
    }

    /// The path of the image.
    pub fn path(&self) -> (p: &str)
        ensures
            p@ == self.spec_path(),
    {
        self.path.as_str()
    }

    /// The path of the image, as a spec value.
    pub closed spec fn spec_path(&self) -> Seq<char> {
        self.path@
    }

    /// Detect the format family of this image from its bytes.
    pub fn detect_format(&self, image: &[u8]) -> (r: Result<Format>)
        ensures
            match spec_detect_format(image@) {
                Ok(f) => r == Ok::<Format, Error>(f),
                Err(c) => fails_with(r, c),
            },
    {
        detect_format_bytes(image)
    }
}

} // verus!
