//! 10-byte record header of pre-11.x images: the same wire format as 11.x
//! (type, padding, magic `0x012F18D8`, body length) with other type codes.

use vstd::prelude::*;

use crate::bytes::{le16, le32, read_le16, read_le32};
use crate::error::{Error, Result};

verus! {

/// Magic number embedded in every record header (little-endian).
pub const RECORD_MAGIC: u32 = 0x012F_18D8;

/// Size of a record header in bytes.
pub const RECORD_HEADER_SIZE: usize = 10;

/// Record type: HMR / read-record at the very start of the image.
pub const RECORD_TYPE_BOOT_HMR: u16 = 0x2C17;
/// Record type: the very first dirent in the image (singleton).
pub const RECORD_TYPE_FIRST_DIRENT: u16 = 0x2C04;
/// Record type: a normal FAT-style directory entry.
pub const RECORD_TYPE_DIRENT: u16 = 0x0104;
/// Record type: a full 32 KiB compressed data block.
pub const RECORD_TYPE_DATA_FULL: u16 = 0x0002;
/// Record type: the last (partial) compressed data block of a file.
pub const RECORD_TYPE_DATA_LAST: u16 = 0x0102;
/// Record type: 20-byte trailer after the last data block of a file.
pub const RECORD_TYPE_DATA_TRAILER: u16 = 0x0103;
/// Record type: boot sector of the second partition (FAT32).
pub const RECORD_TYPE_PART2_BOOT: u16 = 0x0118;
/// Record type: 512-byte partition table of the second partition.
pub const RECORD_TYPE_PART2_TABLE: u16 = 0x0117;

/// Short name of [`RECORD_TYPE_BOOT_HMR`].
pub const RECORD_BOOT_HMR: u16 = RECORD_TYPE_BOOT_HMR;
/// Short name of [`RECORD_TYPE_FIRST_DIRENT`].
pub const RECORD_FIRST_DIRENT: u16 = RECORD_TYPE_FIRST_DIRENT;
/// Short name of [`RECORD_TYPE_DIRENT`].
pub const RECORD_DIRENT: u16 = RECORD_TYPE_DIRENT;
/// Short name of [`RECORD_TYPE_DATA_FULL`].
pub const RECORD_DATA_FULL: u16 = RECORD_TYPE_DATA_FULL;
/// Short name of [`RECORD_TYPE_DATA_LAST`].
pub const RECORD_DATA_LAST: u16 = RECORD_TYPE_DATA_LAST;
/// Short name of [`RECORD_TYPE_DATA_TRAILER`].
pub const RECORD_DATA_TRAILER: u16 = RECORD_TYPE_DATA_TRAILER;
/// Short name of [`RECORD_TYPE_PART2_BOOT`].
pub const RECORD_PART2_BOOT: u16 = RECORD_TYPE_PART2_BOOT;
/// Short name of [`RECORD_TYPE_PART2_TABLE`].
pub const RECORD_PART2_TABLE: u16 = RECORD_TYPE_PART2_TABLE;

/// All observed record type codes for the pre-11.x format.
pub const KNOWN_RECORD_TYPES: [u16; 8] = [
    RECORD_TYPE_BOOT_HMR,
    RECORD_TYPE_FIRST_DIRENT,
    RECORD_TYPE_DIRENT,
    RECORD_TYPE_DATA_FULL,
    RECORD_TYPE_DATA_LAST,
    RECORD_TYPE_DATA_TRAILER,
    RECORD_TYPE_PART2_BOOT,
    RECORD_TYPE_PART2_TABLE,
];

/// One decoded record header.
#[derive(Debug, Clone, Copy, PartialEq, Eq, Structural)]
pub struct Record {
    pub kind: RecordType,
    pub body_len: u16,
}

/// Type code of a parsed pre-11.x record.
#[derive(Debug, Clone, Copy, PartialEq, Eq, Structural)]
pub enum RecordType {
    BootHmr,
    FirstDirent,
    Dirent,
    DataFull,
    DataLast,
    DataTrailer,
    Part2Boot,
    Part2Table,
    /// An unknown but validly-formed record (its body length is still known).
    Unknown(u16),
}

/// The record type of a type code.
pub open spec fn spec_record_type(v: u16) -> RecordType {
    if v == RECORD_TYPE_BOOT_HMR {
        RecordType::BootHmr
    } else if v == RECORD_TYPE_FIRST_DIRENT {
        RecordType::FirstDirent
    } else if v == RECORD_TYPE_DIRENT {
        RecordType::Dirent
    } else if v == RECORD_TYPE_DATA_FULL {
        RecordType::DataFull
    } else if v == RECORD_TYPE_DATA_LAST {
        RecordType::DataLast
    } else if v == RECORD_TYPE_DATA_TRAILER {
        RecordType::DataTrailer
    } else if v == RECORD_TYPE_PART2_BOOT {
        RecordType::Part2Boot
    } else if v == RECORD_TYPE_PART2_TABLE {
        RecordType::Part2Table
    } else {
        RecordType::Unknown(v)
    }
}

/// The record header at `buf[off..off + 10]`: present when all ten bytes are
/// there, the magic matches and the body length is not zero, whatever the
/// type code.
pub open spec fn spec_parse_at(buf: Seq<u8>, off: int) -> Option<Record> {
    if off < 0 || off + RECORD_HEADER_SIZE > buf.len() || le32(buf, off + 4) != RECORD_MAGIC || le16(buf, off + 8) == 0 {
        None
    } else {
        Some(Record { kind: spec_record_type(le16(buf, off)), body_len: le16(buf, off + 8) })
    }
}

impl RecordType {
    /// Decode a record type code; unknown codes are kept.
    pub fn from_u16(v: u16) -> (r: Self)
        ensures
            r == spec_record_type(v),
    {
        if v == RECORD_TYPE_BOOT_HMR {
            RecordType::BootHmr
        } else if v == RECORD_TYPE_FIRST_DIRENT {
            RecordType::FirstDirent
        } else if v == RECORD_TYPE_DIRENT {
            RecordType::Dirent
        } else if v == RECORD_TYPE_DATA_FULL {
            RecordType::DataFull
        } else if v == RECORD_TYPE_DATA_LAST {
            RecordType::DataLast
        } else if v == RECORD_TYPE_DATA_TRAILER {
            RecordType::DataTrailer
        } else if v == RECORD_TYPE_PART2_BOOT {
            RecordType::Part2Boot
        } else if v == RECORD_TYPE_PART2_TABLE {
            RecordType::Part2Table
        } else {
            RecordType::Unknown(v)
        }
    }
}

impl Record {
    /// Try to parse a record header at `buf[off..]`. Records are recognised
    /// by the magic and a non-zero body length; `None` otherwise, or when
    /// fewer than ten bytes remain.
    pub fn parse_at(buf: &[u8], off: usize) -> (r: Option<Self>)
        ensures
            r == spec_parse_at(buf@, off as int),
    {
        if off > buf.len() || buf.len() - off < RECORD_HEADER_SIZE {
            return None;
        }
        let type_code = read_le16(buf, off);
        let magic = read_le32(buf, off + 4);
        if magic != RECORD_MAGIC {
            return None;
        }
        let body_len = read_le16(buf, off + 8);
        if body_len == 0 {
            return None;
        }
        Some(Record { kind: RecordType::from_u16(type_code), body_len })
    }

    /// Strict parse: an error when the bytes at `off` are not a record header.
    pub fn parse_strict(buf: &[u8], off: usize) -> (r: Result<Self>)
        ensures
            match spec_parse_at(buf@, off as int) {
                Some(rec) => r == Ok::<Record, Error>(rec),
                None => r matches Err(Error::Format { offset: o, .. }) && o == off as u64,
            },
    {
        match Record::parse_at(buf, off) {
            Some(rec) => Ok(rec),
            None => Err(Error::format(off as u64, "expected record header, found non-matching bytes")),
        }
    }
}

} // verus!
