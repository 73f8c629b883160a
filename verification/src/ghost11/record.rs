//! 10-byte record header of Ghost 11.x/12.x streams: type code (LE u16),
//! two padding bytes, magic `0x012F18D8` (LE u32), body length (LE u16).

use vstd::prelude::*;

use crate::bytes::{le16, le32, read_le16, read_le32};
use crate::error::{Error, Result};

verus! {

/// Magic number embedded in every record header (little-endian).
pub const RECORD_MAGIC: u32 = 0x012F_18D8;

/// Size of a record header in bytes.
pub const RECORD_HEADER_SIZE: usize = 10;

/// Track0 record: first record; body is a 6-byte mini header and
/// optionally a 512-byte MBR.
pub const RECORD_TYPE_TRACK0: u16 = 0x0006;

/// Partition record: marks the start of a new partition payload.
pub const RECORD_TYPE_PARTITION: u16 = 0x0603;

/// Continuation record: links a spanned image to the next physical file.
pub const RECORD_TYPE_CONTINUATION: u16 = 0x0703;

/// End record: terminates the image stream.
pub const RECORD_TYPE_END: u16 = 0x0023;

/// All known record type codes.
pub const KNOWN_RECORD_TYPES: [u16; 4] = [
    RECORD_TYPE_TRACK0,
    RECORD_TYPE_PARTITION,
    RECORD_TYPE_CONTINUATION,
    RECORD_TYPE_END,
];

/// One decoded record header (the body is owned by the caller).
#[derive(Debug, Clone, Copy, PartialEq, Eq, Structural)]
pub struct Record {
    pub kind: RecordType,
    pub body_len: u16,
}

/// The type code of a parsed record.
#[derive(Debug, Clone, Copy, PartialEq, Eq, Structural)]
pub enum RecordType {
    Track0,
    Partition,
    Continuation,
    End,
}

/// The record type named by a type code, if it is a known one.
pub open spec fn spec_record_type(v: u16) -> Option<RecordType> {
    if v == RECORD_TYPE_TRACK0 {
        Some(RecordType::Track0)
    } else if v == RECORD_TYPE_PARTITION {
        Some(RecordType::Partition)
    } else if v == RECORD_TYPE_CONTINUATION {
        Some(RecordType::Continuation)
    } else if v == RECORD_TYPE_END {
        Some(RecordType::End)
    } else {
        None
    }
}

/// The record header at `buf[off..off + 10]`: present when all ten bytes are
/// there, the type code is known and the magic matches.
pub open spec fn spec_parse_at(buf: Seq<u8>, off: int) -> Option<Record> {
    if off < 0 || off + RECORD_HEADER_SIZE > buf.len() {
        None
    } else {
        match spec_record_type(le16(buf, off)) {
            None => None,
            Some(kind) => if le32(buf, off + 4) != RECORD_MAGIC {
                None
            } else {
                Some(Record { kind, body_len: le16(buf, off + 8) })
            },
        }
    }
}

impl RecordType {
    /// Decode a record type code.
    pub fn from_u16(v: u16) -> (r: Option<Self>)
        ensures
            r == spec_record_type(v),
    {
        if v == RECORD_TYPE_TRACK0 {
            Some(RecordType::Track0)
        } else if v == RECORD_TYPE_PARTITION {
            Some(RecordType::Partition)
        } else if v == RECORD_TYPE_CONTINUATION {
            Some(RecordType::Continuation)
        } else if v == RECORD_TYPE_END {
            Some(RecordType::End)
        } else {
            None
        }
    }
}

impl Record {
    /// Try to parse a record header at `buf[off..]`. Returns `None` if the
    /// bytes do not form a known record header (e.g. they are block data).
    pub fn parse_at(buf: &[u8], off: usize) -> (r: Option<Self>)
        ensures
            r == spec_parse_at(buf@, off as int),
    {
        if off > buf.len() || buf.len() - off < RECORD_HEADER_SIZE {
            return None;
        }
        let type_code = read_le16(buf, off);
        let kind = match RecordType::from_u16(type_code) {
            Some(k) => k,
            None => return None,
        };
        let magic = read_le32(buf, off + 4);
        if magic != RECORD_MAGIC {
            return None;
        }
        let body_len = read_le16(buf, off + 8);
        Some(Record { kind, body_len })
    }

    /// Strict parse: an error when the bytes at `off` are not a record header.
    pub fn parse_strict(buf: &[u8], off: usize) -> (r: Result<Self>)
        ensures
            match spec_parse_at(buf@, off as int) {
                Some(rec) => r == Ok::<Record, Error>(rec),
                None => r matches Err(Error::Format { offset: o, .. }) && o == off as u64,
            },
    {
        match Record::parse_at(buf, off) {
            Some(rec) => Ok(rec),
            None => Err(Error::format(off as u64, "expected record header, found non-matching bytes")),
        }
    }
}

} // verus!
