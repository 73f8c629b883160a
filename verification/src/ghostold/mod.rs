//! Norton Ghost pre-11.x image parser.
//!
//! Layout: a 512-byte file header (`FEEF` magic), then a stream of records
//! with the same 10-byte header as 11.x but other type codes. The data is a
//! flat directory of FAT-style 56-byte dirents, each followed by the
//! FastLZ blocks of its file.

pub mod dirent;
pub mod record;
pub mod stream;
mod layout;

pub use dirent::Dirent;
pub use stream::{extract_file, make_entry, walk_dirents, WalkedEntry};
pub use layout::{DATA_FULL_BLOCK_SIZE, GHO_MAGIC, HEADER_SIZE};

pub use record::{
    Record, RecordType, KNOWN_RECORD_TYPES, RECORD_DATA_FULL, RECORD_DATA_LAST, RECORD_DATA_TRAILER,
    RECORD_DIRENT, RECORD_FIRST_DIRENT, RECORD_HEADER_SIZE, RECORD_MAGIC, RECORD_PART2_BOOT,
    RECORD_PART2_TABLE, RECORD_TYPE_BOOT_HMR,
};
