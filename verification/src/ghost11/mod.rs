//! Norton Ghost 11.x / 12.x image parser.
//!
//! Layout: a 512-byte file header (`FEEF` magic), then a stream of 10-byte
//! record headers each followed by `body_len` body bytes: Track0
//! (`0x0006`), Partition (`0x0603`), Continuation (`0x0703`), End
//! (`0x0023`). Between records sit compressed blocks (a 2-byte
//! `stored_len` and its payload), stored verbatim (`compression == 0`),
//! FastLZ (`compression == 2`) or zlib (`compression` in `3..=9`).

pub mod header;
pub mod record;
pub mod stream;
mod family;

pub use family::{
    looks_like_embedded_file_header, looks_like_record, spec_compression, Compression, COMPRESSION_FAST,
    COMPRESSION_NONE, GHO_MAGIC, HEADER_SIZE,
};
pub use header::FileHeader;
pub use stream::{
    decompress_block, extract, read_and_decompress_block, ExtractResult, ExtractedImage,
    PartitionPayload, PartitionSummary,
};
pub use record::{Record, RecordType, KNOWN_RECORD_TYPES, RECORD_HEADER_SIZE, RECORD_MAGIC};

