//! `gho` — reader and extractor for Norton Ghost `.GHO` / `.GHS` disk images.
//!
//! Two format families are handled:
//! - **11.x / 12.x**: `FEEF` magic, partition records, FastLZ (Z1) or zlib
//!   compressed blocks.
//! - **pre-11.x**: `FEEF` magic, a flat stream of FAT-style 8.3 dirents with
//!   FastLZ (Z1) data blocks.
//!
//! Every parser here works on bytes that are already in memory and states
//! its result in its contract; reading and writing files is left to the
//! caller.

pub mod bytes;
pub mod commands;
pub mod error;
pub mod fastlz;
pub mod format;
pub mod ghost11;
pub mod ghostold;
pub mod mbr;
pub mod safety;
pub mod span;
mod text;
pub mod tui;

pub use error::{Error, Result};
pub use format::{Format, ImageReader};
