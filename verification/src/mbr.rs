//! Master Boot Record partition table parser.
//!
//! The partition table sits in bytes 446..510 of the 512-byte MBR: four
//! 16-byte entries. A valid MBR ends with the boot signature `0x55 0xAA`.

use vstd::prelude::*;

use crate::bytes::{le32, read_le32};
use crate::error::{Error, Result};

verus! {

/// Size of one MBR partition entry.
pub const MBR_ENTRY_SIZE: usize = 16;

/// Number of entries in a standard MBR partition table.
pub const MBR_ENTRY_COUNT: usize = 4;

/// Boot signature byte 0.
pub const MBR_BOOT_SIG_0: u8 = 0x55;

/// Boot signature byte 1.
pub const MBR_BOOT_SIG_1: u8 = 0xAA;

/// One parsed MBR partition entry.
#[derive(Debug, Clone, Copy, PartialEq, Eq, Structural)]
pub struct MbrEntry {
    /// Partition type (0x07 = NTFS, 0x83 = Linux, 0x82 = Linux swap, ...).
    pub part_type: u8,
    /// First LBA sector.
    pub lba_start: u32,
    /// Number of LBA sectors.
    pub lba_size: u32,
}

/// True when `mbr` is at least 512 bytes long and ends its first sector
/// with the boot signature.
pub open spec fn has_boot_signature(mbr: Seq<u8>) -> bool {
    mbr.len() >= 512 && mbr[510] == MBR_BOOT_SIG_0 && mbr[511] == MBR_BOOT_SIG_1
}

/// Table entry `i` as stored at `mbr[446 + 16 * i..]`.
pub open spec fn spec_entry(mbr: Seq<u8>, i: int) -> MbrEntry {
    let off = 446 + 16 * i;
    MbrEntry { part_type: mbr[off + 4], lba_start: le32(mbr, off + 8), lba_size: le32(mbr, off + 12) }
}

/// The entries among the first `k` table slots whose type byte is non-zero,
/// in table order.
pub open spec fn entries_upto(mbr: Seq<u8>, k: int) -> Seq<MbrEntry>
    decreases k,
{
    if k <= 0 {
        Seq::empty()
    } else {
        let prev = entries_upto(mbr, k - 1);
        if mbr[446 + 16 * (k - 1) + 4] == 0 {
            prev
        } else {
            prev.push(spec_entry(mbr, k - 1))
        }
    }
}

/// The partition table of `mbr`: the non-empty entries when the boot
/// signature is present, no entries otherwise.
pub open spec fn spec_mbr_entries(mbr: Seq<u8>) -> Seq<MbrEntry> {
    if has_boot_signature(mbr) {
        entries_upto(mbr, 4)
    } else {
        Seq::empty()
    }
}

/// Parse an MBR partition table from a 512-byte (or longer) buffer.
///
/// Returns no entries if the boot signature is missing or the buffer is
/// too short; never fails.
pub fn parse(mbr: &[u8]) -> (r: Result<Vec<MbrEntry>>)
    ensures
        r matches Ok(v) && v@ == spec_mbr_entries(mbr@),
{
    let mut entries: Vec<MbrEntry> = Vec::with_capacity(MBR_ENTRY_COUNT);
    if mbr.len() < 512 || mbr[510] != MBR_BOOT_SIG_0 || mbr[511] != MBR_BOOT_SIG_1 {
        return Ok(entries);
    }
    let mut i: usize = 0;
    while i < MBR_ENTRY_COUNT
        invariant
            i <= MBR_ENTRY_COUNT,
            mbr@.len() >= 512,
            entries@ == entries_upto(mbr@, i as int),
        decreases MBR_ENTRY_COUNT - i,
    {
        let off = 446 + i * MBR_ENTRY_SIZE;
        let part_type = mbr[off + 4];
        if part_type != 0 {
            let lba_start = read_le32(mbr, off + 8);
            let lba_size = read_le32(mbr, off + 12);
            entries.push(MbrEntry { part_type, lba_start, lba_size });
        }
        i += 1;
    }
    Ok(entries)
}

} // verus!
