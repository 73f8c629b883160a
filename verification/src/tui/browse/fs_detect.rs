//! Filesystem detection for partition boot sectors.
//!
//! Identifies the filesystem in the first bytes of a partition by magic
//! bytes: NTFS, FAT12/16/32, exFAT, ext2/3/4, XFS, Btrfs, HFS, HFS+, APFS,
//! swap, ISO 9660, UDF, Linux RAID, LVM, ZFS, and boot loaders (GRUB, GRUB
//! Legacy, syslinux, BOOTMGR, LILO) on sectors with a boot signature. This
//! is a heuristic, not a validation.

use vstd::prelude::*;

use crate::bytes::{le32, le64, range_eq, range_equals, read_le32, read_le64};

verus! {

/// A detected filesystem or boot sector kind.
#[derive(Debug, Clone, Copy, PartialEq, Eq, Structural)]
pub enum FsKind {
    Ntfs,
    Fat { variant: FatVariant },
    ExFat,
    Ext { version: ExtVersion },
    Xfs,
    Btrfs,
    Hfs,
    HfsPlus,
    Apfs,
    Swap,
    Iso9660,
    Udf,
    LinuxRaid,
    Lvm,
    Zfs,
    BootSector(BootLoader),
    Raw,
    Unknown,
}

/// FAT variants.
#[derive(Debug, Clone, Copy, PartialEq, Eq, Structural)]
pub enum FatVariant {
    Fat12,
    Fat16,
    Fat32,
}

/// ext versions.
#[derive(Debug, Clone, Copy, PartialEq, Eq, Structural)]
pub enum ExtVersion {
    Ext2,
    Ext3,
    Ext4,
}

/// Boot loaders recognised in boot sectors.
#[derive(Debug, Clone, Copy, PartialEq, Eq, Structural)]
pub enum BootLoader {
    Grub,
    GrubLegacy,
    Ntldr,
    Syslinux,
    Lilo,
    BootMgr,
    MbrBlank,
}

/// The signature `NTFS`.
pub open spec fn sig_ntfs() -> Seq<u8> {
    seq![0x4Eu8, 0x54u8, 0x46u8, 0x53u8]
}

/// The signature `EXFAT`.
pub open spec fn sig_exfat() -> Seq<u8> {
    seq![0x45u8, 0x58u8, 0x46u8, 0x41u8, 0x54u8]
}

/// The signature `XFSB`.
pub open spec fn sig_xfsb() -> Seq<u8> {
    seq![0x58u8, 0x46u8, 0x53u8, 0x42u8]
}

/// The signature `_BHRfS_M`.
pub open spec fn sig_btrfs() -> Seq<u8> {
    seq![0x5Fu8, 0x42u8, 0x48u8, 0x52u8, 0x66u8, 0x53u8, 0x5Fu8, 0x4Du8]
}

/// The signature `H+`.
pub open spec fn sig_hplus() -> Seq<u8> {
    seq![0x48u8, 0x2Bu8]
}

/// The signature `HX`.
pub open spec fn sig_hx() -> Seq<u8> {
    seq![0x48u8, 0x58u8]
}

/// The signature `NXSB`.
pub open spec fn sig_nxsb() -> Seq<u8> {
    seq![0x4Eu8, 0x58u8, 0x53u8, 0x42u8]
}

/// The signature `FAT32   `.
pub open spec fn sig_fat32() -> Seq<u8> {
    seq![0x46u8, 0x41u8, 0x54u8, 0x33u8, 0x32u8, 0x20u8, 0x20u8, 0x20u8]
}

/// The signature `FAT16   `.
pub open spec fn sig_fat16() -> Seq<u8> {
    seq![0x46u8, 0x41u8, 0x54u8, 0x31u8, 0x36u8, 0x20u8, 0x20u8, 0x20u8]
}

/// The signature `FAT12   `.
pub open spec fn sig_fat12() -> Seq<u8> {
    seq![0x46u8, 0x41u8, 0x54u8, 0x31u8, 0x32u8, 0x20u8, 0x20u8, 0x20u8]
}

/// The signature `SWAPSPACE2`.
pub open spec fn sig_swap() -> Seq<u8> {
    seq![0x53u8, 0x57u8, 0x41u8, 0x50u8, 0x53u8, 0x50u8, 0x41u8, 0x43u8, 0x45u8, 0x32u8]
}

/// The signature `CD001`.
pub open spec fn sig_cd001() -> Seq<u8> {
    seq![0x43u8, 0x44u8, 0x30u8, 0x30u8, 0x31u8]
}

/// The signature `NSR02`.
pub open spec fn sig_nsr02() -> Seq<u8> {
    seq![0x4Eu8, 0x53u8, 0x52u8, 0x30u8, 0x32u8]
}

/// The signature `NSR03`.
pub open spec fn sig_nsr03() -> Seq<u8> {
    seq![0x4Eu8, 0x53u8, 0x52u8, 0x30u8, 0x33u8]
}

/// The signature `.this is a md superblock`.
pub open spec fn sig_md() -> Seq<u8> {
    seq![0x2Eu8, 0x74u8, 0x68u8, 0x69u8, 0x73u8, 0x20u8, 0x69u8, 0x73u8, 0x20u8, 0x61u8, 0x20u8, 0x6Du8, 0x64u8, 0x20u8, 0x73u8, 0x75u8, 0x70u8, 0x65u8, 0x72u8, 0x62u8, 0x6Cu8, 0x6Fu8, 0x63u8, 0x6Bu8]
}

/// The signature `LVM2 001`.
pub open spec fn sig_lvm() -> Seq<u8> {
    seq![0x4Cu8, 0x56u8, 0x4Du8, 0x32u8, 0x20u8, 0x30u8, 0x30u8, 0x31u8]
}

/// The signature `GRUB`.
pub open spec fn sig_grub() -> Seq<u8> {
    seq![0x47u8, 0x52u8, 0x55u8, 0x42u8]
}

/// The signature `SYSLINUX`.
pub open spec fn sig_syslinux() -> Seq<u8> {
    seq![0x53u8, 0x59u8, 0x53u8, 0x4Cu8, 0x49u8, 0x4Eu8, 0x55u8, 0x58u8]
}

/// The signature `BOOTMGR`.
pub open spec fn sig_bootmgr() -> Seq<u8> {
    seq![0x42u8, 0x4Fu8, 0x4Fu8, 0x54u8, 0x4Du8, 0x47u8, 0x52u8]
}

/// The signature `LILO`.
pub open spec fn sig_lilo() -> Seq<u8> {
    seq![0x4Cu8, 0x49u8, 0x4Cu8, 0x4Fu8]
}

/// True when `b` starts with `pat`.
pub open spec fn starts_with(b: Seq<u8>, pat: Seq<u8>) -> bool {
    range_eq(b, 0, pat.len() as int, pat)
}

/// The ext version told by the feature flags of the superblock at 1024.
pub open spec fn spec_ext_version(b: Seq<u8>) -> ExtVersion {
    let incompat = le32(b, 96);
    let ro_compat = le32(b, 100);
    if incompat & 0x40 != 0 || ro_compat & 0x08 != 0 {
        ExtVersion::Ext4
    } else if incompat & 0x04 != 0 {
        ExtVersion::Ext3
    } else {
        ExtVersion::Ext2
    }
}

/// True for the two ZFS magic values.
pub open spec fn is_zfs_magic(m: u64) -> bool {
    m == 0x0001_0203_0405_0607u64 || m == 0x0B10_C511_B059_1137u64
}

/// True when the first 0x1B8 bytes (the boot code area) are all zero.
pub open spec fn boot_code_blank(b: Seq<u8>) -> bool {
    forall|i: int| 0 <= i < 0x1B8 ==> b[i] == 0
}

/// The boot sector kind of a sector with a boot signature and no known
/// filesystem.
pub open spec fn spec_boot_kind(b: Seq<u8>) -> FsKind {
    if range_eq(b, 0x178, 0x17C, sig_grub()) {
        FsKind::BootSector(BootLoader::Grub)
    } else if range_eq(b, 0x44, 0x48, sig_grub()) {
        FsKind::BootSector(BootLoader::GrubLegacy)
    } else if range_eq(b, 0x6E, 0x76, sig_syslinux()) {
        FsKind::BootSector(BootLoader::Syslinux)
    } else if range_eq(b, 0x2A, 0x31, sig_bootmgr()) {
        FsKind::BootSector(BootLoader::BootMgr)
    } else if range_eq(b, 0x06, 0x0A, sig_lilo()) {
        FsKind::BootSector(BootLoader::Lilo)
    } else if boot_code_blank(b) {
        FsKind::BootSector(BootLoader::MbrBlank)
    } else {
        FsKind::Raw
    }
}

/// The filesystem in `b`, checked in this order: short input, NTFS,
/// exFAT, ext, XFS, Btrfs, HFS+, HFS, APFS, FAT32, FAT16/12 at 54 and at 82,
/// swap, ISO 9660, UDF, Linux RAID, LVM, ZFS, then boot loaders when the
/// boot signature is present.
pub open spec fn spec_detect_fs(b: Seq<u8>) -> FsKind {
    if b.len() < 512 {
        FsKind::Unknown
    } else if starts_with(b, sig_ntfs()) {
        FsKind::Ntfs
    } else if starts_with(b, sig_exfat()) {
        FsKind::ExFat
    } else if b.len() >= 1082 && b[1080] == 0x53 && b[1081] == 0xEF {
        FsKind::Ext { version: spec_ext_version(b) }
    } else if starts_with(b, sig_xfsb()) {
        FsKind::Xfs
    } else if range_eq(b, 0x10040, 0x10048, sig_btrfs()) {
        FsKind::Btrfs
    } else if starts_with(b, sig_hplus()) {
        FsKind::HfsPlus
    } else if starts_with(b, sig_hx()) {
        FsKind::Hfs
    } else if range_eq(b, 32, 36, sig_nxsb()) {
        FsKind::Apfs
    } else if range_eq(b, 82, 90, sig_fat32()) {
        FsKind::Fat { variant: FatVariant::Fat32 }
    } else if range_eq(b, 54, 62, sig_fat16()) {
        FsKind::Fat { variant: FatVariant::Fat16 }
    } else if range_eq(b, 54, 62, sig_fat12()) {
        FsKind::Fat { variant: FatVariant::Fat12 }
    } else if range_eq(b, 82, 90, sig_fat16()) {
        FsKind::Fat { variant: FatVariant::Fat16 }
    } else if range_eq(b, 82, 90, sig_fat12()) {
        FsKind::Fat { variant: FatVariant::Fat12 }
    } else if range_eq(b, 4086, 4096, sig_swap()) {
        FsKind::Swap
    } else if range_eq(b, 32768, 32773, sig_cd001()) {
        FsKind::Iso9660
    } else if range_eq(b, 32769, 32774, sig_nsr02()) || range_eq(b, 32769, 32774, sig_nsr03()) {
        FsKind::Udf
    } else if range_eq(b, 8, 32, sig_md()) {
        FsKind::LinuxRaid
    } else if starts_with(b, sig_lvm()) {
        FsKind::Lvm
    } else if is_zfs_magic(le64(b, 0)) || is_zfs_magic(le64(b, 8)) {
        FsKind::Zfs
    } else if b[510] == 0x55 && b[511] == 0xAA {
        spec_boot_kind(b)
    } else {
        FsKind::Unknown
    }
}

/// Check whether the first 0x1B8 bytes are all zero.
fn boot_code_is_blank(bytes: &[u8]) -> (r: bool)
    requires
        bytes@.len() >= 512,
    ensures
        r == boot_code_blank(bytes@),
{
    let mut i: usize = 0;
    while i < 0x1B8
        invariant
            i <= 0x1B8,
            bytes@.len() >= 512,
            forall|k: int| 0 <= k < i ==> bytes@[k] == 0,
        decreases 0x1B8 - i,
    {
        if bytes[i] != 0 {
            return false;
        }
        i += 1;
    }
    true
}

/// Identify the boot sector kind of a sector with a boot signature.
fn detect_boot(bytes: &[u8]) -> (k: FsKind)
    requires
        bytes@.len() >= 512,
    ensures
        k == spec_boot_kind(bytes@),
{
    let grub_sig: [u8; 4] = [0x47u8, 0x52u8, 0x55u8, 0x42u8];
    assert(grub_sig@ == sig_grub());
    let syslinux_sig: [u8; 8] = [0x53u8, 0x59u8, 0x53u8, 0x4Cu8, 0x49u8, 0x4Eu8, 0x55u8, 0x58u8];
    assert(syslinux_sig@ == sig_syslinux());
    let bootmgr_sig: [u8; 7] = [0x42u8, 0x4Fu8, 0x4Fu8, 0x54u8, 0x4Du8, 0x47u8, 0x52u8];
    assert(bootmgr_sig@ == sig_bootmgr());
    let lilo_sig: [u8; 4] = [0x4Cu8, 0x49u8, 0x4Cu8, 0x4Fu8];
    assert(lilo_sig@ == sig_lilo());
    if range_equals(bytes, 0x178, 0x17C, grub_sig.as_slice()) {
        FsKind::BootSector(BootLoader::Grub)
    } else if range_equals(bytes, 0x44, 0x48, grub_sig.as_slice()) {
        FsKind::BootSector(BootLoader::GrubLegacy)
    } else if range_equals(bytes, 0x6E, 0x76, syslinux_sig.as_slice()) {
        FsKind::BootSector(BootLoader::Syslinux)
    } else if range_equals(bytes, 0x2A, 0x31, bootmgr_sig.as_slice()) {
        FsKind::BootSector(BootLoader::BootMgr)
    } else if range_equals(bytes, 0x06, 0x0A, lilo_sig.as_slice()) {
        FsKind::BootSector(BootLoader::Lilo)
    } else if boot_code_is_blank(bytes) {
        FsKind::BootSector(BootLoader::MbrBlank)
    } else {
        FsKind::Raw
    }
}

/// Identify the filesystem that lives in the first bytes of a partition.
/// Inputs shorter than 512 bytes are `Unknown`.
#[verifier::rlimit(40)]
pub fn detect_fs(bytes: &[u8]) -> (k: FsKind)
    ensures
        k == spec_detect_fs(bytes@),
{
    if bytes.len() < 512 {
        return FsKind::Unknown;
    }
    let ntfs_sig: [u8; 4] = [0x4Eu8, 0x54u8, 0x46u8, 0x53u8];
    assert(ntfs_sig@ == sig_ntfs());
    let exfat_sig: [u8; 5] = [0x45u8, 0x58u8, 0x46u8, 0x41u8, 0x54u8];
    assert(exfat_sig@ == sig_exfat());
    let xfsb_sig: [u8; 4] = [0x58u8, 0x46u8, 0x53u8, 0x42u8];
    assert(xfsb_sig@ == sig_xfsb());
    let btrfs_sig: [u8; 8] = [0x5Fu8, 0x42u8, 0x48u8, 0x52u8, 0x66u8, 0x53u8, 0x5Fu8, 0x4Du8];
    assert(btrfs_sig@ == sig_btrfs());
    let hplus_sig: [u8; 2] = [0x48u8, 0x2Bu8];
    assert(hplus_sig@ == sig_hplus());
    let hx_sig: [u8; 2] = [0x48u8, 0x58u8];
    assert(hx_sig@ == sig_hx());
    let nxsb_sig: [u8; 4] = [0x4Eu8, 0x58u8, 0x53u8, 0x42u8];
    assert(nxsb_sig@ == sig_nxsb());
    let fat32_sig: [u8; 8] = [0x46u8, 0x41u8, 0x54u8, 0x33u8, 0x32u8, 0x20u8, 0x20u8, 0x20u8];
    assert(fat32_sig@ == sig_fat32());
    let fat16_sig: [u8; 8] = [0x46u8, 0x41u8, 0x54u8, 0x31u8, 0x36u8, 0x20u8, 0x20u8, 0x20u8];
    assert(fat16_sig@ == sig_fat16());
    let fat12_sig: [u8; 8] = [0x46u8, 0x41u8, 0x54u8, 0x31u8, 0x32u8, 0x20u8, 0x20u8, 0x20u8];
    assert(fat12_sig@ == sig_fat12());
    let swap_sig: [u8; 10] = [0x53u8, 0x57u8, 0x41u8, 0x50u8, 0x53u8, 0x50u8, 0x41u8, 0x43u8, 0x45u8, 0x32u8];
    assert(swap_sig@ == sig_swap());
    let cd001_sig: [u8; 5] = [0x43u8, 0x44u8, 0x30u8, 0x30u8, 0x31u8];
    assert(cd001_sig@ == sig_cd001());
    let nsr02_sig: [u8; 5] = [0x4Eu8, 0x53u8, 0x52u8, 0x30u8, 0x32u8];
    assert(nsr02_sig@ == sig_nsr02());
    let nsr03_sig: [u8; 5] = [0x4Eu8, 0x53u8, 0x52u8, 0x30u8, 0x33u8];
    assert(nsr03_sig@ == sig_nsr03());
    let md_sig: [u8; 24] = [0x2Eu8, 0x74u8, 0x68u8, 0x69u8, 0x73u8, 0x20u8, 0x69u8, 0x73u8, 0x20u8, 0x61u8, 0x20u8, 0x6Du8, 0x64u8, 0x20u8, 0x73u8, 0x75u8, 0x70u8, 0x65u8, 0x72u8, 0x62u8, 0x6Cu8, 0x6Fu8, 0x63u8, 0x6Bu8];
    assert(md_sig@ == sig_md());
    let lvm_sig: [u8; 8] = [0x4Cu8, 0x56u8, 0x4Du8, 0x32u8, 0x20u8, 0x30u8, 0x30u8, 0x31u8];
    assert(lvm_sig@ == sig_lvm());
    if range_equals(bytes, 0, 4, ntfs_sig.as_slice()) {
        FsKind::Ntfs
    } else if range_equals(bytes, 0, 5, exfat_sig.as_slice()) {
        FsKind::ExFat
    } else if bytes.len() >= 1082 && bytes[1080] == 0x53 && bytes[1081] == 0xEF {
        let incompat = read_le32(bytes, 96);
        let ro_compat = read_le32(bytes, 100);
        let version = if incompat & 0x40 != 0 || ro_compat & 0x08 != 0 {
            ExtVersion::Ext4
        } else if incompat & 0x04 != 0 {
            ExtVersion::Ext3
        } else {
            ExtVersion::Ext2
        };
        FsKind::Ext { version }
    } else if range_equals(bytes, 0, 4, xfsb_sig.as_slice()) {
        FsKind::Xfs
    } else if range_equals(bytes, 0x10040, 0x10048, btrfs_sig.as_slice()) {
        FsKind::Btrfs
    } else if range_equals(bytes, 0, 2, hplus_sig.as_slice()) {
        FsKind::HfsPlus
    } else if range_equals(bytes, 0, 2, hx_sig.as_slice()) {
        FsKind::Hfs
    } else if range_equals(bytes, 32, 36, nxsb_sig.as_slice()) {
        FsKind::Apfs
    } else if range_equals(bytes, 82, 90, fat32_sig.as_slice()) {
        FsKind::Fat { variant: FatVariant::Fat32 }
    } else if range_equals(bytes, 54, 62, fat16_sig.as_slice()) {
        FsKind::Fat { variant: FatVariant::Fat16 }
    } else if range_equals(bytes, 54, 62, fat12_sig.as_slice()) {
        FsKind::Fat { variant: FatVariant::Fat12 }
    } else if range_equals(bytes, 82, 90, fat16_sig.as_slice()) {
        FsKind::Fat { variant: FatVariant::Fat16 }
    } else if range_equals(bytes, 82, 90, fat12_sig.as_slice()) {
        FsKind::Fat { variant: FatVariant::Fat12 }
    } else if range_equals(bytes, 4086, 4096, swap_sig.as_slice()) {
        FsKind::Swap
    } else if range_equals(bytes, 32768, 32773, cd001_sig.as_slice()) {
        FsKind::Iso9660
    } else if range_equals(bytes, 32769, 32774, nsr02_sig.as_slice()) || range_equals(bytes, 32769, 32774, nsr03_sig.as_slice()) {
        FsKind::Udf
    } else if range_equals(bytes, 8, 32, md_sig.as_slice()) {
        FsKind::LinuxRaid
    } else if range_equals(bytes, 0, 8, lvm_sig.as_slice()) {
        FsKind::Lvm
    } else {
        let m0 = read_le64(bytes, 0);
        let m8 = read_le64(bytes, 8);
        if m0 == 0x0001_0203_0405_0607u64 || m0 == 0x0B10_C511_B059_1137u64 || m8 == 0x0001_0203_0405_0607u64
            || m8 == 0x0B10_C511_B059_1137u64 {
            FsKind::Zfs
        } else if bytes[510] == 0x55 && bytes[511] == 0xAA {
            detect_boot(bytes)
        } else {
            FsKind::Unknown
        }
    }
}

/// The display name of a [`FatVariant`].
pub open spec fn spec_fatvariant_name(v: FatVariant) -> Seq<char> {
    match v {
        FatVariant::Fat12 => seq!['F', 'A', 'T', '1', '2'],
        FatVariant::Fat16 => seq!['F', 'A', 'T', '1', '6'],
        FatVariant::Fat32 => seq!['F', 'A', 'T', '3', '2'],
    }
}

/// The display name of a [`ExtVersion`].
pub open spec fn spec_extversion_name(v: ExtVersion) -> Seq<char> {
    match v {
        ExtVersion::Ext2 => seq!['e', 'x', 't', '2'],
        ExtVersion::Ext3 => seq!['e', 'x', 't', '3'],
        ExtVersion::Ext4 => seq!['e', 'x', 't', '4'],
    }
}

/// The display name of a [`BootLoader`].
pub open spec fn spec_bootloader_name(v: BootLoader) -> Seq<char> {
    match v {
        BootLoader::Grub => seq!['G', 'R', 'U', 'B'],
        BootLoader::GrubLegacy => seq!['G', 'R', 'U', 'B', ' ', 'L', 'e', 'g', 'a', 'c', 'y'],
        BootLoader::Ntldr => seq!['N', 'T', 'L', 'D', 'R'],
        BootLoader::Syslinux => seq!['s', 'y', 's', 'l', 'i', 'n', 'u', 'x'],
        BootLoader::Lilo => seq!['L', 'I', 'L', 'O'],
        BootLoader::BootMgr => seq!['B', 'O', 'O', 'T', 'M', 'G', 'R'],
        BootLoader::MbrBlank => seq!['M', 'B', 'R', ' ', '(', 'b', 'l', 'a', 'n', 'k', ')'],
    }
}

/// The display name of an [`FsKind`].
pub open spec fn spec_fs_name(k: FsKind) -> Seq<char> {
    match k {
        FsKind::Fat { variant } => spec_fatvariant_name(variant),
        FsKind::Ext { version } => spec_extversion_name(version),
        FsKind::BootSector(b) => spec_bootloader_name(b),
        FsKind::Ntfs => seq!['N', 'T', 'F', 'S'],
        FsKind::ExFat => seq!['e', 'x', 'F', 'A', 'T'],
        FsKind::Xfs => seq!['X', 'F', 'S'],
        FsKind::Btrfs => seq!['B', 't', 'r', 'f', 's'],
        FsKind::Hfs => seq!['H', 'F', 'S'],
        FsKind::HfsPlus => seq!['H', 'F', 'S', '+'],
        FsKind::Apfs => seq!['A', 'P', 'F', 'S'],
        FsKind::Swap => seq!['s', 'w', 'a', 'p'],
        FsKind::Iso9660 => seq!['I', 'S', 'O', ' ', '9', '6', '6', '0'],
        FsKind::Udf => seq!['U', 'D', 'F'],
        FsKind::LinuxRaid => seq!['L', 'i', 'n', 'u', 'x', ' ', 'R', 'A', 'I', 'D'],
        FsKind::Lvm => seq!['L', 'V', 'M'],
        FsKind::Zfs => seq!['Z', 'F', 'S'],
        FsKind::Raw => seq!['r', 'a', 'w'],
        FsKind::Unknown => seq!['?'],
    }
}

impl FatVariant {
    /// The display name.
    pub fn to_string(&self) -> (s: String)
        ensures
            s@ == spec_fatvariant_name(*self),
    {
        match self {
            FatVariant::Fat12 => {
                proof {
                    reveal_strlit("FAT12");
                }
                String::from_str("FAT12")
            },
            FatVariant::Fat16 => {
                proof {
                    reveal_strlit("FAT16");
                }
                String::from_str("FAT16")
            },
            FatVariant::Fat32 => {
                proof {
                    reveal_strlit("FAT32");
                }
                String::from_str("FAT32")
            },
        }
    }
}

impl ExtVersion {
    /// The display name.
    pub fn to_string(&self) -> (s: String)
        ensures
            s@ == spec_extversion_name(*self),
    {
        match self {
            ExtVersion::Ext2 => {
                proof {
                    reveal_strlit("ext2");
                }
                String::from_str("ext2")
            },
            ExtVersion::Ext3 => {
                proof {
                    reveal_strlit("ext3");
                }
                String::from_str("ext3")
            },
            ExtVersion::Ext4 => {
                proof {
                    reveal_strlit("ext4");
                }
                String::from_str("ext4")
            },
        }
    }
}

impl BootLoader {
    /// The display name.
    pub fn to_string(&self) -> (s: String)
        ensures
            s@ == spec_bootloader_name(*self),
    {
        match self {
            BootLoader::Grub => {
                proof {
                    reveal_strlit("GRUB");
                }
                String::from_str("GRUB")
            },
            BootLoader::GrubLegacy => {
                proof {
                    reveal_strlit("GRUB Legacy");
                }
                String::from_str("GRUB Legacy")
            },
            BootLoader::Ntldr => {
                proof {
                    reveal_strlit("NTLDR");
                }
                String::from_str("NTLDR")
            },
            BootLoader::Syslinux => {
                proof {
                    reveal_strlit("syslinux");
                }
                String::from_str("syslinux")
            },
            BootLoader::Lilo => {
                proof {
                    reveal_strlit("LILO");
                }
                String::from_str("LILO")
            },
            BootLoader::BootMgr => {
                proof {
                    reveal_strlit("BOOTMGR");
                }
                String::from_str("BOOTMGR")
            },
            BootLoader::MbrBlank => {
                proof {
                    reveal_strlit("MBR (blank)");
                }
                String::from_str("MBR (blank)")
            },
        }
    }
}

impl FsKind {
    /// The display name: compact labels such as `NTFS`, `FAT32`, `ext4`, `GRUB`.
    pub fn to_string(&self) -> (s: String)
        ensures
            s@ == spec_fs_name(*self),
    {
        match self {
            FsKind::Fat { variant } => variant.to_string(),
            FsKind::Ext { version } => version.to_string(),
            FsKind::BootSector(b) => b.to_string(),
            FsKind::Ntfs => {
                proof {
                    reveal_strlit("NTFS");
                }
                String::from_str("NTFS")
            },
            FsKind::ExFat => {
                proof {
                    reveal_strlit("exFAT");
                }
                String::from_str("exFAT")
            },
            FsKind::Xfs => {
                proof {
                    reveal_strlit("XFS");
                }
                String::from_str("XFS")
            },
            FsKind::Btrfs => {
                proof {
                    reveal_strlit("Btrfs");
                }
                String::from_str("Btrfs")
            },
            FsKind::Hfs => {
                proof {
                    reveal_strlit("HFS");
                }
                String::from_str("HFS")
            },
            FsKind::HfsPlus => {
                proof {
                    reveal_strlit("HFS+");
                }
                String::from_str("HFS+")
            },
            FsKind::Apfs => {
                proof {
                    reveal_strlit("APFS");
                }
                String::from_str("APFS")
            },
            FsKind::Swap => {
                proof {
                    reveal_strlit("swap");
                }
                String::from_str("swap")
            },
            FsKind::Iso9660 => {
                proof {
                    reveal_strlit("ISO 9660");
                }
                String::from_str("ISO 9660")
            },
            FsKind::Udf => {
                proof {
                    reveal_strlit("UDF");
                }
                String::from_str("UDF")
            },
            FsKind::LinuxRaid => {
                proof {
                    reveal_strlit("Linux RAID");
                }
                String::from_str("Linux RAID")
            },
            FsKind::Lvm => {
                proof {
                    reveal_strlit("LVM");
                }
                String::from_str("LVM")
            },
            FsKind::Zfs => {
                proof {
                    reveal_strlit("ZFS");
                }
                String::from_str("ZFS")
            },
            FsKind::Raw => {
                proof {
                    reveal_strlit("raw");
                }
                String::from_str("raw")
            },
            FsKind::Unknown => {
                proof {
                    reveal_strlit("?");
                }
                String::from_str("?")
            },
        }
    }
}

/// `b[off..off + 8]` holds the label `FAT` `d1` `d2` and three spaces, as a
/// FAT boot sector names its variant (`FAT12   `, `FAT16   `, `FAT32   `).
pub open spec fn fat_label(b: Seq<u8>, off: int, d1: u8, d2: u8) -> bool {
    &&& 0 <= off
    &&& off + 8 <= b.len()
    &&& b[off] == 0x46 && b[off + 1] == 0x41 && b[off + 2] == 0x54
    &&& b[off + 3] == d1 && b[off + 4] == d2
    &&& b[off + 5] == 0x20 && b[off + 6] == 0x20 && b[off + 7] == 0x20
}

/// `b[start..start + pat.len()]` equals `pat` exactly when each byte does.
proof fn lemma_range_eq_bytes(b: Seq<u8>, start: int, pat: Seq<u8>)
    requires
        0 <= start,
        start + pat.len() <= b.len(),
    ensures
        range_eq(b, start, start + pat.len(), pat) <==> forall|k: int| 0 <= k < pat.len() ==> b[start + k] == #[trigger] pat[k],
{
    if forall|k: int| 0 <= k < pat.len() ==> b[start + k] == #[trigger] pat[k] {
        assert(b.subrange(start, start + pat.len()) =~= pat);
    }
    if range_eq(b, start, start + pat.len(), pat) {
        assert forall|k: int| 0 <= k < pat.len() implies b[start + k] == #[trigger] pat[k] by {
            assert(b.subrange(start, start + pat.len())[k] == b[start + k]);
        }
    }
}

/// A detected FAT variant is the one a label of the boot sector names:
/// FAT12 and FAT16 come from a `FAT12   ` or `FAT16   ` label at byte 54
/// or 82, FAT32 from a `FAT32   ` label at byte 82.
pub proof fn lemma_fat_variant_names_label(b: Seq<u8>)
    ensures
        spec_detect_fs(b) == (FsKind::Fat { variant: FatVariant::Fat12 })
            ==> fat_label(b, 54, 0x31, 0x32) || fat_label(b, 82, 0x31, 0x32),
        spec_detect_fs(b) == (FsKind::Fat { variant: FatVariant::Fat16 })
            ==> fat_label(b, 54, 0x31, 0x36) || fat_label(b, 82, 0x31, 0x36),
        spec_detect_fs(b) == (FsKind::Fat { variant: FatVariant::Fat32 }) ==> fat_label(b, 82, 0x33, 0x32),
{
    if b.len() >= 512 {
        lemma_range_eq_bytes(b, 54, sig_fat12());
        lemma_range_eq_bytes(b, 54, sig_fat16());
        lemma_range_eq_bytes(b, 82, sig_fat12());
        lemma_range_eq_bytes(b, 82, sig_fat16());
        lemma_range_eq_bytes(b, 82, sig_fat32());
        assert(sig_fat12()[0] == 0x46 && sig_fat12()[3] == 0x31 && sig_fat12()[4] == 0x32 && sig_fat12()[7] == 0x20);
        assert(sig_fat16()[0] == 0x46 && sig_fat16()[3] == 0x31 && sig_fat16()[4] == 0x36 && sig_fat16()[7] == 0x20);
        assert(sig_fat32()[0] == 0x46 && sig_fat32()[3] == 0x33 && sig_fat32()[4] == 0x32 && sig_fat32()[7] == 0x20);
    }
}

/// A 512-byte sector that holds nothing but a `FAT12   ` or `FAT16   `
/// label at byte 54 (and possibly the boot signature) is detected as the
/// variant its label names.
pub proof fn lemma_fat_label_detected(b: Seq<u8>, d2: u8)
    requires
        b.len() == 512,
        d2 == 0x32 || d2 == 0x36,
        fat_label(b, 54, 0x31, d2),
        forall|i: int| 0 <= i < 510 && !(54 <= i < 62) ==> b[i] == 0,
    ensures
        spec_detect_fs(b) == (FsKind::Fat { variant: if d2 == 0x32 { FatVariant::Fat12 } else { FatVariant::Fat16 } }),
{
    lemma_range_eq_bytes(b, 0, sig_ntfs());
    lemma_range_eq_bytes(b, 0, sig_exfat());
    lemma_range_eq_bytes(b, 0, sig_xfsb());
    lemma_range_eq_bytes(b, 0, sig_hplus());
    lemma_range_eq_bytes(b, 0, sig_hx());
    lemma_range_eq_bytes(b, 32, sig_nxsb());
    lemma_range_eq_bytes(b, 82, sig_fat32());
    lemma_range_eq_bytes(b, 54, sig_fat16());
    lemma_range_eq_bytes(b, 54, sig_fat12());
    assert(b[0] == 0 && b[32] == 0 && b[82] == 0);
    assert(sig_ntfs()[0] != 0 && sig_exfat()[0] != 0 && sig_xfsb()[0] != 0 && sig_hplus()[0] != 0 && sig_hx()[0] != 0);
    assert(sig_nxsb()[0] != 0 && sig_fat32()[0] != 0);
    assert(b[58] == d2);
    assert(sig_fat16()[4] == 0x36 && sig_fat12()[4] == 0x32);
}

} // verus!
