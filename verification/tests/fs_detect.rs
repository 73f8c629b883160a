use gho::tui::browse::fs_detect::{detect_fs, BootLoader, ExtVersion, FatVariant, FsKind};

fn empty_512() -> Vec<u8> {
    vec![0u8; 512]
}

#[test]
fn empty_returns_unknown() {
    assert_eq!(detect_fs(&empty_512()), FsKind::Unknown);
}

#[test]
fn short_input_returns_unknown() {
    assert_eq!(detect_fs(&[0u8; 100]), FsKind::Unknown);
}

#[test]
fn detects_ntfs() {
    let mut b = empty_512();
    b[0..4].copy_from_slice(b"NTFS");
    b[510] = 0x55;
    b[511] = 0xAA;
    assert_eq!(detect_fs(&b), FsKind::Ntfs);
}

#[test]
fn detects_exfat() {
    let mut b = empty_512();
    b[0..5].copy_from_slice(b"EXFAT");
    assert_eq!(detect_fs(&b), FsKind::ExFat);
}

#[test]
fn detects_fat32() {
    let mut b = empty_512();
    b[82..90].copy_from_slice(b"FAT32   ");
    b[510] = 0x55;
    b[511] = 0xAA;
    assert_eq!(detect_fs(&b), FsKind::Fat { variant: FatVariant::Fat32 });
}

#[test]
fn detects_fat16_at_54() {
    let mut b = empty_512();
    b[54..62].copy_from_slice(b"FAT16   ");
    b[510] = 0x55;
    b[511] = 0xAA;
    assert_eq!(detect_fs(&b), FsKind::Fat { variant: FatVariant::Fat16 });
}

#[test]
fn detects_ext4_via_incompat_extents_flag() {
    let mut b = vec![0u8; 2048];
    b[1080] = 0x53;
    b[1081] = 0xEF;
    b[96..100].copy_from_slice(&0x40u32.to_le_bytes());
    assert_eq!(detect_fs(&b), FsKind::Ext { version: ExtVersion::Ext4 });
}

#[test]
fn detects_ext2_when_no_journal_no_extents() {
    let mut b = vec![0u8; 2048];
    b[1080] = 0x53;
    b[1081] = 0xEF;
    assert_eq!(detect_fs(&b), FsKind::Ext { version: ExtVersion::Ext2 });
}

#[test]
fn detects_xfs() {
    let mut b = empty_512();
    b[0..4].copy_from_slice(b"XFSB");
    assert_eq!(detect_fs(&b), FsKind::Xfs);
}

#[test]
fn detects_btrfs() {
    let mut b = vec![0u8; 0x10050];
    b[0x10040..0x10048].copy_from_slice(b"_BHRfS_M");
    assert_eq!(detect_fs(&b), FsKind::Btrfs);
}

#[test]
fn detects_apfs() {
    let mut b = empty_512();
    b[32..36].copy_from_slice(b"NXSB");
    assert_eq!(detect_fs(&b), FsKind::Apfs);
}

#[test]
fn detects_swap() {
    let mut b = vec![0u8; 4096];
    b[4086..4096].copy_from_slice(b"SWAPSPACE2");
    assert_eq!(detect_fs(&b), FsKind::Swap);
}

#[test]
fn detects_iso9660() {
    let mut b = vec![0u8; 32773];
    b[32768..32773].copy_from_slice(b"CD001");
    assert_eq!(detect_fs(&b), FsKind::Iso9660);
}

#[test]
fn detects_mbr_blank() {
    let mut b = empty_512();
    b[510] = 0x55;
    b[511] = 0xAA;
    assert_eq!(detect_fs(&b), FsKind::BootSector(BootLoader::MbrBlank));
}

#[test]
fn display_format_is_compact() {
    assert_eq!(FsKind::Ntfs.to_string(), "NTFS");
    assert_eq!(FsKind::Fat { variant: FatVariant::Fat32 }.to_string(), "FAT32");
    assert_eq!(FsKind::Ext { version: ExtVersion::Ext4 }.to_string(), "ext4");
    assert_eq!(FsKind::BootSector(BootLoader::Grub).to_string(), "GRUB");
}
