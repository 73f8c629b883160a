use gho::error::Error;
use gho::ghostold::dirent::{Dirent, DIRENT_SIZE};
use gho::ghostold::record::{
    RECORD_MAGIC, RECORD_TYPE_BOOT_HMR, RECORD_TYPE_DATA_FULL, RECORD_TYPE_DATA_LAST, RECORD_TYPE_DATA_TRAILER,
    RECORD_TYPE_DIRENT, RECORD_TYPE_FIRST_DIRENT,
};
use gho::ghostold::{extract_file, walk_dirents, Record, RecordType, DATA_FULL_BLOCK_SIZE, HEADER_SIZE, RECORD_HEADER_SIZE};

fn build_record(type_code: u16, body_len: u16) -> [u8; RECORD_HEADER_SIZE] {
    let mut r = [0u8; RECORD_HEADER_SIZE];
    r[0..2].copy_from_slice(&type_code.to_le_bytes());
    r[4..8].copy_from_slice(&RECORD_MAGIC.to_le_bytes());
    r[8..10].copy_from_slice(&body_len.to_le_bytes());
    r
}

fn record(type_code: u16, body: &[u8]) -> Vec<u8> {
    let mut out = Vec::new();
    out.extend_from_slice(&type_code.to_le_bytes());
    out.extend_from_slice(&[0u8; 2]);
    out.extend_from_slice(&RECORD_MAGIC.to_le_bytes());
    out.extend_from_slice(&(body.len() as u16).to_le_bytes());
    out.extend_from_slice(body);
    out
}

fn file_header() -> Vec<u8> {
    let mut buf = vec![0u8; HEADER_SIZE];
    buf[0] = 0xFE;
    buf[1] = 0xEF;
    buf[2] = 1;
    buf[3] = 2;
    buf
}

fn dirent(name: &str, ext: &str, size: u32) -> Vec<u8> {
    let mut d = [0u8; DIRENT_SIZE];
    let n = name.as_bytes();
    let e = ext.as_bytes();
    d[..n.len()].copy_from_slice(n);
    d[8..8 + e.len()].copy_from_slice(e);
    if size > 0 {
        d[11] = 0x20;
    } else if !name.is_empty() {
        d[11] = 0x10;
    }
    d[28..32].copy_from_slice(&size.to_le_bytes());
    d.to_vec()
}

fn data_records(payload: &[u8]) -> Vec<u8> {
    let mut s = Vec::new();
    let full = payload.len() / DATA_FULL_BLOCK_SIZE;
    let last = payload.len() % DATA_FULL_BLOCK_SIZE;
    for i in 0..full {
        let chunk = &payload[i * DATA_FULL_BLOCK_SIZE..(i + 1) * DATA_FULL_BLOCK_SIZE];
        let mut blk = vec![1u8, 0, 0, 0];
        let n = chunk.len() as u32;
        blk[1] = (n & 0xFF) as u8;
        blk[2] = ((n >> 8) & 0xFF) as u8;
        blk[3] = ((n >> 16) & 0xFF) as u8;
        blk.extend_from_slice(chunk);
        s.extend(record(RECORD_TYPE_DATA_FULL, &blk).iter());
    }
    if last > 0 {
        let chunk = &payload[full * DATA_FULL_BLOCK_SIZE..];
        let mut blk = vec![1u8, 0, 0, 0];
        let n = chunk.len() as u32;
        blk[1] = (n & 0xFF) as u8;
        blk[2] = ((n >> 8) & 0xFF) as u8;
        blk[3] = ((n >> 16) & 0xFF) as u8;
        blk.extend_from_slice(chunk);
        s.extend(record(RECORD_TYPE_DATA_LAST, &blk).iter());
    }
    s.extend(record(RECORD_TYPE_DATA_TRAILER, &[0u8; 20]).iter());
    s
}

fn build_stream_one_file(name: &str, ext: &str, payload: &[u8]) -> Vec<u8> {
    let mut s = file_header();
    s.extend(record(RECORD_TYPE_FIRST_DIRENT, &dirent(name, ext, payload.len() as u32)).iter());
    s.extend(data_records(payload));
    s
}

#[test]
fn dirent_parse_ntfs_archive() {
    let mut buf = [0u8; 56];
    buf[0..8].copy_from_slice(b"SETUPEXE");
    buf[8..11].copy_from_slice(b"   ");
    buf[11] = 0x20;
    buf[28..32].copy_from_slice(&180_224u32.to_le_bytes());
    let d = Dirent::parse(&buf).unwrap();
    assert_eq!(d.name, *b"SETUPEXE");
    assert_eq!(d.ext, *b"   ");
    assert_eq!(d.size, 180_224);
    assert!(d.is_file());
    assert!(!d.is_directory());
    assert_eq!(d.display_name(), "SETUPEXE");
}

#[test]
fn dirent_parse_with_extension() {
    let mut buf = [0u8; 56];
    buf[0..8].copy_from_slice(b"GG      ");
    buf[8..11].copy_from_slice(b"EXE");
    buf[11] = 0x20;
    buf[28..32].copy_from_slice(&622_592u32.to_le_bytes());
    let d = Dirent::parse(&buf).unwrap();
    assert_eq!(d.display_name(), "GG.EXE");
    assert_eq!(d.size, 622_592);
}

#[test]
fn dirent_directory_attr() {
    let mut buf = [0u8; 56];
    buf[0..8].copy_from_slice(b"WINDOWS ");
    buf[11] = 0x10;
    let d = Dirent::parse(&buf).unwrap();
    assert!(d.is_directory());
    assert!(!d.is_file());
}

#[test]
fn dirent_vfat_long_attr() {
    let mut buf = [0u8; 56];
    buf[11] = 0x0F;
    let d = Dirent::parse(&buf).unwrap();
    assert!(d.is_vfat_long());
}

#[test]
fn dirent_cluster_combines_hi_lo() {
    let mut buf = [0u8; 56];
    buf[20..22].copy_from_slice(&0x1234u16.to_le_bytes());
    buf[26..28].copy_from_slice(&0x5678u16.to_le_bytes());
    let d = Dirent::parse(&buf).unwrap();
    assert_eq!(d.cluster, 0x1234_5678);
}

#[test]
fn dirent_invalid_utf8_name_renders_question_mark() {
    let mut buf = [0u8; 56];
    buf[0..8].copy_from_slice(&[0xFF, b'A', b' ', b' ', b' ', b' ', b' ', b' ']);
    buf[8..11].copy_from_slice(b"TXT");
    let d = Dirent::parse(&buf).unwrap();
    assert_eq!(d.display_name(), "?.TXT");
}

#[test]
fn parse_boot_hmr() {
    let r = build_record(RECORD_TYPE_BOOT_HMR, 6);
    let rec = Record::parse_at(&r, 0).unwrap();
    assert_eq!(rec.kind, RecordType::BootHmr);
    assert_eq!(rec.body_len, 6);
}

#[test]
fn parse_first_dirent() {
    let r = build_record(RECORD_TYPE_FIRST_DIRENT, 56);
    let rec = Record::parse_at(&r, 0).unwrap();
    assert_eq!(rec.kind, RecordType::FirstDirent);
}

#[test]
fn parse_dirent() {
    let r = build_record(RECORD_TYPE_DIRENT, 56);
    let rec = Record::parse_at(&r, 0).unwrap();
    assert_eq!(rec.kind, RecordType::Dirent);
}

#[test]
fn parse_data_full() {
    let r = build_record(RECORD_TYPE_DATA_FULL, 32 * 1024);
    let rec = Record::parse_at(&r, 0).unwrap();
    assert_eq!(rec.kind, RecordType::DataFull);
    assert_eq!(rec.body_len, 32 * 1024);
}

#[test]
fn parse_data_last() {
    let r = build_record(RECORD_TYPE_DATA_LAST, 1024);
    let rec = Record::parse_at(&r, 0).unwrap();
    assert_eq!(rec.kind, RecordType::DataLast);
}

#[test]
fn parse_data_trailer() {
    let r = build_record(RECORD_TYPE_DATA_TRAILER, 20);
    let rec = Record::parse_at(&r, 0).unwrap();
    assert_eq!(rec.kind, RecordType::DataTrailer);
}

#[test]
fn rejects_truncated() {
    let r = [0u8; 5];
    assert!(Record::parse_at(&r, 0).is_none());
}

#[test]
fn unknown_type_is_captured() {
    let r = build_record(0xABCD, 100);
    let rec = Record::parse_at(&r, 0).unwrap();
    assert_eq!(rec.kind, RecordType::Unknown(0xABCD));
}

#[test]
fn walk_one_file() {
    let payload = b"hello pre-11x";
    let stream = build_stream_one_file("HELLO   ", "TXT", payload);
    let entries = walk_dirents(&stream).unwrap();
    assert_eq!(entries.len(), 1);
    assert_eq!(entries[0].dirent.display_name(), "HELLO.TXT");
    assert_eq!(entries[0].dirent.size, payload.len() as u32);
    assert_eq!(entries[0].dirent_offset, HEADER_SIZE as u64);
    assert!(!entries[0].is_empty);
}

#[test]
fn walk_empty_dirents() {
    let stream = file_header();
    let entries = walk_dirents(&stream).unwrap();
    assert!(entries.is_empty());
}

#[test]
fn walk_rejects_short_header() {
    let err = walk_dirents(&[0u8; 100]).unwrap_err();
    assert!(matches!(err, Error::Truncated { .. }));
}

#[test]
fn extract_one_file_via_uncompressed_escape() {
    let payload = b"round-trip-payload".repeat(20);
    let stream = build_stream_one_file("ROUND   ", "TXT", &payload);
    let entries = walk_dirents(&stream).unwrap();
    let got = extract_file(&stream, &entries[0]).unwrap();
    assert_eq!(got, payload);
}

#[test]
fn extract_file_rejects_full_block_of_wrong_length() {
    // A full block must be stored in exactly 32 KiB; an escaped block of
    // 32 KiB of data takes four bytes more and is refused.
    let payload: Vec<u8> = (0..(DATA_FULL_BLOCK_SIZE * 2 + 100)).map(|i| (i % 251) as u8).collect();
    let stream = build_stream_one_file("BIG     ", "BIN", &payload);
    let entries = walk_dirents(&stream).unwrap();
    assert_eq!(entries[0].full_block_count, 2);
    assert_eq!(entries[0].last_block_decompressed_size, 100);
    let err = extract_file(&stream, &entries[0]).unwrap_err();
    assert!(matches!(err, Error::Format { .. }));
}

#[test]
fn walk_skips_embedded_file_header() {
    let mut stream = file_header();
    stream.extend(file_header().iter());
    stream.extend(record(RECORD_TYPE_FIRST_DIRENT, &dirent("A       ", "TXT", 0)).iter());
    let entries = walk_dirents(&stream).unwrap();
    assert_eq!(entries.len(), 1);
    assert_eq!(entries[0].dirent.display_name(), "A.TXT");
}

#[test]
fn walk_with_multiple_dirents() {
    let mut s = file_header();
    s.extend(record(RECORD_TYPE_FIRST_DIRENT, &dirent("A       ", "TXT", 0)).iter());
    s.extend(record(RECORD_TYPE_DIRENT, &dirent("B       ", "EXE", 0)).iter());
    s.extend(record(RECORD_TYPE_DIRENT, &dirent("C       ", "DAT", 0)).iter());
    let entries = walk_dirents(&s).unwrap();
    assert_eq!(entries.len(), 3);
    assert_eq!(entries[0].dirent.display_name(), "A.TXT");
    assert_eq!(entries[1].dirent.display_name(), "B.EXE");
    assert_eq!(entries[2].dirent.display_name(), "C.DAT");
    assert_eq!(entries[0].dirent_offset, 512);
    assert_eq!(entries[1].dirent_offset, 578);
    assert_eq!(entries[2].dirent_offset, 644);
}

#[test]
fn data_records_between_dirents_are_silently_skipped() {
    let mut s = file_header();
    s.extend(record(RECORD_TYPE_FIRST_DIRENT, &dirent("A       ", "TXT", 0)).iter());
    s.extend(record(RECORD_TYPE_DATA_FULL, &[0u8; 32]).iter());
    s.extend(record(RECORD_TYPE_DIRENT, &dirent("B       ", "TXT", 0)).iter());
    let entries = walk_dirents(&s).unwrap();
    assert_eq!(entries.len(), 2);
    assert_eq!(entries[0].dirent.display_name(), "A.TXT");
    assert_eq!(entries[1].dirent.display_name(), "B.TXT");
}

#[test]
fn unknown_record_type_is_skipped() {
    let mut s = file_header();
    s.extend(record(0xABCD, &[0u8; 10]).iter());
    s.extend(record(RECORD_TYPE_FIRST_DIRENT, &dirent("A       ", "TXT", 0)).iter());
    let entries = walk_dirents(&s).unwrap();
    assert_eq!(entries.len(), 1);
}

#[test]
fn extract_empty_dirent_gives_no_bytes() {
    let mut s = file_header();
    s.extend(record(RECORD_TYPE_FIRST_DIRENT, &dirent("EMPTY   ", "   ", 0)).iter());
    let entries = walk_dirents(&s).unwrap();
    let got = extract_file(&s, &entries[0]).unwrap();
    assert!(got.is_empty());
}

#[test]
fn walk_handles_data_records_between_dirents() {
    let payload = b"compressed-data".repeat(50);
    let mut s = file_header();
    s.extend(record(RECORD_TYPE_FIRST_DIRENT, &dirent("DATA    ", "BIN", payload.len() as u32)).iter());
    s.extend(data_records(&payload));
    s.extend(record(RECORD_TYPE_DIRENT, &dirent("NEXT    ", "TXT", 0)).iter());
    let entries = walk_dirents(&s).unwrap();
    assert_eq!(entries.len(), 2);
    assert_eq!(entries[0].dirent.display_name(), "DATA.BIN");
    assert_eq!(entries[1].dirent.display_name(), "NEXT.TXT");
    let got = extract_file(&s, &entries[0]).unwrap();
    assert_eq!(got, payload);
}

#[test]
fn ghostold_walk_on_random_bytes_does_not_panic() {
    let mut state: u32 = 22695477;
    let mut buf = vec![0u8; 8192];
    for b in buf.iter_mut() {
        state = state.wrapping_mul(22695477).wrapping_add(1);
        *b = (state >> 16) as u8;
    }
    let _ = walk_dirents(&buf);
}

#[test]
fn display_name_is_at_most_twelve_characters() {
    let mut buf = [0u8; 56];
    buf[0..8].copy_from_slice(b"SETUPEXE");
    buf[8..11].copy_from_slice(b"BIN");
    let d = Dirent::parse(&buf).unwrap();
    assert_eq!(d.display_name(), "SETUPEXE.BIN");
    assert_eq!(d.display_name().chars().count(), 12);
}

#[test]
fn walk_entry_count_is_bounded_by_image_size() {
    let mut s = file_header();
    for _ in 0..5 {
        s.extend(record(RECORD_TYPE_DIRENT, &dirent("A       ", "TXT", 0)).iter());
    }
    let entries = walk_dirents(&s).unwrap();
    assert_eq!(entries.len(), 5);
    assert!(entries.len() * 66 <= s.len());
}

#[test]
fn parse_rejects_empty_body() {
    let r = build_record(RECORD_TYPE_DIRENT, 0);
    assert!(Record::parse_at(&r, 0).is_none());
    let r = build_record(RECORD_TYPE_DIRENT, 1);
    assert_eq!(Record::parse_at(&r, 0).unwrap().body_len, 1);
}

#[test]
fn walk_skips_embedded_header_between_records() {
    let mut s = file_header();
    s.extend(record(RECORD_TYPE_FIRST_DIRENT, &dirent("A       ", "TXT", 0)).iter());
    s.extend(file_header().iter());
    s.extend(record(RECORD_TYPE_DIRENT, &dirent("B       ", "EXE", 0)).iter());
    let entries = walk_dirents(&s).unwrap();
    assert_eq!(entries.len(), 2);
    assert_eq!(entries[0].dirent.display_name(), "A.TXT");
    assert_eq!(entries[1].dirent.display_name(), "B.EXE");
    assert_eq!(entries[1].dirent_offset, 512 + 66 + 512);
}

#[test]
fn walk_rejects_truncated_embedded_header() {
    let mut s = file_header();
    s.extend(record(RECORD_TYPE_FIRST_DIRENT, &dirent("A       ", "TXT", 0)).iter());
    s.extend(file_header()[..20].iter());
    let err = walk_dirents(&s).unwrap_err();
    assert!(matches!(err, Error::Truncated { offset: 578, expected: HEADER_SIZE, actual: 20 }));
}

#[test]
fn walk_rejects_record_with_empty_body() {
    let mut s = file_header();
    s.extend(record(RECORD_TYPE_FIRST_DIRENT, &dirent("A       ", "TXT", 0)).iter());
    s.extend(build_record(RECORD_TYPE_DIRENT, 0).iter());
    s.extend([0u8; 16].iter());
    let err = walk_dirents(&s).unwrap_err();
    assert!(matches!(err, Error::Format { offset: 578, .. }));
}

#[test]
fn walk_stops_at_unrecognised_bytes() {
    let mut s = file_header();
    s.extend(record(RECORD_TYPE_FIRST_DIRENT, &dirent("A       ", "TXT", 0)).iter());
    s.extend([0u8; 40].iter());
    s.extend(record(RECORD_TYPE_DIRENT, &dirent("B       ", "EXE", 0)).iter());
    let entries = walk_dirents(&s).unwrap();
    assert_eq!(entries.len(), 1);
}

#[test]
fn extract_file_reports_record_errors_at_offset_zero() {
    let payload: Vec<u8> = (0..(DATA_FULL_BLOCK_SIZE * 2 + 100)).map(|i| (i % 251) as u8).collect();
    let stream = build_stream_one_file("BIG     ", "BIN", &payload);
    let entries = walk_dirents(&stream).unwrap();
    let err = extract_file(&stream, &entries[0]).unwrap_err();
    assert!(matches!(err, Error::Format { offset: 0, .. }));
    let small = b"tiny";
    let tiny = build_stream_one_file("TINY    ", "TXT", small);
    let entries = walk_dirents(&tiny).unwrap();
    let err = extract_file(&tiny[..tiny.len() - 5], &entries[0]).unwrap_err();
    assert!(matches!(err, Error::Truncated { offset: 0, .. }));
}

#[test]
fn extract_file_reports_size_mismatch_at_dirent_offset() {
    let payload = b"sized-payload";
    let stream = build_stream_one_file("SIZE    ", "TXT", payload);
    let mut entry = walk_dirents(&stream).unwrap()[0];
    entry.dirent.size += 1;
    let err = extract_file(&stream, &entry).unwrap_err();
    assert!(matches!(err, Error::Format { offset: 512, .. }));
}

#[test]
fn walk_reports_truncated_record_body_exactly() {
    let mut s = file_header();
    s.extend(record(RECORD_TYPE_FIRST_DIRENT, &dirent("A       ", "TXT", 0)).iter());
    s.extend(build_record(RECORD_TYPE_DIRENT, 56).iter());
    s.extend([0u8; 30].iter());
    let err = walk_dirents(&s).unwrap_err();
    assert!(matches!(err, Error::Truncated { offset: 588, expected: 56, actual: 30 }));
}
