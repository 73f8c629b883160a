use gho::commands::{compression_name, contains_text, entry_action, name_matches, output_name, EntryAction};
use gho::format::detect_format_bytes;
use gho::{Format, ImageReader};
use gho::ghostold::make_entry;
use gho::ghostold::Dirent;
use gho::mbr::{parse, MbrEntry};
use gho::safety::{contains_parent_traversal, fallback_name, sanitize_8_3, MAX_SANITIZED_NAME_LEN};
use gho::span::{concatenate_spans, looks_like_header};

#[test]
fn parse_rejects_missing_boot_signature() {
    let mbr = vec![0u8; 512];
    let entries = parse(&mbr).unwrap();
    assert!(entries.is_empty());
}

#[test]
fn parse_reads_single_ntfs_entry() {
    let mut mbr = vec![0u8; 512];
    mbr[446 + 4] = 0x07;
    mbr[446 + 8..446 + 12].copy_from_slice(&63u32.to_le_bytes());
    mbr[446 + 12..446 + 16].copy_from_slice(&1000u32.to_le_bytes());
    mbr[510] = 0x55;
    mbr[511] = 0xAA;
    let entries = parse(&mbr).unwrap();
    assert_eq!(entries.len(), 1);
    assert_eq!(entries[0], MbrEntry { part_type: 0x07, lba_start: 63, lba_size: 1000 });
}

#[test]
fn parse_skips_zero_type_entries() {
    let mut mbr = vec![0u8; 512];
    mbr[510] = 0x55;
    mbr[511] = 0xAA;
    let entries = parse(&mbr).unwrap();
    assert!(entries.is_empty());
}

#[test]
fn parse_keeps_entry_order() {
    let mut mbr = vec![0u8; 512];
    mbr[446 + 16 + 4] = 0x83;
    mbr[446 + 48 + 4] = 0x82;
    mbr[446 + 48 + 8..446 + 48 + 12].copy_from_slice(&2048u32.to_le_bytes());
    mbr[510] = 0x55;
    mbr[511] = 0xAA;
    let entries = parse(&mbr).unwrap();
    assert_eq!(entries.len(), 2);
    assert_eq!(entries[0].part_type, 0x83);
    assert_eq!(entries[1], MbrEntry { part_type: 0x82, lba_start: 2048, lba_size: 0 });
}

#[test]
fn sanitize_normal_name() {
    let name = *b"SETUP   ";
    let ext = *b"EXE";
    let s = sanitize_8_3(&name, &ext).unwrap();
    assert_eq!(s, "SETUP.EXE");
}

#[test]
fn sanitize_replaces_control_chars() {
    let name: [u8; 8] = [0x00, 0x01, 0x02, 0x03, b'A', b'B', b'C', 0x7F];
    let ext = *b"   ";
    let s = sanitize_8_3(&name, &ext).unwrap();
    assert!(s.chars().all(|c| c == '_' || c.is_ascii_alphanumeric()));
    assert_eq!(s, "____ABC_");
}

#[test]
fn sanitize_replaces_slashes() {
    let name: [u8; 8] = *b"/..\\abcd";
    let ext = *b"EXE";
    let s = sanitize_8_3(&name, &ext).unwrap();
    assert!(!s.contains('/'));
    assert!(!s.contains('\\'));
    assert!(!s.starts_with('.'));
    assert_eq!(s, "_.._abcd.EXE");
}

#[test]
fn sanitize_truncates_long_input() {
    let name: [u8; 8] = *b"ABCDEFGH";
    let ext: [u8; 3] = *b"XYZ";
    let s = sanitize_8_3(&name, &ext).unwrap();
    assert!(s.len() <= MAX_SANITIZED_NAME_LEN + 4);
    assert_eq!(s, "ABCDEFGH.XYZ");
}

#[test]
fn sanitize_empty_name_returns_none() {
    let name = [0u8; 8];
    let ext = *b"   ";
    assert!(sanitize_8_3(&name, &ext).is_none());
}

#[test]
fn sanitize_leading_dot_becomes_underscore() {
    let s = sanitize_8_3(b".HIDDEN ", b"   ").unwrap();
    assert_eq!(s, "_HIDDEN");
}

#[test]
fn fallback_name_is_stable() {
    let a = fallback_name(0x1234);
    let b = fallback_name(0x1234);
    assert_eq!(a, b);
    assert!(a.starts_with("file_"));
    assert!(a.ends_with(".bin"));
}

#[test]
fn fallback_name_pads_hex_offset() {
    assert_eq!(fallback_name(0x1234), "file_00001234.bin");
    assert_eq!(fallback_name(0x1_2345_6789), "file_123456789.bin");
}

#[test]
fn parent_traversal_detected() {
    assert!(contains_parent_traversal("../etc/passwd"));
    assert!(contains_parent_traversal("foo/../../bar"));
    assert!(!contains_parent_traversal("foo/bar.txt"));
    assert!(!contains_parent_traversal("/etc/passwd"));
    assert!(contains_parent_traversal("foo/.."));
    assert!(!contains_parent_traversal("foo..bar"));
}

#[test]
fn output_name_prefers_sanitized_name() {
    let mut buf = [0u8; 56];
    buf[0..8].copy_from_slice(b"README  ");
    buf[8..11].copy_from_slice(b"TXT");
    let d = Dirent::parse(&buf).unwrap();
    let e = make_entry(600, d, None);
    assert_eq!(output_name(&e), "README.TXT");
}

#[test]
fn output_name_falls_back_to_offset() {
    let d = Dirent::parse(&[0u8; 56]).unwrap();
    let e = make_entry(0xabc, d, None);
    assert_eq!(output_name(&e), "file_00000abc.bin");
}

#[test]
fn header_detection_accepts_magic_and_file_type() {
    let mut hdr = [0u8; 512];
    hdr[0] = 0xFE;
    hdr[1] = 0xEF;
    hdr[2] = 1;
    assert!(looks_like_header(&hdr));
    hdr[2] = 9;
    assert!(looks_like_header(&hdr));
    hdr[2] = 5;
    assert!(!looks_like_header(&hdr));
}

#[test]
fn concat_preserves_first_header_strips_continuation_headers() {
    let mut c1 = vec![0u8; 1024];
    c1[0] = 0xFE;
    c1[1] = 0xEF;
    c1[2] = 1;
    for byte in c1.iter_mut().take(1024).skip(512) {
        *byte = 0xAA;
    }
    let mut c2 = vec![0u8; 1024];
    c2[0] = 0xFE;
    c2[1] = 0xEF;
    c2[2] = 9;
    for byte in c2.iter_mut().take(1024).skip(512) {
        *byte = 0xBB;
    }
    let bytes = concatenate_spans(&vec![c1, c2]);
    assert_eq!(bytes.len(), 1536);
    assert_eq!(&bytes[0..3], &[0xFE, 0xEF, 1]);
    assert!(bytes[512..1024].iter().all(|&b| b == 0xAA));
    assert!(bytes[1024..1536].iter().all(|&b| b == 0xBB));
}

#[test]
fn concat_of_single_span_is_unchanged() {
    let c1: Vec<u8> = (0..700u32).map(|i| i as u8).collect();
    let bytes = concatenate_spans(&vec![c1.clone()]);
    assert_eq!(bytes, c1);
}

#[test]
fn name_pattern_ignores_case() {
    assert!(name_matches("readme.txt", "README"));
    assert!(name_matches("MESSAGES.TBB", "messages.tbb"));
    assert!(name_matches("A.TXT", ""));
    assert!(!name_matches("A.TXT", "B"));
    assert!(!name_matches("AB", "ABC"));
}

#[test]
fn text_search_finds_substrings() {
    assert!(contains_text("hello world", "o w"));
    assert!(contains_text("abc", "abc"));
    assert!(contains_text("", ""));
    assert!(!contains_text("abc", "abd"));
    assert!(!contains_text("ab", "abc"));
}

#[test]
fn compression_names() {
    assert_eq!(compression_name(0), "none");
    assert_eq!(compression_name(2), "fastlz");
    assert_eq!(compression_name(3), "zlib");
    assert_eq!(compression_name(9), "zlib");
    assert_eq!(compression_name(1), "unknown");
    assert_eq!(compression_name(10), "unknown");
}

#[test]
fn format_detection_by_first_record() {
    let mut img = vec![0u8; 512];
    img[0] = 0xFE;
    img[1] = 0xEF;
    img[2] = 1;
    img.extend_from_slice(&[0u8; 7]);
    let mut rec = vec![0u8; 10];
    rec[0..2].copy_from_slice(&0x0006u16.to_le_bytes());
    rec[4..8].copy_from_slice(&0x012F_18D8u32.to_le_bytes());
    img.extend_from_slice(&rec);
    assert_eq!(detect_format_bytes(&img).unwrap(), Format::Ghost11);
    let reader = ImageReader::open("x.gho", true).unwrap();
    assert_eq!(reader.path(), "x.gho");
    assert_eq!(reader.detect_format(&img).unwrap(), Format::Ghost11);
    img[519..521].copy_from_slice(&0x0104u16.to_le_bytes());
    assert_eq!(detect_format_bytes(&img).unwrap(), Format::GhostOld);
    img[519..521].copy_from_slice(&0x7777u16.to_le_bytes());
    assert!(matches!(detect_format_bytes(&img), Err(gho::Error::Format { .. })));
    assert!(matches!(ImageReader::open("missing.gho", false), Err(gho::Error::Io(_))));
    assert!(matches!(ImageReader::open_spanned(&[]), Err(gho::Error::Io(_))));
}

#[test]
fn entry_action_follows_pattern_traversal_and_clobber_rules() {
    assert_eq!(entry_action("A.TXT", Some("exe"), "out/A.TXT", false, false), EntryAction::SkipByPattern);
    assert_eq!(entry_action("A.EXE", Some("exe"), "out/A.EXE", false, false), EntryAction::Extract);
    assert_eq!(entry_action("A.EXE", None, "out/../A.EXE", false, false), EntryAction::Refuse);
    assert_eq!(entry_action("A.EXE", None, "out/A.EXE", true, true), EntryAction::SkipExisting);
    assert_eq!(entry_action("A.EXE", None, "out/A.EXE", false, true), EntryAction::Extract);
    assert_eq!(entry_action("A.EXE", None, "out/A.EXE", true, false), EntryAction::Extract);
}
