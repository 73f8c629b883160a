use gho::error::Error;
use gho::fastlz;
use gho::fastlz::MAX_BLOCK_DECOMPRESSED;
use gho::ghost11::{FileHeader, HEADER_SIZE as GHOST11_HEADER_SIZE};
use gho::ghostold::dirent::Dirent;
use gho::safety::{contains_parent_traversal, sanitize_8_3};
use gho::span::looks_like_header;

#[test]
fn fastlz_uncompressed_block_rejects_oversized_length() {
    let declared = (MAX_BLOCK_DECOMPRESSED + 1) as u32;
    let mut payload = vec![1u8];
    payload.extend_from_slice(&declared.to_le_bytes()[..3]);
    payload.extend(std::iter::repeat_n(0xAAu8, declared as usize));
    let err = fastlz::decompress(&payload, payload.len()).unwrap_err();
    assert!(matches!(err, Error::FastLz { .. }));
}

#[test]
fn fastlz_compressed_block_bounded_by_output_cap() {
    let n_literals = MAX_BLOCK_DECOMPRESSED + 4096;
    let n_control_words = n_literals.div_ceil(16);
    let mut payload = vec![0x00, 0x00, 0x00, 0x00];
    for _ in 0..n_control_words {
        payload.extend_from_slice(&[0x00, 0x00]);
        payload.extend(std::iter::repeat_n(0x41u8, 16));
    }
    let err = fastlz::decompress(&payload, payload.len()).unwrap_err();
    assert!(matches!(err, Error::FastLz { .. }));
}

#[test]
fn fastlz_truncated_input_returns_error_not_panic() {
    assert!(fastlz::decompress(&[], 0).is_err());
    assert!(fastlz::decompress(&[0x00], 10).is_err());
    let ok = fastlz::decompress(&[0x00, 0x00, 0x00, 0x00], 4).unwrap();
    assert!(ok.is_empty());
}

#[test]
fn ghost11_header_rejects_oversized_compression_byte() {
    let mut buf = vec![0u8; GHOST11_HEADER_SIZE - 1];
    buf[0] = 0xFE;
    buf[1] = 0xEF;
    let err = FileHeader::parse(&buf).unwrap_err();
    assert!(matches!(err, Error::Truncated { .. }));
}

#[test]
fn ghost11_header_rejects_compression_out_of_range() {
    let mut buf = vec![0u8; GHOST11_HEADER_SIZE];
    buf[0] = 0xFE;
    buf[1] = 0xEF;
    buf[3] = 200;
    let hdr = FileHeader::parse(&buf).unwrap();
    assert_eq!(hdr.compression, 200);
}

#[test]
fn ghostold_dirent_parses_with_adversarial_bytes() {
    let buf = [0xFFu8; 56];
    let d = Dirent::parse(&buf).unwrap();
    assert_eq!(d.attrs, 0xFF);
    assert_eq!(d.size, 0xFFFF_FFFF);
    assert_eq!(d.cluster, 0xFFFF_FFFF);
    assert!(d.is_vfat_long());
}

#[test]
fn ghostold_dirent_rejects_truncated() {
    let err = Dirent::parse(&[0u8; 10]).unwrap_err();
    assert!(matches!(err, Error::Truncated { .. }));
}

#[test]
fn path_traversal_in_dirent_names_is_neutralised() {
    let mut buf = [0u8; 56];
    buf[0..8].copy_from_slice(b"../etc  ");
    buf[8..11].copy_from_slice(b"pas");
    buf[11] = 0x20;
    buf[28..32].copy_from_slice(&1u32.to_le_bytes());
    let d = Dirent::parse(&buf).unwrap();
    let safe = sanitize_8_3(&d.name, &d.ext).unwrap();
    assert!(!contains_parent_traversal(&safe));
    assert!(!safe.contains('/'));
    assert!(!safe.contains('\\'));
}

#[test]
fn path_traversal_with_absolute_prefix_is_neutralised() {
    let mut buf = [0u8; 56];
    buf[0..8].copy_from_slice(b"/etc/pas");
    buf[11] = 0x20;
    let d = Dirent::parse(&buf).unwrap();
    let safe = sanitize_8_3(&d.name, &d.ext).unwrap();
    assert!(!safe.starts_with('/'));
    assert!(!contains_parent_traversal(&safe));
}

#[test]
fn path_traversal_with_null_byte_is_neutralised() {
    let mut buf = [0u8; 56];
    buf[0..8].copy_from_slice(b"ABC\0\0\0\0\0");
    buf[11] = 0x20;
    let d = Dirent::parse(&buf).unwrap();
    let safe = sanitize_8_3(&d.name, &d.ext).unwrap();
    assert!(!safe.contains('\0'));
    assert!(!contains_parent_traversal(&safe));
}

#[test]
fn random_512_byte_buffers_parse_without_panic() {
    let mut buf = [0u8; 512];
    let mut state: u32 = 0xDEAD_BEEF;
    for chunk in buf.chunks_mut(4) {
        state ^= state << 13;
        state ^= state >> 17;
        state ^= state << 5;
        let bytes = state.to_le_bytes();
        let n = chunk.len().min(4);
        chunk[..n].copy_from_slice(&bytes[..n]);
    }
    let _ = FileHeader::parse(&buf);
}

#[test]
fn random_dirent_buffer_parses_without_panic() {
    let mut buf = [0u8; 56];
    for byte in buf.iter_mut() {
        *byte = byte.wrapping_add(0x9E);
    }
    let _ = Dirent::parse(&buf);
}

#[test]
fn fastlz_random_buffers_do_not_panic() {
    let cases: Vec<Vec<u8>> = vec![
        vec![],
        vec![0u8; 4],
        vec![0xFFu8; 100],
        vec![0xFE, 0xEF, 0x01, 0x02],
        (0..200).map(|i| (i * 17) as u8).collect(),
        (0..200).map(|i| (i ^ 0xAA) as u8).collect(),
    ];
    for case in cases {
        for len in 0..=case.len() {
            let _ = fastlz::decompress(&case, len);
        }
    }
}

#[test]
fn span_header_detection_rejects_garbage() {
    assert!(!looks_like_header(&[0u8; 512]));
    assert!(!looks_like_header(&[0xFFu8; 512]));
    assert!(!looks_like_header(&[0xFE, 0xEF, 5, 0, 0, 0, 0, 0]));
}

#[test]
fn span_header_detection_accepts_realistic_headers() {
    let mut hdr = [0u8; 512];
    hdr[0] = 0xFE;
    hdr[1] = 0xEF;
    hdr[2] = 1;
    assert!(looks_like_header(&hdr));
    hdr[2] = 9;
    assert!(looks_like_header(&hdr));
}
