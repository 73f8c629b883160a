use gho::commands::escape_sample;
use gho::error::Error;
use gho::fastlz::{decompress, fastlz_hash, MAX_BLOCK_DECOMPRESSED};

/// Block captured from a known-good encode of `b"ABC" * 240` (93 bytes).
const KNOWN_FASTLZ_BLOCK: [u8; 93] = [
    0x00, 0x00, 0x00, 0x00, 0xf8, 0xff, 0x41, 0x42, 0x43, 0xdf, 0x9b, 0xdf, 0x9b, 0xdf, 0x9b,
    0xdf, 0x9b, 0xdf, 0x9b, 0xdf, 0x9b, 0xdf, 0x9b, 0xdf, 0x9b, 0xdf, 0x9b, 0xdf, 0x9b, 0xdf,
    0x9b, 0xdf, 0x9b, 0xdf, 0x9b, 0xff, 0xff, 0xdf, 0x9b, 0xdf, 0x9b, 0xdf, 0x9b, 0xdf, 0x9b,
    0xdf, 0x9b, 0xdf, 0x9b, 0xdf, 0x9b, 0xdf, 0x9b, 0xdf, 0x9b, 0xdf, 0x9b, 0xdf, 0x9b, 0xdf,
    0x9b, 0xdf, 0x9b, 0xdf, 0x9b, 0xdf, 0x9b, 0xdf, 0x9b, 0xff, 0x07, 0xdf, 0x9b, 0xdf, 0x9b,
    0xdf, 0x9b, 0xdf, 0x9b, 0xdf, 0x9b, 0xdf, 0x9b, 0xdf, 0x9b, 0xdf, 0x9b, 0xdf, 0x9b, 0xdf,
    0x9b, 0xdc, 0x9b,
];

fn expected_abc_240() -> Vec<u8> {
    let mut v = Vec::with_capacity(720);
    for _ in 0..240 {
        v.extend_from_slice(b"ABC");
    }
    v
}

#[test]
fn known_compressed_block_matches_trusted_encoder() {
    let got = decompress(&KNOWN_FASTLZ_BLOCK, KNOWN_FASTLZ_BLOCK.len()).unwrap();
    assert_eq!(got.len(), 720);
    assert_eq!(got, expected_abc_240());
}

#[test]
fn uncompressed_block_escape() {
    let mut block = vec![1u8, 11, 0, 0];
    block.extend_from_slice(b"hello world");
    let got = decompress(&block, block.len()).unwrap();
    assert_eq!(got, b"hello world");
}

#[test]
fn empty_block_raises() {
    let err = decompress(b"", 0).unwrap_err();
    assert!(matches!(err, Error::FastLz { .. }));
}

#[test]
fn truncated_block_raises() {
    let err = decompress(b"\x00", 5).unwrap_err();
    assert!(matches!(err, Error::FastLz { .. }));
}

#[test]
fn uncompressed_with_too_small_block_raises() {
    let err = decompress(b"\x01\x00", 2).unwrap_err();
    assert!(matches!(err, Error::FastLz { .. }));
}

#[test]
fn hash_function_matches_python_port() {
    assert_eq!(fastlz_hash(b'A' as u32, b'B' as u32, b'C' as u32), 3483);
    assert_eq!(fastlz_hash(b'0' as u32, b'1' as u32, b'2' as u32), 3929);
    assert_eq!(fastlz_hash(0, 0, 0), 0);
}

#[test]
fn hash_slot_stays_in_table() {
    for b0 in [0u32, 1, 0x7f, 0xff] {
        for b1 in [0u32, 0x41, 0xff] {
            for b2 in [0u32, 0x42, 0xff] {
                assert!(fastlz_hash(b0, b1, b2) < 4096);
            }
        }
    }
}

#[test]
fn escape_sample_round_trips_through_decompress() {
    let chunk: Vec<u8> = (0..1000u32).map(|i| (i * 7) as u8).collect();
    let sample = escape_sample(&chunk);
    assert_eq!(&sample[..4], &[1u8, 0xe8, 0x03, 0x00]);
    assert_eq!(decompress(&sample, sample.len()).unwrap(), chunk);
}

#[test]
fn escape_sample_at_the_cap_decompresses() {
    let chunk = vec![0x5au8; MAX_BLOCK_DECOMPRESSED];
    let sample = escape_sample(&chunk);
    assert_eq!(&sample[..4], &[1u8, 0x00, 0x00, 0x02]);
    assert_eq!(decompress(&sample, sample.len()).unwrap().len(), MAX_BLOCK_DECOMPRESSED);
}

#[test]
fn decompress_errors_carry_offset_zero() {
    for (data, len) in [(&b""[..], 0usize), (&b"\x00"[..], 10), (&b"\x01\x00"[..], 2), (&b"\x01\x00\x00"[..], 3)] {
        let err = decompress(data, len).unwrap_err();
        assert!(matches!(err, Error::FastLz { offset: 0, .. }));
    }
}
