use std::io::Write;

use gho::error::Error;
use gho::ghost11::header::looks_like_at;
use gho::ghost11::record::{RECORD_TYPE_END, RECORD_TYPE_PARTITION, RECORD_TYPE_TRACK0};
use gho::ghost11::{
    decompress_block, extract, read_and_decompress_block, Compression, FileHeader, Record, RecordType,
    HEADER_SIZE, RECORD_HEADER_SIZE, RECORD_MAGIC,
};

fn build_record(type_code: u16, body_len: u16) -> [u8; RECORD_HEADER_SIZE] {
    let mut r = [0u8; RECORD_HEADER_SIZE];
    r[0..2].copy_from_slice(&type_code.to_le_bytes());
    r[4..8].copy_from_slice(&RECORD_MAGIC.to_le_bytes());
    r[8..10].copy_from_slice(&body_len.to_le_bytes());
    r
}

fn file_header(compression: u8) -> Vec<u8> {
    let mut buf = vec![0u8; HEADER_SIZE];
    buf[0] = 0xFE;
    buf[1] = 0xEF;
    buf[2] = 1;
    buf[3] = compression;
    buf
}

fn record(type_code: u16, body: &[u8]) -> Vec<u8> {
    let mut out = Vec::new();
    out.extend_from_slice(&type_code.to_le_bytes());
    out.extend_from_slice(&[0u8; 2]);
    out.extend_from_slice(&RECORD_MAGIC.to_le_bytes());
    out.extend_from_slice(&(body.len() as u16).to_le_bytes());
    out.extend_from_slice(body);
    out
}

fn block(payload: &[u8]) -> Vec<u8> {
    let stored_len = payload.len() as u16 + 2;
    let mut out = Vec::new();
    out.extend_from_slice(&stored_len.to_le_bytes());
    out.extend_from_slice(payload);
    out
}

fn build_stream_uncompressed(payloads: &[Vec<u8>]) -> Vec<u8> {
    let mut out = file_header(0);
    out.extend(record(RECORD_TYPE_TRACK0, &[0u8; 6]).iter());
    for p in payloads {
        out.extend(record(RECORD_TYPE_PARTITION, &[0u8; 20]).iter());
        out.extend(file_header(0).iter());
        out.extend(block(p).iter());
    }
    out.extend(record(RECORD_TYPE_END, &[0u8; 24]).iter());
    out
}

#[test]
fn header_parse_roundtrip() {
    let mut buf = [0u8; 512];
    buf[0] = 0xFE;
    buf[1] = 0xEF;
    buf[2] = 1;
    buf[3] = 2;
    buf[4..8].copy_from_slice(&0x1234_5678u32.to_le_bytes());
    let hdr = FileHeader::parse(&buf).unwrap();
    assert_eq!(hdr.file_type, 1);
    assert_eq!(hdr.compression, 2);
    assert_eq!(hdr.image_id, 0x1234_5678);
    assert!(!hdr.encrypted);
    assert!(hdr.is_first());
    assert!(!hdr.is_continuation());
    assert!(hdr.is_fastlz());
    assert!(!hdr.is_uncompressed());
}

#[test]
fn header_detects_encryption() {
    let mut buf = [0u8; 512];
    buf[0] = 0xFE;
    buf[1] = 0xEF;
    buf[12] = 0x02;
    let hdr = FileHeader::parse(&buf).unwrap();
    assert!(hdr.encrypted);
}

#[test]
fn header_rejects_bad_magic() {
    let buf = [0u8; 512];
    let err = FileHeader::parse(&buf).unwrap_err();
    assert!(matches!(err, Error::Format { .. }));
}

#[test]
fn header_rejects_truncated() {
    let err = FileHeader::parse(&[0xFE, 0xEF]).unwrap_err();
    assert!(matches!(err, Error::Truncated { .. }));
}

#[test]
fn looks_like_at_with_continuation() {
    let mut buf = vec![0u8; 1024];
    buf[0] = 0xFE;
    buf[1] = 0xEF;
    buf[2] = 9;
    assert!(looks_like_at(&buf, 0));
    assert!(!looks_like_at(&buf, 600));
}

#[test]
fn looks_like_at_rejects_short_buffer() {
    let buf = [0u8; 100];
    assert!(!looks_like_at(&buf, 0));
}

#[test]
fn compression_from_byte() {
    assert_eq!(Compression::from_byte(0).unwrap(), Compression::Uncompressed);
    assert_eq!(Compression::from_byte(2).unwrap(), Compression::FastLz);
    assert_eq!(Compression::from_byte(3).unwrap(), Compression::Zlib);
    assert_eq!(Compression::from_byte(9).unwrap(), Compression::Zlib);
    assert!(Compression::from_byte(11).is_err());
    assert!(Compression::from_byte(255).is_err());
}

#[test]
fn compression_byte_one_is_unsupported() {
    assert!(matches!(Compression::from_byte(1), Err(Error::UnsupportedCompression(1))));
}

#[test]
fn parse_track0() {
    let r = build_record(RECORD_TYPE_TRACK0, 6 + 512);
    let rec = Record::parse_at(&r, 0).unwrap();
    assert_eq!(rec.kind, RecordType::Track0);
    assert_eq!(rec.body_len, 518);
}

#[test]
fn parse_partition() {
    let r = build_record(RECORD_TYPE_PARTITION, 20);
    let rec = Record::parse_at(&r, 0).unwrap();
    assert_eq!(rec.kind, RecordType::Partition);
    assert_eq!(rec.body_len, 20);
}

#[test]
fn parse_end() {
    let r = build_record(RECORD_TYPE_END, 24);
    let rec = Record::parse_at(&r, 0).unwrap();
    assert_eq!(rec.kind, RecordType::End);
}

#[test]
fn rejects_unknown_type() {
    let r = build_record(0x9999, 0);
    assert!(Record::parse_at(&r, 0).is_none());
}

#[test]
fn record_parse_at_offset() {
    let mut buf = vec![0xAAu8; 7];
    buf.extend_from_slice(&build_record(RECORD_TYPE_PARTITION, 300));
    let rec = Record::parse_at(&buf, 7).unwrap();
    assert_eq!(rec.kind, RecordType::Partition);
    assert_eq!(rec.body_len, 300);
    assert!(Record::parse_at(&buf, 8).is_none());
}

#[test]
fn strict_parse_reports_bad_magic_as_format_error() {
    let mut r = build_record(RECORD_TYPE_TRACK0, 6);
    r[4] = 0xFF;
    assert!(matches!(Record::parse_strict(&r, 0), Err(Error::Format { .. })));
    assert!(matches!(Record::parse_strict(&[0u8; 3], 0), Err(Error::Format { offset: 0, .. })));
}

#[test]
fn decompress_block_none() {
    let got = decompress_block(b"hello", Compression::Uncompressed, 0).unwrap();
    assert_eq!(got, b"hello");
}

#[test]
fn decompress_block_fastlz_uses_uncompressed_escape() {
    let mut payload = vec![1u8, 5, 0, 0];
    payload.extend_from_slice(b"hello");
    let got = decompress_block(&payload, Compression::FastLz, 0).unwrap();
    assert_eq!(got, b"hello");
}

#[test]
fn decompress_block_zlib_roundtrip() {
    let raw = b"compressed payload repeated compressed payload repeated";
    let enc = {
        let mut z = flate2::write::ZlibEncoder::new(Vec::new(), flate2::Compression::default());
        z.write_all(raw).unwrap();
        z.finish().unwrap()
    };
    let got = decompress_block(&enc, Compression::Zlib, 0).unwrap();
    assert_eq!(got, raw);
}

#[test]
fn decompress_block_zlib_rejects_garbage() {
    let r = decompress_block(b"not zlib at all", Compression::Zlib, 0);
    assert!(r.is_err());
}

#[test]
fn block_payload_reads_two_byte_len() {
    let mut buf = Vec::new();
    buf.extend_from_slice(&7u16.to_le_bytes());
    buf.extend_from_slice(b"abcde");
    let (next, got) = read_and_decompress_block(&buf, 0, Compression::Uncompressed).unwrap();
    assert_eq!(got, b"abcde");
    assert_eq!(next, 7);
}

#[test]
fn empty_block_returns_empty_vec() {
    let buf = vec![0u8, 0];
    let (_, got) = read_and_decompress_block(&buf, 0, Compression::Uncompressed).unwrap();
    assert!(got.is_empty());
}

#[test]
fn record_type_from_u16() {
    assert_eq!(RecordType::from_u16(0x0006), Some(RecordType::Track0));
    assert_eq!(RecordType::from_u16(0x0603), Some(RecordType::Partition));
    assert_eq!(RecordType::from_u16(0x0703), Some(RecordType::Continuation));
    assert_eq!(RecordType::from_u16(0x0023), Some(RecordType::End));
    assert_eq!(RecordType::from_u16(0x9999), None);
}

#[test]
fn record_rejects_bad_magic() {
    let mut r = build_record(RECORD_TYPE_TRACK0, 6);
    r[4] = 0xFF;
    r[5] = 0xFF;
    assert!(Record::parse_at(&r, 0).is_none());
    let mut r = build_record(gho::ghostold::record::RECORD_TYPE_DIRENT, 56);
    r[4] = 0xFF;
    r[5] = 0xFF;
    assert!(gho::ghostold::Record::parse_at(&r, 0).is_none());
}

#[test]
fn record_rejects_truncated() {
    let r = [0u8; 5];
    assert!(Record::parse_at(&r, 0).is_none());
}

#[test]
fn extract_uncompressed_single_partition() {
    let payload = b"personal-history-payload".repeat(10);
    let stream = build_stream_uncompressed(std::slice::from_ref(&payload));
    let result = extract(&stream).unwrap();
    assert_eq!(result.partitions.len(), 1);
    assert_eq!(result.partitions[0].data, payload);
    assert_eq!(result.partitions[0].decompressed_bytes, payload.len() as u64);
    assert_eq!(result.partitions[0].compressed_bytes, payload.len() as u64 + 2);
    assert_eq!(result.partitions[0].index, 0);
}

#[test]
fn extract_uncompressed_multiple_partitions() {
    let p1 = b"first-partition".repeat(5);
    let p2 = b"second-partition".repeat(7);
    let stream = build_stream_uncompressed(&[p1.clone(), p2.clone()]);
    let result = extract(&stream).unwrap();
    assert_eq!(result.partitions.len(), 2);
    assert_eq!(result.partitions[0].data, p1);
    assert_eq!(result.partitions[1].data, p2);
    assert_eq!(result.partitions[1].index, 1);
}

#[test]
fn extract_rejects_encrypted() {
    let mut stream = file_header(0);
    stream[12] = 0x02;
    let err = extract(&stream).unwrap_err();
    assert!(matches!(err, Error::Encrypted));
}

#[test]
fn ghost11_extract_on_truncated_file_returns_error() {
    let mut hdr = vec![0u8; HEADER_SIZE];
    hdr[0] = 0xFE;
    hdr[1] = 0xEF;
    hdr[2] = 1;
    let result = extract(&hdr);
    assert!(result.is_ok());
    assert!(result.unwrap().partitions.is_empty());
}

#[test]
fn extract_rejects_truncated_file() {
    let err = extract(&[0xFE, 0xEF, 1]).unwrap_err();
    assert!(matches!(err, Error::Truncated { .. }));
}

#[test]
fn extract_rejects_unsupported_compression() {
    let stream = file_header(1);
    assert!(matches!(extract(&stream), Err(Error::UnsupportedCompression(1))));
}

#[test]
fn extract_with_mbr_partition_type() {
    let mut track0_body = vec![0u8; 6];
    let mut mbr = vec![0u8; 512];
    mbr[446 + 4] = 0x07;
    mbr[446 + 8..446 + 12].copy_from_slice(&63u32.to_le_bytes());
    mbr[446 + 12..446 + 16].copy_from_slice(&1000u32.to_le_bytes());
    mbr[510] = 0x55;
    mbr[511] = 0xAA;
    track0_body.extend_from_slice(&mbr);

    let mut stream = file_header(0);
    stream.extend(record(RECORD_TYPE_TRACK0, &track0_body).iter());
    stream.extend(record(RECORD_TYPE_PARTITION, &[0u8; 20]).iter());
    stream.extend(file_header(0).iter());
    stream.extend(block(b"payload").iter());
    stream.extend(record(RECORD_TYPE_END, &[0u8; 24]).iter());

    let result = extract(&stream).unwrap();
    assert_eq!(result.mbr_entries.len(), 1);
    assert_eq!(result.mbr_entries[0].part_type, 0x07);
    assert_eq!(result.partitions[0].mbr_type, Some(0x07));
    assert_eq!(result.partitions[0].data, b"payload");
}

#[test]
fn ghost11_extract_on_random_bytes_does_not_panic() {
    let mut state: u32 = 12345;
    let mut buf = vec![0u8; 4096];
    for b in buf.iter_mut() {
        state = state.wrapping_mul(1103515245).wrapping_add(12345);
        *b = (state >> 16) as u8;
    }
    buf[0] = 0xFE;
    buf[1] = 0xEF;
    buf[3] = 0;
    buf[12] = 0;
    let _ = extract(&buf);
}

#[test]
fn partition_summary_keeps_counts() {
    let payload = b"abc".repeat(4);
    let stream = build_stream_uncompressed(std::slice::from_ref(&payload));
    let result = extract(&stream).unwrap();
    let s = result.partitions[0].summary("out/partition_0.img".to_string());
    assert_eq!(s.output_path, "out/partition_0.img");
    assert_eq!(s.decompressed_bytes, 12);
    assert_eq!(s.compressed_bytes, 14);
    assert_eq!(s.index, 0);
}

#[test]
fn extract_reports_the_unsupported_compression_byte() {
    for b in [1u8, 10, 0xFF] {
        let mut stream = file_header(b);
        stream.extend(record(RECORD_TYPE_END, &[0u8; 24]).iter());
        assert!(matches!(extract(&stream), Err(Error::UnsupportedCompression(x)) if x == b));
    }
}

#[test]
fn extract_header_only_image_has_no_partitions() {
    let stream = file_header(0);
    let decoded = extract(&stream).unwrap();
    assert!(decoded.partitions.is_empty());
    assert!(decoded.mbr_entries.is_empty());
}

#[test]
fn extract_reports_error_positions() {
    let mut stream = file_header(0);
    stream.extend(build_record(RECORD_TYPE_TRACK0, 100).iter());
    stream.extend([0u8; 40].iter());
    assert!(matches!(extract(&stream), Err(Error::Truncated { offset: 512, expected: 100, actual: 40 })));

    let mut stream = file_header(0);
    stream.extend(block(b"orphan").iter());
    assert!(matches!(extract(&stream), Err(Error::Format { offset: 512, .. })));

    let mut stream = file_header(0);
    stream.extend(record(RECORD_TYPE_PARTITION, &[0u8; 20]).iter());
    stream.extend([50u8, 0, 1, 2, 3].iter());
    assert!(matches!(extract(&stream), Err(Error::Truncated { offset: 542, expected: 50, actual: 5 })));
}
