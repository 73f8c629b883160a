//! Record-stream extraction of Ghost 11.x / 12.x images.
//!
//! [`extract`] walks the records of an image held in memory and
//! decodes every block into the payload of the partition it belongs to.

use vstd::prelude::*;

use crate::bytes::{copy_range, le16, le16_bytes, le32, lemma_le16_bytes, lemma_record_bytes_at, read_le16, record_bytes};
use crate::error::{error_class, fails_with, is_fault, Error, ErrorClass, Fault, Result};
use crate::fastlz::{self, spec_decompress, MAX_BLOCK_STORED};
use crate::mbr::{self, spec_mbr_entries, MbrEntry};
use super::family::{spec_compression, Compression, HEADER_SIZE, GHO_MAGIC};
use super::header::{self, spec_header, spec_looks_like_at, FileHeader};
use super::record::{
    spec_parse_at, Record, RecordType, RECORD_HEADER_SIZE, RECORD_MAGIC, RECORD_TYPE_END, RECORD_TYPE_PARTITION,
    RECORD_TYPE_TRACK0,
};

verus! {

/// What zlib (RFC 1950) decoding of `input` yields: the bytes of the first
/// zlib stream in it, or `None` when decoding fails.
pub uninterp spec fn zlib_inflate(input: Seq<u8>) -> Option<Seq<u8>>;

/// Decode the zlib stream at the start of `block` with
/// `flate2::read::ZlibDecoder`, reading until it reports the end.
///
/// Trusted: the result is what [`zlib_inflate`] names for the input; the
/// decoder itself is not verified here.
#[verifier::external_body]
fn zlib_decode(block: &[u8]) -> (r: core::result::Result<Vec<u8>, std::io::Error>)
    ensures
        r is Ok <==> zlib_inflate(block@) is Some,
        r matches Ok(v) ==> zlib_inflate(block@) == Some(v@),
{
    let mut out = Vec::new();
    let mut decoder = flate2::read::ZlibDecoder::new(block);
    std::io::Read::read_to_end(&mut decoder, &mut out)?;
    Ok(out)
}

/// The decoded payload of a block under `compression`, or `None` when the
/// block cannot be decoded.
pub open spec fn spec_decode_block(block: Seq<u8>, compression: Compression) -> Option<Seq<u8>> {
    match compression {
        Compression::Uncompressed => Some(block),
        Compression::FastLz => spec_decompress(block, block.len() as int),
        Compression::Zlib => zlib_inflate(block),
    }
}

/// The error class of a block that `compression` fails to decode.
pub open spec fn decode_error_class(compression: Compression) -> ErrorClass {
    match compression {
        Compression::Zlib => ErrorClass::Io,
        _ => ErrorClass::FastLz,
    }
}

/// Decompress a block payload according to the image's compression type.
/// FastLZ errors report `offset`.
pub fn decompress_block(block: &[u8], compression: Compression, offset: u64) -> (r: Result<Vec<u8>>)
    ensures
        match spec_decode_block(block@, compression) {
            Some(o) => r matches Ok(v) && v@ == o,
            None => fails_with(r, decode_error_class(compression)),
        },
        compression == Compression::FastLz && r is Err ==> (r matches Err(Error::FastLz { offset: o, .. }) && o == offset),
{
    match compression {
        Compression::Uncompressed => Ok(copy_range(block, 0, block.len())),
        Compression::FastLz => match fastlz::decompress(block, block.len()) {
            Ok(v) => Ok(v),
            Err(Error::FastLz { message, .. }) => Err(Error::FastLz { offset, message }),
            Err(e) => Err(e),
        },
        Compression::Zlib => match zlib_decode(block) {
            Ok(v) => Ok(v),
            Err(e) => Err(Error::Io(e)),
        },
    }
}

/// The block framed at `img[pos..]`: a 2-byte `stored_len`, then
/// `stored_len - 2` payload bytes. `Ok((consumed, payload))`, where a
/// `stored_len` of 0 is an empty block of two bytes. Errors are reported at
/// `pos`.
pub open spec fn spec_block(img: Seq<u8>, pos: int, compression: Compression) -> core::result::Result<(int, Seq<u8>), Fault> {
    if pos + 2 > img.len() {
        Err((ErrorClass::Truncated, pos, 2, if pos > img.len() { 0 } else { img.len() - pos }))
    } else {
        let stored = le16(img, pos) as int;
        if stored == 0 {
            Ok((2, Seq::empty()))
        } else if stored < 2 || stored - 2 > MAX_BLOCK_STORED {
            Err((ErrorClass::Format, pos, 0, 0))
        } else if pos + stored > img.len() {
            Err((ErrorClass::Truncated, pos, stored, img.len() - pos))
        } else {
            match spec_decode_block(img.subrange(pos + 2, pos + stored), compression) {
                Some(o) => Ok((stored, o)),
                None => Err((decode_error_class(compression), pos, 0, 0)),
            }
        }
    }
}

/// Read one block (2-byte `stored_len` + payload) at `buf[pos..]` and
/// decompress it; returns the bytes consumed and the decompressed payload.
pub fn read_and_decompress_block(buf: &[u8], pos: usize, compression: Compression) -> (r: Result<(usize, Vec<u8>)>)
    ensures
        match spec_block(buf@, pos as int, compression) {
            Ok((n, o)) => r matches Ok((m, v)) && m == n && v@ == o,
            Err(f) => r matches Err(e) && is_fault(e, f),
        },
{
    if pos > buf.len() || buf.len() - pos < 2 {
        let have = if pos > buf.len() { 0 } else { buf.len() - pos };
        return Err(Error::truncated(pos as u64, 2, have));
    }
    let stored_len = read_le16(buf, pos) as usize;
    if stored_len == 0 {
        return Ok((2, Vec::new()));
    }
    if stored_len < 2 {
        return Err(Error::format(pos as u64, "invalid block stored_len"));
    }
    let comp_len = stored_len - 2;
    if comp_len > MAX_BLOCK_STORED {
        return Err(Error::format(pos as u64, "block stored_len exceeds the maximum"));
    }
    if buf.len() - pos < stored_len {
        return Err(Error::truncated(pos as u64, stored_len, buf.len() - pos));
    }
    let block = copy_range(buf, pos + 2, pos + stored_len);
    let out = match decompress_block(block.as_slice(), compression, pos as u64) {
        Ok(v) => v,
        Err(e) => return Err(e),
    };
    Ok((stored_len, out))
}

/// A partition as the record stream describes it: its index, the MBR type
/// of the table entry with that index, the number of blocks read for it and
/// the concatenation of their decoded payloads.
pub struct PartSpec {
    pub index: int,
    pub mbr_type: Option<u8>,
    pub blocks: int,
    pub data: Seq<u8>,
}

/// A partition whose blocks are still being read.
pub struct OpenPart {
    pub index: int,
    pub blocks: int,
    pub data: Seq<u8>,
}

/// `parts` with the open partition `cur` (if any) appended, its MBR type
/// looked up in `mbr`; `None` when its byte counters do not fit a `u64`.
pub open spec fn close_part(parts: Seq<PartSpec>, cur: Option<OpenPart>, mbr: Seq<MbrEntry>) -> Option<Seq<PartSpec>> {
    match cur {
        None => Some(parts),
        Some(c) => if 2 * c.blocks + c.data.len() > u64::MAX {
            None
        } else {
            Some(parts.push(PartSpec {
                index: c.index,
                mbr_type: if 0 <= c.index < mbr.len() { Some(mbr[c.index].part_type) } else { None },
                blocks: c.blocks,
                data: c.data,
            }))
        },
    }
}

/// Position `p`, moved past an embedded file header if one starts there.
pub open spec fn skip_embedded_header(img: Seq<u8>, p: int) -> int {
    if spec_looks_like_at(img, p) {
        p + HEADER_SIZE
    } else {
        p
    }
}

/// The open partition described by the walker's variables.
pub open spec fn open_part(open: bool, index: usize, blocks: usize, data: Seq<u8>) -> Option<OpenPart> {
    if open {
        Some(OpenPart { index: index as int, blocks: blocks as int, data })
    } else {
        None
    }
}

/// A record-stream result with the header put in front.
pub open spec fn with_header(
    h: FileHeader,
    r: core::result::Result<(Seq<MbrEntry>, Seq<PartSpec>), Fault>,
) -> core::result::Result<(FileHeader, Seq<MbrEntry>, Seq<PartSpec>), Fault> {
    match r {
        Ok((m, p)) => Ok((h, m, p)),
        Err(e) => Err(e),
    }
}

/// The record stream of an 11.x image from `pos` on, given the MBR entries
/// seen so far, the finished partitions, the open partition and the index of
/// the next one. It ends at the end of the bytes (dropping an open
/// partition), or at an End record (closing it).
#[verifier::opaque]
pub open spec fn run_records(
    img: Seq<u8>,
    compression: Compression,
    pos: int,
    mbr: Seq<MbrEntry>,
    parts: Seq<PartSpec>,
    cur: Option<OpenPart>,
    next: int,
) -> core::result::Result<(Seq<MbrEntry>, Seq<PartSpec>), Fault>
    decreases img.len() - pos,
{
    if pos >= img.len() || pos < 0 {
        Ok((mbr, parts))
    } else {
        match spec_parse_at(img, pos) {
            Some(rec) => {
                let body_end = pos + RECORD_HEADER_SIZE + rec.body_len;
                if body_end > img.len() {
                    Err((ErrorClass::Truncated, pos, rec.body_len as int, img.len() - pos - RECORD_HEADER_SIZE))
                } else {
                    match rec.kind {
                        RecordType::Track0 => {
                            let mbr2 = if rec.body_len >= 518 {
                                spec_mbr_entries(img.subrange(pos + 16, pos + 528))
                            } else {
                                mbr
                            };
                            run_records(img, compression, body_end, mbr2, parts, cur, next)
                        },
                        RecordType::Partition => match close_part(parts, cur, mbr) {
                            None => Err((ErrorClass::Format, 0, 0, 0)),
                            Some(parts2) => run_records(
                                img,
                                compression,
                                skip_embedded_header(img, body_end),
                                mbr,
                                parts2,
                                Some(OpenPart { index: next, blocks: 0, data: Seq::empty() }),
                                next + 1,
                            ),
                        },
                        RecordType::Continuation => run_records(
                            img,
                            compression,
                            skip_embedded_header(img, body_end),
                            mbr,
                            parts,
                            cur,
                            next,
                        ),
                        RecordType::End => match close_part(parts, cur, mbr) {
                            None => Err((ErrorClass::Format, 0, 0, 0)),
                            Some(parts2) => Ok((mbr, parts2)),
                        },
                    }
                }
            },
            None => match cur {
                None => Err((ErrorClass::Format, pos, 0, 0)),
                Some(c) => match spec_block(img, pos, compression) {
                    Err(e) => Err(e),
                    Ok((n, o)) => run_records(
                        img,
                        compression,
                        pos + n,
                        mbr,
                        parts,
                        Some(OpenPart { index: c.index, blocks: c.blocks + 1, data: c.data + o }),
                        next,
                    ),
                },
            },
        }
    }
}

/// The partitions of `ps` are numbered 0, 1, 2, ... in order.
pub open spec fn numbered_in_order(ps: Seq<PartSpec>) -> bool {
    forall|i: int| 0 <= i < ps.len() ==> (#[trigger] ps[i]).index == i
}

/// The record walk numbers the partitions it finishes in stream order,
/// when the ones finished so far are, and the open one (if any) is next.
proof fn lemma_run_records_numbered(
    img: Seq<u8>,
    compression: Compression,
    pos: int,
    mbr: Seq<MbrEntry>,
    parts: Seq<PartSpec>,
    cur: Option<OpenPart>,
    next: int,
)
    requires
        numbered_in_order(parts),
        match cur {
            Some(o) => o.index == parts.len() && next == parts.len() + 1,
            None => next == parts.len(),
        },
    ensures
        run_records(img, compression, pos, mbr, parts, cur, next) matches Ok((_, ps)) ==> numbered_in_order(ps),
    decreases img.len() - pos,
{
    reveal(run_records);
    if pos >= img.len() || pos < 0 {
    } else {
        match spec_parse_at(img, pos) {
            Some(rec) => {
                let body_end = pos + RECORD_HEADER_SIZE + rec.body_len;
                if body_end <= img.len() {
                    match rec.kind {
                        RecordType::Track0 => {
                            let mbr2 = if rec.body_len >= 518 {
                                spec_mbr_entries(img.subrange(pos + 16, pos + 528))
                            } else {
                                mbr
                            };
                            lemma_run_records_numbered(img, compression, body_end, mbr2, parts, cur, next);
                        },
                        RecordType::Partition => {
                            if let Some(parts2) = close_part(parts, cur, mbr) {
                                assert(numbered_in_order(parts2));
                                lemma_run_records_numbered(
                                    img,
                                    compression,
                                    skip_embedded_header(img, body_end),
                                    mbr,
                                    parts2,
                                    Some(OpenPart { index: next, blocks: 0, data: Seq::empty() }),
                                    next + 1,
                                );
                            }
                        },
                        RecordType::Continuation => {
                            lemma_run_records_numbered(
                                img,
                                compression,
                                skip_embedded_header(img, body_end),
                                mbr,
                                parts,
                                cur,
                                next,
                            );
                        },
                        RecordType::End => {
                            if let Some(parts2) = close_part(parts, cur, mbr) {
                                assert(numbered_in_order(parts2));
                            }
                        },
                    }
                }
            },
            None => {
                if let Some(c) = cur {
                    if let Ok((n, o)) = spec_block(img, pos, compression) {
                        lemma_run_records_numbered(
                            img,
                            compression,
                            pos + n,
                            mbr,
                            parts,
                            Some(OpenPart { index: c.index, blocks: c.blocks + 1, data: c.data + o }),
                            next,
                        );
                    }
                }
            },
        }
    }
}

/// The partitions of an image come out numbered 0, 1, 2, ... in the order
/// of their Partition records (the files `partition_0.img`,
/// `partition_1.img`, ...).
pub proof fn lemma_extract_numbers_partitions(img: Seq<u8>)
    ensures
        spec_extract(img) matches Ok((_, _, ps)) ==> numbered_in_order(ps),
{
    if img.len() >= HEADER_SIZE && le16(img, 0) == GHO_MAGIC {
        let h = spec_header(img);
        if !h.encrypted {
            if let Some(c) = spec_compression(h.compression) {
                lemma_run_records_numbered(img, c, HEADER_SIZE as int, Seq::empty(), Seq::empty(), None, 0);
            }
        }
    }
}

/// From `pos` on, the image holds one partition per payload of `ps`, in
/// order: a Partition record, an embedded file header when one follows,
/// then a single block that is no record and decodes to the payload. An
/// End record follows the last one.
pub open spec fn single_block_partitions_at(img: Seq<u8>, c: Compression, pos: int, ps: Seq<Seq<u8>>) -> bool
    decreases ps.len(),
{
    match spec_parse_at(img, pos) {
        None => false,
        Some(rec) => {
            let body_end = pos + RECORD_HEADER_SIZE + rec.body_len;
            &&& body_end <= img.len()
            &&& if ps.len() == 0 {
                rec.kind == RecordType::End
            } else {
                let q = skip_embedded_header(img, body_end);
                &&& rec.kind == RecordType::Partition
                &&& q < img.len()
                &&& spec_parse_at(img, q) is None
                &&& match spec_block(img, q, c) {
                    Ok((n, o)) => o == ps[0] && single_block_partitions_at(img, c, q + n, ps.drop_first()),
                    Err(_) => false,
                }
            }
        },
    }
}

/// The partitions made of the payloads `ps`, numbered from `first`, one
/// block each, with the MBR types of `mbr`.
pub open spec fn single_block_parts(ps: Seq<Seq<u8>>, mbr: Seq<MbrEntry>, first: int) -> Seq<PartSpec> {
    Seq::new(ps.len(), |k: int| PartSpec {
        index: first + k,
        mbr_type: if 0 <= first + k < mbr.len() { Some(mbr[first + k].part_type) } else { None },
        blocks: 1,
        data: ps[k],
    })
}

/// The record walk over partitions of one block each closes the open
/// partition and yields one partition per payload, in order.
proof fn lemma_run_single_block_partitions(
    img: Seq<u8>,
    c: Compression,
    pos: int,
    mbr: Seq<MbrEntry>,
    parts: Seq<PartSpec>,
    cur: Option<OpenPart>,
    next: int,
    ps: Seq<Seq<u8>>,
)
    requires
        pos >= 0,
        single_block_partitions_at(img, c, pos, ps),
        close_part(parts, cur, mbr) is Some,
        forall|k: int| 0 <= k < ps.len() ==> (#[trigger] ps[k]).len() + 2 <= u64::MAX,
    ensures
        run_records(img, c, pos, mbr, parts, cur, next) == Ok::<(Seq<MbrEntry>, Seq<PartSpec>), Fault>(
            (mbr, close_part(parts, cur, mbr).unwrap() + single_block_parts(ps, mbr, next)),
        ),
    decreases ps.len(),
{
    reveal(run_records);
    let rec = spec_parse_at(img, pos).unwrap();
    let body_end = pos + RECORD_HEADER_SIZE + rec.body_len;
    let parts2 = close_part(parts, cur, mbr).unwrap();
    if ps.len() == 0 {
        assert(parts2 + single_block_parts(ps, mbr, next) =~= parts2);
    } else {
        let q = skip_embedded_header(img, body_end);
        let (n, o) = spec_block(img, q, c)->Ok_0;
        let opened = OpenPart { index: next, blocks: 0, data: Seq::empty() };
        let filled = OpenPart { index: next, blocks: 1, data: Seq::<u8>::empty() + o };
        assert(Seq::<u8>::empty() + o =~= ps[0]);
        assert(ps.drop_first().len() < ps.len());
        assert forall|k: int| 0 <= k < ps.drop_first().len() implies
            (#[trigger] ps.drop_first()[k]).len() + 2 <= u64::MAX by {
            assert(ps.drop_first()[k] == ps[k + 1]);
        }
        assert(ps[0].len() + 2 <= u64::MAX);
        assert(run_records(img, c, q, mbr, parts2, Some(opened), next + 1)
            == run_records(img, c, q + n, mbr, parts2, Some(filled), next + 1));
        lemma_run_single_block_partitions(img, c, q + n, mbr, parts2, Some(filled), next + 1, ps.drop_first());
        let parts3 = close_part(parts2, Some(filled), mbr).unwrap();
        assert(parts3 + single_block_parts(ps.drop_first(), mbr, next + 1)
            =~= parts2 + single_block_parts(ps, mbr, next));
    }
}

/// An image whose header is followed by a Track0 record without an MBR and
/// then by partitions of one block each (a Partition record, an embedded
/// file header when one follows, a block that is no record) and an End
/// record decodes to those partitions, numbered 0, 1, 2, ... in order, each
/// with its payload and no MBR type, and to no MBR entries.
pub proof fn lemma_extract_single_block_partitions(img: Seq<u8>, ps: Seq<Seq<u8>>)
    requires
        img.len() >= HEADER_SIZE,
        le16(img, 0) == GHO_MAGIC,
        !spec_header(img).encrypted,
        spec_compression(spec_header(img).compression) is Some,
        spec_parse_at(img, HEADER_SIZE as int) matches Some(t) && t.kind == RecordType::Track0 && t.body_len < 518
            && single_block_partitions_at(
                img,
                spec_compression(spec_header(img).compression)->0,
                HEADER_SIZE + RECORD_HEADER_SIZE + t.body_len,
                ps,
            ),
        forall|k: int| 0 <= k < ps.len() ==> (#[trigger] ps[k]).len() + 2 <= u64::MAX,
    ensures
        spec_extract(img) == Ok::<(FileHeader, Seq<MbrEntry>, Seq<PartSpec>), ErrorClass>(
            (spec_header(img), Seq::<MbrEntry>::empty(), single_block_parts(ps, Seq::empty(), 0)),
        ),
{
    reveal(run_records);
    let c = spec_compression(spec_header(img).compression)->0;
    let t = spec_parse_at(img, HEADER_SIZE as int).unwrap();
    let p = HEADER_SIZE + RECORD_HEADER_SIZE + t.body_len;
    lemma_run_single_block_partitions(img, c, p, Seq::empty(), Seq::empty(), None, 0, ps);
    assert(Seq::<PartSpec>::empty() + single_block_parts(ps, Seq::empty(), 0) =~= single_block_parts(ps, Seq::empty(), 0));
}

/// `n` zero bytes.
pub open spec fn zeros(n: nat) -> Seq<u8> {
    Seq::new(n, |i: int| 0u8)
}

/// The bytes of a stored block holding `p`: its stored length
/// (`p.len() + 2`) and then `p`.
pub open spec fn block_bytes(p: Seq<u8>) -> Seq<u8> {
    le16_bytes((p.len() + 2) as u16) + p
}

/// The bytes of partitions of one block each: for each payload, a
/// Partition record with a 20-byte zero body, the file header `hdr` and
/// the payload's block; then an End record with a 24-byte zero body.
pub open spec fn single_block_stream(hdr: Seq<u8>, ps: Seq<Seq<u8>>) -> Seq<u8>
    decreases ps.len(),
{
    if ps.len() == 0 {
        record_bytes(RECORD_TYPE_END, zeros(24))
    } else {
        record_bytes(RECORD_TYPE_PARTITION, zeros(20)) + hdr + block_bytes(ps[0]) + single_block_stream(hdr, ps.drop_first())
    }
}

/// A 512-byte file header: the image magic and a file type of 1 or 9.
pub open spec fn is_file_header(hdr: Seq<u8>) -> bool {
    &&& hdr.len() == HEADER_SIZE
    &&& le16(hdr, 0) == GHO_MAGIC
    &&& (hdr[2] == 1 || hdr[2] == 9)
}

/// A payload that can stand alone in a stored block: at least six bytes,
/// at most the largest block, and no record magic at its bytes 2..6.
pub open spec fn plain_payload(p: Seq<u8>) -> bool {
    &&& 6 <= p.len() <= MAX_BLOCK_STORED
    &&& le32(p, 2) != RECORD_MAGIC
}

/// The records and blocks of `single_block_stream` at `pos` are the
/// structure `single_block_partitions_at` describes.
proof fn lemma_single_block_stream(img: Seq<u8>, pos: int, hdr: Seq<u8>, ps: Seq<Seq<u8>>)
    requires
        0 <= pos,
        pos + single_block_stream(hdr, ps).len() <= img.len(),
        img.subrange(pos, pos + single_block_stream(hdr, ps).len()) == single_block_stream(hdr, ps),
        is_file_header(hdr),
        forall|k: int| 0 <= k < ps.len() ==> plain_payload(#[trigger] ps[k]),
    ensures
        single_block_partitions_at(img, Compression::Uncompressed, pos, ps),
    decreases ps.len(),
{
    let st = single_block_stream(hdr, ps);
    assert forall|k: int| 0 <= k < st.len() implies img[pos + k] == st[k] by {
        assert(img.subrange(pos, pos + st.len())[k] == img[pos + k]);
    }
    if ps.len() == 0 {
        let r = record_bytes(RECORD_TYPE_END, zeros(24));
        assert(img.subrange(pos, pos + 34) =~= r);
        lemma_record_bytes_at(img, pos, RECORD_TYPE_END, zeros(24));
    } else {
        let r = record_bytes(RECORD_TYPE_PARTITION, zeros(20));
        let p = ps[0];
        let b = block_bytes(p);
        let rest = single_block_stream(hdr, ps.drop_first());
        assert(st == r + hdr + b + rest);
        assert(r.len() == 30);
        assert(img.subrange(pos, pos + 30) =~= r) by {
            assert forall|k: int| 0 <= k < 30 implies img.subrange(pos, pos + 30)[k] == r[k] by {
                assert(st[k] == r[k]);
            }
        }
        lemma_record_bytes_at(img, pos, RECORD_TYPE_PARTITION, zeros(20));
        let h = pos + 30;
        assert forall|k: int| 0 <= k < 512 implies img[h + k] == hdr[k] by {
            assert(st[30 + k] == hdr[k]);
        }
        assert(img[h] == hdr[0] && img[h + 1] == hdr[1] && img[h + 2] == hdr[2]);
        assert(spec_looks_like_at(img, h));
        let q = h + 512;
        assert(skip_embedded_header(img, pos + 30) == q);
        assert forall|k: int| 0 <= k < b.len() implies img[q + k] == b[k] by {
            assert(st[542 + k] == b[k]);
        }
        assert(img[q] == le16_bytes((p.len() + 2) as u16)[0] && img[q + 1] == le16_bytes((p.len() + 2) as u16)[1]) by {
            assert(b[0] == le16_bytes((p.len() + 2) as u16)[0]);
            assert(b[1] == le16_bytes((p.len() + 2) as u16)[1]);
        }
        lemma_le16_bytes(img, q, (p.len() + 2) as u16);
        assert(plain_payload(p));
        assert(img[q + 4] == p[2] && img[q + 5] == p[3] && img[q + 6] == p[4] && img[q + 7] == p[5]) by {
            assert(b[4] == p[2] && b[5] == p[3] && b[6] == p[4] && b[7] == p[5]);
        }
        assert(le32(img, q + 4) == le32(p, 2));
        assert(spec_parse_at(img, q) is None);
        assert(img.subrange(q + 2, q + 2 + p.len()) =~= p) by {
            assert forall|k: int| 0 <= k < p.len() implies img.subrange(q + 2, q + 2 + p.len())[k] == p[k] by {
                assert(img[q + 2 + k] == b[2 + k]);
            }
        }
        assert(spec_block(img, q, Compression::Uncompressed) == Ok::<(int, Seq<u8>), Fault>((p.len() + 2 as int, p)));
        let next = q + p.len() + 2;
        assert(img.subrange(next, next + rest.len()) =~= rest) by {
            assert forall|k: int| 0 <= k < rest.len() implies img.subrange(next, next + rest.len())[k] == rest[k] by {
                assert(st[542 + b.len() + k] == rest[k]);
            }
        }
        assert forall|k: int| 0 <= k < ps.drop_first().len() implies plain_payload(#[trigger] ps.drop_first()[k]) by {
            assert(ps.drop_first()[k] == ps[k + 1]);
        }
        lemma_single_block_stream(img, next, hdr, ps.drop_first());
    }
}

/// The same law over the bytes of an uncompressed, unencrypted image: its
/// header `hdr`, a Track0 record with a 6-byte zero body, then for each
/// payload a Partition record, `hdr` again and the payload's block, then an
/// End record. It decodes to one partition per payload, numbered 0, 1, 2,
/// ... in order, each with its payload and no MBR type, and to no MBR
/// entries.
pub proof fn lemma_extract_single_block_partitions_bytes(img: Seq<u8>, hdr: Seq<u8>, ps: Seq<Seq<u8>>)
    requires
        is_file_header(hdr),
        hdr[3] == 0,
        hdr[12] & 0x02u8 == 0,
        img == hdr + record_bytes(RECORD_TYPE_TRACK0, zeros(6)) + single_block_stream(hdr, ps),
        forall|k: int| 0 <= k < ps.len() ==> plain_payload(#[trigger] ps[k]),
    ensures
        spec_extract(img) == Ok::<(FileHeader, Seq<MbrEntry>, Seq<PartSpec>), ErrorClass>(
            (spec_header(img), Seq::<MbrEntry>::empty(), single_block_parts(ps, Seq::empty(), 0)),
        ),
{
    let t = record_bytes(RECORD_TYPE_TRACK0, zeros(6));
    let st = single_block_stream(hdr, ps);
    assert(img[0] == hdr[0] && img[1] == hdr[1] && img[3] == hdr[3] && img[12] == hdr[12]);
    assert(le16(img, 0) == le16(hdr, 0));
    assert(img.subrange(512, 528) =~= t);
    lemma_record_bytes_at(img, 512, RECORD_TYPE_TRACK0, zeros(6));
    assert(img.subrange(528, 528 + st.len() as int) =~= st);
    lemma_single_block_stream(img, 528, hdr, ps);
    assert forall|k: int| 0 <= k < ps.len() implies (#[trigger] ps[k]).len() + 2 <= u64::MAX by {
        assert(plain_payload(ps[k]));
    }
    lemma_extract_single_block_partitions(img, ps);
}

/// What an 11.x image holds: its header, the MBR entries of its Track0
/// record and its partitions; or the class of the error that stops the walk.
pub open spec fn spec_extract_fault(img: Seq<u8>) -> core::result::Result<(FileHeader, Seq<MbrEntry>, Seq<PartSpec>), Fault> {
    if img.len() < HEADER_SIZE {
        Err((ErrorClass::Truncated, 0, HEADER_SIZE as int, img.len() as int))
    } else if le16(img, 0) != GHO_MAGIC {
        Err((ErrorClass::Format, 0, 0, 0))
    } else {
        let h = spec_header(img);
        if h.encrypted {
            Err((ErrorClass::Encrypted, 0, 0, 0))
        } else {
            match spec_compression(h.compression) {
                None => Err((ErrorClass::UnsupportedCompression, 0, 0, 0)),
                Some(c) => with_header(h, run_records(img, c, HEADER_SIZE as int, Seq::empty(), Seq::empty(), None, 0)),
            }
        }
    }
}

/// What an 11.x image holds, or the class of the error that stops the walk.
pub open spec fn spec_extract(img: Seq<u8>) -> core::result::Result<(FileHeader, Seq<MbrEntry>, Seq<PartSpec>), ErrorClass> {
    match spec_extract_fault(img) {
        Ok(x) => Ok(x),
        Err(f) => Err(f.0),
    }
}

/// One partition decoded from an image, with its payload.
#[derive(Debug, Clone)]
pub struct PartitionPayload {
    pub index: usize,
    pub mbr_type: Option<u8>,
    /// Two bytes of framing per block plus the decoded bytes.
    pub compressed_bytes: u64,
    pub decompressed_bytes: u64,
    pub data: Vec<u8>,
}

/// An 11.x image decoded in memory.
#[derive(Debug, Clone)]
pub struct ExtractedImage {
    pub header: FileHeader,
    pub mbr_entries: Vec<MbrEntry>,
    pub partitions: Vec<PartitionPayload>,
}

/// `p` carries exactly the partition `s`.
pub open spec fn payload_matches(p: PartitionPayload, s: PartSpec) -> bool {
    &&& p.index == s.index
    &&& p.mbr_type == s.mbr_type
    &&& p.data@ == s.data
    &&& p.decompressed_bytes == s.data.len()
    &&& p.compressed_bytes == 2 * s.blocks + s.data.len()
}

/// The payloads `ps` carry exactly the partitions `ss`, in order.
pub open spec fn payloads_match(ps: Seq<PartitionPayload>, ss: Seq<PartSpec>) -> bool {
    &&& ps.len() == ss.len()
    &&& forall|i: int| 0 <= i < ps.len() ==> payload_matches(#[trigger] ps[i], ss[i])
}

/// Append the open partition (if `open`) to `partitions`.
fn close_partition(
    partitions: &mut Vec<PartitionPayload>,
    Ghost(parts_spec): Ghost<Seq<PartSpec>>,
    open: bool,
    index: usize,
    blocks: usize,
    data: Vec<u8>,
    mbr_entries: &Vec<MbrEntry>,
) -> (r: Result<()>)
    requires
        payloads_match(old(partitions)@, parts_spec),
    ensures
        match close_part(
            parts_spec,
            if open { Some(OpenPart { index: index as int, blocks: blocks as int, data: data@ }) } else { None },
            mbr_entries@,
        ) {
            Some(p2) => r is Ok && payloads_match(final(partitions)@, p2),
            None => r matches Err(e) && is_fault(e, (ErrorClass::Format, 0, 0, 0)),
        },
{
    if !open {
        return Ok(());
    }
    let framing = match (blocks as u64).checked_mul(2) {
        Some(f) => f,
        None => return Err(Error::format(0, "block counter overflow")),
    };
    let decompressed = data.len() as u64;
    let compressed = match framing.checked_add(decompressed) {
        Some(c) => c,
        None => return Err(Error::format(0, "byte counter overflow")),
    };
    let mbr_type = if index < mbr_entries.len() { Some(mbr_entries[index].part_type) } else { None };
    let ghost before = partitions@;
    partitions.push(
        PartitionPayload { index, mbr_type, compressed_bytes: compressed, decompressed_bytes: decompressed, data },
    );
    proof {
        let p2 = close_part(
            parts_spec,
            Some(OpenPart { index: index as int, blocks: blocks as int, data: data@ }),
            mbr_entries@,
        ).unwrap();
        assert forall|i: int| 0 <= i < partitions@.len() implies payload_matches(#[trigger] partitions@[i], p2[i]) by {
            if i < before.len() {
                assert(partitions@[i] == before[i]);
            }
        }
    }
    Ok(())
}

/// Decode every partition of an 11.x image held in memory.
///
/// The walk starts after the 512-byte file header and reads records and
/// blocks until an End record or the end of the bytes. A Track0 record with
/// a 512-byte MBR sets the partition table; each Partition record (and any
/// embedded file header after it) opens the next partition; the blocks that
/// follow are decoded into it; a Continuation record (and any embedded file
/// header after it) is skipped.
#[verifier::rlimit(40)]
pub fn extract(image: &[u8]) -> (r: Result<ExtractedImage>)
    ensures
        match spec_extract(image@) {
            Ok((h, m, p)) => r matches Ok(x) && x.header == h && x.mbr_entries@ == m && payloads_match(x.partitions@, p),
            Err(c) => fails_with(r, c),
        },
        spec_extract_fault(image@) matches Err(f) ==> (r matches Err(e) && is_fault(e, f)),
        r matches Ok(x) ==> forall|i: int| 0 <= i < x.partitions@.len() ==> (#[trigger] x.partitions@[i]).index == i,
        image@.len() < HEADER_SIZE ==> r == Err::<ExtractedImage, Error>(
            Error::Truncated { offset: 0, expected: HEADER_SIZE, actual: image@.len() as usize },
        ),
        image@.len() >= HEADER_SIZE && le16(image@, 0) != GHO_MAGIC ==> r matches Err(Error::Format { offset: 0, .. }),
        image@.len() >= HEADER_SIZE && le16(image@, 0) == GHO_MAGIC && image@[12] & 0x02u8 != 0
            ==> r == Err::<ExtractedImage, Error>(Error::Encrypted),
        image@.len() >= HEADER_SIZE && le16(image@, 0) == GHO_MAGIC && image@[12] & 0x02u8 == 0
            && spec_compression(image@[3]) is None
            ==> r == Err::<ExtractedImage, Error>(Error::UnsupportedCompression(image@[3])),
{
    proof {
        lemma_extract_numbers_partitions(image@);
    }
    let header = match FileHeader::parse(image) {
        Ok(h) => h,
        Err(e) => return Err(e),
    };
    if header.encrypted {
        return Err(Error::Encrypted);
    }
    let compression = match Compression::from_byte(header.compression) {
        Ok(c) => c,
        Err(e) => return Err(e),
    };
    let mut mbr_entries: Vec<MbrEntry> = Vec::new();
    let mut partitions: Vec<PartitionPayload> = Vec::new();
    let ghost mut parts_spec: Seq<PartSpec> = Seq::empty();
    let mut open = false;
    let mut cur_index: usize = 0;
    let mut cur_blocks: usize = 0;
    let mut cur_data: Vec<u8> = Vec::new();
    let mut next: usize = 0;
    let mut pos: usize = HEADER_SIZE;
    let ghost whole = spec_extract_fault(image@);
    loop
        invariant_except_break
            whole == with_header(header, run_records(
                image@,
                compression,
                pos as int,
                mbr_entries@,
                parts_spec,
                open_part(open, cur_index, cur_blocks, cur_data@),
                next as int,
            )),
        invariant
            HEADER_SIZE <= pos <= image@.len(),
            image@.len() >= HEADER_SIZE,
            le16(image@, 0) == GHO_MAGIC,
            header == spec_header(image@),
            !header.encrypted,
            spec_compression(header.compression) == Some(compression),
            payloads_match(partitions@, parts_spec),
            2 * cur_blocks <= pos,
            next <= pos,
            open ==> cur_index < next,
            whole == spec_extract_fault(image@),
        ensures
            whole == Ok::<(FileHeader, Seq<MbrEntry>, Seq<PartSpec>), Fault>((header, mbr_entries@, parts_spec)),
            payloads_match(partitions@, parts_spec),
        decreases image@.len() - pos,
    {
        if pos >= image.len() {
            assert(run_records(image@, compression, pos as int, mbr_entries@, parts_spec,
                open_part(open, cur_index, cur_blocks, cur_data@), next as int)
                == Ok::<(Seq<MbrEntry>, Seq<PartSpec>), Fault>((mbr_entries@, parts_spec))) by {
                reveal(run_records);
            }
            break;
        }
        let ghost cur_spec = open_part(open, cur_index, cur_blocks, cur_data@);
        let ghost step = run_records(image@, compression, pos as int, mbr_entries@, parts_spec, cur_spec, next as int);
        assert(step == run_records(image@, compression, pos as int, mbr_entries@, parts_spec, cur_spec, next as int));
        match Record::parse_at(image, pos) {
            Some(rec) => {
                let body_len = rec.body_len as usize;
                if image.len() - pos - RECORD_HEADER_SIZE < body_len {
                    assert(step == Err::<(Seq<MbrEntry>, Seq<PartSpec>), Fault>(
                        (ErrorClass::Truncated, pos as int, body_len as int, image.len() - pos - RECORD_HEADER_SIZE),
                    )) by {
                        reveal(run_records);
                    }
                    return Err(Error::truncated(pos as u64, body_len, image.len() - pos - RECORD_HEADER_SIZE));
                }
                let body_end = pos + RECORD_HEADER_SIZE + body_len;
                match rec.kind {
                    RecordType::Track0 => {
                        if body_len >= 518 {
                            let mbr_bytes = copy_range(image, pos + 16, pos + 528);
                            mbr_entries = match mbr::parse(mbr_bytes.as_slice()) {
                                Ok(v) => v,
                                Err(e) => return Err(e),
                            };
                        }
                        assert(step == run_records(image@, compression, body_end as int, mbr_entries@, parts_spec, cur_spec, next as int)) by {
                            reveal(run_records);
                        }
                        pos = body_end;
                    },
                    RecordType::Partition => {
                        let data = cur_data;
                        let ghost old_parts = parts_spec;
                        let closed = close_partition(&mut partitions, Ghost(parts_spec), open, cur_index, cur_blocks, data, &mbr_entries);
                        if closed.is_err() {
                            assert(step == Err::<(Seq<MbrEntry>, Seq<PartSpec>), Fault>((ErrorClass::Format, 0, 0, 0))) by {
                                reveal(run_records);
                            }
                            return Err(closed.unwrap_err());
                        }
                        proof {
                            parts_spec = close_part(old_parts, cur_spec, mbr_entries@).unwrap();
                        }
                        let skip = header::looks_like_at(image, body_end);
                        assert(step == run_records(image@, compression, skip_embedded_header(image@, body_end as int), mbr_entries@,
                            parts_spec, Some(OpenPart { index: next as int, blocks: 0, data: Seq::empty() }), next + 1)) by {
                            reveal(run_records);
                        }
                        open = true;
                        cur_index = next;
                        next = next + 1;
                        cur_blocks = 0;
                        cur_data = Vec::new();
                        pos = if skip { body_end + HEADER_SIZE } else { body_end };
                    },
                    RecordType::Continuation => {
                        let skip = header::looks_like_at(image, body_end);
                        assert(step == run_records(image@, compression, skip_embedded_header(image@, body_end as int), mbr_entries@,
                            parts_spec, cur_spec, next as int)) by {
                            reveal(run_records);
                        }
                        pos = if skip { body_end + HEADER_SIZE } else { body_end };
                    },
                    RecordType::End => {
                        let data = cur_data;
                        let ghost old_parts = parts_spec;
                        let closed = close_partition(&mut partitions, Ghost(parts_spec), open, cur_index, cur_blocks, data, &mbr_entries);
                        if closed.is_err() {
                            assert(step == Err::<(Seq<MbrEntry>, Seq<PartSpec>), Fault>((ErrorClass::Format, 0, 0, 0))) by {
                                reveal(run_records);
                            }
                            return Err(closed.unwrap_err());
                        }
                        proof {
                            parts_spec = close_part(old_parts, cur_spec, mbr_entries@).unwrap();
                        }
                        assert(step == Ok::<(Seq<MbrEntry>, Seq<PartSpec>), Fault>((mbr_entries@, parts_spec))) by {
                            reveal(run_records);
                        }
                        cur_data = Vec::new();
                        break;
                    },
                }
            },
            None => {
                if !open {
                    assert(step == Err::<(Seq<MbrEntry>, Seq<PartSpec>), Fault>((ErrorClass::Format, pos as int, 0, 0))) by {
                        reveal(run_records);
                    }
                    return Err(Error::format(pos as u64, "compressed block outside any partition"));
                }
                let block = read_and_decompress_block(image, pos, compression);
                if block.is_err() {
                    assert(step == match spec_block(image@, pos as int, compression) {
                        Err(e) => Err::<(Seq<MbrEntry>, Seq<PartSpec>), Fault>(e),
                        Ok(_) => step,
                    }) by {
                        reveal(run_records);
                    }
                    return Err(block.unwrap_err());
                }
                let (n, mut out) = block.unwrap();
                assert(step == run_records(image@, compression, pos + n, mbr_entries@, parts_spec,
                    Some(OpenPart { index: cur_index as int, blocks: cur_blocks + 1, data: cur_data@ + out@ }), next as int)) by {
                    reveal(run_records);
                }
                cur_blocks = cur_blocks + 1;
                cur_data.append(&mut out);
                pos = pos + n;
            },
        }
    }
    Ok(ExtractedImage { header, mbr_entries, partitions })
}

/// Summary of one extracted partition, with the path it was written to.
#[derive(Debug, Clone)]
pub struct PartitionSummary {
    pub index: usize,
    pub mbr_type: Option<u8>,
    pub compressed_bytes: u64,
    pub decompressed_bytes: u64,
    pub output_path: String,
}

/// Result of extracting a single Ghost 11.x / 12.x image to files.
#[derive(Debug, Clone)]
pub struct ExtractResult {
    pub header: FileHeader,
    pub mbr_entries: Vec<MbrEntry>,
    pub partitions: Vec<PartitionSummary>,
}

impl PartitionPayload {
    /// The summary of this partition once written to `output_path`.
    pub fn summary(&self, output_path: String) -> (s: PartitionSummary)
        ensures
            s.index == self.index,
            s.mbr_type == self.mbr_type,
            s.compressed_bytes == self.compressed_bytes,
            s.decompressed_bytes == self.decompressed_bytes,
            s.output_path@ == output_path@,
    {
        PartitionSummary {
            index: self.index,
            mbr_type: self.mbr_type,
            compressed_bytes: self.compressed_bytes,
            decompressed_bytes: self.decompressed_bytes,
            output_path,
        }
    }
}

/// The byte strings of `ds`, one after the other.
pub open spec fn concat_payloads(ds: Seq<Seq<u8>>) -> Seq<u8>
    decreases ds.len(),
{
    if ds.len() == 0 {
        Seq::empty()
    } else {
        ds[0] + concat_payloads(ds.drop_first())
    }
}

/// The bytes of stored blocks holding the payloads `bs`, one after the
/// other.
pub open spec fn blocks_bytes(bs: Seq<Seq<u8>>) -> Seq<u8>
    decreases bs.len(),
{
    if bs.len() == 0 {
        Seq::empty()
    } else {
        block_bytes(bs[0]) + blocks_bytes(bs.drop_first())
    }
}

/// The bytes of partitions given by their block payloads: for each, a
/// Partition record with a 20-byte zero body, the file header `hdr` and its
/// blocks; then an End record with a 24-byte zero body.
pub open spec fn partitions_stream(hdr: Seq<u8>, ps: Seq<Seq<Seq<u8>>>) -> Seq<u8>
    decreases ps.len(),
{
    if ps.len() == 0 {
        record_bytes(RECORD_TYPE_END, zeros(24))
    } else {
        record_bytes(RECORD_TYPE_PARTITION, zeros(20)) + hdr + blocks_bytes(ps[0]) + partitions_stream(hdr, ps.drop_first())
    }
}

/// Every block payload of every partition can stand alone in a block, and
/// each partition's byte counters fit a `u64`.
pub open spec fn plain_partitions(ps: Seq<Seq<Seq<u8>>>) -> bool {
    forall|k: int| 0 <= k < ps.len() ==> {
        &&& forall|j: int| 0 <= j < (#[trigger] ps[k]).len() ==> plain_payload(#[trigger] ps[k][j])
        &&& 2 * ps[k].len() + concat_payloads(ps[k]).len() <= u64::MAX
    }
}

/// The partitions whose blocks hold the payloads `ps`, numbered from
/// `first`, with the MBR types of `mbr`: each one's data is its payloads in
/// stream order.
pub open spec fn multi_block_parts(ps: Seq<Seq<Seq<u8>>>, mbr: Seq<MbrEntry>, first: int) -> Seq<PartSpec> {
    Seq::new(ps.len(), |k: int| PartSpec {
        index: first + k,
        mbr_type: if 0 <= first + k < mbr.len() { Some(mbr[first + k].part_type) } else { None },
        blocks: ps[k].len() as int,
        data: concat_payloads(ps[k]),
    })
}

/// `img` holds `bytes` at `pos`.
pub open spec fn holds_at(img: Seq<u8>, pos: int, bytes: Seq<u8>) -> bool {
    0 <= pos && pos + bytes.len() <= img.len() && img.subrange(pos, pos + bytes.len()) == bytes
}

/// `img` holds `a + b` at `pos`: it holds `a` there and `b` right after.
proof fn lemma_holds_split(img: Seq<u8>, pos: int, a: Seq<u8>, b: Seq<u8>)
    requires
        holds_at(img, pos, a + b),
    ensures
        holds_at(img, pos, a),
        holds_at(img, pos + a.len(), b),
{
    let ab = a + b;
    assert forall|m: int| 0 <= m < ab.len() implies img[pos + m] == ab[m] by {
        assert(img.subrange(pos, pos + ab.len())[m] == img[pos + m]);
    }
    assert(img.subrange(pos, pos + a.len()) =~= a) by {
        assert forall|m: int| 0 <= m < a.len() implies img.subrange(pos, pos + a.len())[m] == a[m] by {
            assert(ab[m] == a[m]);
        }
    }
    assert(img.subrange(pos + a.len(), pos + a.len() + b.len()) =~= b) by {
        assert forall|m: int| 0 <= m < b.len() implies img.subrange(pos + a.len(), pos + a.len() + b.len())[m] == b[m] by {
            assert(ab[a.len() + m] == b[m]);
        }
    }
}

/// A stored block holding a plain payload `p` at `q` is no record and
/// decodes, uncompressed, to `p`.
proof fn lemma_block_at(img: Seq<u8>, q: int, p: Seq<u8>)
    requires
        holds_at(img, q, block_bytes(p)),
        plain_payload(p),
    ensures
        spec_parse_at(img, q) is None,
        spec_block(img, q, Compression::Uncompressed) == Ok::<(int, Seq<u8>), Fault>((p.len() + 2 as int, p)),
{
    let b = block_bytes(p);
    assert forall|k: int| 0 <= k < b.len() implies img[q + k] == b[k] by {
        assert(img.subrange(q, q + b.len())[k] == img[q + k]);
    }
    assert(img[q] == le16_bytes((p.len() + 2) as u16)[0] && img[q + 1] == le16_bytes((p.len() + 2) as u16)[1]) by {
        assert(b[0] == le16_bytes((p.len() + 2) as u16)[0]);
        assert(b[1] == le16_bytes((p.len() + 2) as u16)[1]);
    }
    lemma_le16_bytes(img, q, (p.len() + 2) as u16);
    assert(img[q + 4] == p[2] && img[q + 5] == p[3] && img[q + 6] == p[4] && img[q + 7] == p[5]) by {
        assert(b[4] == p[2] && b[5] == p[3] && b[6] == p[4] && b[7] == p[5]);
    }
    assert(le32(img, q + 4) == le32(p, 2));
    assert(img.subrange(q + 2, q + 2 + p.len()) =~= p) by {
        assert forall|k: int| 0 <= k < p.len() implies img.subrange(q + 2, q + 2 + p.len())[k] == p[k] by {
            assert(img[q + 2 + k] == b[2 + k]);
        }
    }
}

/// Reading the blocks `bs` laid out at `pos` appends their payloads, in
/// stream order, to the open partition and counts them.
proof fn lemma_blocks_run(
    img: Seq<u8>,
    pos: int,
    bs: Seq<Seq<u8>>,
    mbr: Seq<MbrEntry>,
    parts: Seq<PartSpec>,
    c: OpenPart,
    next: int,
)
    requires
        holds_at(img, pos, blocks_bytes(bs)),
        forall|j: int| 0 <= j < bs.len() ==> plain_payload(#[trigger] bs[j]),
    ensures
        run_records(img, Compression::Uncompressed, pos, mbr, parts, Some(c), next) == run_records(
            img,
            Compression::Uncompressed,
            pos + blocks_bytes(bs).len(),
            mbr,
            parts,
            Some(OpenPart { index: c.index, blocks: c.blocks + bs.len(), data: c.data + concat_payloads(bs) }),
            next,
        ),
    decreases bs.len(),
{
    reveal(run_records);
    if bs.len() == 0 {
        assert(c.data + concat_payloads(bs) =~= c.data);
    } else {
        let b = block_bytes(bs[0]);
        let rest = blocks_bytes(bs.drop_first());
        assert(blocks_bytes(bs) == b + rest);
        lemma_holds_split(img, pos, b, rest);
        assert(plain_payload(bs[0]));
        lemma_block_at(img, pos, bs[0]);
        let c2 = OpenPart { index: c.index, blocks: c.blocks + 1, data: c.data + bs[0] };
        assert forall|j: int| 0 <= j < bs.drop_first().len() implies plain_payload(#[trigger] bs.drop_first()[j]) by {
            assert(bs.drop_first()[j] == bs[j + 1]);
        }
        lemma_blocks_run(img, pos + b.len(), bs.drop_first(), mbr, parts, c2, next);
        assert(c2.data + concat_payloads(bs.drop_first()) =~= c.data + concat_payloads(bs));
    }
}

/// The record walk over laid-out partitions of any number of blocks closes
/// the open partition and yields one partition per entry of `ps`, in
/// order, each with its blocks' payloads in stream order.
proof fn lemma_partitions_stream(
    img: Seq<u8>,
    pos: int,
    hdr: Seq<u8>,
    ps: Seq<Seq<Seq<u8>>>,
    mbr: Seq<MbrEntry>,
    parts: Seq<PartSpec>,
    cur: Option<OpenPart>,
    next: int,
)
    requires
        holds_at(img, pos, partitions_stream(hdr, ps)),
        is_file_header(hdr),
        plain_partitions(ps),
        close_part(parts, cur, mbr) is Some,
    ensures
        run_records(img, Compression::Uncompressed, pos, mbr, parts, cur, next) == Ok::<(Seq<MbrEntry>, Seq<PartSpec>), Fault>(
            (mbr, close_part(parts, cur, mbr).unwrap() + multi_block_parts(ps, mbr, next)),
        ),
    decreases ps.len(),
{
    reveal(run_records);
    let st = partitions_stream(hdr, ps);
    let parts2 = close_part(parts, cur, mbr).unwrap();
    if ps.len() == 0 {
        lemma_record_bytes_at(img, pos, RECORD_TYPE_END, zeros(24));
        assert(parts2 + multi_block_parts(ps, mbr, next) =~= parts2);
    } else {
        let r = record_bytes(RECORD_TYPE_PARTITION, zeros(20));
        let bb = blocks_bytes(ps[0]);
        let rest = partitions_stream(hdr, ps.drop_first());
        assert(st == ((r + hdr) + bb) + rest);
        lemma_holds_split(img, pos, (r + hdr) + bb, rest);
        lemma_holds_split(img, pos, r + hdr, bb);
        lemma_holds_split(img, pos, r, hdr);
        lemma_record_bytes_at(img, pos, RECORD_TYPE_PARTITION, zeros(20));
        let h = pos + 30;
        assert forall|k: int| 0 <= k < 512 implies img[h + k] == hdr[k] by {
            assert(img.subrange(h, h + 512)[k] == img[h + k]);
        }
        assert(spec_looks_like_at(img, h));
        let q = h + 512;
        let opened = OpenPart { index: next, blocks: 0, data: Seq::empty() };
        assert(plain_partitions(ps));
        assert(forall|j: int| 0 <= j < ps[0].len() ==> plain_payload(#[trigger] ps[0][j]));
        lemma_blocks_run(img, q, ps[0], mbr, parts2, opened, next + 1);
        let filled = OpenPart { index: next, blocks: ps[0].len() as int, data: Seq::<u8>::empty() + concat_payloads(ps[0]) };
        assert(Seq::<u8>::empty() + concat_payloads(ps[0]) =~= concat_payloads(ps[0]));
        assert(2 * ps[0].len() + concat_payloads(ps[0]).len() <= u64::MAX);
        assert forall|k: int| 0 <= k < ps.drop_first().len() implies {
            &&& forall|j: int| 0 <= j < (#[trigger] ps.drop_first()[k]).len() ==> plain_payload(#[trigger] ps.drop_first()[k][j])
            &&& 2 * ps.drop_first()[k].len() + concat_payloads(ps.drop_first()[k]).len() <= u64::MAX
        } by {
            assert(ps.drop_first()[k] == ps[k + 1]);
        }
        lemma_partitions_stream(img, q + bb.len(), hdr, ps.drop_first(), mbr, parts2, Some(filled), next + 1);
        let parts3 = close_part(parts2, Some(filled), mbr).unwrap();
        assert(parts3 + multi_block_parts(ps.drop_first(), mbr, next + 1) =~= parts2 + multi_block_parts(ps, mbr, next));
    }
}

/// An uncompressed, unencrypted image laid out as its header `hdr`, a
/// Track0 record with a 6-byte zero body, then for each partition a
/// Partition record, `hdr` again and its stored blocks, then an End record,
/// decodes to one partition per entry of `ps`, numbered 0, 1, 2, ... in
/// order: each partition's data is the payloads of all its blocks in stream
/// order, it counts those blocks, has no MBR type, and there are no MBR
/// entries.
pub proof fn lemma_extract_partitions_bytes(img: Seq<u8>, hdr: Seq<u8>, ps: Seq<Seq<Seq<u8>>>)
    requires
        is_file_header(hdr),
        hdr[3] == 0,
        hdr[12] & 0x02u8 == 0,
        img == hdr + record_bytes(RECORD_TYPE_TRACK0, zeros(6)) + partitions_stream(hdr, ps),
        plain_partitions(ps),
    ensures
        spec_extract(img) == Ok::<(FileHeader, Seq<MbrEntry>, Seq<PartSpec>), ErrorClass>(
            (spec_header(img), Seq::<MbrEntry>::empty(), multi_block_parts(ps, Seq::empty(), 0)),
        ),
{
    reveal(run_records);
    let t = record_bytes(RECORD_TYPE_TRACK0, zeros(6));
    let st = partitions_stream(hdr, ps);
    assert(img[0] == hdr[0] && img[1] == hdr[1] && img[3] == hdr[3] && img[12] == hdr[12]);
    assert(le16(img, 0) == le16(hdr, 0));
    assert(img.subrange(512, 528) =~= t);
    lemma_record_bytes_at(img, 512, RECORD_TYPE_TRACK0, zeros(6));
    assert(img.subrange(528, 528 + st.len() as int) =~= st);
    lemma_partitions_stream(img, 528, hdr, ps, Seq::empty(), Seq::empty(), None, 0);
    assert(Seq::<PartSpec>::empty() + multi_block_parts(ps, Seq::empty(), 0) =~= multi_block_parts(ps, Seq::empty(), 0));
}

} // verus!
