//! Directory walk and single-file extraction for pre-11.x images.
//!
//! The image is a flat DFS stream of dirents, each followed by the
//! compressed data blocks of its file (when it has any). [`walk_dirents`]
//! lists the dirents; [`extract_file`] decodes one file's blocks.

use vstd::prelude::*;
use vstd::slice::slice_subrange;

use crate::bytes::{lemma_record_bytes_at, le16, le32, read_le16, read_le32, record_bytes};
use crate::error::{fails_with, is_fault, Error, ErrorClass, Fault, Result};
use crate::fastlz::{self, spec_decompress};
use super::dirent::{spec_dirent, Dirent, DIRENT_SIZE};
use super::layout::{DATA_FULL_BLOCK_SIZE, GHO_MAGIC, HEADER_SIZE};
use super::record::{
    spec_parse_at, spec_record_type, Record, RecordType, RECORD_HEADER_SIZE, RECORD_MAGIC, RECORD_TYPE_DATA_FULL,
    RECORD_TYPE_DATA_LAST, RECORD_TYPE_DATA_TRAILER,
};

verus! {

/// How far past the file header the walk looks for the first record.
pub const RECORD_SCAN_LIMIT: usize = 200000;

/// One entry returned by the directory walk.
#[derive(Debug, Clone, Copy, PartialEq, Eq)]
pub struct WalkedEntry {
    /// Offset (in the logical stream) of the dirent record header.
    pub dirent_offset: u64,
    /// The parsed dirent.
    pub dirent: Dirent,
    /// Offset of the first data record, or `None` when the dirent has size 0.
    pub data_start_offset: Option<u64>,
    /// Number of full `0x0002` blocks the file occupies (`size / 32 KiB`).
    pub full_block_count: usize,
    /// Decompressed length of the trailing `0x0102` block (`size % 32 KiB`).
    pub last_block_decompressed_size: usize,
    /// True if the dirent is an empty placeholder (size 0 and no data).
    pub is_empty: bool,
}

/// The entry for `dirent` whose record header is at `dirent_offset`.
pub open spec fn spec_entry(dirent_offset: u64, dirent: Dirent, data_start_offset: Option<u64>) -> WalkedEntry {
    WalkedEntry {
        dirent_offset,
        dirent,
        data_start_offset,
        full_block_count: (dirent.size as int / DATA_FULL_BLOCK_SIZE as int) as usize,
        last_block_decompressed_size: (dirent.size as int % DATA_FULL_BLOCK_SIZE as int) as usize,
        is_empty: dirent.size == 0 && data_start_offset is None,
    }
}

/// An extracted file holds exactly as many bytes as its dirent states (no
/// bytes for an empty entry or one without data).
pub proof fn lemma_extracted_size(img: Seq<u8>, entry: WalkedEntry)
    ensures
        spec_extract_file(img, entry) matches Ok(data) ==> data.len() == (if entry.is_empty
            || entry.data_start_offset is None { 0 } else { entry.dirent.size as int }),
{
}

/// A file of fewer than 32 KiB whose data is one last-data record, whose
/// body decodes to exactly the file's bytes, followed by a trailer record,
/// is extracted as those bytes.
pub proof fn lemma_extract_single_block_file(
    img: Seq<u8>,
    dirent_offset: u64,
    dirent: Dirent,
    start: u64,
    payload: Seq<u8>,
)
    requires
        0 < dirent.size < DATA_FULL_BLOCK_SIZE,
        payload.len() == dirent.size,
        spec_parse_at(img, start as int) matches Some(rec) && rec.kind == RecordType::DataLast && ({
            let body_end = start + RECORD_HEADER_SIZE + rec.body_len;
            &&& body_end <= img.len()
            &&& spec_decompress(img.subrange(start + RECORD_HEADER_SIZE, body_end), rec.body_len as int) == Some(payload)
            &&& spec_parse_at(img, body_end) matches Some(t) && t.kind == RecordType::DataTrailer
                && body_end + RECORD_HEADER_SIZE + t.body_len <= img.len()
        }),
    ensures
        spec_extract_file(img, spec_entry(dirent_offset, dirent, Some(start))) == Ok::<Seq<u8>, ErrorClass>(payload),
{
    reveal(spec_data_block);
    let entry = spec_entry(dirent_offset, dirent, Some(start));
    assert(entry.full_block_count == 0) by (nonlinear_arith)
        requires entry.full_block_count == (dirent.size as int / 32768) as usize, dirent.size < 32768;
    assert(entry.last_block_decompressed_size == dirent.size) by (nonlinear_arith)
        requires entry.last_block_decompressed_size == (dirent.size as int % 32768) as usize, dirent.size < 32768;
    assert(spec_full_blocks(img, start as int, 0, Seq::empty()) == Ok::<(int, Seq<u8>), ErrorClass>((start as int, Seq::<u8>::empty())));
    assert(Seq::<u8>::empty() + payload =~= payload);
}

/// The same law over the bytes of the image: where the file's data start
/// holds a last-data record whose body `z` FastLZ decodes to the file's
/// bytes, then a trailer record, the file is extracted as those bytes.
pub proof fn lemma_extract_single_block_file_bytes(
    img: Seq<u8>,
    dirent_offset: u64,
    dirent: Dirent,
    start: u64,
    z: Seq<u8>,
    trailer: Seq<u8>,
    payload: Seq<u8>,
)
    requires
        0 < dirent.size < DATA_FULL_BLOCK_SIZE,
        payload.len() == dirent.size,
        0 < z.len() < 65536,
        0 < trailer.len() < 65536,
        spec_decompress(z, z.len() as int) == Some(payload),
        start + 20 + z.len() + trailer.len() <= img.len(),
        img.subrange(start as int, start + 10 + z.len()) == record_bytes(RECORD_TYPE_DATA_LAST, z),
        img.subrange(start + 10 + z.len(), start + 20 + z.len() + trailer.len())
            == record_bytes(RECORD_TYPE_DATA_TRAILER, trailer),
    ensures
        spec_extract_file(img, spec_entry(dirent_offset, dirent, Some(start))) == Ok::<Seq<u8>, ErrorClass>(payload),
{
    lemma_record_bytes_at(img, start as int, RECORD_TYPE_DATA_LAST, z);
    lemma_record_bytes_at(img, start + 10 + z.len(), RECORD_TYPE_DATA_TRAILER, trailer);
    lemma_extract_single_block_file(img, dirent_offset, dirent, start, payload);
}

/// The block layout of an entry covers its size: full blocks of 32 KiB and
/// a shorter last block.
pub proof fn lemma_entry_layout(dirent_offset: u64, dirent: Dirent, data_start_offset: Option<u64>)
    ensures
        ({
            let e = spec_entry(dirent_offset, dirent, data_start_offset);
            &&& e.full_block_count * DATA_FULL_BLOCK_SIZE + e.last_block_decompressed_size == dirent.size
            &&& e.last_block_decompressed_size < DATA_FULL_BLOCK_SIZE
        }),
{
    let size = dirent.size as int;
    assert(size == (size / 32768) * 32768 + size % 32768) by (nonlinear_arith);
}

/// Build the entry for `dirent`, deriving the block layout from its size.
pub fn make_entry(dirent_offset: u64, dirent: Dirent, data_start_offset: Option<u64>) -> (e: WalkedEntry)
    ensures
        e == spec_entry(dirent_offset, dirent, data_start_offset),
{
    let size = dirent.size as usize;
    let full_block_count = size / DATA_FULL_BLOCK_SIZE;
    let last_block_decompressed_size = size % DATA_FULL_BLOCK_SIZE;
    let is_empty = size == 0 && data_start_offset.is_none();
    WalkedEntry { dirent_offset, dirent, data_start_offset, full_block_count, last_block_decompressed_size, is_empty }
}

/// True when the record magic sits at `img[pos + 4..pos + 8]`.
pub open spec fn magic_at(img: Seq<u8>, pos: int) -> bool {
    pos + RECORD_HEADER_SIZE <= img.len() && le32(img, pos + 4) == RECORD_MAGIC
}

/// The first position from `pos` on, at most `left` bytes further, where a
/// record magic sits; the scan also stops when fewer than ten bytes remain.
pub open spec fn scan_for_magic(img: Seq<u8>, pos: int, left: int) -> int
    decreases left,
{
    if left <= 0 || pos + RECORD_HEADER_SIZE > img.len() || magic_at(img, pos) {
        pos
    } else {
        scan_for_magic(img, pos + 1, left - 1)
    }
}

/// True when an embedded 512-byte file header starts at `pos`: the image
/// magic and a file type of 1 or 9 in its first three bytes.
pub open spec fn embedded_header_at(img: Seq<u8>, pos: int) -> bool {
    &&& 0 <= pos
    &&& pos + 3 <= img.len()
    &&& le16(img, pos) == GHO_MAGIC
    &&& (img[pos + 2] == 1 || img[pos + 2] == 9)
}

/// The dirent walk from `pos` on. It stops when fewer than ten bytes
/// remain. A record (magic and a non-empty body) is read: dirent records
/// (and the first first-dirent record) with a body of at least 56 bytes
/// yield entries, every other record is skipped. An embedded 512-byte file
/// header is skipped. Bytes with the record magic that are neither are a
/// format error; any other bytes end the walk.
pub open spec fn walk_records(img: Seq<u8>, pos: int, first_seen: bool, acc: Seq<WalkedEntry>) -> core::result::Result<Seq<WalkedEntry>, Fault>
    decreases img.len() - pos,
{
    if pos < 0 || pos + RECORD_HEADER_SIZE > img.len() {
        Ok(acc)
    } else if magic_at(img, pos) && le16(img, pos + 8) != 0 {
        let kind = spec_record_type(le16(img, pos));
        let body_len = le16(img, pos + 8) as int;
        let body_start = pos + RECORD_HEADER_SIZE;
        let body_end = body_start + body_len;
        if body_end > img.len() {
            Err((ErrorClass::Truncated, body_start, body_len, img.len() - body_start))
        } else if kind == RecordType::Dirent || (kind == RecordType::FirstDirent && !first_seen) {
            let acc2 = if body_len >= DIRENT_SIZE {
                let d = spec_dirent(img.subrange(body_start, body_end));
                acc.push(spec_entry(
                    pos as u64,
                    d,
                    if d.size > 0 { Some((body_start + DIRENT_SIZE) as u64) } else { None },
                ))
            } else {
                acc
            };
            walk_records(img, body_end, first_seen || kind == RecordType::FirstDirent, acc2)
        } else {
            walk_records(img, body_end, first_seen, acc)
        }
    } else if embedded_header_at(img, pos) {
        if pos + HEADER_SIZE > img.len() {
            Err((ErrorClass::Truncated, pos, HEADER_SIZE as int, img.len() - pos))
        } else {
            walk_records(img, pos + HEADER_SIZE, first_seen, acc)
        }
    } else if magic_at(img, pos) {
        Err((ErrorClass::Format, pos, 0, 0))
    } else {
        Ok(acc)
    }
}

/// The entries of `es` are in increasing order of their record offsets,
/// all before `pos`.
pub open spec fn offsets_increasing(es: Seq<WalkedEntry>, pos: int) -> bool {
    &&& forall|i: int, j: int| 0 <= i < j < es.len() ==> (#[trigger] es[i]).dirent_offset < (#[trigger] es[j]).dirent_offset
    &&& forall|i: int| 0 <= i < es.len() ==> (#[trigger] es[i]).dirent_offset < pos
}

/// The walk from `pos` keeps the entries in stream order.
proof fn lemma_walk_records_in_order(img: Seq<u8>, pos: int, first_seen: bool, acc: Seq<WalkedEntry>)
    requires
        img.len() <= u64::MAX,
        offsets_increasing(acc, pos),
    ensures
        walk_records(img, pos, first_seen, acc) matches Ok(es) ==> forall|i: int, j: int| 0 <= i < j < es.len() ==>
            (#[trigger] es[i]).dirent_offset < (#[trigger] es[j]).dirent_offset,
    decreases img.len() - pos,
{
    if pos < 0 || pos + RECORD_HEADER_SIZE > img.len() {
    } else if !(magic_at(img, pos) && le16(img, pos + 8) != 0) {
        if embedded_header_at(img, pos) && pos + HEADER_SIZE <= img.len() {
            lemma_walk_records_in_order(img, pos + HEADER_SIZE, first_seen, acc);
        }
    } else {
        let kind = spec_record_type(le16(img, pos));
        let body_len = le16(img, pos + 8) as int;
        let body_start = pos + RECORD_HEADER_SIZE;
        let body_end = body_start + body_len;
        if body_end <= img.len() {
            if kind == RecordType::Dirent || (kind == RecordType::FirstDirent && !first_seen) {
                if body_len >= DIRENT_SIZE {
                    let d = spec_dirent(img.subrange(body_start, body_end));
                    let e = spec_entry(pos as u64, d, if d.size > 0 { Some((body_start + DIRENT_SIZE) as u64) } else { None });
                    let acc2 = acc.push(e);
                    assert(offsets_increasing(acc2, body_end)) by {
                        assert forall|i: int, j: int| 0 <= i < j < acc2.len() implies
                            (#[trigger] acc2[i]).dirent_offset < (#[trigger] acc2[j]).dirent_offset by {
                            if j == acc.len() {
                                assert(acc2[i] == acc[i]);
                            } else {
                                assert(acc2[i] == acc[i] && acc2[j] == acc[j]);
                            }
                        }
                        assert forall|i: int| 0 <= i < acc2.len() implies (#[trigger] acc2[i]).dirent_offset < body_end by {
                            if i < acc.len() {
                                assert(acc2[i] == acc[i]);
                            }
                        }
                    }
                    lemma_walk_records_in_order(img, body_end, first_seen || kind == RecordType::FirstDirent, acc2);
                } else {
                    lemma_walk_records_in_order(img, body_end, first_seen || kind == RecordType::FirstDirent, acc);
                }
            } else {
                lemma_walk_records_in_order(img, body_end, first_seen, acc);
            }
        }
    }
}

/// The directory comes out in stream order: each entry's record lies after
/// the previous entry's.
pub proof fn lemma_walk_in_stream_order(img: Seq<u8>)
    requires
        img.len() <= u64::MAX,
    ensures
        spec_walk(img) matches Ok(es) ==> forall|i: int, j: int| 0 <= i < j < es.len() ==>
            (#[trigger] es[i]).dirent_offset < (#[trigger] es[j]).dirent_offset,
{
    if img.len() >= HEADER_SIZE {
        lemma_walk_records_in_order(img, scan_for_magic(img, HEADER_SIZE as int, RECORD_SCAN_LIMIT as int), false, Seq::empty());
    }
}

/// Each entry of the walk from `pos` takes a record of at least 66 bytes.
proof fn lemma_walk_records_bounded(img: Seq<u8>, pos: int, first_seen: bool, acc: Seq<WalkedEntry>)
    requires
        0 <= pos <= img.len(),
        acc.len() * 66 <= pos,
    ensures
        walk_records(img, pos, first_seen, acc) matches Ok(es) ==> es.len() * 66 <= img.len(),
    decreases img.len() - pos,
{
    if pos + RECORD_HEADER_SIZE > img.len() {
    } else if !(magic_at(img, pos) && le16(img, pos + 8) != 0) {
        if embedded_header_at(img, pos) && pos + HEADER_SIZE <= img.len() {
            lemma_walk_records_bounded(img, pos + HEADER_SIZE, first_seen, acc);
        }
    } else {
        let kind = spec_record_type(le16(img, pos));
        let body_len = le16(img, pos + 8) as int;
        let body_end = pos + RECORD_HEADER_SIZE + body_len;
        if body_end <= img.len() {
            if kind == RecordType::Dirent || (kind == RecordType::FirstDirent && !first_seen) {
                if body_len >= DIRENT_SIZE {
                    let d = spec_dirent(img.subrange(pos + RECORD_HEADER_SIZE, body_end));
                    let e = spec_entry(pos as u64, d, if d.size > 0 { Some((pos + RECORD_HEADER_SIZE + DIRENT_SIZE) as u64) } else { None });
                    lemma_walk_records_bounded(img, body_end, first_seen || kind == RecordType::FirstDirent, acc.push(e));
                } else {
                    lemma_walk_records_bounded(img, body_end, first_seen || kind == RecordType::FirstDirent, acc);
                }
            } else {
                lemma_walk_records_bounded(img, body_end, first_seen, acc);
            }
        }
    }
}

/// The directory of an image holds at most one entry per 66 bytes of it
/// (a 10-byte record header and a 56-byte dirent), so its size is bounded
/// by the image's.
pub proof fn lemma_walk_bounded_by_image(img: Seq<u8>)
    ensures
        spec_walk(img) matches Ok(es) ==> es.len() * 66 <= img.len(),
{
    if img.len() >= HEADER_SIZE {
        let p = scan_for_magic(img, HEADER_SIZE as int, RECORD_SCAN_LIMIT as int);
        lemma_scan_in_bounds(img, HEADER_SIZE as int, RECORD_SCAN_LIMIT as int);
        lemma_walk_records_bounded(img, p, false, Seq::empty());
    }
}

/// The magic scan stays within the image.
proof fn lemma_scan_in_bounds(img: Seq<u8>, pos: int, left: int)
    requires
        0 <= pos <= img.len(),
    ensures
        pos <= scan_for_magic(img, pos, left) <= img.len(),
    decreases left,
{
    if !(left <= 0 || pos + RECORD_HEADER_SIZE > img.len() || magic_at(img, pos)) {
        lemma_scan_in_bounds(img, pos + 1, left - 1);
    }
}

/// The directory of a pre-11.x image: after the 512-byte file header (not
/// otherwise inspected) and any padding before the first record magic; or
/// why the walk fails.
pub open spec fn spec_walk_fault(img: Seq<u8>) -> core::result::Result<Seq<WalkedEntry>, Fault> {
    if img.len() < HEADER_SIZE {
        Err((ErrorClass::Truncated, 0, HEADER_SIZE as int, img.len() as int))
    } else {
        walk_records(img, scan_for_magic(img, HEADER_SIZE as int, RECORD_SCAN_LIMIT as int), false, Seq::empty())
    }
}

/// The directory of a pre-11.x image, or the class of the error that stops
/// the walk.
pub open spec fn spec_walk(img: Seq<u8>) -> core::result::Result<Seq<WalkedEntry>, ErrorClass> {
    match spec_walk_fault(img) {
        Ok(es) => Ok(es),
        Err(f) => Err(f.0),
    }
}

/// A piece of a pre-11.x stream: `Some((kind, body))` is a record, `None`
/// an embedded copy of the file header.
pub type StreamItem = Option<(u16, Seq<u8>)>;

/// The bytes of one stream piece, the file header being `hdr`.
pub open spec fn item_bytes(hdr: Seq<u8>, it: StreamItem) -> Seq<u8> {
    match it {
        Some((k, b)) => record_bytes(k, b),
        None => hdr,
    }
}

/// The bytes of the stream pieces `items`, one after the other.
pub open spec fn items_bytes(hdr: Seq<u8>, items: Seq<StreamItem>) -> Seq<u8>
    decreases items.len(),
{
    if items.len() == 0 {
        Seq::empty()
    } else {
        item_bytes(hdr, items[0]) + items_bytes(hdr, items.drop_first())
    }
}

/// The entries that the dirent records among `items` describe, the first
/// piece starting at offset `pos`: each dirent record, and the first
/// first-dirent record, gives the entry of the dirent its body holds, with
/// its data right after the dirent when its size is not 0.
pub open spec fn item_entries(hdr: Seq<u8>, items: Seq<StreamItem>, pos: int, first_seen: bool) -> Seq<WalkedEntry>
    decreases items.len(),
{
    if items.len() == 0 {
        Seq::empty()
    } else {
        let next = pos + item_bytes(hdr, items[0]).len();
        match items[0] {
            Some((k, b)) => {
                let kind = spec_record_type(k);
                if kind == RecordType::Dirent || (kind == RecordType::FirstDirent && !first_seen) {
                    let d = spec_dirent(b);
                    seq![spec_entry(pos as u64, d, if d.size > 0 { Some((pos + RECORD_HEADER_SIZE + DIRENT_SIZE) as u64) } else { None })]
                        + item_entries(hdr, items.drop_first(), next, first_seen || kind == RecordType::FirstDirent)
                } else {
                    item_entries(hdr, items.drop_first(), next, first_seen)
                }
            },
            None => item_entries(hdr, items.drop_first(), next, first_seen),
        }
    }
}

/// Stream pieces a walk reads as laid out: records with a body of 1 to
/// 65 535 bytes, dirent records with a 56-byte body.
pub open spec fn items_ok(items: Seq<StreamItem>) -> bool {
    forall|k: int| 0 <= k < items.len() ==> (#[trigger] items[k] matches Some((t, b)) ==> {
        &&& 0 < b.len() < 65536
        &&& (spec_record_type(t) == RecordType::Dirent || spec_record_type(t) == RecordType::FirstDirent)
            ==> b.len() == DIRENT_SIZE
    })
}

/// A file header the walk skips as an embedded one: 512 bytes, the image
/// magic, a file type of 1 or 9, and no record magic at bytes 4..8.
pub open spec fn skippable_header(hdr: Seq<u8>) -> bool {
    &&& hdr.len() == HEADER_SIZE
    &&& le16(hdr, 0) == GHO_MAGIC
    &&& (hdr[2] == 1 || hdr[2] == 9)
    &&& le32(hdr, 4) != RECORD_MAGIC
}

/// The walk over laid-out pieces that run to the end of the image yields
/// the entries of their dirent records, after those found so far.
proof fn lemma_walk_items(img: Seq<u8>, pos: int, hdr: Seq<u8>, items: Seq<StreamItem>, first_seen: bool, acc: Seq<WalkedEntry>)
    requires
        0 <= pos,
        img.len() <= u64::MAX,
        pos + items_bytes(hdr, items).len() == img.len(),
        img.subrange(pos, img.len() as int) == items_bytes(hdr, items),
        skippable_header(hdr),
        items_ok(items),
    ensures
        walk_records(img, pos, first_seen, acc) == Ok::<Seq<WalkedEntry>, Fault>(acc + item_entries(hdr, items, pos, first_seen)),
    decreases items.len(),
{
    let all = items_bytes(hdr, items);
    assert forall|k: int| 0 <= k < all.len() implies img[pos + k] == all[k] by {
        assert(img.subrange(pos, img.len() as int)[k] == img[pos + k]);
    }
    if items.len() == 0 {
        assert(acc + Seq::<WalkedEntry>::empty() =~= acc);
    } else {
        let first = item_bytes(hdr, items[0]);
        let rest = items_bytes(hdr, items.drop_first());
        assert(all == first + rest);
        let next = pos + first.len();
        assert(img.subrange(next, img.len() as int) =~= rest) by {
            assert forall|k: int| 0 <= k < rest.len() implies img.subrange(next, img.len() as int)[k] == rest[k] by {
                assert(all[first.len() + k] == rest[k]);
            }
        }
        assert forall|k: int| 0 <= k < items.drop_first().len() implies (#[trigger] items.drop_first()[k] matches Some((t, b)) ==> {
            &&& 0 < b.len() < 65536
            &&& (spec_record_type(t) == RecordType::Dirent || spec_record_type(t) == RecordType::FirstDirent)
                ==> b.len() == DIRENT_SIZE
        }) by {
            assert(items.drop_first()[k] == items[k + 1]);
        }
        assert(items_ok(items.drop_first()));
        match items[0] {
            Some((k, b)) => {
                assert(items[0] matches Some((t, bb)) && 0 < bb.len() < 65536);
                assert(img.subrange(pos, pos + 10 + b.len()) =~= record_bytes(k, b)) by {
                    assert forall|m: int| 0 <= m < 10 + b.len() implies img.subrange(pos, pos + 10 + b.len())[m] == record_bytes(k, b)[m] by {
                        assert(all[m] == first[m]);
                    }
                }
                lemma_record_bytes_at(img, pos, k, b);
                let kind = spec_record_type(k);
                let body_end = pos + 10 + b.len();
                assert(magic_at(img, pos));
                if kind == RecordType::Dirent || (kind == RecordType::FirstDirent && !first_seen) {
                    let d = spec_dirent(b);
                    let e = spec_entry(pos as u64, d, if d.size > 0 { Some((pos + RECORD_HEADER_SIZE + DIRENT_SIZE) as u64) } else { None });
                    lemma_walk_items(img, next, hdr, items.drop_first(), first_seen || kind == RecordType::FirstDirent, acc.push(e));
                    assert(acc.push(e) + item_entries(hdr, items.drop_first(), next, first_seen || kind == RecordType::FirstDirent)
                        =~= acc + item_entries(hdr, items, pos, first_seen));
                } else {
                    lemma_walk_items(img, next, hdr, items.drop_first(), first_seen, acc);
                }
            },
            None => {
                assert(first == hdr);
                assert forall|m: int| 0 <= m < 512 implies img[pos + m] == hdr[m] by {
                    assert(all[m] == first[m]);
                }
                assert(img[pos] == hdr[0] && img[pos + 1] == hdr[1] && img[pos + 2] == hdr[2]);
                assert(img[pos + 4] == hdr[4] && img[pos + 5] == hdr[5] && img[pos + 6] == hdr[6] && img[pos + 7] == hdr[7]);
                assert(le32(img, pos + 4) == le32(hdr, 4));
                assert(embedded_header_at(img, pos));
                lemma_walk_items(img, next, hdr, items.drop_first(), first_seen, acc);
            },
        }
    }
}

/// The directory of an image laid out as a file header followed by stream
/// pieces (records, and embedded copies of the header), the first a record:
/// the entries of its dirent records, in stream order.
pub proof fn lemma_walk_laid_out(img: Seq<u8>, hdr: Seq<u8>, items: Seq<StreamItem>)
    requires
        img == hdr + items_bytes(hdr, items),
        img.len() <= u64::MAX,
        skippable_header(hdr),
        items_ok(items),
        items.len() > 0,
        items[0] is Some,
    ensures
        spec_walk(img) == Ok::<Seq<WalkedEntry>, ErrorClass>(item_entries(hdr, items, HEADER_SIZE as int, false)),
{
    let all = items_bytes(hdr, items);
    assert(img.subrange(512, img.len() as int) =~= all);
    let (k, b) = items[0]->0;
    assert(items[0] matches Some((t, bb)) && 0 < bb.len() < 65536);
    assert(all == record_bytes(k, b) + items_bytes(hdr, items.drop_first()));
    assert(img.subrange(512, 522 + b.len() as int) =~= record_bytes(k, b)) by {
        assert forall|m: int| 0 <= m < 10 + b.len() implies img.subrange(512, 522 + b.len() as int)[m] == record_bytes(k, b)[m] by {
            assert(img[512 + m] == all[m]);
        }
    }
    lemma_record_bytes_at(img, 512, k, b);
    assert(magic_at(img, 512));
    assert(scan_for_magic(img, HEADER_SIZE as int, RECORD_SCAN_LIMIT as int) == 512);
    lemma_walk_items(img, 512, hdr, items, false, Seq::empty());
    assert(Seq::<WalkedEntry>::empty() + item_entries(hdr, items, 512, false) =~= item_entries(hdr, items, 512, false));
}

/// `n` zero bytes.
pub open spec fn zero_bytes(n: nat) -> Seq<u8> {
    Seq::new(n, |i: int| 0u8)
}

/// Four bytes that read as the record magic are its bytes `D8 18 2F 01`.
proof fn lemma_magic_bytes(b: Seq<u8>, off: int)
    requires
        0 <= off,
        off + 4 <= b.len(),
        le32(b, off) == RECORD_MAGIC,
    ensures
        b[off] == 0xD8 && b[off + 1] == 0x18,
{
    let x0 = b[off] as int;
    let x1 = b[off + 1] as int;
    let x2 = b[off + 2] as int;
    let x3 = b[off + 3] as int;
    assert(x0 + x1 * 0x100 + x2 * 0x1_0000 + x3 * 0x100_0000 == 0x012F18D8);
    assert(x0 == 0xD8 && x1 == 0x18) by (nonlinear_arith)
        requires
            0 <= x0 < 256,
            0 <= x1 < 256,
            0 <= x2 < 256,
            0 <= x3 < 256,
            x0 + x1 * 0x100 + x2 * 0x1_0000 + x3 * 0x100_0000 == 0x012F18D8;
}

/// No record magic starts inside zero padding that is followed by a record.
proof fn lemma_no_magic_in_padding(img: Seq<u8>, pad_start: int, rec: int, p: int)
    requires
        0 <= pad_start <= p < rec,
        rec + 10 <= img.len(),
        forall|i: int| pad_start <= i < rec ==> img[i] == 0,
        img[rec + 2] == 0,
        img[rec + 3] == 0,
        img[rec + 4] == 0xD8,
    ensures
        !magic_at(img, p),
{
    if magic_at(img, p) {
        lemma_magic_bytes(img, p + 4);
        if p + 4 < rec {
            assert(img[p + 4] == 0);
        } else if p + 4 == rec {
            assert(img[p + 7] == img[rec + 3]);
            assert(le32(img, p + 4) == img[rec] + img[rec + 1] * 0x100);
        } else if p + 4 == rec + 1 || p + 4 == rec + 2 {
            assert(img[p + 5] == 0);
        } else {
            assert(img[p + 5] == 0xD8);
        }
    }
}

/// The magic scan over zero padding that ends at a record stops at the
/// record.
proof fn lemma_scan_over_padding(img: Seq<u8>, pad_start: int, rec: int, p: int, left: int)
    requires
        0 <= pad_start <= p <= rec,
        rec - p <= left,
        rec + 10 <= img.len(),
        forall|i: int| pad_start <= i < rec ==> img[i] == 0,
        img[rec + 2] == 0,
        img[rec + 3] == 0,
        img[rec + 4] == 0xD8,
        magic_at(img, rec),
    ensures
        scan_for_magic(img, p, left) == rec,
    decreases rec - p,
{
    if p < rec {
        lemma_no_magic_in_padding(img, pad_start, rec, p);
        lemma_scan_over_padding(img, pad_start, rec, p + 1, left - 1);
    }
}

/// The directory does not change when fewer than 200 001 zero bytes of
/// padding stand between the file header and the first record: an image
/// laid out as the header, `n` zero bytes and stream pieces (the first a
/// record) gives the entries of its dirent records, at their offsets.
pub proof fn lemma_walk_after_padding(img: Seq<u8>, hdr: Seq<u8>, n: nat, items: Seq<StreamItem>)
    requires
        img == hdr + zero_bytes(n) + items_bytes(hdr, items),
        n <= RECORD_SCAN_LIMIT,
        img.len() <= u64::MAX,
        skippable_header(hdr),
        items_ok(items),
        items.len() > 0,
        items[0] is Some,
    ensures
        spec_walk(img) == Ok::<Seq<WalkedEntry>, ErrorClass>(item_entries(hdr, items, HEADER_SIZE + n, false)),
{
    let all = items_bytes(hdr, items);
    let start: int = 512 + n as int;
    assert(img.subrange(start, img.len() as int) =~= all);
    let (k, b) = items[0]->0;
    assert(items[0] matches Some((t, bb)) && 0 < bb.len() < 65536);
    assert(all == record_bytes(k, b) + items_bytes(hdr, items.drop_first()));
    assert(img.subrange(start, start + 10 + b.len() as int) =~= record_bytes(k, b)) by {
        assert forall|m: int| 0 <= m < 10 + b.len() implies img.subrange(start, start + 10 + b.len() as int)[m] == record_bytes(k, b)[m] by {
            assert(img[start + m] == all[m]);
        }
    }
    lemma_record_bytes_at(img, start, k, b);
    assert(magic_at(img, start));
    assert(img[start + 2] == all[2] && img[start + 3] == all[3] && img[start + 4] == all[4]);
    assert forall|i: int| 512 <= i < start implies img[i] == 0 by {
        assert(img[i] == zero_bytes(n)[i - 512]);
    }
    lemma_scan_over_padding(img, 512, start, 512, RECORD_SCAN_LIMIT as int);
    lemma_walk_items(img, start, hdr, items, false, Seq::empty());
    assert(Seq::<WalkedEntry>::empty() + item_entries(hdr, items, start, false) =~= item_entries(hdr, items, start, false));
}

/// Read the directory of a pre-11.x image held in memory.
///
/// The walk skips the file header and up to 200 000 bytes of padding before
/// the first record magic, then reads records, skipping embedded 512-byte
/// file headers, until fewer than ten bytes remain or the bytes are neither.
#[verifier::rlimit(30)]
pub fn walk_dirents(image: &[u8]) -> (r: Result<Vec<WalkedEntry>>)
    ensures
        match spec_walk_fault(image@) {
            Ok(es) => r matches Ok(v) && v@ == es,
            Err(f) => r matches Err(e) && is_fault(e, f),
        },
        match spec_walk(image@) {
            Ok(es) => r matches Ok(v) && v@ == es,
            Err(c) => fails_with(r, c),
        },
        r matches Ok(v) ==> forall|i: int, j: int| 0 <= i < j < v@.len() ==>
            (#[trigger] v@[i]).dirent_offset < (#[trigger] v@[j]).dirent_offset,
{
    if image.len() < HEADER_SIZE {
        return Err(Error::truncated(0, HEADER_SIZE, image.len()));
    }
    let mut pos: usize = HEADER_SIZE;
    let mut left: usize = RECORD_SCAN_LIMIT;
    while left > 0 && image.len() - pos >= RECORD_HEADER_SIZE && read_le32(image, pos + 4) != RECORD_MAGIC
        invariant
            HEADER_SIZE <= pos <= image@.len(),
            left <= RECORD_SCAN_LIMIT,
            scan_for_magic(image@, HEADER_SIZE as int, RECORD_SCAN_LIMIT as int) == scan_for_magic(image@, pos as int, left as int),
        decreases left,
    {
        pos += 1;
        left -= 1;
    }
    let mut entries: Vec<WalkedEntry> = Vec::new();
    let mut first_seen = false;
    let ghost whole = spec_walk_fault(image@);
    loop
        invariant
            HEADER_SIZE <= pos <= image@.len(),
            whole == spec_walk_fault(image@),
            whole == walk_records(image@, pos as int, first_seen, entries@),
        decreases image@.len() - pos,
    {
        if image.len() - pos < RECORD_HEADER_SIZE {
            proof {
                lemma_walk_in_stream_order(image@);
            }
            return Ok(entries);
        }
        let magic = read_le32(image, pos + 4) == RECORD_MAGIC;
        let body_len = read_le16(image, pos + 8) as usize;
        if !magic || body_len == 0 {
            if read_le16(image, pos) == GHO_MAGIC && (image[pos + 2] == 1 || image[pos + 2] == 9) {
                if image.len() - pos < HEADER_SIZE {
                    return Err(Error::truncated(pos as u64, HEADER_SIZE, image.len() - pos));
                }
                pos = pos + HEADER_SIZE;
                continue;
            }
            if magic {
                return Err(Error::format(
                    pos as u64,
                    "expected record header or embedded file header, found non-matching bytes",
                ));
            }
            proof {
                lemma_walk_in_stream_order(image@);
            }
            return Ok(entries);
        }
        let kind = RecordType::from_u16(read_le16(image, pos));
        let body_start = pos + RECORD_HEADER_SIZE;
        if image.len() - body_start < body_len {
            return Err(Error::truncated(body_start as u64, body_len, image.len() - body_start));
        }
        let body_end = body_start + body_len;
        let is_first = kind == RecordType::FirstDirent;
        if kind == RecordType::Dirent || (is_first && !first_seen) {
            if body_len >= DIRENT_SIZE {
                let body = slice_subrange(image, body_start, body_end);
                let d = match Dirent::parse(body) {
                    Ok(d) => d,
                    Err(e) => return Err(e),
                };
                let data_start = if d.size > 0 { Some((body_start + DIRENT_SIZE) as u64) } else { None };
                entries.push(make_entry(pos as u64, d, data_start));
            }
            first_seen = first_seen || is_first;
        }
        pos = body_end;
    }
}

/// The data record of kind `want` at `img[pos..]`: `Ok(body_len)` when its
/// header and whole body are there.
pub open spec fn spec_data_record(img: Seq<u8>, pos: int, want: RecordType) -> core::result::Result<int, ErrorClass> {
    if pos + RECORD_HEADER_SIZE > img.len() {
        Err(ErrorClass::Truncated)
    } else {
        match spec_parse_at(img, pos) {
            None => Err(ErrorClass::Format),
            Some(rec) => if rec.kind != want {
                Err(ErrorClass::Format)
            } else if want == RecordType::DataFull && rec.body_len != DATA_FULL_BLOCK_SIZE {
                Err(ErrorClass::Format)
            } else if pos + RECORD_HEADER_SIZE + rec.body_len > img.len() {
                Err(ErrorClass::Truncated)
            } else {
                Ok(rec.body_len as int)
            },
        }
    }
}

/// The data block of kind `want` at `img[pos..]`, decompressed and checked
/// to be `expect` bytes long: `Ok((next position, bytes))`.
#[verifier::opaque]
pub open spec fn spec_data_block(img: Seq<u8>, pos: int, want: RecordType, expect: int) -> core::result::Result<(int, Seq<u8>), ErrorClass> {
    match spec_data_record(img, pos, want) {
        Err(e) => Err(e),
        Ok(n) => {
            let body = img.subrange(pos + RECORD_HEADER_SIZE, pos + RECORD_HEADER_SIZE + n);
            match spec_decompress(body, n) {
                None => Err(ErrorClass::FastLz),
                Some(o) => if o.len() != expect {
                    Err(ErrorClass::Format)
                } else {
                    Ok((pos + RECORD_HEADER_SIZE + n, o))
                },
            }
        },
    }
}

/// `k` full blocks from `pos` on, appended to `acc`.
pub open spec fn spec_full_blocks(img: Seq<u8>, pos: int, k: int, acc: Seq<u8>) -> core::result::Result<(int, Seq<u8>), ErrorClass>
    decreases k,
{
    if k <= 0 {
        Ok((pos, acc))
    } else {
        match spec_data_block(img, pos, RecordType::DataFull, DATA_FULL_BLOCK_SIZE as int) {
            Err(e) => Err(e),
            Ok((p2, o)) => spec_full_blocks(img, p2, k - 1, acc + o),
        }
    }
}

/// The contents of the file of `entry`: its full blocks, its last block
/// (when `last_block_decompressed_size > 0`), then a trailer record; the
/// total must equal the dirent's size. Empty entries have no contents.
pub open spec fn spec_extract_file(img: Seq<u8>, entry: WalkedEntry) -> core::result::Result<Seq<u8>, ErrorClass> {
    if entry.is_empty || entry.data_start_offset is None {
        Ok(Seq::empty())
    } else {
        let start = entry.data_start_offset.unwrap() as int;
        if start > img.len() {
            Err(ErrorClass::Truncated)
        } else {
            match spec_full_blocks(img, start, entry.full_block_count as int, Seq::empty()) {
                Err(e) => Err(e),
                Ok((p1, full)) => {
                    let last = if entry.last_block_decompressed_size > 0 {
                        match spec_data_block(img, p1, RecordType::DataLast, entry.last_block_decompressed_size as int) {
                            Err(e) => Err(e),
                            Ok((p2, o)) => Ok((p2, full + o)),
                        }
                    } else {
                        Ok((p1, full))
                    };
                    match last {
                        Err(e) => Err(e),
                        Ok((p2, data)) => match spec_data_record(img, p2, RecordType::DataTrailer) {
                            Err(e) => Err(e),
                            Ok(_) => if data.len() != entry.dirent.size {
                                Err(ErrorClass::Format)
                            } else {
                                Ok(data)
                            },
                        },
                    }
                },
            }
        }
    }
}

/// Check the data record of kind `want` at `image[pos..]` and return its
/// body length. Errors are reported at offset 0.
fn read_data_record(image: &[u8], pos: usize, want: RecordType) -> (r: Result<usize>)
    ensures
        match spec_data_record(image@, pos as int, want) {
            Ok(n) => r == Ok::<usize, Error>(n as usize),
            Err(c) => fails_with(r, c),
        },
        r matches Ok(n) ==> pos + RECORD_HEADER_SIZE + n <= image@.len(),
        r matches Err(e) ==> offset_zero(e),
{
    if pos > image.len() || image.len() - pos < RECORD_HEADER_SIZE {
        let have = if pos > image.len() { 0 } else { image.len() - pos };
        return Err(Error::truncated(0, RECORD_HEADER_SIZE, have));
    }
    let rec = match Record::parse_at(image, pos) {
        Some(r) => r,
        None => return Err(Error::format(0, "expected a data record header")),
    };
    if rec.kind != want {
        return Err(Error::format(0, "unexpected data record type"));
    }
    let body_len = rec.body_len as usize;
    if want == RecordType::DataFull && body_len != DATA_FULL_BLOCK_SIZE {
        return Err(Error::format(0, "full data block of the wrong length"));
    }
    if image.len() - pos - RECORD_HEADER_SIZE < body_len {
        return Err(Error::truncated(0, body_len, image.len() - pos - RECORD_HEADER_SIZE));
    }
    Ok(body_len)
}

/// True when `e` is a format, truncation or FastLZ error at offset 0.
pub open spec fn offset_zero(e: Error) -> bool {
    ||| e matches Error::Format { offset: 0, .. }
    ||| e matches Error::Truncated { offset: 0, .. }
    ||| e matches Error::FastLz { offset: 0, .. }
}

/// Decompress the data block of kind `want` at `image[pos..]`, checking
/// that it yields `expect` bytes; returns the next position and the bytes.
/// Errors are reported at offset 0.
fn read_data_block(image: &[u8], pos: usize, want: RecordType, expect: usize) -> (r: Result<(usize, Vec<u8>)>)
    ensures
        match spec_data_block(image@, pos as int, want, expect as int) {
            Ok((p, o)) => r matches Ok((q, v)) && q == p && v@ == o,
            Err(c) => fails_with(r, c),
        },
        r matches Ok((q, _)) ==> q <= image@.len(),
        r matches Err(e) ==> offset_zero(e),
{
    reveal(spec_data_block);
    let n = match read_data_record(image, pos, want) {
        Ok(n) => n,
        Err(e) => return Err(e),
    };
    let len = image.len();
    assert(pos + RECORD_HEADER_SIZE + n <= len);
    let start = pos + RECORD_HEADER_SIZE;
    let body = slice_subrange(image, start, start + n);
    let out = match fastlz::decompress(body, n) {
        Ok(v) => v,
        Err(e) => return Err(e),
    };
    if out.len() != expect {
        return Err(Error::format(0, "decompressed block of the wrong length"));
    }
    Ok((start + n, out))
}

/// Extract the contents of a single file of a pre-11.x image held in
/// memory; `entry` comes from [`walk_dirents`] on the same image.
///
/// Errors about the data records are reported at offset 0; a total that
/// differs from the dirent's size is reported at the dirent's offset.
pub fn extract_file(image: &[u8], entry: &WalkedEntry) -> (r: Result<Vec<u8>>)
    ensures
        match spec_extract_file(image@, *entry) {
            Ok(o) => r matches Ok(v) && v@ == o,
            Err(c) => fails_with(r, c),
        },
        r matches Err(e) ==> offset_zero(e) || (e matches Error::Format { offset: o, .. } && o == entry.dirent_offset),
{
    if entry.is_empty || entry.data_start_offset.is_none() {
        return Ok(Vec::new());
    }
    let start = entry.data_start_offset.unwrap();
    if start > image.len() as u64 {
        return Err(Error::truncated(0, RECORD_HEADER_SIZE, 0));
    }
    let mut pos = start as usize;
    let mut data: Vec<u8> = Vec::new();
    let mut i: usize = 0;
    let ghost total = spec_full_blocks(image@, start as int, entry.full_block_count as int, Seq::empty());
    while i < entry.full_block_count
        invariant
            i <= entry.full_block_count,
            pos <= image@.len(),
            total == spec_full_blocks(image@, start as int, entry.full_block_count as int, Seq::empty()),
            total == spec_full_blocks(image@, pos as int, entry.full_block_count - i, data@),
            !entry.is_empty,
            entry.data_start_offset == Some(start),
            start <= image@.len(),
        decreases entry.full_block_count - i,
    {
        let (next, mut out) = match read_data_block(image, pos, RecordType::DataFull, DATA_FULL_BLOCK_SIZE) {
            Ok(x) => x,
            Err(e) => return Err(e),
        };
        data.append(&mut out);
        pos = next;
        i += 1;
    }
    if entry.last_block_decompressed_size > 0 {
        let (next, mut out) = match read_data_block(image, pos, RecordType::DataLast, entry.last_block_decompressed_size) {
            Ok(x) => x,
            Err(e) => return Err(e),
        };
        data.append(&mut out);
        pos = next;
    }
    match read_data_record(image, pos, RecordType::DataTrailer) {
        Ok(_) => {},
        Err(e) => return Err(e),
    }
    if data.len() as u64 != entry.dirent.size as u64 {
        return Err(Error::format(entry.dirent_offset, "decompressed size differs from the dirent size"));
    }
    Ok(data)
}

/// The byte strings of `ds`, one after the other.
pub open spec fn concat_all(ds: Seq<Seq<u8>>) -> Seq<u8>
    decreases ds.len(),
{
    if ds.len() == 0 {
        Seq::empty()
    } else {
        ds[0] + concat_all(ds.drop_first())
    }
}

/// The bytes of full-data records (type 0x0002) with the bodies `zs`, one
/// after the other.
pub open spec fn full_records_bytes(zs: Seq<Seq<u8>>) -> Seq<u8>
    decreases zs.len(),
{
    if zs.len() == 0 {
        Seq::empty()
    } else {
        record_bytes(RECORD_TYPE_DATA_FULL, zs[0]) + full_records_bytes(zs.drop_first())
    }
}

/// Full-data bodies `zs` that are 32 KiB long and FastLZ-decode to the
/// 32 KiB blocks `ds`.
pub open spec fn full_bodies_decode(zs: Seq<Seq<u8>>, ds: Seq<Seq<u8>>) -> bool {
    &&& zs.len() == ds.len()
    &&& forall|i: int| 0 <= i < zs.len() ==> {
        &&& (#[trigger] zs[i]).len() == DATA_FULL_BLOCK_SIZE
        &&& spec_decompress(zs[i], DATA_FULL_BLOCK_SIZE as int) == Some(ds[i])
        &&& ds[i].len() == DATA_FULL_BLOCK_SIZE
    }
}

/// The length of the bytes of `k` full-data records of 32 KiB each.
proof fn lemma_full_records_len(zs: Seq<Seq<u8>>, ds: Seq<Seq<u8>>)
    requires
        full_bodies_decode(zs, ds),
    ensures
        full_records_bytes(zs).len() == zs.len() * (DATA_FULL_BLOCK_SIZE + RECORD_HEADER_SIZE),
        concat_all(ds).len() == ds.len() * DATA_FULL_BLOCK_SIZE,
    decreases zs.len(),
{
    if zs.len() > 0 {
        assert(zs[0].len() == DATA_FULL_BLOCK_SIZE && ds[0].len() == DATA_FULL_BLOCK_SIZE);
        assert forall|i: int| 0 <= i < zs.drop_first().len() implies {
            &&& (#[trigger] zs.drop_first()[i]).len() == DATA_FULL_BLOCK_SIZE
            &&& spec_decompress(zs.drop_first()[i], DATA_FULL_BLOCK_SIZE as int) == Some(ds.drop_first()[i])
            &&& ds.drop_first()[i].len() == DATA_FULL_BLOCK_SIZE
        } by {
            assert(zs.drop_first()[i] == zs[i + 1] && ds.drop_first()[i] == ds[i + 1]);
        }
        lemma_full_records_len(zs.drop_first(), ds.drop_first());
    }
}

/// Full-data records laid out at `pos` decode, in stream order, to the
/// blocks their bodies hold.
proof fn lemma_full_blocks_bytes(img: Seq<u8>, pos: int, zs: Seq<Seq<u8>>, ds: Seq<Seq<u8>>, acc: Seq<u8>)
    requires
        0 <= pos,
        pos + full_records_bytes(zs).len() <= img.len(),
        img.subrange(pos, pos + full_records_bytes(zs).len()) == full_records_bytes(zs),
        full_bodies_decode(zs, ds),
    ensures
        spec_full_blocks(img, pos, zs.len() as int, acc)
            == Ok::<(int, Seq<u8>), ErrorClass>((pos + full_records_bytes(zs).len(), acc + concat_all(ds))),
    decreases zs.len(),
{
    reveal(spec_data_block);
    if zs.len() == 0 {
        assert(acc + concat_all(ds) =~= acc);
    } else {
        let f = full_records_bytes(zs);
        let r = record_bytes(RECORD_TYPE_DATA_FULL, zs[0]);
        let rest = full_records_bytes(zs.drop_first());
        assert(f == r + rest);
        assert(zs[0].len() == DATA_FULL_BLOCK_SIZE && ds[0].len() == DATA_FULL_BLOCK_SIZE);
        assert(spec_decompress(zs[0], DATA_FULL_BLOCK_SIZE as int) == Some(ds[0]));
        assert forall|m: int| 0 <= m < f.len() implies img[pos + m] == f[m] by {
            assert(img.subrange(pos, pos + f.len())[m] == img[pos + m]);
        }
        assert(img.subrange(pos, pos + r.len()) =~= r) by {
            assert forall|m: int| 0 <= m < r.len() implies img.subrange(pos, pos + r.len())[m] == r[m] by {
                assert(f[m] == r[m]);
            }
        }
        lemma_record_bytes_at(img, pos, RECORD_TYPE_DATA_FULL, zs[0]);
        let next = pos + r.len();
        assert(img.subrange(next, next + rest.len()) =~= rest) by {
            assert forall|m: int| 0 <= m < rest.len() implies img.subrange(next, next + rest.len())[m] == rest[m] by {
                assert(f[r.len() + m] == rest[m]);
            }
        }
        assert(spec_data_block(img, pos, RecordType::DataFull, DATA_FULL_BLOCK_SIZE as int)
            == Ok::<(int, Seq<u8>), ErrorClass>((next, ds[0])));
        assert forall|i: int| 0 <= i < zs.drop_first().len() implies {
            &&& (#[trigger] zs.drop_first()[i]).len() == DATA_FULL_BLOCK_SIZE
            &&& spec_decompress(zs.drop_first()[i], DATA_FULL_BLOCK_SIZE as int) == Some(ds.drop_first()[i])
            &&& ds.drop_first()[i].len() == DATA_FULL_BLOCK_SIZE
        } by {
            assert(zs.drop_first()[i] == zs[i + 1] && ds.drop_first()[i] == ds[i + 1]);
        }
        lemma_full_blocks_bytes(img, next, zs.drop_first(), ds.drop_first(), acc + ds[0]);
        assert(acc + ds[0] + concat_all(ds.drop_first()) =~= acc + concat_all(ds));
    }
}

/// A file laid out as full-data records whose 32 KiB bodies decode to the
/// blocks `ds`, then a last-data record whose body `zl` decodes to `last`,
/// then a trailer record, is extracted as the blocks in stream order
/// followed by `last`.
pub proof fn lemma_extract_file_blocks_bytes(
    img: Seq<u8>,
    dirent_offset: u64,
    dirent: Dirent,
    start: u64,
    zs: Seq<Seq<u8>>,
    ds: Seq<Seq<u8>>,
    zl: Seq<u8>,
    last: Seq<u8>,
    trailer: Seq<u8>,
)
    requires
        full_bodies_decode(zs, ds),
        0 < zl.len() < 65536,
        spec_decompress(zl, zl.len() as int) == Some(last),
        0 < last.len() < DATA_FULL_BLOCK_SIZE,
        0 < trailer.len() < 65536,
        dirent.size == zs.len() * DATA_FULL_BLOCK_SIZE + last.len(),
        start + full_records_bytes(zs).len() + 20 + zl.len() + trailer.len() <= img.len(),
        img.subrange(start as int, start + full_records_bytes(zs).len()) == full_records_bytes(zs),
        img.subrange(start + full_records_bytes(zs).len(), start + full_records_bytes(zs).len() + 10 + zl.len())
            == record_bytes(RECORD_TYPE_DATA_LAST, zl),
        img.subrange(start + full_records_bytes(zs).len() + 10 + zl.len(),
            start + full_records_bytes(zs).len() + 20 + zl.len() + trailer.len())
            == record_bytes(RECORD_TYPE_DATA_TRAILER, trailer),
    ensures
        spec_extract_file(img, spec_entry(dirent_offset, dirent, Some(start)))
            == Ok::<Seq<u8>, ErrorClass>(concat_all(ds) + last),
{
    reveal(spec_data_block);
    let e = spec_entry(dirent_offset, dirent, Some(start));
    let k = zs.len() as int;
    let l = last.len() as int;
    assert(e.full_block_count == k && e.last_block_decompressed_size == l) by (nonlinear_arith)
        requires
            e.full_block_count == (dirent.size as int / 32768) as usize,
            e.last_block_decompressed_size == (dirent.size as int % 32768) as usize,
            dirent.size == k * 32768 + l,
            0 < l < 32768,
            0 <= k;
    lemma_full_records_len(zs, ds);
    let f = full_records_bytes(zs).len() as int;
    lemma_full_blocks_bytes(img, start as int, zs, ds, Seq::empty());
    assert(Seq::<u8>::empty() + concat_all(ds) =~= concat_all(ds));
    let p1 = start + f;
    lemma_record_bytes_at(img, p1, RECORD_TYPE_DATA_LAST, zl);
    lemma_record_bytes_at(img, p1 + 10 + zl.len(), RECORD_TYPE_DATA_TRAILER, trailer);
    assert(spec_data_block(img, p1, RecordType::DataLast, l)
        == Ok::<(int, Seq<u8>), ErrorClass>((p1 + 10 + zl.len(), last)));
    assert((concat_all(ds) + last).len() == dirent.size);
}

/// A file whose size is a whole number of 32 KiB blocks, laid out as
/// full-data records whose bodies decode to the blocks `ds` and then a
/// trailer record, is extracted as the blocks in stream order.
pub proof fn lemma_extract_file_full_blocks_bytes(
    img: Seq<u8>,
    dirent_offset: u64,
    dirent: Dirent,
    start: u64,
    zs: Seq<Seq<u8>>,
    ds: Seq<Seq<u8>>,
    trailer: Seq<u8>,
)
    requires
        full_bodies_decode(zs, ds),
        zs.len() > 0,
        0 < trailer.len() < 65536,
        dirent.size == zs.len() * DATA_FULL_BLOCK_SIZE,
        start + full_records_bytes(zs).len() + 10 + trailer.len() <= img.len(),
        img.subrange(start as int, start + full_records_bytes(zs).len()) == full_records_bytes(zs),
        img.subrange(start + full_records_bytes(zs).len(), start + full_records_bytes(zs).len() + 10 + trailer.len())
            == record_bytes(RECORD_TYPE_DATA_TRAILER, trailer),
    ensures
        spec_extract_file(img, spec_entry(dirent_offset, dirent, Some(start))) == Ok::<Seq<u8>, ErrorClass>(concat_all(ds)),
{
    let e = spec_entry(dirent_offset, dirent, Some(start));
    let k = zs.len() as int;
    assert(e.full_block_count == k && e.last_block_decompressed_size == 0) by (nonlinear_arith)
        requires
            e.full_block_count == (dirent.size as int / 32768) as usize,
            e.last_block_decompressed_size == (dirent.size as int % 32768) as usize,
            dirent.size == k * 32768,
            0 < k;
    lemma_full_records_len(zs, ds);
    let f = full_records_bytes(zs).len() as int;
    lemma_full_blocks_bytes(img, start as int, zs, ds, Seq::empty());
    assert(Seq::<u8>::empty() + concat_all(ds) =~= concat_all(ds));
    lemma_record_bytes_at(img, start + f, RECORD_TYPE_DATA_TRAILER, trailer);
    assert(!e.is_empty);
}

} // verus!
