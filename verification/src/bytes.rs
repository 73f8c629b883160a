//! Little-endian field readers over byte slices, with their spec models.

use vstd::prelude::*;

verus! {

/// The little-endian `u16` stored at `b[off..off + 2]`.
pub open spec fn le16(b: Seq<u8>, off: int) -> u16 {
    (b[off] as int + b[off + 1] as int * 256) as u16
}

/// The little-endian `u32` stored at `b[off..off + 4]`.
pub open spec fn le32(b: Seq<u8>, off: int) -> u32 {
    (b[off] as int + b[off + 1] as int * 0x100 + b[off + 2] as int * 0x1_0000 + b[off + 3] as int
        * 0x100_0000) as u32
}

/// The two bytes of `v`, low byte first.
pub open spec fn le16_bytes(v: u16) -> Seq<u8> {
    seq![(v % 256) as u8, (v / 256) as u8]
}

/// The bytes of a record as an image holds it: the type code, two zero
/// bytes, the record magic `0x012F18D8`, the body length, then the body.
pub open spec fn record_bytes(kind: u16, body: Seq<u8>) -> Seq<u8> {
    le16_bytes(kind) + seq![0u8, 0u8, 0xD8u8, 0x18u8, 0x2Fu8, 0x01u8] + le16_bytes(body.len() as u16) + body
}

/// Two bytes written by `le16_bytes` read back as the value.
pub proof fn lemma_le16_bytes(b: Seq<u8>, off: int, v: u16)
    requires
        0 <= off,
        off + 2 <= b.len(),
        b[off] == le16_bytes(v)[0],
        b[off + 1] == le16_bytes(v)[1],
    ensures
        le16(b, off) == v,
{
    assert(v % 256 < 256);
    assert(v / 256 < 256);
    assert((v % 256) + (v / 256) * 256 == v);
}

/// The header fields of a record laid out by `record_bytes` at `pos`:
/// its type code, the magic and the body length, and the body after them.
pub proof fn lemma_record_bytes_at(img: Seq<u8>, pos: int, kind: u16, body: Seq<u8>)
    requires
        0 <= pos,
        body.len() < 65536,
        pos + 10 + body.len() <= img.len(),
        img.subrange(pos, pos + 10 + body.len()) == record_bytes(kind, body),
    ensures
        le16(img, pos) == kind,
        le32(img, pos + 4) == 0x012F18D8u32,
        le16(img, pos + 8) == body.len(),
        img.subrange(pos + 10, pos + 10 + body.len()) == body,
{
    let r = record_bytes(kind, body);
    assert forall|k: int| 0 <= k < r.len() implies img[pos + k] == r[k] by {
        assert(img.subrange(pos, pos + 10 + body.len())[k] == img[pos + k]);
    }
    assert(img[pos] == r[0] && img[pos + 1] == r[1]);
    lemma_le16_bytes(img, pos, kind);
    assert(img[pos + 4] == r[4] && img[pos + 5] == r[5] && img[pos + 6] == r[6] && img[pos + 7] == r[7]);
    assert(img[pos + 8] == r[8] && img[pos + 9] == r[9]);
    lemma_le16_bytes(img, pos + 8, body.len() as u16);
    assert forall|k: int| 0 <= k < body.len() implies img.subrange(pos + 10, pos + 10 + body.len())[k] == body[k] by {
        assert(img[pos + 10 + k] == r[10 + k]);
    }
    assert(img.subrange(pos + 10, pos + 10 + body.len()) =~= body);
}

/// Read the little-endian `u16` at `b[off..off + 2]`.
pub fn read_le16(b: &[u8], off: usize) -> (v: u16)
    requires
        off + 2 <= b@.len(),
    ensures
        v == le16(b@, off as int),
{
    let lo = b[off] as u16;
    let hi = b[off + 1] as u16;
    lo + hi * 256
}

/// Read the little-endian `u32` at `b[off..off + 4]`.
pub fn read_le32(b: &[u8], off: usize) -> (v: u32)
    requires
        off + 4 <= b@.len(),
    ensures
        v == le32(b@, off as int),
{
    let b0 = b[off] as u32;
    let b1 = b[off + 1] as u32;
    let b2 = b[off + 2] as u32;
    let b3 = b[off + 3] as u32;
    b0 + b1 * 0x100 + b2 * 0x1_0000 + b3 * 0x100_0000
}

/// A fresh vector holding `b[start..end]`.
pub fn copy_range(b: &[u8], start: usize, end: usize) -> (v: Vec<u8>)
    requires
        start <= end <= b@.len(),
    ensures
        v@ == b@.subrange(start as int, end as int),
{
    let mut v: Vec<u8> = Vec::with_capacity(end - start);
    let mut i = start;
    while i < end
        invariant
            start <= i <= end <= b@.len(),
            v@ == b@.subrange(start as int, i as int),
        decreases end - i,
    {
        v.push(b[i]);
        i += 1;
    }
    v
}

/// True when `b[off..off + pat.len()]` equals `pat`.
pub open spec fn bytes_at(b: Seq<u8>, off: int, pat: Seq<u8>) -> bool {
    0 <= off && off + pat.len() <= b.len() && b.subrange(off, off + pat.len()) == pat
}

/// Check whether `b[off..off + pat.len()]` equals `pat`.
pub fn has_bytes_at(b: &[u8], off: usize, pat: &[u8]) -> (r: bool)
    ensures
        r == bytes_at(b@, off as int, pat@),
{
    if off > b.len() || pat.len() > b.len() - off {
        return false;
    }
    let mut i: usize = 0;
    while i < pat.len()
        invariant
            off + pat@.len() <= b@.len(),
            b@.len() <= usize::MAX,
            i <= pat@.len(),
            forall|k: int| 0 <= k < i ==> b@[off + k] == pat@[k],
        decreases pat@.len() - i,
    {
        if b[off + i] != pat[i] {
            assert(b@.subrange(off as int, off + pat@.len())[i as int] != pat@[i as int]);
            return false;
        }
        i += 1;
    }
    assert(b@.subrange(off as int, off + pat@.len()) =~= pat@);
    true
}

/// The little-endian `u64` stored at `b[off..off + 8]`.
pub open spec fn le64(b: Seq<u8>, off: int) -> u64 {
    (le32(b, off) as int + le32(b, off + 4) as int * 0x1_0000_0000) as u64
}

/// Read the little-endian `u64` at `b[off..off + 8]`.
pub fn read_le64(b: &[u8], off: usize) -> (v: u64)
    requires
        off + 8 <= b@.len(),
    ensures
        v == le64(b@, off as int),
{
    let n = b.len();
    assert(off + 8 <= n);
    let lo = read_le32(b, off) as u64;
    let hi = read_le32(b, off + 4) as u64;
    lo + hi * 0x1_0000_0000
}

/// True when `b[start..end]` exists and equals `pat`.
pub open spec fn range_eq(b: Seq<u8>, start: int, end: int, pat: Seq<u8>) -> bool {
    0 <= start <= end <= b.len() && b.subrange(start, end) == pat
}

/// Check whether `b[start..end]` exists and equals `pat`.
pub fn range_equals(b: &[u8], start: usize, end: usize, pat: &[u8]) -> (r: bool)
    ensures
        r == range_eq(b@, start as int, end as int, pat@),
{
    if start > end || end > b.len() || end - start != pat.len() {
        return false;
    }
    let r = has_bytes_at(b, start, pat);
    r
}

} // verus!
