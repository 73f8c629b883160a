//! FastLZ (Z1) block decompressor used by Norton Ghost.

use vstd::prelude::*;

use crate::bytes::copy_range;
use crate::error::{Error, Result};

verus! {

/// Size of the FastLZ hash table (4096 entries).
pub const FASTLZ_HASH_SIZE: usize = 4096;

/// Multiplier of the FastLZ hash.
pub const HASH_MULT: u32 = 24993;

/// The value hashed for the three bytes `b0 b1 b2`: `b2 ^ (16 * (b1 ^ (16 * b0)))`,
/// in 32-bit arithmetic.
pub open spec fn hash_input(b0: u32, b1: u32, b2: u32) -> u32 {
    b2 ^ ((b1 ^ (b0 << 4u32)) << 4u32)
}

/// The FastLZ hash slot of the three bytes `b0 b1 b2`:
/// `((-(24993 * v) mod 2^32) >> 4) & 0xFFF`, with `v` = [`hash_input`].
pub open spec fn spec_hash(b0: u32, b1: u32, b2: u32) -> u32 {
    let prod: u32 = ((24993 * hash_input(b0, b1, b2) as nat) % 0x1_0000_0000) as u32;
    let neg: u32 = if prod == 0 { 0 } else { (0x1_0000_0000 - prod) as u32 };
    (neg >> 4u32) & 0xFFFu32
}

/// Compute the FastLZ hash slot for a 3-byte sequence.
pub fn fastlz_hash(b0: u32, b1: u32, b2: u32) -> (h: usize)
    ensures
        h == spec_hash(b0, b1, b2),
        h < FASTLZ_HASH_SIZE,
{
    let v: u32 = b2 ^ ((b1 ^ (b0 << 4u32)) << 4u32);
    let prod: u32 = HASH_MULT.wrapping_mul(v);
    let neg: u32 = 0u32.wrapping_sub(prod);
    let h: u32 = (neg >> 4u32) & 0xFFFu32;
    assert(h < 4096) by (bit_vector) requires h == (neg >> 4u32) & 0xFFFu32;
    h as usize
}

/// Sentinel byte sequence used to fill matches that point at an empty slot.
pub const FASTLZ_SENTINEL: [u8; 18] = [
    0x31, 0x32, 0x33, 0x34, 0x35, 0x36, 0x37, 0x38, 0x39, 0x30, 0x31, 0x32, 0x33, 0x34, 0x35, 0x36,
    0x37, 0x38,
];

/// The fixed 32 KiB block size used by the partition payload layout.
pub const BLOCK_SIZE: usize = 32768;

/// Maximum length of a single compressed / uncompressed block payload
/// (excluding the 2-byte `stored_len` prefix that wraps every block on disk).
pub const MAX_BLOCK_STORED: usize = 32774;

/// Maximum decompressed output size of a single FastLZ block, `4 * BLOCK_SIZE`
/// (the defence against decompression bombs).
pub const MAX_BLOCK_DECOMPRESSED: usize = 131072;

/// Marker of an empty hash-table slot.
pub const EMPTY_SLOT: usize = usize::MAX;

/// Byte `j` of the sentinel run `"123456789012345678"`, and 0 past its end.
pub open spec fn sentinel_byte(j: int) -> u8 {
    if 0 <= j < 18 {
        (0x30 + (j + 1) % 10) as u8
    } else {
        0
    }
}

/// The byte appended as element `j` of a back-reference to position `mp`,
/// given the output `out` produced so far.
pub open spec fn match_byte(out: Seq<u8>, mp: usize, j: int) -> u8 {
    if mp == EMPTY_SLOT {
        sentinel_byte(j)
    } else if mp + j < out.len() {
        out[mp + j]
    } else {
        0
    }
}

/// Append elements `j..total` of a back-reference to `mp`; `None` when the
/// output would grow past [`MAX_BLOCK_DECOMPRESSED`].
pub open spec fn copy_match(out: Seq<u8>, mp: usize, j: int, total: int) -> Option<Seq<u8>>
    decreases total - j,
{
    if j >= total {
        Some(out)
    } else if out.len() >= MAX_BLOCK_DECOMPRESSED {
        None
    } else {
        copy_match(out.push(match_byte(out, mp, j)), mp, j + 1, total)
    }
}

/// The hash slot of the three output bytes starting at `pos`.
pub open spec fn hash_at(out: Seq<u8>, pos: int) -> int {
    spec_hash(out[pos] as u32, out[pos + 1] as u32, out[pos + 2] as u32) as int
}

/// The hash table after a back-reference that ends a literal run of
/// length `lit` (with `prev` the previous run length): the positions of the
/// literals just emitted are recorded. `ms` is where the reference started.
pub open spec fn table_after_run(out: Seq<u8>, table: Seq<usize>, ms: int, lit: u32, prev: u32) -> Seq<usize> {
    let pos = ms - lit;
    if lit > 0 && pos >= 0 && pos + 2 < out.len() {
        let t1 = table.update(hash_at(out, pos), pos as usize);
        if prev == 2 && pos + 3 < out.len() {
            t1.update(hash_at(out, pos + 1), (pos + 1) as usize)
        } else {
            t1
        }
    } else {
        table
    }
}

/// The 16-bit control word read at `data[src..src + 2]`, with the stop bit
/// `0x10000` set above it.
pub open spec fn control_word(data: Seq<u8>, src: int) -> u32 {
    (data[src] as u32) | ((data[src + 1] as u32) << 8u32) | 0x1_0000u32
}

/// The hash slot named by a back-reference token `b0 b1`.
pub open spec fn token_slot(b0: u8, b1: u8) -> int {
    ((b1 as usize) | (((b0 & 0xF0u8) as usize) << 4usize)) as int
}

/// The FastLZ token machine: decode `data[src..end]` given the output so far,
/// the hash table, the current control word and literal-run counters.
/// `None` when the output would exceed [`MAX_BLOCK_DECOMPRESSED`].
pub open spec fn lz_run(
    data: Seq<u8>,
    end: int,
    src: int,
    out: Seq<u8>,
    table: Seq<usize>,
    control: u32,
    lit: u32,
    prev: u32,
) -> Option<Seq<u8>>
    decreases end - src,
{
    if src >= end {
        Some(out)
    } else if control == 1 {
        if src + 1 >= end {
            Some(out)
        } else {
            lz_run(data, end, src + 2, out, table, control_word(data, src), lit, prev)
        }
    } else if control & 1 != 0 {
        if src + 1 >= end {
            Some(out)
        } else {
            let b0 = data[src];
            let b1 = data[src + 1];
            let slot = token_slot(b0, b1);
            let total = 3 + (b0 & 0x0F) as int;
            let ms = out.len() as int;
            match copy_match(out, table[slot], 0, total) {
                None => None,
                Some(out2) => {
                    let t2 = table_after_run(out2, table, ms, lit, prev);
                    let (lit2, prev2) = if lit > 0 { (0u32, 0u32) } else { (lit, prev) };
                    lz_run(data, end, src + 2, out2, t2.update(slot, ms as usize), control >> 1u32, lit2, prev2)
                }
            }
        }
    } else if out.len() >= MAX_BLOCK_DECOMPRESSED {
        None
    } else {
        let out2 = out.push(data[src]);
        let lit1 = (lit + 1) as u32;
        if lit1 == 3 {
            let pos = out2.len() - 3;
            lz_run(data, end, src + 1, out2, table.update(hash_at(out2, pos), pos as usize), control >> 1u32, 2, 2)
        } else {
            lz_run(data, end, src + 1, out2, table, control >> 1u32, lit1, lit1)
        }
    }
}

/// The empty hash table.
pub open spec fn empty_table() -> Seq<usize> {
    Seq::new(FASTLZ_HASH_SIZE as nat, |i: int| EMPTY_SLOT)
}

/// The decompressed contents of a FastLZ (Z1) block of `comp_len` bytes
/// stored at the start of `data`, or `None` when the block is rejected.
///
/// A block whose first byte is 1 is stored: its payload is
/// `data[4..comp_len]` (rejected when shorter than 4 bytes or longer than
/// [`MAX_BLOCK_DECOMPRESSED`]). Any other block is a token stream starting at
/// byte 4, decoded by [`lz_run`].
pub open spec fn spec_decompress(data: Seq<u8>, comp_len: int) -> Option<Seq<u8>> {
    if comp_len == 0 || data.len() < comp_len {
        None
    } else if data[0] == 1 {
        if comp_len < 4 || comp_len - 4 > MAX_BLOCK_DECOMPRESSED {
            None
        } else {
            Some(data.subrange(4, comp_len))
        }
    } else {
        lz_run(data, comp_len, 4, Seq::empty(), empty_table(), 1, 0, 0)
    }
}

/// Every slot of `table` is empty or names a position of the output.
pub open spec fn table_ok(table: Seq<usize>, out_len: int) -> bool {
    &&& table.len() == FASTLZ_HASH_SIZE
    &&& forall|i: int| 0 <= i < table.len() ==> (#[trigger] table[i] == EMPTY_SLOT || table[i] <= out_len)
}

/// Copying a back-reference never yields more than [`MAX_BLOCK_DECOMPRESSED`] bytes
/// and only extends the output.
pub proof fn lemma_copy_match_bounded(out: Seq<u8>, mp: usize, j: int, total: int)
    requires
        out.len() <= MAX_BLOCK_DECOMPRESSED,
    ensures
        copy_match(out, mp, j, total) matches Some(o) ==> o.len() <= MAX_BLOCK_DECOMPRESSED && o.len() >= out.len(),
    decreases total - j,
{
    if j < total && out.len() < MAX_BLOCK_DECOMPRESSED {
        lemma_copy_match_bounded(out.push(match_byte(out, mp, j)), mp, j + 1, total);
    }
}

/// The token machine never yields more than [`MAX_BLOCK_DECOMPRESSED`] bytes.
pub proof fn lemma_lz_run_bounded(
    data: Seq<u8>,
    end: int,
    src: int,
    out: Seq<u8>,
    table: Seq<usize>,
    control: u32,
    lit: u32,
    prev: u32,
)
    requires
        out.len() <= MAX_BLOCK_DECOMPRESSED,
    ensures
        lz_run(data, end, src, out, table, control, lit, prev) matches Some(o) ==> o.len() <= MAX_BLOCK_DECOMPRESSED,
    decreases end - src,
{
    if src >= end {
    } else if control == 1 {
        if src + 1 < end {
            lemma_lz_run_bounded(data, end, src + 2, out, table, control_word(data, src), lit, prev);
        }
    } else if control & 1 != 0 {
        if src + 1 < end {
            let b0 = data[src];
            let b1 = data[src + 1];
            let slot = token_slot(b0, b1);
            let total = 3 + (b0 & 0x0F) as int;
            let ms = out.len() as int;
            lemma_copy_match_bounded(out, table[slot], 0, total);
            match copy_match(out, table[slot], 0, total) {
                None => {},
                Some(out2) => {
                    let t2 = table_after_run(out2, table, ms, lit, prev);
                    let (lit2, prev2) = if lit > 0 { (0u32, 0u32) } else { (lit, prev) };
                    lemma_lz_run_bounded(data, end, src + 2, out2, t2.update(slot, ms as usize), control >> 1u32, lit2, prev2);
                },
            }
        }
    } else if out.len() < MAX_BLOCK_DECOMPRESSED {
        let out2 = out.push(data[src]);
        let lit1 = (lit + 1) as u32;
        if lit1 == 3 {
            let pos = out2.len() - 3;
            lemma_lz_run_bounded(data, end, src + 1, out2, table.update(hash_at(out2, pos), pos as usize), control >> 1u32, 2, 2);
        } else {
            lemma_lz_run_bounded(data, end, src + 1, out2, table, control >> 1u32, lit1, lit1);
        }
    }
}

/// Every hash slot is one of the 4096 slots of the table.
proof fn lemma_hash_in_table(b0: u32, b1: u32, b2: u32)
    ensures
        spec_hash(b0, b1, b2) < FASTLZ_HASH_SIZE,
{
    let prod: u32 = ((24993 * hash_input(b0, b1, b2) as nat) % 0x1_0000_0000) as u32;
    let neg: u32 = if prod == 0 { 0 } else { (0x1_0000_0000 - prod) as u32 };
    assert((neg >> 4u32) & 0xFFFu32 < 4096) by (bit_vector);
}

/// The first byte of a three-byte back-reference token to slot `s`: the
/// slot's high four bits in its high nibble, length code 0.
pub open spec fn ref_token_hi(s: u32) -> u8 {
    ((s >> 8u32) << 4u32) as u8
}

/// The second byte of a back-reference token to slot `s`: its low eight bits.
pub open spec fn ref_token_lo(s: u32) -> u8 {
    (s & 0xFFu32) as u8
}

/// A token pair made by `ref_token_hi` and `ref_token_lo` names slot `s`
/// and a copy of three bytes.
proof fn lemma_ref_token(s: u32)
    requires
        s < 4096,
    ensures
        token_slot(ref_token_hi(s), ref_token_lo(s)) == s,
        ref_token_hi(s) & 0x0Fu8 == 0,
{
    let hi = ref_token_hi(s);
    let lo = ref_token_lo(s);
    assert(((lo as usize) | (((hi & 0xF0u8) as usize) << 4usize)) == s as usize) by (bit_vector)
        requires
            s < 4096,
            hi == ((s >> 8u32) << 4u32) as u8,
            lo == (s & 0xFFu32) as u8;
    assert(hi & 0x0Fu8 == 0) by (bit_vector)
        requires
            hi == ((s >> 8u32) << 4u32) as u8;
}

/// Copying three bytes from an earlier position `mp` appends the three
/// bytes found there.
proof fn lemma_copy_three(out: Seq<u8>, mp: usize)
    requires
        mp + 2 < out.len(),
        out.len() + 3 <= MAX_BLOCK_DECOMPRESSED,
        mp != EMPTY_SLOT,
    ensures
        copy_match(out, mp, 0, 3) == Some(out + seq![out[mp as int], out[mp + 1], out[mp + 2]]),
{
    let o1 = out.push(out[mp as int]);
    let o2 = o1.push(out[mp + 1]);
    let o3 = o2.push(out[mp + 2]);
    assert(match_byte(out, mp, 0) == out[mp as int]);
    assert(match_byte(o1, mp, 1) == out[mp + 1]);
    assert(match_byte(o2, mp, 2) == out[mp + 2]);
    assert(copy_match(o3, mp, 3, 3) == Some(o3));
    assert(copy_match(o2, mp, 2, 3) == Some(o3));
    assert(copy_match(o1, mp, 1, 3) == Some(o3));
    assert(o3 =~= out + seq![out[mp as int], out[mp + 1], out[mp + 2]]);
}

/// A FastLZ block of three literals `x0 x1 x2` followed by two three-byte
/// back-references, to the slots `s1` and `s2`.
pub open spec fn literals_then_two_refs(x0: u8, x1: u8, x2: u8, s1: u32, s2: u32) -> Seq<u8> {
    seq![
        0u8, 0u8, 0u8, 0u8, 0x18u8, 0x00u8, x0, x1, x2, ref_token_hi(s1), ref_token_lo(s1), ref_token_hi(s2),
        ref_token_lo(s2),
    ]
}

/// The hash slot of the three bytes `a b c`.
pub open spec fn slot_of(a: u8, b: u8, c: u8) -> u32 {
    spec_hash(a as u32, b as u32, c as u32)
}

/// The hash table after three literals `x0 x1 x2` and a back-reference to
/// their slot.
spec fn first_ref_table(x0: u8, x1: u8, x2: u8) -> Seq<usize> {
    empty_table().update(slot_of(x0, x1, x2) as int, 0usize).update(slot_of(x1, x2, x0) as int, 1usize).update(
        slot_of(x2, x0, x1) as int,
        2usize,
    ).update(slot_of(x0, x1, x2) as int, 3usize)
}

/// Decoding the first three literals and the first reference of
/// `literals_then_two_refs`.
proof fn lemma_literals_and_first_ref(x0: u8, x1: u8, x2: u8, s2: u32)
    ensures
        spec_decompress(literals_then_two_refs(x0, x1, x2, slot_of(x0, x1, x2), s2), 13) == lz_run(
            literals_then_two_refs(x0, x1, x2, slot_of(x0, x1, x2), s2),
            13,
            11,
            seq![x0, x1, x2, x0, x1, x2],
            first_ref_table(x0, x1, x2),
            0x1001,
            0,
            0,
        ),
{
    let h012 = slot_of(x0, x1, x2);
    let h120 = slot_of(x1, x2, x0);
    let h201 = slot_of(x2, x0, x1);
    lemma_hash_in_table(x0 as u32, x1 as u32, x2 as u32);
    lemma_ref_token(h012);
    assert(0x10018u32 & 1u32 == 0 && 0x10018u32 >> 1u32 == 0x800Cu32 && 0x800Cu32 & 1u32 == 0
        && 0x800Cu32 >> 1u32 == 0x4006u32 && 0x4006u32 & 1u32 == 0 && 0x4006u32 >> 1u32 == 0x2003u32
        && 0x2003u32 & 1u32 != 0 && 0x2003u32 >> 1u32 == 0x1001u32) by (bit_vector);
    assert((0x18u8 as u32) | ((0x00u8 as u32) << 8u32) | 0x1_0000u32 == 0x10018u32) by (bit_vector);
    let e = empty_table();
    let o1 = seq![x0];
    let o2 = seq![x0, x1];
    let o3 = seq![x0, x1, x2];
    let o6 = seq![x0, x1, x2, x0, x1, x2];
    assert(o1 =~= Seq::<u8>::empty().push(x0));
    assert(o2 =~= o1.push(x1));
    assert(o3 =~= o2.push(x2));
    assert(hash_at(o3, 0) == h012);
    let t1 = e.update(h012 as int, 0usize);
    lemma_copy_three(o3, 0);
    assert(o3 + seq![o3[0], o3[1], o3[2]] =~= o6);
    assert(hash_at(o6, 1) == h120);
    assert(hash_at(o6, 2) == h201);
    assert(table_after_run(o6, t1, 3, 2, 2) == t1.update(h120 as int, 1usize).update(h201 as int, 2usize));
    let t3 = first_ref_table(x0, x1, x2);
    assert(t1[h012 as int] == 0);
    let d = literals_then_two_refs(x0, x1, x2, h012, s2);
    assert(d[0] == 0 && d[4] == 0x18 && d[5] == 0 && d[6] == x0 && d[7] == x1 && d[8] == x2);
    assert(d[9] == ref_token_hi(h012) && d[10] == ref_token_lo(h012));
    assert(control_word(d, 4) == 0x10018u32);
    assert(lz_run(d, 13, 4, Seq::empty(), e, 1, 0, 0) == lz_run(d, 13, 6, Seq::empty(), e, 0x10018, 0, 0));
    assert(lz_run(d, 13, 6, Seq::empty(), e, 0x10018, 0, 0) == lz_run(d, 13, 7, o1, e, 0x800C, 1, 1));
    assert(lz_run(d, 13, 7, o1, e, 0x800C, 1, 1) == lz_run(d, 13, 8, o2, e, 0x4006, 2, 2));
    assert(lz_run(d, 13, 8, o2, e, 0x4006, 2, 2) == lz_run(d, 13, 9, o3, t1, 0x2003, 2, 2));
    assert(token_slot(d[9], d[10]) == h012);
    assert(lz_run(d, 13, 9, o3, t1, 0x2003, 2, 2) == lz_run(d, 13, 11, o6, t3, 0x1001, 0, 0));
}

/// Decoding a second reference whose slot holds position `mp` of the six
/// bytes decoded so far appends the three bytes from `mp`.
proof fn lemma_second_ref(x0: u8, x1: u8, x2: u8, s2: u32, mp: usize)
    requires
        s2 < 4096,
        mp + 2 < 6,
        first_ref_table(x0, x1, x2)[s2 as int] == mp,
    ensures
        spec_decompress(literals_then_two_refs(x0, x1, x2, slot_of(x0, x1, x2), s2), 13) == Some(
            seq![x0, x1, x2, x0, x1, x2] + seq![
                seq![x0, x1, x2, x0, x1, x2][mp as int],
                seq![x0, x1, x2, x0, x1, x2][mp + 1],
                seq![x0, x1, x2, x0, x1, x2][mp + 2],
            ],
        ),
{
    let o6 = seq![x0, x1, x2, x0, x1, x2];
    let t3 = first_ref_table(x0, x1, x2);
    let d = literals_then_two_refs(x0, x1, x2, slot_of(x0, x1, x2), s2);
    lemma_literals_and_first_ref(x0, x1, x2, s2);
    lemma_ref_token(s2);
    assert(0x1001u32 & 1u32 != 0 && 0x1001u32 >> 1u32 == 0x800u32) by (bit_vector);
    assert(d[11] == ref_token_hi(s2) && d[12] == ref_token_lo(s2));
    assert(token_slot(d[11], d[12]) == s2);
    lemma_copy_three(o6, mp);
    let o9 = o6 + seq![o6[mp as int], o6[mp + 1], o6[mp + 2]];
    assert(table_after_run(o9, t3, 6, 0, 0) == t3);
    assert(lz_run(d, 13, 11, o6, t3, 0x1001, 0, 0) == lz_run(d, 13, 13, o9, t3.update(s2 as int, 6usize), 0x800, 0, 0));
}

/// Back-references resolve through the windows the decoder has recorded.
/// After three literals `x0 x1 x2`, a reference to the slot of `x0 x1 x2`
/// repeats them; it ends a run of two literals, so the windows starting at
/// the last two literals, `x1 x2 x0` and `x2 x0 x1`, are recorded at
/// positions 1 and 2, and a following reference to either slot copies that
/// window (when no later recording took its slot).
pub proof fn lemma_refs_after_literal_run(x0: u8, x1: u8, x2: u8)
    ensures
        slot_of(x2, x0, x1) != slot_of(x0, x1, x2) ==> spec_decompress(
            literals_then_two_refs(x0, x1, x2, slot_of(x0, x1, x2), slot_of(x2, x0, x1)),
            13,
        ) == Some(seq![x0, x1, x2, x0, x1, x2, x2, x0, x1]),
        slot_of(x1, x2, x0) != slot_of(x0, x1, x2) && slot_of(x1, x2, x0) != slot_of(x2, x0, x1) ==> spec_decompress(
            literals_then_two_refs(x0, x1, x2, slot_of(x0, x1, x2), slot_of(x1, x2, x0)),
            13,
        ) == Some(seq![x0, x1, x2, x0, x1, x2, x1, x2, x0]),
{
    let h012 = slot_of(x0, x1, x2);
    let h120 = slot_of(x1, x2, x0);
    let h201 = slot_of(x2, x0, x1);
    lemma_hash_in_table(x0 as u32, x1 as u32, x2 as u32);
    lemma_hash_in_table(x1 as u32, x2 as u32, x0 as u32);
    lemma_hash_in_table(x2 as u32, x0 as u32, x1 as u32);
    let o6 = seq![x0, x1, x2, x0, x1, x2];
    let t3 = first_ref_table(x0, x1, x2);
    if h201 != h012 {
        assert(t3[h201 as int] == 2);
        lemma_second_ref(x0, x1, x2, h201, 2);
        assert(o6 + seq![o6[2], o6[3], o6[4]] =~= seq![x0, x1, x2, x0, x1, x2, x2, x0, x1]);
    }
    if h120 != h012 && h120 != h201 {
        assert(t3[h120 as int] == 1);
        lemma_second_ref(x0, x1, x2, h120, 1);
        assert(o6 + seq![o6[1], o6[2], o6[3]] =~= seq![x0, x1, x2, x0, x1, x2, x1, x2, x0]);
    }
}

/// Append a back-reference of `total` bytes to position `mp` onto `out`.
/// Returns false, leaving a partial output, when the output would grow past
/// [`MAX_BLOCK_DECOMPRESSED`].
fn copy_back_reference(out: &mut Vec<u8>, mp: usize, total: usize) -> (ok: bool)
    requires
        total <= 18,
        old(out)@.len() <= MAX_BLOCK_DECOMPRESSED,
        mp == EMPTY_SLOT || mp <= old(out)@.len(),
    ensures
        ok <==> copy_match(old(out)@, mp, 0, total as int) is Some,
        ok ==> copy_match(old(out)@, mp, 0, total as int) == Some(final(out)@),
        ok ==> final(out)@.len() <= MAX_BLOCK_DECOMPRESSED,
        final(out)@.len() >= old(out)@.len(),
{
    let ghost out0 = out@;
    let ghost copied = copy_match(out0, mp, 0, total as int);
    let mut j: usize = 0;
    while j < total
        invariant
            j <= total <= 18,
            out0 == old(out)@,
            out0.len() <= out@.len() <= MAX_BLOCK_DECOMPRESSED,
            mp == EMPTY_SLOT || mp <= out0.len(),
            copied == copy_match(out0, mp, 0, total as int),
            copied == copy_match(out@, mp, j as int, total as int),
        decreases total - j,
    {
        if out.len() >= MAX_BLOCK_DECOMPRESSED {
            return false;
        }
        let byte: u8 = if mp == EMPTY_SLOT {
            if j < 18 {
                (0x30 + (j + 1) % 10) as u8
            } else {
                0
            }
        } else if mp + j < out.len() {
            out[mp + j]
        } else {
            0
        };
        assert(byte == match_byte(out@, mp, j as int));
        out.push(byte);
        j += 1;
    }
    true
}

/// Decompress one FastLZ (Z1) block.
///
/// `data` holds the block payload; `comp_len` is the number of valid bytes
/// in it. A block whose first byte is 1 is stored verbatim after a 4-byte
/// prefix; any other block is a stream of 16-bit control words, literals
/// and back-references starting at byte 4. The output is capped at
/// [`MAX_BLOCK_DECOMPRESSED`] bytes.
pub fn decompress(data: &[u8], comp_len: usize) -> (r: Result<Vec<u8>>)
    ensures
        match spec_decompress(data@, comp_len as int) {
            Some(o) => r matches Ok(v) && v@ == o,
            None => r matches Err(Error::FastLz { offset: 0, .. }),
        },
        r matches Ok(v) ==> v@.len() <= MAX_BLOCK_DECOMPRESSED,
{
    if comp_len == 0 || data.len() < comp_len {
        return Err(Error::fastlz(0, "truncated compressed block"));
    }
    if data[0] == 1 {
        if comp_len < 4 {
            return Err(Error::fastlz(0, "corrupt uncompressed block"));
        }
        let n = comp_len - 4;
        if n > MAX_BLOCK_DECOMPRESSED {
            return Err(Error::fastlz(0, "uncompressed block length exceeds the output cap"));
        }
        return Ok(copy_range(data, 4, comp_len));
    }
    let mut table: Vec<usize> = Vec::new();
    let mut k: usize = 0;
    while k < FASTLZ_HASH_SIZE
        invariant
            k <= FASTLZ_HASH_SIZE,
            table@.len() == k,
            forall|i: int| 0 <= i < k ==> table@[i] == EMPTY_SLOT,
        decreases FASTLZ_HASH_SIZE - k,
    {
        table.push(EMPTY_SLOT);
        k += 1;
    }
    assert(table@ =~= empty_table());
    let mut out: Vec<u8> = Vec::new();
    let mut src: usize = 4;
    let src_end = comp_len;
    let mut control: u32 = 1;
    let mut lit: u32 = 0;
    let mut prev: u32 = 0;
    let ghost whole = spec_decompress(data@, comp_len as int);
    while src < src_end
        invariant
            src_end == comp_len,
            comp_len <= data@.len(),
            data@[0] != 1,
            4 <= src,
            out@.len() <= MAX_BLOCK_DECOMPRESSED,
            table_ok(table@, out@.len() as int),
            lit <= 2,
            lit <= out@.len(),
            whole == spec_decompress(data@, comp_len as int),
            whole == lz_run(data@, src_end as int, src as int, out@, table@, control, lit, prev),
        ensures
            whole == Some(out@),
            out@.len() <= MAX_BLOCK_DECOMPRESSED,
            table_ok(table@, out@.len() as int),
            lit <= 2,
            lit <= out@.len(),
        decreases src_end - src,
    {
        if control == 1 {
            if src + 1 >= src_end {
                break;
            }
            control = (data[src] as u32) | ((data[src + 1] as u32) << 8u32) | 0x1_0000u32;
            src += 2;
            continue;
        }
        if control & 1 != 0 {
            if src + 1 >= src_end {
                break;
            }
            let b0 = data[src];
            let b1 = data[src + 1];
            let slot = (b1 as usize) | (((b0 & 0xF0u8) as usize) << 4usize);
            assert(slot < 4096) by (bit_vector)
                requires slot == (b1 as usize) | (((b0 & 0xF0u8) as usize) << 4usize);
            let extra = (b0 & 0x0Fu8) as usize;
            assert(extra <= 15) by (bit_vector) requires extra == (b0 & 0x0Fu8) as usize;
            let mp = table[slot];
            let ms = out.len();
            let total = 3 + extra;
            let ghost out0 = out@;
            if !copy_back_reference(&mut out, mp, total) {
                return Err(Error::fastlz(0, "decompressed output exceeds the cap"));
            }
            assert(copy_match(out0, mp, 0, total as int) == Some(out@));
            src += 2;
            let ghost t0 = table@;
            let ghost lit0 = lit;
            let ghost prev0 = prev;
            if lit > 0 {
                if ms >= lit as usize {
                    let pos = ms - lit as usize;
                    if pos + 2 < out.len() {
                        let h = fastlz_hash(out[pos] as u32, out[pos + 1] as u32, out[pos + 2] as u32);
                        table.set(h, pos);
                        if prev == 2 && pos + 3 < out.len() {
                            let h2 = fastlz_hash(out[pos + 1] as u32, out[pos + 2] as u32, out[pos + 3] as u32);
                            table.set(h2, pos + 1);
                        }
                    }
                }
                lit = 0;
                prev = 0;
            }
            assert(table@ == table_after_run(out@, t0, ms as int, lit0, prev0));
            table.set(slot, ms);
            control = control >> 1u32;
        } else {
            if out.len() >= MAX_BLOCK_DECOMPRESSED {
                return Err(Error::fastlz(0, "decompressed output exceeds the cap"));
            }
            lit = lit + 1;
            out.push(data[src]);
            src += 1;
            prev = lit;
            if lit == 3 {
                let pos = out.len() - 3;
                let h = fastlz_hash(out[pos] as u32, out[pos + 1] as u32, out[pos + 2] as u32);
                table.set(h, pos);
                lit = 2;
                prev = 2;
            }
            control = control >> 1u32;
        }
    }
    proof {
        lemma_lz_run_bounded(data@, src_end as int, src as int, out@, table@, control, lit, prev);
    }
    Ok(out)
}

} // verus!
