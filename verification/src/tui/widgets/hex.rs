//! Text of the hex+ASCII viewer: 16 bytes per row, an 8-digit offset, the
//! bytes as hex pairs with a gap after the eighth, and the printable ASCII
//! characters (`.` for the others).

use vstd::prelude::*;

use crate::text::{hex_padded, push_hex};

verus! {

/// Bytes per row of the viewer.
pub const BYTES_PER_ROW: usize = 16;

/// One row of the viewer: offset column, hex column and ASCII column.
#[derive(Debug, Clone)]
pub struct HexRow {
    pub offset: String,
    pub hex: String,
    pub ascii: String,
}

/// The number of rows `len` bytes take: `len / 16` rounded up.
pub open spec fn spec_row_count(len: int) -> int {
    (len + 15) / 16
}

/// Total number of rows the data occupies.
pub fn row_count(data_len: usize) -> (r: usize)
    ensures
        r == spec_row_count(data_len as int),
{
    data_len / 16 + if data_len % 16 == 0 { 0 } else { 1 }
}

/// The hex column of a row holding `chunk`: a space and two hex digits per
/// byte, one more space before the ninth byte.
pub open spec fn hex_bytes(chunk: Seq<u8>) -> Seq<char>
    decreases chunk.len(),
{
    if chunk.len() == 0 {
        Seq::empty()
    } else {
        hex_bytes(chunk.drop_last()) + (if chunk.len() - 1 == 8 { seq![' '] } else { Seq::empty() })
            + seq![' '] + hex_padded(chunk.last() as nat, 2)
    }
}

/// `n` copies of three spaces.
pub open spec fn blank_cells(n: nat) -> Seq<char>
    decreases n,
{
    if n == 0 {
        Seq::empty()
    } else {
        blank_cells((n - 1) as nat) + seq![' ', ' ', ' ']
    }
}

/// The full hex column: the bytes, padding for the missing ones, and one
/// more space when there are at most eight bytes.
pub open spec fn hex_column(chunk: Seq<u8>) -> Seq<char> {
    hex_bytes(chunk) + blank_cells((16 - chunk.len()) as nat) + (if chunk.len() <= 8 { seq![' '] } else { Seq::empty() })
}

/// The character shown for byte `b`: itself when printable ASCII, else `.`.
pub open spec fn ascii_char(b: u8) -> char {
    if 0x20 <= b < 0x7f {
        b as char
    } else {
        '.'
    }
}

/// The ASCII column of a row holding `chunk`.
pub open spec fn ascii_column(chunk: Seq<u8>) -> Seq<char> {
    Seq::new(chunk.len(), |i: int| ascii_char(chunk[i]))
}

/// The first row shown when the view starts at byte `scroll`: the row of
/// that byte, or the last row when it is past the end.
pub open spec fn first_row(len: int, scroll: int) -> int {
    let total = spec_row_count(len);
    if scroll / 16 >= total {
        if total > 0 { total - 1 } else { 0 }
    } else {
        scroll / 16
    }
}

/// The bytes of row `r`.
pub open spec fn row_chunk(data: Seq<u8>, r: int) -> Seq<u8> {
    let start = r * 16;
    let end = if start + 16 < data.len() { start + 16 } else { data.len() as int };
    data.subrange(start, end)
}

/// Row `r` of the viewer over `data`.
pub open spec fn row_text(row: HexRow, data: Seq<u8>, r: int) -> bool {
    &&& row.offset@ == hex_padded((r * 16) as nat, 8)
    &&& row.hex@ == hex_column(row_chunk(data, r))
    &&& row.ascii@ == ascii_column(row_chunk(data, r))
}

/// The hex column of the first `k` bytes grows one byte at a time.
proof fn lemma_hex_bytes_step(chunk: Seq<u8>, k: int)
    requires
        0 <= k < chunk.len(),
    ensures
        hex_bytes(chunk.subrange(0, k + 1)) == hex_bytes(chunk.subrange(0, k))
            + (if k == 8 { seq![' '] } else { Seq::<char>::empty() }) + seq![' '] + hex_padded(chunk[k] as nat, 2),
{
    let s = chunk.subrange(0, k + 1);
    assert(s.drop_last() =~= chunk.subrange(0, k));
    assert(s.last() == chunk[k]);
}

/// Build one row of the viewer over `data`.
fn build_row(data: &[u8], r: usize) -> (row: HexRow)
    requires
        r * 16 < data@.len(),
    ensures
        row_text(row, data@, r as int),
{
    let n = data.len();
    let start = r * 16;
    let end = if n - start > 16 { start + 16 } else { n };
    let ghost chunk = data@.subrange(start as int, end as int);
    assert(chunk =~= row_chunk(data@, r as int));
    let mut offset = String::new();
    push_hex(&mut offset, start as u64, 8);
    let mut hex = String::new();
    let mut ascii = String::new();
    let mut i: usize = start;
    while i < end
        invariant
            start <= i <= end <= data@.len(),
            end - start <= 16,
            chunk == data@.subrange(start as int, end as int),
            hex@ == hex_bytes(chunk.subrange(0, i - start)),
            ascii@ == ascii_column(chunk.subrange(0, i - start)),
        decreases end - i,
    {
        let b = data[i];
        proof {
            lemma_hex_bytes_step(chunk, i - start);
        }
        if i - start == 8 {
            hex.push(' ');
        }
        hex.push(' ');
        push_hex(&mut hex, b as u64, 2);
        let c: char = if 0x20 <= b && b < 0x7f { b as char } else { '.' };
        ascii.push(c);
        proof {
            assert(ascii@ =~= ascii_column(chunk.subrange(0, i + 1 - start)));
        }
        i += 1;
    }
    assert(chunk.subrange(0, (end - start) as int) =~= chunk);
    let mut pad: usize = 0;
    let missing = 16 - (end - start);
    while pad < missing
        invariant
            pad <= missing,
            hex@ == hex_bytes(chunk) + blank_cells(pad as nat),
        decreases missing - pad,
    {
        hex.push(' ');
        hex.push(' ');
        hex.push(' ');
        pad += 1;
        assert(hex@ =~= hex_bytes(chunk) + blank_cells(pad as nat));
    }
    if end - start <= 8 {
        hex.push(' ');
    }
    assert(hex@ =~= hex_column(chunk));
    HexRow { offset, hex, ascii }
}

/// The rows shown for `data` in a viewport of `max_rows` rows starting at
/// byte `scroll`: from the row of that byte (the last row when it is past
/// the end) for at most `max_rows` rows. `width` does not change the text.
pub fn build_hex_lines(data: &[u8], scroll: usize, max_rows: usize, width: u16) -> (rows: Vec<HexRow>)
    ensures
        ({
            let total = spec_row_count(data@.len() as int);
            let first = first_row(data@.len() as int, scroll as int);
            let shown = if total - first < max_rows { total - first } else { max_rows as int };
            &&& rows@.len() == shown
            &&& forall|k: int| 0 <= k < rows@.len() ==> row_text(#[trigger] rows@[k], data@, first + k)
        }),
{
    let total = row_count(data.len());
    let mut start_row = scroll / 16;
    if start_row >= total {
        start_row = if total > 0 { total - 1 } else { 0 };
    }
    let end_row = if total - start_row < max_rows { total } else { start_row + max_rows };
    let mut rows: Vec<HexRow> = Vec::new();
    let mut r = start_row;
    while r < end_row
        invariant
            start_row <= r <= end_row <= total,
            total == spec_row_count(data@.len() as int),
            rows@.len() == r - start_row,
            forall|k: int| 0 <= k < rows@.len() ==> row_text(#[trigger] rows@[k], data@, start_row + k),
        decreases end_row - r,
    {
        assert(r * 16 < data@.len()) by (nonlinear_arith)
            requires
                r < total,
                total == (data@.len() + 15) / 16,
        ;
        rows.push(build_row(data, r));
        r += 1;
    }
    rows
}

} // verus!
