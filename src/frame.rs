//! The EM4100 frame after its header: 11 rows of 5 cells. Rows 0 to 9 hold
//! four data bits and an even row-parity bit; row 10 holds the even parity of
//! each data column and a stop bit.
use vstd::prelude::*;
use crate::tag::TagId;

verus! {

/// Cells per row: four data columns and one row-parity column.
pub const FRAME_COLS: usize = 5;

/// Rows after the header: ten data rows and one column-parity row.
pub const FRAME_ROWS: usize = 11;

/// Cells in a frame after its header.
pub const FRAME_CELLS: usize = 55;

pub open spec fn cell_bit(c: bool) -> u8 {
    if c {
        1
    } else {
        0
    }
}

/// Number of set cells among the first `n` cells of row `r`.
pub open spec fn row_sum(cells: Seq<bool>, r: int, n: nat) -> int
    decreases n,
{
    if n == 0 {
        0
    } else {
        row_sum(cells, r, (n - 1) as nat) + cell_bit(cells[r * 5 + n - 1]) as int
    }
}

/// Number of set cells among the first `n` rows of column `c`.
pub open spec fn col_sum(cells: Seq<bool>, c: int, n: nat) -> int
    decreases n,
{
    if n == 0 {
        0
    } else {
        col_sum(cells, c, (n - 1) as nat) + cell_bit(cells[(n - 1) * 5 + c]) as int
    }
}

/// A frame passes its checks: 55 cells, every data row of even parity, and
/// every data column (with its cell of the parity row) of even parity. The
/// fifth column holds the row-parity bits and the stop bit; the format puts
/// no parity on it.
pub open spec fn frame_parity_ok(cells: Seq<bool>) -> bool {
    &&& cells.len() == 55
    &&& forall|r: int| 0 <= r < 10 ==> #[trigger] row_sum(cells, r, 5) % 2 == 0
    &&& forall|c: int| 0 <= c < 4 ==> #[trigger] col_sum(cells, c, 11) % 2 == 0
}

/// Data bit `k` (0 to 39) of the frame: row `k / 4`, column `k % 4`.
pub open spec fn data_cell(cells: Seq<bool>, k: int) -> bool {
    cells[(k / 4) * 5 + k % 4]
}

/// The first `n` data bits of output byte `j`, most significant first.
pub open spec fn packed_byte(cells: Seq<bool>, j: int, n: nat) -> u8
    decreases n,
{
    if n == 0 {
        0
    } else {
        ((packed_byte(cells, j, (n - 1) as nat) << 1u8) | cell_bit(data_cell(cells, 8 * j + n - 1)))
    }
}

/// The five bytes a frame carries: two data rows per byte.
pub open spec fn frame_tag(cells: Seq<bool>) -> Seq<u8> {
    Seq::new(5, |j: int| packed_byte(cells, j, 8))
}

/// What decoding a frame yields.
pub open spec fn frame_decoding(cells: Seq<bool>) -> Option<Seq<u8>> {
    if frame_parity_ok(cells) {
        Some(frame_tag(cells))
    } else {
        None
    }
}

fn to_bit(c: bool) -> (r: u8)
    ensures
        r == cell_bit(c),
{
    if c {
        1
    } else {
        0
    }
}

/// Checks the row and column parity of a frame.
pub fn check_frame_parity(cells: &[bool]) -> (r: bool)
    ensures
        r == frame_parity_ok(cells@),
{
    if cells.len() != FRAME_CELLS {
        return false;
    }
    let mut row: usize = 0;
    while row < 10
        invariant
            cells@.len() == 55,
            row <= 10,
            forall|r: int| 0 <= r < row ==> #[trigger] row_sum(cells@, r, 5) % 2 == 0,
        decreases 10 - row,
    {
        let mut odd = false;
        let mut col: usize = 0;
        while col < FRAME_COLS
            invariant
                cells@.len() == 55,
                row < 10,
                col <= 5,
                odd == (row_sum(cells@, row as int, col as nat) % 2 == 1),
            decreases 5 - col,
        {
            odd = odd != cells[row * FRAME_COLS + col];
            col = col + 1;
        }
        if odd {
            return false;
        }
        row = row + 1;
    }
    let mut col: usize = 0;
    while col < 4
        invariant
            cells@.len() == 55,
            col <= 4,
            forall|r: int| 0 <= r < 10 ==> #[trigger] row_sum(cells@, r, 5) % 2 == 0,
            forall|c: int| 0 <= c < col ==> #[trigger] col_sum(cells@, c, 11) % 2 == 0,
        decreases 4 - col,
    {
        let mut odd = false;
        let mut r: usize = 0;
        while r < FRAME_ROWS
            invariant
                cells@.len() == 55,
                col < 4,
                r <= 11,
                odd == (col_sum(cells@, col as int, r as nat) % 2 == 1),
            decreases 11 - r,
        {
            odd = odd != cells[r * FRAME_COLS + col];
            r = r + 1;
        }
        if odd {
            return false;
        }
        col = col + 1;
    }
    true
}

/// Packs the 40 data bits of a frame into five bytes.
pub fn pack_frame(cells: &[bool]) -> (t: TagId)
    requires
        cells@.len() == 55,
    ensures
        t@ == frame_tag(cells@),
{
    let mut buf: TagId = [0u8; 5];
    let mut k: usize = 0;
    while k < 40
        invariant
            cells@.len() == 55,
            k <= 40,
            forall|j: int| 0 <= j < k / 8 ==> buf[j] == packed_byte(cells@, j, 8),
            k < 40 ==> buf[(k / 8) as int] == packed_byte(cells@, (k / 8) as int, (k % 8) as nat),
            forall|j: int| k / 8 < j < 5 ==> buf[j] == 0,
        decreases 40 - k,
    {
        let j = k / 8;
        let bit = to_bit(cells[(k / 4) * FRAME_COLS + k % 4]);
        buf[j] = (buf[j] << 1u8) | bit;
        assert(buf[j as int] == packed_byte(cells@, j as int, (k % 8 + 1) as nat));
        k = k + 1;
        assert(k < 40 && k % 8 == 0 ==> buf[(k / 8) as int] == 0 && packed_byte(cells@, (k / 8) as int, 0) == 0);
    }
    assert(buf@ =~= frame_tag(cells@));
    buf
}

/// Decodes a frame: its five bytes when every parity check holds, else
/// `None`.
pub fn decode_frame(cells: &[bool]) -> (r: Option<TagId>)
    ensures
        match r {
            Some(t) => frame_decoding(cells@) == Some(t@),
            None => frame_decoding(cells@).is_none(),
        },
{
    if check_frame_parity(cells) {
        Some(pack_frame(cells))
    } else {
        None
    }
}


/// Bit `k` (0 to 39) of a tag, most significant bit of byte 0 first.
pub open spec fn tag_bit(tag: Seq<u8>, k: int) -> bool {
    (tag[k / 8] >> ((7 - k % 8) as u8)) & 1u8 == 1u8
}

/// Number of set bits among the first `n` data bits of row `r` of a tag.
pub open spec fn tag_row_sum(tag: Seq<u8>, r: int, n: nat) -> int
    decreases n,
{
    if n == 0 {
        0
    } else {
        tag_row_sum(tag, r, (n - 1) as nat) + cell_bit(tag_bit(tag, r * 4 + n - 1)) as int
    }
}

/// Number of set bits among the first `n` rows of data column `c` of a tag.
pub open spec fn tag_col_sum(tag: Seq<u8>, c: int, n: nat) -> int
    decreases n,
{
    if n == 0 {
        0
    } else {
        tag_col_sum(tag, c, (n - 1) as nat) + cell_bit(tag_bit(tag, (n - 1) * 4 + c)) as int
    }
}

/// The cell at row `r`, column `c` of the frame that carries `tag`.
pub open spec fn encoded_cell(tag: Seq<u8>, r: int, c: int) -> bool {
    if r < 10 {
        if c < 4 {
            tag_bit(tag, r * 4 + c)
        } else {
            tag_row_sum(tag, r, 4) % 2 == 1
        }
    } else {
        if c < 4 {
            tag_col_sum(tag, c, 10) % 2 == 1
        } else {
            false
        }
    }
}

/// The EM4100 frame (after its header) that carries a 5-byte tag.
pub open spec fn encode_frame(tag: Seq<u8>) -> Seq<bool> {
    Seq::new(55, |i: int| encoded_cell(tag, i / 5, i % 5))
}

proof fn lemma_encoded_rows(tag: Seq<u8>, r: int, n: nat)
    requires
        tag.len() == 5,
        0 <= r < 10,
        n <= 4,
    ensures
        row_sum(encode_frame(tag), r, n) == tag_row_sum(tag, r, n),
    decreases n,
{
    if n > 0 {
        lemma_encoded_rows(tag, r, (n - 1) as nat);
        let i = r * 5 + n - 1;
        assert(i / 5 == r && i % 5 == n - 1);
    }
}

proof fn lemma_encoded_cols(tag: Seq<u8>, c: int, n: nat)
    requires
        tag.len() == 5,
        0 <= c < 4,
        n <= 10,
    ensures
        col_sum(encode_frame(tag), c, n) == tag_col_sum(tag, c, n),
    decreases n,
{
    if n > 0 {
        lemma_encoded_cols(tag, c, (n - 1) as nat);
        let i = (n - 1) * 5 + c;
        assert(i / 5 == n - 1 && i % 5 == c);
    }
}

proof fn lemma_byte_from_bits(b: u8)
    ensures
        b == ((((((((((((((((0u8 << 1u8) | cell_bit((b >> 7u8) & 1u8 == 1u8)) << 1u8) | cell_bit(
            (b >> 6u8) & 1u8 == 1u8,
        )) << 1u8) | cell_bit((b >> 5u8) & 1u8 == 1u8)) << 1u8) | cell_bit(
            (b >> 4u8) & 1u8 == 1u8,
        )) << 1u8) | cell_bit((b >> 3u8) & 1u8 == 1u8)) << 1u8) | cell_bit(
            (b >> 2u8) & 1u8 == 1u8,
        )) << 1u8) | cell_bit((b >> 1u8) & 1u8 == 1u8)) << 1u8) | cell_bit(
            (b >> 0u8) & 1u8 == 1u8,
        )),
{
    assert(b == ((((((((((((((((0u8 << 1u8) | (if (b >> 7u8) & 1u8 == 1u8 { 1u8 } else { 0u8 }))
        << 1u8) | (if (b >> 6u8) & 1u8 == 1u8 { 1u8 } else { 0u8 })) << 1u8) | (if (b >> 5u8)
        & 1u8 == 1u8 { 1u8 } else { 0u8 })) << 1u8) | (if (b >> 4u8) & 1u8 == 1u8 { 1u8 } else {
        0u8 })) << 1u8) | (if (b >> 3u8) & 1u8 == 1u8 { 1u8 } else { 0u8 })) << 1u8) | (if (b
        >> 2u8) & 1u8 == 1u8 { 1u8 } else { 0u8 })) << 1u8) | (if (b >> 1u8) & 1u8 == 1u8 { 1u8 }
    else { 0u8 })) << 1u8) | (if (b >> 0u8) & 1u8 == 1u8 { 1u8 } else { 0u8 }))) by (bit_vector);
}

proof fn lemma_encoded_byte(tag: Seq<u8>, j: int)
    requires
        tag.len() == 5,
        0 <= j < 5,
    ensures
        packed_byte(encode_frame(tag), j, 8) == tag[j],
{
    let f = encode_frame(tag);
    assert forall|k: int| 8 * j <= k < 8 * j + 8 implies #[trigger] data_cell(f, k) == tag_bit(tag, k) by {
        let p = (k / 4) * 5 + k % 4;
        assert(p / 5 == k / 4 && p % 5 == k % 4);
        assert(k / 4 < 10 && k % 4 < 4);
        assert((k / 4) * 4 + k % 4 == k);
    }
    assert(tag_bit(tag, 8 * j + 0) == ((tag[j] >> 7u8) & 1u8 == 1u8));
    assert(tag_bit(tag, 8 * j + 1) == ((tag[j] >> 6u8) & 1u8 == 1u8));
    assert(tag_bit(tag, 8 * j + 2) == ((tag[j] >> 5u8) & 1u8 == 1u8));
    assert(tag_bit(tag, 8 * j + 3) == ((tag[j] >> 4u8) & 1u8 == 1u8));
    assert(tag_bit(tag, 8 * j + 4) == ((tag[j] >> 3u8) & 1u8 == 1u8));
    assert(tag_bit(tag, 8 * j + 5) == ((tag[j] >> 2u8) & 1u8 == 1u8));
    assert(tag_bit(tag, 8 * j + 6) == ((tag[j] >> 1u8) & 1u8 == 1u8));
    assert(tag_bit(tag, 8 * j + 7) == ((tag[j] >> 0u8) & 1u8 == 1u8));
    assert(data_cell(f, 8 * j + 0) == tag_bit(tag, 8 * j + 0));
    assert(data_cell(f, 8 * j + 1) == tag_bit(tag, 8 * j + 1));
    assert(data_cell(f, 8 * j + 2) == tag_bit(tag, 8 * j + 2));
    assert(data_cell(f, 8 * j + 3) == tag_bit(tag, 8 * j + 3));
    assert(data_cell(f, 8 * j + 4) == tag_bit(tag, 8 * j + 4));
    assert(data_cell(f, 8 * j + 5) == tag_bit(tag, 8 * j + 5));
    assert(data_cell(f, 8 * j + 6) == tag_bit(tag, 8 * j + 6));
    assert(data_cell(f, 8 * j + 7) == tag_bit(tag, 8 * j + 7));
    lemma_byte_from_bits(tag[j]);
    reveal_with_fuel(packed_byte, 9);
}

/// Every correctly encoded frame passes its parity checks and decodes to
/// the five bytes it carries.
pub proof fn lemma_encoded_frame_decodes(tag: Seq<u8>)
    requires
        tag.len() == 5,
    ensures
        frame_decoding(encode_frame(tag)) == Some(tag),
{
    let f = encode_frame(tag);
    assert forall|r: int| 0 <= r < 10 implies #[trigger] row_sum(f, r, 5) % 2 == 0 by {
        lemma_encoded_rows(tag, r, 4);
        let i = r * 5 + 4;
        assert(i / 5 == r && i % 5 == 4);
    }
    assert forall|c: int| 0 <= c < 4 implies #[trigger] col_sum(f, c, 11) % 2 == 0 by {
        lemma_encoded_cols(tag, c, 10);
        let i = 50 + c;
        assert(i / 5 == 10 && i % 5 == c);
    }
    assert forall|j: int| 0 <= j < 5 implies frame_tag(f)[j] == tag[j] by {
        lemma_encoded_byte(tag, j);
    }
    assert(frame_tag(f) =~= tag);
}

proof fn lemma_row_sum_one_change(s: Seq<bool>, t: Seq<bool>, k: int, r: int, n: nat)
    requires
        s.len() == 55,
        t.len() == 55,
        0 <= k < 55,
        0 <= r < 11,
        n <= 5,
        forall|i: int| 0 <= i < 55 && i != k ==> s[i] == t[i],
    ensures
        row_sum(t, r, n) - row_sum(s, r, n) == if r * 5 <= k < r * 5 + n {
            cell_bit(t[k]) as int - cell_bit(s[k]) as int
        } else {
            0
        },
    decreases n,
{
    if n > 0 {
        lemma_row_sum_one_change(s, t, k, r, (n - 1) as nat);
    }
}

proof fn lemma_col_sum_one_change(s: Seq<bool>, t: Seq<bool>, k: int, c: int, n: nat)
    requires
        s.len() == 55,
        t.len() == 55,
        0 <= k < 55,
        0 <= c < 5,
        n <= 11,
        forall|i: int| 0 <= i < 55 && i != k ==> s[i] == t[i],
    ensures
        col_sum(t, c, n) - col_sum(s, c, n) == if k % 5 == c && k / 5 < n {
            cell_bit(t[k]) as int - cell_bit(s[k]) as int
        } else {
            0
        },
    decreases n,
{
    if n > 0 {
        lemma_col_sum_one_change(s, t, k, c, (n - 1) as nat);
        let i = (n - 1) * 5 + c;
        assert(i == k <==> (k % 5 == c && k / 5 == n - 1));
    }
}

proof fn lemma_flip_breaks_parity(f: Seq<bool>, k: int)
    requires
        frame_parity_ok(f),
        0 <= k < 54,
    ensures
        !frame_parity_ok(f.update(k, !f[k])),
{
    let g = f.update(k, !f[k]);
    if k / 5 < 10 {
        let r = k / 5;
        lemma_row_sum_one_change(f, g, k, r, 5);
        assert(row_sum(f, r, 5) % 2 == 0);
    } else {
        let c = k % 5;
        lemma_col_sum_one_change(f, g, k, c, 11);
        assert(col_sum(f, c, 11) % 2 == 0);
    }
}

/// Flipping any single cell of a correctly encoded frame that a parity
/// check covers (every cell but the stop bit, the last one) makes decoding
/// fail.
pub proof fn lemma_single_flip_rejected(tag: Seq<u8>, k: int)
    requires
        tag.len() == 5,
        0 <= k < 54,
    ensures
        frame_decoding(encode_frame(tag).update(k, !encode_frame(tag)[k])).is_none(),
{
    lemma_encoded_frame_decodes(tag);
    lemma_flip_breaks_parity(encode_frame(tag), k);
}

} // verus!
