//! Lays a generation out as text lines: a header naming the generation
//! number, then the grid bounded by a border of dashes, one byte row per
//! grid row, each live cell marked `#` wrapped in the ANSI red-highlight
//! escape sequence and each dead cell a blank.

use vstd::prelude::*;
use crate::grid::grid_wf;

verus! {

/// Escape, `[`, `|`, `+`, `-`, blank, `=` and the letters of the header.
pub const BYTE_ESC: u8 = 27;

pub const BYTE_LBRACKET: u8 = 91;

pub const BYTE_BAR: u8 = 124;

pub const BYTE_CORNER: u8 = 43;

pub const BYTE_DASH: u8 = 45;

pub const BYTE_BLANK: u8 = 32;

pub const BYTE_EQUALS: u8 = 61;

pub const BYTE_MARK: u8 = 35;

pub const BYTE_MINUS_SIGN: u8 = 45;

/// The bytes standing for one live cell: `#` wrapped in the ANSI escape
/// sequences that switch red highlighting on and off.
pub open spec fn alive_marker() -> Seq<u8> {
    seq![BYTE_ESC, BYTE_LBRACKET, 51u8, 49u8, 109u8, BYTE_MARK, BYTE_ESC, BYTE_LBRACKET, 48u8, 109u8]
}

/// The bytes standing for one cell: the alive marker, or one blank.
pub open spec fn cell_bytes(state: i32) -> Seq<u8> {
    if state != 0 {
        alive_marker()
    } else {
        seq![BYTE_BLANK]
    }
}

/// The opening `|` of a grid row followed by the bytes of its first `n`
/// cells.
pub open spec fn row_bytes_to(row: Seq<i32>, n: int) -> Seq<u8>
    decreases n,
{
    if n <= 0 {
        seq![BYTE_BAR]
    } else {
        row_bytes_to(row, n - 1) + cell_bytes(row[n - 1])
    }
}

/// One grid row as bytes: `|`, the bytes of its `width` cells, `|`.
pub open spec fn row_bytes(row: Seq<i32>, width: int) -> Seq<u8> {
    row_bytes_to(row, width).push(BYTE_BAR)
}

/// The opening `+` of a border followed by `n` dashes.
pub open spec fn border_to(n: int) -> Seq<u8>
    decreases n,
{
    if n <= 0 {
        seq![BYTE_CORNER]
    } else {
        border_to(n - 1).push(BYTE_DASH)
    }
}

/// A border line: `+`, `width` dashes, `+`.
pub open spec fn border_bytes(width: int) -> Seq<u8> {
    border_to(width).push(BYTE_CORNER)
}

/// The decimal digits of `n`, most significant first; empty when `n <= 0`.
pub open spec fn dec_rec(n: int) -> Seq<u8>
    decreases n,
{
    if n <= 0 {
        Seq::empty()
    } else {
        dec_rec(n / 10).push((48 + n % 10) as u8)
    }
}

/// A signed integer in decimal: its digits, with a leading `-` when it is
/// negative and the single digit `0` when it is zero.
pub open spec fn dec_bytes(n: int) -> Seq<u8> {
    if n == 0 {
        seq![48u8]
    } else if n > 0 {
        dec_rec(n)
    } else {
        seq![BYTE_MINUS_SIGN] + dec_rec(-n)
    }
}

/// The bytes of `generation = ` (the letters g e n e r a t i o n, a blank,
/// `=`, a blank).
pub open spec fn header_prefix() -> Seq<u8> {
    seq![103u8, 101u8, 110u8, 101u8, 114u8, 97u8, 116u8, 105u8, 111u8, 110u8, BYTE_BLANK, BYTE_EQUALS, BYTE_BLANK]
}

/// The header line: `generation = ` followed by the generation number in
/// decimal.
pub open spec fn header_bytes(generation: int) -> Seq<u8> {
    header_prefix() + dec_bytes(generation)
}

/// Writes the generation number in decimal after the header prefix.
fn header_line(generation: i32) -> (r: Vec<u8>)
    ensures
        r@ == header_bytes(generation as int),
{
    let mut r: Vec<u8> = Vec::new();
    r.push(103);
    r.push(101);
    r.push(110);
    r.push(101);
    r.push(114);
    r.push(97);
    r.push(116);
    r.push(105);
    r.push(111);
    r.push(110);
    r.push(BYTE_BLANK);
    r.push(BYTE_EQUALS);
    r.push(BYTE_BLANK);
    proof {
        assert(r@ =~= header_prefix());
    }
    if generation == 0 {
        r.push(48);
        proof {
            assert(r@ =~= header_prefix() + dec_bytes(generation as int));
        }
        return r;
    }
    if generation < 0 {
        r.push(BYTE_MINUS_SIGN);
        proof {
            assert(r@ =~= header_prefix() + seq![BYTE_MINUS_SIGN]);
        }
    }
    let mut m: u64 = if generation < 0 {
        (-(generation as i64)) as u64
    } else {
        generation as u64
    };
    let ghost m0 = m as int;
    let mut digits: Vec<u8> = Vec::new();
    proof {
        assert(dec_rec(m as int) + digits@ =~= dec_rec(m0));
    }
    while m > 0
        invariant
            m >= 0,
            dec_rec(m as int) + digits@ == dec_rec(m0),
        decreases m,
    {
        let d: u8 = (m % 10) as u8;
        let ghost pre = digits@;
        digits.insert(0, 48 + d);
        proof {
            assert(digits@ =~= seq![(48 + d) as u8] + pre);
            assert(dec_rec(m as int) == dec_rec(m as int / 10).push((48 + m as int % 10) as u8));
            assert(dec_rec(m as int / 10).push((48 + d) as u8) + pre =~= dec_rec(m as int / 10) + (
            seq![(48 + d) as u8] + pre));
        }
        m = m / 10;
    }
    proof {
        assert(digits@ =~= dec_rec(m0));
    }
    let mut j: usize = 0;
    let ghost pre_r = r@;
    while j < digits.len()
        invariant
            j <= digits@.len(),
            r@ == pre_r + digits@.take(j as int),
        decreases digits@.len() - j,
    {
        r.push(digits[j]);
        proof {
            assert(pre_r + digits@.take(j as int) + seq![digits@[j as int]] =~= pre_r
                + digits@.take(j + 1));
        }
        j += 1;
    }
    proof {
        assert(digits@.take(digits@.len() as int) =~= digits@);
        assert(r@ =~= header_prefix() + dec_bytes(generation as int));
    }
    r
}

/// Writes a border line of `width` dashes between corners.
fn make_border(width: usize) -> (r: Vec<u8>)
    ensures
        r@ == border_bytes(width as int),
{
    let mut r: Vec<u8> = Vec::new();
    r.push(BYTE_CORNER);
    proof {
        assert(r@ =~= border_to(0));
    }
    for x in 0..width
        invariant
            r@ == border_to(x as int),
    {
        r.push(BYTE_DASH);
    }
    r.push(BYTE_CORNER);
    r
}

/// Writes one grid row between bars, each cell as its bytes.
fn make_row(width: usize, row: &Vec<i32>) -> (r: Vec<u8>)
    requires
        row@.len() == width,
    ensures
        r@ == row_bytes(row@, width as int),
{
    let mut r: Vec<u8> = Vec::new();
    r.push(BYTE_BAR);
    proof {
        assert(r@ =~= row_bytes_to(row@, 0));
    }
    for x in 0..width
        invariant
            row@.len() == width,
            r@ == row_bytes_to(row@, x as int),
    {
        let ghost pre = r@;
        if row[x] != 0 {
            r.push(BYTE_ESC);
            r.push(BYTE_LBRACKET);
            r.push(51);
            r.push(49);
            r.push(109);
            r.push(BYTE_MARK);
            r.push(BYTE_ESC);
            r.push(BYTE_LBRACKET);
            r.push(48);
            r.push(109);
        } else {
            r.push(BYTE_BLANK);
        }
        proof {
            assert(r@ =~= pre + cell_bytes(row@[x as int]));
        }
    }
    r.push(BYTE_BAR);
    r
}

/// Lays the generation out as `height + 3` text lines: the header naming the
/// generation number, a border, each grid row between bars with live cells
/// marked and dead cells blank, and a closing border.
pub fn my_print_cells(generation: i32, height: usize, width: usize, cell: &Vec<Vec<i32>>) -> (out:
    Vec<Vec<u8>>)
    requires
        grid_wf(height as int, width as int, cell.deep_view()),
        height <= usize::MAX - 3,
    ensures
        out.deep_view().len() == height + 3,
        out.deep_view()[0] == header_bytes(generation as int),
        out.deep_view()[1] == border_bytes(width as int),
        forall|y: int|
            0 <= y < height ==> out.deep_view()[y + 2] == row_bytes(
                cell.deep_view()[y],
                width as int,
            ),
        out.deep_view()[height + 2] == border_bytes(width as int),
{
    let mut out: Vec<Vec<u8>> = Vec::new();
    let header = header_line(generation);
    let ghost header_view = header@;
    out.push(header);
    let border = make_border(width);
    let ghost border_view = border@;
    out.push(border);
    proof {
        assert(out.deep_view() =~~= seq![header_view, border_view]);
    }
    for y in 0..height
        invariant
            grid_wf(height as int, width as int, cell.deep_view()),
            out.deep_view().len() == y + 2,
            out.deep_view()[0] == header_bytes(generation as int),
            out.deep_view()[1] == border_bytes(width as int),
            forall|i: int|
                0 <= i < y ==> out.deep_view()[i + 2] == row_bytes(
                    cell.deep_view()[i],
                    width as int,
                ),
    {
        proof {
            assert(cell@[y as int]@ =~= cell.deep_view()[y as int]);
        }
        let line = make_row(width, &cell[y]);
        let ghost pre = out.deep_view();
        let ghost line_view = line@;
        out.push(line);
        proof {
            assert(out.deep_view() =~~= pre.push(line_view));
        }
    }
    let closing = make_border(width);
    let ghost pre = out.deep_view();
    let ghost closing_view = closing@;
    out.push(closing);
    proof {
        assert(out.deep_view() =~~= pre.push(closing_view));
    }
    out
}

} // verus!
