use vstd::prelude::*;
use crate::rle::CELL_ALIVE;

verus! {

/// How one cell is drawn: two bytes, a star for a live cell.
pub open spec fn glyph(cell: u8) -> Seq<u8> {
    if cell == CELL_ALIVE {
        seq![42u8, 32u8]
    } else {
        seq![32u8, 32u8]
    }
}

/// The glyphs of a row's cells, left to right.
pub open spec fn glyphs(line: Seq<u8>) -> Seq<u8>
    decreases line.len(),
{
    if line.len() == 0 {
        Seq::empty()
    } else {
        glyphs(line.drop_last()) + glyph(line.last())
    }
}

/// A row as drawn on the terminal: its glyphs between two bars.
pub open spec fn framed_row(line: Seq<u8>) -> Seq<u8> {
    seq![124u8] + glyphs(line) + seq![124u8]
}

/// The text of one row of the grid, as ASCII bytes.
pub fn render_row(row: &Vec<u8>) -> (r: Vec<u8>)
    ensures
        r@ == framed_row(row@),
{
    let mut r: Vec<u8> = Vec::new();
    r.push(124u8);
    let mut j: usize = 0;
    while j < row.len()
        invariant
            j <= row.len(),
            r@ == seq![124u8] + glyphs(row@.take(j as int)),
        decreases row.len() - j,
    {
        let ghost before = r@;
        if row[j] == CELL_ALIVE {
            r.push(42u8);
        } else {
            r.push(32u8);
        }
        r.push(32u8);
        assert(row@.take(j + 1).drop_last() =~= row@.take(j as int));
        assert(r@ =~= before + glyph(row@[j as int]));
        j = j + 1;
    }
    assert(row@.take(j as int) =~= row@);
    r.push(124u8);
    r
}

} // verus!
