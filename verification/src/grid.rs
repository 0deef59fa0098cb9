//! The sign field: which samples of a row-major grid are positive, and what
//! that makes of each cell.
//!
//! A field of `width` by `height` samples has a cell for every block of two by
//! two neighbouring samples. Cell `(x, y)` has its corners at the grid points
//! `(x, y)`, `(x + 1, y)`, `(x, y + 1)` and `(x + 1, y + 1)`, in that order.
//! The field is a sequence of booleans, one for each sample, telling whether
//! the sample is positive. A position beyond the end of the sequence reads as
//! not positive.

use crate::edges::{
    bit_set, corner_uv, edge_bits, edge_crossed, lemma_edge_bits, lemma_pack4_bits,
    lemma_pack4_set, pack4, EDGE_CORNERS,
};
use vstd::prelude::*;

verus! {

/// Whether the sample at position `i` is positive.
pub open spec fn sample_positive(signs: Seq<bool>, i: int) -> bool {
    0 <= i < signs.len() && signs[i]
}

/// The position in the field of the sample at a corner of cell `(x, y)`.
pub open spec fn corner_index(width: int, x: int, y: int, corner: int) -> int {
    x + corner % 2 + (y + corner / 2) * width
}

/// Whether the sample at a corner of cell `(x, y)` is positive.
pub open spec fn corner_positive(signs: Seq<bool>, width: int, x: int, y: int, corner: int) -> bool {
    sample_positive(signs, corner_index(width, x, y, corner))
}

/// The corner mask of cell `(x, y)`: bit `c` is set exactly when the sample at
/// corner `c` is positive.
pub open spec fn corner_mask(signs: Seq<bool>, width: int, x: int, y: int) -> u8 {
    pack4(
        corner_positive(signs, width, x, y, 0),
        corner_positive(signs, width, x, y, 1),
        corner_positive(signs, width, x, y, 2),
        corner_positive(signs, width, x, y, 3),
    )
}

/// The edge field of cell `(x, y)`: bit `j` is set exactly when edge `j` of
/// the cell is crossed.
pub open spec fn cell_edges(signs: Seq<bool>, width: int, x: int, y: int) -> u8 {
    edge_bits(corner_mask(signs, width, x, y))
}

/// A cell is active when at least one of its edges is crossed.
pub open spec fn cell_active(signs: Seq<bool>, width: int, x: int, y: int) -> bool {
    cell_edges(signs, width, x, y) != 0
}

/// The number of cells along an axis that has `n` samples.
pub open spec fn cells_along(n: int) -> int {
    if n >= 1 {
        n - 1
    } else {
        0
    }
}

/// The edge field of a cell fits in four bits, and edge `j` is in it exactly
/// when the samples at the two corners of the edge differ in sign.
pub proof fn lemma_cell_edges(signs: Seq<bool>, width: int, x: int, y: int)
    ensures
        cell_edges(signs, width, x, y) < 16,
        forall|j: u8|
            j < 4 ==> #[trigger] bit_set(cell_edges(signs, width, x, y), j) == (corner_positive(
                signs,
                width,
                x,
                y,
                EDGE_CORNERS[j as int][0] as int,
            ) != corner_positive(signs, width, x, y, EDGE_CORNERS[j as int][1] as int)),
{
    let mask = corner_mask(signs, width, x, y);
    lemma_edge_bits(mask);
    lemma_pack4_bits(
        corner_positive(signs, width, x, y, 0),
        corner_positive(signs, width, x, y, 1),
        corner_positive(signs, width, x, y, 2),
        corner_positive(signs, width, x, y, 3),
    );
    assert forall|j: u8| j < 4 implies #[trigger] bit_set(cell_edges(signs, width, x, y), j) == (
    corner_positive(signs, width, x, y, EDGE_CORNERS[j as int][0] as int) != corner_positive(
        signs,
        width,
        x,
        y,
        EDGE_CORNERS[j as int][1] as int,
    )) by {
        assert(bit_set(edge_bits(mask), j) == edge_crossed(mask, j as int));
    }
}

/// The top edge of a cell is the bottom edge of the cell above it: where the
/// one is crossed, so is the other.
pub proof fn lemma_top_edge_shared(signs: Seq<bool>, width: int, x: int, y: int)
    ensures
        bit_set(cell_edges(signs, width, x, y), 0) == bit_set(
            cell_edges(signs, width, x, y - 1),
            3,
        ),
        bit_set(cell_edges(signs, width, x, y), 0) ==> cell_active(signs, width, x, y - 1),
{
    lemma_cell_edges(signs, width, x, y);
    lemma_cell_edges(signs, width, x, y - 1);
    assert(corner_index(width, x, y - 1, 2) == corner_index(width, x, y, 0));
    assert(corner_index(width, x, y - 1, 3) == corner_index(width, x, y, 1));
    assert(bit_set(0u8, 3) == false) by (bit_vector);
}

/// The left edge of a cell is the right edge of the cell before it in the
/// row: where the one is crossed, so is the other.
pub proof fn lemma_left_edge_shared(signs: Seq<bool>, width: int, x: int, y: int)
    ensures
        bit_set(cell_edges(signs, width, x, y), 1) == bit_set(
            cell_edges(signs, width, x - 1, y),
            2,
        ),
        bit_set(cell_edges(signs, width, x, y), 1) ==> cell_active(signs, width, x - 1, y),
{
    lemma_cell_edges(signs, width, x, y);
    lemma_cell_edges(signs, width, x - 1, y);
    assert(corner_index(width, x - 1, y, 1) == corner_index(width, x, y, 0));
    assert(corner_index(width, x - 1, y, 3) == corner_index(width, x, y, 2));
    assert(bit_set(0u8, 2) == false) by (bit_vector);
}

/// Reads the sign of the sample at position `i`. A position outside the
/// field reads as not positive.
pub fn sample_at(signs: &[bool], i: u32) -> (positive: bool)
    ensures
        positive == sample_positive(signs@, i as int),
{
    signs.get(i as usize).cloned().unwrap_or_default()
}

/// Computes the position in the field of the sample at a corner of cell
/// `(x, y)`.
pub fn sample_index(width: u16, x: u16, y: u16, corner: u8) -> (i: u32)
    requires
        x < u16::MAX,
        y < u16::MAX,
        corner < 4,
    ensures
        i == corner_index(width as int, x as int, y as int, corner as int),
{
    let (u, v) = corner_uv(corner);
    let row: u32 = y as u32 + v as u32;
    assert(row * width <= 0xFFFF * 0xFFFF) by (nonlinear_arith)
        requires
            row <= 0xFFFF,
            width <= 0xFFFF,
    ;
    x as u32 + u as u32 + row * (width as u32)
}

/// Classifies cell `(x, y)`: reads the four corner samples and builds the
/// corner mask.
pub fn corner_mask_at(signs: &[bool], width: u16, x: u16, y: u16) -> (mask: u8)
    requires
        x < u16::MAX,
        y < u16::MAX,
    ensures
        mask == corner_mask(signs@, width as int, x as int, y as int),
{
    let mut mask: u8 = 0;
    let mut corner: u8 = 0;
    proof {
        assert(pack4(false, false, false, false) == 0) by (bit_vector);
    }
    while corner < 4
        invariant
            corner <= 4,
            x < u16::MAX,
            y < u16::MAX,
            mask == pack4(
                corner > 0 && corner_positive(signs@, width as int, x as int, y as int, 0),
                corner > 1 && corner_positive(signs@, width as int, x as int, y as int, 1),
                corner > 2 && corner_positive(signs@, width as int, x as int, y as int, 2),
                corner > 3 && corner_positive(signs@, width as int, x as int, y as int, 3),
            ),
        decreases 4 - corner,
    {
        if sample_at(signs, sample_index(width, x, y, corner)) {
            proof {
                lemma_pack4_set(
                    corner > 0 && corner_positive(signs@, width as int, x as int, y as int, 0),
                    corner > 1 && corner_positive(signs@, width as int, x as int, y as int, 1),
                    corner > 2 && corner_positive(signs@, width as int, x as int, y as int, 2),
                    corner > 3 && corner_positive(signs@, width as int, x as int, y as int, 3),
                    corner,
                );
            }
            mask = mask | (1u8 << corner);
        }
        corner += 1;
    }
    mask
}

} // verus!
