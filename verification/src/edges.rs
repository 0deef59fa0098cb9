//! The four edges of a grid cell, and the table that tells for every sign
//! pattern of the corners which of the edges the contour crosses.
//!
//! Corners are numbered row by row: 0 is top-left, 1 top-right, 2 bottom-left
//! and 3 bottom-right. A corner mask has bit `c` set when the sample at corner
//! `c` is positive; an edge field has bit `j` set when edge `j` is crossed.

use vstd::prelude::*;

verus! {

/// The two corners that each edge joins, in the order top, left, right, bottom.
pub const EDGE_CORNERS: [[u8; 2]; 4] = [[0, 1], [0, 2], [1, 3], [2, 3]];

/// Whether bit `i` of `bits` is set.
pub open spec fn bit_set(bits: u8, i: u8) -> bool {
    bits & (1u8 << i) != 0
}

/// The value whose only set bit is bit `i` if `on` holds, and zero otherwise.
pub open spec fn flag(on: bool, i: u8) -> u8 {
    if on {
        1u8 << i
    } else {
        0u8
    }
}

/// The four-bit value whose bits 0 to 3 are the given booleans.
pub open spec fn pack4(b0: bool, b1: bool, b2: bool, b3: bool) -> u8 {
    flag(b0, 0) | flag(b1, 1) | flag(b2, 2) | flag(b3, 3)
}

/// How many of the four low bits of `bits` are set.
pub open spec fn count4(bits: u8) -> nat {
    let n0: nat = if bit_set(bits, 0) { 1 } else { 0 };
    let n1: nat = if bit_set(bits, 1) { 1 } else { 0 };
    let n2: nat = if bit_set(bits, 2) { 1 } else { 0 };
    let n3: nat = if bit_set(bits, 3) { 1 } else { 0 };
    n0 + n1 + n2 + n3
}

/// An edge is crossed under a corner mask when its two corners differ in sign.
pub open spec fn edge_crossed(mask: u8, edge: int) -> bool {
    bit_set(mask, EDGE_CORNERS[edge][0]) != bit_set(mask, EDGE_CORNERS[edge][1])
}

/// The edge field of a corner mask: bit `j` is set exactly when edge `j` is
/// crossed.
pub open spec fn edge_bits(mask: u8) -> u8 {
    pack4(
        edge_crossed(mask, 0),
        edge_crossed(mask, 1),
        edge_crossed(mask, 2),
        edge_crossed(mask, 3),
    )
}

/// `pack4` fits in four bits and each of its bits is the boolean it was made of.
pub proof fn lemma_pack4_bits(b0: bool, b1: bool, b2: bool, b3: bool)
    by (bit_vector)
    ensures
        pack4(b0, b1, b2, b3) < 16,
        bit_set(pack4(b0, b1, b2, b3), 0) == b0,
        bit_set(pack4(b0, b1, b2, b3), 1) == b1,
        bit_set(pack4(b0, b1, b2, b3), 2) == b2,
        bit_set(pack4(b0, b1, b2, b3), 3) == b3,
{
}

/// Setting bit `i` of a packed value turns the `i`-th boolean on and leaves
/// the others as they were.
pub proof fn lemma_pack4_set(b0: bool, b1: bool, b2: bool, b3: bool, i: u8)
    by (bit_vector)
    requires
        i < 4,
    ensures
        pack4(b0, b1, b2, b3) | (1u8 << i) == pack4(
            b0 || i == 0,
            b1 || i == 1,
            b2 || i == 2,
            b3 || i == 3,
        ),
{
}

/// The only four-bit value without a set bit is zero.
pub proof fn lemma_zero_has_no_bits(bits: u8)
    by (bit_vector)
    requires
        bits < 16,
    ensures
        bits == 0 <==> !bit_set(bits, 0) && !bit_set(bits, 1) && !bit_set(bits, 2) && !bit_set(
            bits,
            3,
        ),
{
}

/// The edge field of any mask fits in four bits, and its bit `j` says whether
/// edge `j` is crossed.
pub proof fn lemma_edge_bits(mask: u8)
    ensures
        edge_bits(mask) < 16,
        forall|j: u8| j < 4 ==> #[trigger] bit_set(edge_bits(mask), j) == edge_crossed(mask, j as int),
{
    lemma_pack4_bits(
        edge_crossed(mask, 0),
        edge_crossed(mask, 1),
        edge_crossed(mask, 2),
        edge_crossed(mask, 3),
    );
}

/// Walking round a cell the sign changes an even number of times: a cell has
/// no crossed edge, or two, or four.
pub proof fn lemma_crossings_come_in_pairs(mask: u8)
    ensures
        count4(edge_bits(mask)) == 0 || count4(edge_bits(mask)) == 2 || count4(edge_bits(mask))
            == 4,
        count4(edge_bits(mask)) == 0 <==> edge_bits(mask) == 0,
{
    lemma_edge_bits(mask);
    lemma_zero_has_no_bits(edge_bits(mask));
    assert(bit_set(edge_bits(mask), 0) == edge_crossed(mask, 0));
    assert(bit_set(edge_bits(mask), 1) == edge_crossed(mask, 1));
    assert(bit_set(edge_bits(mask), 2) == edge_crossed(mask, 2));
    assert(bit_set(edge_bits(mask), 3) == edge_crossed(mask, 3));
}

/// A mask with no corner set, or with all four set, crosses no edge.
pub proof fn lemma_uniform_mask_crosses_nothing(mask: u8)
    requires
        mask == 0 || mask == 15,
    ensures
        edge_bits(mask) == 0,
{
    assert(forall|c: u8| c < 4 ==> !#[trigger] bit_set(0u8, c)) by (bit_vector);
    assert(forall|c: u8| c < 4 ==> #[trigger] bit_set(15u8, c)) by (bit_vector);
    assert(pack4(false, false, false, false) == 0) by (bit_vector);
}

/// Builds the table of edge fields, one entry for each of the sixteen corner
/// masks.
pub fn edge_bit_fields() -> (table: [u8; 16])
    ensures
        forall|m: int| 0 <= m < 16 ==> #[trigger] table[m] == edge_bits(m as u8),
{
    let mut table = [0u8; 16];
    let mut mask: u8 = 0;
    while mask < 16
        invariant
            mask <= 16,
            forall|m: int| 0 <= m < mask ==> #[trigger] table[m] == edge_bits(m as u8),
        decreases 16 - mask,
    {
        let mut edges: u8 = 0;
        let mut edge: u8 = 0;
        proof {
            assert(pack4(false, false, false, false) == 0) by (bit_vector);
        }
        while edge < 4
            invariant
                edge <= 4,
                edges == pack4(
                    edge > 0 && edge_crossed(mask, 0),
                    edge > 1 && edge_crossed(mask, 1),
                    edge > 2 && edge_crossed(mask, 2),
                    edge > 3 && edge_crossed(mask, 3),
                ),
            decreases 4 - edge,
        {
            let a = mask & (1u8 << EDGE_CORNERS[edge as usize][0]) > 0;
            let b = mask & (1u8 << EDGE_CORNERS[edge as usize][1]) > 0;
            if a != b {
                proof {
                    lemma_pack4_set(
                        edge > 0 && edge_crossed(mask, 0),
                        edge > 1 && edge_crossed(mask, 1),
                        edge > 2 && edge_crossed(mask, 2),
                        edge > 3 && edge_crossed(mask, 3),
                        edge,
                    );
                }
                edges = edges | (1u8 << edge);
            }
            edge += 1;
        }
        table[mask as usize] = edges;
        mask += 1;
    }
    table
}

/// The offsets of a corner within the unit cell: `u` along the row and `v`
/// down the column, each 0 or 1.
pub fn corner_uv(corner: u8) -> (uv: (u8, u8))
    requires
        corner < 4,
    ensures
        uv.0 == corner % 2,
        uv.1 == corner / 2,
{
    assert(corner & 1 == corner % 2 && (corner >> 1) & 1 == corner / 2) by (bit_vector)
        requires
            corner < 4,
    ;
    (corner & 1, (corner >> 1) & 1)
}

} // verus!
