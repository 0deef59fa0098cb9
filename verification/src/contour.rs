//! The extraction: one pass over the cells, row by row, which gives every
//! active cell a vertex and joins it to the vertices of the cell above and of
//! the cell to the left wherever the edge between the two is crossed.

use crate::edges::{bit_set, edge_bit_fields, edge_bits, lemma_pack4_bits};
use crate::grid::{
    cell_active, cell_edges, cells_along, corner_index, corner_mask_at, corner_positive,
    lemma_left_edge_shared, lemma_top_edge_shared, sample_index,
};
use crate::index_map::{lookup, record};
use crate::laws::lemma_mesh_before_wf;
use crate::mesh::{CellSamples, GeometryData, Mesh, VertexStencil};
use nohash_hasher::IntMap;
use vstd::prelude::*;

verus! {

/// The number of active cells that the pass meets before it reaches cell
/// `(x, y)`. For an active cell this is the place of its vertex among the
/// vertices.
pub open spec fn active_before(signs: Seq<bool>, width: int, x: int, y: int) -> nat
    decreases y, x,
{
    if x > 0 {
        active_before(signs, width, x - 1, y) + if cell_active(signs, width, x - 1, y) {
            1nat
        } else {
            0nat
        }
    } else if y > 0 {
        active_before(signs, width, cells_along(width), y - 1)
    } else {
        0
    }
}

/// The index that stands for the vertex at the given place. Places beyond
/// the largest index are all given index 0.
pub open spec fn index_of(place: int) -> u16 {
    if 0 <= place <= u16::MAX {
        place as u16
    } else {
        0
    }
}

/// The positions of the corner samples of cell `(x, y)`.
pub open spec fn cell_samples(width: int, x: int, y: int) -> CellSamples {
    CellSamples {
        s0: corner_index(width, x, y, 0) as u32,
        s1: corner_index(width, x, y, 1) as u32,
        s2: corner_index(width, x, y, 2) as u32,
        s3: corner_index(width, x, y, 3) as u32,
    }
}

/// The vertex that cell `(x, y)` emits if it is active.
pub open spec fn cell_vertex(signs: Seq<bool>, width: int, x: int, y: int) -> VertexStencil {
    VertexStencil {
        x: x as u16,
        y: y as u16,
        edges: cell_edges(signs, width, x, y),
        samples: cell_samples(width, x, y),
    }
}

/// The segment from the vertex of cell `(x, y)` to that of the cell above it,
/// present when the cell is not in the first row and its top edge is crossed.
pub open spec fn top_stitch(signs: Seq<bool>, width: int, x: int, y: int) -> Seq<u16> {
    if y != 0 && bit_set(cell_edges(signs, width, x, y), 0) {
        seq![
            index_of(active_before(signs, width, x, y) as int),
            index_of(active_before(signs, width, x, y - 1) as int),
        ]
    } else {
        Seq::empty()
    }
}

/// The segment from the vertex of cell `(x, y)` to that of the cell to its
/// left, present when the cell is not in the first column and its left edge
/// is crossed.
pub open spec fn left_stitch(signs: Seq<bool>, width: int, x: int, y: int) -> Seq<u16> {
    if x != 0 && bit_set(cell_edges(signs, width, x, y), 1) {
        seq![
            index_of(active_before(signs, width, x, y) as int),
            index_of(active_before(signs, width, x - 1, y) as int),
        ]
    } else {
        Seq::empty()
    }
}

/// The mesh after the pass has visited cell `(x, y)`: unchanged if the cell
/// is not active, and else with the vertex and the normal of the cell and
/// its stitches, top before left.
pub open spec fn emit_cell(mesh: Mesh, signs: Seq<bool>, width: int, x: int, y: int) -> Mesh {
    if cell_active(signs, width, x, y) {
        Mesh {
            vertices: mesh.vertices.push(cell_vertex(signs, width, x, y)),
            normals: mesh.normals.push(cell_samples(width, x, y)),
            indices: mesh.indices + top_stitch(signs, width, x, y) + left_stitch(
                signs,
                width,
                x,
                y,
            ),
        }
    } else {
        mesh
    }
}

/// The mesh as it stands when the pass reaches cell `(x, y)`: all the rows
/// above row `y` and the cells of row `y` before column `x` have been
/// visited.
pub open spec fn mesh_before(signs: Seq<bool>, width: int, x: int, y: int) -> Mesh
    decreases y, x,
{
    if x > 0 {
        emit_cell(mesh_before(signs, width, x - 1, y), signs, width, x - 1, y)
    } else if y > 0 {
        mesh_before(signs, width, cells_along(width), y - 1)
    } else {
        Mesh::empty()
    }
}

/// The contour mesh of a field of `width` by `height` samples.
pub open spec fn contour(signs: Seq<bool>, width: int, height: int) -> Mesh {
    mesh_before(signs, width, 0, cells_along(height))
}

/// The key under which cell `(x, y)` is recorded: its place in the field.
pub open spec fn cell_key(width: int, x: int, y: int) -> int {
    x + y * width
}

/// Whether the pass has gone through cell `(cx, cy)` when it reaches cell
/// `(x, y)`, in a field whose rows hold `width` samples.
pub open spec fn visited(width: int, cx: int, cy: int, x: int, y: int) -> bool {
    &&& 0 <= cx < cells_along(width)
    &&& 0 <= cy
    &&& cy < y || (cy == y && cx < x)
}

/// Whether the map holds, under the key of cell `(cx, cy)`, the index of the
/// vertex of that cell.
pub open spec fn recorded(
    map: Map<u32, u16>,
    signs: Seq<bool>,
    width: int,
    cx: int,
    cy: int,
) -> bool {
    &&& map.contains_key(cell_key(width, cx, cy) as u32)
    &&& map[cell_key(width, cx, cy) as u32] == index_of(
        active_before(signs, width, cx, cy) as int,
    )
}

/// Whether the map holds the index of the vertex of every active cell that
/// the pass has visited when it reaches cell `(x, y)`.
pub open spec fn all_recorded(
    map: Map<u32, u16>,
    signs: Seq<bool>,
    width: int,
    x: int,
    y: int,
) -> bool {
    forall|cx: int, cy: int|
        visited(width, cx, cy, x, y) && cell_active(signs, width, cx, cy) ==> #[trigger] recorded(
            map,
            signs,
            width,
            cx,
            cy,
        )
}

/// Two different cells of a grid have different keys, and every key fits in
/// 32 bits.
pub proof fn lemma_cell_keys(width: int, cx: int, cy: int, x: int, y: int)
    requires
        0 <= width <= u16::MAX,
        0 <= cx < cells_along(width),
        0 <= x < cells_along(width),
        0 <= cy <= u16::MAX,
        0 <= y <= u16::MAX,
    ensures
        0 <= cell_key(width, cx, cy) <= u32::MAX,
        0 <= cell_key(width, x, y) <= u32::MAX,
        (cx != x || cy != y) ==> cell_key(width, cx, cy) != cell_key(width, x, y),
{
    assert(0 <= y * width <= 0xFFFF * 0xFFFF) by (nonlinear_arith)
        requires
            0 <= y <= 0xFFFF,
            0 <= width <= 0xFFFF,
    ;
    assert(0 <= cy * width <= 0xFFFF * 0xFFFF) by (nonlinear_arith)
        requires
            0 <= cy <= 0xFFFF,
            0 <= width <= 0xFFFF,
    ;
    if cy < y {
        assert((cy + 1) * width <= y * width) by (nonlinear_arith)
            requires
                cy + 1 <= y,
                0 <= width,
        ;
        assert((cy + 1) * width == cy * width + width) by (nonlinear_arith);
    } else if y < cy {
        assert((y + 1) * width <= cy * width) by (nonlinear_arith)
            requires
                y + 1 <= cy,
                0 <= width,
        ;
        assert((y + 1) * width == y * width + width) by (nonlinear_arith);
    }
}

/// Once the pass has dealt with cell `(x, y)`, the map holds the index of
/// every active cell up to and with that cell: the cell was either not
/// active, and the map is as it was, or its index has been put into the map
/// under its key.
proof fn lemma_recorded_after_cell(
    before: Map<u32, u16>,
    after: Map<u32, u16>,
    signs: Seq<bool>,
    width: int,
    x: int,
    y: int,
)
    requires
        0 <= width <= u16::MAX,
        0 <= x < cells_along(width),
        0 <= y <= u16::MAX,
        all_recorded(before, signs, width, x, y),
        if cell_active(signs, width, x, y) {
            after == before.insert(
                cell_key(width, x, y) as u32,
                index_of(active_before(signs, width, x, y) as int),
            )
        } else {
            after == before
        },
    ensures
        all_recorded(after, signs, width, x + 1, y),
{
    assert forall|cx: int, cy: int|
        visited(width, cx, cy, x + 1, y) && cell_active(
            signs,
            width,
            cx,
            cy,
        ) implies #[trigger] recorded(after, signs, width, cx, cy) by {
        lemma_cell_keys(width, cx, cy, x, y);
        if cx != x || cy != y {
            assert(recorded(before, signs, width, cx, cy));
        }
    }
}

/// What holds at the end of a row holds at the start of the next.
proof fn lemma_recorded_after_row(map: Map<u32, u16>, signs: Seq<bool>, width: int, y: int)
    requires
        all_recorded(map, signs, width, cells_along(width), y),
    ensures
        all_recorded(map, signs, width, 0, y + 1),
{
    assert forall|cx: int, cy: int|
        visited(width, cx, cy, 0, y + 1) && cell_active(
            signs,
            width,
            cx,
            cy,
        ) implies #[trigger] recorded(map, signs, width, cx, cy) by {
        assert(visited(width, cx, cy, cells_along(width), y));
    }
}

/// Computes the key of cell `(x, y)`.
fn grid_key(width: u16, x: u16, y: u16) -> (key: u32)
    requires
        x < cells_along(width as int),
    ensures
        key == cell_key(width as int, x as int, y as int),
{
    assert(y * width <= 0xFFFF * 0xFFFF) by (nonlinear_arith)
        requires
            y <= 0xFFFF,
            width <= 0xFFFF,
    ;
    x as u32 + y as u32 * width as u32
}

/// Computes the positions of the corner samples of cell `(x, y)`.
fn cell_samples_at(width: u16, x: u16, y: u16) -> (samples: CellSamples)
    requires
        x < u16::MAX,
        y < u16::MAX,
    ensures
        samples == cell_samples(width as int, x as int, y as int),
{
    CellSamples {
        s0: sample_index(width, x, y, 0),
        s1: sample_index(width, x, y, 1),
        s2: sample_index(width, x, y, 2),
        s3: sample_index(width, x, y, 3),
    }
}

/// Extracts the contour mesh of a sign field.
///
/// `signs` holds, row by row, whether each sample of a field of `width` by
/// `height` samples is positive. Every cell with a crossed edge gets one
/// vertex, in the order of the pass, and one segment for each crossed edge
/// that it shares with the cell above or with the cell to the left. A field
/// with fewer than two samples along an axis has no cell and gives the empty
/// mesh.
pub fn get_geometry_data(signs: &[bool], width: u16, height: u16) -> (mesh: GeometryData)
    ensures
        mesh@ == contour(signs@, width as int, height as int),
{
    let table = edge_bit_fields();
    let mut vertices: Vec<VertexStencil> = Vec::new();
    let mut normals: Vec<CellSamples> = Vec::new();
    let mut indices: Vec<u16> = Vec::new();
    let mut grid_indices = IntMap::<u32, u16>::default();
    let cols: u16 = if width >= 1 { width - 1 } else { 0 };
    let rows: u16 = if height >= 1 { height - 1 } else { 0 };
    let ghost w = width as int;

    let mut y: u16 = 0;
    while y < rows
        invariant
            w == width as int,
            cols == cells_along(w),
            y <= rows,
            forall|m: int| 0 <= m < 16 ==> #[trigger] table[m] == edge_bits(m as u8),
            (Mesh { vertices: vertices@, normals: normals@, indices: indices@ }) == mesh_before(
                signs@,
                w,
                0,
                y as int,
            ),
            vertices@.len() == active_before(signs@, w, 0, y as int),
            all_recorded(grid_indices@, signs@, w, 0, y as int),
        decreases rows - y,
    {
        let mut x: u16 = 0;
        while x < cols
            invariant
                w == width as int,
                cols == cells_along(w),
                x <= cols,
                y < rows,
                forall|m: int|
                    0 <= m < 16 ==> #[trigger] table[m] == edge_bits(m as u8),
                (Mesh { vertices: vertices@, normals: normals@, indices: indices@ })
                    == mesh_before(signs@, w, x as int, y as int),
                vertices@.len() == active_before(signs@, w, x as int, y as int),
                all_recorded(grid_indices@, signs@, w, x as int, y as int),
            decreases cols - x,
        {
            let mask = corner_mask_at(signs, width, x, y);
            proof {
                lemma_pack4_bits(
                    corner_positive(signs@, w, x as int, y as int, 0),
                    corner_positive(signs@, w, x as int, y as int, 1),
                    corner_positive(signs@, w, x as int, y as int, 2),
                    corner_positive(signs@, w, x as int, y as int, 3),
                );
            }
            let edges = table[mask as usize];
            assert(edges == cell_edges(signs@, w, x as int, y as int));
            if edges != 0 {
                let ghost before = grid_indices@;
                let ghost place = active_before(signs@, w, x as int, y as int) as int;
                let grid_index: u16 = match u16::try_from(vertices.len()) {
                    Ok(index) => index,
                    Err(_) => 0,
                };
                assert(grid_index == index_of(place));
                let key = grid_key(width, x, y);
                record(&mut grid_indices, key, grid_index);
                proof {
                    lemma_recorded_after_cell(before, grid_indices@, signs@, w, x as int, y as int);
                }
                let samples = cell_samples_at(width, x, y);
                vertices.push(VertexStencil { x, y, edges, samples });
                normals.push(samples);
                let ghost unstitched = indices@;
                assert(1u8 << 0u8 == 1 && 1u8 << 1u8 == 2) by (bit_vector);
                if y != 0 && edges & 0b0001 > 0 {
                    proof {
                        lemma_top_edge_shared(signs@, w, x as int, y as int);
                        assert(visited(w, x as int, y - 1, x + 1, y as int));
                        assert(recorded(grid_indices@, signs@, w, x as int, y - 1));
                    }
                    indices.push(grid_index);
                    indices.push(
                        lookup(&grid_indices, grid_key(width, x, y - 1)).unwrap_or_default(),
                    );
                }
                assert(indices@ == unstitched + top_stitch(signs@, w, x as int, y as int));
                if x != 0 && edges & 0b0010 > 0 {
                    proof {
                        lemma_left_edge_shared(signs@, w, x as int, y as int);
                        assert(visited(w, x - 1, y as int, x + 1, y as int));
                        assert(recorded(grid_indices@, signs@, w, x - 1, y as int));
                    }
                    indices.push(grid_index);
                    indices.push(
                        lookup(&grid_indices, grid_key(width, x - 1, y)).unwrap_or_default(),
                    );
                }
                assert(indices@ == unstitched + top_stitch(signs@, w, x as int, y as int)
                    + left_stitch(signs@, w, x as int, y as int));
            } else {
                proof {
                    lemma_recorded_after_cell(
                        grid_indices@,
                        grid_indices@,
                        signs@,
                        w,
                        x as int,
                        y as int,
                    );
                }
            }
            x += 1;
        }
        proof {
            lemma_recorded_after_row(grid_indices@, signs@, w, y as int);
        }
        y += 1;
    }
    proof {
        lemma_mesh_before_wf(signs@, w, 0, rows as int);
    }
    GeometryData::new(vertices, normals, indices)
}

} // verus!
