//! What holds of every contour mesh.

use crate::contour::{
    active_before, cell_samples, cell_vertex, contour, index_of, left_stitch, mesh_before,
    top_stitch, visited,
};
use crate::edges::{
    bit_set, lemma_crossings_come_in_pairs, lemma_uniform_mask_crosses_nothing, pack4,
    EDGE_CORNERS,
};
use crate::grid::{
    cell_active, cell_edges, cells_along, corner_index, corner_mask, lemma_cell_edges,
    lemma_left_edge_shared, lemma_top_edge_shared, sample_positive,
};
use crate::mesh::{lemma_crossing_count, lemma_crossing_edge, Mesh};
use vstd::prelude::*;

verus! {

/// Whether the pass is at cell `(x1, y1)` no later than at cell `(x2, y2)`.
/// Column `cells_along(width)`, one past the last cell of a row, stands for
/// the end of the row.
pub open spec fn no_later(width: int, x1: int, y1: int, x2: int, y2: int) -> bool {
    &&& 0 <= x1 <= cells_along(width)
    &&& 0 <= x2 <= cells_along(width)
    &&& 0 <= y1
    &&& y1 < y2 || (y1 == y2 && x1 <= x2)
}

/// The count of active cells never goes down as the pass goes on.
pub proof fn lemma_active_before_grows(
    signs: Seq<bool>,
    width: int,
    x1: int,
    y1: int,
    x2: int,
    y2: int,
)
    requires
        no_later(width, x1, y1, x2, y2),
    ensures
        active_before(signs, width, x1, y1) <= active_before(signs, width, x2, y2),
    decreases y2, x2,
{
    if x1 == x2 && y1 == y2 {
    } else if x2 > 0 {
        lemma_active_before_grows(signs, width, x1, y1, x2 - 1, y2);
    } else {
        lemma_active_before_grows(signs, width, x1, y1, cells_along(width), y2 - 1);
    }
}

/// At every point of the pass the mesh is well formed and has one vertex for
/// each active cell met so far.
pub proof fn lemma_mesh_before_wf(signs: Seq<bool>, width: int, x: int, y: int)
    requires
        0 <= x <= cells_along(width),
        0 <= y,
    ensures
        mesh_before(signs, width, x, y).wf(),
        mesh_before(signs, width, x, y).vertices.len() == active_before(signs, width, x, y),
    decreases y, x,
{
    if x > 0 {
        lemma_mesh_before_wf(signs, width, x - 1, y);
        if cell_active(signs, width, x - 1, y) {
            let before = mesh_before(signs, width, x - 1, y);
            let after = mesh_before(signs, width, x, y);
            if y != 0 {
                lemma_active_before_grows(signs, width, x - 1, y - 1, x - 1, y);
            }
            if x - 1 != 0 {
                lemma_active_before_grows(signs, width, x - 2, y, x - 1, y);
            }
            assert forall|i: int| 0 <= i < after.indices.len() implies after.indices[i]
                < after.vertices.len() by {
                if i < before.indices.len() {
                    assert(after.indices[i] == before.indices[i]);
                }
            }
        }
    } else if y > 0 {
        lemma_mesh_before_wf(signs, width, cells_along(width), y - 1);
    }
}

/// A contour mesh is well formed: it has one normal for each vertex, an even
/// number of indices, and no index that is not the place of one of its
/// vertices.
pub proof fn lemma_contour_well_formed(signs: Seq<bool>, width: int, height: int)
    ensures
        contour(signs, width, height).wf(),
        contour(signs, width, height).normals.len() == contour(signs, width, height).vertices.len(),
        contour(signs, width, height).indices.len() % 2 == 0,
        forall|i: int|
            0 <= i < contour(signs, width, height).indices.len() ==> 0 <= #[trigger] contour(
                signs,
                width,
                height,
            ).indices[i] < contour(signs, width, height).vertices.len(),
{
    lemma_mesh_before_wf(signs, width, 0, cells_along(height));
}

/// When the pass reaches cell `(x, y)` it has visited `y` whole rows and `x`
/// cells more, and has met no more active cells than that.
pub proof fn lemma_active_before_bounded(signs: Seq<bool>, width: int, x: int, y: int)
    requires
        0 <= x <= cells_along(width),
        0 <= y,
    ensures
        active_before(signs, width, x, y) <= y * cells_along(width) + x,
    decreases y, x,
{
    if x > 0 {
        lemma_active_before_bounded(signs, width, x - 1, y);
    } else if y > 0 {
        lemma_active_before_bounded(signs, width, cells_along(width), y - 1);
        assert((y - 1) * cells_along(width) + cells_along(width) == y * cells_along(width))
            by (nonlinear_arith);
    } else {
        assert(0 * cells_along(width) == 0) by (nonlinear_arith);
    }
}

/// A contour mesh has at most one vertex for each cell of the grid: no more
/// than `(width - 1) * (height - 1)` for a field that has a sample.
pub proof fn lemma_vertex_count_bounded(signs: Seq<bool>, width: int, height: int)
    ensures
        contour(signs, width, height).vertices.len() <= cells_along(width) * cells_along(height),
        width >= 1 && height >= 1 ==> contour(signs, width, height).vertices.len() <= (width - 1)
            * (height - 1),
{
    lemma_mesh_before_wf(signs, width, 0, cells_along(height));
    lemma_active_before_bounded(signs, width, 0, cells_along(height));
    assert(cells_along(height) * cells_along(width) == cells_along(width) * cells_along(height))
        by (nonlinear_arith);
}

/// A cell in the first column has no stitch to the left, and a cell in the
/// first row has none to the top: no segment leaves the grid.
pub proof fn lemma_boundary_cells_stitch_inward(signs: Seq<bool>, width: int, x: int, y: int)
    ensures
        x == 0 ==> left_stitch(signs, width, x, y) == Seq::<u16>::empty(),
        y == 0 ==> top_stitch(signs, width, x, y) == Seq::<u16>::empty(),
{
}

/// The cells that the segments of cell `(x, y)` join: for each segment the
/// cell itself and then the neighbour, the top segment before the left one.
pub open spec fn stitch_cells(signs: Seq<bool>, width: int, x: int, y: int) -> Seq<(int, int)> {
    let top = if y != 0 && bit_set(cell_edges(signs, width, x, y), 0) {
        seq![(x, y), (x, y - 1)]
    } else {
        Seq::empty()
    };
    let left = if x != 0 && bit_set(cell_edges(signs, width, x, y), 1) {
        seq![(x, y), (x - 1, y)]
    } else {
        Seq::empty()
    };
    top + left
}

/// The cells joined by the segments that the pass has emitted when it reaches
/// cell `(x, y)`, two cells for each segment.
pub open spec fn cells_before(signs: Seq<bool>, width: int, x: int, y: int) -> Seq<(int, int)>
    decreases y, x,
{
    if x > 0 {
        if cell_active(signs, width, x - 1, y) {
            cells_before(signs, width, x - 1, y) + stitch_cells(signs, width, x - 1, y)
        } else {
            cells_before(signs, width, x - 1, y)
        }
    } else if y > 0 {
        cells_before(signs, width, cells_along(width), y - 1)
    } else {
        Seq::empty()
    }
}

/// The cells joined by the segments of the contour mesh: the segment that
/// the indices at `2 * s` and `2 * s + 1` make up joins the cells at those
/// two places of this sequence.
pub open spec fn segment_cells(signs: Seq<bool>, width: int, height: int) -> Seq<(int, int)> {
    cells_before(signs, width, 0, cells_along(height))
}

/// The cell at which segment `s` starts.
pub open spec fn start_cell(cells: Seq<(int, int)>, s: int) -> (int, int) {
    cells[2 * s]
}

/// The cell at which segment `s` ends.
pub open spec fn end_cell(cells: Seq<(int, int)>, s: int) -> (int, int) {
    cells[2 * s + 1]
}

/// Whether `b` is the cell above `a` and the top edge of `a` is crossed, or
/// `b` is the cell to the left of `a` and the left edge of `a` is crossed.
pub open spec fn stitched(signs: Seq<bool>, width: int, a: (int, int), b: (int, int)) -> bool {
    ||| a.1 > 0 && b == (a.0, a.1 - 1) && bit_set(cell_edges(signs, width, a.0, a.1), 0)
    ||| a.0 > 0 && b == (a.0 - 1, a.1) && bit_set(cell_edges(signs, width, a.0, a.1), 1)
}

/// Whether segment `s` of the mesh joins the vertices of the two cells that
/// `cells` gives for it, the first of them an active cell that the pass has
/// visited when it reaches cell `(x, y)`, and the second stitched to it.
pub open spec fn segment_joins(
    signs: Seq<bool>,
    width: int,
    x: int,
    y: int,
    mesh: Mesh,
    cells: Seq<(int, int)>,
    s: int,
) -> bool {
    let a = start_cell(cells, s);
    let b = end_cell(cells, s);
    &&& visited(width, a.0, a.1, x, y)
    &&& cell_active(signs, width, a.0, a.1)
    &&& stitched(signs, width, a, b)
    &&& mesh.segment_start(s) == index_of(active_before(signs, width, a.0, a.1) as int)
    &&& mesh.segment_end(s) == index_of(active_before(signs, width, b.0, b.1) as int)
}

/// At every point of the pass each segment emitted so far starts at a cell
/// that the pass has visited and joins the vertices of two stitched cells.
proof fn lemma_cells_before(signs: Seq<bool>, width: int, x: int, y: int)
    requires
        0 <= x <= cells_along(width),
        0 <= y,
    ensures
        cells_before(signs, width, x, y).len() == mesh_before(signs, width, x, y).indices.len(),
        cells_before(signs, width, x, y).len() % 2 == 0,
        forall|s: int|
            0 <= s < mesh_before(signs, width, x, y).segment_count() ==> #[trigger] segment_joins(
                signs,
                width,
                x,
                y,
                mesh_before(signs, width, x, y),
                cells_before(signs, width, x, y),
                s,
            ),
    decreases y, x,
{
    let mesh = mesh_before(signs, width, x, y);
    let cells = cells_before(signs, width, x, y);
    if x > 0 {
        lemma_cells_before(signs, width, x - 1, y);
        let old_mesh = mesh_before(signs, width, x - 1, y);
        let old_cells = cells_before(signs, width, x - 1, y);
        let n = old_mesh.segment_count();
        if cell_active(signs, width, x - 1, y) {
            let top = top_stitch(signs, width, x - 1, y);
            let left = left_stitch(signs, width, x - 1, y);
            let joined = stitch_cells(signs, width, x - 1, y);
            assert(mesh.indices == old_mesh.indices + top + left);
            assert(cells == old_cells + joined);
            assert(joined.len() == top.len() + left.len());
            assert forall|s: int| 0 <= s < mesh.segment_count() implies #[trigger] segment_joins(
                signs,
                width,
                x,
                y,
                mesh,
                cells,
                s,
            ) by {
                if s < n {
                    assert(segment_joins(signs, width, x - 1, y, old_mesh, old_cells, s));
                    assert(mesh.indices[2 * s] == old_mesh.indices[2 * s]);
                    assert(mesh.indices[2 * s + 1] == old_mesh.indices[2 * s + 1]);
                    assert(cells[2 * s] == old_cells[2 * s]);
                    assert(cells[2 * s + 1] == old_cells[2 * s + 1]);
                } else {
                    let k = 2 * (s - n);
                    assert(cells[2 * s] == joined[k]);
                    assert(cells[2 * s + 1] == joined[k + 1]);
                    assert(mesh.indices[2 * s] == (top + left)[k]);
                    assert(mesh.indices[2 * s + 1] == (top + left)[k + 1]);
                    assert(joined[k] == (x - 1, y));
                }
            }
        } else {
            assert forall|s: int| 0 <= s < mesh.segment_count() implies #[trigger] segment_joins(
                signs,
                width,
                x,
                y,
                mesh,
                cells,
                s,
            ) by {
                assert(segment_joins(signs, width, x - 1, y, old_mesh, old_cells, s));
            }
        }
    } else if y > 0 {
        lemma_cells_before(signs, width, cells_along(width), y - 1);
        let old_mesh = mesh_before(signs, width, cells_along(width), y - 1);
        let old_cells = cells_before(signs, width, cells_along(width), y - 1);
        assert forall|s: int| 0 <= s < mesh.segment_count() implies #[trigger] segment_joins(
            signs,
            width,
            x,
            y,
            mesh,
            cells,
            s,
        ) by {
            assert(segment_joins(signs, width, cells_along(width), y - 1, old_mesh, old_cells, s));
        }
    }
}

/// Every segment of a contour mesh joins the vertices of two active cells
/// of the grid, the second the neighbour above or to the left of the first,
/// across an edge that is crossed. The second vertex was emitted before the
/// first.
pub proof fn lemma_segments_join_neighbours(signs: Seq<bool>, width: int, height: int, s: int)
    requires
        0 <= s < contour(signs, width, height).segment_count(),
    ensures
        ({
            let mesh = contour(signs, width, height);
            let a = start_cell(segment_cells(signs, width, height), s);
            let b = end_cell(segment_cells(signs, width, height), s);
            &&& 0 <= a.0 < cells_along(width) && 0 <= a.1 < cells_along(height)
            &&& 0 <= b.0 < cells_along(width) && 0 <= b.1 < cells_along(height)
            &&& stitched(signs, width, a, b)
            &&& cell_active(signs, width, a.0, a.1)
            &&& cell_active(signs, width, b.0, b.1)
            &&& mesh.segment_start(s) == index_of(active_before(signs, width, a.0, a.1) as int)
            &&& mesh.segment_end(s) == index_of(active_before(signs, width, b.0, b.1) as int)
            &&& active_before(signs, width, b.0, b.1) < active_before(signs, width, a.0, a.1)
                < mesh.vertices.len()
        }),
{
    let rows = cells_along(height);
    let mesh = contour(signs, width, height);
    let cells = segment_cells(signs, width, height);
    lemma_cells_before(signs, width, 0, rows);
    lemma_mesh_before_wf(signs, width, 0, rows);
    assert(segment_joins(signs, width, 0, rows, mesh, cells, s));
    let a = start_cell(cells, s);
    let b = end_cell(cells, s);
    lemma_active_before_grows(signs, width, a.0 + 1, a.1, 0, rows);
    if b == (a.0, a.1 - 1) {
        lemma_top_edge_shared(signs, width, a.0, a.1);
        lemma_active_before_grows(signs, width, a.0 + 1, a.1 - 1, a.0, a.1);
    } else {
        lemma_left_edge_shared(signs, width, a.0, a.1);
    }
}

/// A segment does not join a vertex to itself. The one exception comes from
/// the vertices beyond place 65535, which all have index 0: a segment from
/// such a vertex to another such vertex, or to the first vertex of the mesh,
/// is left out.
pub proof fn lemma_no_self_loop(signs: Seq<bool>, width: int, height: int, s: int)
    requires
        0 <= s < contour(signs, width, height).segment_count(),
        ({
            let a = start_cell(segment_cells(signs, width, height), s);
            let b = end_cell(segment_cells(signs, width, height), s);
            active_before(signs, width, a.0, a.1) <= u16::MAX || 0 < active_before(
                signs,
                width,
                b.0,
                b.1,
            ) <= u16::MAX
        }),
    ensures
        contour(signs, width, height).segment_start(s) != contour(signs, width, height).segment_end(
            s,
        ),
{
    lemma_segments_join_neighbours(signs, width, height, s);
}

/// In a contour mesh of no more than 65536 vertices every segment runs from
/// a vertex to one with a smaller index: no segment joins a vertex to itself.
pub proof fn lemma_no_self_loops(signs: Seq<bool>, width: int, height: int)
    requires
        contour(signs, width, height).vertices.len() <= u16::MAX + 1,
    ensures
        forall|s: int|
            0 <= s < contour(signs, width, height).segment_count() ==> #[trigger] contour(
                signs,
                width,
                height,
            ).segment_end(s) < contour(signs, width, height).segment_start(s),
{
    assert forall|s: int|
        0 <= s < contour(signs, width, height).segment_count() implies #[trigger] contour(
        signs,
        width,
        height,
    ).segment_end(s) < contour(signs, width, height).segment_start(s) by {
        lemma_segments_join_neighbours(signs, width, height, s);
    }
}

/// Whether the vertex at place `i` of the mesh is that of an active cell
/// which the pass has visited when it reaches cell `(x, y)`, stands at the
/// place that the cell has among the active cells, and has the samples of the
/// cell as its normal.
pub open spec fn vertex_of_cell(
    signs: Seq<bool>,
    width: int,
    x: int,
    y: int,
    mesh: Mesh,
    i: int,
) -> bool {
    let v = mesh.vertices[i];
    &&& visited(width, v.x as int, v.y as int, x, y)
    &&& cell_active(signs, width, v.x as int, v.y as int)
    &&& v == cell_vertex(signs, width, v.x as int, v.y as int)
    &&& active_before(signs, width, v.x as int, v.y as int) == i
    &&& mesh.normals[i] == v.samples
}

/// At every point of the pass each vertex emitted so far is the vertex of an
/// active cell.
proof fn lemma_vertices_before(signs: Seq<bool>, width: int, x: int, y: int)
    requires
        0 <= x <= cells_along(width),
        0 <= width <= u16::MAX,
        0 <= y <= u16::MAX,
    ensures
        forall|i: int|
            0 <= i < mesh_before(signs, width, x, y).vertices.len() ==> #[trigger] vertex_of_cell(
                signs,
                width,
                x,
                y,
                mesh_before(signs, width, x, y),
                i,
            ),
    decreases y, x,
{
    let mesh = mesh_before(signs, width, x, y);
    lemma_mesh_before_wf(signs, width, x, y);
    if x > 0 {
        lemma_vertices_before(signs, width, x - 1, y);
        lemma_mesh_before_wf(signs, width, x - 1, y);
        let old_mesh = mesh_before(signs, width, x - 1, y);
        assert forall|i: int| 0 <= i < mesh.vertices.len() implies #[trigger] vertex_of_cell(
            signs,
            width,
            x,
            y,
            mesh,
            i,
        ) by {
            if i < old_mesh.vertices.len() {
                assert(vertex_of_cell(signs, width, x - 1, y, old_mesh, i));
                assert(mesh.vertices[i] == old_mesh.vertices[i]);
                assert(mesh.normals[i] == old_mesh.normals[i]);
            } else {
                assert(mesh.vertices[i] == cell_vertex(signs, width, x - 1, y));
                assert(mesh.normals[i] == cell_samples(width, x - 1, y));
            }
        }
    } else if y > 0 {
        lemma_vertices_before(signs, width, cells_along(width), y - 1);
        let old_mesh = mesh_before(signs, width, cells_along(width), y - 1);
        assert forall|i: int| 0 <= i < mesh.vertices.len() implies #[trigger] vertex_of_cell(
            signs,
            width,
            x,
            y,
            mesh,
            i,
        ) by {
            assert(vertex_of_cell(signs, width, cells_along(width), y - 1, old_mesh, i));
        }
    }
}

/// Every vertex of a contour mesh is the vertex of an active cell of the
/// grid. It stands at the place that the cell has among the active cells in
/// the order of the pass, its edge field is that of the cell, and the normal
/// at the same place holds the corner samples of the cell.
pub proof fn lemma_vertices_are_active_cells(signs: Seq<bool>, width: int, height: int, i: int)
    requires
        0 <= width <= u16::MAX,
        0 <= height <= u16::MAX,
        0 <= i < contour(signs, width, height).vertices.len(),
    ensures
        ({
            let mesh = contour(signs, width, height);
            let v = mesh.vertices[i];
            &&& v.x < cells_along(width)
            &&& v.y < cells_along(height)
            &&& cell_active(signs, width, v.x as int, v.y as int)
            &&& v == cell_vertex(signs, width, v.x as int, v.y as int)
            &&& 0 < v.edges < 16
            &&& active_before(signs, width, v.x as int, v.y as int) == i
            &&& mesh.normals[i] == cell_samples(width, v.x as int, v.y as int)
        }),
{
    lemma_vertices_before(signs, width, 0, cells_along(height));
    let mesh = contour(signs, width, height);
    assert(vertex_of_cell(signs, width, 0, cells_along(height), mesh, i));
    let v = mesh.vertices[i];
    lemma_cell_edges(signs, width, v.x as int, v.y as int);
}

/// The samples at the corners of a cell of the grid lie within the first
/// `width * height` places of the field.
pub proof fn lemma_corners_in_grid(width: int, height: int, x: int, y: int, corner: int)
    requires
        0 <= x < cells_along(width),
        0 <= y < cells_along(height),
        0 <= corner < 4,
    ensures
        0 <= corner_index(width, x, y, corner) < width * height,
{
    let row = y + corner / 2;
    assert(0 <= row * width && row * width + width <= height * width) by (nonlinear_arith)
        requires
            0 <= row <= height - 1,
            0 <= width,
    ;
    assert(height * width == width * height) by (nonlinear_arith);
}

/// Along every crossing of a vertex of a contour mesh the field changes
/// sign: of the samples at the two corners one is positive and the other is
/// not. The two corners are the ends of an edge of the unit cell.
pub proof fn lemma_crossings_change_sign(
    signs: Seq<bool>,
    width: int,
    height: int,
    i: int,
    k: int,
)
    requires
        0 <= width <= u16::MAX,
        0 <= height <= u16::MAX,
        0 <= i < contour(signs, width, height).vertices.len(),
        0 <= k < contour(signs, width, height).vertices[i].spec_crossings().len(),
    ensures
        ({
            let crossing = contour(signs, width, height).vertices[i].spec_crossings()[k];
            &&& sample_positive(signs, crossing.from.sample as int) != sample_positive(
                signs,
                crossing.to.sample as int,
            )
            &&& crossing.from.u <= 1 && crossing.from.v <= 1
            &&& crossing.to.u <= 1 && crossing.to.v <= 1
            &&& (crossing.from.u != crossing.to.u) != (crossing.from.v != crossing.to.v)
        }),
{
    let v = contour(signs, width, height).vertices[i];
    lemma_vertices_are_active_cells(signs, width, height, i);
    let edge = lemma_crossing_edge(v, 4, k);
    lemma_cell_edges(signs, width, v.x as int, v.y as int);
    assert(bit_set(v.edges, edge as u8));
    let a = EDGE_CORNERS[edge][0] as int;
    let b = EDGE_CORNERS[edge][1] as int;
    lemma_corners_in_grid(width, height, v.x as int, v.y as int, a);
    lemma_corners_in_grid(width, height, v.x as int, v.y as int, b);
    assert(width * height <= 0xFFFF * 0xFFFF) by (nonlinear_arith)
        requires
            0 <= width <= 0xFFFF,
            0 <= height <= 0xFFFF,
    ;
}

/// A vertex of a contour mesh has two crossings or four.
pub proof fn lemma_vertices_have_crossings(signs: Seq<bool>, width: int, height: int, i: int)
    requires
        0 <= width <= u16::MAX,
        0 <= height <= u16::MAX,
        0 <= i < contour(signs, width, height).vertices.len(),
    ensures
        contour(signs, width, height).vertices[i].spec_crossings().len() == 2 || contour(
            signs,
            width,
            height,
        ).vertices[i].spec_crossings().len() == 4,
{
    let v = contour(signs, width, height).vertices[i];
    lemma_vertices_are_active_cells(signs, width, height, i);
    lemma_crossing_count(v);
    lemma_crossings_come_in_pairs(corner_mask(signs, width, v.x as int, v.y as int));
}

/// As long as the pass has met no active cell the mesh is empty.
proof fn lemma_inactive_prefix(signs: Seq<bool>, width: int, x: int, y: int)
    requires
        0 <= x <= cells_along(width),
        0 <= y,
        forall|cx: int, cy: int|
            visited(width, cx, cy, x, y) ==> !#[trigger] cell_active(signs, width, cx, cy),
    ensures
        mesh_before(signs, width, x, y) == Mesh::empty(),
    decreases y, x,
{
    if x > 0 {
        lemma_inactive_prefix(signs, width, x - 1, y);
        assert(visited(width, x - 1, y, x, y));
    } else if y > 0 {
        lemma_inactive_prefix(signs, width, cells_along(width), y - 1);
    }
}

/// A contour mesh is empty exactly when no cell of the grid is active.
pub proof fn lemma_empty_iff_no_active_cell(signs: Seq<bool>, width: int, height: int)
    ensures
        contour(signs, width, height) == Mesh::empty() <==> (forall|cx: int, cy: int|
            0 <= cx < cells_along(width) && 0 <= cy < cells_along(height) ==> !#[trigger] cell_active(
                signs,
                width,
                cx,
                cy,
            )),
{
    let rows = cells_along(height);
    if forall|cx: int, cy: int|
        0 <= cx < cells_along(width) && 0 <= cy < rows ==> !#[trigger] cell_active(
            signs,
            width,
            cx,
            cy,
        ) {
        lemma_inactive_prefix(signs, width, 0, rows);
    }
    if contour(signs, width, height) == Mesh::empty() {
        lemma_mesh_before_wf(signs, width, 0, rows);
        assert forall|cx: int, cy: int|
            0 <= cx < cells_along(width) && 0 <= cy < rows implies !#[trigger] cell_active(
            signs,
            width,
            cx,
            cy,
        ) by {
            lemma_active_before_grows(signs, width, cx + 1, cy, 0, rows);
        }
    }
}

/// A field without a positive sample in the grid has the empty mesh.
pub proof fn lemma_nonpositive_field_is_empty(signs: Seq<bool>, width: int, height: int)
    requires
        forall|i: int| 0 <= i < width * height ==> !#[trigger] sample_positive(signs, i),
    ensures
        contour(signs, width, height) == Mesh::empty(),
{
    assert forall|cx: int, cy: int|
        0 <= cx < cells_along(width) && 0 <= cy < cells_along(height) implies !#[trigger] cell_active(
        signs,
        width,
        cx,
        cy,
    ) by {
        lemma_corners_in_grid(width, height, cx, cy, 0);
        lemma_corners_in_grid(width, height, cx, cy, 1);
        lemma_corners_in_grid(width, height, cx, cy, 2);
        lemma_corners_in_grid(width, height, cx, cy, 3);
        assert(pack4(false, false, false, false) == 0) by (bit_vector);
        lemma_uniform_mask_crosses_nothing(corner_mask(signs, width, cx, cy));
    }
    lemma_empty_iff_no_active_cell(signs, width, height);
}

/// A field whose samples in the grid are all positive has the empty mesh.
pub proof fn lemma_positive_field_is_empty(signs: Seq<bool>, width: int, height: int)
    requires
        forall|i: int| 0 <= i < width * height ==> #[trigger] sample_positive(signs, i),
    ensures
        contour(signs, width, height) == Mesh::empty(),
{
    assert forall|cx: int, cy: int|
        0 <= cx < cells_along(width) && 0 <= cy < cells_along(height) implies !#[trigger] cell_active(
        signs,
        width,
        cx,
        cy,
    ) by {
        lemma_corners_in_grid(width, height, cx, cy, 0);
        lemma_corners_in_grid(width, height, cx, cy, 1);
        lemma_corners_in_grid(width, height, cx, cy, 2);
        lemma_corners_in_grid(width, height, cx, cy, 3);
        assert(pack4(true, true, true, true) == 15) by (bit_vector);
        lemma_uniform_mask_crosses_nothing(corner_mask(signs, width, cx, cy));
    }
    lemma_empty_iff_no_active_cell(signs, width, height);
}

/// A field with fewer than two samples along an axis has the empty mesh.
pub proof fn lemma_field_without_cells_is_empty(signs: Seq<bool>, width: int, height: int)
    requires
        width < 2 || height < 2,
    ensures
        contour(signs, width, height) == Mesh::empty(),
{
    lemma_empty_iff_no_active_cell(signs, width, height);
}

/// Whether two fields agree on the sign of every sample in the grid.
pub open spec fn same_signs(a: Seq<bool>, b: Seq<bool>, width: int, height: int) -> bool {
    forall|i: int|
        0 <= i < width * height ==> #[trigger] sample_positive(a, i) == sample_positive(b, i)
}

/// Fields that agree on the grid cross the same edges in every cell of it.
proof fn lemma_same_cells(a: Seq<bool>, b: Seq<bool>, width: int, height: int, x: int, y: int)
    requires
        same_signs(a, b, width, height),
        0 <= x < cells_along(width),
        0 <= y < cells_along(height),
    ensures
        cell_edges(a, width, x, y) == cell_edges(b, width, x, y),
{
    lemma_corners_in_grid(width, height, x, y, 0);
    lemma_corners_in_grid(width, height, x, y, 1);
    lemma_corners_in_grid(width, height, x, y, 2);
    lemma_corners_in_grid(width, height, x, y, 3);
}

/// Fields that agree on the grid have met the same number of active cells at
/// every point of the pass.
proof fn lemma_same_counts(a: Seq<bool>, b: Seq<bool>, width: int, height: int, x: int, y: int)
    requires
        same_signs(a, b, width, height),
        0 <= x <= cells_along(width),
        0 <= y <= cells_along(height),
        y < cells_along(height) || x == 0,
    ensures
        active_before(a, width, x, y) == active_before(b, width, x, y),
    decreases y, x,
{
    if x > 0 {
        lemma_same_counts(a, b, width, height, x - 1, y);
        lemma_same_cells(a, b, width, height, x - 1, y);
    } else if y > 0 {
        lemma_same_counts(a, b, width, height, cells_along(width), y - 1);
    }
}

/// Fields that agree on the grid have the same mesh at every point of the
/// pass.
proof fn lemma_same_meshes(a: Seq<bool>, b: Seq<bool>, width: int, height: int, x: int, y: int)
    requires
        same_signs(a, b, width, height),
        0 <= x <= cells_along(width),
        0 <= y <= cells_along(height),
        y < cells_along(height) || x == 0,
    ensures
        mesh_before(a, width, x, y) == mesh_before(b, width, x, y),
    decreases y, x,
{
    if x > 0 {
        lemma_same_meshes(a, b, width, height, x - 1, y);
        lemma_same_cells(a, b, width, height, x - 1, y);
        lemma_same_counts(a, b, width, height, x - 1, y);
        if y != 0 {
            lemma_same_counts(a, b, width, height, x - 1, y - 1);
        }
        if x - 1 != 0 {
            lemma_same_counts(a, b, width, height, x - 2, y);
        }
    } else if y > 0 {
        lemma_same_meshes(a, b, width, height, cells_along(width), y - 1);
    }
}

/// The mesh is a function of the signs of the samples in the grid and of
/// nothing else: two fields that agree there have the same contour mesh. In
/// particular the same field always gives the same mesh.
pub proof fn lemma_signs_determine_mesh(a: Seq<bool>, b: Seq<bool>, width: int, height: int)
    requires
        same_signs(a, b, width, height),
    ensures
        contour(a, width, height) == contour(b, width, height),
{
    lemma_same_meshes(a, b, width, height, 0, cells_along(height));
}

} // verus!
