//! The line mesh that an extraction produces.
//!
//! The mesh is combinatorial. In place of a position, a vertex carries the
//! cell it stands in and the edges of that cell which the contour crosses; in
//! place of a gradient, a normal carries the positions of the four samples
//! whose differences make it up. The numbers follow from these and from the
//! sample values, which this library never sees:
//!
//! - the vertex of cell `(x, y)` lies at `(x, y)`, plus one half on each axis,
//!   plus the mean over the crossings of the cell of the point at which the
//!   field passes through zero on the crossed edge, in the coordinates
//!   `(u, v)` of the unit cell;
//! - the normal is the gradient of the field in the cell by differences of
//!   the samples `d0` to `d3` at the four corners:
//!   `((d1 - d0) + (d3 - d2)) / 2` along the row and
//!   `((d2 - d0) + (d3 - d1)) / 2` down the column. It is not brought to
//!   length one.

use crate::edges::{bit_set, corner_uv, count4, EDGE_CORNERS};
use vstd::prelude::*;

verus! {

/// The positions in the field of the samples at the four corners of a cell.
#[derive(Clone, Copy, Debug, PartialEq, Eq, Structural)]
pub struct CellSamples {
    pub s0: u32,
    pub s1: u32,
    pub s2: u32,
    pub s3: u32,
}

/// One end of a crossed edge: the offsets `u` and `v` of the corner within
/// the unit cell, and the position of its sample in the field.
#[derive(Clone, Copy, Debug, PartialEq, Eq, Structural)]
pub struct Corner {
    pub u: u8,
    pub v: u8,
    pub sample: u32,
}

/// A crossed edge, from one of its corners to the other. In a contour mesh
/// the samples at the two corners differ in sign, so the field passes through
/// zero between them: with the samples `d0` at `from` and `d1` at `to`, at the
/// fraction `(0 - d0) / (d1 - d0)` of the way, where the divisor is not zero.
#[derive(Clone, Copy, Debug, PartialEq, Eq, Structural)]
pub struct Crossing {
    pub from: Corner,
    pub to: Corner,
}

/// What determines the position of a vertex: the cell, the edge field of the
/// cell and the positions of its corner samples.
#[derive(Clone, Copy, Debug, PartialEq, Eq, Structural)]
pub struct VertexStencil {
    pub x: u16,
    pub y: u16,
    pub edges: u8,
    pub samples: CellSamples,
}

impl CellSamples {
    /// The position of the sample at the given corner.
    pub open spec fn at(self, corner: int) -> u32 {
        if corner == 0 {
            self.s0
        } else if corner == 1 {
            self.s1
        } else if corner == 2 {
            self.s2
        } else {
            self.s3
        }
    }

    /// The given corner with its offsets in the unit cell.
    pub open spec fn corner(self, corner: int) -> Corner {
        Corner { u: (corner % 2) as u8, v: (corner / 2) as u8, sample: self.at(corner) }
    }

    /// The given edge, from its first corner to its second.
    pub open spec fn crossing(self, edge: int) -> Crossing {
        Crossing {
            from: self.corner(EDGE_CORNERS[edge][0] as int),
            to: self.corner(EDGE_CORNERS[edge][1] as int),
        }
    }

    /// Looks up the position of the sample at the given corner.
    pub fn get(&self, corner: u8) -> (sample: u32)
        requires
            corner < 4,
        ensures
            sample == self.at(corner as int),
    {
        if corner == 0 {
            self.s0
        } else if corner == 1 {
            self.s1
        } else if corner == 2 {
            self.s2
        } else {
            self.s3
        }
    }
}

impl VertexStencil {
    /// The crossed edges among the first `n` edges of the cell, in the order
    /// of the edges.
    pub open spec fn crossings_upto(self, n: int) -> Seq<Crossing>
        decreases n,
    {
        if n <= 0 {
            Seq::empty()
        } else if bit_set(self.edges, (n - 1) as u8) {
            self.crossings_upto(n - 1).push(self.samples.crossing(n - 1))
        } else {
            self.crossings_upto(n - 1)
        }
    }

    /// The crossed edges of the cell, in the order top, left, right, bottom.
    pub open spec fn spec_crossings(self) -> Seq<Crossing> {
        self.crossings_upto(4)
    }

    /// Lists the crossed edges of the cell, each with the offsets and the
    /// sample positions of its two corners.
    pub fn crossings(&self) -> (crossings: Vec<Crossing>)
        ensures
            crossings@ == self.spec_crossings(),
    {
        let mut crossings: Vec<Crossing> = Vec::new();
        let mut edge: u8 = 0;
        while edge < 4
            invariant
                edge <= 4,
                crossings@ == self.crossings_upto(edge as int),
            decreases 4 - edge,
        {
            if self.edges & (1u8 << edge) != 0 {
                let a = EDGE_CORNERS[edge as usize][0];
                let b = EDGE_CORNERS[edge as usize][1];
                let (from_u, from_v) = corner_uv(a);
                let (to_u, to_v) = corner_uv(b);
                crossings.push(
                    Crossing {
                        from: Corner { u: from_u, v: from_v, sample: self.samples.get(a) },
                        to: Corner { u: to_u, v: to_v, sample: self.samples.get(b) },
                    },
                );
            }
            edge += 1;
        }
        crossings
    }
}

/// Every crossing among the first `n` edges belongs to one of these edges,
/// which is in the edge field of the cell: the edge that this function
/// returns for the crossing at place `k`.
pub proof fn lemma_crossing_edge(cell: VertexStencil, n: int, k: int) -> (edge: int)
    requires
        0 <= n <= 4,
        0 <= k < cell.crossings_upto(n).len(),
    ensures
        0 <= edge < n,
        bit_set(cell.edges, edge as u8),
        cell.crossings_upto(n)[k] == cell.samples.crossing(edge),
    decreases n,
{
    if bit_set(cell.edges, (n - 1) as u8) && k == cell.crossings_upto(n - 1).len() {
        n - 1
    } else {
        lemma_crossing_edge(cell, n - 1, k)
    }
}

/// A cell has one crossing for each edge in its edge field.
pub proof fn lemma_crossing_count(cell: VertexStencil)
    ensures
        cell.spec_crossings().len() == count4(cell.edges),
{
    reveal_with_fuel(VertexStencil::crossings_upto, 5);
}

/// The mathematical content of a mesh: vertices in the order in which they
/// were emitted, normals aligned with them, and indices that are read in
/// pairs, each pair a segment between two vertices.
pub struct Mesh {
    pub vertices: Seq<VertexStencil>,
    pub normals: Seq<CellSamples>,
    pub indices: Seq<u16>,
}

impl Mesh {
    /// The mesh without vertices and segments.
    pub open spec fn empty() -> Mesh {
        Mesh { vertices: Seq::empty(), normals: Seq::empty(), indices: Seq::empty() }
    }

    /// There is one normal for each vertex, the indices come in pairs, and
    /// each index names a vertex of the mesh.
    pub open spec fn wf(self) -> bool {
        &&& self.normals.len() == self.vertices.len()
        &&& self.indices.len() % 2 == 0
        &&& forall|i: int| 0 <= i < self.indices.len() ==> self.indices[i] < self.vertices.len()
    }

    /// The number of segments.
    pub open spec fn segment_count(self) -> int {
        self.indices.len() as int / 2
    }

    /// The index at which segment `s` starts.
    pub open spec fn segment_start(self, s: int) -> u16 {
        self.indices[2 * s]
    }

    /// The index at which segment `s` ends.
    pub open spec fn segment_end(self, s: int) -> u16 {
        self.indices[2 * s + 1]
    }
}

/// The result of an extraction. Every value of this type is a well-formed
/// mesh.
pub struct GeometryData {
    vertices: Vec<VertexStencil>,
    normals: Vec<CellSamples>,
    indices: Vec<u16>,
}

impl View for GeometryData {
    type V = Mesh;

    closed spec fn view(&self) -> Mesh {
        Mesh { vertices: self.vertices@, normals: self.normals@, indices: self.indices@ }
    }
}

impl GeometryData {
    #[verifier::type_invariant]
    spec fn well_formed(&self) -> bool {
        self@.wf()
    }

    /// Makes a mesh of its three sequences.
    pub(crate) fn new(
        vertices: Vec<VertexStencil>,
        normals: Vec<CellSamples>,
        indices: Vec<u16>,
    ) -> (mesh: GeometryData)
        requires
            (Mesh { vertices: vertices@, normals: normals@, indices: indices@ }).wf(),
        ensures
            mesh@ == (Mesh { vertices: vertices@, normals: normals@, indices: indices@ }),
    {
        GeometryData { vertices, normals, indices }
    }

    /// The vertices, in the order in which the cells emitted them.
    pub fn vertices(&self) -> (vertices: &[VertexStencil])
        ensures
            vertices@ == self@.vertices,
            self@.wf(),
    {
        proof {
            use_type_invariant(self);
        }
        self.vertices.as_slice()
    }

    /// The normals: as many as there are vertices, the normal at each place
    /// belonging to the vertex at that place.
    pub fn normals(&self) -> (normals: &[CellSamples])
        ensures
            normals@ == self@.normals,
            self@.wf(),
    {
        proof {
            use_type_invariant(self);
        }
        self.normals.as_slice()
    }

    /// The segments, two indices into the vertices for each.
    pub fn indices(&self) -> (indices: &[u16])
        ensures
            indices@ == self@.indices,
            self@.wf(),
    {
        proof {
            use_type_invariant(self);
        }
        self.indices.as_slice()
    }
}

} // verus!
