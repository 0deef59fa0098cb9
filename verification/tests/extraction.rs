use isocontour::{get_geometry_data, CellSamples, GeometryData, VertexStencil};

fn signs(data: &[f32]) -> Vec<bool> {
    data.iter().map(|d| *d > 0.).collect()
}

fn sample(data: &[f32], at: u32) -> f32 {
    data.get(at as usize).cloned().unwrap_or_default()
}

fn lerp(x: f32, y: f32, a: f32) -> f32 {
    x * (1.0 - a) + y * a
}

/// The positions of the vertices, two numbers for each, as the stencils of
/// the mesh and the samples give them.
fn positions(data: &[f32], mesh: &GeometryData) -> Vec<f32> {
    let mut flat = Vec::new();
    for stencil in mesh.vertices() {
        let crossings = stencil.crossings();
        let mut delta = [0f32, 0.];
        for crossing in &crossings {
            let d0 = sample(data, crossing.from.sample);
            let d1 = sample(data, crossing.to.sample);
            let t = (0. - d0) / (d1 - d0);
            delta[0] += lerp(crossing.from.u.into(), crossing.to.u.into(), t);
            delta[1] += lerp(crossing.from.v.into(), crossing.to.v.into(), t);
        }
        let num_edges = crossings.len() as f32;
        flat.push(f32::from(stencil.x) + 0.5 + delta[0] / num_edges);
        flat.push(f32::from(stencil.y) + 0.5 + delta[1] / num_edges);
    }
    flat
}

/// The gradients at the vertices, two numbers for each.
fn gradients(data: &[f32], mesh: &GeometryData) -> Vec<f32> {
    let mut flat = Vec::new();
    for corners in mesh.normals() {
        let s0 = sample(data, corners.s0);
        let s1 = sample(data, corners.s1);
        let s2 = sample(data, corners.s2);
        let s3 = sample(data, corners.s3);
        flat.push(((s1 - s0) + (s3 - s2)) / 2.);
        flat.push(((s2 - s0) + (s3 - s1)) / 2.);
    }
    flat
}

fn checkerboard(width: usize, height: usize) -> Vec<bool> {
    let mut field = Vec::new();
    for y in 0..height {
        for x in 0..width {
            field.push((x + y) % 2 == 0);
        }
    }
    field
}

/// A field of signs that follows no pattern, the same on every run.
fn scattered(width: usize, height: usize) -> Vec<bool> {
    let mut state: u32 = 0x2545_f491;
    let mut field = Vec::new();
    for _ in 0..width * height {
        state = state.wrapping_mul(1_664_525).wrapping_add(1_013_904_223);
        field.push((state >> 16) & 1 == 1);
    }
    field
}

fn samples_of(width: u32, x: u32, y: u32) -> CellSamples {
    CellSamples {
        s0: x + y * width,
        s1: x + 1 + y * width,
        s2: x + (y + 1) * width,
        s3: x + 1 + (y + 1) * width,
    }
}

#[test]
fn test_get_geometry_data() {
    let data = [
        0.6642135381698608f32,
        0.25,
        0.6642135381698608,
        0.25,
        -0.75,
        0.25,
        0.6642135381698608,
        0.25,
        0.664213538169860,
    ];
    let geometry_data = get_geometry_data(&signs(&data), 3, 3);
    assert_eq!(
        positions(&data, &geometry_data),
        vec![1.125f32, 1.125, 1.875, 1.125, 1.125, 1.875, 1.875, 1.875],
    );
    assert_eq!(
        gradients(&data, &geometry_data),
        vec![
            -0.7071067690849304f32,
            -0.7071067690849304,
            0.7071067690849304,
            -0.7071067690849304,
            -0.7071067690849304,
            0.7071067690849304,
            0.7071067690849304,
            0.7071067690849304,
        ]
    );
    assert_eq!(geometry_data.indices(), vec![1, 0, 2, 0, 3, 1, 3, 2]);
}

#[test]
fn three_by_three_stencils() {
    let field = [true, true, true, true, false, true, true, true, true];
    let mesh = get_geometry_data(&field, 3, 3);
    assert_eq!(
        mesh.vertices(),
        vec![
            VertexStencil { x: 0, y: 0, edges: 0b1100, samples: samples_of(3, 0, 0) },
            VertexStencil { x: 1, y: 0, edges: 0b1010, samples: samples_of(3, 1, 0) },
            VertexStencil { x: 0, y: 1, edges: 0b0101, samples: samples_of(3, 0, 1) },
            VertexStencil { x: 1, y: 1, edges: 0b0011, samples: samples_of(3, 1, 1) },
        ]
    );
    assert_eq!(
        mesh.normals(),
        vec![
            CellSamples { s0: 0, s1: 1, s2: 3, s3: 4 },
            CellSamples { s0: 1, s1: 2, s2: 4, s3: 5 },
            CellSamples { s0: 3, s1: 4, s2: 6, s3: 7 },
            CellSamples { s0: 4, s1: 5, s2: 7, s3: 8 },
        ]
    );
}

#[test]
fn same_field_same_mesh() {
    let field = scattered(17, 11);
    let first = get_geometry_data(&field, 17, 11);
    let second = get_geometry_data(&field, 17, 11);
    assert_eq!(first.vertices(), second.vertices());
    assert_eq!(first.normals(), second.normals());
    assert_eq!(first.indices(), second.indices());
}

#[test]
fn what_lies_beyond_the_grid_does_not_count() {
    let field = scattered(6, 5);
    let mut longer = field.clone();
    longer.extend([true, false, true, true]);
    let mesh = get_geometry_data(&field, 6, 5);
    let other = get_geometry_data(&longer, 6, 5);
    assert_eq!(mesh.vertices(), other.vertices());
    assert_eq!(mesh.normals(), other.normals());
    assert_eq!(mesh.indices(), other.indices());
}

#[test]
fn field_without_positive_sample_is_empty() {
    let mesh = get_geometry_data(&[false; 20], 5, 4);
    assert!(mesh.vertices().is_empty());
    assert!(mesh.normals().is_empty());
    assert!(mesh.indices().is_empty());
}

#[test]
fn field_of_positive_samples_is_empty() {
    let mesh = get_geometry_data(&[true; 20], 5, 4);
    assert!(mesh.vertices().is_empty());
    assert!(mesh.normals().is_empty());
    assert!(mesh.indices().is_empty());
}

#[test]
fn field_without_cells_is_empty() {
    for (width, height) in [(1u16, 1u16), (1, 7), (7, 1), (0, 3), (3, 0), (0, 0)] {
        let field = checkerboard(8, 8);
        let mesh = get_geometry_data(&field, width, height);
        assert!(mesh.vertices().is_empty());
        assert!(mesh.normals().is_empty());
        assert!(mesh.indices().is_empty());
    }
}

#[test]
fn lone_cell_has_a_vertex_and_no_segment() {
    let mesh = get_geometry_data(&[true, false, false, false], 2, 2);
    assert_eq!(
        mesh.vertices(),
        vec![VertexStencil { x: 0, y: 0, edges: 0b0011, samples: samples_of(2, 0, 0) }]
    );
    assert_eq!(mesh.normals(), vec![samples_of(2, 0, 0)]);
    assert!(mesh.indices().is_empty());
}

#[test]
fn sample_missing_from_a_short_field_reads_as_not_positive() {
    let short = get_geometry_data(&[true], 2, 2);
    let full = get_geometry_data(&[true, false, false, false], 2, 2);
    assert_eq!(short.vertices(), full.vertices());
    assert_eq!(short.normals(), full.normals());
    assert_eq!(short.indices(), full.indices());

    let cut = get_geometry_data(&[true, true, true], 2, 2);
    assert_eq!(cut.vertices().len(), 1);
    assert_eq!(cut.vertices()[0].edges, 0b1100);
}

#[test]
fn empty_field_is_empty() {
    let mesh = get_geometry_data(&[], 4, 4);
    assert!(mesh.vertices().is_empty());
    assert!(mesh.indices().is_empty());
}

#[test]
fn wide_field_walks_the_columns_of_a_single_row() {
    let field = [true, false, true, false, false, false];
    let mesh = get_geometry_data(&field, 3, 2);
    assert_eq!(
        mesh.vertices(),
        vec![
            VertexStencil { x: 0, y: 0, edges: 0b0011, samples: samples_of(3, 0, 0) },
            VertexStencil { x: 1, y: 0, edges: 0b0101, samples: samples_of(3, 1, 0) },
        ]
    );
    assert!(mesh.indices().is_empty());
}

#[test]
fn tall_field_walks_the_rows_of_a_single_column() {
    let field = [false, false, true, false, false, false];
    let mesh = get_geometry_data(&field, 2, 3);
    assert_eq!(
        mesh.vertices(),
        vec![
            VertexStencil { x: 0, y: 0, edges: 0b1010, samples: samples_of(2, 0, 0) },
            VertexStencil { x: 0, y: 1, edges: 0b0011, samples: samples_of(2, 0, 1) },
        ]
    );
    assert_eq!(mesh.indices(), vec![1, 0]);
}

#[test]
fn first_column_and_first_row_do_not_stitch_outward() {
    let width = 9usize;
    let height = 7usize;
    let field = checkerboard(width, height);
    let mesh = get_geometry_data(&field, width as u16, height as u16);
    let cols = width - 1;
    assert_eq!(mesh.vertices().len(), cols * (height - 1));
    let mut expected: Vec<u16> = Vec::new();
    for y in 0..height - 1 {
        for x in 0..cols {
            let place = (y * cols + x) as u16;
            if y != 0 {
                expected.push(place);
                expected.push(place - cols as u16);
            }
            if x != 0 {
                expected.push(place);
                expected.push(place - 1);
            }
        }
    }
    assert_eq!(mesh.indices(), expected);
    // The corner cell has no segment of its own, the rest of the first row
    // one each, to the left.
    assert_eq!(&mesh.indices()[..4], &[1, 0, 2, 1]);
}

#[test]
fn indices_come_in_pairs_and_name_vertices() {
    for (width, height) in [(2u16, 2u16), (3, 9), (16, 16), (40, 25)] {
        let field = scattered(width as usize, height as usize);
        let mesh = get_geometry_data(&field, width, height);
        assert_eq!(mesh.indices().len() % 2, 0);
        for index in mesh.indices() {
            assert!((*index as usize) < mesh.vertices().len());
        }
    }
}

#[test]
fn normals_are_aligned_with_vertices() {
    for (width, height) in [(2u16, 2u16), (3, 9), (16, 16), (40, 25)] {
        let field = scattered(width as usize, height as usize);
        let mesh = get_geometry_data(&field, width, height);
        assert_eq!(mesh.normals().len(), mesh.vertices().len());
        for (vertex, normal) in mesh.vertices().iter().zip(mesh.normals()) {
            assert_eq!(vertex.samples, *normal);
            assert_eq!(*normal, samples_of(width as u32, vertex.x as u32, vertex.y as u32));
        }
    }
}

#[test]
fn segments_run_to_an_earlier_vertex() {
    for (width, height) in [(2u16, 2u16), (3, 9), (16, 16), (40, 25)] {
        let field = scattered(width as usize, height as usize);
        let mesh = get_geometry_data(&field, width, height);
        for segment in mesh.indices().chunks(2) {
            assert_ne!(segment[0], segment[1]);
            assert!(segment[1] < segment[0]);
        }
    }
}

#[test]
fn segments_join_neighbouring_cells() {
    let field = scattered(30, 20);
    let mesh = get_geometry_data(&field, 30, 20);
    let vertices = mesh.vertices();
    for segment in mesh.indices().chunks(2) {
        let from = vertices[segment[0] as usize];
        let to = vertices[segment[1] as usize];
        let above = to.x == from.x && to.y + 1 == from.y;
        let left = to.x + 1 == from.x && to.y == from.y;
        assert!(above || left);
        if above {
            assert_ne!(from.edges & 0b0001, 0);
            assert_ne!(to.edges & 0b1000, 0);
        } else {
            assert_ne!(from.edges & 0b0010, 0);
            assert_ne!(to.edges & 0b0100, 0);
        }
    }
}

#[test]
fn no_more_vertices_than_cells() {
    for (width, height) in [(1u16, 1u16), (2, 2), (3, 9), (16, 16), (40, 25)] {
        let field = scattered(width as usize, height as usize);
        let mesh = get_geometry_data(&field, width, height);
        assert!(mesh.vertices().len() <= (width as usize - 1) * (height as usize - 1));
    }
    let full = get_geometry_data(&checkerboard(12, 5), 12, 5);
    assert_eq!(full.vertices().len(), 11 * 4);
}

#[test]
fn every_crossing_changes_sign() {
    let field = scattered(30, 20);
    let mesh = get_geometry_data(&field, 30, 20);
    for vertex in mesh.vertices() {
        let crossings = vertex.crossings();
        assert!(crossings.len() == 2 || crossings.len() == 4);
        for crossing in crossings {
            assert_ne!(
                field[crossing.from.sample as usize],
                field[crossing.to.sample as usize]
            );
        }
    }
}

#[test]
fn vertices_beyond_the_index_range_share_index_zero() {
    let width = 258usize;
    let height = 258usize;
    let field = checkerboard(width, height);
    let mesh = get_geometry_data(&field, width as u16, height as u16);
    let cols = width - 1;
    assert_eq!(mesh.vertices().len(), 66049);
    let index_of = |place: usize| if place <= 65535 { place as u16 } else { 0 };
    let mut expected: Vec<u16> = Vec::new();
    for y in 0..height - 1 {
        for x in 0..cols {
            let place = y * cols + x;
            if y != 0 {
                expected.push(index_of(place));
                expected.push(index_of(place - cols));
            }
            if x != 0 {
                expected.push(index_of(place));
                expected.push(index_of(place - 1));
            }
        }
    }
    assert_eq!(mesh.indices(), expected);
    // The cell at place 65537 is joined to the one at place 65536 on its
    // left, and both have index 0.
    let looped = mesh.indices().chunks(2).filter(|segment| segment[0] == segment[1]).count();
    assert!(looped > 0);
    for index in mesh.indices() {
        assert!((*index as usize) < mesh.vertices().len());
    }
}
