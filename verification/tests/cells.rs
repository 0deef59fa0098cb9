use isocontour::edges::{corner_uv, edge_bit_fields, EDGE_CORNERS};
use isocontour::grid::{corner_mask_at, sample_at, sample_index};
use isocontour::{CellSamples, Corner, Crossing, VertexStencil};

#[test]
fn edge_table_entries() {
    assert_eq!(edge_bit_fields(), [0, 3, 5, 6, 10, 9, 15, 12, 12, 15, 9, 10, 6, 5, 3, 0]);
}

#[test]
fn edge_table_follows_the_corner_rule() {
    let table = edge_bit_fields();
    for mask in 0..16usize {
        for (edge, corners) in EDGE_CORNERS.iter().enumerate() {
            let a = (mask >> corners[0]) & 1;
            let b = (mask >> corners[1]) & 1;
            assert_eq!((table[mask] >> edge) & 1 == 1, a != b);
        }
        assert!(table[mask] < 16);
    }
}

#[test]
fn edge_table_is_blind_to_the_overall_sign() {
    let table = edge_bit_fields();
    for mask in 0..16usize {
        assert_eq!(table[mask], table[15 - mask]);
    }
}

#[test]
fn edges_join_the_corners_of_a_square() {
    assert_eq!(EDGE_CORNERS, [[0, 1], [0, 2], [1, 3], [2, 3]]);
}

#[test]
fn corner_offsets() {
    assert_eq!(corner_uv(0), (0, 0));
    assert_eq!(corner_uv(1), (1, 0));
    assert_eq!(corner_uv(2), (0, 1));
    assert_eq!(corner_uv(3), (1, 1));
}

#[test]
fn sample_positions_are_row_major() {
    assert_eq!(sample_index(3, 0, 0, 0), 0);
    assert_eq!(sample_index(3, 0, 0, 1), 1);
    assert_eq!(sample_index(3, 0, 0, 2), 3);
    assert_eq!(sample_index(3, 0, 0, 3), 4);
    assert_eq!(sample_index(3, 1, 1, 0), 4);
    assert_eq!(sample_index(3, 1, 1, 3), 8);
    assert_eq!(sample_index(7, 4, 2, 1), 19);
    assert_eq!(sample_index(7, 4, 2, 2), 25);
}

#[test]
fn sample_positions_of_the_largest_grid() {
    assert_eq!(sample_index(65535, 65533, 65533, 3), 65534 + 65534 * 65535);
    assert_eq!(sample_index(65535, 65534, 65534, 3), 4_294_901_760);
}

#[test]
fn sample_signs() {
    let field = [true, false, true];
    assert!(sample_at(&field, 0));
    assert!(!sample_at(&field, 1));
    assert!(sample_at(&field, 2));
    assert!(!sample_at(&field, 3));
    assert!(!sample_at(&field, u32::MAX));
    assert!(!sample_at(&[], 0));
}

#[test]
fn corner_masks() {
    let field = [true, true, true, true, false, true, true, true, true];
    assert_eq!(corner_mask_at(&field, 3, 0, 0), 0b0111);
    assert_eq!(corner_mask_at(&field, 3, 1, 0), 0b1011);
    assert_eq!(corner_mask_at(&field, 3, 0, 1), 0b1101);
    assert_eq!(corner_mask_at(&field, 3, 1, 1), 0b1110);
    assert_eq!(corner_mask_at(&[true; 9], 3, 1, 1), 0b1111);
    assert_eq!(corner_mask_at(&[false; 9], 3, 1, 1), 0);
}

#[test]
fn corner_mask_of_a_cell_that_hangs_over_the_field() {
    let field = [true; 9];
    assert_eq!(corner_mask_at(&field, 3, 2, 0), 0b1111);
    assert_eq!(corner_mask_at(&field, 3, 2, 2), 0b0001);
    assert_eq!(corner_mask_at(&field, 3, 1, 2), 0b0011);
    assert_eq!(corner_mask_at(&field, 3, 0, 2), 0b0011);
    assert_eq!(corner_mask_at(&field, 3, 0, 3), 0);
}

#[test]
fn corner_samples_by_corner() {
    let samples = CellSamples { s0: 10, s1: 11, s2: 20, s3: 21 };
    assert_eq!(samples.get(0), 10);
    assert_eq!(samples.get(1), 11);
    assert_eq!(samples.get(2), 20);
    assert_eq!(samples.get(3), 21);
}

#[test]
fn crossings_of_a_corner_cell() {
    let samples = CellSamples { s0: 0, s1: 1, s2: 3, s3: 4 };
    let cell = VertexStencil { x: 0, y: 0, edges: 0b1100, samples };
    assert_eq!(
        cell.crossings(),
        vec![
            Crossing {
                from: Corner { u: 1, v: 0, sample: 1 },
                to: Corner { u: 1, v: 1, sample: 4 },
            },
            Crossing {
                from: Corner { u: 0, v: 1, sample: 3 },
                to: Corner { u: 1, v: 1, sample: 4 },
            },
        ]
    );
}

#[test]
fn crossings_in_the_order_of_the_edges() {
    let samples = CellSamples { s0: 5, s1: 6, s2: 9, s3: 10 };
    let cell = VertexStencil { x: 1, y: 1, edges: 0b1111, samples };
    assert_eq!(
        cell.crossings(),
        vec![
            Crossing {
                from: Corner { u: 0, v: 0, sample: 5 },
                to: Corner { u: 1, v: 0, sample: 6 },
            },
            Crossing {
                from: Corner { u: 0, v: 0, sample: 5 },
                to: Corner { u: 0, v: 1, sample: 9 },
            },
            Crossing {
                from: Corner { u: 1, v: 0, sample: 6 },
                to: Corner { u: 1, v: 1, sample: 10 },
            },
            Crossing {
                from: Corner { u: 0, v: 1, sample: 9 },
                to: Corner { u: 1, v: 1, sample: 10 },
            },
        ]
    );
}

#[test]
fn cell_without_crossed_edge_has_no_crossing() {
    let samples = CellSamples { s0: 0, s1: 1, s2: 2, s3: 3 };
    let cell = VertexStencil { x: 0, y: 0, edges: 0, samples };
    assert!(cell.crossings().is_empty());
    let high = VertexStencil { x: 0, y: 0, edges: 0b1111_0000, samples };
    assert!(high.crossings().is_empty());
}
