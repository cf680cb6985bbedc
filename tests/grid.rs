use forceframe::cell_matrix::CellMatrix;
use forceframe::utils::Vec2i;

fn sorted(mut v: Vec<usize>) -> Vec<usize> {
    v.sort();
    v
}

#[test]
fn new_matrix_is_empty() {
    let m = CellMatrix::new(4, 3, 32);
    assert_eq!(m.get_width(), 4);
    assert_eq!(m.get_height(), 3);
    assert_eq!(m.get_cell_size(), 32);
    for row in 0..3 {
        for col in 0..4 {
            assert!(m.get_objects_in_cell(row, col).is_empty());
        }
    }
}

#[test]
fn insert_appends_in_order() {
    let mut m = CellMatrix::new(4, 3, 32);
    m.add_object_to_cell(1, 2, 7);
    m.add_object_to_cell(1, 2, 3);
    m.add_object_to_cell(2, 0, 5);
    assert_eq!(m.get_objects_in_cell(1, 2), vec![7, 3]);
    assert_eq!(m.get_objects_in_cell(2, 0), vec![5]);
    assert!(m.get_objects_in_cell(0, 2).is_empty());
}

#[test]
fn cell_of_caps_to_grid() {
    let m = CellMatrix::new(4, 3, 32);
    assert_eq!(m.cell_of(1, 2), (1, 2));
    assert_eq!(m.cell_of(3, 4), (2, 3));
    assert_eq!(m.cell_of(100, 0), (2, 0));
}

#[test]
fn neighbourhood_scans_columns_then_rows() {
    let mut m = CellMatrix::new(3, 3, 10);
    let mut id = 0;
    for row in 0..3 {
        for col in 0..3 {
            m.add_object_to_cell(row, col, id);
            id += 1;
        }
    }
    // Body `3 * row + col` sits in cell (row, col).
    assert_eq!(m.get_objects_in_neighbouring_cells(1, 1), vec![0, 3, 6, 1, 4, 7, 2, 5, 8]);
}

#[test]
fn neighbourhood_at_corner_is_clamped() {
    let mut m = CellMatrix::new(3, 3, 10);
    let mut id = 0;
    for row in 0..3 {
        for col in 0..3 {
            m.add_object_to_cell(row, col, id);
            id += 1;
        }
    }
    assert_eq!(m.get_objects_in_neighbouring_cells(0, 0), vec![0, 3, 1, 4]);
    assert_eq!(m.get_objects_in_neighbouring_cells(2, 2), vec![4, 7, 5, 8]);
}

#[test]
fn neighbourhood_excludes_far_cells() {
    let mut m = CellMatrix::new(5, 5, 10);
    m.add_object_to_cell(0, 0, 1);
    m.add_object_to_cell(2, 3, 2);
    m.add_object_to_cell(4, 4, 3);
    m.add_object_to_cell(3, 4, 4);
    assert_eq!(sorted(m.get_objects_in_neighbouring_cells(3, 3)), vec![2, 3, 4]);
    assert!(m.get_objects_in_neighbouring_cells(2, 0).is_empty());
}

#[test]
fn rebucket_moves_bodies_to_their_home_cells() {
    let mut m = CellMatrix::new(3, 2, 10);
    m.add_object_to_cell(0, 0, 0);
    m.add_object_to_cell(0, 0, 1);
    m.add_object_to_cell(1, 2, 2);
    // Body 0 stays, body 1 moves to (1, 1), body 2 lies past the grid and is capped to (1, 2).
    let raw = vec![(0, 0), (1, 1), (9, 9)];
    m.update_positions(&raw);
    assert_eq!(m.get_objects_in_cell(0, 0), vec![0]);
    assert_eq!(m.get_objects_in_cell(1, 1), vec![1]);
    assert_eq!(m.get_objects_in_cell(1, 2), vec![2]);
    let raw = vec![(0, 0), (1, 1), (0, 0)];
    m.update_positions(&raw);
    assert_eq!(m.get_objects_in_cell(0, 0), vec![0, 2]);
    assert!(m.get_objects_in_cell(1, 2).is_empty());
}

#[test]
fn rebucket_twice_keeps_every_body_once() {
    let mut m = CellMatrix::new(4, 4, 8);
    for id in 0..8 {
        m.add_object_to_cell(id % 4, (id * 3) % 4, id);
    }
    let raw: Vec<(usize, usize)> = (0..8).map(|id| ((id * 5) % 4, (id + 1) % 4)).collect();
    m.update_positions(&raw);
    m.update_positions(&raw);
    let mut seen = Vec::new();
    for row in 0..4 {
        for col in 0..4 {
            for id in m.get_objects_in_cell(row, col) {
                assert_eq!(raw[id], (row, col));
                seen.push(id);
            }
        }
    }
    assert_eq!(sorted(seen), (0..8).collect::<Vec<usize>>());
}

#[test]
fn vec2i_magnitude_squared() {
    let v = Vec2i::new(3, -4);
    assert_eq!(v.x, 3);
    assert_eq!(v.y, -4);
    assert_eq!(v.get_magnitude_squared(), 25);
    assert_eq!(Vec2i::new(0, 0).get_magnitude_squared(), 0);
}
