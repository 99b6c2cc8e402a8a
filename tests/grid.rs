use particle_field::grid::{Grid, HalfCells};

#[test]
fn linear_index_is_x_outer_z_inner() {
    let g = Grid::new_uniform(2, 3, 4, &0u8);
    assert_eq!(g.linear_index(0, 0, 0), 0);
    assert_eq!(g.linear_index(0, 0, 1), 1);
    assert_eq!(g.linear_index(0, 1, 0), 4);
    assert_eq!(g.linear_index(1, 0, 0), 12);
    assert_eq!(g.linear_index(1, 2, 3), 23);
}

#[test]
fn linear_index_is_a_bijection() {
    let g = Grid::new_uniform(3, 2, 5, &0u8);
    let n = g.num_instances();
    assert_eq!(n, 30);
    let mut seen = vec![false; n];
    for i in 0..3 {
        for j in 0..2 {
            for k in 0..5 {
                let idx = g.linear_index(i, j, k);
                assert!(idx < n);
                assert!(!seen[idx]);
                seen[idx] = true;
                assert_eq!(g.cell_coords(idx), (i, j, k));
            }
        }
    }
    assert!(seen.iter().all(|s| *s));
}

#[test]
fn cell_coords_inverts_linear_index() {
    let g = Grid::new_uniform(2, 3, 4, &0u8);
    assert_eq!(g.cell_coords(23), (1, 2, 3));
    assert_eq!(g.cell_coords(5), (0, 1, 1));
    for idx in 0..g.num_instances() {
        let (i, j, k) = g.cell_coords(idx);
        assert_eq!(g.linear_index(i, j, k), idx);
    }
}

#[test]
fn uniform_grid_repeats_value() {
    let g = Grid::new_uniform(2, 2, 2, &7i32);
    assert_eq!(g.num_instances(), 8);
    assert_eq!(g.size(), (2, 2, 2));
    assert!(g.as_slice().iter().all(|v| *v == 7));
}

#[test]
fn empty_grid_has_no_cells() {
    let g = Grid::new_uniform(4, 0, 3, &1i32);
    assert_eq!(g.num_instances(), 0);
    assert!(g.as_slice().is_empty());
    assert!(g.get_indices(&[]).is_empty());
    let c = Grid::new_centered(0, 5, 5);
    assert_eq!(c.num_instances(), 0);
}

#[test]
fn centered_grid_points_to_lattice_center() {
    let g = Grid::new_centered(2, 3, 4);
    assert_eq!(g.num_instances(), 24);
    assert_eq!(*g.get(g.linear_index(0, 0, 0)), HalfCells { x: 2, y: 3, z: 4 });
    assert_eq!(*g.get(g.linear_index(1, 2, 3)), HalfCells { x: 0, y: -1, z: -2 });
    assert_eq!(*g.get(g.linear_index(1, 0, 2)), HalfCells { x: 0, y: 3, z: 0 });
}

#[test]
fn set_replaces_one_value() {
    let mut g = Grid::new_uniform(1, 2, 2, &0i32);
    g.set(2, 9);
    assert_eq!(g.as_slice(), &[0, 0, 9, 0]);
}

#[test]
fn from_values_keeps_order() {
    let g = Grid::from_values(1, 1, 3, vec![4, 5, 6]);
    assert_eq!(*g.get(g.linear_index(0, 0, 2)), 6);
}

#[test]
fn get_indices_lists_flagged_cells_in_order() {
    let g = Grid::new_uniform(1, 2, 3, &0i32);
    let within = [true, false, false, true, true, false];
    assert_eq!(g.get_indices(&within), vec![0, 3, 4]);
    assert!(g.get_indices(&[false; 6]).is_empty());
    assert_eq!(g.get_indices(&[true; 6]), vec![0, 1, 2, 3, 4, 5]);
}

#[test]
fn wider_flags_select_a_superset() {
    let g = Grid::new_uniform(2, 2, 2, &0i32);
    let narrow = [false, true, false, false, true, false, false, false];
    let wide = [true, true, false, false, true, true, false, true];
    let small = g.get_indices(&narrow);
    let large = g.get_indices(&wide);
    assert!(small.iter().all(|i| large.contains(i)));
    assert_eq!(small, vec![1, 4]);
    assert_eq!(large, vec![0, 1, 4, 5, 7]);
}

#[test]
fn selection_mask_marks_selected_cells() {
    let g = Grid::new_uniform(1, 1, 5, &0i32);
    let mask = g.selection_mask(&[3, 1, 3, 42]);
    assert_eq!(mask, vec![false, true, false, true, false]);
    assert_eq!(g.selection_mask(&[]), vec![false; 5]);
}
