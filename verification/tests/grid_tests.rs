use fluid_sim::Grid;

#[test]
fn add_to_cell() {
    let mut grid = Grid::new(2);
    grid.add_to_cell(0, (0, 0));
    assert_eq!(grid.cell((0, 0)), vec![0]);
    grid.add_to_cell(1, (0, 0));
    assert_eq!(grid.cell((0, 0)), vec![0, 1]);
}

#[test]
fn remove_from_cell() {
    let mut grid = Grid::new(4);
    grid.add_to_cell(0, (0, 0));
    grid.add_to_cell(1, (0, 0));
    grid.add_to_cell(2, (0, 0));
    grid.add_to_cell(3, (0, 0));
    assert_eq!(grid.cell((0, 0)), vec![0, 1, 2, 3]);
    grid.remove_from_cell(1, (0, 0));
    assert_eq!(grid.cell((0, 0)), vec![0, 3, 2]);
    grid.remove_from_cell(3, (0, 0));
    assert_eq!(grid.cell((0, 0)), vec![0, 2]);
}

#[test]
fn slots_track_swap_removal() {
    let mut grid = Grid::new(4);
    grid.add_to_cell(0, (0, 0));
    grid.add_to_cell(1, (0, 0));
    grid.add_to_cell(2, (0, 0));
    grid.add_to_cell(3, (0, 0));
    assert_eq!(grid.cell_slot(0), 0);
    assert_eq!(grid.cell_slot(3), 3);
    grid.remove_from_cell(1, (0, 0));
    // the last element, 3, was moved into the vacated slot 1
    assert_eq!(grid.cell_slot(3), 1);
    assert!(!grid.in_cell(1));
    assert!(grid.in_cell(0) && grid.in_cell(2) && grid.in_cell(3));
    assert_eq!(grid.cell_key_of(3), (0, 0));
}

#[test]
fn neighbors_cover_the_3x3_block_only() {
    let mut grid = Grid::new(6);
    grid.add_to_cell(0, (-1, -1));
    grid.add_to_cell(1, (0, 0));
    grid.add_to_cell(2, (1, 1));
    grid.add_to_cell(3, (2, 2)); // outside the block around (0, 0)
    grid.add_to_cell(4, (0, -1));
    grid.add_to_cell(5, (-2, 0)); // outside the block around (0, 0)
    // reading order: row below, center row, row above
    assert_eq!(grid.neighbors_from_cell((0, 0)), vec![0, 4, 1, 2]);
    // around (2, 2) only 2 and 3 are in range
    assert_eq!(grid.neighbors_from_cell((2, 2)), vec![2, 3]);
}

#[test]
fn neighbors_of_empty_region() {
    let mut grid = Grid::new(1);
    grid.add_to_cell(0, (10, 10));
    assert_eq!(grid.neighbors_from_cell((0, 0)), vec![]);
    assert_eq!(grid.cell((7, 7)), vec![]);
}

#[test]
fn negative_coordinates_address_distinct_cells() {
    let mut grid = Grid::new(4);
    grid.add_to_cell(0, (-1, 0));
    grid.add_to_cell(1, (0, -1));
    grid.add_to_cell(2, (-1, -1));
    grid.add_to_cell(3, (-3, 7));
    assert_eq!(grid.cell((-1, 0)), vec![0]);
    assert_eq!(grid.cell((0, -1)), vec![1]);
    assert_eq!(grid.cell((-1, -1)), vec![2]);
    assert_eq!(grid.cell((-3, 7)), vec![3]);
    assert_eq!(grid.cell((0, 0)), vec![]);
}

#[test]
fn populate_partitions_by_key() {
    let mut grid = Grid::new(4);
    let keys = vec![(0, 0), (1, 0), (0, 0), (2, 3)];
    grid.populate(&keys);
    assert_eq!(grid.cell((0, 0)), vec![0, 2]);
    assert_eq!(grid.cell((1, 0)), vec![1]);
    assert_eq!(grid.cell((2, 3)), vec![3]);
    assert_eq!(grid.cell_count(), 3);
    // cells are created in order of first appearance
    assert_eq!(grid.cell_key_at(0), (0, 0));
    assert_eq!(grid.cell_key_at(1), (1, 0));
    assert_eq!(grid.cell_key_at(2), (2, 3));
    assert_eq!(grid.cell_slot(2), 1);
    assert!(grid.in_cell(0) && grid.in_cell(1) && grid.in_cell(2) && grid.in_cell(3));
}

#[test]
fn reindex_moves_between_cells() {
    let mut grid = Grid::new(4);
    let keys = vec![(0, 0), (1, 0), (0, 0), (2, 3)];
    grid.populate(&keys);
    grid.reindex(0, (5, 5));
    assert_eq!(grid.cell((0, 0)), vec![2]);
    assert_eq!(grid.cell((5, 5)), vec![0]);
    assert_eq!(grid.cell_key_of(0), (5, 5));
    // re-indexing to the current cell leaves everything unchanged
    grid.reindex(1, (1, 0));
    assert_eq!(grid.cell((1, 0)), vec![1]);
    assert_eq!(grid.cell_slot(1), 0);
    assert_eq!(grid.cell_count(), 4);
}

#[test]
fn emptied_cell_stays_queryable() {
    let mut grid = Grid::new(1);
    grid.add_to_cell(0, (4, 4));
    grid.remove_from_cell(0, (4, 4));
    assert_eq!(grid.cell((4, 4)), vec![]);
    assert_eq!(grid.cell_count(), 1);
    assert!(!grid.in_cell(0));
    // the identity can be inserted again, elsewhere
    grid.add_to_cell(0, (4, 5));
    assert_eq!(grid.cell((4, 5)), vec![0]);
    assert_eq!(grid.cell((4, 4)), vec![]);
}

#[test]
fn consistency_after_mixed_operations() {
    let mut grid = Grid::new(5);
    grid.populate(&vec![(0, 0), (0, 0), (1, 0), (0, 1), (0, 0)]);
    grid.reindex(0, (1, 0));
    grid.remove_from_cell(4, (0, 0));
    grid.reindex(2, (0, 1));
    // every placed identity sits at its recorded slot of its recorded
    // cell, and the union of the cell lists is exactly the placed
    // identities, each exactly once
    let mut seen = vec![0usize; 5];
    for ci in 0..grid.cell_count() {
        let key = grid.cell_key_at(ci);
        let cell = grid.cell(key);
        for (slot, &p) in cell.iter().enumerate() {
            assert!(grid.in_cell(p));
            assert_eq!(grid.cell_key_of(p), key);
            assert_eq!(grid.cell_slot(p), slot);
            seen[p] += 1;
        }
    }
    for p in 0..5 {
        assert_eq!(seen[p], if grid.in_cell(p) { 1 } else { 0 });
    }
    assert_eq!(grid.cell((0, 0)), vec![1]);
    assert_eq!(grid.cell((1, 0)), vec![0]);
    assert_eq!(grid.cell((0, 1)), vec![3, 2]);
}

#[test]
fn particle_count_is_fixed() {
    let grid = Grid::new(7);
    assert_eq!(grid.particle_count(), 7);
    assert_eq!(grid.cell_count(), 0);
}
