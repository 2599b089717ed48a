use nomboids::grid_cell::ProximityGridCell;
use nomboids::proximity_grid::{GridError, ProximityGrid, ProximityGridStatus, CELL_CAPACITY};

fn sorted(mut ids: Vec<u64>) -> Vec<u64> {
    ids.sort();
    ids
}

fn answers<const W: usize, const H: usize>(grid: &ProximityGrid<W, H>) -> Vec<Vec<u64>> {
    let mut all = Vec::new();
    for y in 0..H + 1 {
        for x in 0..W + 1 {
            all.push(sorted(grid.get_neighbors_from_cell_coordinates(x, y)));
        }
    }
    all
}

#[test]
fn empty_cell_counts_zero() {
    let cell = ProximityGridCell::<4>::default();
    assert_eq!(cell.count(), 0);
}

#[test]
fn cell_fills_slots_first_to_last() {
    let mut cell = ProximityGridCell::<3>::default();
    assert_eq!(cell.try_insert(10), Some(0));
    assert_eq!(cell.try_insert(11), Some(1));
    assert_eq!(cell.try_insert(12), Some(2));
    assert_eq!(cell.count(), 3);
    assert_eq!(cell.try_insert(13), None);
    assert_eq!(cell.count(), 3);
    let mut held = Vec::new();
    cell.append_occupants(&mut held);
    assert_eq!(held, vec![10, 11, 12]);
}

#[test]
fn cell_reuses_the_first_freed_slot() {
    let mut cell = ProximityGridCell::<3>::default();
    cell.try_insert(10);
    cell.try_insert(11);
    cell.try_insert(12);
    assert!(cell.try_remove(11));
    assert_eq!(cell.count(), 2);
    assert_eq!(cell.try_insert(13), Some(1));
    let mut held = vec![99];
    cell.append_occupants(&mut held);
    assert_eq!(held, vec![99, 10, 13, 12]);
}

#[test]
fn cell_removal_of_an_absent_identity_changes_nothing() {
    let mut cell = ProximityGridCell::<2>::default();
    cell.try_insert(10);
    assert!(!cell.try_remove(11));
    assert_eq!(cell.count(), 1);
    assert!(cell.try_remove(10));
    assert!(!cell.try_remove(10));
    assert_eq!(cell.count(), 0);
}

#[test]
fn cell_removes_one_copy_at_a_time() {
    let mut cell = ProximityGridCell::<3>::default();
    cell.try_insert(5);
    cell.try_insert(6);
    cell.try_insert(5);
    assert!(cell.try_remove(5));
    let mut held = Vec::new();
    cell.append_occupants(&mut held);
    assert_eq!(held, vec![6, 5]);
}

#[test]
fn cell_without_slots_accepts_nothing() {
    let mut cell = ProximityGridCell::<0>::default();
    assert_eq!(cell.try_insert(1), None);
    assert_eq!(cell.count(), 0);
}

#[test]
fn new_grid_is_empty() {
    let grid = ProximityGrid::<4, 3>::new();
    assert_eq!(grid.cell_counts(), vec![vec![0; 4]; 3]);
    assert!(grid.get_neighbors_from_cell_coordinates(1, 1).is_empty());
}

#[test]
fn insert_returns_the_cell_coordinates() {
    let mut grid = ProximityGrid::<4, 3>::new();
    assert_eq!(grid.try_insert(7, 2, 1), Ok((2, 1)));
    assert_eq!(grid.try_insert(8, 3, 2), Ok((3, 2)));
    assert_eq!(grid.try_insert(9, 0, 0), Ok((0, 0)));
}

#[test]
fn insert_outside_the_grid_is_refused() {
    let mut grid = ProximityGrid::<4, 3>::new();
    assert_eq!(grid.try_insert(7, 4, 0), Err(GridError::OutOfBounds));
    assert_eq!(grid.try_insert(7, 0, 3), Err(GridError::OutOfBounds));
    assert_eq!(grid.try_insert(7, 5, 0), Err(GridError::OutOfBounds));
    assert_eq!(grid.try_insert(7, usize::MAX, usize::MAX), Err(GridError::OutOfBounds));
    assert_eq!(grid.cell_counts(), vec![vec![0; 4]; 3]);
}

#[test]
fn insert_into_a_full_cell_reports_capacity() {
    let mut grid = ProximityGrid::<2, 2>::new();
    for id in 0..CELL_CAPACITY as u64 {
        assert_eq!(grid.try_insert(id, 1, 0), Ok((1, 0)));
    }
    assert_eq!(grid.try_insert(100, 1, 0), Err(GridError::CapacityExceeded));
    assert_eq!(grid.cell_counts(), vec![vec![0, 10], vec![0, 0]]);
    assert_eq!(
        grid.get_neighbors_from_cell_coordinates(1, 0),
        vec![0, 1, 2, 3, 4, 5, 6, 7, 8, 9]
    );
    assert_eq!(grid.try_insert(100, 0, 0), Ok((0, 0)));
}

#[test]
fn remove_reports_whether_the_agent_was_there() {
    let mut grid = ProximityGrid::<4, 3>::new();
    grid.try_insert(7, 2, 1).unwrap();
    assert!(!grid.try_remove(7, 1, 1));
    assert!(!grid.try_remove(8, 2, 1));
    assert!(!grid.try_remove(7, 4, 1));
    assert!(!grid.try_remove(7, 2, 3));
    assert!(grid.try_remove(7, 2, 1));
    assert!(!grid.try_remove(7, 2, 1));
    assert_eq!(grid.cell_counts(), vec![vec![0; 4]; 3]);
}

#[test]
fn out_of_range_column_does_not_alias_the_next_row() {
    let mut grid = ProximityGrid::<4, 3>::new();
    grid.try_insert(7, 1, 1).unwrap();
    assert!(!grid.try_remove(7, 5, 0));
    assert_eq!(grid.cell_counts()[1][1], 1);
}

#[test]
fn insert_then_remove_is_a_round_trip() {
    let mut grid = ProximityGrid::<4, 4>::new();
    grid.try_insert(1, 1, 1).unwrap();
    grid.try_insert(2, 1, 1).unwrap();
    grid.try_insert(3, 2, 2).unwrap();
    let before = answers(&grid);
    let counts = grid.cell_counts();
    assert_eq!(grid.try_insert(9, 1, 1), Ok((1, 1)));
    assert!(grid.try_remove(9, 1, 1));
    assert_eq!(answers(&grid), before);
    assert_eq!(grid.cell_counts(), counts);
    assert_eq!(grid.get_neighbors_from_cell_coordinates(1, 1), vec![1, 2, 3]);
}

#[test]
fn round_trip_with_an_identity_already_present_keeps_the_answers() {
    let mut grid = ProximityGrid::<3, 3>::new();
    grid.try_insert(1, 1, 1).unwrap();
    grid.try_insert(2, 1, 1).unwrap();
    let before = answers(&grid);
    assert_eq!(grid.try_insert(1, 1, 1), Ok((1, 1)));
    assert!(grid.try_remove(1, 1, 1));
    assert_eq!(answers(&grid), before);
}

#[test]
fn remove_then_insert_in_the_same_cell_keeps_the_answers() {
    let mut grid = ProximityGrid::<3, 3>::new();
    grid.try_insert(1, 0, 2).unwrap();
    grid.try_insert(2, 0, 2).unwrap();
    grid.try_insert(3, 0, 2).unwrap();
    let before = answers(&grid);
    assert!(grid.try_remove(2, 0, 2));
    assert_eq!(grid.try_insert(2, 0, 2), Ok((0, 2)));
    assert_eq!(answers(&grid), before);
}

#[test]
fn neighbourhood_of_an_inner_cell_has_nine_cells_in_column_order() {
    let grid = ProximityGrid::<5, 5>::new();
    assert_eq!(
        grid.get_neighboring_cell_coordinates(2, 3),
        vec![(1, 2), (1, 3), (1, 4), (2, 2), (2, 3), (2, 4), (3, 2), (3, 3), (3, 4)]
    );
}

#[test]
fn neighbourhood_is_clipped_at_corners_and_edges() {
    let grid = ProximityGrid::<4, 3>::new();
    assert_eq!(
        grid.get_neighboring_cell_coordinates(0, 0),
        vec![(0, 0), (0, 1), (1, 0), (1, 1)]
    );
    assert_eq!(
        grid.get_neighboring_cell_coordinates(3, 2),
        vec![(2, 1), (2, 2), (3, 1), (3, 2)]
    );
    assert_eq!(
        grid.get_neighboring_cell_coordinates(0, 1),
        vec![(0, 0), (0, 1), (0, 2), (1, 0), (1, 1), (1, 2)]
    );
    assert_eq!(
        grid.get_neighboring_cell_coordinates(2, 2),
        vec![(1, 1), (1, 2), (2, 1), (2, 2), (3, 1), (3, 2)]
    );
}

#[test]
fn neighbourhood_never_wraps_to_the_opposite_edge() {
    let grid = ProximityGrid::<4, 3>::new();
    for (x, y) in grid.get_neighboring_cell_coordinates(3, 0) {
        assert!(x >= 2 && x <= 3 && y <= 1);
    }
    for (x, y) in grid.get_neighboring_cell_coordinates(0, 2) {
        assert!(x <= 1 && y >= 1 && y <= 2);
    }
}

#[test]
fn neighbourhood_of_a_place_outside_the_grid_holds_only_cells_of_the_grid() {
    let grid = ProximityGrid::<4, 3>::new();
    assert_eq!(grid.get_neighboring_cell_coordinates(4, 0), vec![(3, 0), (3, 1)]);
    assert_eq!(grid.get_neighboring_cell_coordinates(4, 3), vec![(3, 2)]);
    assert_eq!(grid.get_neighboring_cell_coordinates(5, 1), Vec::<(usize, usize)>::new());
    assert_eq!(
        grid.get_neighboring_cell_coordinates(usize::MAX, usize::MAX),
        Vec::<(usize, usize)>::new()
    );
    assert_eq!(grid.get_neighboring_cell_coordinates(usize::MAX, 0), Vec::<(usize, usize)>::new());
}

#[test]
fn neighbourhood_in_a_single_cell_grid_is_that_cell() {
    let grid = ProximityGrid::<1, 1>::new();
    assert_eq!(grid.get_neighboring_cell_coordinates(0, 0), vec![(0, 0)]);
}

#[test]
fn grid_without_cells_returns_nothing() {
    let mut grid = ProximityGrid::<0, 3>::new();
    assert_eq!(grid.try_insert(1, 0, 0), Err(GridError::OutOfBounds));
    assert!(grid.get_neighboring_cell_coordinates(0, 0).is_empty());
    assert!(grid.get_neighbors_from_cell_coordinates(0, 0).is_empty());
    assert_eq!(grid.cell_counts(), vec![Vec::<usize>::new(); 3]);
}

#[test]
fn query_returns_the_agent_itself() {
    let mut grid = ProximityGrid::<4, 3>::new();
    grid.try_insert(42, 3, 2).unwrap();
    assert_eq!(grid.get_neighbors_from_cell_coordinates(3, 2), vec![42]);
}

#[test]
fn query_returns_every_occupant_of_the_block_and_nothing_else() {
    let mut grid = ProximityGrid::<5, 5>::new();
    let mut id = 0;
    for y in 0..5 {
        for x in 0..5 {
            grid.try_insert(id, x, y).unwrap();
            id += 1;
        }
    }
    // The identity of the agent in cell (x, y) is x + 5 * y.
    assert_eq!(
        grid.get_neighbors_from_cell_coordinates(2, 2),
        vec![6, 11, 16, 7, 12, 17, 8, 13, 18]
    );
    assert_eq!(grid.get_neighbors_from_cell_coordinates(0, 0), vec![0, 5, 1, 6]);
    assert_eq!(grid.get_neighbors_from_cell_coordinates(4, 4), vec![18, 23, 19, 24]);
    assert_eq!(grid.get_neighbors_from_cell_coordinates(4, 0), vec![3, 8, 4, 9]);
}

#[test]
fn query_draws_from_no_cell_that_is_not_adjacent() {
    let mut grid = ProximityGrid::<5, 5>::new();
    grid.try_insert(1, 0, 0).unwrap();
    grid.try_insert(2, 2, 0).unwrap();
    grid.try_insert(3, 0, 2).unwrap();
    grid.try_insert(4, 4, 4).unwrap();
    grid.try_insert(5, 1, 1).unwrap();
    assert_eq!(sorted(grid.get_neighbors_from_cell_coordinates(0, 0)), vec![1, 5]);
    assert_eq!(sorted(grid.get_neighbors_from_cell_coordinates(3, 3)), vec![4]);
    assert_eq!(sorted(grid.get_neighbors_from_cell_coordinates(1, 1)), vec![1, 2, 3, 5]);
    assert!(grid.get_neighbors_from_cell_coordinates(4, 1).is_empty());
}

#[test]
fn query_lists_a_cell_in_slot_order() {
    let mut grid = ProximityGrid::<2, 1>::new();
    grid.try_insert(30, 0, 0).unwrap();
    grid.try_insert(10, 0, 0).unwrap();
    grid.try_insert(20, 0, 0).unwrap();
    grid.try_insert(5, 1, 0).unwrap();
    assert_eq!(grid.get_neighbors_from_cell_coordinates(0, 0), vec![30, 10, 20, 5]);
    assert!(grid.try_remove(30, 0, 0));
    grid.try_insert(40, 0, 0).unwrap();
    assert_eq!(grid.get_neighbors_from_cell_coordinates(1, 0), vec![40, 10, 20, 5]);
}

#[test]
fn query_from_outside_the_grid_sees_the_cells_at_the_edge() {
    let mut grid = ProximityGrid::<4, 3>::new();
    grid.try_insert(1, 3, 0).unwrap();
    grid.try_insert(2, 0, 1).unwrap();
    assert_eq!(grid.get_neighbors_from_cell_coordinates(4, 0), vec![1]);
    assert!(grid.get_neighbors_from_cell_coordinates(5, 0).is_empty());
}

#[test]
fn cell_counts_are_laid_out_row_by_row() {
    let mut grid = ProximityGrid::<3, 2>::new();
    grid.try_insert(1, 0, 0).unwrap();
    grid.try_insert(2, 2, 0).unwrap();
    grid.try_insert(3, 2, 0).unwrap();
    grid.try_insert(4, 1, 1).unwrap();
    assert_eq!(grid.cell_counts(), vec![vec![1, 0, 2], vec![0, 1, 0]]);
}

#[test]
fn move_to_another_cell_rehomes_the_agent() {
    let mut grid = ProximityGrid::<4, 4>::new();
    let at = grid.try_insert(7, 0, 0).unwrap();
    let status = ProximityGridStatus { inserted_at: Some(at) };
    let status = grid.try_move(7, status, 3, 3).unwrap();
    assert_eq!(status.inserted_at, Some((3, 3)));
    assert!(grid.get_neighbors_from_cell_coordinates(0, 0).is_empty());
    assert_eq!(grid.get_neighbors_from_cell_coordinates(3, 3), vec![7]);
}

#[test]
fn move_without_a_record_inserts() {
    let mut grid = ProximityGrid::<4, 4>::new();
    let status = grid.try_move(7, ProximityGridStatus { inserted_at: None }, 1, 2).unwrap();
    assert_eq!(status.inserted_at, Some((1, 2)));
    assert_eq!(grid.cell_counts()[2][1], 1);
}

#[test]
fn move_within_the_recorded_cell_changes_nothing() {
    let mut grid = ProximityGrid::<2, 2>::new();
    for id in 0..CELL_CAPACITY as u64 {
        grid.try_insert(id, 1, 1).unwrap();
    }
    let status = ProximityGridStatus { inserted_at: Some((1, 1)) };
    let again = grid.try_move(3, status, 1, 1).unwrap();
    assert_eq!(again.inserted_at, Some((1, 1)));
    assert_eq!(
        grid.get_neighbors_from_cell_coordinates(1, 1),
        vec![0, 1, 2, 3, 4, 5, 6, 7, 8, 9]
    );
}

#[test]
fn move_into_a_full_cell_leaves_the_agent_where_it_was() {
    let mut grid = ProximityGrid::<2, 1>::new();
    for id in 0..CELL_CAPACITY as u64 {
        grid.try_insert(id, 1, 0).unwrap();
    }
    grid.try_insert(77, 0, 0).unwrap();
    let status = ProximityGridStatus { inserted_at: Some((0, 0)) };
    assert_eq!(grid.try_move(77, status, 1, 0).unwrap_err(), GridError::CapacityExceeded);
    assert_eq!(grid.cell_counts(), vec![vec![1, 10]]);
}

#[test]
fn move_outside_the_grid_is_refused() {
    let mut grid = ProximityGrid::<2, 2>::new();
    grid.try_insert(77, 0, 0).unwrap();
    let status = ProximityGridStatus { inserted_at: Some((0, 0)) };
    assert_eq!(grid.try_move(77, status, 2, 0).unwrap_err(), GridError::OutOfBounds);
    assert_eq!(grid.try_move(77, status, 0, 2).unwrap_err(), GridError::OutOfBounds);
    assert_eq!(grid.cell_counts(), vec![vec![1, 0], vec![0, 0]]);
}

#[test]
fn grids_of_one_size_can_carry_different_markers() {
    struct Fish;
    let mut fish = ProximityGrid::<2, 2, Fish>::new();
    let mut birds = ProximityGrid::<2, 2>::new();
    fish.try_insert(1, 0, 0).unwrap();
    birds.try_insert(2, 1, 1).unwrap();
    assert_eq!(fish.cell_counts(), vec![vec![1, 0], vec![0, 0]]);
    assert_eq!(birds.cell_counts(), vec![vec![0, 0], vec![0, 1]]);
}
