use conjam::sand::{
    draw_point, fill_grid_randomly, get, sand_cells, step, update, x_y_to_index, Cell, GameState,
    Grid, BRUSH_RADIUS, GRID_SIZE,
};

fn grid_with(size: i32, grains: &[(i32, i32)]) -> Grid {
    let mut grid = Grid::new(size);
    for &(x, y) in grains {
        conjam::sand::set(&mut grid, x, y, Cell::Sand);
    }
    grid
}

#[test]
fn sets_cells_correctly() {
    let mut grid = Grid::new(16);

    conjam::sand::set(&mut grid, 0, 0, Cell::Sand);
    let val = get(&grid, 0, 0);

    assert_eq!(val, Some(&Cell::Sand));
}

#[test]
fn new_grid_holds_only_air() {
    let grid = Grid::new(16);
    assert_eq!(grid.size(), 16);
    for x in 0..16 {
        for y in 0..16 {
            assert_eq!(get(&grid, x, y), Some(&Cell::Air));
        }
    }
    assert_eq!(sand_cells(&grid), vec![]);
}

#[test]
fn grid_of_side_zero_has_no_cell() {
    let mut grid = Grid::new(0);
    assert_eq!(grid.size(), 0);
    assert_eq!(get(&grid, 0, 0), None);
    conjam::sand::set(&mut grid, 0, 0, Cell::Sand);
    draw_point(&mut grid, 0, 0, 3);
    let next = step(&grid);
    assert_eq!(next.size(), 0);
    assert_eq!(sand_cells(&next), vec![]);
}

#[test]
fn index_counts_rows_from_the_floor() {
    let grid = Grid::new(16);
    assert_eq!(x_y_to_index(&grid, 0, 0), Some(0));
    assert_eq!(x_y_to_index(&grid, 3, 2), Some(35));
    assert_eq!(x_y_to_index(&grid, 15, 15), Some(255));
}

#[test]
fn index_outside_the_grid_is_none() {
    let grid = Grid::new(16);
    assert_eq!(x_y_to_index(&grid, -1, 0), None);
    assert_eq!(x_y_to_index(&grid, 0, -1), None);
    assert_eq!(x_y_to_index(&grid, 16, 0), None);
    assert_eq!(x_y_to_index(&grid, 0, 16), None);
    assert_eq!(x_y_to_index(&grid, i32::MAX, i32::MAX), None);
    assert_eq!(x_y_to_index(&grid, i32::MIN, i32::MIN), None);
}

#[test]
fn get_after_set_returns_the_value_everywhere() {
    let mut grid = Grid::new(7);
    for x in 0..7 {
        for y in 0..7 {
            conjam::sand::set(&mut grid, x, y, Cell::Sand);
            assert_eq!(get(&grid, x, y), Some(&Cell::Sand));
            conjam::sand::set(&mut grid, x, y, Cell::Air);
            assert_eq!(get(&grid, x, y), Some(&Cell::Air));
        }
    }
}

#[test]
fn set_leaves_the_other_cells_alone() {
    let mut grid = grid_with(5, &[(1, 1)]);
    conjam::sand::set(&mut grid, 3, 2, Cell::Sand);
    assert_eq!(sand_cells(&grid), vec![(1, 1), (3, 2)]);
}

#[test]
fn get_outside_the_grid_is_none() {
    let grid = grid_with(4, &[(0, 0), (3, 3)]);
    assert_eq!(get(&grid, -1, 0), None);
    assert_eq!(get(&grid, 0, -1), None);
    assert_eq!(get(&grid, 4, 0), None);
    assert_eq!(get(&grid, 0, 4), None);
    assert_eq!(get(&grid, 4, 4), None);
}

#[test]
fn set_outside_the_grid_changes_nothing() {
    let mut grid = grid_with(4, &[(1, 2)]);
    conjam::sand::set(&mut grid, -1, 0, Cell::Sand);
    conjam::sand::set(&mut grid, 0, -1, Cell::Sand);
    conjam::sand::set(&mut grid, 4, 0, Cell::Sand);
    conjam::sand::set(&mut grid, 0, 4, Cell::Sand);
    conjam::sand::set(&mut grid, 1, i32::MAX, Cell::Sand);
    assert_eq!(grid.size(), 4);
    assert_eq!(sand_cells(&grid), vec![(1, 2)]);
}

#[test]
fn sand_cells_lists_row_by_row() {
    let grid = grid_with(16, &[(3, 2), (1, 0), (0, 2), (15, 15)]);
    assert_eq!(sand_cells(&grid), vec![(1, 0), (0, 2), (3, 2), (15, 15)]);
}

#[test]
fn grain_on_the_floor_stays() {
    let mut grid = grid_with(8, &[(5, 0)]);
    for _ in 0..20 {
        grid = step(&grid);
        assert_eq!(sand_cells(&grid), vec![(5, 0)]);
    }
}

#[test]
fn grain_falls_one_row_per_step() {
    let mut grid = grid_with(8, &[(2, 6)]);
    for expected in [5, 4, 3, 2, 1, 0, 0, 0] {
        grid = step(&grid);
        assert_eq!(sand_cells(&grid), vec![(2, expected)]);
    }
}

#[test]
fn grain_in_the_top_corner_reaches_the_floor() {
    let mut grid = grid_with(4, &[(3, 3)]);
    grid = step(&grid);
    assert_eq!(sand_cells(&grid), vec![(3, 2)]);
    grid = step(&step(&grid));
    assert_eq!(sand_cells(&grid), vec![(3, 0)]);
}

#[test]
fn stacked_grains_with_a_gap_both_fall() {
    let grid = grid_with(8, &[(2, 2), (2, 4)]);
    let next = step(&grid);
    assert_eq!(sand_cells(&next), vec![(2, 1), (2, 3)]);
    assert_eq!(get(&next, 2, 2), Some(&Cell::Air));
    assert_eq!(get(&next, 2, 4), Some(&Cell::Air));
    assert_eq!(next.size(), 8);
}

#[test]
fn grain_on_a_falling_grain_waits() {
    let grid = grid_with(8, &[(2, 2), (2, 3)]);
    let next = step(&grid);
    assert_eq!(sand_cells(&next), vec![(2, 1), (2, 3)]);
    let later = step(&next);
    assert_eq!(sand_cells(&later), vec![(2, 0), (2, 2)]);
}

#[test]
fn pile_on_the_floor_is_at_rest() {
    let grid = grid_with(6, &[(1, 0), (1, 1), (1, 2), (4, 0)]);
    let next = step(&grid);
    assert_eq!(sand_cells(&next), sand_cells(&grid));
}

#[test]
fn columns_do_not_touch_each_other() {
    let grid = grid_with(6, &[(0, 3), (1, 1), (2, 0), (5, 5)]);
    let next = step(&grid);
    assert_eq!(sand_cells(&next), vec![(1, 0), (2, 0), (0, 2), (5, 4)]);
}

#[test]
fn step_does_not_touch_its_input() {
    let grid = grid_with(6, &[(3, 3)]);
    let _ = step(&grid);
    assert_eq!(sand_cells(&grid), vec![(3, 3)]);
}

#[test]
fn step_keeps_the_number_of_grains() {
    let mut grid = Grid::new(32);
    fill_grid_randomly(&mut grid, [Cell::Air, Cell::Sand]);
    let grains = sand_cells(&grid).len();
    for _ in 0..40 {
        grid = step(&grid);
        assert_eq!(grid.size(), 32);
        assert_eq!(sand_cells(&grid).len(), grains);
    }
}

#[test]
fn full_grid_is_at_rest() {
    let mut grid = Grid::new(5);
    fill_grid_randomly(&mut grid, [Cell::Sand, Cell::Sand]);
    assert_eq!(sand_cells(&grid).len(), 25);
    let next = step(&grid);
    assert_eq!(sand_cells(&next).len(), 25);
}

#[test]
fn random_fill_takes_every_cell_from_the_choices() {
    let mut grid = grid_with(9, &[(4, 4)]);
    fill_grid_randomly(&mut grid, [Cell::Sand, Cell::Sand]);
    assert_eq!(grid.size(), 9);
    assert_eq!(sand_cells(&grid).len(), 81);
    fill_grid_randomly(&mut grid, [Cell::Air, Cell::Air]);
    assert_eq!(grid.size(), 9);
    assert_eq!(sand_cells(&grid), vec![]);
}

#[test]
fn random_fill_uses_both_choices() {
    let mut grid = Grid::new(64);
    fill_grid_randomly(&mut grid, [Cell::Air, Cell::Sand]);
    let grains = sand_cells(&grid).len();
    assert!(grains > 0);
    assert!(grains < 64 * 64);
}

#[test]
fn brush_paints_a_square() {
    let mut grid = Grid::new(16);
    draw_point(&mut grid, 5, 7, 1);
    assert_eq!(
        sand_cells(&grid),
        vec![(4, 6), (5, 6), (6, 6), (4, 7), (5, 7), (6, 7), (4, 8), (5, 8), (6, 8)]
    );
}

#[test]
fn brush_of_radius_zero_paints_one_cell() {
    let mut grid = Grid::new(16);
    draw_point(&mut grid, 5, 7, 0);
    assert_eq!(sand_cells(&grid), vec![(5, 7)]);
}

#[test]
fn brush_of_negative_radius_paints_nothing() {
    let mut grid = Grid::new(16);
    draw_point(&mut grid, 5, 7, -1);
    draw_point(&mut grid, 5, 7, i32::MIN);
    assert_eq!(sand_cells(&grid), vec![]);
}

#[test]
fn brush_is_cut_at_the_edges() {
    let mut grid = Grid::new(16);
    draw_point(&mut grid, 0, 15, 1);
    assert_eq!(sand_cells(&grid), vec![(0, 14), (1, 14), (0, 15), (1, 15)]);
    let mut other = Grid::new(16);
    draw_point(&mut other, -1, -1, 1);
    assert_eq!(sand_cells(&other), vec![(0, 0)]);
}

#[test]
fn brush_far_from_the_grid_paints_nothing() {
    let mut grid = Grid::new(16);
    draw_point(&mut grid, 40, 40, 4);
    draw_point(&mut grid, -40, 3, 4);
    draw_point(&mut grid, i32::MAX, i32::MAX, 4);
    draw_point(&mut grid, i32::MIN, i32::MIN, 4);
    assert_eq!(sand_cells(&grid), vec![]);
}

#[test]
fn brush_wider_than_the_grid_fills_it() {
    let mut grid = Grid::new(6);
    draw_point(&mut grid, 2, 2, i32::MAX);
    assert_eq!(sand_cells(&grid).len(), 36);
}

#[test]
fn brush_keeps_what_was_there() {
    let mut grid = grid_with(16, &[(0, 0), (5, 7)]);
    draw_point(&mut grid, 5, 7, 0);
    assert_eq!(sand_cells(&grid), vec![(0, 0), (5, 7)]);
}

#[test]
fn clone_is_the_same_grid() {
    let grid = grid_with(6, &[(0, 3), (1, 1)]);
    let copy = grid.clone();
    assert_eq!(copy.size(), 6);
    assert_eq!(sand_cells(&copy), sand_cells(&grid));
}

#[test]
fn new_game_fills_the_whole_grid() {
    let state = GameState::new();
    assert_eq!(GRID_SIZE, 256);
    assert_eq!(state.grid().size(), 256);
    let grains = sand_cells(state.grid()).len();
    assert!(grains > 0);
    assert!(grains < 256 * 256);
}

#[test]
fn frame_without_pointer_draws_then_steps() {
    let mut state = GameState::new();
    let before = state.grid().clone();
    let drawn = update(&mut state, None);
    assert_eq!(drawn, sand_cells(&before));
    assert_eq!(sand_cells(state.grid()), sand_cells(&step(&before)));
    assert_eq!(state.grid().size(), 256);
}

#[test]
fn frame_with_pointer_paints_before_the_step() {
    let mut state = GameState::new();
    let mut expected = state.grid().clone();
    let drawn = update(&mut state, Some((100, 200)));
    assert_eq!(drawn, sand_cells(&expected));
    assert_eq!(BRUSH_RADIUS, 4);
    draw_point(&mut expected, 100, 200, 4);
    for x in 96..=104 {
        for y in 196..=204 {
            assert_eq!(get(&expected, x, y), Some(&Cell::Sand));
        }
    }
    assert_eq!(sand_cells(state.grid()), sand_cells(&step(&expected)));
}

#[test]
fn screen_is_512_by_512() {
    assert_eq!(conjam::SCREEN_WIDTH, 512);
    assert_eq!(conjam::SCREEN_HEIGHT, 512);
}

#[test]
fn grid_has_side_times_side_cells_before_and_after_a_step() {
    let mut grid = Grid::new(12);
    fill_grid_randomly(&mut grid, [Cell::Air, Cell::Sand]);
    for _ in 0..3 {
        assert_eq!(grid.size(), 12);
        let mut indices: Vec<usize> = Vec::new();
        for y in 0..12 {
            for x in 0..12 {
                assert!(get(&grid, x, y).is_some());
                indices.push(x_y_to_index(&grid, x, y).unwrap());
            }
        }
        let expected: Vec<usize> = (0..144).collect();
        assert_eq!(indices, expected);
        assert_eq!(get(&grid, 12, 0), None);
        assert_eq!(get(&grid, 0, 12), None);
        grid = step(&grid);
    }
}
