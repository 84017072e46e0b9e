use frameseed::color::Rgba;
use frameseed::conway::{count_neighbors, grid_dims, render_grid, simulate_grid, step_grid};
use frameseed::frame::Frame;

fn blinker_horizontal() -> Vec<Vec<bool>> {
    vec![
        vec![false, false, false, false, false],
        vec![false, true, true, true, false],
        vec![false, false, false, false, false],
    ]
}

#[test]
fn test_grid_dims() {
    assert_eq!(grid_dims(100, 100, 4), (25, 25));
    assert_eq!(grid_dims(101, 65, 4), (26, 17));
}

#[test]
fn test_count_neighbors() {
    let grid = vec![
        vec![true, false, true],
        vec![false, true, false],
        vec![true, false, true],
    ];
    assert_eq!(count_neighbors(&grid, 1, 1), 4);
}

#[test]
fn blinker_oscillates_horizontally_and_vertically() {
    let mut grid = blinker_horizontal();

    step_grid(&mut grid);
    assert!(!grid[1][1] && grid[0][2] && grid[1][2] && grid[2][2]);

    step_grid(&mut grid);
    assert!(grid[1][1] && grid[1][2] && grid[1][3]);
    assert!(!grid[0][2] && !grid[2][2]);
}

#[test]
fn count_neighbors_ignores_cells_beyond_the_edges() {
    let grid = vec![vec![true, true], vec![true, true]];
    assert_eq!(count_neighbors(&grid, 0, 0), 3);
    assert_eq!(count_neighbors(&grid, 1, 1), 3);
    assert_eq!(count_neighbors(&vec![vec![true]], 0, 0), 0);
}

#[test]
fn grid_dims_with_cell_size_one_is_the_frame_size() {
    assert_eq!(grid_dims(7, 3, 1), (7, 3));
    assert_eq!(grid_dims(0, 0, 5), (0, 0));
}

#[test]
fn blinker_returns_after_two_generations() {
    let mut grid = blinker_horizontal();
    simulate_grid(&mut grid, 2);
    assert_eq!(grid, blinker_horizontal());
    simulate_grid(&mut grid, 0);
    assert_eq!(grid, blinker_horizontal());
}

#[test]
fn a_dead_grid_stays_dead() {
    let mut grid = vec![vec![false; 6]; 4];
    simulate_grid(&mut grid, 5);
    assert_eq!(grid, vec![vec![false; 6]; 4]);
}

#[test]
fn block_still_life_is_unchanged() {
    let block = vec![
        vec![false, false, false, false],
        vec![false, true, true, false],
        vec![false, true, true, false],
        vec![false, false, false, false],
    ];
    let mut grid = block.clone();
    step_grid(&mut grid);
    assert_eq!(grid, block);
}

#[test]
fn render_grid_paints_living_cells_white() {
    let grid = vec![vec![true, false], vec![false, true]];
    let mut frame = Frame::new(4, 4);
    frame.set_pixel(2, 0, Rgba::new(1, 2, 3, 4));
    render_grid(&grid, &mut frame, 2);
    assert_eq!(frame.get_pixel(0, 0), Some(Rgba::white()));
    assert_eq!(frame.get_pixel(1, 1), Some(Rgba::white()));
    assert_eq!(frame.get_pixel(3, 3), Some(Rgba::white()));
    assert_eq!(frame.get_pixel(2, 0), Some(Rgba::new(1, 2, 3, 4)));
    assert_eq!(frame.get_pixel(0, 3), Some(Rgba::black()));
}

#[test]
fn render_grid_clips_cells_at_the_frame_edge() {
    let grid = vec![vec![false, true]];
    let mut frame = Frame::new(3, 1);
    render_grid(&grid, &mut frame, 2);
    assert_eq!(frame.get_pixel(1, 0), Some(Rgba::black()));
    assert_eq!(frame.get_pixel(2, 0), Some(Rgba::white()));
    assert_eq!(frame.pixels.len(), 3);
}

#[test]
fn neighbors_are_counted_within_the_first_row_width() {
    let grid = vec![vec![true, true], vec![true, true, true]];
    assert_eq!(count_neighbors(&grid, 2, 1), 2);
    let mut ragged = grid.clone();
    step_grid(&mut ragged);
    assert_eq!(ragged, grid);
    let mut lonely = vec![vec![false, false], vec![false, false, true]];
    step_grid(&mut lonely);
    assert_eq!(lonely, vec![vec![false, false], vec![false, false, false]]);
}

#[test]
fn grid_dims_at_the_largest_frame_width() {
    assert_eq!(grid_dims(u32::MAX, 10, 1), (u32::MAX, 10));
    assert_eq!(grid_dims(u32::MAX - 3, 8, 4), (u32::MAX / 4, 2));
}
