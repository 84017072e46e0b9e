//! Conway's Game of Life on a grid of cells, and drawing the grid into a frame.

use vstd::prelude::*;
use crate::color::{Rgba, rgba};
use crate::frame::{Frame, FrameModel, lemma_index_in_range, model_at, same_shape};

verus! {

/// The cell values of a grid, row by row.
pub open spec fn grid_model(g: Seq<Vec<bool>>) -> Seq<Seq<bool>> {
    g.map_values(|row: Vec<bool>| row@)
}

/// Every row has as many cells as the first.
pub open spec fn is_rectangular(g: Seq<Seq<bool>>) -> bool {
    forall|y: int| 0 <= y < g.len() ==> #[trigger] g[y].len() == g[0].len()
}

/// Cell `(x, y)` exists and is alive.
pub open spec fn is_alive(g: Seq<Seq<bool>>, x: int, y: int) -> bool {
    0 <= y < g.len() && 0 <= x < g[y].len() && g[y][x]
}

pub open spec fn alive_count(b: bool) -> int {
    if b {
        1
    } else {
        0
    }
}

/// Cell `(x, y)` counts as a living neighbor: it lies within the width of the
/// first row and is alive.
pub open spec fn counts_as_neighbor(g: Seq<Seq<bool>>, x: int, y: int) -> bool {
    g.len() > 0 && x < g[0].len() && is_alive(g, x, y)
}

/// Number of living cells among the eight neighbors of `(x, y)`; the grid is
/// as wide as its first row.
pub open spec fn neighbor_count(g: Seq<Seq<bool>>, x: int, y: int) -> int {
    alive_count(counts_as_neighbor(g, x - 1, y - 1)) + alive_count(counts_as_neighbor(g, x, y - 1))
        + alive_count(counts_as_neighbor(g, x + 1, y - 1)) + alive_count(counts_as_neighbor(g, x - 1, y))
        + alive_count(counts_as_neighbor(g, x + 1, y)) + alive_count(counts_as_neighbor(g, x - 1, y + 1))
        + alive_count(counts_as_neighbor(g, x, y + 1)) + alive_count(counts_as_neighbor(g, x + 1, y + 1))
}

/// Every neighbor of `(x, y)` inside the grid's first-row width and row count
/// exists in its own row, so looking it up is in bounds.
pub open spec fn lookups_in_bounds(g: Seq<Seq<bool>>, x: int, y: int) -> bool {
    let last = if x + 1 < g[0].len() {
        x + 1
    } else {
        g[0].len() - 1
    };
    forall|ny: int| y - 1 <= ny <= y + 1 && 0 <= ny < g.len() && x - 1 < g[0].len() ==> last < #[trigger] g[ny].len()
}

/// Every cell's neighbor lookups are in bounds (true of any rectangular grid).
pub open spec fn grid_lookups_in_bounds(g: Seq<Seq<bool>>) -> bool {
    forall|x: int, y: int| 0 <= y < g.len() && 0 <= x < g[y].len() ==> #[trigger] lookups_in_bounds(g, x, y)
}

/// The grid has fewer than `i32::MAX` rows and every row fewer than `i32::MAX` cells.
pub open spec fn grid_sizes_fit(g: Seq<Seq<bool>>) -> bool {
    &&& g.len() < i32::MAX
    &&& forall|y: int| 0 <= y < g.len() ==> #[trigger] g[y].len() < i32::MAX
}

/// Life's rule: a live cell survives with two or three neighbors, a dead cell
/// comes alive with exactly three.
pub open spec fn next_state(alive: bool, neighbors: int) -> bool {
    if alive {
        neighbors == 2 || neighbors == 3
    } else {
        neighbors == 3
    }
}

/// One generation of the grid.
pub open spec fn life_step(g: Seq<Seq<bool>>) -> Seq<Seq<bool>> {
    Seq::new(g.len(), |y: int| Seq::new(g[y].len(), |x: int| next_state(g[y][x], neighbor_count(g, x, y))))
}

/// The grid after `n` generations.
pub open spec fn life_steps(g: Seq<Seq<bool>>, n: nat) -> Seq<Seq<bool>>
    decreases n,
{
    if n == 0 {
        g
    } else {
        life_step(life_steps(g, (n - 1) as nat))
    }
}

/// Columns and rows of cells of side `cell_size` needed to cover the frame.
pub open spec fn grid_size(frame_width: u32, frame_height: u32, cell_size: u32) -> (u32, u32) {
    (
        ((frame_width + cell_size - 1) / (cell_size as int)) as u32,
        ((frame_height + cell_size - 1) / (cell_size as int)) as u32,
    )
}

pub fn grid_dims(frame_width: u32, frame_height: u32, cell_size: u32) -> (d: (u32, u32))
    requires
        cell_size > 0,
        frame_width + cell_size - 1 <= u32::MAX,
        frame_height + cell_size - 1 <= u32::MAX,
    ensures
        d == grid_size(frame_width, frame_height, cell_size),
{
    let grid_width = (frame_width + (cell_size - 1)) / cell_size;
    let grid_height = (frame_height + (cell_size - 1)) / cell_size;
    (grid_width, grid_height)
}

/// Whether the cell at signed position `(x, y)` counts as a living neighbor;
/// the first row is `cols` wide and the grid `rows` tall.
fn alive_at(grid: &Vec<Vec<bool>>, cols: usize, rows: usize, x: i64, y: i64) -> (a: bool)
    requires
        rows == grid@.len(),
        rows > 0,
        rows < i32::MAX,
        cols < i32::MAX,
        cols == grid@[0]@.len(),
        0 <= x < cols && 0 <= y < rows ==> x < grid@[y as int]@.len(),
    ensures
        a == counts_as_neighbor(grid_model(grid@), x as int, y as int),
{
    proof {
        assert(grid_model(grid@)[0] == grid@[0]@);
    }
    if x < 0 || y < 0 || x >= cols as i64 || y >= rows as i64 {
        false
    } else {
        proof {
            assert(grid_model(grid@)[y as int] == grid@[y as int]@);
        }
        grid[y as usize][x as usize]
    }
}

/// Number of living neighbors of cell `(x, y)`.
pub fn count_neighbors(grid: &Vec<Vec<bool>>, x: usize, y: usize) -> (n: u8)
    requires
        grid@.len() > 0,
        grid@.len() < i32::MAX,
        grid@[0]@.len() < i32::MAX,
        lookups_in_bounds(grid_model(grid@), x as int, y as int),
        x < i32::MAX,
        y < i32::MAX,
    ensures
        n == neighbor_count(grid_model(grid@), x as int, y as int),
{
    let cols = grid[0].len();
    let rows = grid.len();
    let xi = x as i64;
    let yi = y as i64;
    let ghost g = grid_model(grid@);
    proof {
        assert(g[0] == grid@[0]@);
        assert forall|ny: int| 0 <= ny < rows implies #[trigger] g[ny] == grid@[ny]@ by {}
        assert forall|ny: int| yi - 1 <= ny <= yi + 1 && 0 <= ny < rows && xi - 1 < cols implies (if xi + 1 < cols {
            xi + 1
        } else {
            cols - 1
        }) < #[trigger] grid@[ny]@.len() by {
            assert(g[ny] == grid@[ny]@);
        }
    }
    let mut count: u8 = 0;
    if alive_at(grid, cols, rows, xi - 1, yi - 1) {
        count = count + 1;
    }
    if alive_at(grid, cols, rows, xi, yi - 1) {
        count = count + 1;
    }
    if alive_at(grid, cols, rows, xi + 1, yi - 1) {
        count = count + 1;
    }
    if alive_at(grid, cols, rows, xi - 1, yi) {
        count = count + 1;
    }
    if alive_at(grid, cols, rows, xi + 1, yi) {
        count = count + 1;
    }
    if alive_at(grid, cols, rows, xi - 1, yi + 1) {
        count = count + 1;
    }
    if alive_at(grid, cols, rows, xi, yi + 1) {
        count = count + 1;
    }
    if alive_at(grid, cols, rows, xi + 1, yi + 1) {
        count = count + 1;
    }
    count
}

/// Advances the grid by one generation.
pub fn step_grid(grid: &mut Vec<Vec<bool>>)
    requires
        grid_sizes_fit(grid_model(old(grid)@)),
        grid_lookups_in_bounds(grid_model(old(grid)@)),
    ensures
        grid_model(final(grid)@) == life_step(grid_model(old(grid)@)),
{
    let ghost g = grid_model(grid@);
    let rows = grid.len();
    let mut new_grid: Vec<Vec<bool>> = Vec::new();
    let mut y: usize = 0;
    while y < rows
        invariant
            g == grid_model(grid@),
            rows == grid@.len(),
            grid_sizes_fit(g),
            grid_lookups_in_bounds(g),
            y <= rows,
            new_grid@.len() == y,
            forall|yy: int| 0 <= yy < y ==> #[trigger] grid_model(new_grid@)[yy] == life_step(g)[yy],
        decreases rows - y,
    {
        let cols = grid[y].len();
        proof {
            assert(g[y as int] == grid@[y as int]@);
            assert(g[y as int].len() < i32::MAX);
        }
        let mut row: Vec<bool> = Vec::new();
        let mut x: usize = 0;
        while x < cols
            invariant
                g == grid_model(grid@),
                rows == grid@.len(),
                grid_sizes_fit(g),
                grid_lookups_in_bounds(g),
                y < rows,
                cols == g[y as int].len(),
                cols < i32::MAX,
                x <= cols,
                row@.len() == x,
                forall|xx: int| 0 <= xx < x ==> #[trigger] row@[xx] == next_state(g[y as int][xx], neighbor_count(g, xx, y as int)),
            decreases cols - x,
        {
            proof {
                assert(g[y as int] == grid@[y as int]@);
                assert(lookups_in_bounds(g, x as int, y as int));
            }
            let live = grid[y][x];
            let neighbors = count_neighbors(grid, x, y);
            row.push(if live { neighbors == 2 || neighbors == 3 } else { neighbors == 3 });
            x = x + 1;
        }
        let ghost prev = new_grid@;
        new_grid.push(row);
        proof {
            assert(grid_model(new_grid@)[y as int] == row@);
            assert(grid_model(new_grid@)[y as int] =~= life_step(g)[y as int]);
            assert forall|yy: int| 0 <= yy < y + 1 implies #[trigger] grid_model(new_grid@)[yy] == life_step(g)[yy] by {
                if yy < y {
                    assert(new_grid@[yy] == prev[yy]);
                    assert(grid_model(new_grid@)[yy] == new_grid@[yy]@);
                    assert(grid_model(prev)[yy] == prev[yy]@);
                }
            }
        }
        y = y + 1;
    }
    assert(grid_model(new_grid@) =~= life_step(g));
    *grid = new_grid;
}

/// The rules of the game, cell by cell: a live cell with fewer than two
/// living neighbors dies, with two or three lives on, with four or more dies;
/// a dead cell with exactly three living neighbors comes alive and otherwise
/// stays dead.
pub proof fn lemma_life_rules(g: Seq<Seq<bool>>, x: int, y: int)
    requires
        0 <= y < g.len(),
        0 <= x < g[y].len(),
    ensures
        g[y][x] && neighbor_count(g, x, y) < 2 ==> !life_step(g)[y][x],
        g[y][x] && (neighbor_count(g, x, y) == 2 || neighbor_count(g, x, y) == 3) ==> life_step(g)[y][x],
        g[y][x] && neighbor_count(g, x, y) >= 4 ==> !life_step(g)[y][x],
        !g[y][x] && neighbor_count(g, x, y) == 3 ==> life_step(g)[y][x],
        !g[y][x] && neighbor_count(g, x, y) != 3 ==> !life_step(g)[y][x],
{
}

/// Every cell of a grid that is alive everywhere, away from the edges, has all
/// eight of its neighbors alive; on a grid that is dead everywhere no cell has
/// any.
pub proof fn lemma_full_and_empty_neighborhoods(g: Seq<Seq<bool>>, x: int, y: int)
    requires
        is_rectangular(g),
        1 <= y < g.len() - 1,
        1 <= x < g[0].len() - 1,
    ensures
        (forall|j: int, i: int| 0 <= j < g.len() && 0 <= i < g[j].len() ==> #[trigger] g[j][i]) ==> neighbor_count(
            g,
            x,
            y,
        ) == 8,
        (forall|j: int, i: int| 0 <= j < g.len() && 0 <= i < g[j].len() ==> !#[trigger] g[j][i]) ==> neighbor_count(
            g,
            x,
            y,
        ) == 0,
{
    assert(g[y - 1].len() == g[0].len() && g[y].len() == g[0].len() && g[y + 1].len() == g[0].len());
}

/// On a grid where a single cell `(a, b)` is alive, a cell has one living
/// neighbor exactly when it is one of the eight cells around `(a, b)`, and
/// none otherwise.
pub proof fn lemma_single_cell_neighbors(g: Seq<Seq<bool>>, a: int, b: int, x: int, y: int)
    requires
        is_rectangular(g),
        g.len() > 0,
        0 <= b < g.len(),
        0 <= a < g[0].len(),
        0 <= y < g.len(),
        0 <= x < g[0].len(),
        forall|j: int, i: int| 0 <= j < g.len() && 0 <= i < g[j].len() ==> (#[trigger] g[j][i] <==> (i == a && j == b)),
    ensures
        neighbor_count(g, x, y) == if (x, y) != (a, b) && -1 <= x - a <= 1 && -1 <= y - b <= 1 {
            1int
        } else {
            0int
        },
{
    assert forall|i: int, j: int| #[trigger] counts_as_neighbor(g, i, j) <==> (i == a && j == b) by {
        if 0 <= j < g.len() {
            assert(g[j].len() == g[0].len());
        }
    }
}

/// Running `m` generations and then `n` more is running `m + n`.
pub proof fn lemma_life_steps_compose(g: Seq<Seq<bool>>, m: nat, n: nat)
    ensures
        life_steps(life_steps(g, m), n) == life_steps(g, m + n),
    decreases n,
{
    if n > 0 {
        lemma_life_steps_compose(g, m, (n - 1) as nat);
        assert(life_steps(g, m + n) == life_step(life_steps(g, (m + n - 1) as nat)));
    }
}

/// A step keeps the number of rows and the length of every row.
pub proof fn lemma_step_keeps_shape(g: Seq<Seq<bool>>)
    ensures
        life_step(g).len() == g.len(),
        forall|y: int| 0 <= y < g.len() ==> #[trigger] life_step(g)[y].len() == g[y].len(),
{
}

/// Grids of the same shape have the same sizes and lookup bounds.
proof fn lemma_same_shape_conditions(g: Seq<Seq<bool>>, h: Seq<Seq<bool>>)
    requires
        h.len() == g.len(),
        forall|y: int| 0 <= y < g.len() ==> #[trigger] h[y].len() == g[y].len(),
        grid_sizes_fit(g),
        grid_lookups_in_bounds(g),
    ensures
        grid_sizes_fit(h),
        grid_lookups_in_bounds(h),
{
    assert forall|y: int| 0 <= y < h.len() implies #[trigger] h[y].len() < i32::MAX by {
        assert(h[y].len() == g[y].len());
    }
    assert forall|x: int, y: int| 0 <= y < h.len() && 0 <= x < h[y].len() implies #[trigger] lookups_in_bounds(h, x, y) by {
        assert(h[y].len() == g[y].len());
        assert(lookups_in_bounds(g, x, y));
        assert(h[0].len() == g[0].len());
        assert forall|ny: int| y - 1 <= ny <= y + 1 && 0 <= ny < h.len() && x - 1 < h[0].len() implies (if x + 1
            < h[0].len() {
            x + 1
        } else {
            h[0].len() - 1
        }) < #[trigger] h[ny].len() by {
            assert(h[ny].len() == g[ny].len());
        }
    }
}

/// Advances the grid by `generations` generations.
pub fn simulate_grid(grid: &mut Vec<Vec<bool>>, generations: u32)
    requires
        grid_sizes_fit(grid_model(old(grid)@)),
        grid_lookups_in_bounds(grid_model(old(grid)@)),
    ensures
        grid_model(final(grid)@) == life_steps(grid_model(old(grid)@), generations as nat),
{
    let ghost g0 = grid_model(grid@);
    let mut i: u32 = 0;
    while i < generations
        invariant
            i <= generations,
            grid_model(grid@) == life_steps(g0, i as nat),
            g0 == grid_model(old(grid)@),
            grid_sizes_fit(grid_model(grid@)),
            grid_lookups_in_bounds(grid_model(grid@)),
        decreases generations - i,
    {
        let ghost before = grid_model(grid@);
        step_grid(grid);
        proof {
            lemma_step_keeps_shape(before);
            lemma_same_shape_conditions(before, grid_model(grid@));
        }
        i = i + 1;
    }
}

/// A rectangular grid's neighbor lookups are all in bounds.
pub proof fn lemma_rectangular_lookups(g: Seq<Seq<bool>>)
    requires
        is_rectangular(g),
    ensures
        grid_lookups_in_bounds(g),
{
    assert forall|x: int, y: int| 0 <= y < g.len() && 0 <= x < g[y].len() implies #[trigger] lookups_in_bounds(g, x, y) by {
        assert forall|ny: int| y - 1 <= ny <= y + 1 && 0 <= ny < g.len() && x - 1 < g[0].len() implies (if x + 1
            < g[0].len() {
            x + 1
        } else {
            g[0].len() - 1
        }) < #[trigger] g[ny].len() by {
            assert(g[ny].len() == g[0].len());
        }
    }
}

/// A grid with no living cell stays without living cells.
pub proof fn lemma_dead_grid_stays_dead(g: Seq<Seq<bool>>, n: nat)
    requires
        forall|y: int, x: int| 0 <= y < g.len() && 0 <= x < g[y].len() ==> !#[trigger] g[y][x],
    ensures
        forall|y: int, x: int|
            0 <= y < life_steps(g, n).len() && 0 <= x < life_steps(g, n)[y].len() ==> !#[trigger] life_steps(g, n)[y][x],
        life_steps(g, n).len() == g.len(),
    decreases n,
{
    if n > 0 {
        lemma_dead_grid_stays_dead(g, (n - 1) as nat);
    }
}

/// Color of frame pixel `(px, py)` after drawing the grid with cells of side
/// `cell_size`: white where the covering cell is alive, otherwise unchanged.
pub open spec fn drawn_pixel(g: Seq<Seq<bool>>, cell_size: u32, before: Rgba, px: int, py: int) -> Rgba {
    if cell_size > 0 && is_alive(g, px / (cell_size as int), py / (cell_size as int)) {
        rgba(255, 255, 255, 255)
    } else {
        before
    }
}

/// Every living cell's block of pixels stays within `u32` coordinates.
pub open spec fn cells_fit(g: Seq<Seq<bool>>, cell_size: u32) -> bool {
    forall|x: int, y: int|
        #[trigger] is_alive(g, x, y) ==> (x + 1) * cell_size <= 0x1_0000_0000 && (y + 1) * cell_size <= 0x1_0000_0000
}

/// Paints the block of every living cell white; other pixels are untouched.
pub fn render_grid(grid: &Vec<Vec<bool>>, frame: &mut Frame, cell_size: u32)
    requires
        old(frame).wf(),
        cells_fit(grid_model(grid@), cell_size),
    ensures
        final(frame).wf(),
        same_shape(final(frame)@, old(frame)@),
        forall|px: int, py: int|
            0 <= px < final(frame).width && 0 <= py < final(frame).height ==> final(frame).at(px, py)
                == #[trigger] drawn_pixel(grid_model(grid@), cell_size, old(frame).at(px, py), px, py),
{
    let ghost g = grid_model(grid@);
    let ghost m = frame@;
    let w = frame.width;
    let h = frame.height;
    if cell_size == 0 {
        return;
    }
    let rows = grid.len();
    let mut py: u32 = 0;
    while py < h
        invariant
            g == grid_model(grid@),
            rows == g.len(),
            cell_size > 0,
            frame.wf(),
            same_shape(frame@, m),
            w == frame.width,
            h == frame.height,
            py <= h,
            forall|px: int, qy: int|
                0 <= px < w && 0 <= qy < h ==> #[trigger] model_at(frame@, px, qy) == if qy < py {
                    drawn_pixel(g, cell_size, m.pixels[qy * w + px], px, qy)
                } else {
                    m.pixels[qy * w + px]
                },
        decreases h - py,
    {
        let gy = (py / cell_size) as usize;
        let mut px: u32 = 0;
        while px < w
            invariant
                g == grid_model(grid@),
                rows == g.len(),
                cell_size > 0,
                frame.wf(),
                same_shape(frame@, m),
                w == frame.width,
                h == frame.height,
                py < h,
                gy == py / cell_size,
                px <= w,
                forall|qx: int, qy: int|
                    0 <= qx < w && 0 <= qy < h ==> #[trigger] model_at(frame@, qx, qy) == if qy < py || (qy == py && qx < px) {
                        drawn_pixel(g, cell_size, m.pixels[qy * w + qx], qx, qy)
                    } else {
                        m.pixels[qy * w + qx]
                    },
            decreases w - px,
        {
            let gx = (px / cell_size) as usize;
            let alive = gy < rows && gx < grid[gy].len() && grid[gy][gx];
            proof {
                lemma_index_in_range(w, h, px, py);
                if gy < rows {
                    assert(g[gy as int] == grid@[gy as int]@);
                }
                assert(alive == is_alive(g, px as int / (cell_size as int), py as int / (cell_size as int)));
            }
            let ghost before = frame@;
            if alive {
                frame.set_pixel(px, py, Rgba::white());
            }
            proof {
                assert forall|qx: int, qy: int| 0 <= qx < w && 0 <= qy < h && (qx, qy) != (px as int, py as int)
                    implies #[trigger] model_at(frame@, qx, qy) == model_at(before, qx, qy) by {
                    lemma_index_in_range(w, h, qx as u32, qy as u32);
                    crate::frame::lemma_index_distinct(w, h, px, py, qx as u32, qy as u32);
                }
                assert(model_at(before, px as int, py as int) == m.pixels[py * w + px]);
                assert(model_at(frame@, px as int, py as int) == drawn_pixel(g, cell_size, m.pixels[py * w + px], px as int, py as int));
                assert forall|qx: int, qy: int|
                    0 <= qx < w && 0 <= qy < h implies #[trigger] model_at(frame@, qx, qy) == if qy < py || (qy == py && qx < px + 1) {
                        drawn_pixel(g, cell_size, m.pixels[qy * w + qx], qx, qy)
                    } else {
                        m.pixels[qy * w + qx]
                    } by {
                    if (qx, qy) != (px as int, py as int) {
                        assert(model_at(before, qx, qy) == if qy < py || (qy == py && qx < px) {
                            drawn_pixel(g, cell_size, m.pixels[qy * w + qx], qx, qy)
                        } else {
                            m.pixels[qy * w + qx]
                        });
                    }
                }
            }
            px = px + 1;
        }
        py = py + 1;
    }
    assert forall|px: int, py: int|
        0 <= px < w && 0 <= py < h implies frame.at(px, py) == #[trigger] drawn_pixel(g, cell_size, m.pixels[py * w + px], px, py) by {
        assert(model_at(frame@, px, py) == drawn_pixel(g, cell_size, m.pixels[py * w + px], px, py));
    }
}

} // verus!
