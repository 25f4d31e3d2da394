//! Conway's Game of Life on a torus.

use crate::grid::{grid_height, grid_width, is_grid, lemma_grid_rows, rows, same_shape, wrap_next, wrap_prev, wrapped_cell};
use vstd::prelude::*;

verus! {

/// The colour a cell takes when it is born.
pub const BIRTH_COLOR: u32 = 0xFFFFFF;

/// 1 if the cell at `(y, x)`, taken on the torus, is alive, else 0.
pub open spec fn alive_at(cells: Seq<Seq<usize>>, y: int, x: int) -> int {
    if wrapped_cell(cells, y, x) == 1 {
        1
    } else {
        0
    }
}

/// How many of the eight cells around `(y, x)` are alive. Each of the eight
/// offsets is counted, also where two of them wrap onto one cell of a narrow
/// grid.
pub open spec fn live_neighbors(cells: Seq<Seq<usize>>, y: int, x: int) -> int {
    alive_at(cells, y - 1, x - 1) + alive_at(cells, y - 1, x) + alive_at(cells, y - 1, x + 1)
        + alive_at(cells, y, x - 1) + alive_at(cells, y, x + 1) + alive_at(cells, y + 1, x - 1)
        + alive_at(cells, y + 1, x) + alive_at(cells, y + 1, x + 1)
}

/// A dead cell with exactly three live neighbours comes alive.
pub open spec fn is_born(state: usize, neighbors: int) -> bool {
    state == 0 && neighbors == 3
}

/// The life rule: a live cell survives with two or three live neighbours, a
/// dead cell is born with exactly three, every other cell is dead.
pub open spec fn conway_cell(state: usize, neighbors: int) -> usize {
    if state == 1 && (neighbors == 2 || neighbors == 3) {
        1
    } else if is_born(state, neighbors) {
        1
    } else {
        0
    }
}

/// The generation that follows `cells`.
pub open spec fn conway_step(cells: Seq<Seq<usize>>) -> Seq<Seq<usize>> {
    Seq::new(
        cells.len(),
        |y: int|
            Seq::new(
                cells[y].len(),
                |x: int| conway_cell(cells[y][x], live_neighbors(cells, y, x)),
            ),
    )
}

/// The colours after the step from `cells`: a newborn cell turns white, every
/// other cell keeps the colour stored for it.
pub open spec fn conway_colors(cells: Seq<Seq<usize>>, colors: Seq<Seq<u32>>) -> Seq<Seq<u32>> {
    Seq::new(
        colors.len(),
        |y: int|
            Seq::new(
                colors[y].len(),
                |x: int|
                    if is_born(cells[y][x], live_neighbors(cells, y, x)) {
                        BIRTH_COLOR
                    } else {
                        colors[y][x]
                    },
            ),
    )
}

/// 1 if the cell at row `y`, column `x` is alive, else 0.
fn live_at(grid: &Vec<Vec<usize>>, y: usize, x: usize) -> (live: usize)
    requires
        is_grid(rows(*grid)),
        y < grid_height(rows(*grid)),
        x < grid_width(rows(*grid)),
    ensures
        live == (if rows(*grid)[y as int][x as int] == 1 { 1int } else { 0int }),
{
    assert(rows(*grid)[y as int].len() == rows(*grid)[0].len());
    if grid[y][x] == 1 {
        1
    } else {
        0
    }
}

/// Counts the live cells among the eight toroidal neighbours of `(y, x)`.
pub fn count_live_neighbors(grid: &Vec<Vec<usize>>, y: usize, x: usize) -> (count: usize)
    requires
        is_grid(rows(*grid)),
        y < grid_height(rows(*grid)),
        x < grid_width(rows(*grid)),
    ensures
        count == live_neighbors(rows(*grid), y as int, x as int),
{
    proof {
        lemma_grid_rows(*grid);
    }
    let height = grid.len();
    let width = grid[0].len();
    let north = wrap_prev(y, height);
    let south = wrap_next(y, height);
    let west = wrap_prev(x, width);
    let east = wrap_next(x, width);
    proof {
        vstd::arithmetic::div_mod::lemma_small_mod(y as nat, height as nat);
        vstd::arithmetic::div_mod::lemma_small_mod(x as nat, width as nat);
    }
    live_at(grid, north, west) + live_at(grid, north, x) + live_at(grid, north, east) + live_at(
        grid,
        y,
        west,
    ) + live_at(grid, y, east) + live_at(grid, south, west) + live_at(grid, south, x) + live_at(
        grid,
        south,
        east,
    )
}

/// Computes the generation that follows `grid` into `new_grid`, reading only
/// `grid`, and whitens the stored colour of every newborn cell.
pub fn conway_rules(
    grid: &Vec<Vec<usize>>,
    new_grid: &mut Vec<Vec<usize>>,
    colors: &mut Vec<Vec<u32>>,
)
    requires
        is_grid(rows(*grid)),
        is_grid(rows(*old(new_grid))),
        is_grid(rows(*old(colors))),
        same_shape(rows(*grid), rows(*old(new_grid))),
        same_shape(rows(*grid), rows(*old(colors))),
    ensures
        rows(*final(new_grid)) == conway_step(rows(*grid)),
        rows(*final(colors)) == conway_colors(rows(*grid), rows(*old(colors))),
{
    let height = grid.len();
    let width = grid[0].len();
    let ghost cells = rows(*grid);
    let ghost before = rows(*colors);
    proof {
        lemma_grid_rows(*grid);
        lemma_grid_rows(*new_grid);
        lemma_grid_rows(*colors);
    }
    for y in 0..height
        invariant
            height == grid.len(),
            width == grid[0].len(),
            cells == rows(*grid),
            is_grid(cells),
            new_grid.len() == height,
            colors.len() == height,
            forall|r: int| 0 <= r < height ==> (#[trigger] new_grid[r]).len() == width,
            forall|r: int| 0 <= r < height ==> (#[trigger] colors[r]).len() == width,
            before.len() == height,
            forall|r: int| 0 <= r < height ==> (#[trigger] before[r]).len() == width,
            forall|r: int| 0 <= r < y ==> (#[trigger] new_grid[r])@ == conway_step(cells)[r],
            forall|r: int|
                0 <= r < y ==> (#[trigger] colors[r])@ == conway_colors(cells, before)[r],
            forall|r: int| y <= r < height ==> (#[trigger] colors[r])@ == before[r],
    {
        for x in 0..width
            invariant
                y < height,
                height == grid.len(),
                width == grid[0].len(),
                cells == rows(*grid),
                is_grid(cells),
                new_grid.len() == height,
                colors.len() == height,
                forall|r: int| 0 <= r < height ==> (#[trigger] new_grid[r]).len() == width,
                forall|r: int| 0 <= r < height ==> (#[trigger] colors[r]).len() == width,
                before.len() == height,
                forall|r: int| 0 <= r < height ==> (#[trigger] before[r]).len() == width,
                forall|r: int| 0 <= r < y ==> (#[trigger] new_grid[r])@ == conway_step(cells)[r],
                forall|r: int|
                    0 <= r < y ==> (#[trigger] colors[r])@ == conway_colors(cells, before)[r],
                forall|r: int| y < r < height ==> (#[trigger] colors[r])@ == before[r],
                forall|c: int|
                    0 <= c < x ==> new_grid[y as int][c] == conway_cell(
                        cells[y as int][c],
                        live_neighbors(cells, y as int, c),
                    ),
                forall|c: int|
                    0 <= c < x ==> colors[y as int][c] == conway_colors(cells, before)[y as int][c],
                forall|c: int| x <= c < width ==> colors[y as int][c] == before[y as int][c],
        {
            assert(cells[y as int].len() == cells[0].len());
            let live_neighbors = count_live_neighbors(grid, y, x);
            let state = grid[y][x];
            if state == 1 && (live_neighbors == 2 || live_neighbors == 3) {
                new_grid[y][x] = 1;
            } else if state == 0 && live_neighbors == 3 {
                colors[y][x] = BIRTH_COLOR;
                new_grid[y][x] = 1;
            } else {
                new_grid[y][x] = 0;
            }
        }
        assert(new_grid[y as int]@ =~= conway_step(cells)[y as int]);
        assert(colors[y as int]@ =~= conway_colors(cells, before)[y as int]);
    }
    assert(rows(*new_grid) =~= conway_step(cells));
    assert(rows(*colors) =~= conway_colors(cells, before));
}

} // verus!
