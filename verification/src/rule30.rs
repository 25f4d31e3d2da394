//! Rule 30, the elementary automaton that fills the grid one row per tick.

use crate::color::{interpolate_color, interpolate_spec, COLOR_END, COLOR_START};
use crate::grid::{grid_height, is_grid, lemma_grid_rows, rows, same_shape, wrap_next, wrap_prev};
use vstd::prelude::*;

verus! {

/// The Rule 30 truth table on a three-cell neighbourhood. A value other than
/// 0 or 1 in any position yields a dead cell.
pub open spec fn rule_30_spec(left: int, center: int, right: int) -> int {
    if left == 1 && center == 0 && right == 0 {
        1
    } else if left == 0 && center == 1 && right == 1 {
        1
    } else if left == 0 && center == 1 && right == 0 {
        1
    } else if left == 0 && center == 0 && right == 1 {
        1
    } else {
        0
    }
}

/// Next state of a cell from its left neighbour, itself and its right neighbour.
pub fn rule_30(left: usize, center: usize, right: usize) -> (next: usize)
    ensures
        next == rule_30_spec(left as int, center as int, right as int),
{
    match (left, center, right) {
        (1, 1, 1) => 0,
        (1, 1, 0) => 0,
        (1, 0, 1) => 0,
        (1, 0, 0) => 1,
        (0, 1, 1) => 1,
        (0, 1, 0) => 1,
        (0, 0, 1) => 1,
        (0, 0, 0) => 0,
        _ => 0,
    }
}

/// The cell to the left of column `x`; the row is a ring, so column 0 has
/// the last column to its left.
pub open spec fn left_neighbor(row: Seq<usize>, x: int) -> usize {
    row[(x - 1) % (row.len() as int)]
}

/// The cell to the right of column `x`; the last column has column 0 to its
/// right.
pub open spec fn right_neighbor(row: Seq<usize>, x: int) -> usize {
    row[(x + 1) % (row.len() as int)]
}

/// A row is a ring: the left neighbour of the first column is the last
/// column, and the right neighbour of the last column is the first.
pub proof fn lemma_row_wraps(row: Seq<usize>)
    requires
        row.len() > 0,
    ensures
        left_neighbor(row, 0) == row[row.len() - 1],
        right_neighbor(row, row.len() - 1) == row[0],
{
    let n = row.len() as int;
    vstd::arithmetic::div_mod::lemma_mod_add_multiples_vanish(-1, n);
    vstd::arithmetic::div_mod::lemma_small_mod((n - 1) as nat, n as nat);
    vstd::arithmetic::div_mod::lemma_mod_self_0(n);
}

/// Away from the two ends of a row the neighbours are the adjacent columns.
pub proof fn lemma_row_neighbors(row: Seq<usize>, x: int)
    requires
        0 <= x < row.len(),
    ensures
        0 < x ==> left_neighbor(row, x) == row[x - 1],
        x + 1 < row.len() ==> right_neighbor(row, x) == row[x + 1],
{
    let n = row.len();
    if 0 < x {
        vstd::arithmetic::div_mod::lemma_small_mod((x - 1) as nat, n);
    }
    if x + 1 < n {
        vstd::arithmetic::div_mod::lemma_small_mod((x + 1) as nat, n);
    }
}

/// The row that Rule 30 derives from `row`.
pub open spec fn rule_30_row(row: Seq<usize>) -> Seq<usize> {
    Seq::new(
        row.len(),
        |x: int|
            rule_30_spec(
                left_neighbor(row, x) as int,
                row[x] as int,
                right_neighbor(row, x) as int,
            ) as usize,
    )
}

/// The colour given to a cell that comes alive in row `depth` of a grid of
/// `height` rows: the blend from white to black at the ratio `depth / height`.
pub open spec fn gradient_color(depth: int, height: int) -> u32 {
    interpolate_spec(COLOR_START, COLOR_END, depth, height) as u32
}

/// The cells after Rule 30 has derived row `row + 1` from row `row`. From the
/// last row nothing is derived.
pub open spec fn advance_cells(cells: Seq<Seq<usize>>, row: int) -> Seq<Seq<usize>> {
    if row + 1 < cells.len() {
        cells.update(row + 1, rule_30_row(cells[row]))
    } else {
        cells
    }
}

/// The colours after that step: a cell of row `row + 1` that is now alive gets
/// the gradient colour of its depth, every other cell keeps its stored colour.
pub open spec fn advance_colors(cells: Seq<Seq<usize>>, colors: Seq<Seq<u32>>, row: int) -> Seq<
    Seq<u32>,
> {
    if row + 1 < cells.len() {
        colors.update(
            row + 1,
            Seq::new(
                colors[row + 1].len(),
                |x: int|
                    if rule_30_row(cells[row])[x] == 1 {
                        gradient_color(row + 1, cells.len() as int)
                    } else {
                        colors[row + 1][x]
                    },
            ),
        )
    } else {
        colors
    }
}

/// Derives row `current_row + 1` from row `current_row` by Rule 30 and colours
/// its live cells by their depth. On the last row the grid stays as it is.
pub fn update_grid(grid: &mut Vec<Vec<usize>>, colors: &mut Vec<Vec<u32>>, current_row: usize)
    requires
        is_grid(rows(*old(grid))),
        is_grid(rows(*old(colors))),
        same_shape(rows(*old(grid)), rows(*old(colors))),
        current_row < grid_height(rows(*old(grid))),
    ensures
        rows(*final(grid)) == advance_cells(rows(*old(grid)), current_row as int),
        rows(*final(colors)) == advance_colors(
            rows(*old(grid)),
            rows(*old(colors)),
            current_row as int,
        ),
{
    let height = grid.len();
    let width = grid[0].len();
    let ghost cells = rows(*grid);
    let ghost before = rows(*colors);
    let ghost next = current_row + 1;
    proof {
        lemma_grid_rows(*grid);
        lemma_grid_rows(*colors);
    }
    for x in 0..width
        invariant
            current_row < height,
            next == current_row + 1,
            grid.len() == height,
            colors.len() == height,
            cells.len() == height,
            before.len() == height,
            forall|r: int| 0 <= r < height ==> (#[trigger] grid[r]).len() == width,
            forall|r: int| 0 <= r < height ==> (#[trigger] colors[r]).len() == width,
            forall|r: int| 0 <= r < height ==> (#[trigger] cells[r]).len() == width,
            forall|r: int| 0 <= r < height ==> (#[trigger] before[r]).len() == width,
            forall|r: int| 0 <= r < height && r != next ==> (#[trigger] grid[r])@ == cells[r],
            forall|r: int| 0 <= r < height && r != next ==> (#[trigger] colors[r])@ == before[r],
            next < height ==> forall|c: int|
                0 <= c < x ==> grid[next][c] == rule_30_row(cells[current_row as int])[c],
            next < height ==> forall|c: int| x <= c < width ==> grid[next][c] == cells[next][c],
            next < height ==> forall|c: int|
                0 <= c < x ==> colors[next][c] == advance_colors(
                    cells,
                    before,
                    current_row as int,
                )[next][c],
            next < height ==> forall|c: int|
                x <= c < width ==> colors[next][c] == before[next][c],
    {
        let left = grid[current_row][wrap_prev(x, width)];
        let center = grid[current_row][x];
        let right = grid[current_row][wrap_next(x, width)];
        let new_state = rule_30(left, center, right);
        if current_row + 1 < height {
            grid[current_row + 1][x] = new_state;
            if new_state == 1 {
                colors[current_row + 1][x] = interpolate_color(
                    COLOR_START,
                    COLOR_END,
                    current_row + 1,
                    height,
                );
            }
        }
    }
    proof {
        if next < height {
            assert(grid[next]@ =~= rule_30_row(cells[current_row as int]));
            assert(colors[next]@ =~= advance_colors(cells, before, current_row as int)[next]);
        }
        assert(rows(*grid) =~= advance_cells(cells, current_row as int));
        assert(rows(*colors) =~= advance_colors(cells, before, current_row as int));
    }
}

} // verus!
