//! The mathematical model of a grid and the wraparound arithmetic on its
//! coordinates.
//!
//! A grid is a vector of rows. Contracts speak of it as a sequence of
//! sequences, addressed `[row][column]`; every neighbour lookup takes its
//! coordinates modulo the grid's height and width.

use vstd::arithmetic::div_mod::*;
use vstd::prelude::*;

verus! {

/// The contents of a nested vector, row by row.
pub open spec fn rows<T>(grid: Vec<Vec<T>>) -> Seq<Seq<T>> {
    Seq::new(grid@.len(), |r: int| grid@[r]@)
}

/// Number of rows.
pub open spec fn grid_height<T>(grid: Seq<Seq<T>>) -> int {
    grid.len() as int
}

/// Number of columns: the length of the first row.
pub open spec fn grid_width<T>(grid: Seq<Seq<T>>) -> int {
    if grid.len() > 0 {
        grid[0].len() as int
    } else {
        0
    }
}

/// A grid is well formed when it has at least one cell and all its rows have
/// the same length.
pub open spec fn is_grid<T>(grid: Seq<Seq<T>>) -> bool {
    &&& grid.len() > 0
    &&& grid[0].len() > 0
    &&& forall|r: int| 0 <= r < grid.len() ==> (#[trigger] grid[r]).len() == grid[0].len()
}

/// Two grids cover the same coordinates.
pub open spec fn same_shape<A, B>(a: Seq<Seq<A>>, b: Seq<Seq<B>>) -> bool {
    grid_height(a) == grid_height(b) && grid_width(a) == grid_width(b)
}

/// Unfolds `is_grid` from the model to the rows of the vector itself.
pub proof fn lemma_grid_rows<T>(grid: Vec<Vec<T>>)
    requires
        is_grid(rows(grid)),
    ensures
        grid@.len() > 0,
        grid@[0]@.len() > 0,
        grid_height(rows(grid)) == grid@.len(),
        grid_width(rows(grid)) == grid@[0]@.len(),
        forall|r: int| 0 <= r < grid@.len() ==> (#[trigger] grid@[r])@.len() == grid@[0]@.len(),
{
    assert forall|r: int| 0 <= r < grid@.len() implies (#[trigger] grid@[r])@.len()
        == grid@[0]@.len() by {
        assert(rows(grid)[r].len() == rows(grid)[0].len());
    }
}

/// The cell at `(y, x)` on the torus: both coordinates wrap around.
pub open spec fn wrapped_cell(cells: Seq<Seq<usize>>, y: int, x: int) -> usize {
    cells[y % grid_height(cells)][x % grid_width(cells)]
}

/// The grid every run starts from: all cells dead but the middle one of the
/// top row.
pub open spec fn seeded_grid(width: int, height: int) -> Seq<Seq<usize>> {
    Seq::new(
        height as nat,
        |y: int|
            Seq::new(
                width as nat,
                |x: int|
                    if y == 0 && x == width / 2 {
                        1usize
                    } else {
                        0usize
                    },
            ),
    )
}

/// A grid of `height` rows and `width` columns that holds `value` everywhere.
pub open spec fn uniform_grid<T>(width: int, height: int, value: T) -> Seq<Seq<T>> {
    Seq::new(height as nat, |y: int| Seq::new(width as nat, |x: int| value))
}

/// The index before `i` on a ring of `n` positions.
pub fn wrap_prev(i: usize, n: usize) -> (prev: usize)
    requires
        i < n,
    ensures
        prev == (i - 1) % (n as int),
        prev < n,
{
    proof {
        if i == 0 {
            lemma_mod_add_multiples_vanish(-1, n as int);
            lemma_small_mod((n - 1) as nat, n as nat);
        } else {
            lemma_small_mod((i - 1) as nat, n as nat);
        }
    }
    if i == 0 {
        n - 1
    } else {
        i - 1
    }
}

/// The index after `i` on a ring of `n` positions.
pub fn wrap_next(i: usize, n: usize) -> (next: usize)
    requires
        i < n,
    ensures
        next == (i + 1) % (n as int),
        next < n,
{
    proof {
        if i + 1 < n {
            lemma_small_mod((i + 1) as nat, n as nat);
        } else {
            lemma_mod_self_0(n as int);
        }
    }
    if i == n - 1 {
        0
    } else {
        i + 1
    }
}

/// `base + delta` on a ring of `n` positions, computed without overflow.
pub fn wrap_add(base: usize, delta: usize, n: usize) -> (sum: usize)
    requires
        n > 0,
    ensures
        sum == (base + delta) % (n as int),
        sum < n,
{
    let b = base % n;
    let d = delta % n;
    proof {
        lemma_add_mod_noop(base as int, delta as int, n as int);
        if b + d < n {
            lemma_small_mod((b + d) as nat, n as nat);
        } else {
            lemma_mod_add_multiples_vanish(b + d - n, n as int);
            lemma_small_mod((b + d - n) as nat, n as nat);
        }
    }
    if b >= n - d {
        b - (n - d)
    } else {
        b + d
    }
}

/// Builds the starting grid: `height` rows of `width` dead cells, with the
/// middle cell of the top row alive.
pub fn initialize_grid(width: usize, height: usize) -> (grid: Vec<Vec<usize>>)
    requires
        width > 0,
        height > 0,
    ensures
        rows(grid) == seeded_grid(width as int, height as int),
        is_grid(rows(grid)),
{
    let mut grid = vec![vec![0usize; width]; height];
    grid[0][width / 2] = 1;
    assert(rows(grid) =~~= seeded_grid(width as int, height as int));
    grid
}

/// Builds the starting colour grid: every cell holds the background colour.
pub fn initialize_colors(width: usize, height: usize) -> (colors: Vec<Vec<u32>>)
    ensures
        rows(colors) == uniform_grid(width as int, height as int, 0u32),
{
    let colors = vec![vec![0x000000u32; width]; height];
    assert(rows(colors) =~~= uniform_grid(width as int, height as int, 0u32));
    colors
}

} // verus!
