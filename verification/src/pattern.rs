//! Stamping a pattern of live cells onto the grid.

use crate::color::{generate_random_color, is_bright};
use crate::grid::{grid_height, grid_width, is_grid, lemma_grid_rows, rows, same_shape, wrap_add};
use vstd::prelude::*;

verus! {

/// The pulsar, an oscillator of period three: the `(x, y)` offsets of its 48
/// live cells.
pub const PULSAR: [(usize, usize); 48] = [
    (2, 4), (2, 5), (2, 6), (2, 10), (2, 11), (2, 12),
    (4, 2), (5, 2), (6, 2), (4, 7), (5, 7), (6, 7),
    (4, 9), (5, 9), (6, 9), (4, 14), (5, 14), (6, 14),
    (7, 4), (7, 5), (7, 6), (7, 10), (7, 11), (7, 12),
    (9, 4), (9, 5), (9, 6), (9, 10), (9, 11), (9, 12),
    (10, 2), (11, 2), (12, 2), (10, 7), (11, 7), (12, 7),
    (10, 9), (11, 9), (12, 9), (10, 14), (11, 14), (12, 14),
    (14, 4), (14, 5), (14, 6), (14, 10), (14, 11), (14, 12),
];

/// The cell, as `(row, column)`, that the pattern offset `cell` lands on when
/// the pattern is placed at `(offset_x, offset_y)` on a torus of `width` by
/// `height` cells.
pub open spec fn target_of(
    cell: (usize, usize),
    offset_x: int,
    offset_y: int,
    width: int,
    height: int,
) -> (int, int) {
    ((offset_y + cell.1) % height, (offset_x + cell.0) % width)
}

/// Some offset of the pattern lands on row `y`, column `x`.
pub open spec fn is_target(
    pattern: Seq<(usize, usize)>,
    offset_x: int,
    offset_y: int,
    width: int,
    height: int,
    y: int,
    x: int,
) -> bool {
    exists|k: int|
        0 <= k < pattern.len() && target_of(#[trigger] pattern[k], offset_x, offset_y, width, height)
            == (y, x)
}

/// The cells after the pattern has been stamped at `(offset_x, offset_y)`:
/// every target cell is alive, every other cell is as before.
pub open spec fn stamped_cells(
    cells: Seq<Seq<usize>>,
    pattern: Seq<(usize, usize)>,
    offset_x: int,
    offset_y: int,
) -> Seq<Seq<usize>> {
    Seq::new(
        cells.len(),
        |y: int|
            Seq::new(
                cells[y].len(),
                |x: int|
                    if is_target(
                        pattern,
                        offset_x,
                        offset_y,
                        grid_width(cells),
                        grid_height(cells),
                        y,
                        x,
                    ) {
                        1usize
                    } else {
                        cells[y][x]
                    },
            ),
    )
}

/// The colours after the pattern has been stamped in `color`: every target
/// cell holds `color`, every other cell keeps its stored colour.
pub open spec fn stamped_colors(
    colors: Seq<Seq<u32>>,
    pattern: Seq<(usize, usize)>,
    offset_x: int,
    offset_y: int,
    color: u32,
) -> Seq<Seq<u32>> {
    Seq::new(
        colors.len(),
        |y: int|
            Seq::new(
                colors[y].len(),
                |x: int|
                    if is_target(
                        pattern,
                        offset_x,
                        offset_y,
                        grid_width(colors),
                        grid_height(colors),
                        y,
                        x,
                    ) {
                        color
                    } else {
                        colors[y][x]
                    },
            ),
    )
}

/// After a stamping every cell that an offset of the pattern lands on is
/// alive and holds the colour of the stamping.
pub proof fn lemma_stamp_targets(
    cells: Seq<Seq<usize>>,
    colors: Seq<Seq<u32>>,
    pattern: Seq<(usize, usize)>,
    offset_x: int,
    offset_y: int,
    color: u32,
    k: int,
)
    requires
        is_grid(cells),
        is_grid(colors),
        same_shape(cells, colors),
        0 <= offset_x,
        0 <= offset_y,
        0 <= k < pattern.len(),
    ensures
        ({
            let (y, x) = target_of(
                pattern[k],
                offset_x,
                offset_y,
                grid_width(cells),
                grid_height(cells),
            );
            &&& 0 <= y < grid_height(cells)
            &&& 0 <= x < grid_width(cells)
            &&& stamped_cells(cells, pattern, offset_x, offset_y)[y][x] == 1
            &&& stamped_colors(colors, pattern, offset_x, offset_y, color)[y][x] == color
        }),
{
    let width = grid_width(cells);
    let height = grid_height(cells);
    let (y, x) = target_of(pattern[k], offset_x, offset_y, width, height);
    vstd::arithmetic::div_mod::lemma_mod_bound(offset_y + pattern[k].1, height);
    vstd::arithmetic::div_mod::lemma_mod_bound(offset_x + pattern[k].0, width);
    assert(cells[y].len() == cells[0].len());
    assert(colors[y].len() == colors[0].len());
    assert(is_target(pattern, offset_x, offset_y, width, height, y, x));
}

/// A stamping overwrites, it does not merge: stamping the same pattern at the
/// same place a second time leaves the same cells alive, and the colour of
/// the second stamping replaces that of the first.
pub proof fn lemma_stamp_overwrites(
    cells: Seq<Seq<usize>>,
    colors: Seq<Seq<u32>>,
    pattern: Seq<(usize, usize)>,
    offset_x: int,
    offset_y: int,
    first: u32,
    second: u32,
)
    ensures
        stamped_cells(
            stamped_cells(cells, pattern, offset_x, offset_y),
            pattern,
            offset_x,
            offset_y,
        ) == stamped_cells(cells, pattern, offset_x, offset_y),
        stamped_colors(
            stamped_colors(colors, pattern, offset_x, offset_y, first),
            pattern,
            offset_x,
            offset_y,
            second,
        ) == stamped_colors(colors, pattern, offset_x, offset_y, second),
{
    let once = stamped_cells(cells, pattern, offset_x, offset_y);
    assert(grid_width(once) == grid_width(cells));
    assert(stamped_cells(once, pattern, offset_x, offset_y) =~~= once);
    let tinted = stamped_colors(colors, pattern, offset_x, offset_y, first);
    assert(grid_width(tinted) == grid_width(colors));
    assert(stamped_colors(tinted, pattern, offset_x, offset_y, second) =~~= stamped_colors(
        colors,
        pattern,
        offset_x,
        offset_y,
        second,
    ));
}

/// No two offsets of `pattern` are the same.
pub open spec fn distinct_offsets(pattern: Seq<(usize, usize)>) -> bool {
    forall|i: int, j: int|
        0 <= i < j < pattern.len() ==> #[trigger] pattern[i] != #[trigger] pattern[j]
}

/// Every offset of `pattern` is below `extent` in both coordinates.
pub open spec fn offsets_within(pattern: Seq<(usize, usize)>, extent: int) -> bool {
    forall|i: int| 0 <= i < pattern.len() ==> (#[trigger] pattern[i]).0 < extent && pattern[i].1 < extent
}

/// The pulsar has 48 offsets, no two of them the same, all below 15.
pub proof fn lemma_pulsar_offsets()
    ensures
        PULSAR@.len() == 48,
        distinct_offsets(PULSAR@),
        offsets_within(PULSAR@, 15),
{
}

/// Two positions less than a turn of the ring apart stay apart on the ring.
proof fn lemma_wrap_is_injective(offset: int, a: int, b: int, n: int)
    requires
        0 <= offset,
        0 <= a < n,
        0 <= b < n,
        (offset + a) % n == (offset + b) % n,
    ensures
        a == b,
{
    vstd::arithmetic::div_mod::lemma_fundamental_div_mod(offset + a, n);
    vstd::arithmetic::div_mod::lemma_fundamental_div_mod(offset + b, n);
    let qa = (offset + a) / n;
    let qb = (offset + b) / n;
    assert(a - b == n * (qa - qb)) by (nonlinear_arith)
        requires
            offset + a == n * qa + (offset + a) % n,
            offset + b == n * qb + (offset + b) % n,
            (offset + a) % n == (offset + b) % n,
    ;
    assert(qa == qb) by (nonlinear_arith)
        requires
            a - b == n * (qa - qb),
            -n < a - b < n,
            0 < n,
    ;
}

/// Stamped on a grid that is wider and higher than the pattern, distinct
/// offsets land on distinct cells: a pattern of `n` offsets has exactly `n`
/// targets.
pub proof fn lemma_targets_distinct(
    pattern: Seq<(usize, usize)>,
    extent: int,
    offset_x: int,
    offset_y: int,
    width: int,
    height: int,
    i: int,
    j: int,
)
    requires
        distinct_offsets(pattern),
        offsets_within(pattern, extent),
        extent <= width,
        extent <= height,
        0 <= offset_x,
        0 <= offset_y,
        0 <= i < j < pattern.len(),
    ensures
        target_of(pattern[i], offset_x, offset_y, width, height) != target_of(
            pattern[j],
            offset_x,
            offset_y,
            width,
            height,
        ),
{
    let a = pattern[i];
    let b = pattern[j];
    if target_of(a, offset_x, offset_y, width, height) == target_of(
        b,
        offset_x,
        offset_y,
        width,
        height,
    ) {
        lemma_wrap_is_injective(offset_x, a.0 as int, b.0 as int, width);
        lemma_wrap_is_injective(offset_y, a.1 as int, b.1 as int, height);
        assert(a == b);
    }
}

/// The targets of the first `k + 1` offsets are those of the first `k` and the
/// target of offset `k`.
proof fn lemma_is_target_step(
    pattern: Seq<(usize, usize)>,
    k: int,
    offset_x: int,
    offset_y: int,
    width: int,
    height: int,
    y: int,
    x: int,
)
    requires
        0 <= k < pattern.len(),
    ensures
        is_target(pattern.take(k + 1), offset_x, offset_y, width, height, y, x) <==> (is_target(
            pattern.take(k),
            offset_x,
            offset_y,
            width,
            height,
            y,
            x,
        ) || target_of(pattern[k], offset_x, offset_y, width, height) == (y, x)),
{
    let shorter = pattern.take(k);
    let longer = pattern.take(k + 1);
    if is_target(longer, offset_x, offset_y, width, height, y, x) {
        let j = choose|j: int|
            0 <= j < longer.len() && target_of(
                #[trigger] longer[j],
                offset_x,
                offset_y,
                width,
                height,
            ) == (y, x);
        if j < k {
            assert(shorter[j] == longer[j]);
        }
    }
    if is_target(shorter, offset_x, offset_y, width, height, y, x) {
        let j = choose|j: int|
            0 <= j < shorter.len() && target_of(
                #[trigger] shorter[j],
                offset_x,
                offset_y,
                width,
                height,
            ) == (y, x);
        assert(longer[j] == shorter[j]);
    }
    if target_of(pattern[k], offset_x, offset_y, width, height) == (y, x) {
        assert(longer[k] == pattern[k]);
    }
}

/// Stamps `pattern` at `(offset_x, offset_y)`: each of its offsets, wrapped
/// around the grid, names a cell that is made alive and given `color`,
/// whatever it held before.
pub fn stamp_pattern(
    grid: &mut Vec<Vec<usize>>,
    colors: &mut Vec<Vec<u32>>,
    pattern: &[(usize, usize)],
    offset_x: usize,
    offset_y: usize,
    color: u32,
)
    requires
        is_grid(rows(*old(grid))),
        is_grid(rows(*old(colors))),
        same_shape(rows(*old(grid)), rows(*old(colors))),
    ensures
        rows(*final(grid)) == stamped_cells(
            rows(*old(grid)),
            pattern@,
            offset_x as int,
            offset_y as int,
        ),
        rows(*final(colors)) == stamped_colors(
            rows(*old(colors)),
            pattern@,
            offset_x as int,
            offset_y as int,
            color,
        ),
{
    let height = grid.len();
    let width = grid[0].len();
    let ghost cells = rows(*grid);
    let ghost before = rows(*colors);
    let ghost ox = offset_x as int;
    let ghost oy = offset_y as int;
    proof {
        lemma_grid_rows(*grid);
        lemma_grid_rows(*colors);
    }
    for k in 0..pattern.len()
        invariant
            0 < width,
            0 < height,
            ox == offset_x,
            oy == offset_y,
            grid.len() == height,
            colors.len() == height,
            cells.len() == height,
            before.len() == height,
            forall|r: int| 0 <= r < height ==> (#[trigger] grid[r]).len() == width,
            forall|r: int| 0 <= r < height ==> (#[trigger] colors[r]).len() == width,
            forall|r: int| 0 <= r < height ==> (#[trigger] cells[r]).len() == width,
            forall|r: int| 0 <= r < height ==> (#[trigger] before[r]).len() == width,
            forall|r: int, c: int|
                0 <= r < height && 0 <= c < width ==> #[trigger] grid[r][c] == (if is_target(
                    pattern@.take(k as int),
                    ox,
                    oy,
                    width as int,
                    height as int,
                    r,
                    c,
                ) {
                    1usize
                } else {
                    cells[r][c]
                }),
            forall|r: int, c: int|
                0 <= r < height && 0 <= c < width ==> #[trigger] colors[r][c] == (if is_target(
                    pattern@.take(k as int),
                    ox,
                    oy,
                    width as int,
                    height as int,
                    r,
                    c,
                ) {
                    color
                } else {
                    before[r][c]
                }),
    {
        let (x, y) = pattern[k];
        let nx = wrap_add(offset_x, x, width);
        let ny = wrap_add(offset_y, y, height);
        grid[ny][nx] = 1;
        colors[ny][nx] = color;
        proof {
            assert forall|r: int, c: int| 0 <= r < height && 0 <= c < width implies is_target(
                pattern@.take(k + 1),
                ox,
                oy,
                width as int,
                height as int,
                r,
                c,
            ) == (is_target(pattern@.take(k as int), ox, oy, width as int, height as int, r, c)
                || (r == ny && c == nx)) by {
                lemma_is_target_step(pattern@, k as int, ox, oy, width as int, height as int, r, c);
            }
        }
    }
    proof {
        assert(pattern@.take(pattern@.len() as int) =~= pattern@);
        assert(rows(*grid) =~~= stamped_cells(cells, pattern@, ox, oy));
        assert(rows(*colors) =~~= stamped_colors(before, pattern@, ox, oy, color));
    }
}

/// Stamps `pattern` at `(offset_x, offset_y)` in one bright colour drawn at
/// random and shared by all its cells.
pub fn insert_pattern(
    grid: &mut Vec<Vec<usize>>,
    colors: &mut Vec<Vec<u32>>,
    pattern: &[(usize, usize)],
    offset_x: usize,
    offset_y: usize,
)
    requires
        is_grid(rows(*old(grid))),
        is_grid(rows(*old(colors))),
        same_shape(rows(*old(grid)), rows(*old(colors))),
    ensures
        rows(*final(grid)) == stamped_cells(
            rows(*old(grid)),
            pattern@,
            offset_x as int,
            offset_y as int,
        ),
        exists|color: u32|
            is_bright(color) && rows(*final(colors)) == #[trigger] stamped_colors(
                rows(*old(colors)),
                pattern@,
                offset_x as int,
                offset_y as int,
                color,
            ),
{
    let mut rng = rand::thread_rng();
    let color = generate_random_color(&mut rng);
    stamp_pattern(grid, colors, pattern, offset_x, offset_y, color);
}

} // verus!
