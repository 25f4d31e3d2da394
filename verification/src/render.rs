//! Drawing the grid into the pixel buffer.

use crate::framebuffer::{lemma_index_pixel, lemma_pixel_index, pixel_index, Framebuffer};
use crate::grid::{grid_height, grid_width, is_grid, lemma_grid_rows, rows, same_shape};
use vstd::prelude::*;

verus! {

/// The colour every dead cell is drawn in.
pub const BACKGROUND: u32 = 0x000000;

/// The colour a cell is drawn in: its stored colour if it is alive, else the
/// background.
pub open spec fn cell_color(cells: Seq<Seq<usize>>, colors: Seq<Seq<u32>>, y: int, x: int) -> u32 {
    if cells[y][x] == 1 {
        colors[y][x]
    } else {
        BACKGROUND
    }
}

/// The picture of a grid on a raster of `width` by `height` pixels: the pixel
/// `(x, y)` shows the cell of row `y`, column `x`, and is zero where the grid
/// has no such cell.
pub open spec fn rendered(
    cells: Seq<Seq<usize>>,
    colors: Seq<Seq<u32>>,
    width: int,
    height: int,
) -> Seq<u32> {
    Seq::new(
        (width * height) as nat,
        |i: int|
            if i / width < grid_height(cells) && i % width < grid_width(cells) {
                cell_color(cells, colors, i / width, i % width)
            } else {
                0u32
            },
    )
}

/// What drawing a grid does to a buffer: the size stays, and the pixels are
/// the picture of the grid, whatever the buffer held before.
pub open spec fn draws(
    before: Framebuffer,
    after: Framebuffer,
    cells: Seq<Seq<usize>>,
    colors: Seq<Seq<u32>>,
) -> bool {
    &&& after.wf()
    &&& after.width == before.width
    &&& after.height == before.height
    &&& after.buffer@ == rendered(cells, colors, before.width as int, before.height as int)
}

/// Drawing the same grid a second time leaves the buffer as the first
/// drawing left it.
pub proof fn lemma_render_idempotent(
    blank: Framebuffer,
    once: Framebuffer,
    twice: Framebuffer,
    cells: Seq<Seq<usize>>,
    colors: Seq<Seq<u32>>,
)
    requires
        draws(blank, once, cells, colors),
        draws(once, twice, cells, colors),
    ensures
        twice.width == once.width,
        twice.height == once.height,
        twice.buffer@ == once.buffer@,
{
}

/// On a raster of the grid's own size the pixel `(x, y)` shows the cell of
/// row `y`, column `x`.
pub proof fn lemma_rendered_pixel(cells: Seq<Seq<usize>>, colors: Seq<Seq<u32>>, x: int, y: int)
    requires
        is_grid(cells),
        0 <= x < grid_width(cells),
        0 <= y < grid_height(cells),
    ensures
        0 <= pixel_index(grid_width(cells), x, y) < grid_width(cells) * grid_height(cells),
        rendered(cells, colors, grid_width(cells), grid_height(cells))[pixel_index(
            grid_width(cells),
            x,
            y,
        )] == cell_color(cells, colors, y, x),
{
    lemma_pixel_index(grid_width(cells), grid_height(cells), x, y);
}

/// Draws the grid: the buffer is cleared, then every cell is written, a live
/// one in its stored colour and a dead one in the background colour.
pub fn render(framebuffer: &mut Framebuffer, grid: &Vec<Vec<usize>>, colors: &Vec<Vec<u32>>)
    requires
        old(framebuffer).wf(),
        is_grid(rows(*grid)),
        is_grid(rows(*colors)),
        same_shape(rows(*grid), rows(*colors)),
    ensures
        draws(*old(framebuffer), *final(framebuffer), rows(*grid), rows(*colors)),
{
    let height = grid.len();
    let width = grid[0].len();
    let ghost cells = rows(*grid);
    let ghost tints = rows(*colors);
    let ghost fw = framebuffer.width as int;
    let ghost fh = framebuffer.height as int;
    proof {
        lemma_grid_rows(*grid);
        lemma_grid_rows(*colors);
    }
    framebuffer.clear();
    proof {
        assert forall|i: int| 0 <= i < fw * fh implies #[trigger] framebuffer.buffer[i] == (if i
            / fw < 0 && i % fw < width {
            cell_color(cells, tints, i / fw, i % fw)
        } else {
            0u32
        }) by {
            lemma_index_pixel(fw, fh, i);
        }
    }
    for y in 0..height
        invariant
            framebuffer.wf(),
            framebuffer.width == fw,
            framebuffer.height == fh,
            cells == rows(*grid),
            tints == rows(*colors),
            grid.len() == height,
            colors.len() == height,
            forall|r: int| 0 <= r < height ==> (#[trigger] grid[r]).len() == width,
            forall|r: int| 0 <= r < height ==> (#[trigger] colors[r]).len() == width,
            forall|i: int|
                0 <= i < fw * fh ==> #[trigger] framebuffer.buffer[i] == (if i / fw < y && i % fw
                    < width {
                    cell_color(cells, tints, i / fw, i % fw)
                } else {
                    0u32
                }),
    {
        for x in 0..width
            invariant
                y < height,
                framebuffer.wf(),
                framebuffer.width == fw,
                framebuffer.height == fh,
                cells == rows(*grid),
                tints == rows(*colors),
                grid.len() == height,
                colors.len() == height,
                forall|r: int| 0 <= r < height ==> (#[trigger] grid[r]).len() == width,
                forall|r: int| 0 <= r < height ==> (#[trigger] colors[r]).len() == width,
                forall|i: int|
                    0 <= i < fw * fh ==> #[trigger] framebuffer.buffer[i] == (if (i / fw < y || (i
                        / fw == y && i % fw < x)) && i % fw < width {
                        cell_color(cells, tints, i / fw, i % fw)
                    } else {
                        0u32
                    }),
        {
            let color = if grid[y][x] == 1 {
                colors[y][x]
            } else {
                BACKGROUND
            };
            let ghost drawn = framebuffer.buffer@;
            framebuffer.point(x, y, color);
            proof {
                if x < fw && y < fh {
                    lemma_pixel_index(fw, fh, x as int, y as int);
                }
                assert forall|i: int| 0 <= i < fw * fh implies #[trigger] framebuffer.buffer[i]
                    == (if (i / fw < y || (i / fw == y && i % fw < x + 1)) && i % fw < width {
                    cell_color(cells, tints, i / fw, i % fw)
                } else {
                    0u32
                }) by {
                    lemma_index_pixel(fw, fh, i);
                    assert(drawn[i] == (if (i / fw < y || (i / fw == y && i % fw < x)) && i % fw
                        < width {
                        cell_color(cells, tints, i / fw, i % fw)
                    } else {
                        0u32
                    }));
                }
            }
        }
    }
    assert(framebuffer.buffer@ =~= rendered(cells, tints, fw, fh));
}

} // verus!
