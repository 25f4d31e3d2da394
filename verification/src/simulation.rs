//! The simulation: a grid that is first filled by Rule 30, one row per tick,
//! and from then on evolves by the life rule, with pulsars stamped onto it
//! after every generation.

use crate::color::is_bright;
use crate::conway::{conway_colors, conway_rules, conway_step};
use crate::framebuffer::{filled, Framebuffer};
use crate::grid::{
    grid_height, grid_width, initialize_colors, initialize_grid, is_grid, lemma_grid_rows, rows,
    same_shape, seeded_grid, uniform_grid,
};
use crate::pattern::{insert_pattern, stamped_cells, stamped_colors, PULSAR};
use crate::random::gen_range;
use crate::render::{render, rendered};
use crate::rule30::{advance_cells, advance_colors, update_grid};
use vstd::prelude::*;

verus! {

/// Width of the grid that the program runs.
pub const WIDTH: usize = 200;

/// Height of the grid that the program runs.
pub const HEIGHT: usize = 200;

/// How many pulsars are stamped after each generation of the life phase.
pub const INJECTIONS_PER_TICK: usize = 5;

/// The two phases of a run.
#[derive(Clone, Copy, PartialEq, Eq, Debug, Structural)]
pub enum Phase {
    /// Rule 30 is still filling the grid, one row per tick.
    Fill,
    /// The grid is full and evolves by the life rule.
    Life,
}

/// One stamping of the pulsar: where it was put and in which colour.
pub struct Injection {
    pub offset_x: int,
    pub offset_y: int,
    pub color: u32,
}

/// What a simulation holds, as mathematics.
pub struct State {
    /// Liveness of every cell, `[row][column]`; a cell is alive when it holds 1.
    pub cells: Seq<Seq<usize>>,
    /// The colour stored for every cell.
    pub colors: Seq<Seq<u32>>,
    /// The row cursor: the last row that Rule 30 has written.
    pub row: int,
    /// The pixel buffer, row by row.
    pub pixels: Seq<u32>,
}

/// The grid after the stampings `injections` of `pattern`, made in order.
pub open spec fn inject_all(
    cells: Seq<Seq<usize>>,
    colors: Seq<Seq<u32>>,
    pattern: Seq<(usize, usize)>,
    injections: Seq<Injection>,
) -> (Seq<Seq<usize>>, Seq<Seq<u32>>)
    decreases injections.len(),
{
    if injections.len() == 0 {
        (cells, colors)
    } else {
        let earlier = inject_all(cells, colors, pattern, injections.drop_last());
        let last = injections.last();
        (
            stamped_cells(earlier.0, pattern, last.offset_x, last.offset_y),
            stamped_colors(earlier.1, pattern, last.offset_x, last.offset_y, last.color),
        )
    }
}

/// The stampings of one tick: as many as a tick makes, each at a cell of the
/// grid and in a bright colour.
pub open spec fn valid_injections(injections: Seq<Injection>, width: int, height: int) -> bool {
    &&& injections.len() == INJECTIONS_PER_TICK
    &&& forall|i: int|
        0 <= i < injections.len() ==> {
            &&& 0 <= (#[trigger] injections[i]).offset_x < width
            &&& 0 <= injections[i].offset_y < height
            &&& is_bright(injections[i].color)
        }
}

impl State {
    /// Number of columns.
    pub open spec fn width(self) -> int {
        grid_width(self.cells)
    }

    /// Number of rows.
    pub open spec fn height(self) -> int {
        grid_height(self.cells)
    }

    /// The cells and the colours are grids of one shape, the cursor names a
    /// row, and the buffer has a pixel for every cell.
    pub open spec fn wf(self) -> bool {
        &&& is_grid(self.cells)
        &&& is_grid(self.colors)
        &&& same_shape(self.cells, self.colors)
        &&& 0 <= self.row < self.height()
        &&& self.pixels.len() == self.width() * self.height()
    }

    /// The state a run starts in: one live cell in the middle of the top row,
    /// every stored colour and every pixel black, the cursor on the top row.
    pub open spec fn initial(width: int, height: int) -> State {
        State {
            cells: seeded_grid(width, height),
            colors: uniform_grid(width, height, 0u32),
            row: 0,
            pixels: filled((width * height) as nat, 0),
        }
    }

    /// The phase: filling as long as there is a row below the cursor.
    pub open spec fn phase(self) -> Phase {
        if self.row + 1 < self.height() {
            Phase::Fill
        } else {
            Phase::Life
        }
    }

    /// One tick of the fill phase: Rule 30 writes the row below the cursor,
    /// the cursor moves onto it, and the grid is drawn.
    pub open spec fn fill_step(self) -> State {
        let cells = advance_cells(self.cells, self.row);
        let colors = advance_colors(self.cells, self.colors, self.row);
        State {
            cells,
            colors,
            row: self.row + 1,
            pixels: rendered(cells, colors, self.width(), self.height()),
        }
    }

    /// One tick of the life phase: the next generation is computed, the
    /// pulsar is stamped at each of `injections` in turn, and the grid is
    /// drawn. The cursor stays.
    pub open spec fn life_step(self, injections: Seq<Injection>) -> State {
        let stamped = inject_all(
            conway_step(self.cells),
            conway_colors(self.cells, self.colors),
            PULSAR@,
            injections,
        );
        State {
            cells: stamped.0,
            colors: stamped.1,
            row: self.row,
            pixels: rendered(stamped.0, stamped.1, self.width(), self.height()),
        }
    }

    /// What one tick does: in the fill phase the fill step; in the life phase
    /// the life step, for some stampings that the random source chose.
    pub open spec fn ticks_to(self, next: State) -> bool {
        match self.phase() {
            Phase::Fill => next == self.fill_step(),
            Phase::Life => exists|injections: Seq<Injection>|
                valid_injections(injections, self.width(), self.height()) && next
                    == #[trigger] self.life_step(injections),
        }
    }
}

/// Stamping keeps the shape of the grid.
pub proof fn lemma_inject_all_shape(
    cells: Seq<Seq<usize>>,
    colors: Seq<Seq<u32>>,
    pattern: Seq<(usize, usize)>,
    injections: Seq<Injection>,
)
    requires
        is_grid(cells),
        is_grid(colors),
        same_shape(cells, colors),
    ensures
        is_grid(inject_all(cells, colors, pattern, injections).0),
        is_grid(inject_all(cells, colors, pattern, injections).1),
        same_shape(cells, inject_all(cells, colors, pattern, injections).0),
        same_shape(cells, inject_all(cells, colors, pattern, injections).1),
    decreases injections.len(),
{
    if injections.len() > 0 {
        lemma_inject_all_shape(cells, colors, pattern, injections.drop_last());
    }
}

/// A tick keeps a state well formed and never changes the size of the grid.
pub proof fn lemma_tick_keeps_shape(state: State, next: State)
    requires
        state.wf(),
        state.ticks_to(next),
    ensures
        next.wf(),
        next.width() == state.width(),
        next.height() == state.height(),
{
    assert(0 <= state.width() * state.height()) by (nonlinear_arith)
        requires
            0 < state.width(),
            0 < state.height(),
    ;
    match state.phase() {
        Phase::Fill => {},
        Phase::Life => {
            let injections = choose|injections: Seq<Injection>|
                valid_injections(injections, state.width(), state.height()) && next
                    == #[trigger] state.life_step(injections);
            lemma_inject_all_shape(
                conway_step(state.cells),
                conway_colors(state.cells, state.colors),
                PULSAR@,
                injections,
            );
        },
    }
}

/// In the fill phase a tick is the work of Rule 30 alone: it writes the row
/// below the cursor and moves the cursor onto it. The life phase begins when
/// the cursor has reached the last row.
pub proof fn lemma_fill_tick(state: State, next: State)
    requires
        state.wf(),
        state.ticks_to(next),
        state.phase() == Phase::Fill,
    ensures
        next.cells == advance_cells(state.cells, state.row),
        next.colors == advance_colors(state.cells, state.colors, state.row),
        next.row == state.row + 1,
        next.phase() == Phase::Life <==> next.row == state.height() - 1,
{
    lemma_tick_keeps_shape(state, next);
}

/// The life phase is never left: a tick in it is one generation of the life
/// rule with its stampings, the cursor stays on the last row, and Rule 30
/// writes no row again.
pub proof fn lemma_life_tick(state: State, next: State)
    requires
        state.wf(),
        state.ticks_to(next),
        state.phase() == Phase::Life,
    ensures
        next.phase() == Phase::Life,
        next.row == state.row,
        exists|injections: Seq<Injection>|
            valid_injections(injections, state.width(), state.height()) && next
                == #[trigger] state.life_step(injections),
{
    lemma_tick_keeps_shape(state, next);
}

/// The state after tick `k` of `run` leads to the one after tick `k + 1`.
pub open spec fn step_holds(run: Seq<State>, k: int) -> bool {
    run[k].ticks_to(run[k + 1])
}

/// A run: the states of a simulation from its start, one tick apart.
pub open spec fn is_run(run: Seq<State>) -> bool {
    &&& run.len() > 0
    &&& run[0].wf()
    &&& run[0].row == 0
    &&& forall|k: int| 0 <= k < run.len() - 1 ==> #[trigger] step_holds(run, k)
}

/// The phase changes exactly once in a run. On a grid of `h` rows the cursor
/// is on row `k` after `k` ticks as long as `k < h - 1`, and the state is in
/// the fill phase; from tick `h - 1` on the cursor rests on the last row and
/// the state is in the life phase.
pub proof fn lemma_run_phase(run: Seq<State>, k: int)
    requires
        is_run(run),
        0 <= k < run.len(),
    ensures
        run[k].wf(),
        run[k].width() == run[0].width(),
        run[k].height() == run[0].height(),
        k < run[0].height() - 1 ==> run[k].row == k && run[k].phase() == Phase::Fill,
        k >= run[0].height() - 1 ==> run[k].row == run[0].height() - 1 && run[k].phase()
            == Phase::Life,
    decreases k,
{
    if k > 0 {
        lemma_run_phase(run, k - 1);
        assert(step_holds(run, k - 1));
        lemma_tick_keeps_shape(run[k - 1], run[k]);
    }
}

/// A running simulation: the grid, the colours stored for its cells, the row
/// cursor of the fill phase, and the pixel buffer that shows the grid.
pub struct Simulation {
    grid: Vec<Vec<usize>>,
    colors: Vec<Vec<u32>>,
    current_row: usize,
    framebuffer: Framebuffer,
}

impl View for Simulation {
    type V = State;

    closed spec fn view(&self) -> State {
        State {
            cells: rows(self.grid),
            colors: rows(self.colors),
            row: self.current_row as int,
            pixels: self.framebuffer.buffer@,
        }
    }
}

impl Simulation {
    #[verifier::type_invariant]
    spec fn well_formed(self) -> bool {
        &&& is_grid(rows(self.grid))
        &&& is_grid(rows(self.colors))
        &&& same_shape(rows(self.grid), rows(self.colors))
        &&& self.current_row < self.grid@.len()
        &&& self.framebuffer.wf()
        &&& self.framebuffer.width == grid_width(rows(self.grid))
        &&& self.framebuffer.height == grid_height(rows(self.grid))
    }

    /// Starts a simulation on a grid of `width` by `height` cells.
    pub fn new(width: usize, height: usize) -> (simulation: Simulation)
        requires
            width > 0,
            height > 0,
            width * height <= usize::MAX,
        ensures
            simulation@ == State::initial(width as int, height as int),
            simulation@.wf(),
    {
        let grid = initialize_grid(width, height);
        let colors = initialize_colors(width, height);
        let framebuffer = Framebuffer::new(width, height);
        Simulation { grid, colors, current_row: 0, framebuffer }
    }

    /// Number of columns of the grid.
    pub fn width(&self) -> (width: usize)
        ensures
            width == self@.width(),
    {
        proof {
            use_type_invariant(self);
            lemma_grid_rows(self.grid);
        }
        self.grid[0].len()
    }

    /// Number of rows of the grid.
    pub fn height(&self) -> (height: usize)
        ensures
            height == self@.height(),
    {
        self.grid.len()
    }

    /// The row cursor.
    pub fn current_row(&self) -> (row: usize)
        ensures
            row == self@.row,
    {
        self.current_row
    }

    /// The phase the next tick will run in.
    pub fn phase(&self) -> (phase: Phase)
        ensures
            phase == self@.phase(),
    {
        proof {
            use_type_invariant(self);
        }
        if self.current_row + 1 < self.grid.len() {
            Phase::Fill
        } else {
            Phase::Life
        }
    }

    /// The cells, row by row.
    pub fn grid(&self) -> (grid: &Vec<Vec<usize>>)
        ensures
            rows(*grid) == self@.cells,
    {
        &self.grid
    }

    /// The stored colours, row by row.
    pub fn colors(&self) -> (colors: &Vec<Vec<u32>>)
        ensures
            rows(*colors) == self@.colors,
    {
        &self.colors
    }

    /// The pixel buffer: one packed RGB value for each cell, row by row.
    pub fn buffer(&self) -> (pixels: &Vec<u32>)
        ensures
            pixels@ == self@.pixels,
    {
        &self.framebuffer.buffer
    }

    /// Advances the simulation by one tick and draws the grid. While there is
    /// a row below the cursor, Rule 30 writes it; after that every tick
    /// computes one generation of the life rule and stamps the pulsar at
    /// places and in colours drawn at random.
    pub fn tick(self) -> (next: Simulation)
        ensures
            self@.ticks_to(next@),
            next@.wf(),
    {
        proof {
            use_type_invariant(&self);
            lemma_grid_rows(self.grid);
            lemma_grid_rows(self.colors);
        }
        let Simulation { mut grid, mut colors, mut current_row, mut framebuffer } = self;
        let height = grid.len();
        let width = grid[0].len();
        if current_row + 1 < height {
            update_grid(&mut grid, &mut colors, current_row);
            current_row += 1;
        } else {
            let mut new_grid = grid.clone();
            conway_rules(&grid, &mut new_grid, &mut colors);
            grid = new_grid;
            let ghost born = rows(grid);
            let ghost tinted = rows(colors);
            let ghost mut injections: Seq<Injection> = Seq::empty();
            let mut rng = rand::thread_rng();
            for i in 0..INJECTIONS_PER_TICK
                invariant
                    injections.len() == i,
                    forall|j: int|
                        0 <= j < injections.len() ==> {
                            &&& 0 <= (#[trigger] injections[j]).offset_x < width
                            &&& 0 <= injections[j].offset_y < height
                            &&& is_bright(injections[j].color)
                        },
                    (rows(grid), rows(colors)) == inject_all(born, tinted, PULSAR@, injections),
                    is_grid(rows(grid)),
                    is_grid(rows(colors)),
                    same_shape(rows(grid), rows(colors)),
                    width == grid_width(rows(grid)),
                    height == grid_height(rows(grid)),
                    0 < width,
                    0 < height,
            {
                let offset_x = gen_range(&mut rng, 0, width);
                let offset_y = gen_range(&mut rng, 0, height);
                let ghost earlier = rows(colors);
                insert_pattern(&mut grid, &mut colors, PULSAR.as_slice(), offset_x, offset_y);
                proof {
                    let color = choose|color: u32|
                        is_bright(color) && rows(colors) == #[trigger] stamped_colors(
                            earlier,
                            PULSAR@,
                            offset_x as int,
                            offset_y as int,
                            color,
                        );
                    let injection = Injection {
                        offset_x: offset_x as int,
                        offset_y: offset_y as int,
                        color,
                    };
                    assert(injections.push(injection).drop_last() =~= injections);
                    injections = injections.push(injection);
                }
            }
            assert(rows(grid) == self@.life_step(injections).cells);
        }
        render(&mut framebuffer, &grid, &colors);
        Simulation { grid, colors, current_row, framebuffer }
    }
}

} // verus!
