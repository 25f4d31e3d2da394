use rule30_life::conway::conway_rules;
use rule30_life::framebuffer::Framebuffer;
use rule30_life::pattern::PULSAR;
use rule30_life::render::render;
use rule30_life::simulation::{Phase, Simulation, HEIGHT, INJECTIONS_PER_TICK, WIDTH};

fn picture(sim: &Simulation) -> Vec<u32> {
    let mut fb = Framebuffer::new(sim.width(), sim.height());
    render(&mut fb, sim.grid(), sim.colors());
    fb.buffer
}

fn stamped_at(sim: &Simulation, offset_x: usize, offset_y: usize) -> Option<u32> {
    let (w, h) = (sim.width(), sim.height());
    let first = PULSAR[0];
    let color = sim.colors()[(offset_y + first.1) % h][(offset_x + first.0) % w];
    if color >> 24 != 0 || [16u32, 8, 0].iter().any(|&shift| (color >> shift) & 0xFF < 128) {
        return None;
    }
    for &(x, y) in PULSAR.iter() {
        let (nx, ny) = ((offset_x + x) % w, (offset_y + y) % h);
        if sim.grid()[ny][nx] != 1 || sim.colors()[ny][nx] != color {
            return None;
        }
    }
    Some(color)
}

#[test]
fn resolution_is_200_by_200() {
    assert_eq!(WIDTH, 200);
    assert_eq!(HEIGHT, 200);
    assert_eq!(INJECTIONS_PER_TICK, 5);
}

#[test]
fn new_simulation_starts_with_one_seed() {
    let sim = Simulation::new(7, 4);
    assert_eq!(sim.width(), 7);
    assert_eq!(sim.height(), 4);
    assert_eq!(sim.current_row(), 0);
    assert_eq!(sim.phase(), Phase::Fill);
    assert_eq!(sim.grid()[0], vec![0, 0, 0, 1, 0, 0, 0]);
    assert_eq!(sim.grid().iter().flatten().filter(|&&c| c == 1).count(), 1);
    assert_eq!(sim.colors(), &vec![vec![0u32; 7]; 4]);
    assert_eq!(sim.buffer(), &vec![0u32; 28]);
}

#[test]
fn fill_phase_writes_one_row_per_tick() {
    let mut sim = Simulation::new(7, 4);
    let rows = [
        vec![0, 0, 0, 1, 0, 0, 0],
        vec![0, 0, 1, 1, 1, 0, 0],
        vec![0, 1, 1, 0, 0, 1, 0],
        vec![1, 1, 0, 1, 1, 1, 1],
    ];
    for tick in 1..4 {
        assert_eq!(sim.phase(), Phase::Fill);
        sim = sim.tick();
        assert_eq!(sim.current_row(), tick);
        for row in 0..4 {
            let expected = if row <= tick { rows[row].clone() } else { vec![0; 7] };
            assert_eq!(sim.grid()[row], expected);
        }
        assert_eq!(sim.buffer(), &picture(&sim));
    }
    assert_eq!(sim.phase(), Phase::Life);
    // row 1 is drawn in the gradient colour of depth 1 of 4, the seed in black
    assert_eq!(sim.buffer()[0..7], [0u32; 7]);
    assert_eq!(sim.buffer()[7..14], [0, 0, 0xBFBFBF, 0xBFBFBF, 0xBFBFBF, 0, 0]);
    assert_eq!(sim.buffer()[14..21], [0, 0x7F7F7F, 0x7F7F7F, 0, 0, 0x7F7F7F, 0]);
}

#[test]
fn phase_changes_once_when_the_cursor_reaches_the_last_row() {
    let height = 20;
    let mut sim = Simulation::new(20, height);
    let mut changes = 0;
    for tick in 0..3 * height {
        let before = sim.phase();
        let expected = if tick < height - 1 { Phase::Fill } else { Phase::Life };
        assert_eq!(before, expected);
        let row = sim.current_row();
        assert_eq!(row, tick.min(height - 1));
        let rows_before = sim.grid().clone();
        sim = sim.tick();
        if before == Phase::Fill {
            assert_eq!(sim.current_row(), row + 1);
            // Rule 30 touches the row below the cursor and nothing else
            for y in 0..height {
                if y != row + 1 {
                    assert_eq!(sim.grid()[y], rows_before[y]);
                }
            }
        } else {
            assert_eq!(sim.current_row(), height - 1);
        }
        if sim.phase() != before {
            changes += 1;
            assert_eq!(sim.current_row(), height - 1);
        }
    }
    assert_eq!(changes, 1);
}

#[test]
fn single_row_grid_starts_in_the_life_phase() {
    let sim = Simulation::new(20, 1);
    assert_eq!(sim.phase(), Phase::Life);
    let sim = sim.tick();
    assert_eq!(sim.phase(), Phase::Life);
    assert_eq!(sim.current_row(), 0);
}

#[test]
fn life_tick_is_a_generation_with_pulsars_on_top() {
    let mut sim = Simulation::new(40, 30);
    for _ in 0..29 {
        sim = sim.tick();
    }
    assert_eq!(sim.phase(), Phase::Life);
    for _ in 0..10 {
        let mut generation = sim.grid().clone();
        let mut colors = sim.colors().clone();
        conway_rules(sim.grid(), &mut generation, &mut colors);
        sim = sim.tick();
        assert_eq!(sim.phase(), Phase::Life);
        assert_eq!(sim.current_row(), 29);
        assert_eq!(sim.buffer(), &picture(&sim));
        // every cell is as the life rule left it, or was stamped alive in a bright colour
        let mut stamped = 0;
        for y in 0..30 {
            for x in 0..40 {
                let (cell, color) = (sim.grid()[y][x], sim.colors()[y][x]);
                if cell != generation[y][x] || color != colors[y][x] {
                    assert_eq!(cell, 1);
                    assert_eq!(color >> 24, 0);
                    for shift in [16u32, 8, 0] {
                        assert!((color >> shift) & 0xFF >= 128);
                    }
                    stamped += 1;
                }
            }
        }
        assert!(stamped >= 48);
        assert!(stamped <= 48 * INJECTIONS_PER_TICK);
        // the pulsar stamped last is whole and of one colour
        let mut whole = 0;
        for offset_y in 0..30 {
            for offset_x in 0..40 {
                if stamped_at(&sim, offset_x, offset_y).is_some() {
                    whole += 1;
                }
            }
        }
        assert!(whole >= 1);
    }
}

#[test]
fn pulsars_land_at_varying_places_in_varying_colors() {
    let mut sim = Simulation::new(64, 64);
    for _ in 0..63 {
        sim = sim.tick();
    }
    assert_eq!(sim.phase(), Phase::Life);
    let mut places = Vec::new();
    let mut colors = Vec::new();
    for _ in 0..12 {
        sim = sim.tick();
        let mut found = 0;
        for offset_y in 0..64 {
            for offset_x in 0..64 {
                if let Some(color) = stamped_at(&sim, offset_x, offset_y) {
                    found += 1;
                    if !places.contains(&(offset_x, offset_y)) {
                        places.push((offset_x, offset_y));
                    }
                    if !colors.contains(&color) {
                        colors.push(color);
                    }
                }
            }
        }
        assert!(found >= 1);
        assert!(found <= INJECTIONS_PER_TICK);
    }
    assert!(places.len() > 1);
    assert!(colors.len() > 1);
    assert!(places.iter().any(|&(x, _)| x != places[0].0));
    assert!(places.iter().any(|&(_, y)| y != places[0].1));
}

#[test]
fn default_resolution_runs() {
    let mut sim = Simulation::new(WIDTH, HEIGHT);
    for _ in 0..HEIGHT + 1 {
        sim = sim.tick();
    }
    assert_eq!(sim.phase(), Phase::Life);
    assert_eq!(sim.current_row(), HEIGHT - 1);
    assert_eq!(sim.buffer().len(), WIDTH * HEIGHT);
    assert_eq!(sim.buffer(), &picture(&sim));
}
