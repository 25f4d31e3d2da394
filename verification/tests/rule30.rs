use rule30_life::grid::{initialize_colors, initialize_grid};
use rule30_life::rule30::{rule_30, update_grid};

fn table(left: usize, center: usize, right: usize) -> usize {
    match (left, center, right) {
        (1, 1, 1) => 0,
        (1, 1, 0) => 0,
        (1, 0, 1) => 0,
        (1, 0, 0) => 1,
        (0, 1, 1) => 1,
        (0, 1, 0) => 1,
        (0, 0, 1) => 1,
        (0, 0, 0) => 0,
        _ => unreachable!(),
    }
}

#[test]
fn rule_30_matches_the_table() {
    assert_eq!(rule_30(1, 1, 1), 0);
    assert_eq!(rule_30(1, 1, 0), 0);
    assert_eq!(rule_30(1, 0, 1), 0);
    assert_eq!(rule_30(1, 0, 0), 1);
    assert_eq!(rule_30(0, 1, 1), 1);
    assert_eq!(rule_30(0, 1, 0), 1);
    assert_eq!(rule_30(0, 0, 1), 1);
    assert_eq!(rule_30(0, 0, 0), 0);
}

#[test]
fn rule_30_is_thirty() {
    let mut number = 0;
    for bits in 0..8usize {
        number |= rule_30((bits >> 2) & 1, (bits >> 1) & 1, bits & 1) << bits;
    }
    assert_eq!(number, 30);
}

#[test]
fn rule_30_of_other_values_is_dead() {
    assert_eq!(rule_30(2, 0, 0), 0);
    assert_eq!(rule_30(0, 2, 0), 0);
    assert_eq!(rule_30(0, 0, 2), 0);
    assert_eq!(rule_30(1, 0, 7), 0);
    assert_eq!(rule_30(usize::MAX, 1, 0), 0);
}

#[test]
fn initial_grid_has_one_seed() {
    let grid = initialize_grid(7, 4);
    assert_eq!(grid.len(), 4);
    assert_eq!(grid[0], vec![0, 0, 0, 1, 0, 0, 0]);
    for row in &grid[1..] {
        assert_eq!(row, &vec![0usize; 7]);
    }
    let grid = initialize_grid(200, 200);
    assert_eq!(grid[0][100], 1);
    assert_eq!(grid.iter().flatten().filter(|&&c| c == 1).count(), 1);
    let grid = initialize_grid(1, 1);
    assert_eq!(grid, vec![vec![1]]);
    let grid = initialize_grid(6, 2);
    assert_eq!(grid[0], vec![0, 0, 0, 1, 0, 0]);
}

#[test]
fn initial_colors_are_background() {
    let colors = initialize_colors(3, 2);
    assert_eq!(colors, vec![vec![0u32; 3]; 2]);
}

#[test]
fn fill_phase_row_one_of_width_seven() {
    let mut grid = initialize_grid(7, 4);
    let mut colors = initialize_colors(7, 4);
    let row0 = grid[0].clone();
    assert_eq!(row0, vec![0, 0, 0, 1, 0, 0, 0]);
    update_grid(&mut grid, &mut colors, 0);
    let expected: Vec<usize> =
        (0..7).map(|x| table(row0[(x + 6) % 7], row0[x], row0[(x + 1) % 7])).collect();
    assert_eq!(grid[1], expected);
    for x in 0..7 {
        let maps_to_one = matches!(
            (row0[(x + 6) % 7], row0[x], row0[(x + 1) % 7]),
            (1, 0, 0) | (0, 1, 1) | (0, 1, 0) | (0, 0, 1)
        );
        assert_eq!(grid[1][x] == 1, maps_to_one);
    }
    assert_eq!(grid[0], row0);
    assert_eq!(grid[2], vec![0usize; 7]);
    assert_eq!(grid[3], vec![0usize; 7]);
}

#[test]
fn fill_phase_known_rows() {
    let mut grid = initialize_grid(7, 4);
    let mut colors = initialize_colors(7, 4);
    update_grid(&mut grid, &mut colors, 0);
    assert_eq!(grid[1], vec![0, 0, 1, 1, 1, 0, 0]);
    update_grid(&mut grid, &mut colors, 1);
    assert_eq!(grid[2], vec![0, 1, 1, 0, 0, 1, 0]);
    update_grid(&mut grid, &mut colors, 2);
    assert_eq!(grid[3], vec![1, 1, 0, 1, 1, 1, 1]);
}

#[test]
fn row_wraps_around_both_edges() {
    // left neighbour of column 0 is the last column
    let mut grid = vec![vec![0, 0, 0, 0, 1], vec![0; 5]];
    let mut colors = initialize_colors(5, 2);
    update_grid(&mut grid, &mut colors, 0);
    // column 0 sees (1, 0, 0), column 3 sees (0, 0, 1), column 4 sees (0, 1, 0)
    assert_eq!(grid[1], vec![1, 0, 0, 1, 1]);
    // right neighbour of the last column is column 0
    let mut grid = vec![vec![1, 0, 0, 0, 0], vec![0; 5]];
    update_grid(&mut grid, &mut colors, 0);
    // column 4 sees (0, 0, 1), column 0 sees (0, 1, 0), column 1 sees (1, 0, 0)
    assert_eq!(grid[1], vec![1, 1, 0, 0, 1]);
}

#[test]
fn single_column_is_its_own_neighbor() {
    let mut grid = vec![vec![1], vec![1], vec![1]];
    let mut colors = initialize_colors(1, 3);
    update_grid(&mut grid, &mut colors, 0);
    // (1, 1, 1) -> 0
    assert_eq!(grid, vec![vec![1], vec![0], vec![1]]);
    update_grid(&mut grid, &mut colors, 1);
    // (0, 0, 0) -> 0
    assert_eq!(grid, vec![vec![1], vec![0], vec![0]]);
}

#[test]
fn live_cells_get_the_gradient_of_their_depth() {
    let mut grid = initialize_grid(7, 4);
    let mut colors = initialize_colors(7, 4);
    colors[1][0] = 0x111111;
    colors[1][3] = 0x222222;
    update_grid(&mut grid, &mut colors, 0);
    // depth 1 of 4: 255 * 3 / 4 = 191
    assert_eq!(
        colors[1],
        vec![0x111111, 0, 0xBFBFBF, 0xBFBFBF, 0xBFBFBF, 0, 0]
    );
    update_grid(&mut grid, &mut colors, 1);
    // depth 2 of 4: 127
    assert_eq!(colors[2], vec![0, 0x7F7F7F, 0x7F7F7F, 0, 0, 0x7F7F7F, 0]);
    update_grid(&mut grid, &mut colors, 2);
    // depth 3 of 4: 63
    assert_eq!(
        colors[3],
        vec![0x3F3F3F, 0x3F3F3F, 0, 0x3F3F3F, 0x3F3F3F, 0x3F3F3F, 0x3F3F3F]
    );
    assert_eq!(colors[0], vec![0u32; 7]);
}

#[test]
fn update_overwrites_the_row_below() {
    let mut grid = vec![vec![0, 0, 0, 0, 0], vec![1, 1, 1, 1, 1]];
    let mut colors = vec![vec![0; 5], vec![9; 5]];
    update_grid(&mut grid, &mut colors, 0);
    assert_eq!(grid[1], vec![0; 5]);
    assert_eq!(colors[1], vec![9; 5]);
}

#[test]
fn update_on_last_row_changes_nothing() {
    let mut grid = initialize_grid(7, 4);
    let mut colors = initialize_colors(7, 4);
    for row in 0..3 {
        update_grid(&mut grid, &mut colors, row);
    }
    let grid_before = grid.clone();
    let colors_before = colors.clone();
    update_grid(&mut grid, &mut colors, 3);
    assert_eq!(grid, grid_before);
    assert_eq!(colors, colors_before);
}
