use rule30_life::conway::{conway_rules, count_live_neighbors, BIRTH_COLOR};

fn empty(width: usize, height: usize) -> Vec<Vec<usize>> {
    vec![vec![0; width]; height]
}

fn step(grid: &Vec<Vec<usize>>, colors: &mut Vec<Vec<u32>>) -> Vec<Vec<usize>> {
    let mut next = grid.clone();
    conway_rules(grid, &mut next, colors);
    next
}

#[test]
fn block_is_a_still_life() {
    let mut grid = empty(6, 6);
    for (y, x) in [(2, 2), (2, 3), (3, 2), (3, 3)] {
        grid[y][x] = 1;
    }
    let mut colors = vec![vec![0x334455u32; 6]; 6];
    let before = colors.clone();
    let next = step(&grid, &mut colors);
    assert_eq!(next, grid);
    assert_eq!(colors, before);
}

#[test]
fn blinker_turns_from_row_to_column() {
    let mut grid = empty(5, 5);
    for x in 1..4 {
        grid[2][x] = 1;
    }
    let mut colors = vec![vec![0u32; 5]; 5];
    let next = step(&grid, &mut colors);
    let mut column = empty(5, 5);
    for y in 1..4 {
        column[y][2] = 1;
    }
    assert_eq!(next, column);
    let back = step(&next, &mut colors);
    assert_eq!(back, grid);
}

#[test]
fn blinker_turns_on_a_larger_grid() {
    let mut grid = empty(9, 7);
    for x in 5..8 {
        grid[3][x] = 1;
    }
    let mut colors = vec![vec![0u32; 9]; 7];
    let next = step(&grid, &mut colors);
    let mut column = empty(9, 7);
    for y in 2..5 {
        column[y][6] = 1;
    }
    assert_eq!(next, column);
}

#[test]
fn blinker_across_the_edge_wraps() {
    let mut grid = empty(5, 5);
    for x in [4, 0, 1] {
        grid[0][x] = 1;
    }
    let mut colors = vec![vec![0u32; 5]; 5];
    let next = step(&grid, &mut colors);
    let mut column = empty(5, 5);
    for y in [4, 0, 1] {
        column[y][0] = 1;
    }
    assert_eq!(next, column);
}

#[test]
fn newborn_cells_turn_white_and_survivors_keep_their_color() {
    let mut grid = empty(5, 5);
    for x in 1..4 {
        grid[2][x] = 1;
    }
    let mut colors = vec![vec![0x010203u32; 5]; 5];
    step(&grid, &mut colors);
    let mut expected = vec![vec![0x010203u32; 5]; 5];
    expected[1][2] = 0xFFFFFF;
    expected[3][2] = 0xFFFFFF;
    assert_eq!(colors, expected);
    assert_eq!(BIRTH_COLOR, 0xFFFFFF);
}

#[test]
fn lonely_and_crowded_cells_die() {
    let mut grid = empty(5, 5);
    grid[2][2] = 1;
    let mut colors = vec![vec![0u32; 5]; 5];
    assert_eq!(step(&grid, &mut colors), empty(5, 5));
    grid[1][2] = 1;
    assert_eq!(step(&grid, &mut colors), empty(5, 5));
    // a plus sign: the centre has four neighbours and dies
    let mut plus = empty(7, 7);
    for (y, x) in [(3, 3), (2, 3), (4, 3), (3, 2), (3, 4)] {
        plus[y][x] = 1;
    }
    let next = step(&plus, &mut colors);
    assert_eq!(next[3][3], 0);
    assert_eq!(next[2][3], 1);
    assert_eq!(next[2][2], 1);
}

#[test]
fn neighbors_are_counted_on_the_torus() {
    let mut grid = empty(5, 4);
    grid[3][4] = 1;
    grid[0][4] = 1;
    grid[3][0] = 1;
    grid[1][1] = 1;
    assert_eq!(count_live_neighbors(&grid, 0, 0), 4);
    assert_eq!(count_live_neighbors(&grid, 3, 4), 2);
    assert_eq!(count_live_neighbors(&grid, 2, 2), 1);
    assert_eq!(count_live_neighbors(&grid, 1, 3), 1);
    let full = vec![vec![1usize; 5]; 4];
    for y in 0..4 {
        for x in 0..5 {
            assert_eq!(count_live_neighbors(&full, y, x), 8);
        }
    }
}

#[test]
fn narrow_grids_count_every_offset() {
    // on a single cell all eight offsets wrap onto the cell itself
    let grid = vec![vec![1usize]];
    assert_eq!(count_live_neighbors(&grid, 0, 0), 8);
    let mut colors = vec![vec![5u32]];
    assert_eq!(step(&grid, &mut colors), vec![vec![0]]);
    // two columns: the left and the right neighbour are the same cell
    let grid = vec![vec![1usize, 0], vec![0, 0], vec![0, 0]];
    assert_eq!(count_live_neighbors(&grid, 0, 1), 2);
    assert_eq!(count_live_neighbors(&grid, 1, 1), 2);
    assert_eq!(count_live_neighbors(&grid, 1, 0), 1);
    assert_eq!(count_live_neighbors(&grid, 0, 0), 0);
}

#[test]
fn values_other_than_one_are_dead() {
    let mut grid = empty(5, 5);
    grid[2][1] = 2;
    grid[2][2] = 1;
    grid[2][3] = 2;
    let mut colors = vec![vec![0u32; 5]; 5];
    assert_eq!(count_live_neighbors(&grid, 2, 2), 0);
    assert_eq!(step(&grid, &mut colors), empty(5, 5));
    // a cell that holds 2 is not born either
    let mut grid = empty(5, 5);
    for x in 1..4 {
        grid[2][x] = 1;
    }
    grid[1][2] = 2;
    let next = step(&grid, &mut colors);
    assert_eq!(next[1][2], 0);
    assert_eq!(next[3][2], 1);
    assert_eq!(colors[1][2], 0);
}

#[test]
fn next_generation_reads_only_the_old_one() {
    // a glider moves one cell down and right in four steps
    let mut grid = empty(8, 8);
    for (y, x) in [(0, 1), (1, 2), (2, 0), (2, 1), (2, 2)] {
        grid[y][x] = 1;
    }
    let mut colors = vec![vec![0u32; 8]; 8];
    let mut current = grid.clone();
    for _ in 0..4 {
        current = step(&current, &mut colors);
    }
    let mut moved = empty(8, 8);
    for (y, x) in [(1, 2), (2, 3), (3, 1), (3, 2), (3, 3)] {
        moved[y][x] = 1;
    }
    assert_eq!(current, moved);
}

#[test]
fn new_grid_is_fully_replaced() {
    let grid = empty(4, 4);
    let mut next = vec![vec![1usize; 4]; 4];
    let mut colors = vec![vec![0u32; 4]; 4];
    conway_rules(&grid, &mut next, &mut colors);
    assert_eq!(next, empty(4, 4));
}
