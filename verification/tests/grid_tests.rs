use conway_life::grid::Grid;

fn grid_from(width: usize, height: usize, cells: &[i32]) -> Grid {
    assert_eq!(cells.len(), width * height);
    Grid::new(width, height, cells.to_vec())
}

#[test]
fn neighbor_counts_single_center() {
    // 3x3 grid with only the center ALIVE: every other cell sees exactly one
    // neighbor, the center itself sees none.
    let g = grid_from(3, 3, &[0, 0, 0, 0, 1, 0, 0, 0, 0]);
    for i in 0..3 {
        for j in 0..3 {
            let expected = if (i, j) == (1, 1) { 0 } else { 1 };
            assert_eq!(g.neighbor_count(i, j), expected);
        }
    }
}

#[test]
fn neighbor_counts_full_grid_clip_at_edges() {
    // 3x3 grid with every cell ALIVE: the center sees 8, corners see 3,
    // edge cells see 5 - positions outside the grid count as DEAD, they do
    // not wrap to the opposite side.
    let g = grid_from(3, 3, &[1, 1, 1, 1, 1, 1, 1, 1, 1]);
    assert_eq!(g.neighbor_count(1, 1), 8);
    assert_eq!(g.neighbor_count(0, 0), 3);
    assert_eq!(g.neighbor_count(0, 2), 3);
    assert_eq!(g.neighbor_count(2, 0), 3);
    assert_eq!(g.neighbor_count(2, 2), 3);
    assert_eq!(g.neighbor_count(0, 1), 5);
    assert_eq!(g.neighbor_count(1, 0), 5);
    assert_eq!(g.neighbor_count(1, 2), 5);
    assert_eq!(g.neighbor_count(2, 1), 5);
}

#[test]
fn neighbor_count_one_by_one() {
    let g = grid_from(1, 1, &[1]);
    assert_eq!(g.neighbor_count(0, 0), 0);
}

#[test]
fn block_is_a_still_life() {
    // A 2x2 block with at least two cells of DEAD padding on all sides.
    let mut cells = vec![0i32; 36];
    for &(r, c) in &[(2, 2), (2, 3), (3, 2), (3, 3)] {
        cells[r * 6 + c] = 1;
    }
    let original = cells.clone();
    let mut g = grid_from(6, 6, &cells);
    for _ in 0..5 {
        g = g.step();
        assert_eq!(g.cells, original);
    }
}

#[test]
fn blinker_oscillates_with_period_two() {
    // Horizontal 3-cell line in the middle of a 5x5 grid.
    let mut horizontal = vec![0i32; 25];
    for c in 1..4 {
        horizontal[2 * 5 + c] = 1;
    }
    // After one step: vertical 3-cell line through the center.
    let mut vertical = vec![0i32; 25];
    for r in 1..4 {
        vertical[r * 5 + 2] = 1;
    }
    let g = grid_from(5, 5, &horizontal);
    let g1 = g.step();
    assert_eq!(g1.cells, vertical);
    let g2 = g1.step();
    assert_eq!(g2.cells, horizontal);
}

#[test]
fn all_dead_grid_is_a_fixed_point() {
    let mut g = grid_from(4, 3, &[0; 12]);
    for _ in 0..10 {
        g = g.step();
        assert_eq!(g.cells, vec![0i32; 12]);
        assert_eq!(g.width, 4);
        assert_eq!(g.height, 3);
    }
}

#[test]
fn lonely_cell_dies_of_underpopulation() {
    let g = grid_from(3, 3, &[0, 0, 0, 0, 1, 0, 0, 0, 0]);
    let g1 = g.step();
    assert_eq!(g1.cells, vec![0i32; 9]);
}

#[test]
fn birth_on_exactly_three_neighbors() {
    // An L of three ALIVE cells: the fourth corner of the square is born,
    // completing a block.
    let mut cells = vec![0i32; 25];
    for &(r, c) in &[(1, 1), (1, 2), (2, 1)] {
        cells[r * 5 + c] = 1;
    }
    let g = grid_from(5, 5, &cells);
    let g1 = g.step();
    let mut expected = vec![0i32; 25];
    for &(r, c) in &[(1, 1), (1, 2), (2, 1), (2, 2)] {
        expected[r * 5 + c] = 1;
    }
    assert_eq!(g1.cells, expected);
}

#[test]
fn overpopulated_cell_dies() {
    // Center of a full 3x3 grid has 8 neighbors and dies; corners have 3 and
    // survive; edge cells have 5 and die.
    let g = grid_from(3, 3, &[1; 9]);
    let g1 = g.step();
    assert_eq!(g1.cells, vec![1, 0, 1, 0, 0, 0, 1, 0, 1]);
}

#[test]
fn at_reads_row_major_cells() {
    let g = grid_from(3, 2, &[0, 1, 0, 1, 0, 1]);
    assert_eq!(g.at(0, 0), 0);
    assert_eq!(g.at(0, 1), 1);
    assert_eq!(g.at(0, 2), 0);
    assert_eq!(g.at(1, 0), 1);
    assert_eq!(g.at(1, 1), 0);
    assert_eq!(g.at(1, 2), 1);
}

#[test]
fn seeded_grid_is_well_formed() {
    let g = Grid::seed(33, 17);
    assert_eq!(g.width, 33);
    assert_eq!(g.height, 17);
    assert_eq!(g.cells.len(), 33 * 17);
    assert!(g.cells.iter().all(|&v| v == 0 || v == 1));
}

#[test]
fn seeded_fraction_of_alive_cells_is_near_half() {
    let g = Grid::seed(conway_life::grid::DEFAULT_WIDTH, conway_life::grid::DEFAULT_HEIGHT);
    let alive: i64 = g.cells.iter().map(|&v| v as i64).sum();
    let fraction = alive as f64 / (g.cells.len() as f64);
    assert!(
        (0.45..=0.55).contains(&fraction),
        "alive fraction {} is not close to 0.5",
        fraction
    );
}
