use conway_life::engine::{App, DEFAULT_TICK_RATE, NANOS_PER_SEC};
use conway_life::grid::Grid;

fn blinker_grid() -> (Grid, Vec<i32>, Vec<i32>) {
    let mut horizontal = vec![0i32; 25];
    for c in 1..4 {
        horizontal[2 * 5 + c] = 1;
    }
    let mut vertical = vec![0i32; 25];
    for r in 1..4 {
        vertical[r * 5 + 2] = 1;
    }
    (Grid::new(5, 5, horizontal.clone()), horizontal, vertical)
}

#[test]
fn new_engine_is_stopped_with_zero_debt() {
    let (g, horizontal, _) = blinker_grid();
    let a = App::new(g);
    assert!(!a.run);
    assert_eq!(a.time_debt, 0);
    assert_eq!(a.tick_rate, DEFAULT_TICK_RATE);
    assert_eq!(a.grid.cells, horizontal);
}

#[test]
fn stopped_grid_is_immutable() {
    // Before trigger_run, any number of advance calls leave the grid
    // bit-for-bit identical and accumulate no time debt.
    let (g, horizontal, _) = blinker_grid();
    let mut a = App::new(g);
    for _ in 0..10 {
        a.advance(5 * NANOS_PER_SEC);
        assert_eq!(a.grid.cells, horizontal);
        assert_eq!(a.time_debt, 0);
        assert!(!a.run);
    }
}

#[test]
fn trigger_run_is_idempotent_and_one_way() {
    let (g, horizontal, _) = blinker_grid();
    let mut a = App::new(g);
    a.trigger_run();
    assert!(a.run);
    a.trigger_run();
    assert!(a.run);
    assert_eq!(a.time_debt, 0);
    assert_eq!(a.grid.cells, horizontal);
}

#[test]
fn sub_tick_time_debt_is_retained() {
    // At 60 ticks per second, 8 ms pays for no step: the grid is untouched
    // and the full debt of 8e6 ns * 60 nano-ticks is kept.
    let (g, horizontal, _) = blinker_grid();
    let mut a = App::new(g);
    a.trigger_run();
    a.advance(8_000_000);
    assert_eq!(a.grid.cells, horizontal);
    assert_eq!(a.time_debt, 480_000_000);
}

#[test]
fn crossing_one_tick_boundary_steps_exactly_once() {
    // 8 ms then 9 ms at 60 ticks per second: the accumulated debt
    // 480e6 + 540e6 = 1020e6 nano-ticks crosses one whole tick, so the
    // blinker flips exactly once and the residual is the total modulo one
    // tick period.
    let (g, _, vertical) = blinker_grid();
    let mut a = App::new(g);
    a.trigger_run();
    a.advance(8_000_000);
    a.advance(9_000_000);
    assert_eq!(a.grid.cells, vertical);
    assert_eq!(a.time_debt, 20_000_000);
}

#[test]
fn large_elapsed_time_catches_up_many_generations() {
    // One full second at the default rate runs 60 generations; 60 is even,
    // so the blinker is back in its horizontal phase, with zero debt left.
    let (g, horizontal, _) = blinker_grid();
    let mut a = App::new(g);
    a.trigger_run();
    a.advance(NANOS_PER_SEC);
    assert_eq!(a.grid.cells, horizontal);
    assert_eq!(a.time_debt, 0);
}

#[test]
fn odd_tick_count_lands_on_the_other_phase() {
    // Half a second at 2 ticks per second is exactly one generation.
    let (g, _, vertical) = blinker_grid();
    let mut a = App::with_tick_rate(g, 2);
    a.trigger_run();
    a.advance(NANOS_PER_SEC / 2);
    assert_eq!(a.grid.cells, vertical);
    assert_eq!(a.time_debt, 0);
}

#[test]
fn residual_debt_is_always_below_one_tick_period() {
    let (g, _, _) = blinker_grid();
    let mut a = App::with_tick_rate(g, 7);
    a.trigger_run();
    for dt in [3_000_000u64, 150_000_000, 777_777_777, 1, 0, 999_999_999] {
        a.advance(dt);
        assert!(a.time_debt < NANOS_PER_SEC);
    }
}

#[test]
fn advance_preserves_dimensions_and_rate() {
    let g = Grid::seed(20, 10);
    let mut a = App::new(g);
    a.trigger_run();
    a.advance(NANOS_PER_SEC / 30);
    assert_eq!(a.grid.width, 20);
    assert_eq!(a.grid.height, 10);
    assert_eq!(a.tick_rate, DEFAULT_TICK_RATE);
    assert!(a.grid.cells.iter().all(|&v| v == 0 || v == 1));
}
