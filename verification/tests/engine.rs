//! Simulation engine tests: the rule on known patterns, sequential versus
//! partitioned stepping, population, clearing and serialization.

use canvas_core::grid::GameOfLifeBits;

fn empty_grid(width: u16, height: u16) -> GameOfLifeBits {
    let mut g = GameOfLifeBits::new(width, height);
    g.clear();
    g
}

#[test]
fn blinker_oscillates_with_period_two() {
    let mut g = GameOfLifeBits::new(100, 100);
    g.initialize_blinker();
    // Horizontal blinker around the center.
    assert!(g.get_cell(49, 50) && g.get_cell(50, 50) && g.get_cell(51, 50));
    assert_eq!(g.population_count(), 3);

    g.step();
    // Vertical blinker after one step.
    assert!(g.get_cell(50, 49) && g.get_cell(50, 50) && g.get_cell(50, 51));
    assert!(!g.get_cell(49, 50) && !g.get_cell(51, 50));
    assert_eq!(g.population_count(), 3);
    assert_eq!(g.generation_count, 1);

    g.step();
    // Back to the horizontal blinker after two steps.
    assert!(g.get_cell(49, 50) && g.get_cell(50, 50) && g.get_cell(51, 50));
    assert!(!g.get_cell(50, 49) && !g.get_cell(50, 51));
    assert_eq!(g.generation_count, 2);
}

#[test]
fn blinker_parallel_stepping_is_byte_identical() {
    for workers in 1..=5usize {
        let mut sequential = GameOfLifeBits::new(32, 32);
        sequential.initialize_blinker();
        let mut partitioned = GameOfLifeBits::new(32, 32);
        partitioned.initialize_blinker();
        assert_eq!(sequential.current_generation, partitioned.current_generation);

        sequential.step_fallback();
        partitioned.step_parallel(workers);
        assert_eq!(sequential.current_generation, partitioned.current_generation);

        sequential.step_fallback();
        partitioned.step_parallel(workers);
        assert_eq!(sequential.current_generation, partitioned.current_generation);
    }
}

#[test]
fn block_still_life_population_invariant() {
    for workers in 1..=4usize {
        let mut g = empty_grid(16, 16);
        g.awaken_cell_in(1, 1);
        g.awaken_cell_in(2, 1);
        g.awaken_cell_in(1, 2);
        g.awaken_cell_in(2, 2);
        assert_eq!(g.population_count(), 4);
        let before = g.current_generation.clone();

        g.step_parallel(workers);
        assert_eq!(g.population_count(), 4);
        assert_eq!(g.current_generation, before);

        g.step_fallback();
        assert_eq!(g.population_count(), 4);
        assert_eq!(g.current_generation, before);
    }
}

#[test]
fn glider_moves_and_keeps_population() {
    let mut g = GameOfLifeBits::new(20, 20);
    g.initialize_glider();
    assert_eq!(g.population_count(), 5);
    for _ in 0..4 {
        g.step();
        assert_eq!(g.population_count(), 5);
    }
    // After 4 generations the glider has moved one cell right and one down.
    assert!(g.get_cell(2, 1) && g.get_cell(3, 2) && g.get_cell(1, 3) && g.get_cell(2, 3)
        && g.get_cell(3, 3));
}

#[test]
fn lonely_cell_dies_and_three_neighbors_give_birth() {
    let mut g = empty_grid(8, 8);
    g.awaken_cell_in(4, 4);
    g.step();
    assert_eq!(g.population_count(), 0);

    let mut g = empty_grid(8, 8);
    g.awaken_cell_in(1, 1);
    g.awaken_cell_in(2, 1);
    g.awaken_cell_in(1, 2);
    g.step();
    // The fourth corner of the square is born; the three survive.
    assert!(g.get_cell(2, 2));
    assert_eq!(g.population_count(), 4);
}

#[test]
fn kill_all_cells_zeroes_population_and_generation() {
    let mut g = GameOfLifeBits::new(64, 64);
    g.step();
    g.step();
    assert_eq!(g.generation_count, 2);
    g.kill_all_cells();
    assert_eq!(g.population_count(), 0);
    assert_eq!(g.generation_count, 0);
    for y in 0..64 {
        for x in 0..64 {
            assert!(!g.get_cell(x, y));
        }
    }
}

#[test]
fn random_cell_operations_stay_in_bounds() {
    let mut g = empty_grid(5, 3);
    for _ in 0..50 {
        let (x, y) = g.awaken_random_cell();
        assert!(x < 5 && y < 3);
        let (x, y) = g.kill_random_cell();
        assert!(x < 5 && y < 3);
    }
    // On a 1x1 grid the only possible pick is (0, 0).
    let mut tiny = empty_grid(1, 1);
    assert_eq!(tiny.awaken_random_cell(), (0, 0));
    assert!(tiny.get_cell(0, 0));
    assert_eq!(tiny.kill_random_cell(), (0, 0));
    assert!(!tiny.get_cell(0, 0));
}

#[test]
fn rgb_serialization_length_and_dead_color() {
    let mut g = empty_grid(10, 7);
    let frame = g.to_rgb_data();
    assert_eq!(frame.len(), 10 * 7 * 3);
    // Every cell is dead: every byte is the fixed white.
    assert!(frame.iter().all(|&b| b == 255));

    g.awaken_cell_in(3, 2);
    let frame = g.to_rgb_data();
    assert_eq!(frame.len(), 10 * 7 * 3);
    let base = 3 * (2 * 10 + 3);
    // A live cell's accent color never reaches the dead-cell white.
    assert!(frame[base] < 255 && frame[base + 1] < 255 && frame[base + 2] < 255);
    // Every other pixel is still white.
    for i in 0..(10 * 7) {
        let b = 3 * i;
        if b != base {
            assert_eq!(&frame[b..b + 3], &[255, 255, 255]);
        }
    }
}

#[test]
fn invert_flips_every_cell() {
    let mut g = empty_grid(70, 3);
    g.awaken_cell_in(0, 0);
    g.awaken_cell_in(69, 2);
    g.invert();
    assert!(!g.get_cell(0, 0));
    assert!(!g.get_cell(69, 2));
    assert_eq!(g.population_count(), 70 * 3 - 2);
    g.invert();
    assert_eq!(g.population_count(), 2);
    assert!(g.get_cell(0, 0) && g.get_cell(69, 2));
}

#[test]
fn step_rows_matches_full_step() {
    let mut g = GameOfLifeBits::new(65, 9);
    g.initialize_glider();
    let top = g.step_rows(0, 5);
    let bottom = g.step_rows(5, 9);
    let mut whole = g.clone();
    whole.step_fallback();
    let mut merged = top.clone();
    merged.extend_from_slice(&bottom);
    assert_eq!(merged, whole.current_generation);
}
