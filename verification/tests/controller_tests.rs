use convay::controller::Controller;
use convay::controller::GridStyle;

fn alive_set(c: &Controller) -> Vec<(usize, usize)> {
    let mut out = Vec::new();
    for r in 0..c.rows() {
        for col in 0..c.cols() {
            if c.is_alive(r, col) {
                out.push((r, col));
            }
        }
    }
    out
}

#[test]
fn initial_state_holds_the_glider() {
    let c = Controller::new();
    assert_eq!(c.rows(), 40);
    assert_eq!(c.cols(), 40);
    assert_eq!(c.step_interval_ms(), 500);
    assert_eq!(c.elapsed_ms(), 0);
    assert!(!c.drawing_mode());
    assert!(!c.is_paused());
    // The pattern points (x, y) mark column x, row y.
    assert_eq!(alive_set(&c), vec![(0, 2), (1, 0), (1, 2), (2, 1), (2, 2)]);
}

#[test]
fn drawing_toggle_round_trip_keeps_cells() {
    let mut c = Controller::new();
    let before = alive_set(&c);
    c.toggle_drawing_mode();
    assert!(c.drawing_mode());
    c.toggle_drawing_mode();
    assert!(!c.drawing_mode());
    assert_eq!(alive_set(&c), before);
    // The untouched cells are now also the reset snapshot.
    c.reset();
    assert_eq!(alive_set(&c), before);
}

#[test]
fn toggle_cell_works_only_in_drawing_mode() {
    let mut c = Controller::new();
    assert!(!c.is_alive(10, 10));
    c.toggle_cell(10, 10);
    assert!(!c.is_alive(10, 10));
    c.toggle_drawing_mode();
    c.toggle_cell(10, 10);
    assert!(c.is_alive(10, 10));
    c.toggle_cell(10, 10);
    assert!(!c.is_alive(10, 10));
}

#[test]
fn toggle_cell_ignores_out_of_bounds() {
    let mut c = Controller::new();
    let before = alive_set(&c);
    c.toggle_drawing_mode();
    c.toggle_cell(40, 0);
    c.toggle_cell(0, 40);
    c.toggle_cell(1000, 1000);
    assert_eq!(alive_set(&c), before);
}

#[test]
fn step_interval_clamps_to_range() {
    let mut c = Controller::new();
    c.adjust_step_interval(10_000);
    assert_eq!(c.step_interval_ms(), 2000);
    c.adjust_step_interval(-30_000);
    assert_eq!(c.step_interval_ms(), 0);
    c.adjust_step_interval(100);
    assert_eq!(c.step_interval_ms(), 100);
    c.adjust_step_interval(-40);
    assert_eq!(c.step_interval_ms(), 60);
}

#[test]
fn tick_steps_exactly_at_the_interval() {
    let mut c = Controller::new();
    assert!(!c.tick(499));
    assert_eq!(c.elapsed_ms(), 499);
    assert!(c.tick(1));
    assert_eq!(c.elapsed_ms(), 0);
    // Overshoot is discarded, not carried forward.
    assert!(c.tick(10_000));
    assert_eq!(c.elapsed_ms(), 0);
}

#[test]
fn tick_does_not_step_while_drawing_or_paused() {
    let mut c = Controller::new();
    let before = alive_set(&c);
    c.toggle_drawing_mode();
    assert!(!c.tick(10_000));
    assert_eq!(alive_set(&c), before);
    c.toggle_drawing_mode();
    c.toggle_pause();
    assert!(!c.tick(10_000));
    assert_eq!(alive_set(&c), before);
}

#[test]
fn step_once_works_only_while_paused() {
    let mut c = Controller::new();
    let before = alive_set(&c);
    c.step_once();
    assert_eq!(alive_set(&c), before);
    c.toggle_pause();
    c.step_once();
    assert_ne!(alive_set(&c), before);
}

#[test]
fn pause_toggle_is_ignored_while_drawing() {
    let mut c = Controller::new();
    c.toggle_drawing_mode();
    c.toggle_pause();
    assert!(!c.is_paused());
    c.toggle_drawing_mode();
    c.toggle_pause();
    assert!(c.is_paused());
}

#[test]
fn controller_resize_rejects_zero_dimensions() {
    let mut c = Controller::new();
    let before = alive_set(&c);
    c.resize(0, 10);
    assert_eq!(c.rows(), 40);
    assert_eq!(c.cols(), 40);
    c.resize(10, 0);
    assert_eq!(c.rows(), 40);
    assert_eq!(c.cols(), 40);
    assert_eq!(alive_set(&c), before);
}

#[test]
fn controller_resize_keeps_overlap_and_snapshot() {
    let mut c = Controller::new();
    let before = alive_set(&c);
    c.resize(41, 41);
    assert_eq!(c.rows(), 41);
    assert_eq!(c.cols(), 41);
    assert_eq!(alive_set(&c), before);
    // The snapshot was resized in parallel, so a reset still fits.
    c.reset();
    assert_eq!(alive_set(&c), before);
}

#[test]
fn grow_and_shrink_move_both_dimensions_by_one() {
    let mut c = Controller::new();
    c.grow();
    assert_eq!(c.rows(), 41);
    assert_eq!(c.cols(), 41);
    c.shrink();
    c.shrink();
    assert_eq!(c.rows(), 39);
    assert_eq!(c.cols(), 39);
}

#[test]
fn shrink_stops_at_one_row_and_column() {
    let mut c = Controller::new();
    for _ in 0..50 {
        c.shrink();
    }
    assert_eq!(c.rows(), 1);
    assert_eq!(c.cols(), 1);
}

#[test]
fn grid_style_cycles_through_all_three() {
    let mut c = Controller::new();
    assert_eq!(c.grid_style(), GridStyle::Lines);
    c.toggle_grid_style();
    assert_eq!(c.grid_style(), GridStyle::Shaded);
    c.toggle_grid_style();
    assert_eq!(c.grid_style(), GridStyle::Plain);
    c.toggle_grid_style();
    assert_eq!(c.grid_style(), GridStyle::Lines);
}

#[test]
fn reset_restores_snapshot_and_clears_elapsed() {
    let mut c = Controller::new();
    c.toggle_drawing_mode();
    c.toggle_cell(5, 5);
    c.toggle_drawing_mode();
    let drawn = alive_set(&c);
    assert!(c.tick(500));
    assert!(!c.tick(123));
    assert_ne!(alive_set(&c), drawn);
    c.reset();
    assert_eq!(alive_set(&c), drawn);
    assert_eq!(c.elapsed_ms(), 0);
}

#[test]
fn load_pattern_twice_equals_loading_once() {
    let mut c = Controller::new();
    let text = b"5 5\n6 6\n7 7".to_vec();
    c.toggle_drawing_mode();
    let bad = c.load_pattern(&text);
    assert!(bad.is_empty());
    let once = alive_set(&c);
    c.load_pattern(&text);
    assert_eq!(alive_set(&c), once);
}

#[test]
fn load_pattern_only_applies_in_drawing_mode() {
    let mut c = Controller::new();
    let before = alive_set(&c);
    let bad = c.load_pattern(&b"9 9\nbad line".to_vec());
    assert_eq!(alive_set(&c), before);
    // The malformed diagnostics still come back.
    assert_eq!(bad, vec![1]);
}

#[test]
fn load_pattern_ignores_out_of_bounds_cells() {
    let mut c = Controller::new();
    let before = alive_set(&c);
    c.toggle_drawing_mode();
    let bad = c.load_pattern(&b"40 0\n0 40\n500 500".to_vec());
    assert!(bad.is_empty());
    assert_eq!(alive_set(&c), before);
}
