use convay::grid::Grid;

/// Brute-force reference: the textbook birth/survival rule (born at exactly
/// three live neighbors, survives at two or three), clipped at the edges.
fn reference_step(cells: &[bool], rows: usize, cols: usize) -> Vec<bool> {
    let mut next = vec![false; rows * cols];
    for r in 0..rows {
        for c in 0..cols {
            let mut n = 0;
            for dr in [-1i64, 0, 1] {
                for dc in [-1i64, 0, 1] {
                    if dr == 0 && dc == 0 {
                        continue;
                    }
                    let nr = r as i64 + dr;
                    let nc = c as i64 + dc;
                    if nr >= 0 && nc >= 0 && (nr as usize) < rows && (nc as usize) < cols {
                        if cells[nr as usize * cols + nc as usize] {
                            n += 1;
                        }
                    }
                }
            }
            let alive = cells[r * cols + c];
            next[r * cols + c] = if alive { n == 2 || n == 3 } else { n == 3 };
        }
    }
    next
}

#[test]
fn rule_matches_reference_on_all_3x3_configurations() {
    for bits in 0u32..512 {
        let cells: Vec<bool> = (0..9).map(|i| bits & (1 << i) != 0).collect();
        let mut g = Grid::new(3, 3);
        g.load_cells(&cells);
        g.step();
        let expected = reference_step(&cells, 3, 3);
        for r in 0..3 {
            for c in 0..3 {
                assert_eq!(
                    g.get(r, c),
                    expected[r * 3 + c],
                    "configuration {} cell ({}, {})",
                    bits,
                    r,
                    c
                );
            }
        }
    }
}

#[test]
fn blinker_oscillates_with_period_two() {
    let mut g = Grid::new(5, 5);
    g.set(2, 1, true);
    g.set(2, 2, true);
    g.set(2, 3, true);
    g.step();
    for r in 0..5 {
        for c in 0..5 {
            let expect = c == 2 && (r == 1 || r == 2 || r == 3);
            assert_eq!(g.get(r, c), expect);
        }
    }
    g.step();
    for r in 0..5 {
        for c in 0..5 {
            let expect = r == 2 && (c == 1 || c == 2 || c == 3);
            assert_eq!(g.get(r, c), expect);
        }
    }
}

#[test]
fn glider_translates_by_one_after_four_steps() {
    let glider = [(0usize, 1usize), (1, 2), (2, 0), (2, 1), (2, 2)];
    let mut g = Grid::new(10, 10);
    // A pattern point (x, y) marks column x, row y.
    let pts: Vec<(usize, usize)> = glider.to_vec();
    g.apply_points(&pts);
    for _ in 0..4 {
        g.step();
    }
    for r in 0..10 {
        for c in 0..10 {
            let expect = glider.iter().any(|&(x, y)| r == y + 1 && c == x + 1);
            assert_eq!(g.get(r, c), expect, "cell ({}, {})", r, c);
        }
    }
}
