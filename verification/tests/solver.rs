use wfc2d::blocked::Blocked;
use wfc2d::cell::Cell;
use wfc2d::engine::CellInfo;
use wfc2d::engine::SolverError;
use wfc2d::engine::WaveFunctionCollapse2D;
use wfc2d::pipes::PipeTile;

fn expect_err<T>(r: Result<T, SolverError>) -> SolverError {
    match r {
        Ok(_) => panic!("expected an error"),
        Err(e) => e,
    }
}

fn tile(up: bool, down: bool, left: bool, right: bool) -> PipeTile {
    PipeTile { up, down, left, right }
}

fn candidate_count(s: &WaveFunctionCollapse2D<PipeTile>, x: usize, y: usize) -> Option<usize> {
    match &s.grid[x][y] {
        Cell::Undiscovered(v) => Some(v.len()),
        Cell::Discovered(_) => None,
    }
}

fn resolved_cells(s: &WaveFunctionCollapse2D<PipeTile>) -> usize {
    let mut n: usize = 0;
    for col in &s.grid {
        for c in col {
            if let Cell::Discovered(_) = c {
                n += 1;
            }
        }
    }
    n
}

#[test]
fn construction_all_undetermined_and_bounded() {
    let s = WaveFunctionCollapse2D::<PipeTile>::new(3, 3, 7).unwrap();
    assert_eq!(s.width, 3);
    assert_eq!(s.height, 3);
    for x in 0..3 {
        for y in 0..3 {
            let n = candidate_count(&s, x, y).expect("every cell starts undetermined");
            assert!(n <= 16);
            assert!(n >= 1);
        }
    }
    // corners see two boundaries, edges one, the centre none
    assert_eq!(candidate_count(&s, 0, 0), Some(4));
    assert_eq!(candidate_count(&s, 2, 0), Some(4));
    assert_eq!(candidate_count(&s, 0, 2), Some(4));
    assert_eq!(candidate_count(&s, 2, 2), Some(4));
    assert_eq!(candidate_count(&s, 1, 0), Some(8));
    assert_eq!(candidate_count(&s, 0, 1), Some(8));
    assert_eq!(candidate_count(&s, 2, 1), Some(8));
    assert_eq!(candidate_count(&s, 1, 2), Some(8));
    assert_eq!(candidate_count(&s, 1, 1), Some(16));
    // boundary cells never have more candidates than the interior one
    for x in 0..3 {
        for y in 0..3 {
            if x != 1 || y != 1 {
                assert!(candidate_count(&s, x, y).unwrap() <= candidate_count(&s, 1, 1).unwrap());
            }
        }
    }
}

#[test]
fn zero_dimensions_rejected() {
    assert_eq!(
        expect_err(WaveFunctionCollapse2D::<PipeTile>::new(0, 5, 1)),
        SolverError::InvalidDimensions
    );
    assert_eq!(
        expect_err(WaveFunctionCollapse2D::<PipeTile>::new(5, 0, 1)),
        SolverError::InvalidDimensions
    );
    assert_eq!(
        expect_err(WaveFunctionCollapse2D::<PipeTile>::new(0, 0, 1)),
        SolverError::InvalidDimensions
    );
}

#[test]
fn candidate_counts_never_grow() {
    for seed in [0u64, 3, 11] {
        let mut s = WaveFunctionCollapse2D::<PipeTile>::new(4, 4, seed).unwrap();
        loop {
            let before: Vec<Vec<Option<usize>>> = (0..4)
                .map(|x| (0..4).map(|y| candidate_count(&s, x, y)).collect())
                .collect();
            let stepped = s.collapse_one().unwrap();
            if !stepped {
                break;
            }
            for x in 0..4 {
                for y in 0..4 {
                    if let (Some(old), Some(new)) = (before[x][y], candidate_count(&s, x, y)) {
                        assert!(new <= old, "candidates grew at ({x}, {y})");
                    }
                }
            }
        }
    }
}

#[test]
fn collapse_resolves_exactly_one() {
    let mut s = WaveFunctionCollapse2D::<PipeTile>::new(3, 3, 42).unwrap();
    assert_eq!(resolved_cells(&s), 0);
    for step in 0..9 {
        assert_eq!(s.collapse_one().unwrap(), true);
        assert_eq!(resolved_cells(&s), step + 1);
    }
    // nothing left: the call reports so and changes nothing
    assert_eq!(s.collapse_one().unwrap(), false);
    assert_eq!(resolved_cells(&s), 9);
}

#[test]
fn lowest_entropy_cells_are_the_corners() {
    let s = WaveFunctionCollapse2D::<PipeTile>::new(3, 3, 5).unwrap();
    let mut lows = s.get_all_lowest();
    lows.sort();
    assert_eq!(lows, vec![(0, 0), (0, 2), (2, 0), (2, 2)]);
}

#[test]
fn lowest_entropy_skips_resolved_cells() {
    let mut s = WaveFunctionCollapse2D::<PipeTile>::new(2, 2, 9).unwrap();
    while s.collapse_one().unwrap() {
        let lows = s.get_all_lowest();
        let min = (0..2)
            .flat_map(|x| (0..2).map(move |y| (x, y)))
            .filter_map(|(x, y)| candidate_count(&s, x, y))
            .min();
        for &(x, y) in &lows {
            // never a resolved cell, and always of minimal count
            assert_eq!(candidate_count(&s, x, y), min);
        }
        // and every undetermined cell of minimal count is listed
        for x in 0..2 {
            for y in 0..2 {
                if candidate_count(&s, x, y) == min && min.is_some() {
                    assert!(lows.contains(&(x, y)));
                }
            }
        }
    }
    assert!(s.get_all_lowest().is_empty());
}

#[test]
fn random_lowest_fails_only_when_complete() {
    let mut s = WaveFunctionCollapse2D::<PipeTile>::new(2, 1, 3).unwrap();
    let picked = s.get_random_lowest().unwrap();
    assert!(s.get_all_lowest().contains(&picked));
    while s.collapse_one().unwrap() {}
    assert_eq!(s.get_random_lowest().unwrap_err(), SolverError::NoUndeterminedCells);
}

#[test]
fn same_seed_same_grid() {
    for seed in [0u64, 1, 99, u64::MAX] {
        let mut a = WaveFunctionCollapse2D::<PipeTile>::new(3, 3, seed).unwrap();
        let mut b = WaveFunctionCollapse2D::<PipeTile>::new(3, 3, seed).unwrap();
        for _ in 0..9 {
            assert_eq!(a.collapse_one().unwrap(), b.collapse_one().unwrap());
        }
        assert_eq!(a.snapshot(), b.snapshot());
    }
}

#[test]
fn snapshot_reports_values_and_counts() {
    let mut s = WaveFunctionCollapse2D::<PipeTile>::new(2, 2, 13).unwrap();
    let snap = s.snapshot();
    assert_eq!(snap.len(), 2);
    for col in &snap {
        assert_eq!(col.len(), 2);
        for c in col {
            // a 2-by-2 grid is all corners: two boundary sides each
            assert_eq!(*c, CellInfo::Choices(4));
        }
    }
    while s.collapse_one().unwrap() {}
    for (x, col) in s.snapshot().iter().enumerate() {
        for (y, c) in col.iter().enumerate() {
            match (c, &s.grid[x][y]) {
                (CellInfo::Value(a), Cell::Discovered(b)) => assert_eq!(a, b),
                _ => panic!("completed grid must snapshot resolved values"),
            }
        }
    }
}

#[test]
fn blocked_model_signals_contradiction() {
    match expect_err(WaveFunctionCollapse2D::<Blocked>::new(2, 2, 8)) {
        SolverError::Contradiction { x, y } => {
            assert!(x < 2 && y < 2);
        }
        other => panic!("expected a contradiction, got {other:?}"),
    }
    match expect_err(WaveFunctionCollapse2D::<Blocked>::new(1, 1, 0)) {
        SolverError::Contradiction { x, y } => assert_eq!((x, y), (0, 0)),
        other => panic!("expected a contradiction, got {other:?}"),
    }
}

#[test]
fn update_cells_narrows_after_manual_resolve() {
    // resolving a cell by hand and propagating narrows the neighbours
    let mut s = WaveFunctionCollapse2D::<PipeTile>::new(2, 1, 4).unwrap();
    s.grid[0][0] = Cell::Discovered(tile(false, false, false, true));
    s.update_cells().unwrap();
    match &s.grid[1][0] {
        Cell::Undiscovered(v) => {
            assert_eq!(v.len(), 1);
            assert_eq!(v[0], tile(false, false, true, false));
        }
        Cell::Discovered(_) => panic!("the right cell must still be undetermined"),
    }
}
