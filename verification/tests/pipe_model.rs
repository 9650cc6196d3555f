use wfc2d::cell::Cell;
use wfc2d::engine::WaveFunctionCollapse2D;
use wfc2d::pipes::PipeTile;
use wfc2d::pipes::TriBool;
use wfc2d::model::CellValue;

fn tile(up: bool, down: bool, left: bool, right: bool) -> PipeTile {
    PipeTile { up, down, left, right }
}

fn resolved(s: &WaveFunctionCollapse2D<PipeTile>, x: usize, y: usize) -> PipeTile {
    match &s.grid[x][y] {
        Cell::Discovered(v) => *v,
        Cell::Undiscovered(_) => panic!("cell ({x}, {y}) is not resolved"),
    }
}

#[test]
fn alphabet_has_sixteen_distinct_tiles() {
    let all = PipeTile::get_all_states();
    assert_eq!(all.len(), 16);
    for i in 0..16 {
        for j in 0..i {
            assert_ne!(all[i], all[j]);
        }
        // the tile at index i carries the mask i (up = 1, down = 2,
        // left = 4, right = 8)
        assert_eq!(all[i].up, i & 1 != 0);
        assert_eq!(all[i].down, i & 2 != 0);
        assert_eq!(all[i].left, i & 4 != 0);
        assert_eq!(all[i].right, i & 8 != 0);
    }
}

#[test]
fn tri_bool_variants_differ() {
    assert_ne!(TriBool::True, TriBool::False);
    assert_ne!(TriBool::True, TriBool::Undef);
    assert_ne!(TriBool::False, TriBool::Undef);
}

#[test]
fn one_by_one_resolves_to_the_blank_tile() {
    for seed in [0u64, 17, 12345] {
        let mut s = WaveFunctionCollapse2D::<PipeTile>::new(1, 1, seed).unwrap();
        match &s.grid[0][0] {
            Cell::Undiscovered(v) => {
                // all four sides are boundaries, so only the tile that
                // connects nowhere survives the initial propagation
                assert_eq!(v.len(), 1);
                assert_eq!(v[0], tile(false, false, false, false));
            }
            Cell::Discovered(_) => panic!("construction never resolves a cell"),
        }
        assert_eq!(s.collapse_one().unwrap(), true);
        assert_eq!(resolved(&s, 0, 0), tile(false, false, false, false));
    }
}

#[test]
fn two_by_one_candidates_stay_mutually_consistent() {
    let s = WaveFunctionCollapse2D::<PipeTile>::new(2, 1, 2).unwrap();
    // each cell may only connect toward the other, or not at all
    let expect_left = vec![tile(false, false, false, false), tile(false, false, false, true)];
    let expect_right = vec![tile(false, false, false, false), tile(false, false, true, false)];
    match (&s.grid[0][0], &s.grid[1][0]) {
        (Cell::Undiscovered(l), Cell::Undiscovered(r)) => {
            assert_eq!(*l, expect_left);
            assert_eq!(*r, expect_right);
            // every candidate on one side still has a partner on the other
            // side that agrees on the shared connection, so no candidate is
            // already doomed
            for a in l {
                assert!(r.iter().any(|b| a.right == b.left));
            }
            for b in r {
                assert!(l.iter().any(|a| a.right == b.left));
            }
        }
        _ => panic!("construction never resolves a cell"),
    }
}

#[test]
fn two_by_one_resolution_is_consistent() {
    for seed in 0..20u64 {
        let mut s = WaveFunctionCollapse2D::<PipeTile>::new(2, 1, seed).unwrap();
        while s.collapse_one().unwrap() {}
        let a = resolved(&s, 0, 0);
        let b = resolved(&s, 1, 0);
        assert_eq!(a.right, b.left);
        // the outer sides are boundaries and never connect
        assert!(!a.left && !a.up && !a.down);
        assert!(!b.right && !b.up && !b.down);
    }
}

#[test]
fn full_resolution_is_adjacency_consistent() {
    for seed in [1u64, 6, 31, 404] {
        let mut s = WaveFunctionCollapse2D::<PipeTile>::new(4, 4, seed).unwrap();
        while s.collapse_one().unwrap() {}
        for x in 0..4 {
            for y in 0..4 {
                let t = resolved(&s, x, y);
                if x + 1 < 4 {
                    assert_eq!(t.right, resolved(&s, x + 1, y).left);
                }
                if y + 1 < 4 {
                    assert_eq!(t.down, resolved(&s, x, y + 1).up);
                }
                // boundary sides never connect
                if x == 0 {
                    assert!(!t.left);
                }
                if x == 3 {
                    assert!(!t.right);
                }
                if y == 0 {
                    assert!(!t.up);
                }
                if y == 3 {
                    assert!(!t.down);
                }
            }
        }
    }
}

#[test]
fn valid_states_filters_by_resolved_neighbours() {
    let mut s = WaveFunctionCollapse2D::<PipeTile>::new(3, 3, 0).unwrap();
    // resolve the centre by hand to a tile connecting left and right
    s.grid[1][1] = Cell::Discovered(tile(false, false, true, true));
    let left = PipeTile::get_valid_states(&s.grid, 0, 1);
    // the left-middle cell must now connect rightward, and its other
    // sides border the grid edge or an undetermined cell
    assert!(!left.is_empty());
    for t in &left {
        assert!(t.right);
        assert!(!t.left);
    }
    let above = PipeTile::get_valid_states(&s.grid, 1, 0);
    for t in &above {
        assert!(!t.down);
        assert!(!t.up);
    }
}
