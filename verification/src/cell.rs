//! The grid cell type and the mathematical model of a grid.
//!
//! A grid is a vector of `width` columns, each a vector of `height` cells,
//! indexed as `grid[x][y]`. In specifications a grid is viewed as the
//! sequence of its columns; the helper spec functions below read single
//! cells, compare the resolved parts of two grids, and count resolved cells.

use vstd::prelude::*;

verus! {

/// A grid cell: either resolved to one final alphabet value, or still
/// undetermined, holding the list of values that remain possible there.
/// A cell never moves back from resolved to undetermined.
pub enum Cell<T> {
    Discovered(T),
    Undiscovered(Vec<T>),
}

/// Whether a cell is resolved.
pub open spec fn is_discovered<T>(c: Cell<T>) -> bool {
    match c {
        Cell::Discovered(_) => true,
        Cell::Undiscovered(_) => false,
    }
}

/// The resolved value of a cell, if any.
pub open spec fn cell_value<T>(c: Cell<T>) -> Option<T> {
    match c {
        Cell::Discovered(v) => Some(v),
        Cell::Undiscovered(_) => None,
    }
}

/// The candidate values of an undetermined cell; empty for a resolved cell.
pub open spec fn cell_cands<T>(c: Cell<T>) -> Seq<T> {
    match c {
        Cell::Discovered(_) => Seq::empty(),
        Cell::Undiscovered(cs) => cs@,
    }
}

/// The grid has `w` columns of `h` cells each, and neither dimension is zero.
pub open spec fn grid_wf<T>(g: Seq<Vec<Cell<T>>>, w: nat, h: nat) -> bool {
    &&& w > 0
    &&& h > 0
    &&& g.len() == w
    &&& forall|x: int| 0 <= x < w ==> (#[trigger] g[x])@.len() == h
}

/// The cell of `g` at column `x`, row `y`.
pub open spec fn cell_at<T>(g: Seq<Vec<Cell<T>>>, x: int, y: int) -> Cell<T> {
    g[x]@[y]
}

/// `(x, y)` lies inside a `w` by `h` grid.
pub open spec fn in_bounds(w: nat, h: nat, x: int, y: int) -> bool {
    0 <= x < w && 0 <= y < h
}

/// How many cells of one column are resolved.
pub open spec fn count_col<T>(col: Seq<Cell<T>>) -> nat
    decreases col.len(),
{
    if col.len() == 0 {
        0
    } else {
        count_col(col.drop_last()) + if is_discovered(col.last()) { 1nat } else { 0nat }
    }
}

/// How many cells of the whole grid are resolved.
pub open spec fn resolved_count<T>(g: Seq<Vec<Cell<T>>>) -> nat
    decreases g.len(),
{
    if g.len() == 0 {
        0
    } else {
        resolved_count(g.drop_last()) + count_col(g.last()@)
    }
}

/// Columns with pointwise equal resolution status have the same count.
pub proof fn lemma_count_col_same<T>(c1: Seq<Cell<T>>, c2: Seq<Cell<T>>)
    requires
        c1.len() == c2.len(),
        forall|i: int| 0 <= i < c1.len()
            ==> is_discovered(#[trigger] c1[i]) == is_discovered(#[trigger] c2[i]),
    ensures
        count_col(c1) == count_col(c2),
    decreases c1.len(),
{
    if c1.len() > 0 {
        lemma_count_col_same(c1.drop_last(), c2.drop_last());
    }
}

/// Grids with pointwise equal resolution status have the same count.
pub proof fn lemma_count_same<T>(g1: Seq<Vec<Cell<T>>>, g2: Seq<Vec<Cell<T>>>)
    requires
        g1.len() == g2.len(),
        forall|x: int| 0 <= x < g1.len() ==> (#[trigger] g1[x])@.len() == (#[trigger] g2[x])@.len(),
        forall|x: int, y: int| 0 <= x < g1.len() && 0 <= y < g1[x]@.len()
            ==> is_discovered(#[trigger] cell_at(g1, x, y)) == is_discovered(#[trigger] cell_at(g2, x, y)),
    ensures
        resolved_count(g1) == resolved_count(g2),
    decreases g1.len(),
{
    if g1.len() > 0 {
        let n = g1.len() - 1;
        assert forall|y: int| 0 <= y < g1.last()@.len()
            implies is_discovered(#[trigger] g1.last()@[y]) == is_discovered(#[trigger] g2.last()@[y]) by {
            assert(cell_at(g1, n, y) == g1.last()@[y]);
            assert(cell_at(g2, n, y) == g2.last()@[y]);
        }
        lemma_count_col_same(g1.last()@, g2.last()@);
        assert forall|x: int, y: int| 0 <= x < n && 0 <= y < g1.drop_last()[x]@.len()
            implies is_discovered(#[trigger] cell_at(g1.drop_last(), x, y))
                == is_discovered(#[trigger] cell_at(g2.drop_last(), x, y)) by {
            assert(cell_at(g1, x, y) == cell_at(g1.drop_last(), x, y));
            assert(cell_at(g2, x, y) == cell_at(g2.drop_last(), x, y));
        }
        lemma_count_same(g1.drop_last(), g2.drop_last());
    }
}

/// Flipping exactly one cell of a column from undetermined to resolved
/// raises the column count by one.
pub proof fn lemma_count_col_update<T>(c1: Seq<Cell<T>>, c2: Seq<Cell<T>>, k: int)
    requires
        c1.len() == c2.len(),
        0 <= k < c1.len(),
        !is_discovered(c1[k]),
        is_discovered(c2[k]),
        forall|i: int| 0 <= i < c1.len() && i != k
            ==> is_discovered(#[trigger] c1[i]) == is_discovered(#[trigger] c2[i]),
    ensures
        count_col(c2) == count_col(c1) + 1,
    decreases c1.len(),
{
    if k == c1.len() - 1 {
        lemma_count_col_same(c1.drop_last(), c2.drop_last());
    } else {
        lemma_count_col_update(c1.drop_last(), c2.drop_last(), k);
    }
}

/// Flipping exactly one cell of a grid from undetermined to resolved
/// raises the resolved count by one.
pub proof fn lemma_count_update<T>(g1: Seq<Vec<Cell<T>>>, g2: Seq<Vec<Cell<T>>>, cx: int, cy: int)
    requires
        g1.len() == g2.len(),
        forall|x: int| 0 <= x < g1.len() ==> (#[trigger] g1[x])@.len() == (#[trigger] g2[x])@.len(),
        0 <= cx < g1.len(),
        0 <= cy < g1[cx]@.len(),
        !is_discovered(cell_at(g1, cx, cy)),
        is_discovered(cell_at(g2, cx, cy)),
        forall|x: int, y: int| 0 <= x < g1.len() && 0 <= y < g1[x]@.len() && !(x == cx && y == cy)
            ==> is_discovered(#[trigger] cell_at(g1, x, y)) == is_discovered(#[trigger] cell_at(g2, x, y)),
    ensures
        resolved_count(g2) == resolved_count(g1) + 1,
    decreases g1.len(),
{
    let n = g1.len() - 1;
    if cx == n {
        assert forall|y: int| 0 <= y < g1.last()@.len() && y != cy
            implies is_discovered(#[trigger] g1.last()@[y]) == is_discovered(#[trigger] g2.last()@[y]) by {
            assert(cell_at(g1, n, y) == g1.last()@[y]);
            assert(cell_at(g2, n, y) == g2.last()@[y]);
        }
        assert(cell_at(g1, n, cy) == g1.last()@[cy]);
        assert(cell_at(g2, n, cy) == g2.last()@[cy]);
        lemma_count_col_update(g1.last()@, g2.last()@, cy);
        assert forall|x: int, y: int| 0 <= x < n && 0 <= y < g1.drop_last()[x]@.len()
            implies is_discovered(#[trigger] cell_at(g1.drop_last(), x, y))
                == is_discovered(#[trigger] cell_at(g2.drop_last(), x, y)) by {
            assert(cell_at(g1, x, y) == cell_at(g1.drop_last(), x, y));
            assert(cell_at(g2, x, y) == cell_at(g2.drop_last(), x, y));
        }
        lemma_count_same(g1.drop_last(), g2.drop_last());
    } else {
        assert forall|y: int| 0 <= y < g1.last()@.len()
            implies is_discovered(#[trigger] g1.last()@[y]) == is_discovered(#[trigger] g2.last()@[y]) by {
            assert(cell_at(g1, n, y) == g1.last()@[y]);
            assert(cell_at(g2, n, y) == g2.last()@[y]);
        }
        lemma_count_col_same(g1.last()@, g2.last()@);
        assert forall|x: int, y: int| 0 <= x < n && 0 <= y < g1.drop_last()[x]@.len() && !(x == cx && y == cy)
            implies is_discovered(#[trigger] cell_at(g1.drop_last(), x, y))
                == is_discovered(#[trigger] cell_at(g2.drop_last(), x, y)) by {
            assert(cell_at(g1, x, y) == cell_at(g1.drop_last(), x, y));
            assert(cell_at(g2, x, y) == cell_at(g2.drop_last(), x, y));
        }
        assert(cell_at(g1.drop_last(), cx, cy) == cell_at(g1, cx, cy));
        assert(cell_at(g2.drop_last(), cx, cy) == cell_at(g2, cx, cy));
        lemma_count_update(g1.drop_last(), g2.drop_last(), cx, cy);
    }
}

/// A grid with no resolved cell has a resolved count of zero.
pub proof fn lemma_count_zero<T>(g: Seq<Vec<Cell<T>>>)
    requires
        forall|x: int, y: int| 0 <= x < g.len() && 0 <= y < g[x]@.len()
            ==> !is_discovered(#[trigger] cell_at(g, x, y)),
    ensures
        resolved_count(g) == 0,
    decreases g.len(),
{
    if g.len() > 0 {
        let n = g.len() - 1;
        assert forall|y: int| 0 <= y < g.last()@.len()
            implies !is_discovered(#[trigger] g.last()@[y]) by {
            assert(cell_at(g, n, y) == g.last()@[y]);
        }
        lemma_count_col_zero(g.last()@);
        assert forall|x: int, y: int| 0 <= x < n && 0 <= y < g.drop_last()[x]@.len()
            implies !is_discovered(#[trigger] cell_at(g.drop_last(), x, y)) by {
            assert(cell_at(g, x, y) == cell_at(g.drop_last(), x, y));
        }
        lemma_count_zero(g.drop_last());
    }
}

/// A column with no resolved cell has a count of zero.
pub proof fn lemma_count_col_zero<T>(c: Seq<Cell<T>>)
    requires
        forall|i: int| 0 <= i < c.len() ==> !is_discovered(#[trigger] c[i]),
    ensures
        count_col(c) == 0,
    decreases c.len(),
{
    if c.len() > 0 {
        lemma_count_col_zero(c.drop_last());
    }
}

} // verus!
