//! The solver engine: owns the grid, drives propagation to a fixpoint,
//! finds the cells of least entropy, and collapses one cell per step.
//!
//! Entropy of an undetermined cell is the logarithm of its candidate
//! count; since the logarithm is strictly increasing, the engine compares
//! the counts themselves, which orders cells exactly the same way.

use crate::cell::Cell;
use crate::cell::cell_at;
use crate::cell::cell_cands;
use crate::cell::grid_wf;
use crate::cell::in_bounds;
use crate::cell::is_discovered;
use crate::cell::lemma_count_same;
use crate::cell::lemma_count_update;
use crate::cell::lemma_count_zero;
use crate::cell::resolved_count;
use crate::model::CellValue;
use crate::model::blank_proj;
use crate::model::proj;
use crate::model::proj_consistent;
use crate::model::proj_refines;
use crate::model::proj_set;
use crate::model::proj_wf;
use crate::randsrc::rng_below;
use crate::randsrc::rng_from_seed;
use vstd::prelude::*;

verus! {

/// What can go wrong while solving. Errors are fatal to the current solve:
/// there is no backtracking.
#[derive(Clone, Copy, PartialEq, Eq, Structural, Debug)]
pub enum SolverError {
    /// A grid dimension was zero at construction.
    InvalidDimensions,
    /// Propagation left the cell at `(x, y)` with no candidate at all.
    Contradiction { x: usize, y: usize },
    /// A random cell was asked for although every cell is already resolved.
    NoUndeterminedCells,
}

/// One cell of a read-only snapshot: the resolved value, or how many
/// candidates are still open.
#[derive(Clone, Copy, PartialEq, Eq, Structural, Debug)]
pub enum CellInfo<T> {
    Value(T),
    Choices(usize),
}

/// The solver over a `width` by `height` grid of cells drawn from the
/// alphabet of the model `T`.
pub struct WaveFunctionCollapse2D<T> {
    pub width: usize,
    pub height: usize,
    pub grid: Vec<Vec<Cell<T>>>,
    pub rng: rand::rngs::StdRng,
}

impl<T: CellValue> WaveFunctionCollapse2D<T> {
    /// The resolved projection of the grid.
    pub open spec fn projection(&self) -> Seq<Seq<Option<T>>> {
        proj(self.grid@)
    }

    /// The grid has the announced dimensions, and neither is zero.
    pub open spec fn dims_ok(&self) -> bool {
        grid_wf(self.grid@, self.width as nat, self.height as nat)
    }

    /// The grid is a propagation fixpoint: every undetermined cell holds
    /// exactly the candidates the model computes for it from the current
    /// resolved state.
    pub open spec fn fixpoint(&self) -> bool {
        forall|x: int, y: int|
            in_bounds(self.width as nat, self.height as nat, x, y)
                && !is_discovered(#[trigger] cell_at(self.grid@, x, y))
                ==> cell_cands(cell_at(self.grid@, x, y)) == T::valid_spec(self.projection(), x, y)
    }

    /// The engine invariant: well-shaped, propagated to a fixpoint, and no
    /// resolved cell contradicts its neighbourhood.
    pub open spec fn wf(&self) -> bool {
        &&& self.dims_ok()
        &&& self.fixpoint()
        &&& proj_consistent::<T>(self.projection(), self.width as nat, self.height as nat)
    }

    /// Every undetermined cell still has at least one candidate.
    pub open spec fn no_contradiction(&self) -> bool {
        forall|x: int, y: int|
            in_bounds(self.width as nat, self.height as nat, x, y)
                && !is_discovered(#[trigger] cell_at(self.grid@, x, y))
                ==> cell_cands(cell_at(self.grid@, x, y)).len() > 0
    }

    /// Some cell is still undetermined.
    pub open spec fn has_undetermined(&self) -> bool {
        exists|x: int, y: int|
            in_bounds(self.width as nat, self.height as nat, x, y)
                && !is_discovered(#[trigger] cell_at(self.grid@, x, y))
    }

    /// `(x, y)` is an undetermined cell whose candidate count is minimal
    /// among all undetermined cells.
    pub open spec fn is_lowest(&self, x: int, y: int) -> bool {
        &&& in_bounds(self.width as nat, self.height as nat, x, y)
        &&& !is_discovered(cell_at(self.grid@, x, y))
        &&& forall|a: int, b: int|
            in_bounds(self.width as nat, self.height as nat, a, b)
                && !is_discovered(#[trigger] cell_at(self.grid@, a, b))
                ==> cell_cands(cell_at(self.grid@, x, y)).len()
                    <= cell_cands(cell_at(self.grid@, a, b)).len()
    }

    /// Monotonic narrowing across solving steps: between any two
    /// propagated solver states of the same dimensions where the second
    /// resolves everything the first resolved (as every run of
    /// `collapse_one` does), a cell undetermined in both holds in the
    /// second state a sub-collection of the candidates it held in the
    /// first, and so no more of them.
    pub proof fn lemma_narrowing(s1: &Self, s2: &Self, x: int, y: int)
        requires
            s1.wf(),
            s2.wf(),
            s2.width == s1.width,
            s2.height == s1.height,
            proj_refines(
                s1.projection(),
                s2.projection(),
                s1.width as nat,
                s1.height as nat,
            ),
            in_bounds(s1.width as nat, s1.height as nat, x, y),
            !is_discovered(cell_at(s1.grid@, x, y)),
            !is_discovered(cell_at(s2.grid@, x, y)),
        ensures
            cell_cands(cell_at(s2.grid@, x, y)).len() <= cell_cands(cell_at(s1.grid@, x, y)).len(),
            forall|v: T|
                #[trigger] cell_cands(cell_at(s2.grid@, x, y)).contains(v) ==> cell_cands(
                    cell_at(s1.grid@, x, y),
                ).contains(v),
    {
        crate::model::lemma_valid_refines::<T>(
            s1.projection(),
            s2.projection(),
            s1.width as nat,
            s1.height as nat,
            x,
            y,
        );
    }

    /// Builds a `width` by `height` grid with every cell undetermined and
    /// holding the full alphabet, runs one propagation pass, and seeds the
    /// random source. Zero dimensions are rejected; a model that admits
    /// nothing at some cell of the blank grid is reported as a
    /// contradiction there.
    pub fn new(width: usize, height: usize, seed: u64) -> (r: Result<Self, SolverError>)
        ensures
            (r matches Err(e) && e == SolverError::InvalidDimensions) <==> (width == 0 || height
                == 0),
            r matches Ok(s) ==> {
                &&& s.width == width
                &&& s.height == height
                &&& s.wf()
                &&& s.no_contradiction()
                &&& s.projection() == blank_proj::<T>(width as nat, height as nat)
                &&& resolved_count(s.grid@) == 0
                &&& forall|x: int, y: int|
                    in_bounds(width as nat, height as nat, x, y)
                        ==> !is_discovered(#[trigger] cell_at(s.grid@, x, y))
                        && cell_cands(cell_at(s.grid@, x, y))
                            == T::valid_spec(blank_proj::<T>(width as nat, height as nat), x, y)
                        && cell_cands(cell_at(s.grid@, x, y)).len() <= T::all_states_spec().len()
            },
            r matches Err(e) ==> (e matches SolverError::Contradiction { x, y } ==> {
                &&& width > 0 && height > 0
                &&& x < width && y < height
                &&& T::valid_spec(blank_proj::<T>(width as nat, height as nat), x as int, y as int).len() == 0
            }),
            !(r matches Err(e) && e == SolverError::NoUndeterminedCells),
            (width > 0 && height > 0 && forall|x: int, y: int|
                in_bounds(width as nat, height as nat, x, y)
                    ==> (#[trigger] T::valid_spec(
                        blank_proj::<T>(width as nat, height as nat),
                        x,
                        y,
                    )).len() > 0) ==> r is Ok,
    {
        if width == 0 || height == 0 {
            return Err(SolverError::InvalidDimensions);
        }
        let mut grid: Vec<Vec<Cell<T>>> = Vec::new();
        let mut x: usize = 0;
        while x < width
            invariant
                x <= width,
                height > 0,
                grid@.len() == x,
                forall|a: int| 0 <= a < x ==> (#[trigger] grid@[a])@.len() == height,
                forall|a: int, b: int|
                    0 <= a < x && 0 <= b < height ==> !is_discovered(
                        #[trigger] cell_at(grid@, a, b),
                    ) && cell_cands(cell_at(grid@, a, b)) == T::all_states_spec(),
            decreases width - x,
        {
            let mut col: Vec<Cell<T>> = Vec::new();
            let mut y: usize = 0;
            while y < height
                invariant
                    y <= height,
                    col@.len() == y,
                    forall|b: int|
                        0 <= b < y ==> !is_discovered(#[trigger] col@[b]) && cell_cands(col@[b])
                            == T::all_states_spec(),
                decreases height - y,
            {
                let all = T::get_all_states();
                col.push(Cell::Undiscovered(all));
                y = y + 1;
            }
            let ghost gp = grid@;
            let ghost colv = col@;
            grid.push(col);
            proof {
                assert forall|a: int, b: int| 0 <= a < x + 1 && 0 <= b < height implies !is_discovered(
                    #[trigger] cell_at(grid@, a, b),
                ) && cell_cands(cell_at(grid@, a, b)) == T::all_states_spec() by {
                    if a < x {
                        assert(grid@[a] == gp[a]);
                        assert(cell_at(grid@, a, b) == cell_at(gp, a, b));
                    } else {
                        assert(grid@[a]@ == colv);
                        assert(cell_at(grid@, a, b) == colv[b]);
                    }
                }
            }
            x = x + 1;
        }
        let rng = rng_from_seed(seed);
        let mut s = WaveFunctionCollapse2D { width, height, grid, rng };
        proof {
            broadcast use crate::model::lemma_proj_index;

            assert forall|a: int, b: int| 0 <= a < width && 0 <= b < height implies s.projection()[a][b]
                == None::<T> by {
                assert(!is_discovered(cell_at(s.grid@, a, b)));
            }
            assert(s.projection() =~~= blank_proj::<T>(width as nat, height as nat));
        }
        match s.update_cells() {
            Ok(()) => {
                proof {
                    broadcast use crate::model::lemma_proj_index;

                    assert(s.projection() == blank_proj::<T>(width as nat, height as nat));
                    assert forall|a: int, b: int|
                        0 <= a < s.grid@.len() && 0 <= b < s.grid@[a]@.len() implies !is_discovered(
                        #[trigger] cell_at(s.grid@, a, b),
                    ) by {
                        assert(s.projection()[a][b] == blank_proj::<T>(
                            width as nat,
                            height as nat,
                        )[a][b]);
                    }
                    lemma_count_zero(s.grid@);
                    assert forall|a: int, b: int|
                        in_bounds(width as nat, height as nat, a, b) implies cell_cands(
                        #[trigger] cell_at(s.grid@, a, b),
                    ).len() <= T::all_states_spec().len() by {
                        crate::model::lemma_valid_len::<T>(
                            s.projection(),
                            width as nat,
                            height as nat,
                            a,
                            b,
                        );
                    }
                }
                Ok(s)
            },
            Err(e) => Err(e),
        }
    }

    /// One propagation pass: recomputes, in a single left-to-right,
    /// top-to-bottom scan, the candidate set of every undetermined cell
    /// from the model, reading the grid in place. Since the model only
    /// looks at resolved cells and the pass resolves nothing, the pass
    /// reads the same resolved state throughout; resolved cells are left
    /// untouched, and afterwards the grid is a propagation fixpoint. If
    /// some cell comes out with no candidate at all, one such coordinate is
    /// reported as a contradiction.
    pub fn update_cells(&mut self) -> (r: Result<(), SolverError>)
        requires
            old(self).dims_ok(),
        ensures
            final(self).width == old(self).width,
            final(self).height == old(self).height,
            final(self).dims_ok(),
            final(self).projection() == old(self).projection(),
            forall|x: int, y: int|
                in_bounds(old(self).width as nat, old(self).height as nat, x, y)
                    && !is_discovered(#[trigger] cell_at(old(self).grid@, x, y))
                    ==> cell_cands(cell_at(final(self).grid@, x, y)) == T::valid_spec(
                        old(self).projection(),
                        x,
                        y,
                    ),
            forall|x: int, y: int|
                in_bounds(old(self).width as nat, old(self).height as nat, x, y)
                    && is_discovered(#[trigger] cell_at(old(self).grid@, x, y))
                    ==> cell_at(final(self).grid@, x, y) == cell_at(old(self).grid@, x, y),
            final(self).fixpoint(),
            (r matches Ok(v) && v == ()) <==> final(self).no_contradiction(),
            r matches Err(e) ==> e matches SolverError::Contradiction { x, y } && x < old(
                self,
            ).width && y < old(self).height && !is_discovered(
                cell_at(final(self).grid@, x as int, y as int),
            ) && T::valid_spec(old(self).projection(), x as int, y as int).len() == 0,
    {
        let ghost g0 = self.grid@;
        let ghost p0 = proj(self.grid@);
        let w = self.width;
        let h = self.height;
        let mut x: usize = 0;
        while x < w
            invariant
                self.width == w,
                self.height == h,
                grid_wf(self.grid@, w as nat, h as nat),
                grid_wf(g0, w as nat, h as nat),
                p0 == proj(g0),
                x <= w,
                proj(self.grid@) == p0,
                forall|a: int, b: int|
                    0 <= a < w && 0 <= b < h && a >= x ==> #[trigger] cell_at(self.grid@, a, b)
                        == cell_at(g0, a, b),
                forall|a: int, b: int|
                    0 <= a < w && 0 <= b < h && is_discovered(#[trigger] cell_at(g0, a, b))
                        ==> cell_at(self.grid@, a, b) == cell_at(g0, a, b),
                forall|a: int, b: int|
                    0 <= a < x && 0 <= b < h && !is_discovered(#[trigger] cell_at(g0, a, b))
                        ==> cell_cands(cell_at(self.grid@, a, b)) == T::valid_spec(p0, a, b),
            decreases w - x,
        {
            let mut y: usize = 0;
            while y < h
                invariant
                    self.width == w,
                    self.height == h,
                    grid_wf(self.grid@, w as nat, h as nat),
                    grid_wf(g0, w as nat, h as nat),
                    p0 == proj(g0),
                    x < w,
                    y <= h,
                    proj(self.grid@) == p0,
                    forall|a: int, b: int|
                        0 <= a < w && 0 <= b < h && (a > x || (a == x && b >= y))
                            ==> #[trigger] cell_at(self.grid@, a, b) == cell_at(g0, a, b),
                    forall|a: int, b: int|
                        0 <= a < w && 0 <= b < h && is_discovered(#[trigger] cell_at(g0, a, b))
                            ==> cell_at(self.grid@, a, b) == cell_at(g0, a, b),
                    forall|a: int, b: int|
                        0 <= a < w && 0 <= b < h && (a < x || (a == x && b < y))
                            && !is_discovered(#[trigger] cell_at(g0, a, b)) ==> cell_cands(
                            cell_at(self.grid@, a, b),
                        ) == T::valid_spec(p0, a, b),
                decreases h - y,
            {
                let is_und = match &self.grid[x][y] {
                    Cell::Undiscovered(_) => true,
                    Cell::Discovered(_) => false,
                };
                if is_und {
                    let nv = T::get_valid_states(&self.grid, x, y);
                    let ghost gprev = self.grid@;
                    self.grid[x][y] = Cell::Undiscovered(nv);
                    proof {
                        assert(forall|a: int| 0 <= a < w && a != x ==> self.grid@[a] == gprev[a]);
                        assert(forall|b: int|
                            0 <= b < h && b != y ==> self.grid@[x as int]@[b] == gprev[x as int]@[b]);
                        assert(cell_at(self.grid@, x as int, y as int) == Cell::<T>::Undiscovered(nv));
                        assert(proj(self.grid@) =~~= p0);
                    }
                }
                y = y + 1;
            }
            x = x + 1;
        }
        proof {
            assert(final(self).fixpoint() == self.fixpoint());
        }
        match self.find_empty() {
            None => Ok(()),
            Some(c) => Err(SolverError::Contradiction { x: c.0, y: c.1 }),
        }
    }

    /// All coordinates of least entropy: exactly the undetermined cells
    /// whose candidate count equals the global minimum over all
    /// undetermined cells, in scan order; empty exactly when every cell is
    /// resolved. Resolved cells are never included.
    pub fn get_all_lowest(&self) -> (r: Vec<(usize, usize)>)
        requires
            self.dims_ok(),
        ensures
            forall|i: int|
                0 <= i < r@.len() ==> self.is_lowest((#[trigger] r@[i]).0 as int, r@[i].1 as int),
            forall|x: int, y: int|
                self.is_lowest(x, y) ==> #[trigger] r@.contains((x as usize, y as usize)),
            forall|i: int, j: int| 0 <= i < j < r@.len() ==> r@[i] != r@[j],
            r@.len() == 0 <==> !self.has_undetermined(),
    {
        let w = self.width;
        let h = self.height;
        let mut coords: Vec<(usize, usize)> = Vec::new();
        let mut lowest: usize = usize::MAX;
        let mut x: usize = 0;
        while x < w
            invariant
                self.dims_ok(),
                self.width == w,
                self.height == h,
                x <= w,
                coords@.len() == 0 ==> lowest == usize::MAX,
                forall|i: int|
                    0 <= i < coords@.len() ==> {
                        let c = #[trigger] coords@[i];
                        &&& c.0 < x
                        &&& c.1 < h
                        &&& !is_discovered(cell_at(self.grid@, c.0 as int, c.1 as int))
                        &&& cell_cands(cell_at(self.grid@, c.0 as int, c.1 as int)).len() == lowest
                    },
                forall|a: int, b: int|
                    0 <= a < x && 0 <= b < h && !is_discovered(#[trigger] cell_at(self.grid@, a, b))
                        ==> cell_cands(cell_at(self.grid@, a, b)).len() >= lowest,
                forall|a: int, b: int|
                    0 <= a < x && 0 <= b < h && !is_discovered(#[trigger] cell_at(self.grid@, a, b))
                        && cell_cands(cell_at(self.grid@, a, b)).len() == lowest ==> coords@.contains(
                        (a as usize, b as usize),
                    ),
                coords@.len() == 0 ==> forall|a: int, b: int|
                    0 <= a < x && 0 <= b < h ==> is_discovered(#[trigger] cell_at(self.grid@, a, b)),
                forall|i: int, j: int| 0 <= i < j < coords@.len() ==> coords@[i] != coords@[j],
            decreases w - x,
        {
            let mut y: usize = 0;
            while y < h
                invariant
                    self.dims_ok(),
                    self.width == w,
                    self.height == h,
                    x < w,
                    y <= h,
                    coords@.len() == 0 ==> lowest == usize::MAX,
                    forall|i: int|
                        0 <= i < coords@.len() ==> {
                            let c = #[trigger] coords@[i];
                            &&& (c.0 < x || (c.0 == x && c.1 < y))
                            &&& c.0 < w
                            &&& c.1 < h
                            &&& !is_discovered(cell_at(self.grid@, c.0 as int, c.1 as int))
                            &&& cell_cands(cell_at(self.grid@, c.0 as int, c.1 as int)).len()
                                == lowest
                        },
                    forall|a: int, b: int|
                        0 <= a < w && 0 <= b < h && (a < x || (a == x && b < y)) && !is_discovered(
                            #[trigger] cell_at(self.grid@, a, b),
                        ) ==> cell_cands(cell_at(self.grid@, a, b)).len() >= lowest,
                    forall|a: int, b: int|
                        0 <= a < w && 0 <= b < h && (a < x || (a == x && b < y)) && !is_discovered(
                            #[trigger] cell_at(self.grid@, a, b),
                        ) && cell_cands(cell_at(self.grid@, a, b)).len() == lowest
                            ==> coords@.contains((a as usize, b as usize)),
                    coords@.len() == 0 ==> forall|a: int, b: int|
                        0 <= a < w && 0 <= b < h && (a < x || (a == x && b < y)) ==> is_discovered(
                            #[trigger] cell_at(self.grid@, a, b),
                        ),
                    forall|i: int, j: int| 0 <= i < j < coords@.len() ==> coords@[i] != coords@[j],
                decreases h - y,
            {
                match &self.grid[x][y] {
                    Cell::Discovered(_) => {},
                    Cell::Undiscovered(v) => {
                        let entropy = v.len();
                        if entropy > lowest {
                            // keeps the current minimum
                        } else if entropy < lowest {
                            let ghost oldlow = lowest;
                            lowest = entropy;
                            coords.clear();
                            coords.push((x, y));
                            proof {
                                assert(coords@[0] == (x, y));
                                assert forall|a: int, b: int|
                                    0 <= a < w && 0 <= b < h && (a < x || (a == x && b < y + 1))
                                        && !is_discovered(#[trigger] cell_at(self.grid@, a, b))
                                        && cell_cands(cell_at(self.grid@, a, b)).len() == lowest
                                    implies coords@.contains((a as usize, b as usize)) by {
                                    if a == x && b == y {
                                        assert(coords@[0] == (x, y));
                                    } else {
                                        assert(cell_cands(cell_at(self.grid@, a, b)).len()
                                            >= oldlow);
                                    }
                                }
                            }
                        } else {
                            let ghost cprev = coords@;
                            coords.push((x, y));
                            proof {
                                assert forall|a: int, b: int|
                                    0 <= a < w && 0 <= b < h && (a < x || (a == x && b < y + 1))
                                        && !is_discovered(#[trigger] cell_at(self.grid@, a, b))
                                        && cell_cands(cell_at(self.grid@, a, b)).len() == lowest
                                    implies coords@.contains((a as usize, b as usize)) by {
                                    if a == x && b == y {
                                        assert(coords@[coords@.len() - 1] == (x, y));
                                    } else {
                                        let i = choose|i: int|
                                            0 <= i < cprev.len() && cprev[i] == (
                                            a as usize,
                                            b as usize,
                                            );
                                        assert(coords@[i] == (a as usize, b as usize));
                                    }
                                }
                            }
                        }
                    },
                }
                y = y + 1;
            }
            x = x + 1;
        }
        proof {
            assert forall|x0: int, y0: int| self.is_lowest(x0, y0) implies coords@.contains(
                (x0 as usize, y0 as usize),
            ) by {
                assert(!is_discovered(cell_at(self.grid@, x0, y0)));
                assert(coords@.len() > 0);
                let c = coords@[0];
                assert(!is_discovered(cell_at(self.grid@, c.0 as int, c.1 as int)));
                assert(cell_cands(cell_at(self.grid@, x0, y0)).len() <= cell_cands(
                    cell_at(self.grid@, c.0 as int, c.1 as int),
                ).len());
                assert(cell_cands(cell_at(self.grid@, x0, y0)).len() == lowest);
            }
            if coords@.len() > 0 {
                let c = coords@[0];
                assert(!is_discovered(cell_at(self.grid@, c.0 as int, c.1 as int)));
                assert(self.has_undetermined());
            }
        }
        coords
    }

    /// Picks one coordinate uniformly at random among the cells of least
    /// entropy. Fails when every cell is already resolved, and only then.
    /// Only the random source changes; the grid does not.
    pub fn get_random_lowest(&mut self) -> (r: Result<(usize, usize), SolverError>)
        requires
            old(self).dims_ok(),
        ensures
            final(self).grid == old(self).grid,
            final(self).width == old(self).width,
            final(self).height == old(self).height,
            match r {
                Ok(c) => old(self).is_lowest(c.0 as int, c.1 as int),
                Err(e) => e == SolverError::NoUndeterminedCells && !old(self).has_undetermined(),
            },
    {
        let coords = self.get_all_lowest();
        if coords.len() == 0 {
            Err(SolverError::NoUndeterminedCells)
        } else {
            let i = rng_below(&mut self.rng, coords.len());
            Ok(coords[i])
        }
    }

    /// One solving step: propagates, picks a least-entropy undetermined
    /// cell at random, resolves it to one of its candidates at random, and
    /// propagates again. Returns `Ok(true)` when a cell was resolved,
    /// `Ok(false)` — leaving the grid as it was — when none was left, and
    /// a contradiction error when the last propagation emptied some cell's
    /// candidate set.
    pub fn collapse_one(&mut self) -> (r: Result<bool, SolverError>)
        requires
            old(self).wf(),
            old(self).no_contradiction(),
        ensures
            final(self).width == old(self).width,
            final(self).height == old(self).height,
            final(self).wf(),
            proj_refines(
                old(self).projection(),
                final(self).projection(),
                old(self).width as nat,
                old(self).height as nat,
            ),
            match r {
                Ok(collapsed) => {
                    &&& collapsed == old(self).has_undetermined()
                    &&& final(self).no_contradiction()
                    &&& if collapsed {
                        &&& resolved_count(final(self).grid@) == resolved_count(old(self).grid@)
                            + 1
                        &&& exists|x: int, y: int|
                            #![auto]
                            {
                                &&& old(self).is_lowest(x, y)
                                &&& final(self).projection()[x][y] is Some
                                &&& cell_cands(cell_at(old(self).grid@, x, y)).contains(
                                    final(self).projection()[x][y]->Some_0,
                                )
                                &&& final(self).projection() == proj_set(
                                    old(self).projection(),
                                    x,
                                    y,
                                    final(self).projection()[x][y]->Some_0,
                                )
                            }
                    } else {
                        &&& final(self).projection() == old(self).projection()
                        &&& resolved_count(final(self).grid@) == resolved_count(old(self).grid@)
                    }
                },
                Err(e) => {
                    &&& e matches SolverError::Contradiction { x, y } && x < old(self).width && y
                        < old(self).height && !is_discovered(
                        cell_at(final(self).grid@, x as int, y as int),
                    ) && cell_cands(cell_at(final(self).grid@, x as int, y as int)).len() == 0
                    &&& old(self).has_undetermined()
                    &&& resolved_count(final(self).grid@) == resolved_count(old(self).grid@) + 1
                },
            },
    {
        let ghost g0 = self.grid@;
        let ghost p0 = proj(self.grid@);
        let ghost w = self.width as nat;
        let ghost h = self.height as nat;
        match self.update_cells() {
            Ok(()) => {},
            Err(e) => {
                proof {
                    // a fixpoint grid without contradiction recomputes to
                    // itself, so the first propagation cannot fail
                    broadcast use crate::model::lemma_proj_index;

                    assert forall|a: int, b: int|
                        in_bounds(w, h, a, b) && !is_discovered(
                            #[trigger] cell_at(self.grid@, a, b),
                        ) implies cell_cands(cell_at(self.grid@, a, b)).len() > 0 by {
                        assert(proj(self.grid@)[a][b] == p0[a][b]);
                        assert(!is_discovered(cell_at(g0, a, b)));
                        assert(cell_cands(cell_at(g0, a, b)) == T::valid_spec(p0, a, b));
                        assert(cell_cands(cell_at(self.grid@, a, b)) == T::valid_spec(p0, a, b));
                    }
                    assert(false);
                }
                return Err(e);
            },
        }
        let ghost g1 = self.grid@;
        proof {
            broadcast use crate::model::lemma_proj_index;

            // statuses and candidate views agree with the starting grid
            assert forall|a: int, b: int| in_bounds(w, h, a, b) implies is_discovered(
                #[trigger] cell_at(g1, a, b),
            ) == is_discovered(cell_at(g0, a, b)) && cell_cands(cell_at(g1, a, b)) == cell_cands(
                cell_at(g0, a, b),
            ) by {
                assert(proj(g1)[a][b] == p0[a][b]);
                if !is_discovered(cell_at(g0, a, b)) {
                    assert(cell_cands(cell_at(g0, a, b)) == T::valid_spec(p0, a, b));
                    assert(cell_cands(cell_at(g1, a, b)) == T::valid_spec(p0, a, b));
                } else {
                    assert(cell_at(g1, a, b) == cell_at(g0, a, b));
                }
            }
            lemma_count_same(g1, g0);
        }
        let picked = match self.get_random_lowest() {
            Ok(c) => c,
            Err(_) => {
                proof {
                    assert(!self.has_undetermined());
                    assert forall|a: int, b: int|
                        in_bounds(w, h, a, b) implies is_discovered(
                        #[trigger] cell_at(g0, a, b),
                    ) by {
                        assert(is_discovered(cell_at(g1, a, b)));
                    }
                }
                return Ok(false);
            },
        };
        let (cx, cy) = picked;
        proof {
            assert(!is_discovered(cell_at(g1, cx as int, cy as int)));
        }
        let n = match &self.grid[cx][cy] {
            Cell::Undiscovered(cs) => cs.len(),
            Cell::Discovered(_) => 0,
        };
        let idx = rng_below(&mut self.rng, n);
        let v: T = match &self.grid[cx][cy] {
            Cell::Undiscovered(cs) => cs[idx],
            // dead arm: the picked coordinate is undetermined
            Cell::Discovered(val) => *val,
        };
        let ghost gmid = self.grid@;
        self.grid[cx][cy] = Cell::Discovered(v);
        let ghost g2 = self.grid@;
        let ghost p2 = proj_set(p0, cx as int, cy as int, v);
        proof {
            broadcast use crate::model::lemma_proj_index;

            assert(forall|a: int| 0 <= a < w && a != cx ==> g2[a] == gmid[a]);
            assert(forall|b: int|
                0 <= b < h && b != cy ==> g2[cx as int]@[b] == gmid[cx as int]@[b]);
            assert(cell_at(g2, cx as int, cy as int) == Cell::<T>::Discovered(v));
            assert(proj(g2) =~~= p2);
            // the chosen value was a candidate, so it is admitted
            assert(cell_cands(cell_at(g1, cx as int, cy as int)) == T::valid_spec(
                p0,
                cx as int,
                cy as int,
            ));
            assert(T::valid_spec(p0, cx as int, cy as int).contains(v)) by {
                assert(cell_cands(cell_at(g1, cx as int, cy as int))[idx as int] == v);
            }
            T::lemma_valid_chars(p0, w, h, cx as int, cy as int);
            assert(T::admits(p0, cx as int, cy as int, v));
            assert(p0[cx as int][cy as int] is None);
            // every resolved cell stays admissible after the collapse
            assert forall|a: int, b: int|
                in_bounds(w, h, a, b) && (#[trigger] p2[a][b]) is Some implies T::admits(
                p2,
                a,
                b,
                p2[a][b]->Some_0,
            ) by {
                if a == cx && b == cy {
                    T::lemma_admits_update(
                        p0, w, h, cx as int, cy as int, v, cx as int, cy as int, v,
                    );
                } else {
                    assert(p2[a][b] == p0[a][b]);
                    assert(T::admits(p0, a, b, p0[a][b]->Some_0));
                    T::lemma_admits_update(
                        p0, w, h, cx as int, cy as int, v, a, b, p0[a][b]->Some_0,
                    );
                }
            }
            assert(proj_consistent::<T>(p2, w, h));
            // one more resolved cell
            assert forall|a: int, b: int|
                in_bounds(w, h, a, b) && !(a == cx && b == cy) implies is_discovered(
                #[trigger] cell_at(g2, a, b),
            ) == is_discovered(cell_at(g1, a, b)) by {
                assert(cell_at(g2, a, b) == cell_at(g1, a, b));
            }
            lemma_count_update(g1, g2, cx as int, cy as int);
            // the resolved part only grew
            assert(proj_refines(p0, p2, w, h));
        }
        let r2 = self.update_cells();
        proof {
            broadcast use crate::model::lemma_proj_index;

            assert(proj(self.grid@) == p2);
            assert forall|a: int, b: int| in_bounds(w, h, a, b) implies is_discovered(
                #[trigger] cell_at(self.grid@, a, b),
            ) == is_discovered(cell_at(g2, a, b)) by {
                assert(proj(self.grid@)[a][b] == p2[a][b]);
                assert(proj(g2)[a][b] == p2[a][b]);
            }
            lemma_count_same(self.grid@, g2);
            assert(resolved_count(self.grid@) == resolved_count(g0) + 1);
        }
        match r2 {
            Ok(()) => {
                proof {
                    // the chosen coordinate was of least entropy in the
                    // starting grid as well: statuses and candidate views
                    // agree between the two
                    assert forall|a: int, b: int|
                        in_bounds(w, h, a, b) && !is_discovered(
                            #[trigger] cell_at(g0, a, b),
                        ) implies cell_cands(cell_at(g0, cx as int, cy as int)).len()
                        <= cell_cands(cell_at(g0, a, b)).len() by {
                        assert(!is_discovered(cell_at(g1, a, b)));
                        assert(cell_cands(cell_at(g1, cx as int, cy as int)).len() <= cell_cands(
                            cell_at(g1, a, b),
                        ).len());
                    }
                    assert(old(self).is_lowest(cx as int, cy as int));
                    assert(self.projection() == p2);
                    assert(p2[cx as int][cy as int] == Some(v));
                    assert(cell_cands(cell_at(g0, cx as int, cy as int)).contains(v)) by {
                        assert(cell_cands(cell_at(g1, cx as int, cy as int))[idx as int] == v);
                    }
                    assert(exists|x: int, y: int|
                        #![auto]
                        {
                            &&& old(self).is_lowest(x, y)
                            &&& self.projection()[x][y] is Some
                            &&& cell_cands(cell_at(old(self).grid@, x, y)).contains(
                                self.projection()[x][y]->Some_0,
                            )
                            &&& self.projection() == proj_set(
                                old(self).projection(),
                                x,
                                y,
                                self.projection()[x][y]->Some_0,
                            )
                        }) by {
                        assert({
                            &&& old(self).is_lowest(cx as int, cy as int)
                            &&& self.projection()[cx as int][cy as int] is Some
                            &&& cell_cands(cell_at(old(self).grid@, cx as int, cy as int)).contains(
                                self.projection()[cx as int][cy as int]->Some_0,
                            )
                            &&& self.projection() == proj_set(
                                old(self).projection(),
                                cx as int,
                                cy as int,
                                self.projection()[cx as int][cy as int]->Some_0,
                            )
                        });
                    }
                }
                Ok(true)
            },
            Err(e) => {
                proof {
                    assert(old(self).has_undetermined()) by {
                        assert(!is_discovered(cell_at(g0, cx as int, cy as int)));
                    }
                }
                Err(e)
            },
        }
    }

    /// A read-only snapshot for rendering: per cell, the resolved value or
    /// the number of candidates still open (whose logarithm is the cell's
    /// entropy).
    pub fn snapshot(&self) -> (r: Vec<Vec<CellInfo<T>>>)
        requires
            self.dims_ok(),
        ensures
            r@.len() == self.width,
            forall|x: int| 0 <= x < self.width ==> (#[trigger] r@[x])@.len() == self.height,
            forall|x: int, y: int|
                in_bounds(self.width as nat, self.height as nat, x, y)
                    ==> (#[trigger] r@[x]@[y]) == (match cell_at(self.grid@, x, y) {
                        Cell::Discovered(v) => CellInfo::Value(v),
                        Cell::Undiscovered(cs) => CellInfo::Choices(cs@.len() as usize),
                    }),
    {
        let w = self.width;
        let h = self.height;
        let mut r: Vec<Vec<CellInfo<T>>> = Vec::new();
        let mut x: usize = 0;
        while x < w
            invariant
                self.dims_ok(),
                self.width == w,
                self.height == h,
                x <= w,
                r@.len() == x,
                forall|a: int| 0 <= a < x ==> (#[trigger] r@[a])@.len() == h,
                forall|a: int, b: int|
                    0 <= a < x && 0 <= b < h ==> (#[trigger] r@[a]@[b]) == (match cell_at(
                        self.grid@,
                        a,
                        b,
                    ) {
                        Cell::Discovered(v) => CellInfo::Value(v),
                        Cell::Undiscovered(cs) => CellInfo::Choices(cs@.len() as usize),
                    }),
            decreases w - x,
        {
            let mut col: Vec<CellInfo<T>> = Vec::new();
            let mut y: usize = 0;
            while y < h
                invariant
                    self.dims_ok(),
                    self.width == w,
                    self.height == h,
                    x < w,
                    y <= h,
                    col@.len() == y,
                    forall|b: int|
                        0 <= b < y ==> (#[trigger] col@[b]) == (match cell_at(
                            self.grid@,
                            x as int,
                            b,
                        ) {
                            Cell::Discovered(v) => CellInfo::Value(v),
                            Cell::Undiscovered(cs) => CellInfo::Choices(cs@.len() as usize),
                        }),
                decreases h - y,
            {
                let info = match &self.grid[x][y] {
                    Cell::Discovered(v) => CellInfo::Value(*v),
                    Cell::Undiscovered(cs) => CellInfo::Choices(cs.len()),
                };
                col.push(info);
                y = y + 1;
            }
            let ghost rp = r@;
            let ghost colv = col@;
            r.push(col);
            proof {
                assert forall|a: int, b: int| 0 <= a < x + 1 && 0 <= b < h implies (
                #[trigger] r@[a]@[b]) == (match cell_at(self.grid@, a, b) {
                    Cell::Discovered(v) => CellInfo::Value(v),
                    Cell::Undiscovered(cs) => CellInfo::Choices(cs@.len() as usize),
                }) by {
                    if a < x {
                        assert(r@[a] == rp[a]);
                    } else {
                        assert(r@[a]@ == colv);
                    }
                }
            }
            x = x + 1;
        }
        r
    }

    /// Looks for an undetermined cell whose candidate set is empty.
    fn find_empty(&self) -> (r: Option<(usize, usize)>)
        requires
            self.dims_ok(),
        ensures
            r is None <==> self.no_contradiction(),
            r matches Some(c) ==> c.0 < self.width && c.1 < self.height && !is_discovered(
                cell_at(self.grid@, c.0 as int, c.1 as int),
            ) && cell_cands(cell_at(self.grid@, c.0 as int, c.1 as int)).len() == 0,
    {
        let w = self.width;
        let h = self.height;
        let mut x: usize = 0;
        while x < w
            invariant
                self.dims_ok(),
                self.width == w,
                self.height == h,
                x <= w,
                forall|a: int, b: int|
                    0 <= a < x && 0 <= b < h && !is_discovered(#[trigger] cell_at(self.grid@, a, b))
                        ==> cell_cands(cell_at(self.grid@, a, b)).len() > 0,
            decreases w - x,
        {
            let mut y: usize = 0;
            while y < h
                invariant
                    self.dims_ok(),
                    self.width == w,
                    self.height == h,
                    x < w,
                    y <= h,
                    forall|a: int, b: int|
                        0 <= a < x && 0 <= b < h && !is_discovered(
                            #[trigger] cell_at(self.grid@, a, b),
                        ) ==> cell_cands(cell_at(self.grid@, a, b)).len() > 0,
                    forall|b: int|
                        0 <= b < y && !is_discovered(#[trigger] cell_at(self.grid@, x as int, b))
                            ==> cell_cands(cell_at(self.grid@, x as int, b)).len() > 0,
                decreases h - y,
            {
                match &self.grid[x][y] {
                    Cell::Undiscovered(v) => {
                        if v.len() == 0 {
                            return Some((x, y));
                        }
                    },
                    Cell::Discovered(_) => {},
                }
                y = y + 1;
            }
            x = x + 1;
        }
        None
    }
}

} // verus!
