//! The capability interface of a constraint model, and the shared theory of
//! candidate narrowing.
//!
//! A model fixes the alphabet and says which value is admissible at a
//! coordinate, judged from the *resolved projection* of the grid: the map
//! from coordinates to `Some(value)` for resolved cells and `None` for
//! undetermined ones. Working on the projection makes it definitional that
//! admissibility ignores the candidate lists of undetermined neighbours.
//! The solver engine is generic over this trait. Beside the two executable
//! methods, an implementation owes four laws, stated as proof obligations
//! below; from them the engine proves monotonic narrowing and adjacency
//! consistency.

use crate::cell::Cell;
use crate::cell::cell_value;
use crate::cell::in_bounds;
use vstd::prelude::*;

verus! {

/// The resolved projection of a grid: per cell, the resolved value or
/// `None`.
pub open spec fn proj<T>(g: Seq<Vec<Cell<T>>>) -> Seq<Seq<Option<T>>> {
    Seq::new(g.len(), |x: int| Seq::new(g[x]@.len(), |y: int| cell_value(g[x]@[y])))
}

/// Reading the projection at `(x, y)` reads the resolved value of that
/// cell.
pub broadcast proof fn lemma_proj_index<T>(g: Seq<Vec<Cell<T>>>, x: int, y: int)
    requires
        0 <= x < g.len(),
        0 <= y < g[x]@.len(),
    ensures
        #[trigger] proj(g)[x][y] == cell_value(crate::cell::cell_at(g, x, y)),
        proj(g)[x][y] is None <==> !crate::cell::is_discovered(crate::cell::cell_at(g, x, y)),
{
}

/// The projection has `w` columns of `h` entries each, neither zero.
pub open spec fn proj_wf<T>(p: Seq<Seq<Option<T>>>, w: nat, h: nat) -> bool {
    &&& w > 0
    &&& h > 0
    &&& p.len() == w
    &&& forall|x: int| 0 <= x < w ==> (#[trigger] p[x]).len() == h
}

/// Every cell resolved under `p1` is resolved to the same value under `p2`:
/// `p2` is at least as determined as `p1`.
pub open spec fn proj_refines<T>(p1: Seq<Seq<Option<T>>>, p2: Seq<Seq<Option<T>>>, w: nat, h: nat) -> bool {
    forall|x: int, y: int|
        in_bounds(w, h, x, y) && (#[trigger] p1[x][y]) is Some ==> p2[x][y] == p1[x][y]
}

/// The projection of a freshly built `w` by `h` grid: nothing resolved yet.
pub open spec fn blank_proj<T>(w: nat, h: nat) -> Seq<Seq<Option<T>>> {
    Seq::new(w, |x: int| Seq::new(h, |y: int| None::<T>))
}

/// The projection with the cell at `(x, y)` resolved to `v`.
pub open spec fn proj_set<T>(p: Seq<Seq<Option<T>>>, x: int, y: int, v: T) -> Seq<Seq<Option<T>>> {
    p.update(x, p[x].update(y, Some(v)))
}

/// A constraint model over the alphabet `Self`.
pub trait CellValue: Sized + Copy {
    /// The full, fixed alphabet, as contracts see it.
    spec fn all_states_spec() -> Seq<Self>;

    /// Whether value `v` is admissible at `(x, y)` under the resolved
    /// projection `p`.
    spec fn admits(p: Seq<Seq<Option<Self>>>, x: int, y: int, v: Self) -> bool;

    /// The candidate sequence at `(x, y)` under `p`: what
    /// `get_valid_states` returns, as contracts see it.
    spec fn valid_spec(p: Seq<Seq<Option<Self>>>, x: int, y: int) -> Seq<Self>;

    /// Law: the alphabet has no repeated values.
    proof fn lemma_all_states()
        ensures
            Self::all_states_spec().no_duplicates(),
    ;

    /// Law: the candidate sequence holds, without repetition, exactly the
    /// admissible alphabet values.
    proof fn lemma_valid_chars(p: Seq<Seq<Option<Self>>>, w: nat, h: nat, x: int, y: int)
        requires
            proj_wf(p, w, h),
            in_bounds(w, h, x, y),
        ensures
            Self::valid_spec(p, x, y).no_duplicates(),
            forall|v: Self|
                #[trigger] Self::valid_spec(p, x, y).contains(v)
                    <==> (Self::admits(p, x, y, v) && Self::all_states_spec().contains(v)),
    ;

    /// Law: resolving more cells never widens admissibility. Whatever is
    /// admitted under the more determined projection `p2` was already
    /// admitted under `p1`.
    proof fn lemma_admits_monotone(
        p1: Seq<Seq<Option<Self>>>,
        p2: Seq<Seq<Option<Self>>>,
        w: nat,
        h: nat,
        x: int,
        y: int,
        v: Self,
    )
        requires
            proj_wf(p1, w, h),
            proj_wf(p2, w, h),
            proj_refines(p1, p2, w, h),
            in_bounds(w, h, x, y),
            Self::admits(p2, x, y, v),
        ensures
            Self::admits(p1, x, y, v),
    ;

    /// Law: resolving an undetermined cell `(x2, y2)` to a value `v2`
    /// admitted there keeps admissible both `v2` itself at that cell and
    /// every value `v1` already resolved and admissible at any `(x1, y1)`.
    proof fn lemma_admits_update(
        p: Seq<Seq<Option<Self>>>,
        w: nat,
        h: nat,
        x2: int,
        y2: int,
        v2: Self,
        x1: int,
        y1: int,
        v1: Self,
    )
        requires
            proj_wf(p, w, h),
            in_bounds(w, h, x1, y1),
            in_bounds(w, h, x2, y2),
            p[x2][y2] is None,
            Self::admits(p, x2, y2, v2),
            (x1 == x2 && y1 == y2 && v1 == v2)
                || (p[x1][y1] == Some(v1) && Self::admits(p, x1, y1, v1)),
        ensures
            Self::admits(proj_set(p, x2, y2, v2), x1, y1, v1),
    ;

    /// The full alphabet. Called once per cell at grid construction.
    fn get_all_states() -> (r: Vec<Self>)
        ensures
            r@ == Self::all_states_spec(),
    ;

    /// The subset of the alphabet still admissible at `(x, y)`, judged from
    /// the resolved state of the four axis-aligned neighbours in the
    /// current grid; out-of-bounds neighbours count as a fixed boundary
    /// constraint.
    fn get_valid_states(grid: &Vec<Vec<Cell<Self>>>, x: usize, y: usize) -> (r: Vec<Self>)
        requires
            grid@.len() > 0,
            grid@[0]@.len() > 0,
            forall|i: int| 0 <= i < grid@.len() ==> (#[trigger] grid@[i])@.len() == grid@[0]@.len(),
            x < grid@.len(),
            y < grid@[0]@.len(),
        ensures
            r@ == Self::valid_spec(proj(grid@), x as int, y as int),
    ;
}

/// Every resolved cell of the projection holds a value that is still
/// admissible there: nothing resolved contradicts its neighbourhood.
pub open spec fn proj_consistent<T: CellValue>(p: Seq<Seq<Option<T>>>, w: nat, h: nat) -> bool {
    forall|x: int, y: int|
        in_bounds(w, h, x, y) && (#[trigger] p[x][y]) is Some
            ==> T::admits(p, x, y, p[x][y]->Some_0)
}

/// There are never more candidates than alphabet values.
pub proof fn lemma_valid_len<T: CellValue>(p: Seq<Seq<Option<T>>>, w: nat, h: nat, x: int, y: int)
    requires
        proj_wf(p, w, h),
        in_bounds(w, h, x, y),
    ensures
        T::valid_spec(p, x, y).len() <= T::all_states_spec().len(),
{
    broadcast use vstd::seq_lib::seq_to_set_is_finite;

    T::lemma_valid_chars(p, w, h, x, y);
    T::lemma_all_states();
    let vs = T::valid_spec(p, x, y);
    let alls = T::all_states_spec();
    vs.unique_seq_to_set();
    alls.unique_seq_to_set();
    assert(vs.to_set().subset_of(alls.to_set()));
    vstd::set_lib::lemma_len_subset(vs.to_set(), alls.to_set());
}

/// Monotonic narrowing: as a grid resolves, a cell's candidate sequence
/// loses members and never gains any. If `p2` refines `p1`, every candidate
/// under `p2` is one under `p1`, and there are no more of them.
pub proof fn lemma_valid_refines<T: CellValue>(
    p1: Seq<Seq<Option<T>>>,
    p2: Seq<Seq<Option<T>>>,
    w: nat,
    h: nat,
    x: int,
    y: int,
)
    requires
        proj_wf(p1, w, h),
        proj_wf(p2, w, h),
        proj_refines(p1, p2, w, h),
        in_bounds(w, h, x, y),
    ensures
        T::valid_spec(p2, x, y).len() <= T::valid_spec(p1, x, y).len(),
        forall|v: T|
            #[trigger] T::valid_spec(p2, x, y).contains(v) ==> T::valid_spec(p1, x, y).contains(v),
{
    broadcast use vstd::seq_lib::seq_to_set_is_finite;

    T::lemma_valid_chars(p1, w, h, x, y);
    T::lemma_valid_chars(p2, w, h, x, y);
    assert forall|v: T| #[trigger] T::valid_spec(p2, x, y).contains(v)
        implies T::valid_spec(p1, x, y).contains(v) by {
        T::lemma_admits_monotone(p1, p2, w, h, x, y, v);
    }
    let v1 = T::valid_spec(p1, x, y);
    let v2 = T::valid_spec(p2, x, y);
    v1.unique_seq_to_set();
    v2.unique_seq_to_set();
    assert(v2.to_set().subset_of(v1.to_set()));
    vstd::set_lib::lemma_len_subset(v2.to_set(), v1.to_set());
}

} // verus!
