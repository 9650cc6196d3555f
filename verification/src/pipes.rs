//! The pipe-tile constraint model.
//!
//! The alphabet has sixteen tiles, one per subset of the four sides
//! {up, down, left, right} that the tile connects to. A tile is admissible
//! at a cell when, for every direction in which something definite is known
//! — the neighbour there is resolved, or the grid ends there — the tile
//! connects toward that direction exactly when the neighbour connects back
//! (the boundary never connects). A direction whose neighbour is still
//! undetermined constrains nothing.

use crate::cell::Cell;
use crate::cell::in_bounds;
use crate::model::CellValue;
use crate::model::proj;
use crate::model::proj_refines;
use crate::model::proj_set;
use crate::model::proj_wf;
use vstd::prelude::*;

verus! {

/// One tile: which of the four sides it connects to.
#[derive(Clone, Copy, PartialEq, Eq, Structural, Debug)]
pub struct PipeTile {
    pub up: bool,
    pub down: bool,
    pub left: bool,
    pub right: bool,
}

/// What is known about one direction of a cell: the neighbour there
/// definitely connects toward the cell, definitely does not, or is still
/// undetermined.
#[derive(Clone, Copy, PartialEq, Eq, Structural, Debug)]
pub enum TriBool {
    True,
    False,
    Undef,
}

/// The sixteen tiles, ordered by their connection mask
/// (up = 1, down = 2, left = 4, right = 8).
pub open spec fn pipe_all_states() -> Seq<PipeTile> {
    seq![
        PipeTile { up: false, down: false, left: false, right: false },
        PipeTile { up: true, down: false, left: false, right: false },
        PipeTile { up: false, down: true, left: false, right: false },
        PipeTile { up: true, down: true, left: false, right: false },
        PipeTile { up: false, down: false, left: true, right: false },
        PipeTile { up: true, down: false, left: true, right: false },
        PipeTile { up: false, down: true, left: true, right: false },
        PipeTile { up: true, down: true, left: true, right: false },
        PipeTile { up: false, down: false, left: false, right: true },
        PipeTile { up: true, down: false, left: false, right: true },
        PipeTile { up: false, down: true, left: false, right: true },
        PipeTile { up: true, down: true, left: false, right: true },
        PipeTile { up: false, down: false, left: true, right: true },
        PipeTile { up: true, down: false, left: true, right: true },
        PipeTile { up: false, down: true, left: true, right: true },
        PipeTile { up: true, down: true, left: true, right: true },
    ]
}

/// What is known about the neighbour to the left of `(x, y)`.
pub open spec fn fact_left(p: Seq<Seq<Option<PipeTile>>>, x: int, y: int) -> TriBool {
    if x == 0 {
        TriBool::False
    } else {
        match p[x - 1][y] {
            Some(v) => if v.right { TriBool::True } else { TriBool::False },
            None => TriBool::Undef,
        }
    }
}

/// What is known about the neighbour to the right of `(x, y)`.
pub open spec fn fact_right(p: Seq<Seq<Option<PipeTile>>>, x: int, y: int) -> TriBool {
    if x == p.len() - 1 {
        TriBool::False
    } else {
        match p[x + 1][y] {
            Some(v) => if v.left { TriBool::True } else { TriBool::False },
            None => TriBool::Undef,
        }
    }
}

/// What is known about the neighbour above `(x, y)`.
pub open spec fn fact_up(p: Seq<Seq<Option<PipeTile>>>, x: int, y: int) -> TriBool {
    if y == 0 {
        TriBool::False
    } else {
        match p[x][y - 1] {
            Some(v) => if v.down { TriBool::True } else { TriBool::False },
            None => TriBool::Undef,
        }
    }
}

/// What is known about the neighbour below `(x, y)`.
pub open spec fn fact_down(p: Seq<Seq<Option<PipeTile>>>, x: int, y: int) -> TriBool {
    if y == p[0].len() - 1 {
        TriBool::False
    } else {
        match p[x][y + 1] {
            Some(v) => if v.up { TriBool::True } else { TriBool::False },
            None => TriBool::Undef,
        }
    }
}

/// A definite fact forces the matching connection; an undetermined one
/// allows anything.
pub open spec fn dir_ok(f: TriBool, connects: bool) -> bool {
    match f {
        TriBool::True => connects,
        TriBool::False => !connects,
        TriBool::Undef => true,
    }
}

/// Tile `v` is admissible at `(x, y)`: each of its four sides respects the
/// definite facts about that direction.
pub open spec fn pipe_admits(p: Seq<Seq<Option<PipeTile>>>, x: int, y: int, v: PipeTile) -> bool {
    &&& dir_ok(fact_left(p, x, y), v.left)
    &&& dir_ok(fact_right(p, x, y), v.right)
    &&& dir_ok(fact_up(p, x, y), v.up)
    &&& dir_ok(fact_down(p, x, y), v.down)
}

/// The admissible tiles among the first `n` of the alphabet, in alphabet
/// order.
pub open spec fn pipe_filter(p: Seq<Seq<Option<PipeTile>>>, x: int, y: int, n: int) -> Seq<PipeTile>
    decreases n,
{
    if n <= 0 {
        Seq::empty()
    } else {
        let r = pipe_filter(p, x, y, n - 1);
        if pipe_admits(p, x, y, pipe_all_states()[n - 1]) {
            r.push(pipe_all_states()[n - 1])
        } else {
            r
        }
    }
}

/// What the filtered prefix holds: exactly the admissible tiles among the
/// first `n` alphabet entries.
proof fn lemma_pipe_filter_elems(p: Seq<Seq<Option<PipeTile>>>, x: int, y: int, n: int, v: PipeTile)
    requires
        n <= 16,
    ensures
        pipe_filter(p, x, y, n).contains(v)
            <==> (pipe_admits(p, x, y, v)
                && exists|i: int| 0 <= i < n && #[trigger] pipe_all_states()[i] == v),
    decreases n,
{
    if n > 0 {
        lemma_pipe_filter_elems(p, x, y, n - 1, v);
        let r = pipe_filter(p, x, y, n - 1);
        let q = pipe_filter(p, x, y, n);
        let a = pipe_all_states()[n - 1];
        if pipe_admits(p, x, y, a) {
            assert(q == r.push(a));
            if r.contains(v) {
                let i = choose|i: int| 0 <= i < r.len() && r[i] == v;
                assert(q[i] == v);
                assert(q.contains(v));
            }
            if v == a {
                assert(q[q.len() - 1] == v);
                assert(q.contains(v));
            }
            if q.contains(v) && !r.contains(v) {
                let i = choose|i: int| 0 <= i < q.len() && q[i] == v;
                if i < r.len() {
                    assert(r[i] == v);
                }
                assert(v == a);
            }
        } else {
            if pipe_admits(p, x, y, v) && exists|i: int| 0 <= i < n && #[trigger] pipe_all_states()[i] == v {
                let i = choose|i: int| 0 <= i < n && #[trigger] pipe_all_states()[i] == v;
                assert(i != n - 1);
            }
        }
    }
}

/// The filtered prefix repeats no tile.
proof fn lemma_pipe_filter_nodup(p: Seq<Seq<Option<PipeTile>>>, x: int, y: int, n: int)
    requires
        n <= 16,
        pipe_all_states().no_duplicates(),
    ensures
        pipe_filter(p, x, y, n).no_duplicates(),
    decreases n,
{
    if n > 0 {
        lemma_pipe_filter_nodup(p, x, y, n - 1);
        let r = pipe_filter(p, x, y, n - 1);
        let a = pipe_all_states()[n - 1];
        if pipe_admits(p, x, y, a) {
            lemma_pipe_filter_elems(p, x, y, n - 1, a);
            assert(!r.contains(a));
            assert(pipe_filter(p, x, y, n) == r.push(a));
            assert forall|i: int, j: int| 0 <= i < j < r.push(a).len()
                implies r.push(a)[i] != r.push(a)[j] by {
                if j < r.len() {
                } else {
                    assert(r.push(a)[j] == a);
                    assert(r[i] == r.push(a)[i]);
                    assert(r.contains(r[i])) by {
                        assert(0 <= i < r.len());
                    }
                }
            }
        }
    }
}

impl CellValue for PipeTile {
    open spec fn all_states_spec() -> Seq<PipeTile> {
        pipe_all_states()
    }

    open spec fn admits(p: Seq<Seq<Option<PipeTile>>>, x: int, y: int, v: PipeTile) -> bool {
        pipe_admits(p, x, y, v)
    }

    open spec fn valid_spec(p: Seq<Seq<Option<PipeTile>>>, x: int, y: int) -> Seq<PipeTile> {
        pipe_filter(p, x, y, 16)
    }

    proof fn lemma_all_states() {
        assert(pipe_all_states().no_duplicates()) by {
            assert forall|i: int, j: int| 0 <= i < j < 16
                implies pipe_all_states()[i] != pipe_all_states()[j] by {
                assert(pipe_all_states().len() == 16);
            }
        }
    }

    proof fn lemma_valid_chars(p: Seq<Seq<Option<PipeTile>>>, w: nat, h: nat, x: int, y: int) {
        Self::lemma_all_states();
        lemma_pipe_filter_nodup(p, x, y, 16);
        assert forall|v: PipeTile| #[trigger] pipe_filter(p, x, y, 16).contains(v)
            <==> (pipe_admits(p, x, y, v) && pipe_all_states().contains(v)) by {
            lemma_pipe_filter_elems(p, x, y, 16, v);
        }
    }

    proof fn lemma_admits_monotone(
        p1: Seq<Seq<Option<PipeTile>>>,
        p2: Seq<Seq<Option<PipeTile>>>,
        w: nat,
        h: nat,
        x: int,
        y: int,
        v: PipeTile,
    ) {
        lemma_facts_refine(p1, p2, w, h, x, y);
    }

    proof fn lemma_admits_update(
        p: Seq<Seq<Option<PipeTile>>>,
        w: nat,
        h: nat,
        x2: int,
        y2: int,
        v2: PipeTile,
        x1: int,
        y1: int,
        v1: PipeTile,
    ) {
        let q = proj_set(p, x2, y2, v2);
        assert(q[x2][y2] == Some(v2));
        assert(forall|x: int, y: int|
            0 <= x < p.len() && 0 <= y < p[x].len() && !(x == x2 && y == y2)
                ==> #[trigger] q[x][y] == p[x][y]);
        assert(q.len() == p.len());
        assert(q[0].len() == p[0].len());
        if x1 == x2 && y1 == y2 {
            assert(fact_left(q, x1, y1) == fact_left(p, x1, y1));
            assert(fact_right(q, x1, y1) == fact_right(p, x1, y1));
            assert(fact_up(q, x1, y1) == fact_up(p, x1, y1));
            assert(fact_down(q, x1, y1) == fact_down(p, x1, y1));
        } else {
            // left neighbour of (x1, y1)
            if x1 > 0 && x1 - 1 == x2 && y1 == y2 {
                // the updated cell sits to the left; the old grid resolved
                // (x1, y1) to v1, so v2's right side was filtered against it
                assert(fact_right(p, x2, y2) == if v1.left { TriBool::True } else { TriBool::False });
                assert(v2.right == v1.left);
                assert(fact_left(q, x1, y1) == if v2.right { TriBool::True } else { TriBool::False });
            } else {
                assert(fact_left(q, x1, y1) == fact_left(p, x1, y1));
            }
            // right neighbour
            if x1 < p.len() - 1 && x1 + 1 == x2 && y1 == y2 {
                assert(fact_left(p, x2, y2) == if v1.right { TriBool::True } else { TriBool::False });
                assert(v2.left == v1.right);
                assert(fact_right(q, x1, y1) == if v2.left { TriBool::True } else { TriBool::False });
            } else {
                assert(fact_right(q, x1, y1) == fact_right(p, x1, y1));
            }
            // neighbour above
            if y1 > 0 && x1 == x2 && y1 - 1 == y2 {
                assert(fact_down(p, x2, y2) == if v1.up { TriBool::True } else { TriBool::False });
                assert(v2.down == v1.up);
                assert(fact_up(q, x1, y1) == if v2.down { TriBool::True } else { TriBool::False });
            } else {
                assert(fact_up(q, x1, y1) == fact_up(p, x1, y1));
            }
            // neighbour below
            if y1 < p[0].len() - 1 && x1 == x2 && y1 + 1 == y2 {
                assert(fact_up(p, x2, y2) == if v1.down { TriBool::True } else { TriBool::False });
                assert(v2.up == v1.down);
                assert(fact_down(q, x1, y1) == if v2.up { TriBool::True } else { TriBool::False });
            } else {
                assert(fact_down(q, x1, y1) == fact_down(p, x1, y1));
            }
        }
    }

    fn get_all_states() -> (r: Vec<PipeTile>) {
        let r = vec![
            PipeTile { up: false, down: false, left: false, right: false },
            PipeTile { up: true, down: false, left: false, right: false },
            PipeTile { up: false, down: true, left: false, right: false },
            PipeTile { up: true, down: true, left: false, right: false },
            PipeTile { up: false, down: false, left: true, right: false },
            PipeTile { up: true, down: false, left: true, right: false },
            PipeTile { up: false, down: true, left: true, right: false },
            PipeTile { up: true, down: true, left: true, right: false },
            PipeTile { up: false, down: false, left: false, right: true },
            PipeTile { up: true, down: false, left: false, right: true },
            PipeTile { up: false, down: true, left: false, right: true },
            PipeTile { up: true, down: true, left: false, right: true },
            PipeTile { up: false, down: false, left: true, right: true },
            PipeTile { up: true, down: false, left: true, right: true },
            PipeTile { up: false, down: true, left: true, right: true },
            PipeTile { up: true, down: true, left: true, right: true },
        ];
        proof {
            assert(r@ =~= pipe_all_states());
        }
        r
    }

    fn get_valid_states(grid: &Vec<Vec<Cell<PipeTile>>>, x: usize, y: usize) -> (r: Vec<PipeTile>) {
        let p = Ghost(proj(grid@));
        let left = scan_left(grid, x, y);
        let right = scan_right(grid, x, y);
        let up = scan_up(grid, x, y);
        let down = scan_down(grid, x, y);
        let all = Self::get_all_states();
        let mut r: Vec<PipeTile> = Vec::new();
        let mut i: usize = 0;
        while i < all.len()
            invariant
                all@ == pipe_all_states(),
                i <= all@.len(),
                left == fact_left(p@, x as int, y as int),
                right == fact_right(p@, x as int, y as int),
                up == fact_up(p@, x as int, y as int),
                down == fact_down(p@, x as int, y as int),
                r@ == pipe_filter(p@, x as int, y as int, i as int),
            decreases all@.len() - i,
        {
            let v = all[i];
            if dir_allows(left, v.left) && dir_allows(right, v.right) && dir_allows(up, v.up)
                && dir_allows(down, v.down) {
                r.push(v);
            }
            i = i + 1;
        }
        r
    }
}

/// Whether a definite fact lets a side with connection `connects` stand.
fn dir_allows(f: TriBool, connects: bool) -> (r: bool)
    ensures
        r == dir_ok(f, connects),
{
    match f {
        TriBool::True => connects,
        TriBool::False => !connects,
        TriBool::Undef => true,
    }
}

/// Reads what is known about the neighbour to the left of `(x, y)`.
fn scan_left(grid: &Vec<Vec<Cell<PipeTile>>>, x: usize, y: usize) -> (r: TriBool)
    requires
        grid@.len() > 0,
        grid@[0]@.len() > 0,
        forall|i: int| 0 <= i < grid@.len() ==> (#[trigger] grid@[i])@.len() == grid@[0]@.len(),
        x < grid@.len(),
        y < grid@[0]@.len(),
    ensures
        r == fact_left(proj(grid@), x as int, y as int),
{
    if x == 0 {
        TriBool::False
    } else {
        match &grid[x - 1][y] {
            Cell::Discovered(v) => if v.right { TriBool::True } else { TriBool::False },
            Cell::Undiscovered(_) => TriBool::Undef,
        }
    }
}

/// Reads what is known about the neighbour to the right of `(x, y)`.
fn scan_right(grid: &Vec<Vec<Cell<PipeTile>>>, x: usize, y: usize) -> (r: TriBool)
    requires
        grid@.len() > 0,
        grid@[0]@.len() > 0,
        forall|i: int| 0 <= i < grid@.len() ==> (#[trigger] grid@[i])@.len() == grid@[0]@.len(),
        x < grid@.len(),
        y < grid@[0]@.len(),
    ensures
        r == fact_right(proj(grid@), x as int, y as int),
{
    if x == grid.len() - 1 {
        TriBool::False
    } else {
        match &grid[x + 1][y] {
            Cell::Discovered(v) => if v.left { TriBool::True } else { TriBool::False },
            Cell::Undiscovered(_) => TriBool::Undef,
        }
    }
}

/// Reads what is known about the neighbour above `(x, y)`.
fn scan_up(grid: &Vec<Vec<Cell<PipeTile>>>, x: usize, y: usize) -> (r: TriBool)
    requires
        grid@.len() > 0,
        grid@[0]@.len() > 0,
        forall|i: int| 0 <= i < grid@.len() ==> (#[trigger] grid@[i])@.len() == grid@[0]@.len(),
        x < grid@.len(),
        y < grid@[0]@.len(),
    ensures
        r == fact_up(proj(grid@), x as int, y as int),
{
    if y == 0 {
        TriBool::False
    } else {
        match &grid[x][y - 1] {
            Cell::Discovered(v) => if v.down { TriBool::True } else { TriBool::False },
            Cell::Undiscovered(_) => TriBool::Undef,
        }
    }
}

/// Reads what is known about the neighbour below `(x, y)`.
fn scan_down(grid: &Vec<Vec<Cell<PipeTile>>>, x: usize, y: usize) -> (r: TriBool)
    requires
        grid@.len() > 0,
        grid@[0]@.len() > 0,
        forall|i: int| 0 <= i < grid@.len() ==> (#[trigger] grid@[i])@.len() == grid@[0]@.len(),
        x < grid@.len(),
        y < grid@[0]@.len(),
    ensures
        r == fact_down(proj(grid@), x as int, y as int),
{
    if y == grid[0].len() - 1 {
        TriBool::False
    } else {
        match &grid[x][y + 1] {
            Cell::Discovered(v) => if v.up { TriBool::True } else { TriBool::False },
            Cell::Undiscovered(_) => TriBool::Undef,
        }
    }
}

/// Facts only sharpen as a grid resolves: under the less determined
/// projection each fact is either undetermined or already what the more
/// determined one shows.
proof fn lemma_facts_refine(
    p1: Seq<Seq<Option<PipeTile>>>,
    p2: Seq<Seq<Option<PipeTile>>>,
    w: nat,
    h: nat,
    x: int,
    y: int,
)
    requires
        proj_wf(p1, w, h),
        proj_wf(p2, w, h),
        proj_refines(p1, p2, w, h),
        in_bounds(w, h, x, y),
    ensures
        fact_left(p1, x, y) == TriBool::Undef || fact_left(p1, x, y) == fact_left(p2, x, y),
        fact_right(p1, x, y) == TriBool::Undef || fact_right(p1, x, y) == fact_right(p2, x, y),
        fact_up(p1, x, y) == TriBool::Undef || fact_up(p1, x, y) == fact_up(p2, x, y),
        fact_down(p1, x, y) == TriBool::Undef || fact_down(p1, x, y) == fact_down(p2, x, y),
{
    if x > 0 && p1[x - 1][y] is Some {
        assert(p2[x - 1][y] == p1[x - 1][y]);
    }
    if x < w - 1 && p1[x + 1][y] is Some {
        assert(p2[x + 1][y] == p1[x + 1][y]);
    }
    if y > 0 && p1[x][y - 1] is Some {
        assert(p2[x][y - 1] == p1[x][y - 1]);
    }
    if y < h - 1 && p1[x][y + 1] is Some {
        assert(p2[x][y + 1] == p1[x][y + 1]);
    }
}

/// The pipe model never empties a cell: whatever is definitely known about
/// the four directions, the tile that connects exactly toward the
/// must-connect sides matches it.
pub proof fn lemma_pipe_never_empty(p: Seq<Seq<Option<PipeTile>>>, x: int, y: int)
    ensures
        <PipeTile as CellValue>::valid_spec(p, x, y).len() >= 1,
{
    let t = PipeTile {
        up: fact_up(p, x, y) == TriBool::True,
        down: fact_down(p, x, y) == TriBool::True,
        left: fact_left(p, x, y) == TriBool::True,
        right: fact_right(p, x, y) == TriBool::True,
    };
    assert(pipe_admits(p, x, y, t));
    let i = (if t.up { 1int } else { 0int }) + (if t.down { 2int } else { 0int }) + (if t.left {
        4int
    } else {
        0int
    }) + (if t.right { 8int } else { 0int });
    assert(pipe_all_states()[i] == t);
    lemma_pipe_filter_elems(p, x, y, 16, t);
    assert(pipe_filter(p, x, y, 16).contains(t));
}

/// Where every tile is admitted, filtering keeps the whole alphabet
/// prefix.
proof fn lemma_pipe_filter_all(p: Seq<Seq<Option<PipeTile>>>, x: int, y: int, n: int)
    requires
        0 <= n <= 16,
        forall|v: PipeTile| #[trigger] pipe_admits(p, x, y, v),
    ensures
        pipe_filter(p, x, y, n) == pipe_all_states().take(n),
    decreases n,
{
    if n > 0 {
        lemma_pipe_filter_all(p, x, y, n - 1);
        assert(pipe_all_states().take(n - 1).push(pipe_all_states()[n - 1]) =~= pipe_all_states()
            .take(n));
    } else {
        assert(pipe_all_states().take(0) =~= Seq::<PipeTile>::empty());
    }
}

/// On a freshly built grid, where nothing is resolved yet, an interior
/// cell keeps the whole sixteen-tile alphabet; boundary cells, like all
/// cells, keep at most sixteen candidates, so a boundary cell never has
/// more than an interior one.
pub proof fn lemma_blank_interior(w: nat, h: nat, x: int, y: int)
    requires
        0 < x < w - 1,
        0 < y < h - 1,
    ensures
        <PipeTile as CellValue>::valid_spec(crate::model::blank_proj::<PipeTile>(w, h), x, y)
            == pipe_all_states(),
{
    let p = crate::model::blank_proj::<PipeTile>(w, h);
    assert(fact_left(p, x, y) == TriBool::Undef);
    assert(fact_right(p, x, y) == TriBool::Undef);
    assert(fact_up(p, x, y) == TriBool::Undef);
    assert(fact_down(p, x, y) == TriBool::Undef);
    lemma_pipe_filter_all(p, x, y, 16);
    assert(pipe_all_states().take(16) =~= pipe_all_states());
}

/// On a freshly built one-by-one grid all four sides are boundaries, so
/// the initial propagation leaves exactly one candidate: the tile that
/// connects nowhere.
pub proof fn lemma_single_cell_blank()
    ensures
        <PipeTile as CellValue>::valid_spec(crate::model::blank_proj::<PipeTile>(1, 1), 0, 0)
            =~= seq![PipeTile { up: false, down: false, left: false, right: false }],
{
    let p = crate::model::blank_proj::<PipeTile>(1, 1);
    assert(fact_left(p, 0, 0) == TriBool::False);
    assert(fact_right(p, 0, 0) == TriBool::False);
    assert(fact_up(p, 0, 0) == TriBool::False);
    assert(fact_down(p, 0, 0) == TriBool::False);
    reveal_with_fuel(pipe_filter, 17);
    assert(pipe_filter(p, 0, 0, 16) =~= seq![
        PipeTile { up: false, down: false, left: false, right: false },
    ]);
}

/// On a freshly built two-by-one grid each cell may only connect toward
/// the other cell or not at all: the initial propagation leaves the left
/// cell the blank tile and the rightward one, and the right cell the blank
/// tile and the leftward one.
pub proof fn lemma_two_by_one_blank()
    ensures
        <PipeTile as CellValue>::valid_spec(crate::model::blank_proj::<PipeTile>(2, 1), 0, 0)
            =~= seq![
            PipeTile { up: false, down: false, left: false, right: false },
            PipeTile { up: false, down: false, left: false, right: true },
        ],
        <PipeTile as CellValue>::valid_spec(crate::model::blank_proj::<PipeTile>(2, 1), 1, 0)
            =~= seq![
            PipeTile { up: false, down: false, left: false, right: false },
            PipeTile { up: false, down: false, left: true, right: false },
        ],
{
    let p = crate::model::blank_proj::<PipeTile>(2, 1);
    assert(fact_left(p, 0, 0) == TriBool::False);
    assert(fact_right(p, 0, 0) == TriBool::Undef);
    assert(fact_up(p, 0, 0) == TriBool::False);
    assert(fact_down(p, 0, 0) == TriBool::False);
    assert(fact_left(p, 1, 0) == TriBool::Undef);
    assert(fact_right(p, 1, 0) == TriBool::False);
    assert(fact_up(p, 1, 0) == TriBool::False);
    assert(fact_down(p, 1, 0) == TriBool::False);
    reveal_with_fuel(pipe_filter, 17);
    assert(pipe_filter(p, 0, 0, 16) =~= seq![
        PipeTile { up: false, down: false, left: false, right: false },
        PipeTile { up: false, down: false, left: false, right: true },
    ]);
    assert(pipe_filter(p, 1, 0, 16) =~= seq![
        PipeTile { up: false, down: false, left: false, right: false },
        PipeTile { up: false, down: false, left: true, right: false },
    ]);
}

/// Adjacency consistency: wherever every resolved cell of a projection is
/// admissible under the pipe model — the solver engine maintains exactly
/// that in its invariant, so in particular on every fully resolved grid it
/// produces — any two adjacent resolved cells agree on the shared side:
/// each connects toward the other exactly when the other connects back.
pub proof fn lemma_grid_consistent(p: Seq<Seq<Option<PipeTile>>>, w: nat, h: nat)
    requires
        proj_wf(p, w, h),
        crate::model::proj_consistent::<PipeTile>(p, w, h),
    ensures
        forall|x: int, y: int|
            in_bounds(w, h, x, y) && in_bounds(w, h, x + 1, y) && (#[trigger] p[x][y]) is Some
                && (#[trigger] p[x + 1][y]) is Some
                ==> p[x][y]->Some_0.right == p[x + 1][y]->Some_0.left,
        forall|x: int, y: int|
            in_bounds(w, h, x, y) && in_bounds(w, h, x, y + 1) && (#[trigger] p[x][y]) is Some
                && (#[trigger] p[x][y + 1]) is Some
                ==> p[x][y]->Some_0.down == p[x][y + 1]->Some_0.up,
{
    assert forall|x: int, y: int|
        in_bounds(w, h, x, y) && in_bounds(w, h, x + 1, y) && (#[trigger] p[x][y]) is Some
            && (#[trigger] p[x + 1][y]) is Some
        implies p[x][y]->Some_0.right == p[x + 1][y]->Some_0.left by {
        let a = p[x][y]->Some_0;
        let b = p[x + 1][y]->Some_0;
        assert(pipe_admits(p, x + 1, y, b));
        assert(fact_left(p, x + 1, y) == if a.right { TriBool::True } else { TriBool::False });
    }
    assert forall|x: int, y: int|
        in_bounds(w, h, x, y) && in_bounds(w, h, x, y + 1) && (#[trigger] p[x][y]) is Some
            && (#[trigger] p[x][y + 1]) is Some
        implies p[x][y]->Some_0.down == p[x][y + 1]->Some_0.up by {
        let a = p[x][y]->Some_0;
        let b = p[x][y + 1]->Some_0;
        assert(pipe_admits(p, x, y + 1, b));
        assert(fact_up(p, x, y + 1) == if a.down { TriBool::True } else { TriBool::False });
    }
}

} // verus!
