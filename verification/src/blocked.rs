//! A constraint model that admits nothing anywhere: its single-value
//! alphabet survives no propagation pass, so every solve ends in a
//! contradiction at once. It exercises the engine's contradiction
//! handling, which the pipe-tile model never triggers.

use crate::cell::Cell;
use crate::model::CellValue;
use vstd::prelude::*;

verus! {

/// The one value of the blocked alphabet.
#[derive(Clone, Copy, PartialEq, Eq, Structural, Debug)]
pub struct Blocked;

impl CellValue for Blocked {
    open spec fn all_states_spec() -> Seq<Blocked> {
        seq![Blocked]
    }

    open spec fn admits(p: Seq<Seq<Option<Blocked>>>, x: int, y: int, v: Blocked) -> bool {
        false
    }

    open spec fn valid_spec(p: Seq<Seq<Option<Blocked>>>, x: int, y: int) -> Seq<Blocked> {
        Seq::empty()
    }

    proof fn lemma_all_states() {
    }

    proof fn lemma_valid_chars(p: Seq<Seq<Option<Blocked>>>, w: nat, h: nat, x: int, y: int) {
    }

    proof fn lemma_admits_monotone(
        p1: Seq<Seq<Option<Blocked>>>,
        p2: Seq<Seq<Option<Blocked>>>,
        w: nat,
        h: nat,
        x: int,
        y: int,
        v: Blocked,
    ) {
    }

    proof fn lemma_admits_update(
        p: Seq<Seq<Option<Blocked>>>,
        w: nat,
        h: nat,
        x2: int,
        y2: int,
        v2: Blocked,
        x1: int,
        y1: int,
        v1: Blocked,
    ) {
    }

    fn get_all_states() -> (r: Vec<Blocked>) {
        let r = vec![Blocked];
        proof {
            assert(r@ =~= seq![Blocked]);
        }
        r
    }

    fn get_valid_states(grid: &Vec<Vec<Cell<Blocked>>>, x: usize, y: usize) -> (r: Vec<Blocked>) {
        let r: Vec<Blocked> = Vec::new();
        proof {
            assert(r@ =~= Seq::<Blocked>::empty());
        }
        r
    }
}

} // verus!
