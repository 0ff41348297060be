//! Dumb greedy algorithm.
use vstd::prelude::*;

verus! {

use crate::game::{Game, legal_moves, legal_vec};
use crate::strategy::Strategy;

/// Dumb algorithm.
/// Amongst all possible movements return the one which yields the
/// configuration with the best immediate value.
pub struct Greedy();

/// One pass of the greedy selection over a move list: carries the smallest
/// mover-oriented key seen so far — the negated heuristic of the reached
/// state — and the first move that reached it.
pub open spec fn greedy_fold<G: Game>(
    s: G,
    ms: Seq<G::Move>,
    acc_k: int,
    acc_m: Option<G::Move>,
) -> (int, Option<G::Move>)
    decreases ms.len(),
{
    if ms.len() == 0 {
        (acc_k, acc_m)
    } else {
        let k = -s.next(ms[0]).heuristic();
        if k < acc_k {
            greedy_fold(s, ms.drop_first(), k, Some(ms[0]))
        } else {
            greedy_fold(s, ms.drop_first(), acc_k, acc_m)
        }
    }
}

/// The move greedy picks: the first legal move minimizing the negated
/// heuristic of the state it reaches, or nothing without a legal move.
pub open spec fn greedy_choice<G: Game>(s: G) -> Option<G::Move> {
    greedy_fold(s, legal_moves(s), 127, None).1
}

/// On a state with exactly one legal move, greedy returns that move.
pub proof fn lemma_greedy_singleton<G: Game>(s: G)
    requires
        legal_moves(s).len() == 1,
    ensures
        greedy_choice(s) == Some(legal_moves(s)[0]),
{
    let ms = legal_moves(s);
    G::heuristic_in_range(s.next(ms[0]));
    let k = -s.next(ms[0]).heuristic();
    assert(ms.drop_first().len() == 0);
    assert(greedy_fold(s, ms, 127, None) == greedy_fold(s, ms.drop_first(), k, Some(ms[0])));
    assert(greedy_fold(s, ms.drop_first(), k, Some(ms[0])) == (k, Some(ms[0])));
}

impl<G: Game> Strategy<G> for Greedy {
    fn compute_next_move(&mut self, state: &G) -> (r: Option<G::Move>)
        ensures
            r == greedy_choice(*state),
            r matches Some(m) ==> legal_moves(*state).contains(m),
            r is Some <==> legal_moves(*state).len() > 0,
            *final(self) == *old(self),
    {
        let legal = legal_vec(state);
        let mut best_k: i8 = 127;
        let mut best_m: Option<G::Move> = None;
        let mut i: usize = 0;
        proof {
            assert(legal@.skip(0) =~= legal@);
        }
        while i < legal.len()
            invariant
                i <= legal@.len(),
                legal@ == legal_moves(*state),
                -126 <= best_k <= 127,
                i == 0 ==> (best_k == 127 && best_m is None),
                i > 0 ==> best_m is Some,
                best_m matches Some(m) ==> legal_moves(*state).contains(m),
                greedy_fold(*state, legal@.skip(i as int), best_k as int, best_m) == greedy_fold(
                    *state,
                    legal@,
                    127,
                    None,
                ),
            decreases legal@.len() - i,
        {
            let m = legal[i];
            let child = state.play(&m);
            let v = child.value();
            proof {
                G::heuristic_in_range(state.next(legal@[i as int]));
                assert(legal@.skip(i as int).drop_first() =~= legal@.skip(i as int + 1));
                assert(legal@.skip(i as int)[0] == legal@[i as int]);
                assert(legal@.contains(legal@[i as int]));
            }
            let k = -v;
            if k < best_k {
                best_k = k;
                best_m = Some(m);
            }
            i += 1;
        }
        proof {
            assert(legal@.skip(legal@.len() as int) =~= Seq::<G::Move>::empty());
        }
        best_m
    }
}

} // verus!
