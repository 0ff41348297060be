//! Implementation of the min max algorithm.
use vstd::prelude::*;

use rayon::iter::IntoParallelRefIterator;
use rayon::iter::ParallelIterator;

verus! {

use crate::game::{
    Game,
    legal_moves,
    legal_vec,
    lemma_fold_bounds,
    lemma_fold_move,
    mm_fold,
    mm_result,
    mm_value,
    play_all,
};
use crate::strategy::Strategy;

/// Min-Max algorithm with a given recursion depth.
pub struct MinMax(pub u8);

/// The minmax value of one state, as a plain number.
fn min_max_point<G: Game + Sync>(player: bool, state: &G, depth: u8) -> (r: i8)
    ensures
        r as int == mm_value(player, *state, depth as nat),
{
    match min_max_rec(player, state, depth) {
        Some(p) => p.0,
        None => {
            proof {
                assert(false);
            }
            0
        },
    }
}

/// Relies on rayon: a parallel map over a slice applies the closure to every
/// element and collects the results in the elements' order; the closure only
/// calls the verified `min_max_point`.
#[verifier::external_body]
fn par_min_max<G: Game + Sync>(player: bool, children: &Vec<G>, depth: u8) -> (r: Vec<i8>)
    ensures
        r@.len() == children@.len(),
        forall|i: int|
            0 <= i < children@.len() ==> #[trigger] r@[i] as int == mm_value(
                player,
                children@[i],
                depth as nat,
            ),
{
    children.par_iter().map(|c| min_max_point(player, c, depth)).collect()
}

/// Exhaustive search to the given depth, oriented for `player`: reports the
/// minmax value and the chosen move; above depth one the children are
/// evaluated concurrently, which leaves the reported value and choice
/// unchanged.
pub fn min_max_rec<G: Game + Sync>(player: bool, state: &G, depth: u8) -> (r: Option<
    (i8, Option<G::Move>),
>)
    ensures
        r is Some,
        r.unwrap().0 as int == mm_result(player, *state, depth as nat).0,
        r.unwrap().1 == mm_result(player, *state, depth as nat).1,
    decreases depth,
{
    let legal = legal_vec(state);
    if depth == 0 || legal.len() == 0 {
        proof {
            G::heuristic_in_range(*state);
        }
        let v = state.value();
        let lv = if state.current_player() == player {
            v
        } else {
            -v
        };
        return Some((lv, None));
    }
    let minimize = state.current_player() == player;
    let vals: Vec<i8>;
    if depth > 1 {
        let children = play_all(state, &legal);
        vals = par_min_max(player, &children, depth - 1);
    } else {
        let mut vs: Vec<i8> = Vec::new();
        let mut j: usize = 0;
        while j < legal.len()
            invariant
                j <= legal@.len(),
                legal@ == legal_moves(*state),
                depth >= 1,
                vs@.len() == j,
                forall|k: int|
                    0 <= k < j ==> #[trigger] vs@[k] as int == mm_value(
                        player,
                        state.next(legal@[k]),
                        (depth - 1) as nat,
                    ),
            decreases legal@.len() - j,
        {
            let child = state.play(&legal[j]);
            let rr = min_max_rec(player, &child, depth - 1);
            match rr {
                Some(p) => vs.push(p.0),
                None => {
                    proof {
                        assert(false);
                    }
                    vs.push(0);
                },
            }
            j += 1;
        }
        vals = vs;
    }
    let ghost d1 = (depth - 1) as nat;
    let ghost seed: int = if minimize {
        127
    } else {
        -128
    };
    let mut best_v: i8 = if minimize {
        127i8
    } else {
        -128i8
    };
    let mut best_m: Option<G::Move> = None;
    let mut i: usize = 0;
    proof {
        assert(legal@.skip(0) =~= legal@);
    }
    while i < legal.len()
        invariant
            i <= legal@.len(),
            legal@ == legal_moves(*state),
            minimize == (state.turn() == player),
            vals@.len() == legal@.len(),
            forall|k: int|
                0 <= k < legal@.len() ==> #[trigger] vals@[k] as int == mm_value(
                    player,
                    state.next(legal@[k]),
                    d1,
                ),
            seed == if minimize {
                127int
            } else {
                -128int
            },
            mm_fold(player, *state, d1, legal@.skip(i as int), minimize, best_v as int, best_m)
                == mm_fold(player, *state, d1, legal@, minimize, seed, None),
        decreases legal@.len() - i,
    {
        proof {
            assert(legal@.skip(i as int).drop_first() =~= legal@.skip(i as int + 1));
            assert(legal@.skip(i as int)[0] == legal@[i as int]);
        }
        let cv = vals[i];
        let take = if minimize {
            cv < best_v
        } else {
            cv >= best_v
        };
        if take {
            best_v = cv;
            best_m = Some(legal[i]);
        }
        i += 1;
    }
    proof {
        assert(legal@.skip(legal@.len() as int) =~= Seq::<G::Move>::empty());
    }
    Some((best_v, best_m))
}

impl<G: Game + Sync> Strategy<G> for MinMax {
    fn compute_next_move(&mut self, state: &G) -> (r: Option<G::Move>)
        ensures
            r == mm_result(state.turn(), *state, old(self).0 as nat).1,
            r matches Some(m) ==> legal_moves(*state).contains(m),
            r is Some <==> (old(self).0 > 0 && legal_moves(*state).len() > 0),
            *final(self) == *old(self),
    {
        let player = state.current_player();
        let r = if let Some((_, mov)) = min_max_rec(player, state, self.0) {
            mov
        } else {
            None
        };
        proof {
            let d = self.0 as nat;
            if d > 0 && legal_moves(*state).len() > 0 {
                lemma_fold_move(player, *state, (d - 1) as nat, legal_moves(*state), true, 127, None);
                lemma_fold_bounds(
                    player,
                    *state,
                    (d - 1) as nat,
                    legal_moves(*state),
                    true,
                    127,
                    None,
                );
            }
        }
        r
    }
}

/// Anytime min max algorithm.
/// Runs unbounded iterative deepening: for each depth up to the fixed
/// ceiling it computes the move and publishes it unconditionally, the
/// terminal answer included; the returned log holds every published answer
/// in order. A supervising process reads the last fully published answer
/// and stops the worker whenever it pleases.
pub fn min_max_anytime<G: Game + Sync>(state: &G) -> (log: Vec<Option<G::Move>>)
    ensures
        log@.len() == 99,
        forall|d: int|
            0 <= d < 99 ==> #[trigger] log@[d] == mm_result(state.turn(), *state, (d + 1) as nat).1,
{
    let mut log: Vec<Option<G::Move>> = Vec::new();
    let mut depth: u8 = 1;
    while depth < 100
        invariant
            1 <= depth <= 100,
            log@.len() == depth - 1,
            forall|d: int|
                0 <= d < depth - 1 ==> #[trigger] log@[d] == mm_result(
                    state.turn(),
                    *state,
                    (d + 1) as nat,
                ).1,
        decreases 100 - depth,
    {
        let mut strategy = MinMax(depth);
        log.push(strategy.compute_next_move(state));
        depth += 1;
    }
    log
}

} // verus!
