//! Alpha - Beta algorithm, fork-join parallel above a depth cutover.
use vstd::prelude::*;

use rayon::iter::IntoParallelRefIterator;
use rayon::iter::ParallelIterator;

verus! {

use crate::game::{
    Game,
    kids_opt,
    legal_moves,
    legal_vec,
    lemma_kids_bounds,
    lemma_mm_bounds,
    lemma_mm_is_kids,
    mm_value,
    play_all,
};
use crate::positions::{spec_max, spec_min};
use crate::strategy::Strategy;
use crate::strategy::alphabeta::{ab_post, alpha_beta_rec};

/// The window-bounded value of one state, as a plain number.
fn ab_par_point<G: Game + Sync>(player: bool, state: &G, depth: u8, alpha: i8, beta: i8) -> (r: i8)
    requires
        alpha <= beta,
    ensures
        spec_min(beta as int, mm_value(player, *state, depth as nat)) <= r as int,
        r as int <= spec_max(alpha as int, mm_value(player, *state, depth as nat)),
{
    match alpha_beta_par_rec(player, state, depth, alpha, beta) {
        Some(p) => p.0,
        None => {
            proof {
                assert(false);
            }
            0
        },
    }
}

/// Relies on rayon: a parallel map over a slice applies the closure to every
/// element and collects the results in the elements' order; the closure only
/// calls the verified `ab_par_point`, so every element of the result is a
/// window-bounded value of the matching child.
#[verifier::external_body]
fn par_alpha_beta<G: Game + Sync>(
    player: bool,
    children: &Vec<G>,
    depth: u8,
    alpha: i8,
    beta: i8,
) -> (r: Vec<i8>)
    requires
        alpha <= beta,
    ensures
        r@.len() == children@.len(),
        forall|i: int|
            0 <= i < children@.len() ==> (spec_min(
                beta as int,
                mm_value(player, children@[i], depth as nat),
            ) <= #[trigger] r@[i] as int && r@[i] as int <= spec_max(
                alpha as int,
                mm_value(player, children@[i], depth as nat),
            )),
{
    children.par_iter().map(|c| ab_par_point(player, c, depth, alpha, beta)).collect()
}

/// Fixed-depth search with the same pruning semantics as the sequential
/// alpha-beta, but above the depth cutover the sibling moves are evaluated
/// through a fork-join map, every worker under the same initial window:
/// workers do not see each other's tightened bounds, which deliberately
/// prunes less aggressively than the sequential search, yet the reported
/// value obeys the same window contract, so under the full window it equals
/// the sequential value. Below the cutover the search falls back to the
/// strictly sequential alpha-beta with shared, tightening bounds.
pub fn alpha_beta_par_rec<G: Game + Sync>(
    player: bool,
    state: &G,
    depth: u8,
    alpha: i8,
    beta: i8,
) -> (r: Option<(i8, Option<G::Move>)>)
    requires
        alpha <= beta,
    ensures
        r is Some,
        ab_post(
            player,
            *state,
            depth as nat,
            alpha as int,
            beta as int,
            r.unwrap().0 as int,
            r.unwrap().1,
        ),
    decreases depth,
{
    let legal = legal_vec(state);
    if depth == 0 || legal.len() == 0 {
        proof {
            G::heuristic_in_range(*state);
        }
        let v = state.value();
        let lv = if state.current_player() == player {
            v
        } else {
            -v
        };
        return Some((lv, None));
    }
    if depth == 1 {
        return alpha_beta_rec(player, state, depth, alpha, beta);
    }
    let minimize = state.current_player() == player;
    let ghost d1 = (depth - 1) as nat;
    let ghost ms = legal_moves(*state);
    let ghost t = mm_value(player, *state, depth as nat);
    proof {
        lemma_mm_is_kids(player, *state, depth as nat);
        lemma_kids_bounds(player, *state, d1, ms, minimize);
        assert(ms.take(0) =~= Seq::<G::Move>::empty());
    }
    let children = play_all(state, &legal);
    let vals = par_alpha_beta(player, &children, depth - 1, alpha, beta);
    if minimize {
        let mut v: i8 = 127;
        let mut bm: Option<G::Move> = None;
        let mut i: usize = 0;
        while i < legal.len()
            invariant
                i <= legal@.len(),
                legal@ == ms,
                ms == legal_moves(*state),
                ms.len() > 0,
                state.turn() == player,
                depth >= 2,
                d1 == (depth - 1) as nat,
                t == mm_value(player, *state, depth as nat),
                t == kids_opt(player, *state, d1, ms, true),
                -126 <= t <= 126,
                alpha <= beta,
                vals@.len() == ms.len(),
                forall|k: int|
                    0 <= k < ms.len() ==> (spec_min(beta as int, mm_value(player, state.next(ms[k]), d1))
                        <= #[trigger] vals@[k] as int && vals@[k] as int <= spec_max(
                        alpha as int,
                        mm_value(player, state.next(ms[k]), d1),
                    )),
                v as int >= spec_min(
                    beta as int,
                    kids_opt(player, *state, d1, ms.take(i as int), true),
                ),
                v as int <= spec_max(
                    alpha as int,
                    kids_opt(player, *state, d1, ms.take(i as int), true),
                ),
                i == 0 ==> (v == 127 && bm is None),
                i == legal@.len() ==> ms.take(i as int) == ms,
                bm matches Some(m) ==> ms.contains(m),
                (alpha == -128 && beta == 127) ==> ((i == 0 && v == 127 && bm is None) || (bm
                    matches Some(m) && ms.contains(m) && mm_value(player, state.next(m), d1)
                    == v as int && v as int == kids_opt(player, *state, d1, ms.take(i as int), true)
                    && -126 <= v <= 126)),
            decreases legal@.len() - i,
        {
            proof {
                lemma_mm_bounds(player, state.next(ms[i as int]), d1);
                assert(ms.take(i as int + 1).drop_last() =~= ms.take(i as int));
                assert(ms.take(i as int + 1).last() == ms[i as int]);
                assert(ms.contains(ms[i as int]));
            }
            let cv = vals[i];
            if cv < v {
                v = cv;
                bm = Some(legal[i]);
            }
            i += 1;
            proof {
                if i == legal@.len() {
                    assert(ms.take(i as int) =~= ms);
                }
            }
        }
        Some((v, bm))
    } else {
        let mut v: i8 = -128;
        let mut bm: Option<G::Move> = None;
        let mut i: usize = 0;
        while i < legal.len()
            invariant
                i <= legal@.len(),
                legal@ == ms,
                ms == legal_moves(*state),
                ms.len() > 0,
                state.turn() != player,
                depth >= 2,
                d1 == (depth - 1) as nat,
                t == mm_value(player, *state, depth as nat),
                t == kids_opt(player, *state, d1, ms, false),
                -126 <= t <= 126,
                alpha <= beta,
                vals@.len() == ms.len(),
                forall|k: int|
                    0 <= k < ms.len() ==> (spec_min(beta as int, mm_value(player, state.next(ms[k]), d1))
                        <= #[trigger] vals@[k] as int && vals@[k] as int <= spec_max(
                        alpha as int,
                        mm_value(player, state.next(ms[k]), d1),
                    )),
                v as int <= spec_max(
                    alpha as int,
                    kids_opt(player, *state, d1, ms.take(i as int), false),
                ),
                v as int >= spec_min(
                    beta as int,
                    kids_opt(player, *state, d1, ms.take(i as int), false),
                ),
                i == legal@.len() ==> ms.take(i as int) == ms,
                bm matches Some(m) ==> ms.contains(m),
            decreases legal@.len() - i,
        {
            proof {
                lemma_mm_bounds(player, state.next(ms[i as int]), d1);
                assert(ms.take(i as int + 1).drop_last() =~= ms.take(i as int));
                assert(ms.take(i as int + 1).last() == ms[i as int]);
                assert(ms.contains(ms[i as int]));
            }
            let cv = vals[i];
            if cv > v {
                v = cv;
                bm = Some(legal[i]);
            }
            i += 1;
            proof {
                if i == legal@.len() {
                    assert(ms.take(i as int) =~= ms);
                }
            }
        }
        Some((v, bm))
    }
}

/// Alpha - Beta algorithm with given maximum number of recursions.
pub struct AlphaBetaPar(pub u8);

impl<G: Game + Sync> Strategy<G> for AlphaBetaPar {
    fn compute_next_move(&mut self, state: &G) -> (r: Option<G::Move>)
        ensures
            r matches Some(m) ==> legal_moves(*state).contains(m),
            (old(self).0 > 0 && legal_moves(*state).len() > 0) ==> (r matches Some(m) && mm_value(
                state.turn(),
                state.next(m),
                (old(self).0 - 1) as nat,
            ) == mm_value(state.turn(), *state, old(self).0 as nat)),
            (old(self).0 == 0 || legal_moves(*state).len() == 0) ==> r is None,
            *final(self) == *old(self),
    {
        let player = state.current_player();
        match alpha_beta_par_rec(player, state, self.0, i8::MIN, i8::MAX) {
            Some(p) => p.1,
            None => {
                proof {
                    assert(false);
                }
                None
            },
        }
    }
}

/// Anytime parallel alpha beta algorithm.
/// Runs unbounded iterative deepening: for each depth up to the fixed
/// ceiling it computes the move and publishes it unconditionally, the
/// terminal answer included; the returned log holds every published answer
/// in order. A supervising process reads the last fully published answer
/// and stops the worker whenever it pleases.
pub fn alpha_beta_par_anytime<G: Game + Sync>(state: &G) -> (log: Vec<Option<G::Move>>)
    ensures
        log@.len() == 98,
        forall|d: int|
            0 <= d < 98 ==> (#[trigger] log@[d] matches Some(m) ==> (legal_moves(
                *state,
            ).contains(m) && mm_value(state.turn(), state.next(m), (d + 1) as nat) == mm_value(
                state.turn(),
                *state,
                (d + 2) as nat,
            ))),
        legal_moves(*state).len() == 0 ==> (forall|d: int| 0 <= d < 98 ==> log@[d] is None),
        legal_moves(*state).len() > 0 ==> (forall|d: int| 0 <= d < 98 ==> log@[d] is Some),
{
    let mut log: Vec<Option<G::Move>> = Vec::new();
    let mut depth: u8 = 2;
    while depth < 100
        invariant
            2 <= depth <= 100,
            log@.len() == depth - 2,
            forall|d: int|
                0 <= d < depth - 2 ==> (#[trigger] log@[d] matches Some(m) ==> (legal_moves(
                    *state,
                ).contains(m) && mm_value(state.turn(), state.next(m), (d + 1) as nat) == mm_value(
                    state.turn(),
                    *state,
                    (d + 2) as nat,
                ))),
            legal_moves(*state).len() == 0 ==> (forall|d: int|
                0 <= d < depth - 2 ==> log@[d] is None),
            legal_moves(*state).len() > 0 ==> (forall|d: int|
                0 <= d < depth - 2 ==> log@[d] is Some),
        decreases 100 - depth,
    {
        let mut strategy = AlphaBetaPar(depth);
        let chosen_movement = strategy.compute_next_move(state);
        log.push(chosen_movement);
        depth += 1;
    }
    log
}

} // verus!
