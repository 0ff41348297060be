//! Alpha - Beta algorithm.
use vstd::prelude::*;

verus! {

use crate::game::{
    Game,
    kids_opt,
    legal_moves,
    legal_vec,
    lemma_kids_bounds,
    lemma_kids_prefix,
    lemma_mm_bounds,
    lemma_mm_is_kids,
    mm_value,
};
use crate::positions::{spec_max, spec_min};
use crate::strategy::Strategy;

/// What an alpha-beta search reports for a window `(alpha, beta)` about a
/// state whose minmax value is `t`: a value equal to `t` whenever `t` lies
/// inside the window, and otherwise pinned to the side of the crossed
/// bound; at a leaf the exact oriented heuristic and no move; any reported
/// move legal; and under the full window at a minimizing node the exact
/// value together with a legal move achieving it.
pub open spec fn ab_post<G: Game>(
    player: bool,
    s: G,
    depth: nat,
    alpha: int,
    beta: int,
    v: int,
    mv: Option<G::Move>,
) -> bool {
    let t = mm_value(player, s, depth);
    &&& spec_min(beta, t) <= v
    &&& v <= spec_max(alpha, t)
    &&& ((depth == 0 || legal_moves(s).len() == 0) ==> (v == t && mv is None))
    &&& (mv matches Some(m) ==> legal_moves(s).contains(m))
    &&& ((alpha == -128 && beta == 127 && depth > 0 && legal_moves(s).len() > 0 && s.turn()
        == player) ==> (v == t && (mv matches Some(m) && mm_value(player, s.next(m), (depth - 1) as nat)
        == t)))
}

/// Under the full window every search that honours the window contract —
/// the sequential alpha-beta and the parallel one alike — reports exactly
/// the minmax value: pruning changes the nodes visited, never the computed
/// optimum.
pub proof fn lemma_full_window_exact<G: Game>(
    player: bool,
    s: G,
    depth: nat,
    v: int,
    mv: Option<G::Move>,
)
    requires
        ab_post(player, s, depth, -128, 127, v, mv),
    ensures
        v == mm_value(player, s, depth),
{
    lemma_mm_bounds(player, s, depth);
}

/// Fixed-depth search with alpha-beta pruning, oriented for `player`: the
/// reported value is the minmax value as far as the window can tell, and
/// under the full window the reported move is minmax-optimal. Pruning
/// changes the nodes visited, never the reported value.
pub fn alpha_beta_rec<G: Game>(player: bool, state: &G, depth: u8, alpha: i8, beta: i8) -> (r:
    Option<(i8, Option<G::Move>)>)
    requires
        alpha <= beta,
    ensures
        r is Some,
        ab_post(
            player,
            *state,
            depth as nat,
            alpha as int,
            beta as int,
            r.unwrap().0 as int,
            r.unwrap().1,
        ),
    decreases depth,
{
    let legal = legal_vec(state);
    if depth == 0 || legal.len() == 0 {
        proof {
            G::heuristic_in_range(*state);
        }
        let v = state.value();
        let lv = if state.current_player() == player {
            v
        } else {
            -v
        };
        return Some((lv, None));
    }
    let minimize = state.current_player() == player;
    let ghost d1 = (depth - 1) as nat;
    let ghost ms = legal_moves(*state);
    let ghost t = mm_value(player, *state, depth as nat);
    proof {
        lemma_mm_is_kids(player, *state, depth as nat);
        lemma_kids_bounds(player, *state, d1, ms, minimize);
        assert(ms.take(0) =~= Seq::<G::Move>::empty());
    }
    if minimize {
        let mut v: i8 = 127;
        let mut bm: Option<G::Move> = None;
        let mut b: i8 = beta;
        let mut i: usize = 0;
        while i < legal.len()
            invariant_except_break
                i <= legal@.len(),
                legal@ == ms,
                ms == legal_moves(*state),
                ms.len() > 0,
                state.turn() == player,
                depth >= 1,
                d1 == (depth - 1) as nat,
                t == mm_value(player, *state, depth as nat),
                t == kids_opt(player, *state, d1, ms, true),
                -126 <= t <= 126,
                alpha <= beta,
                alpha <= v,
                b as int == spec_min(beta as int, v as int),
                v as int >= spec_min(
                    beta as int,
                    kids_opt(player, *state, d1, ms.take(i as int), true),
                ),
                v as int <= spec_max(
                    alpha as int,
                    kids_opt(player, *state, d1, ms.take(i as int), true),
                ),
                i == legal@.len() ==> ms.take(i as int) == ms,
                bm matches Some(m) ==> ms.contains(m),
                (alpha == -128 && beta == 127) ==> ((i == 0 && v == 127 && bm is None) || (bm
                    matches Some(m) && ms.contains(m) && mm_value(player, state.next(m), d1)
                    == v as int && v as int == kids_opt(player, *state, d1, ms.take(i as int), true)
                    && -126 <= v <= 126)),
            ensures
                ab_post(
                    player,
                    *state,
                    depth as nat,
                    alpha as int,
                    beta as int,
                    v as int,
                    bm,
                ),
            decreases legal@.len() - i,
        {
            let m = legal[i];
            let child = state.play(&m);
            let rr = alpha_beta_rec(player, &child, depth - 1, alpha, b);
            let rv = match rr {
                Some(p) => p.0,
                None => {
                    proof {
                        assert(false);
                    }
                    0
                },
            };
            let ghost ti = mm_value(player, state.next(ms[i as int]), d1);
            proof {
                lemma_mm_bounds(player, state.next(ms[i as int]), d1);
                assert(ms.take(i as int + 1).drop_last() =~= ms.take(i as int));
                assert(ms.take(i as int + 1).last() == ms[i as int]);
                assert(ms.contains(ms[i as int]));
                assert(spec_min(b as int, ti) <= rv as int <= spec_max(alpha as int, ti));
            }
            let new_v = if rv < v {
                rv
            } else {
                v
            };
            if new_v < alpha {
                v = new_v;
                bm = Some(m);
                proof {
                    lemma_kids_prefix(player, *state, d1, ms, true, i as int + 1);
                }
                break ;
            }
            if new_v < b {
                b = new_v;
                bm = Some(m);
            }
            v = new_v;
            i += 1;
            proof {
                if i == legal@.len() {
                    assert(ms.take(i as int) =~= ms);
                }
            }
        }
        Some((v, bm))
    } else {
        let mut v: i8 = -128;
        let mut bm: Option<G::Move> = None;
        let mut a: i8 = alpha;
        let mut i: usize = 0;
        while i < legal.len()
            invariant_except_break
                i <= legal@.len(),
                legal@ == ms,
                ms == legal_moves(*state),
                ms.len() > 0,
                state.turn() != player,
                depth >= 1,
                d1 == (depth - 1) as nat,
                t == mm_value(player, *state, depth as nat),
                t == kids_opt(player, *state, d1, ms, false),
                -126 <= t <= 126,
                alpha <= beta,
                v <= beta,
                a as int == spec_max(alpha as int, v as int),
                v as int <= spec_max(
                    alpha as int,
                    kids_opt(player, *state, d1, ms.take(i as int), false),
                ),
                v as int >= spec_min(
                    beta as int,
                    kids_opt(player, *state, d1, ms.take(i as int), false),
                ),
                i == legal@.len() ==> ms.take(i as int) == ms,
                bm matches Some(m) ==> ms.contains(m),
            ensures
                ab_post(
                    player,
                    *state,
                    depth as nat,
                    alpha as int,
                    beta as int,
                    v as int,
                    bm,
                ),
            decreases legal@.len() - i,
        {
            let m = legal[i];
            let child = state.play(&m);
            let rr = alpha_beta_rec(player, &child, depth - 1, a, beta);
            let rv = match rr {
                Some(p) => p.0,
                None => {
                    proof {
                        assert(false);
                    }
                    0
                },
            };
            let ghost ti = mm_value(player, state.next(ms[i as int]), d1);
            proof {
                lemma_mm_bounds(player, state.next(ms[i as int]), d1);
                assert(ms.take(i as int + 1).drop_last() =~= ms.take(i as int));
                assert(ms.take(i as int + 1).last() == ms[i as int]);
                assert(ms.contains(ms[i as int]));
                assert(spec_min(beta as int, ti) <= rv as int <= spec_max(a as int, ti));
            }
            let new_v = if rv > v {
                rv
            } else {
                v
            };
            if new_v > beta {
                v = new_v;
                bm = Some(m);
                proof {
                    lemma_kids_prefix(player, *state, d1, ms, false, i as int + 1);
                }
                break ;
            }
            if new_v > a {
                a = new_v;
                bm = Some(m);
            }
            v = new_v;
            i += 1;
            proof {
                if i == legal@.len() {
                    assert(ms.take(i as int) =~= ms);
                }
            }
        }
        Some((v, bm))
    }
}

/// Alpha - Beta algorithm with given maximum number of recursions.
pub struct AlphaBeta(pub u8);

impl<G: Game> Strategy<G> for AlphaBeta {
    fn compute_next_move(&mut self, state: &G) -> (r: Option<G::Move>)
        ensures
            r matches Some(m) ==> legal_moves(*state).contains(m),
            (old(self).0 > 0 && legal_moves(*state).len() > 0) ==> (r matches Some(m) && mm_value(
                state.turn(),
                state.next(m),
                (old(self).0 - 1) as nat,
            ) == mm_value(state.turn(), *state, old(self).0 as nat)),
            (old(self).0 == 0 || legal_moves(*state).len() == 0) ==> r is None,
            *final(self) == *old(self),
    {
        let player = state.current_player();
        match alpha_beta_rec(player, state, self.0, i8::MIN, i8::MAX) {
            Some(p) => p.1,
            None => {
                proof {
                    assert(false);
                }
                None
            },
        }
    }
}

/// Anytime alpha beta algorithm.
/// Runs unbounded iterative deepening: for each depth up to the fixed
/// ceiling it computes the move and publishes it unconditionally, the
/// terminal answer included; the returned log holds every published answer
/// in order. A supervising process reads the last fully published answer
/// and stops the worker whenever it pleases.
pub fn alpha_beta_anytime<G: Game>(state: &G) -> (log: Vec<Option<G::Move>>)
    ensures
        log@.len() == 98,
        forall|d: int|
            0 <= d < 98 ==> (#[trigger] log@[d] matches Some(m) ==> (legal_moves(
                *state,
            ).contains(m) && mm_value(state.turn(), state.next(m), (d + 1) as nat) == mm_value(
                state.turn(),
                *state,
                (d + 2) as nat,
            ))),
        legal_moves(*state).len() == 0 ==> (forall|d: int| 0 <= d < 98 ==> log@[d] is None),
        legal_moves(*state).len() > 0 ==> (forall|d: int| 0 <= d < 98 ==> log@[d] is Some),
{
    let mut log: Vec<Option<G::Move>> = Vec::new();
    let mut depth: u8 = 2;
    while depth < 100
        invariant
            2 <= depth <= 100,
            log@.len() == depth - 2,
            forall|d: int|
                0 <= d < depth - 2 ==> (#[trigger] log@[d] matches Some(m) ==> (legal_moves(
                    *state,
                ).contains(m) && mm_value(state.turn(), state.next(m), (d + 1) as nat) == mm_value(
                    state.turn(),
                    *state,
                    (d + 2) as nat,
                ))),
            legal_moves(*state).len() == 0 ==> (forall|d: int|
                0 <= d < depth - 2 ==> log@[d] is None),
            legal_moves(*state).len() > 0 ==> (forall|d: int|
                0 <= d < depth - 2 ==> log@[d] is Some),
        decreases 100 - depth,
    {
        let mut strategy = AlphaBeta(depth);
        let chosen_movement = strategy.compute_next_move(state);
        log.push(chosen_movement);
        depth += 1;
    }
    log
}

} // verus!
