//! The consumed contract of the board-state collaborator — move enumeration,
//! legality checking, move application, heuristic evaluation — and the
//! specification of fixed-depth game-tree search over it, shared by every
//! search strategy.
use vstd::prelude::*;

verus! {

use crate::positions::{spec_max, spec_min};

/// One snapshot of play, as the search strategies consume it: the rules
/// engine behind it enumerates moves, checks legality, applies moves and
/// evaluates states; the search never re-derives any of that.
pub trait Game: Sized {
    /// The opaque token for a transition between states.
    type Move: Copy;

    /// The candidate moves this state offers, in enumeration order.
    spec fn candidates(self) -> Seq<Self::Move>;

    /// Is the move legal in this state?
    spec fn is_legal(self, m: Self::Move) -> bool;

    /// The state reached by playing a move.
    spec fn next(self, m: Self::Move) -> Self;

    /// The heuristic value of this state, from a fixed global orientation.
    spec fn heuristic(self) -> int;

    /// Whose turn it is.
    spec fn turn(self) -> bool;

    /// Is the game over?
    spec fn finished(self) -> bool;

    /// The heuristic always fits comfortably inside a signed byte, leaving
    /// the extreme byte values free to seed alpha-beta windows.
    proof fn heuristic_in_range(s: Self)
        ensures
            -126 <= s.heuristic() <= 126,
    ;

    /// Produce the candidate moves; some may later be rejected by
    /// `check_move`.
    fn movements(&self) -> (r: Vec<Self::Move>)
        ensures
            r@ == self.candidates(),
    ;

    /// Legality predicate.
    fn check_move(&self, m: &Self::Move) -> (r: bool)
        ensures
            r == self.is_legal(*m),
    ;

    /// Pure application: returns a new state and leaves the input unchanged.
    fn play(&self, m: &Self::Move) -> (r: Self)
        ensures
            r == self.next(*m),
    ;

    /// Mutating application.
    fn apply_movement(&mut self, m: &Self::Move)
        ensures
            *final(self) == old(self).next(*m),
    ;

    /// Heuristic evaluation.
    fn value(&self) -> (r: i8)
        ensures
            r as int == self.heuristic(),
    ;

    /// Whose turn it is.
    fn current_player(&self) -> (r: bool)
        ensures
            r == self.turn(),
    ;

    /// Terminal-state detection.
    fn game_over(&self) -> (r: bool)
        ensures
            r == self.finished(),
    ;
}

/// The candidates of `ms` that are legal in `s`, in enumeration order.
pub open spec fn filter_legal<G: Game>(s: G, ms: Seq<G::Move>) -> Seq<G::Move>
    decreases ms.len(),
{
    if ms.len() == 0 {
        Seq::empty()
    } else {
        let pre = filter_legal(s, ms.drop_last());
        if s.is_legal(ms.last()) {
            pre.push(ms.last())
        } else {
            pre
        }
    }
}

/// The moves a state offers: its candidates that pass the legality check,
/// in enumeration order.
pub open spec fn legal_moves<G: Game>(s: G) -> Seq<G::Move> {
    filter_legal(s, s.candidates())
}

/// The depth-0 value of a state for a search oriented at `player`: the raw
/// heuristic when it is `player`'s turn, its negation otherwise.
pub open spec fn leaf_value<G: Game>(player: bool, s: G) -> int {
    if s.turn() == player {
        s.heuristic()
    } else {
        -s.heuristic()
    }
}

/// One pass of the minmax reduction over a move list, carrying the running
/// best value and best move. On a minimizing layer a strictly smaller child
/// value takes over; on a maximizing layer a child value no smaller than the
/// running best takes over. `depth` is the children's remaining depth.
pub open spec fn mm_fold<G: Game>(
    player: bool,
    s: G,
    depth: nat,
    ms: Seq<G::Move>,
    minimize: bool,
    acc_v: int,
    acc_m: Option<G::Move>,
) -> (int, Option<G::Move>)
    decreases depth, ms.len(),
{
    if ms.len() == 0 {
        (acc_v, acc_m)
    } else {
        let cv = mm_result(player, s.next(ms[0]), depth).0;
        let take = if minimize {
            cv < acc_v
        } else {
            cv >= acc_v
        };
        if take {
            mm_fold(player, s, depth, ms.drop_first(), minimize, cv, Some(ms[0]))
        } else {
            mm_fold(player, s, depth, ms.drop_first(), minimize, acc_v, acc_m)
        }
    }
}

/// The value and chosen move of exhaustive search to a fixed depth: at depth
/// zero or on a state without legal moves, the oriented heuristic and no
/// move; otherwise the minmax reduction over the legal moves, minimizing
/// when the state's player is the one the search is oriented for and
/// maximizing otherwise, seeded with the extreme byte values.
pub open spec fn mm_result<G: Game>(player: bool, s: G, depth: nat) -> (int, Option<G::Move>)
    decreases depth, 0nat,
{
    if depth == 0 || legal_moves(s).len() == 0 {
        (leaf_value(player, s), None)
    } else {
        let minimize = s.turn() == player;
        let seed: int = if minimize {
            127
        } else {
            -128
        };
        mm_fold(player, s, (depth - 1) as nat, legal_moves(s), minimize, seed, None)
    }
}

/// The minmax value of a state at a depth.
pub open spec fn mm_value<G: Game>(player: bool, s: G, depth: nat) -> int {
    mm_result(player, s, depth).0
}

/// The best child value over a move list: the minimum of the children's
/// minmax values on a minimizing layer, their maximum on a maximizing one,
/// seeded like the reduction.
pub open spec fn kids_opt<G: Game>(
    player: bool,
    s: G,
    depth: nat,
    ms: Seq<G::Move>,
    minimize: bool,
) -> int
    decreases ms.len(),
{
    if ms.len() == 0 {
        if minimize {
            127
        } else {
            -128
        }
    } else {
        let cv = mm_value(player, s.next(ms.last()), depth);
        let rest = kids_opt(player, s, depth, ms.drop_last(), minimize);
        if minimize {
            spec_min(cv, rest)
        } else {
            spec_max(cv, rest)
        }
    }
}

/// The best child value can also be peeled off at the front of the list.
pub proof fn lemma_kids_opt_front<G: Game>(
    player: bool,
    s: G,
    depth: nat,
    ms: Seq<G::Move>,
    minimize: bool,
)
    requires
        ms.len() > 0,
    ensures
        kids_opt(player, s, depth, ms, minimize) == (if minimize {
            spec_min(
                mm_value(player, s.next(ms[0]), depth),
                kids_opt(player, s, depth, ms.drop_first(), minimize),
            )
        } else {
            spec_max(
                mm_value(player, s.next(ms[0]), depth),
                kids_opt(player, s, depth, ms.drop_first(), minimize),
            )
        }),
    decreases ms.len(),
{
    if ms.len() == 1 {
        assert(ms.last() == ms[0]);
        assert(ms.drop_first() =~= ms.drop_last());
    } else {
        lemma_kids_opt_front(player, s, depth, ms.drop_last(), minimize);
        assert(ms.drop_last().drop_first() =~= ms.drop_first().drop_last());
        assert(ms.drop_last()[0] == ms[0]);
        assert(ms.drop_first().last() == ms.last());
    }
}

/// The minmax reduction computes the best child value, clipped at the
/// accumulator it starts from.
pub proof fn lemma_fold_value<G: Game>(
    player: bool,
    s: G,
    depth: nat,
    ms: Seq<G::Move>,
    minimize: bool,
    acc_v: int,
    acc_m: Option<G::Move>,
)
    requires
        minimize ==> acc_v <= 127,
        !minimize ==> acc_v >= -128,
    ensures
        mm_fold(player, s, depth, ms, minimize, acc_v, acc_m).0 == (if minimize {
            spec_min(acc_v, kids_opt(player, s, depth, ms, true))
        } else {
            spec_max(acc_v, kids_opt(player, s, depth, ms, false))
        }),
    decreases ms.len(),
{
    if ms.len() > 0 {
        lemma_kids_opt_front(player, s, depth, ms, minimize);
        lemma_mm_bounds(player, s.next(ms[0]), depth);
        let cv = mm_result(player, s.next(ms[0]), depth).0;
        let take = if minimize {
            cv < acc_v
        } else {
            cv >= acc_v
        };
        if take {
            lemma_fold_value(player, s, depth, ms.drop_first(), minimize, cv, Some(ms[0]));
        } else {
            lemma_fold_value(player, s, depth, ms.drop_first(), minimize, acc_v, acc_m);
        }
    }
}

/// The best child value over a non-empty move list stays inside the
/// heuristic's byte range.
pub proof fn lemma_kids_bounds<G: Game>(
    player: bool,
    s: G,
    depth: nat,
    ms: Seq<G::Move>,
    minimize: bool,
)
    requires
        ms.len() > 0,
    ensures
        -126 <= kids_opt(player, s, depth, ms, minimize) <= 126,
    decreases ms.len(),
{
    lemma_mm_bounds(player, s.next(ms.last()), depth);
    if ms.len() > 1 {
        lemma_kids_bounds(player, s, depth, ms.drop_last(), minimize);
    } else {
        assert(ms.drop_last().len() == 0);
        assert(kids_opt(player, s, depth, ms.drop_last(), minimize) == (if minimize {
            127int
        } else {
            -128int
        }));
    }
}

/// A prefix's best child value is no better than the whole list's: no
/// smaller when minimizing, no larger when maximizing.
pub proof fn lemma_kids_prefix<G: Game>(
    player: bool,
    s: G,
    depth: nat,
    ms: Seq<G::Move>,
    minimize: bool,
    i: int,
)
    requires
        0 <= i <= ms.len(),
    ensures
        minimize ==> kids_opt(player, s, depth, ms.take(i), true) >= kids_opt(
            player,
            s,
            depth,
            ms,
            true,
        ),
        !minimize ==> kids_opt(player, s, depth, ms.take(i), false) <= kids_opt(
            player,
            s,
            depth,
            ms,
            false,
        ),
    decreases ms.len() - i,
{
    if i < ms.len() {
        lemma_kids_prefix(player, s, depth, ms, minimize, i + 1);
        assert(ms.take(i + 1).drop_last() =~= ms.take(i));
        assert(ms.take(i + 1).last() == ms[i]);
    } else {
        assert(ms.take(i) =~= ms);
    }
}

/// At a searching node — positive depth, at least one legal move — the
/// minmax value is exactly the best child value.
pub proof fn lemma_mm_is_kids<G: Game>(player: bool, s: G, depth: nat)
    requires
        depth > 0,
        legal_moves(s).len() > 0,
    ensures
        mm_value(player, s, depth) == kids_opt(
            player,
            s,
            (depth - 1) as nat,
            legal_moves(s),
            s.turn() == player,
        ),
{
    let minimize = s.turn() == player;
    let seed: int = if minimize {
        127
    } else {
        -128
    };
    let ms = legal_moves(s);
    lemma_fold_value(player, s, (depth - 1) as nat, ms, minimize, seed, None);
    lemma_kids_bounds(player, s, (depth - 1) as nat, ms, minimize);
}

/// Minmax values stay inside the heuristic's byte range, so the extreme
/// byte values never collide with a real value.
pub proof fn lemma_mm_bounds<G: Game>(player: bool, s: G, depth: nat)
    ensures
        -126 <= mm_value(player, s, depth) <= 126,
    decreases depth, 0nat,
{
    if depth == 0 || legal_moves(s).len() == 0 {
        G::heuristic_in_range(s);
    } else {
        let minimize = s.turn() == player;
        let seed: int = if minimize {
            127
        } else {
            -128
        };
        lemma_fold_bounds(player, s, (depth - 1) as nat, legal_moves(s), minimize, seed, None);
    }
}

/// The reduction's running value stays inside the byte range, and a
/// non-empty move list pulls the extreme seed back into the heuristic range.
pub proof fn lemma_fold_bounds<G: Game>(
    player: bool,
    s: G,
    depth: nat,
    ms: Seq<G::Move>,
    minimize: bool,
    acc_v: int,
    acc_m: Option<G::Move>,
)
    requires
        minimize ==> -126 <= acc_v <= 127,
        !minimize ==> -128 <= acc_v <= 126,
    ensures
        ({
            let rv = mm_fold(player, s, depth, ms, minimize, acc_v, acc_m).0;
            &&& minimize ==> -126 <= rv <= acc_v
            &&& !minimize ==> acc_v <= rv <= 126
            &&& (minimize && (ms.len() > 0 || acc_v <= 126)) ==> rv <= 126
            &&& (!minimize && (ms.len() > 0 || acc_v >= -126)) ==> rv >= -126
        }),
    decreases depth, ms.len(),
{
    if ms.len() > 0 {
        lemma_mm_bounds(player, s.next(ms[0]), depth);
        let cv = mm_result(player, s.next(ms[0]), depth).0;
        let take = if minimize {
            cv < acc_v
        } else {
            cv >= acc_v
        };
        if take {
            lemma_fold_bounds(player, s, depth, ms.drop_first(), minimize, cv, Some(ms[0]));
        } else {
            lemma_fold_bounds(player, s, depth, ms.drop_first(), minimize, acc_v, acc_m);
        }
    }
}

/// The reduction either keeps the accumulator untouched or picks a move of
/// the list whose child value is exactly the returned value.
pub proof fn lemma_fold_move<G: Game>(
    player: bool,
    s: G,
    depth: nat,
    ms: Seq<G::Move>,
    minimize: bool,
    acc_v: int,
    acc_m: Option<G::Move>,
)
    ensures
        ({
            let r = mm_fold(player, s, depth, ms, minimize, acc_v, acc_m);
            (r.1 == acc_m && r.0 == acc_v) || (r.1 matches Some(m) && ms.contains(m) && mm_value(
                player,
                s.next(m),
                depth,
            ) == r.0)
        }),
    decreases ms.len(),
{
    if ms.len() > 0 {
        let cv = mm_result(player, s.next(ms[0]), depth).0;
        let take = if minimize {
            cv < acc_v
        } else {
            cv >= acc_v
        };
        if take {
            lemma_fold_move(player, s, depth, ms.drop_first(), minimize, cv, Some(ms[0]));
        } else {
            lemma_fold_move(player, s, depth, ms.drop_first(), minimize, acc_v, acc_m);
        }
        let r = mm_fold(player, s, depth, ms, minimize, acc_v, acc_m);
        if r.1 is Some {
            let m = r.1.unwrap();
            if ms.drop_first().contains(m) {
                let j = choose|j: int| 0 <= j < ms.drop_first().len() && ms.drop_first()[j] == m;
                assert(ms[j + 1] == m);
                assert(ms.contains(m));
            }
        }
    }
}

/// A state without legal moves makes every search answer "no move".
pub proof fn lemma_no_move_passes<G: Game>(player: bool, s: G, depth: nat)
    requires
        legal_moves(s).len() == 0,
    ensures
        mm_result(player, s, depth).1 is None,
        mm_value(player, s, depth) == leaf_value(player, s),
{
}

/// The legality-filtered move list of a state, as a vector.
pub fn legal_vec<G: Game>(s: &G) -> (r: Vec<G::Move>)
    ensures
        r@ == legal_moves(*s),
{
    let all = s.movements();
    let mut r: Vec<G::Move> = Vec::new();
    let mut i: usize = 0;
    while i < all.len()
        invariant
            i <= all@.len(),
            all@ == s.candidates(),
            r@ == filter_legal(*s, all@.take(i as int)),
        decreases all@.len() - i,
    {
        let m = all[i];
        if s.check_move(&m) {
            r.push(m);
        }
        proof {
            assert(all@.take(i as int + 1).drop_last() =~= all@.take(i as int));
            assert(all@.take(i as int + 1).last() == all@[i as int]);
        }
        i += 1;
    }
    proof {
        assert(all@.take(all@.len() as int) =~= all@);
    }
    r
}

/// The states reached by each move of a list, in the list's order.
pub fn play_all<G: Game>(s: &G, moves: &Vec<G::Move>) -> (r: Vec<G>)
    ensures
        r@.len() == moves@.len(),
        forall|i: int| 0 <= i < moves@.len() ==> r@[i] == s.next(moves@[i]),
{
    let mut r: Vec<G> = Vec::new();
    let mut i: usize = 0;
    while i < moves.len()
        invariant
            i <= moves@.len(),
            r@.len() == i,
            forall|j: int| 0 <= j < i ==> r@[j] == s.next(moves@[j]),
        decreases moves@.len() - i,
    {
        r.push(s.play(&moves[i]));
        i += 1;
    }
    r
}

} // verus!
