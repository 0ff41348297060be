//! A minimal concrete board game wired to the search contract, so the
//! strategies can be exercised end to end: the two sides alternately claim
//! a free cell of the 8x8 board until none is left, and a state is worth
//! the difference between the opponent's claimed cells and the mover's.
use vstd::prelude::*;

verus! {

use crate::game::Game;
use crate::positions::{Position, Positions, lemma_popcount_bound};

/// One snapshot of the claiming game: each side's claimed cells and whose
/// turn it is (`false` for blue, `true` for red).
#[derive(Copy, Clone)]
pub struct ClaimGame {
    /// Cells claimed by the blue side.
    pub blue: Positions,
    /// Cells claimed by the red side.
    pub red: Positions,
    /// Whose turn it is: `false` for blue, `true` for red.
    pub side: bool,
}

impl ClaimGame {
    /// The cells claimed by the side to move.
    pub open spec fn mine(self) -> Positions {
        if self.side {
            self.red
        } else {
            self.blue
        }
    }

    /// The cells claimed by the side that just moved.
    pub open spec fn theirs(self) -> Positions {
        if self.side {
            self.blue
        } else {
            self.red
        }
    }

    /// The same position with the two sides swapped: each strategy then
    /// faces the mirrored game.
    pub open spec fn mirrored(self) -> ClaimGame {
        ClaimGame { blue: self.red, red: self.blue, side: !self.side }
    }

    /// A fresh board where nothing is claimed and blue moves first.
    pub fn empty_board() -> (r: ClaimGame)
        ensures
            r.blue.0 == 0,
            r.red.0 == 0,
            r.side == false,
    {
        ClaimGame { blue: Positions(0), red: Positions(0), side: false }
    }
}

/// A state and its mirror are worth the same to their respective movers,
/// offer the same moves, and move to mirrored states: a game from the
/// mirrored board with the strategy assignments swapped replays the same
/// cells.
pub proof fn lemma_mirror(s: ClaimGame, m: Position)
    ensures
        s.mirrored().heuristic() == s.heuristic(),
        s.mirrored().candidates() == s.candidates(),
        s.mirrored().is_legal(m) == s.is_legal(m),
        s.mirrored().next(m) == s.next(m).mirrored(),
{
    assert(s.mirrored().candidates() =~= s.candidates());
}

impl Game for ClaimGame {
    type Move = Position;

    open spec fn candidates(self) -> Seq<Position> {
        Seq::new(64, |i: int| i as Position)
    }

    open spec fn is_legal(self, m: Position) -> bool {
        m < 64 && !self.blue.spec_contains(m as int) && !self.red.spec_contains(m as int)
    }

    open spec fn next(self, m: Position) -> ClaimGame {
        if m < 64 {
            let claimed = Positions::spec_single(m);
            if self.side {
                ClaimGame { blue: self.blue, red: self.red.spec_union(claimed), side: false }
            } else {
                ClaimGame { blue: self.blue.spec_union(claimed), red: self.red, side: true }
            }
        } else {
            ClaimGame { blue: self.blue, red: self.red, side: !self.side }
        }
    }

    open spec fn heuristic(self) -> int {
        Positions::popcount(self.theirs().0, 64) - Positions::popcount(self.mine().0, 64)
    }

    open spec fn turn(self) -> bool {
        self.side
    }

    open spec fn finished(self) -> bool {
        self.blue.spec_union(self.red).0 == u64::MAX
    }

    proof fn heuristic_in_range(s: Self)
        ensures
            -126 <= s.heuristic() <= 126,
    {
        lemma_popcount_bound(s.blue.0, 64);
        lemma_popcount_bound(s.red.0, 64);
    }

    fn movements(&self) -> (r: Vec<Position>)
        ensures
            r@ == self.candidates(),
    {
        let mut r: Vec<Position> = Vec::new();
        let mut p: u8 = 0;
        while p < 64
            invariant
                p <= 64,
                r@.len() == p,
                forall|i: int| 0 <= i < p ==> r@[i] == i as Position,
            decreases 64 - p,
        {
            r.push(p);
            p += 1;
        }
        proof {
            assert(r@ =~= self.candidates());
        }
        r
    }

    fn check_move(&self, m: &Position) -> (r: bool)
        ensures
            r == self.is_legal(*m),
    {
        *m < 64 && !self.blue.contains(*m) && !self.red.contains(*m)
    }

    fn play(&self, m: &Position) -> (r: ClaimGame)
        ensures
            r == self.next(*m),
    {
        if *m < 64 {
            let claimed = Positions::single(*m);
            if self.side {
                ClaimGame { blue: self.blue, red: self.red.union_with(claimed), side: false }
            } else {
                ClaimGame { blue: self.blue.union_with(claimed), red: self.red, side: true }
            }
        } else {
            ClaimGame { blue: self.blue, red: self.red, side: !self.side }
        }
    }

    fn apply_movement(&mut self, m: &Position) {
        let r = self.play(m);
        *self = r;
    }

    fn value(&self) -> (r: i8)
        ensures
            r as int == self.heuristic(),
    {
        let mine = if self.side {
            self.red
        } else {
            self.blue
        };
        let theirs = if self.side {
            self.blue
        } else {
            self.red
        };
        theirs.len() - mine.len()
    }

    fn current_player(&self) -> (r: bool)
        ensures
            r == self.turn(),
    {
        self.side
    }

    fn game_over(&self) -> (r: bool)
        ensures
            r == self.finished(),
    {
        self.blue.union_with(self.red).is_all()
    }
}

} // verus!
