//! A `Positions` is a set of 64 bits locating something on the board.
//! It keeps track of each side's blobs and of holes, and offers both a
//! sequential bit iterator and a splittable sequence of booleans that a
//! fork-join framework can consume in parallel.
use vstd::prelude::*;

verus! {

/// Coordinate of a board cell (between 0 and 64).
pub type Position = u8;

/// Conversions between board coordinates and 2d coordinates on an 8-wide grid.
pub trait BoardPosition: Sized {
    /// Does this value denote one of the 64 board cells?
    spec fn on_board(self) -> bool;

    /// Convert 2D coordinates to board coordinates.
    fn from_2d(x: u8, y: u8) -> (r: Self)
        requires
            x < 8,
            y < 8,
        ensures
            r.on_board(),
    ;

    /// Convert board coordinates to 2d coordinates.
    fn to_2d(self) -> (r: (u8, u8))
        requires
            self.on_board(),
        ensures
            r.0 < 8,
            r.1 < 8,
    ;

    /// Compute distance between two board coordinates.
    fn distance_to(self, other: Self) -> (d: u8)
        requires
            self.on_board(),
            other.on_board(),
    ;
}

/// The larger of two integers.
pub open spec fn spec_max(a: int, b: int) -> int {
    if a >= b { a } else { b }
}

/// The smaller of two integers.
pub open spec fn spec_min(a: int, b: int) -> int {
    if a <= b { a } else { b }
}

/// Absolute difference of two integers.
pub open spec fn spec_abs_diff(a: int, b: int) -> int {
    if a >= b { a - b } else { b - a }
}

impl BoardPosition for Position {
    open spec fn on_board(self) -> bool {
        self < 64
    }

    fn from_2d(x: u8, y: u8) -> (r: Self)
        ensures
            r == y * 8 + x,
    {
        y * 8 + x
    }

    fn to_2d(self) -> (r: (u8, u8))
        ensures
            r.0 == self as int % 8,
            r.1 == self as int / 8,
    {
        (self % 8, self / 8)
    }

    fn distance_to(self, other: Self) -> (d: u8)
        ensures
            d == spec_max(
                spec_abs_diff(self as int % 8, other as int % 8),
                spec_abs_diff(self as int / 8, other as int / 8),
            ),
    {
        let (x1, y1) = self.to_2d();
        let (x2, y2) = other.to_2d();
        let dx = if x2 >= x1 { x2 - x1 } else { x1 - x2 };
        let dy = if y2 >= y1 { y2 - y1 } else { y1 - y2 };
        if dx >= dy { dx } else { dy }
    }
}

/// Set of `Position` as a bitfield (position 0 is bit of lowest weight).
/// This allows storing any combination of board cells in a very compact
/// manner, with intersections and unions computed by bit masking.
#[derive(Copy, Clone)]
pub struct Positions(pub u64);

impl Positions {
    /// Does bit `i` hold a position?
    pub open spec fn spec_contains(self, i: int) -> bool {
        0 <= i < 64 && (self.0 >> (i as u64)) & 1u64 == 1u64
    }

    /// The set with every bit flipped.
    pub open spec fn spec_invert(self) -> Positions {
        Positions(!self.0)
    }

    /// The set holding the bits of both operands.
    pub open spec fn spec_union(self, other: Positions) -> Positions {
        Positions(self.0 | other.0)
    }

    /// The set holding the bits common to both operands.
    pub open spec fn spec_intersection(self, other: Positions) -> Positions {
        Positions(self.0 & other.0)
    }

    /// The set holding the bits of the first operand without those of the second.
    pub open spec fn spec_remove(self, other: Positions) -> Positions {
        Positions(self.0 & !other.0)
    }

    /// The set holding only bit `p`.
    pub open spec fn spec_single(p: Position) -> Positions {
        Positions(1u64 << p)
    }

    /// How many of the bits below `n` are set in `w`.
    pub open spec fn popcount(w: u64, n: nat) -> nat
        decreases n,
    {
        if n == 0 {
            0
        } else {
            Self::popcount(w, (n - 1) as nat) + (if (w >> ((n - 1) as u64)) & 1u64
                == 1u64 {
                1nat
            } else {
                0nat
            })
        }
    }

    /// The 64 membership booleans of this set, lowest bit first.
    pub open spec fn bool_seq(self) -> Seq<bool> {
        Seq::new(64, |i: int| self.spec_contains(i))
    }

    /// The positions this set holds below `n`, in increasing order.
    pub open spec fn pos_seq(self, n: nat) -> Seq<Position>
        decreases n,
    {
        if n == 0 {
            Seq::empty()
        } else {
            let pre = self.pos_seq((n - 1) as nat);
            if self.spec_contains(n - 1) {
                pre.push((n - 1) as Position)
            } else {
                pre
            }
        }
    }

    /// Invert all positions we contain.
    pub fn invert(&self) -> (r: Self)
        ensures
            r == self.spec_invert(),
            forall|i: int|
                0 <= i < 64 ==> (#[trigger] r.spec_contains(i) <==> !self.spec_contains(i)),
    {
        let r = Positions(!self.0);
        proof {
            let w = self.0;
            assert forall|i: int| 0 <= i < 64 implies (#[trigger] r.spec_contains(i)
                <==> !self.spec_contains(i)) by {
                let iu = i as u64;
                assert(((!w >> iu) & 1u64 == 1u64) <==> !((w >> iu) & 1u64 == 1u64))
                    by (bit_vector)
                    requires
                        iu < 64u64,
                ;
            }
        }
        r
    }

    /// Iterate on bits from lowest to highest.
    /// Will stop as soon as all remaining bits are set to 0.
    pub fn bits(&self) -> (r: BitIterator)
        ensures
            r.word() == self.0,
            r.limit() == 64,
    {
        BitIterator::new(self.0)
    }

    /// The splittable sequence of our 64 membership booleans.
    pub fn par_bits(&self) -> (r: ParallelBitIterator)
        ensures
            r.wf(),
            r@ == self.bool_seq(),
    {
        let r = ParallelBitIterator { board: self.0, start: 0, end: 64 };
        proof {
            assert(r@ =~= self.bool_seq());
        }
        r
    }

    /// All our 64 membership bits as booleans, lowest first.
    pub fn full_bits(&self) -> (r: Vec<bool>)
        ensures
            r@ == self.bool_seq(),
    {
        let mut it = BitIterator::new(self.0);
        let mut r: Vec<bool> = Vec::new();
        let w = self.0;
        proof {
            assert(w >> 0u64 == w) by (bit_vector);
        }
        while r.len() < 64
            invariant
                w == self.0,
                r@.len() <= 64,
                it.limit() >= 64 - r@.len(),
                r@.len() < 64 ==> it.word() == w >> (r@.len() as u64),
                forall|j: int| 0 <= j < r@.len() ==> r@[j] == self.spec_contains(j),
            decreases 64 - r@.len(),
        {
            let ghost n = r@.len() as u64;
            match it.next() {
                Some(b) => {
                    proof {
                        assert(n < 64 && (n as int) as u64 == n);
                        assert((w >> n) & 1u64 == 1u64 <==> self.spec_contains(n as int));
                        assert(n < 63 ==> (w >> n) >> 1u64 == w >> ((n + 1) as u64))
                            by (bit_vector);
                    }
                    r.push(b);
                },
                None => {
                    proof {
                        assert(w >> n == 0u64 ==> ((w >> n) & 1u64 != 1u64 && (n < 63 ==> w >> ((n
                            + 1) as u64) == 0u64))) by (bit_vector);
                    }
                    r.push(false);
                },
            }
        }
        proof {
            assert(r@ =~= self.bool_seq());
        }
        r
    }

    /// Do we have something on given `Position`?
    pub fn contains(&self, position: Position) -> (r: bool)
        requires
            position < 64,
        ensures
            r == self.spec_contains(position as int),
    {
        let r = !self.intersection_with(Positions::single(position)).is_empty();
        proof {
            let inter = self.spec_intersection(Self::spec_single(position));
            if self.spec_contains(position as int) {
                assert(inter.spec_contains(position as int));
            }
            if !self.spec_contains(position as int) {
                assert forall|i: int| 0 <= i < 64 implies !inter.spec_contains(i) by {
                    if inter.spec_contains(i) {
                        assert(Self::spec_single(position).spec_contains(i));
                        assert(i == position as int);
                    }
                }
            }
        }
        r
    }

    /// All `Position` values inside us, in increasing order.
    pub fn positions(&self) -> (r: Vec<Position>)
        ensures
            r@ == self.pos_seq(64),
    {
        let mut r: Vec<Position> = Vec::new();
        let mut p: u8 = 0;
        while p < 64
            invariant
                p <= 64,
                r@ == self.pos_seq(p as nat),
            decreases 64 - p,
        {
            if self.contains(p) {
                r.push(p);
            }
            p += 1;
        }
        r
    }

    /// Do we contain nothing?
    pub fn is_empty(&self) -> (r: bool)
        ensures
            r == (self.0 == 0),
            r <==> (forall|i: int| 0 <= i < 64 ==> !self.spec_contains(i)),
    {
        proof {
            let w = self.0;
            if w == 0 {
                assert forall|i: int| 0 <= i < 64 implies !self.spec_contains(i) by {
                    let iu = i as u64;
                    assert((w >> iu) & 1u64 != 1u64) by (bit_vector)
                        requires
                            w == 0u64,
                    ;
                }
            } else {
                assert(w >> 0u64 == w) by (bit_vector);
                lemma_nonzero_has_bit(w, 0);
                let i = choose|i: u64| i < 64 && #[trigger] ((w >> i) & 1u64) == 1u64;
                assert(self.spec_contains(i as int));
            }
        }
        self.0 == 0
    }

    /// How many bits are set?
    pub fn len(&self) -> (r: i8)
        ensures
            r as nat == Self::popcount(self.0, 64),
            0 <= r <= 64,
    {
        let w = self.0;
        let mut count: i8 = 0;
        let mut n: u8 = 0;
        while n < 64
            invariant
                n <= 64,
                0 <= count <= n,
                count as nat == Self::popcount(w, n as nat),
            decreases 64 - n,
        {
            if (w >> n) & 1 == 1 {
                count += 1;
            }
            n += 1;
        }
        count
    }

    /// Return positions obtained when intersecting with given ones.
    pub fn intersection_with(&self, other: Positions) -> (r: Positions)
        ensures
            r == self.spec_intersection(other),
            forall|i: int|
                0 <= i < 64 ==> (#[trigger] r.spec_contains(i) <==> (self.spec_contains(i)
                    && other.spec_contains(i))),
    {
        let r = Positions(self.0 & other.0);
        proof {
            let a = self.0;
            let b = other.0;
            assert forall|i: int| 0 <= i < 64 implies (#[trigger] r.spec_contains(i)
                <==> (self.spec_contains(i) && other.spec_contains(i))) by {
                let iu = i as u64;
                assert((((a & b) >> iu) & 1u64 == 1u64) <==> (((a >> iu) & 1u64 == 1u64) && ((b
                    >> iu) & 1u64 == 1u64))) by (bit_vector)
                    requires
                        iu < 64u64,
                ;
            }
        }
        r
    }

    /// Return positions obtained when taking union with given ones.
    pub fn union_with(&self, other: Positions) -> (r: Positions)
        ensures
            r == self.spec_union(other),
            forall|i: int|
                0 <= i < 64 ==> (#[trigger] r.spec_contains(i) <==> (self.spec_contains(i)
                    || other.spec_contains(i))),
    {
        let r = Positions(self.0 | other.0);
        proof {
            let a = self.0;
            let b = other.0;
            assert forall|i: int| 0 <= i < 64 implies (#[trigger] r.spec_contains(i)
                <==> (self.spec_contains(i) || other.spec_contains(i))) by {
                let iu = i as u64;
                assert((((a | b) >> iu) & 1u64 == 1u64) <==> (((a >> iu) & 1u64 == 1u64) || ((b
                    >> iu) & 1u64 == 1u64))) by (bit_vector)
                    requires
                        iu < 64u64,
                ;
            }
        }
        r
    }

    /// Remove given `Positions` from us.
    pub fn remove(&mut self, to_remove: Positions)
        ensures
            *final(self) == old(self).spec_remove(to_remove),
            forall|i: int|
                0 <= i < 64 ==> (#[trigger] final(self).spec_contains(i)
                    <==> (old(self).spec_contains(i) && !to_remove.spec_contains(i))),
    {
        proof {
            let a = self.0;
            let b = to_remove.0;
            assert forall|i: int| 0 <= i < 64 implies (#[trigger] Positions(a
                & !b).spec_contains(i) <==> (Positions(a).spec_contains(i) && !Positions(
                b,
            ).spec_contains(i))) by {
                let iu = i as u64;
                assert((((a & !b) >> iu) & 1u64 == 1u64) <==> (((a >> iu) & 1u64 == 1u64) && !((b
                    >> iu) & 1u64 == 1u64))) by (bit_vector)
                    requires
                        iu < 64u64,
                ;
            }
        }
        self.0 &= !to_remove.0;
    }

    /// Add given `Positions` inside us.
    pub fn add(&mut self, to_add: Positions)
        ensures
            *final(self) == old(self).spec_union(to_add),
            forall|i: int|
                0 <= i < 64 ==> (#[trigger] final(self).spec_contains(i)
                    <==> (old(self).spec_contains(i) || to_add.spec_contains(i))),
    {
        proof {
            let a = self.0;
            let b = to_add.0;
            assert forall|i: int| 0 <= i < 64 implies (#[trigger] Positions(a
                | b).spec_contains(i) <==> (Positions(a).spec_contains(i) || Positions(
                b,
            ).spec_contains(i))) by {
                let iu = i as u64;
                assert((((a | b) >> iu) & 1u64 == 1u64) <==> (((a >> iu) & 1u64 == 1u64) || ((b
                    >> iu) & 1u64 == 1u64))) by (bit_vector)
                    requires
                        iu < 64u64,
                ;
            }
        }
        self.0 |= to_add.0;
    }

    /// `Positions` initialized with only given `Position` inside.
    pub fn single(position: Position) -> (r: Self)
        requires
            position < 64,
        ensures
            r == Self::spec_single(position),
            forall|i: int|
                0 <= i < 64 ==> (#[trigger] r.spec_contains(i) <==> i == position as int),
    {
        let r = Positions(1u64 << position);
        proof {
            let p = position;
            assert forall|i: int| 0 <= i < 64 implies (#[trigger] r.spec_contains(i) <==> i
                == p as int) by {
                let iu = i as u64;
                assert((((1u64 << p) >> iu) & 1u64 == 1u64) <==> iu == p) by (bit_vector)
                    requires
                        iu < 64u64 && p < 64u8,
                ;
            }
        }
        r
    }

    /// Do we contain every possible `Position`?
    pub fn is_all(&self) -> (r: bool)
        ensures
            r == (self.0 == u64::MAX),
            r <==> (forall|i: int| 0 <= i < 64 ==> self.spec_contains(i)),
    {
        proof {
            let w = self.0;
            if w == u64::MAX {
                assert forall|i: int| 0 <= i < 64 implies self.spec_contains(i) by {
                    let iu = i as u64;
                    assert((w >> iu) & 1u64 == 1u64) by (bit_vector)
                        requires
                            w == 0xffff_ffff_ffff_ffffu64 && iu < 64u64,
                    ;
                }
            } else {
                assert(!w != 0u64 && !w >> 0u64 == !w) by (bit_vector)
                    requires
                        w != 0xffff_ffff_ffff_ffffu64,
                ;
                lemma_nonzero_has_bit(!w, 0);
                let i = choose|i: u64| i < 64 && #[trigger] ((!w >> i) & 1u64) == 1u64;
                assert((w >> i) & 1u64 != 1u64) by (bit_vector)
                    requires
                        i < 64u64 && (!w >> i) & 1u64 == 1u64,
                ;
                assert(!self.spec_contains(i as int));
            }
        }
        self.0 == u64::MAX
    }
}

/// A word with any bit set at or above `k` has a set bit among its 64.
proof fn lemma_nonzero_has_bit(w: u64, k: u64)
    requires
        k < 64,
        w >> k != 0,
    ensures
        exists|i: u64| i < 64 && #[trigger] ((w >> i) & 1u64) == 1u64,
    decreases 64 - k,
{
    if (w >> k) & 1 == 1 {
        assert(k < 64 && (w >> k) & 1u64 == 1u64);
    } else {
        assert(k == 63 && w >> k != 0u64 ==> (w >> k) & 1u64 == 1u64) by (bit_vector);
        assert(k < 63 && w >> k != 0u64 && (w >> k) & 1u64 != 1u64 ==> w >> ((k + 1) as u64)
            != 0u64) by (bit_vector);
        lemma_nonzero_has_bit(w, (k + 1) as u64);
    }
}

impl Default for Positions {
    fn default() -> (r: Self)
        ensures
            r.0 == 0,
    {
        Positions(0)
    }
}

/// A set and its complement together cover the whole board and share nothing.
pub proof fn lemma_complement(b: Positions)
    ensures
        b.spec_union(b.spec_invert()).0 == u64::MAX,
        b.spec_intersection(b.spec_invert()).0 == 0,
{
    let w = b.0;
    assert(w | !w == 0xffff_ffff_ffff_ffffu64) by (bit_vector);
    assert(w & !w == 0u64) by (bit_vector);
}

/// Adding a single position makes it a member; removing it takes it out.
pub proof fn lemma_single_add_remove(b: Positions, p: Position)
    requires
        p < 64,
    ensures
        b.spec_union(Positions::spec_single(p)).spec_contains(p as int),
        !b.spec_remove(Positions::spec_single(p)).spec_contains(p as int),
{
    let w = b.0;
    assert((((w | (1u64 << p)) >> p) & 1u64 == 1u64) && (((w & !(1u64 << p)) >> p) & 1u64
        != 1u64)) by (bit_vector)
        requires
            p < 64u8,
    ;
}

/// How many entries of a boolean sequence are true.
pub open spec fn count_trues(s: Seq<bool>) -> nat
    decreases s.len(),
{
    if s.len() == 0 {
        0
    } else {
        count_trues(s.drop_last()) + (if s.last() {
            1nat
        } else {
            0nat
        })
    }
}

/// A full sequential pass over a set yields one boolean per bit, and the
/// number of true entries is exactly the set's cardinality.
pub proof fn lemma_card_counts(b: Positions)
    ensures
        count_trues(b.bool_seq()) == Positions::popcount(b.0, 64),
{
    lemma_card_counts_upto(b, 64);
    assert(b.bool_seq().subrange(0, 64) =~= b.bool_seq());
}

proof fn lemma_card_counts_upto(b: Positions, n: nat)
    requires
        n <= 64,
    ensures
        count_trues(b.bool_seq().subrange(0, n as int)) == Positions::popcount(b.0, n),
    decreases n,
{
    let s = b.bool_seq().subrange(0, n as int);
    if n == 0 {
        assert(s.len() == 0);
    } else {
        lemma_card_counts_upto(b, (n - 1) as nat);
        assert(s.drop_last() =~= b.bool_seq().subrange(0, n as int - 1));
        assert(s.last() == b.spec_contains(n as int - 1));
    }
}

/// A word holds at most `n` set bits below `n`.
pub proof fn lemma_popcount_bound(w: u64, n: nat)
    ensures
        Positions::popcount(w, n) <= n,
    decreases n,
{
    if n > 0 {
        lemma_popcount_bound(w, (n - 1) as nat);
    }
}

/// The list of member positions has exactly cardinality entries.
pub proof fn lemma_pos_seq_len(b: Positions, n: nat)
    requires
        n <= 64,
    ensures
        b.pos_seq(n).len() == Positions::popcount(b.0, n),
    decreases n,
{
    if n > 0 {
        lemma_pos_seq_len(b, (n - 1) as nat);
    }
}

/// Iterator on the bits of a word, from lowest to highest, bounded by a
/// remaining-yield limit.
pub struct BitIterator {
    remaining: u64,
    last_index: u8,
}

impl BitIterator {
    /// The bits still to be yielded, lowest first.
    pub closed spec fn word(self) -> u64 {
        self.remaining
    }

    /// How many more bits may be yielded.
    pub closed spec fn limit(self) -> u8 {
        self.last_index
    }

    /// A fresh iterator over all 64 bits of `remaining`.
    pub fn new(remaining: u64) -> (r: BitIterator)
        ensures
            r.word() == remaining,
            r.limit() == 64,
    {
        BitIterator { remaining, last_index: 64 }
    }

    /// Skip the `n` lowest bits.
    pub fn start_at(&mut self, n: u8)
        requires
            n < 64,
        ensures
            final(self).word() == old(self).word() >> n,
            final(self).limit() == old(self).limit(),
    {
        self.remaining >>= n;
    }

    /// Yield at most `n` further bits.
    pub fn end_at(&mut self, n: u8)
        ensures
            final(self).word() == old(self).word(),
            final(self).limit() == n,
    {
        self.last_index = n;
    }

    /// The next bit, lowest first; nothing once the limit is reached or
    /// every remaining bit is zero.
    pub fn next(&mut self) -> (r: Option<bool>)
        ensures
            (old(self).limit() == 0 || old(self).word() == 0) ==> (r is None && *final(self)
                == *old(self)),
            (old(self).limit() > 0 && old(self).word() != 0) ==> (r == Some(
                old(self).word() & 1u64 == 1u64,
            ) && final(self).word() == old(self).word() >> 1u64 && final(self).limit() == old(
                self,
            ).limit() - 1),
    {
        if self.last_index == 0 || self.remaining == 0 {
            None
        } else {
            let bit = self.remaining & 1;
            self.remaining >>= 1u64;
            self.last_index -= 1;
            Some(bit == 1)
        }
    }

    /// The next bit from the back, highest first: the bit just below the
    /// limit; nothing once the limit is reached or every remaining bit is
    /// zero.
    pub fn next_back(&mut self) -> (r: Option<bool>)
        requires
            old(self).limit() <= 64,
        ensures
            (old(self).limit() == 0 || old(self).word() == 0) ==> (r is None && *final(self)
                == *old(self)),
            (old(self).limit() > 0 && old(self).word() != 0) ==> (r == Some(
                (old(self).word() >> ((old(self).limit() - 1) as u64)) & 1u64 == 1u64,
            ) && final(self).word() == old(self).word() && final(self).limit() == old(
                self,
            ).limit() - 1),
    {
        if self.last_index == 0 || self.remaining == 0 {
            None
        } else {
            let bit = (self.remaining >> (self.last_index - 1)) & 1;
            self.last_index -= 1;
            Some(bit == 1)
        }
    }
}

/// An index-addressable sequence of the membership booleans of a board
/// word, supporting balanced splitting at an arbitrary index so that a
/// fork-join framework can consume both halves independently.
pub struct ParallelBitIterator {
    board: u64,
    start: u8,
    end: u8,
}

impl View for ParallelBitIterator {
    type V = Seq<bool>;

    /// The booleans this sequence stands for: bits `start` up to `end` of
    /// the board word, lowest first.
    closed spec fn view(&self) -> Seq<bool> {
        Seq::new((self.end - self.start) as nat, |i: int| (self.board >> ((self.start + i)
            as u64)) & 1u64 == 1u64)
    }
}

impl ParallelBitIterator {
    /// The bounds describe a range of bit indices.
    pub closed spec fn wf(self) -> bool {
        self.start <= self.end <= 64
    }

    /// The word whose bits are enumerated.
    pub closed spec fn spec_board(self) -> u64 {
        self.board
    }

    /// How many booleans the sequence holds.
    pub fn len(&self) -> (r: usize)
        requires
            self.wf(),
        ensures
            r == self@.len(),
    {
        (self.end - self.start) as usize
    }

    /// Split the sequence at `index`: the left part holds the first `index`
    /// booleans, the right part the rest, and together they are exactly the
    /// whole sequence.
    pub fn split_at(self, index: usize) -> (r: (Self, Self))
        requires
            self.wf(),
            index <= self@.len(),
        ensures
            r.0.wf(),
            r.1.wf(),
            r.0@ == self@.take(index as int),
            r.1@ == self@.skip(index as int),
            r.0@ + r.1@ == self@,
    {
        let mid = self.start + (index as u8);
        let left = ParallelBitIterator { board: self.board, start: self.start, end: mid };
        let right = ParallelBitIterator { board: self.board, start: mid, end: self.end };
        proof {
            assert(left@ =~= self@.take(index as int));
            assert(right@ =~= self@.skip(index as int));
            assert(left@ + right@ =~= self@);
        }
        (left, right)
    }

    /// A sequential iterator over the same booleans: the `start` lowest bits
    /// are skipped and at most the range's length may be yielded.
    pub fn sequential(&self) -> (r: BitIterator)
        requires
            self.wf(),
        ensures
            r.limit() as nat == self@.len(),
            self.start() < 64 ==> r.word() == self.spec_board() >> (self.start() as u64),
    {
        let mut it = BitIterator::new(self.board);
        if self.start < 64 {
            it.start_at(self.start);
        }
        it.end_at(self.end - self.start);
        it
    }

    /// Where the range begins.
    pub closed spec fn start(self) -> u8 {
        self.start
    }

    /// Consume the whole sequence front to back into a vector of booleans:
    /// the same booleans, in the same order, as the view.
    pub fn collect_bools(&self) -> (r: Vec<bool>)
        requires
            self.wf(),
        ensures
            r@ == self@,
    {
        let n = self.len();
        if n == 0 {
            let r: Vec<bool> = Vec::new();
            proof {
                assert(r@ =~= self@);
            }
            return r;
        }
        let mut it = BitIterator::new(self.board);
        it.start_at(self.start);
        it.end_at(self.end - self.start);
        let ghost w0 = self.spec_board() >> (self.start() as u64);
        proof {
            let b = self.spec_board();
            let s = self.start();
            assert(b >> s == b >> (s as u64) && (b >> (s as u64)) >> 0u64 == b >> (s as u64))
                by (bit_vector);
        }
        let mut r: Vec<bool> = Vec::new();
        while r.len() < n
            invariant
                n == self@.len(),
                self.wf(),
                self.start < 64,
                r@.len() <= n,
                it.limit() as int >= n - r@.len(),
                w0 == self.spec_board() >> (self.start() as u64),
                r@.len() < n ==> it.word() == w0 >> (r@.len() as u64),
                forall|j: int| 0 <= j < r@.len() ==> r@[j] == self@[j],
            decreases n - r@.len(),
        {
            let ghost k = r@.len() as u64;
            let ghost b = self.spec_board();
            let ghost s = self.start() as u64;
            match it.next() {
                Some(bit) => {
                    proof {
                        assert(s < 64 && s + k < 64 ==> (((b >> s) >> k) & 1u64 == (b >> ((s + k)
                            as u64)) & 1u64 && (k < 63 ==> ((b >> s) >> k) >> 1u64 == (b >> s)
                            >> ((k + 1) as u64)))) by (bit_vector);
                    }
                    r.push(bit);
                },
                None => {
                    proof {
                        assert(s < 64 && s + k < 64 && (b >> s) >> k == 0u64 ==> ((b >> ((s + k)
                            as u64)) & 1u64 != 1u64 && (k < 63 ==> (b >> s) >> ((k + 1) as u64)
                            == 0u64))) by (bit_vector);
                    }
                    r.push(false);
                },
            }
        }
        proof {
            assert(r@ =~= self@);
        }
        r
    }
}

} // verus!
