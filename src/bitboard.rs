use vstd::prelude::*;
use vstd::set_lib::*;
use vstd::std_specs::bits::*;

use crate::pos::Pos;

verus! {

/// Whether bit `i` of `b` is set.
pub open spec fn bit(b: u64, i: int) -> bool {
    0 <= i < 64 && (b >> (i as u64)) & 1u64 == 1u64
}

/// The squares whose bits are set in `b`.
pub open spec fn bits_of(b: u64) -> Set<int> {
    Set::new(|i: int| bit(b, i))
}

/// The squares of `s` moved one column toward `a`: square `i` is in the result when
/// square `i + 8` is in `s`.
pub open spec fn shifted_left(s: Set<int>) -> Set<int> {
    Set::new(|i: int| 0 <= i < 56 && s.contains(i + 8))
}

/// The squares of `s` moved one column toward `h`: square `i` is in the result when
/// square `i - 8` is in `s`.
pub open spec fn shifted_right(s: Set<int>) -> Set<int> {
    Set::new(|i: int| 8 <= i < 64 && s.contains(i - 8))
}

proof fn lemma_bit_or(a: u64, b: u64, i: u64)
    by (bit_vector)
    requires
        i < 64,
    ensures
        ((a | b) >> i) & 1u64 == 1u64 <==> ((a >> i) & 1u64 == 1u64 || (b >> i) & 1u64 == 1u64),
{
}

proof fn lemma_bit_and(a: u64, b: u64, i: u64)
    by (bit_vector)
    requires
        i < 64,
    ensures
        ((a & b) >> i) & 1u64 == 1u64 <==> ((a >> i) & 1u64 == 1u64 && (b >> i) & 1u64 == 1u64),
{
}

proof fn lemma_bit_and_not(a: u64, b: u64, i: u64)
    by (bit_vector)
    requires
        i < 64,
    ensures
        ((a & !b) >> i) & 1u64 == 1u64 <==> ((a >> i) & 1u64 == 1u64 && (b >> i) & 1u64
            != 1u64),
{
}

proof fn lemma_bit_single(k: u64, i: u64)
    by (bit_vector)
    requires
        i < 64,
        k < 64,
    ensures
        ((1u64 << k) >> i) & 1u64 == 1u64 <==> i == k,
{
}

proof fn lemma_bit_shr8(a: u64, i: u64)
    by (bit_vector)
    requires
        i < 64,
    ensures
        ((a >> 8u64) >> i) & 1u64 == 1u64 <==> (i < 56 && (a >> ((i + 8) as u64)) & 1u64 == 1u64),
{
}

proof fn lemma_bit_shl8(a: u64, i: u64)
    by (bit_vector)
    requires
        i < 64,
    ensures
        ((a << 8u64) >> i) & 1u64 == 1u64 <==> (i >= 8 && (a >> ((i - 8) as u64)) & 1u64 == 1u64),
{
}

proof fn lemma_bit_zero(i: u64)
    by (bit_vector)
    requires
        i < 64,
    ensures
        (0u64 >> i) & 1u64 != 1u64,
{
}

proof fn lemma_clear_lowest(a: u64, t: u64)
    by (bit_vector)
    requires
        t < 64,
        (a >> t) & 1u64 == 1u64,
    ensures
        a ^ (1u64 << t) == a & !(1u64 << t),
{
}

/// The squares of a bit set form a finite set of indices below 64.
pub proof fn lemma_bits_finite(b: u64)
    ensures
        bits_of(b).finite(),
        bits_of(b).len() <= 64,
        forall|i: int| #[trigger] bits_of(b).contains(i) ==> 0 <= i < 64,
{
    lemma_int_range(0, 64);
    lemma_len_subset(bits_of(b), set_int_range(0, 64));
}

/// What an iterator has left is finite and holds at most 64 squares.
pub proof fn lemma_bits_finite_iter(it: BitBoardIterator)
    ensures
        it@.finite(),
        it@.len() <= 64,
{
    lemma_bits_finite(it.board);
}

proof fn lemma_bits_union(a: u64, b: u64)
    ensures
        bits_of(a | b) == bits_of(a).union(bits_of(b)),
{
    assert forall|i: int| 0 <= i < 64 implies bit(a | b, i) == (bit(a, i) || bit(b, i)) by {
        lemma_bit_or(a, b, i as u64);
    }
    assert(bits_of(a | b) =~= bits_of(a).union(bits_of(b)));
}

proof fn lemma_bits_intersect(a: u64, b: u64)
    ensures
        bits_of(a & b) == bits_of(a).intersect(bits_of(b)),
{
    assert forall|i: int| 0 <= i < 64 implies bit(a & b, i) == (bit(a, i) && bit(b, i)) by {
        lemma_bit_and(a, b, i as u64);
    }
    assert(bits_of(a & b) =~= bits_of(a).intersect(bits_of(b)));
}

proof fn lemma_bits_difference(a: u64, b: u64)
    ensures
        bits_of(a & !b) == bits_of(a).difference(bits_of(b)),
{
    assert forall|i: int| 0 <= i < 64 implies bit(a & !b, i) == (bit(a, i) && !bit(b, i)) by {
        lemma_bit_and_not(a, b, i as u64);
    }
    assert(bits_of(a & !b) =~= bits_of(a).difference(bits_of(b)));
}

proof fn lemma_bits_single(k: u64)
    requires
        k < 64,
    ensures
        bits_of(1u64 << k) == set![k as int],
{
    assert forall|i: int| 0 <= i < 64 implies bit(1u64 << k, i) == (i == k) by {
        lemma_bit_single(k, i as u64);
    }
    assert(bits_of(1u64 << k) =~= set![k as int]);
}

proof fn lemma_bits_empty()
    ensures
        bits_of(0u64) == Set::<int>::empty(),
{
    assert forall|i: int| 0 <= i < 64 implies !bit(0u64, i) by {
        lemma_bit_zero(i as u64);
    }
    assert(bits_of(0u64) =~= Set::<int>::empty());
}

/// Splits off the lowest set bit of a non-zero `a`.
proof fn lemma_lowest_bit(a: u64)
    requires
        a != 0,
    ensures
        ({
            let t = u64_trailing_zeros(a) as int;
            &&& 0 <= t < 64
            &&& bits_of(a).contains(t)
            &&& forall|j: int| #[trigger] bits_of(a).contains(j) ==> t <= j
            &&& bits_of(a ^ (1u64 << (t as u64))) == bits_of(a).remove(t)
        }),
{
    axiom_u64_trailing_zeros(a);
    let t = u64_trailing_zeros(a) as u64;
    assert forall|j: int| #[trigger] bits_of(a).contains(j) implies t <= j by {
        if j < t {
            assert((a >> (j as u64)) & 1u64 == 0u64);
        }
    }
    lemma_clear_lowest(a, t);
    lemma_bits_single(t);
    lemma_bits_difference(a, 1u64 << t);
    assert(bits_of(a).difference(set![t as int]) =~= bits_of(a).remove(t as int));
}

/// A set of squares, one bit per square: bit `i` stands for the square with index `i`.
#[derive(Debug, Clone, Copy)]
pub struct BitBoard {
    board: u64,
}

impl View for BitBoard {
    type V = Set<int>;

    closed spec fn view(&self) -> Set<int> {
        bits_of(self.board)
    }
}

impl BitBoard {
    /// Every bit board holds finitely many squares, all with indices in `0..64`.
    pub proof fn lemma_finite(self)
        ensures
            self@.finite(),
            self@.len() <= 64,
            forall|i: int| #[trigger] self@.contains(i) ==> 0 <= i < 64,
    {
        lemma_bits_finite(self.board);
    }

    pub fn empty() -> (r: Self)
        ensures
            r@ == Set::<int>::empty(),
    {
        proof {
            lemma_bits_empty();
        }
        BitBoard { board: 0 }
    }

    pub fn is_empty(&self) -> (r: bool)
        ensures
            r == (self@ == Set::<int>::empty()),
    {
        proof {
            lemma_bits_empty();
            if self.board != 0 {
                lemma_lowest_bit(self.board);
            }
        }
        self.board == 0
    }

    pub fn contains(&self, pos: Pos) -> (r: bool)
        ensures
            r == self@.contains(pos@),
    {
        let i = pos.index() as u64;
        (self.board >> i) & 1u64 == 1u64
    }

    /// The squares one column toward `a` of this set's squares; nothing wraps around
    /// the board's edge.
    pub fn shift_left(&self) -> (r: BitBoard)
        ensures
            r@ == shifted_left(self@),
    {
        let r = BitBoard { board: self.board >> 8u64 };
        proof {
            assert forall|i: int| 0 <= i < 64 implies bit(r.board, i) == (i < 56 && bit(
                self.board,
                i + 8,
            )) by {
                lemma_bit_shr8(self.board, i as u64);
            }
            assert(r@ =~= shifted_left(self@));
        }
        r
    }

    /// The squares one column toward `h` of this set's squares; nothing wraps around
    /// the board's edge.
    pub fn shift_right(&self) -> (r: BitBoard)
        ensures
            r@ == shifted_right(self@),
    {
        let r = BitBoard { board: self.board << 8u64 };
        proof {
            assert forall|i: int| 0 <= i < 64 implies bit(r.board, i) == (i >= 8 && bit(
                self.board,
                i - 8,
            )) by {
                lemma_bit_shl8(self.board, i as u64);
            }
            assert(r@ =~= shifted_right(self@));
        }
        r
    }

    pub fn intersect(&self, board: BitBoard) -> (r: BitBoard)
        ensures
            r@ == self@.intersect(board@),
    {
        proof {
            lemma_bits_intersect(self.board, board.board);
        }
        BitBoard { board: self.board & board.board }
    }

    pub fn union(&self, board: BitBoard) -> (r: BitBoard)
        ensures
            r@ == self@.union(board@),
    {
        proof {
            lemma_bits_union(self.board, board.board);
        }
        BitBoard { board: self.board | board.board }
    }

    pub fn difference(&self, board: BitBoard) -> (r: BitBoard)
        ensures
            r@ == self@.difference(board@),
    {
        proof {
            lemma_bits_difference(self.board, board.board);
        }
        BitBoard { board: self.board & !board.board }
    }

    pub fn insert(&mut self, pos: Pos)
        ensures
            final(self)@ == old(self)@.insert(pos@),
    {
        let k = pos.index() as u64;
        proof {
            lemma_bits_single(k);
            lemma_bits_union(self.board, 1u64 << k);
        }
        self.board = self.board | (1u64 << k);
    }

    pub fn remove(&mut self, pos: Pos)
        ensures
            final(self)@ == old(self)@.remove(pos@),
    {
        let k = pos.index() as u64;
        proof {
            lemma_bits_single(k);
            lemma_bits_difference(self.board, 1u64 << k);
            assert(bits_of(self.board).difference(set![k as int]) =~= bits_of(self.board).remove(
                k as int,
            ));
        }
        self.board = self.board & !(1u64 << k);
    }

    /// The number of squares in the set.
    pub fn bit_count(&self) -> (r: usize)
        ensures
            r == self@.len(),
    {
        let mut it = self.set_positions();
        let mut n: usize = 0;
        proof {
            self.lemma_finite();
        }
        while it.has_next()
            invariant
                it@.finite(),
                n + it@.len() == self@.len(),
                self@.len() <= 64,
            decreases it@.len(),
        {
            it.next();
            n = n + 1;
        }
        n
    }

    /// The squares of this set, lowest index first.
    pub fn set_positions(&self) -> (r: BitBoardIterator)
        ensures
            r@ == self@,
    {
        BitBoardIterator { board: self.board }
    }
}

/// Walks the squares of a bit board from the lowest index up, taking the lowest set bit
/// each time.
#[derive(Debug, Clone, Copy)]
pub struct BitBoardIterator {
    board: u64,
}

impl View for BitBoardIterator {
    type V = Set<int>;

    /// The squares not yet returned.
    closed spec fn view(&self) -> Set<int> {
        bits_of(self.board)
    }
}

impl BitBoardIterator {
    /// Whether squares are left.
    pub fn has_next(&self) -> (r: bool)
        ensures
            r == (self@ != Set::<int>::empty()),
            self@.finite(),
    {
        proof {
            lemma_bits_finite(self.board);
            lemma_bits_empty();
            if self.board != 0 {
                lemma_lowest_bit(self.board);
            }
        }
        self.board != 0
    }

    /// Returns the lowest square not yet returned, or `None` once all are.
    pub fn next(&mut self) -> (r: Option<Pos>)
        ensures
            old(self)@.finite(),
            final(self)@.finite(),
            old(self)@ == Set::<int>::empty() ==> r is None && final(self)@ == old(self)@,
            old(self)@ != Set::<int>::empty() ==> {
                &&& r is Some
                &&& old(self)@.contains(r->0@)
                &&& forall|j: int| #[trigger] old(self)@.contains(j) ==> r->0@ <= j
                &&& final(self)@ == old(self)@.remove(r->0@)
                &&& final(self)@.len() + 1 == old(self)@.len()
            },
    {
        proof {
            lemma_bits_finite(self.board);
            lemma_bits_empty();
        }
        let i = self.board.trailing_zeros();
        if i == 64 {
            proof {
                axiom_u64_trailing_zeros(self.board);
            }
            None
        } else {
            proof {
                axiom_u64_trailing_zeros(self.board);
                lemma_lowest_bit(self.board);
            }
            self.board = self.board ^ (1u64 << (i as u64));
            proof {
                lemma_bits_finite(self.board);
            }
            Some(Pos::from_index(i as usize))
        }
    }
}

} // verus!
