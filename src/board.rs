use vstd::prelude::*;
use vstd::set_lib::{lemma_int_range, lemma_len_subset, set_int_range};

use crate::bitboard::BitBoard;
use crate::piece::{Color, Piece, PieceKind, color_index, other};
use crate::rules::is_move;
use crate::moves::Move;
use crate::pos::Pos;

verus! {

/// An empty square.
pub open spec fn empty_piece() -> Piece {
    Piece { kind: PieceKind::Empty, color: Color::White }
}

pub open spec fn is_king_of(p: Piece, c: Color) -> bool {
    p.kind == PieceKind::King && p.color == c
}

/// What a position is: the piece on each of the 64 squares and the side to move.
pub struct BoardView {
    pub pieces: Seq<Piece>,
    pub to_move: Color,
}

impl BoardView {
    /// The squares holding a piece of side `c`.
    pub open spec fn occupied(self, c: Color) -> Set<int> {
        Set::new(
            |s: int| 0 <= s < 64 && self.pieces[s].kind != PieceKind::Empty && self.pieces[s].color == c,
        )
    }

    /// Whether side `c` still has a king on the board.
    pub open spec fn has_king(self, c: Color) -> bool {
        exists|s: int| 0 <= s < 64 && #[trigger] is_king_of(self.pieces[s], c)
    }

    /// Whether `s` holds a king of side `c` and no higher square does.
    pub open spec fn is_last_king(self, c: Color, s: int) -> bool {
        &&& 0 <= s < 64
        &&& is_king_of(self.pieces[s], c)
        &&& forall|j: int| s < j < 64 ==> !#[trigger] is_king_of(self.pieces[j], c)
    }

    /// The square of side `c`'s king (the highest one, should there be several);
    /// meaningful only when `has_king(c)`.
    pub open spec fn king_square(self, c: Color) -> int {
        choose|s: int| self.is_last_king(c, s)
    }

    /// The position after the piece on `s` moves to `t`, taking whatever stood there.
    pub open spec fn apply(self, s: int, t: int) -> BoardView {
        BoardView {
            pieces: self.pieces.update(t, self.pieces[s]).update(s, empty_piece()),
            to_move: other(self.to_move),
        }
    }
}

/// Each side's occupancy is finite, at most 64 squares.
pub proof fn lemma_occupied_finite(v: BoardView, c: Color)
    ensures
        v.occupied(c).finite(),
        v.occupied(c).len() <= 64,
{
    lemma_int_range(0, 64);
    lemma_len_subset(v.occupied(c), set_int_range(0, 64));
}

/// A square is empty exactly when neither side's occupancy holds it, and a square with
/// a piece is in exactly one side's occupancy.
pub proof fn lemma_occupancy_partition(v: BoardView, s: int)
    requires
        0 <= s < 64,
    ensures
        v.pieces[s].kind == PieceKind::Empty <==> (!v.occupied(Color::White).contains(s)
            && !v.occupied(Color::Black).contains(s)),
        v.pieces[s].kind != PieceKind::Empty ==> (v.occupied(Color::White).contains(s)
            != v.occupied(Color::Black).contains(s)),
{
}

/// Playing a pseudo-legal move keeps the number of the mover's pieces and never adds to
/// the opponent's.
pub proof fn lemma_play_counts(v: BoardView, s: int, t: int)
    requires
        v.pieces.len() == 64,
        is_move(v, v.to_move, s, t),
    ensures
        v.apply(s, t).occupied(v.to_move).len() == v.occupied(v.to_move).len(),
        v.apply(s, t).occupied(other(v.to_move)).len() <= v.occupied(other(v.to_move)).len(),
{
    let c = v.to_move;
    let w = v.apply(s, t);
    crate::rules::lemma_move_squares(v, c, s, t);
    lemma_occupied_finite(v, c);
    lemma_occupied_finite(v, other(c));
    assert(w.occupied(c) =~= v.occupied(c).remove(s).insert(t));
    assert(w.occupied(other(c)) =~= v.occupied(other(c)).remove(t));
}

/// A position: the piece on each square, the side to move, and two caches kept in
/// step with the pieces: each side's occupancy and each side's king square.
#[derive(Clone, Copy)]
pub struct Board {
    board: [Piece; 64],
    to_move: Color,
    kings: [Pos; 2],
    occupancy: [BitBoard; 2],
}

impl View for Board {
    type V = BoardView;

    closed spec fn view(&self) -> BoardView {
        BoardView { pieces: self.board@, to_move: self.to_move }
    }
}

/// The highest square holding a king of side `c` among the first `n` squares, if any.
spec fn kings_scanned(pieces: Seq<Piece>, n: int, c: Color) -> bool {
    exists|s: int| 0 <= s < n && #[trigger] is_king_of(pieces[s], c)
}

/// Whether `s` is the highest square below `n` holding a king of side `c`.
spec fn is_last_king_below(pieces: Seq<Piece>, n: int, c: Color, s: int) -> bool {
    &&& 0 <= s < n
    &&& is_king_of(pieces[s], c)
    &&& forall|j: int| s < j < n ==> !#[trigger] is_king_of(pieces[j], c)
}

impl Board {
    #[verifier::type_invariant]
    spec fn inv(self) -> bool {
        &&& self.occupancy[0]@ == self@.occupied(Color::White)
        &&& self.occupancy[1]@ == self@.occupied(Color::Black)
        &&& self@.has_king(Color::White) ==> self@.is_last_king(
            Color::White,
            self.kings[0]@,
        )
        &&& self@.has_king(Color::Black) ==> self@.is_last_king(
            Color::Black,
            self.kings[1]@,
        )
    }

    /// The board's pieces are 64 squares.
    pub proof fn lemma_len(self)
        ensures
            self@.pieces.len() == 64,
    {
    }

    /// Finds each side's highest king square in `pieces`, keeping `kings` for a side
    /// without a king.
    fn scan_kings(pieces: &[Piece; 64], kings: [Pos; 2]) -> (r: [Pos; 2])
        ensures
            forall|c: Color|
                #![trigger color_index(c)]
                kings_scanned(pieces@, 64, c) ==> is_last_king_below(
                    pieces@,
                    64,
                    c,
                    r@[color_index(c)]@,
                ),
    {
        let mut r = kings;
        let mut i: usize = 0;
        while i < 64
            invariant
                i <= 64,
                forall|c: Color|
                    #![trigger color_index(c)]
                    kings_scanned(pieces@, i as int, c) ==> is_last_king_below(
                        pieces@,
                        i as int,
                        c,
                        r@[color_index(c)]@,
                    ),
            decreases 64 - i,
        {
            let p = pieces[i];
            if p.kind == PieceKind::King {
                let k = p.color.index();
                r[k] = Pos::from_index(i);
            }
            proof {
                assert forall|c: Color|
                    #![trigger color_index(c)]
                    kings_scanned(pieces@, i + 1, c) implies is_last_king_below(
                    pieces@,
                    i + 1,
                    c,
                    r@[color_index(c)]@,
                ) by {
                    if is_king_of(pieces@[i as int], c) {
                    } else {
                        let s = choose|s: int| 0 <= s < i + 1 && #[trigger] is_king_of(pieces@[s], c);
                        assert(kings_scanned(pieces@, i as int, c));
                    }
                }
            }
            i = i + 1;
        }
        r
    }

    /// Each side's occupancy in `pieces`.
    fn scan_occupancy(pieces: &[Piece; 64]) -> (r: (BitBoard, BitBoard))
        ensures
            r.0@ == (BoardView { pieces: pieces@, to_move: Color::White }).occupied(Color::White),
            r.1@ == (BoardView { pieces: pieces@, to_move: Color::White }).occupied(Color::Black),
    {
        let ghost v = BoardView { pieces: pieces@, to_move: Color::White };
        let mut white = BitBoard::empty();
        let mut black = BitBoard::empty();
        let mut i: usize = 0;
        while i < 64
            invariant
                i <= 64,
                v.pieces == pieces@,
                white@ == v.occupied(Color::White).intersect(Set::new(|s: int| s < i)),
                black@ == v.occupied(Color::Black).intersect(Set::new(|s: int| s < i)),
            decreases 64 - i,
        {
            let p = pieces[i];
            let pos = Pos::from_index(i);
            if p.kind != PieceKind::Empty {
                if p.color == Color::White {
                    white.insert(pos);
                } else {
                    black.insert(pos);
                }
            }
            i = i + 1;
            assert(white@ =~= v.occupied(Color::White).intersect(Set::new(|s: int| s < i)));
            assert(black@ =~= v.occupied(Color::Black).intersect(Set::new(|s: int| s < i)));
        }
        assert(white@ =~= v.occupied(Color::White));
        assert(black@ =~= v.occupied(Color::Black));
        (white, black)
    }

    /// The board with these pieces and this side to move, its caches computed afresh.
    pub(crate) fn from_pieces(pieces: [Piece; 64], to_move: Color) -> (r: Board)
        ensures
            r@ == (BoardView { pieces: pieces@, to_move }),
    {
        let (white, black) = Board::scan_occupancy(&pieces);
        let a1 = Pos::from_index(0);
        let kings = Board::scan_kings(&pieces, [a1, a1]);
        proof {
            let v = BoardView { pieces: pieces@, to_move };
            assert(v.occupied(Color::White) =~= (BoardView { pieces: pieces@, to_move: Color::White }).occupied(Color::White));
            assert(v.occupied(Color::Black) =~= (BoardView { pieces: pieces@, to_move: Color::White }).occupied(Color::Black));
            assert(color_index(Color::White) == 0);
            assert(color_index(Color::Black) == 1);
            if v.has_king(Color::White) {
                assert(kings_scanned(pieces@, 64, Color::White));
            }
            if v.has_king(Color::Black) {
                assert(kings_scanned(pieces@, 64, Color::Black));
            }
        }
        Board { board: pieces, to_move, kings, occupancy: [white, black] }
    }

    /// The board with no pieces, White to move.
    pub fn empty() -> (r: Board)
        ensures
            r@.pieces == Seq::new(64, |i: int| empty_piece()),
            r@.to_move == Color::White,
    {
        let pieces = [Piece::none(); 64];
        let r = Board::from_pieces(pieces, Color::White);
        assert(r@.pieces =~= Seq::new(64, |i: int| empty_piece()));
        r
    }

    pub fn to_move(&self) -> (r: Color)
        ensures
            r == self@.to_move,
    {
        self.to_move
    }

    pub fn piece_at(&self, pos: Pos) -> (r: Piece)
        ensures
            r == self@.pieces[pos@],
    {
        self.board[pos.index()]
    }

    /// The squares holding a piece of side `color`.
    pub fn pieces_for(&self, color: Color) -> (r: BitBoard)
        ensures
            r@ == self@.occupied(color),
    {
        proof {
            use_type_invariant(self);
        }
        self.occupancy[color.index()]
    }

    /// The cached square of `color`'s king; it names that king whenever `has_king(color)`.
    pub fn king_pos(&self, color: Color) -> (r: Pos)
        ensures
            self@.has_king(color) ==> r@ == self@.king_square(color),
    {
        proof {
            use_type_invariant(self);
            if self@.has_king(color) {
                let k = self.kings[color_index(color)]@;
                assert(self@.is_last_king(color, k));
                let c = self@.king_square(color);
                assert(self@.is_last_king(color, c));
                if c < k {
                    assert(!is_king_of(self@.pieces[k], color));
                } else if k < c {
                    assert(!is_king_of(self@.pieces[c], color));
                }
            }
        }
        self.kings[color.index()]
    }

    /// The position after `mov`: its piece leaves `src` and lands on `dst`, taking what
    /// stood there, and the other side is to move.
    pub fn with_move(&self, mov: Move) -> (r: Board)
        requires
            self@.occupied(self@.to_move).contains(mov.src@),
            mov.src@ != mov.dst@,
        ensures
            r@ == self@.apply(mov.src@, mov.dst@),
    {
        proof {
            use_type_invariant(self);
        }
        let src = mov.src.index();
        let dst = mov.dst.index();
        let mover = self.to_move;
        let mut pieces = self.board;
        pieces[dst] = pieces[src];
        pieces[src] = Piece::none();
        let mut own = self.occupancy[mover.index()];
        own.remove(mov.src);
        own.insert(mov.dst);
        let mut their = self.occupancy[mover.opponent().index()];
        their.remove(mov.dst);
        let kings = Board::scan_kings(&pieces, self.kings);
        let ghost v = self@.apply(mov.src@, mov.dst@);
        proof {
            assert(pieces@ =~= v.pieces);
            assert(own@ =~= v.occupied(mover));
            assert(their@ =~= v.occupied(other(mover)));
            if v.has_king(Color::White) {
                assert(kings_scanned(pieces@, 64, Color::White));
            }
            if v.has_king(Color::Black) {
                assert(kings_scanned(pieces@, 64, Color::Black));
            }
        }
        let occupancy = if mover == Color::White {
            [own, their]
        } else {
            [their, own]
        };
        Board { board: pieces, to_move: mover.opponent(), kings, occupancy }
    }

    /// Plays `mov` after checking it: `None` unless a piece of the side to move stands on
    /// `src` and `dst` is another square.
    pub fn play(&self, mov: Move) -> (r: Option<Board>)
        ensures
            r is Some <==> (self@.occupied(self@.to_move).contains(mov.src@) && mov.src@
                != mov.dst@),
            r is Some ==> r->0@ == self@.apply(mov.src@, mov.dst@),
    {
        let p = self.piece_at(mov.src);
        proof {
            mov.src.lemma_range();
        }
        if !p.is_none() && p.color == self.to_move && mov.src.index() != mov.dst.index() {
            Some(self.with_move(mov))
        } else {
            None
        }
    }

    /// Walks the occupied squares, lowest first, with their pieces.
    pub fn all_pieces(&self) -> (r: PieceIterator<'_>)
        ensures
            r.board() == self@,
            r.position() == 0,
    {
        PieceIterator { board: self, index: 0 }
    }

    /// Whether `color` still has a king: read from the board at the cached square.
    pub fn has_king(&self, color: Color) -> (r: bool)
        ensures
            r == self@.has_king(color),
    {
        proof {
            use_type_invariant(self);
        }
        let k = self.kings[color.index()];
        let p = self.piece_at(k);
        let r = p == Piece::new(PieceKind::King, color);
        proof {
            k.lemma_range();
            if r {
                assert(is_king_of(self@.pieces[k@], color));
            }
        }
        r
    }
}

/// Walks the occupied squares of a board, lowest first, with their pieces.
pub struct PieceIterator<'a> {
    board: &'a Board,
    index: usize,
}

impl<'a> PieceIterator<'a> {
    #[verifier::type_invariant]
    spec fn inv(self) -> bool {
        self.index <= 64
    }

    /// The position walked.
    pub closed spec fn board(self) -> BoardView {
        self.board@
    }

    /// The square the walk goes on from.
    pub closed spec fn position(self) -> int {
        self.index as int
    }

    /// Returns the next occupied square and its piece, or `None` when no square from
    /// the walk's position on holds a piece.
    pub fn next(&mut self) -> (r: Option<(Pos, Piece)>)
        ensures
            final(self).board() == old(self).board(),
            r is None <==> forall|s: int|
                old(self).position() <= s < 64 ==> (#[trigger] old(self).board().pieces[s]).kind
                    == PieceKind::Empty,
            r matches Some(e) ==> {
                &&& old(self).position() <= e.0@ < 64
                &&& e.1 == old(self).board().pieces[e.0@]
                &&& e.1.kind != PieceKind::Empty
                &&& forall|s: int|
                    old(self).position() <= s < e.0@ ==> (#[trigger] old(self).board().pieces[s]).kind
                        == PieceKind::Empty
                &&& final(self).position() == e.0@ + 1
            },
    {
        proof {
            use_type_invariant(&*self);
        }
        let ghost start = self.index as int;
        while self.index < 64 && self.board.piece_at(Pos::from_index(self.index)).is_none()
            invariant
                start <= self.index <= 64,
                self.board == old(self).board,
                forall|s: int| start <= s < self.index ==> (#[trigger] self.board@.pieces[s]).kind
                    == PieceKind::Empty,
            decreases 64 - self.index,
        {
            self.index = self.index + 1;
        }
        if self.index < 64 {
            let pos = Pos::from_index(self.index);
            self.index = self.index + 1;
            Some((pos, self.board.piece_at(pos)))
        } else {
            None
        }
    }
}

} // verus!
