use vstd::prelude::*;

use crate::board::{Board, BoardView};
use crate::moves::{Move, generate_pseudo_legal_moves_for_color};
use crate::piece::{PieceKind, kind_upper_char, other};
use crate::pos::{Pos, square_name};
use crate::rules::reach;

verus! {

/// A move in short algebraic form: the piece's letter (none for a pawn), the source
/// square, `x` for a capture, the destination square, and `+` when the mover could take
/// the opponent's king next.
pub open spec fn san_text(kind: PieceKind, src: int, capture: bool, dst: int, check: bool) -> Seq<char> {
    (if kind == PieceKind::Pawn {
        Seq::empty()
    } else {
        seq![kind_upper_char(kind)]
    }) + square_name(src) + (if capture {
        seq!['x']
    } else {
        Seq::empty()
    }) + square_name(dst) + (if check {
        seq!['+']
    } else {
        Seq::empty()
    })
}

/// Whether, after the move from `s` to `t`, the side that made it could take the
/// opponent's king.
pub open spec fn checks_after(v: BoardView, s: int, t: int) -> bool {
    let w = v.apply(s, t);
    let o = other(v.to_move);
    w.has_king(o) && reach(w, v.to_move).contains(w.king_square(o))
}

fn letter_text(kind: PieceKind) -> (r: &'static str)
    ensures
        r@ == seq![kind_upper_char(kind)],
{
    match kind {
        PieceKind::Empty => {
            proof { reveal_strlit("."); }
            "."
        },
        PieceKind::Pawn => {
            proof { reveal_strlit("P"); }
            "P"
        },
        PieceKind::Rook => {
            proof { reveal_strlit("R"); }
            "R"
        },
        PieceKind::Knight => {
            proof { reveal_strlit("N"); }
            "N"
        },
        PieceKind::Bishop => {
            proof { reveal_strlit("B"); }
            "B"
        },
        PieceKind::Queen => {
            proof { reveal_strlit("Q"); }
            "Q"
        },
        PieceKind::King => {
            proof { reveal_strlit("K"); }
            "K"
        },
    }
}

/// The parts of a move's short algebraic form.
#[derive(Debug, Clone, Copy)]
pub struct SanToken {
    pub kind: PieceKind,
    pub src: Pos,
    pub dst: Pos,
    pub is_capture: bool,
    pub is_check: bool,
}

impl SanToken {
    pub fn new() -> (r: SanToken)
        ensures
            r.kind == PieceKind::King,
            r.src@ == 0,
            r.dst@ == 0,
            !r.is_capture,
            !r.is_check,
    {
        SanToken {
            kind: PieceKind::King,
            src: Pos::from_index(0),
            dst: Pos::from_index(0),
            is_capture: false,
            is_check: false,
        }
    }

    pub fn to_string(&self) -> (r: String)
        ensures
            r@ == san_text(self.kind, self.src@, self.is_capture, self.dst@, self.is_check),
    {
        let mut r = String::new();
        if self.kind != PieceKind::Pawn {
            r.append(letter_text(self.kind));
        }
        let src = self.src.to_string();
        r.append(src.as_str());
        if self.is_capture {
            proof { reveal_strlit("x"); }
            r.append("x");
        }
        let dst = self.dst.to_string();
        r.append(dst.as_str());
        if self.is_check {
            proof { reveal_strlit("+"); }
            r.append("+");
        }
        assert(r@ =~= san_text(self.kind, self.src@, self.is_capture, self.dst@, self.is_check));
        r
    }
}

impl Move {
    /// The move's short algebraic form on `board`, or `None` when it cannot be played
    /// there.
    pub fn san(&self, board: &Board) -> (r: Option<SanToken>)
        ensures
            r is Some <==> (board@.occupied(board@.to_move).contains(self.src@) && self.src@
                != self.dst@),
            r matches Some(t) ==> {
                &&& t.kind == board@.pieces[self.src@].kind
                &&& t.src == self.src
                &&& t.dst == self.dst
                &&& t.is_capture == (board@.pieces[self.dst@].kind != PieceKind::Empty)
                &&& t.is_check == checks_after(board@, self.src@, self.dst@)
            },
    {
        match board.play(*self) {
            None => None,
            Some(after) => {
                let mover = board.to_move();
                let o = mover.opponent();
                let is_check = after.has_king(o) && generate_pseudo_legal_moves_for_color(
                    &after,
                    mover,
                ).all_dst_positions().contains(after.king_pos(o));
                Some(
                    SanToken {
                        kind: board.piece_at(self.src).kind,
                        src: self.src,
                        dst: self.dst,
                        is_capture: !board.piece_at(self.dst).is_none(),
                        is_check,
                    },
                )
            },
        }
    }
}

impl Board {
    /// The move's short algebraic form without the check mark.
    pub fn san(&self, mov: Move) -> (r: String)
        ensures
            r@ == san_text(
                self@.pieces[mov.src@].kind,
                mov.src@,
                self@.pieces[mov.dst@].kind != PieceKind::Empty,
                mov.dst@,
                false,
            ),
    {
        let token = SanToken {
            kind: self.piece_at(mov.src).kind,
            src: mov.src,
            dst: mov.dst,
            is_capture: !self.piece_at(mov.dst).is_none(),
            is_check: false,
        };
        token.to_string()
    }
}

} // verus!
