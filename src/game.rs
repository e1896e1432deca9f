use vstd::prelude::*;

use crate::board::{Board, BoardView};
use crate::moves::MoveSet;
use crate::piece::{Color, other};
use crate::rules::move_list;
use crate::search::{king_in_reach, king_reachable};

verus! {

/// Who has won before the side to move chooses its move: the opponent when that side has
/// lost its king or has no move, that side itself when the opponent's king is in reach;
/// nobody yet otherwise.
pub open spec fn decided(v: BoardView) -> Option<Color> {
    if !v.has_king(v.to_move) {
        Some(other(v.to_move))
    } else if king_in_reach(v) {
        Some(v.to_move)
    } else if move_list(v, v.to_move).len() == 0 {
        Some(other(v.to_move))
    } else {
        None
    }
}

/// The winner, if the game on `board` is already decided; `moves` are the side to
/// move's moves.
pub fn winner(board: &Board, moves: &MoveSet) -> (r: Option<Color>)
    requires
        moves.board() == board@,
        moves.side() == board@.to_move,
    ensures
        r == decided(board@),
{
    let side = board.to_move();
    if !board.has_king(side) {
        Some(side.opponent())
    } else if king_reachable(board, moves) {
        Some(side)
    } else if moves.is_empty() {
        Some(side.opponent())
    } else {
        None
    }
}

} // verus!
