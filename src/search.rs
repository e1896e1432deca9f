use vstd::prelude::*;

use crate::board::{Board, BoardView};
use crate::moves::{MoveSet, generate_pseudo_legal_moves, pairs_of};
use crate::piece::{Color, kind_score, other};
use crate::rules::{is_move, lemma_move_list_contains, move_list, reach};

verus! {

/// The value of a won position; a lost one is its negation.
pub const WIN_SCORE: i64 = 10000;

/// No value that the search computes reaches this bound in size.
pub open spec fn value_bound() -> int {
    64int * 641int
}

/// The material of side `c` on the squares below `n`.
pub open spec fn material_upto(v: BoardView, c: Color, n: int) -> int
    decreases n,
{
    if n <= 0 {
        0
    } else {
        material_upto(v, c, n - 1) + if v.occupied(c).contains(n - 1) {
            kind_score(v.pieces[n - 1].kind)
        } else {
            0
        }
    }
}

/// The material of side `c`: the scores of all its pieces.
pub open spec fn material(v: BoardView, c: Color) -> int {
    material_upto(v, c, 64)
}

/// Whether the side to move can take the opponent's king now.
pub open spec fn king_in_reach(v: BoardView) -> bool {
    let o = other(v.to_move);
    v.has_king(o) && reach(v, v.to_move).contains(v.king_square(o))
}

/// The value of position `v` for the side to move, searched `d` plies deep: at depth 0
/// its material; with no move a loss; with the opponent's king in reach a win; else the
/// best, over its moves, of the negated value of the position after the move.
pub open spec fn negamax(v: BoardView, d: nat) -> int
    decreases d, 0int,
{
    if d == 0 {
        material(v, v.to_move)
    } else if move_list(v, v.to_move).len() == 0 {
        -WIN_SCORE
    } else if king_in_reach(v) {
        WIN_SCORE as int
    } else {
        let ml = move_list(v, v.to_move);
        best_child(v, (d - 1) as nat, ml, ml.len() as int)
    }
}

/// The value of the position after move `m`, for the side that played it, searched `e`
/// plies deep.
pub open spec fn child_value(v: BoardView, e: nat, m: (int, int)) -> int
    decreases e, 1int,
{
    -negamax(v.apply(m.0, m.1), e)
}

/// The best child value over the first `k` moves of `ms` (the least `i64` for none).
pub open spec fn best_child(v: BoardView, e: nat, ms: Seq<(int, int)>, k: int) -> int
    decreases e, k + 2,
{
    if k <= 0 {
        i64::MIN as int
    } else {
        let prev = best_child(v, e, ms, k - 1);
        let cur = child_value(v, e, ms[k - 1]);
        if cur > prev {
            cur
        } else {
            prev
        }
    }
}

proof fn lemma_material_bound(v: BoardView, c: Color, n: int)
    requires
        0 <= n <= 64,
    ensures
        0 <= material_upto(v, c, n) <= 641 * n,
    decreases n,
{
    if n > 0 {
        lemma_material_bound(v, c, n - 1);
    }
}

/// Every search value stays within `value_bound()` in size.
pub proof fn lemma_negamax_bound(v: BoardView, d: nat)
    ensures
        -value_bound() <= negamax(v, d) <= value_bound(),
    decreases d, 0int,
{
    if d == 0 {
        lemma_material_bound(v, v.to_move, 64);
    } else if move_list(v, v.to_move).len() != 0 && !king_in_reach(v) {
        let ml = move_list(v, v.to_move);
        lemma_best_child_bound(v, (d - 1) as nat, ml, ml.len() as int);
    }
}

proof fn lemma_best_child_bound(v: BoardView, e: nat, ms: Seq<(int, int)>, k: int)
    requires
        1 <= k <= ms.len(),
    ensures
        -value_bound() <= best_child(v, e, ms, k) <= value_bound(),
    decreases e, k + 2,
{
    lemma_negamax_bound(v.apply(ms[k - 1].0, ms[k - 1].1), e);
    assert(child_value(v, e, ms[k - 1]) == -negamax(v.apply(ms[k - 1].0, ms[k - 1].1), e));
    if k > 1 {
        lemma_best_child_bound(v, e, ms, k - 1);
    }
}

/// The best over more moves is no smaller, and no smaller than any of their values.
proof fn lemma_best_child_mono(v: BoardView, e: nat, ms: Seq<(int, int)>, j: int, k: int)
    requires
        0 <= j <= k,
    ensures
        best_child(v, e, ms, j) <= best_child(v, e, ms, k),
        j < k ==> child_value(v, e, ms[j]) <= best_child(v, e, ms, k),
    decreases k - j,
{
    if j < k {
        lemma_best_child_mono(v, e, ms, j + 1, k);
    }
}

/// The material of side `color`.
pub fn material_of(board: &Board, color: Color) -> (r: i64)
    ensures
        r == material(board@, color),
        0 <= r <= value_bound(),
{
    let mut sum: i64 = 0;
    let mut i: usize = 0;
    while i < 64
        invariant
            i <= 64,
            sum == material_upto(board@, color, i as int),
            0 <= sum <= 641 * i,
        decreases 64 - i,
    {
        let p = board.piece_at(crate::pos::Pos::from_index(i));
        if !p.is_none() && p.color == color {
            sum = sum + p.kind.score();
        }
        i = i + 1;
    }
    sum
}

/// Whether the side to move of `moves`' position can take the opponent's king now.
pub fn king_reachable(board: &Board, moves: &MoveSet) -> (r: bool)
    requires
        moves.board() == board@,
        moves.side() == board@.to_move,
    ensures
        r == king_in_reach(board@),
{
    let o = board.to_move().opponent();
    board.has_king(o) && moves.all_dst_positions().contains(board.king_pos(o))
}

/// Every move of the side to move's list can be played on its position.
pub proof fn lemma_playable(v: BoardView, ml: Seq<(int, int)>, i: int)
    requires
        ml == move_list(v, v.to_move),
        0 <= i < ml.len(),
    ensures
        v.occupied(v.to_move).contains(ml[i].0),
        ml[i].0 != ml[i].1,
        is_move(v, v.to_move, ml[i].0, ml[i].1),
{
    assert(ml.contains(ml[i]));
    lemma_move_list_contains(v, v.to_move, ml[i].0, ml[i].1);
}

/// Searches `board` `depth` plies deep and returns its value for the side to move.
pub fn minimax(board: &Board, depth: usize) -> (r: i64)
    ensures
        r == negamax(board@, depth as nat),
    decreases depth,
{
    if depth == 0 {
        return material_of(board, board.to_move());
    }
    let moves = generate_pseudo_legal_moves(board);
    if moves.is_empty() {
        return -WIN_SCORE;
    }
    if king_reachable(board, &moves) {
        return WIN_SCORE;
    }
    let list = moves.to_vec();
    let ghost v = board@;
    let ghost ml = move_list(v, v.to_move);
    let mut best: i64 = i64::MIN;
    let mut i: usize = 0;
    while i < list.len()
        invariant
            v == board@,
            depth > 0,
            ml == move_list(v, v.to_move),
            pairs_of(list@) == ml,
            i <= list@.len(),
            best == best_child(v, (depth - 1) as nat, ml, i as int),
        decreases list@.len() - i,
    {
        let mov = list[i];
        proof {
            assert(pairs_of(list@)[i as int] == (mov.src@, mov.dst@));
            lemma_playable(v, ml, i as int);
        }
        let child = board.with_move(mov);
        let val = minimax(&child, depth - 1);
        proof {
            lemma_negamax_bound(child@, (depth - 1) as nat);
        }
        let score = -val;
        proof {
            let cv = child_value(v, (depth - 1) as nat, ml[i as int]);
            assert(cv == score);
            assert(best_child(v, (depth - 1) as nat, ml, i + 1) == if cv > best { cv } else { best as int });
        }
        if score > best {
            best = score;
        }
        i = i + 1;
    }
    best
}

/// What alpha-beta search promises of its result `r` for window `(alpha, beta)`: `r` is
/// the exact value `t` when inside the window, and a bound on the side of the window it
/// fell out of otherwise. `t` is the position's value for the maximising side.
pub open spec fn alpha_beta_result(v: BoardView, d: nat, alpha: int, beta: int, is_max: bool, r: int) -> bool {
    let t = if is_max {
        negamax(v, d)
    } else {
        -negamax(v, d)
    };
    &&& r <= alpha ==> t <= r
    &&& r >= beta ==> t >= r
    &&& alpha < r < beta ==> r == t
}

/// Alpha-beta search of `board`, `depth` plies deep, in the window `(alpha, beta)`,
/// for the maximising side when `is_max` and the minimising one otherwise.
pub fn alpha_beta(board: &Board, depth: usize, alpha: i64, beta: i64, is_max: bool) -> (r: i64)
    ensures
        alpha < beta ==> alpha_beta_result(
            board@,
            depth as nat,
            alpha as int,
            beta as int,
            is_max,
            r as int,
        ),
    decreases depth,
{
    let sign: i64 = if is_max {
        1
    } else {
        -1
    };
    if depth == 0 {
        let m = material_of(board, board.to_move());
        return m * sign;
    }
    let moves = generate_pseudo_legal_moves(board);
    if moves.is_empty() {
        return -WIN_SCORE * sign;
    }
    if king_reachable(board, &moves) {
        return WIN_SCORE * sign;
    }
    let list = moves.to_vec();
    let ghost v = board@;
    let ghost e = (depth - 1) as nat;
    let ghost ml = move_list(v, v.to_move);
    let ghost n = negamax(v, depth as nat);
    assert(n == best_child(v, e, ml, ml.len() as int));
    if is_max {
        let mut best: i64 = i64::MIN;
        let mut a = alpha;
        let mut i: usize = 0;
        while i < list.len()
            invariant_except_break
                alpha < beta ==> best < beta,
                alpha < beta ==> best > alpha ==> best == best_child(v, e, ml, i as int),
                alpha < beta ==> best <= alpha ==> best_child(v, e, ml, i as int) <= best,
            invariant
                a == (if alpha > best { alpha } else { best }),
                v == board@,
                depth > 0,
                e == depth - 1,
                ml == move_list(v, v.to_move),
                pairs_of(list@) == ml,
                n == best_child(v, e, ml, ml.len() as int),
                i <= list@.len(),
            ensures
                alpha < beta ==> best >= beta ==> n >= best,
                alpha < beta ==> best < beta ==> (best > alpha ==> best == n) && (best <= alpha
                    ==> n <= best),
            decreases list@.len() - i,
        {
            let mov = list[i];
            proof {
                assert(pairs_of(list@)[i as int] == (mov.src@, mov.dst@));
                lemma_playable(v, ml, i as int);
            }
            let child = board.with_move(mov);
            let val = alpha_beta(&child, depth - 1, a, beta, false);
            proof {
                let cv = child_value(v, e, ml[i as int]);
                let prev = best_child(v, e, ml, i as int);
                assert(cv == -negamax(child@, e));
                assert(best_child(v, e, ml, i + 1) == if cv > prev { cv } else { prev });
            }
            if val > best {
                best = val;
            }
            if best > a {
                a = best;
            }
            i = i + 1;
            if best >= beta {
                proof {
                    lemma_best_child_mono(v, e, ml, (i - 1) as int, ml.len() as int);
                }
                break;
            }
        }
        best
    } else {
        let mut worst: i64 = i64::MAX;
        let mut b = beta;
        let mut i: usize = 0;
        while i < list.len()
            invariant_except_break
                alpha < beta ==> worst > alpha,
                alpha < beta ==> worst < beta ==> worst == -best_child(v, e, ml, i as int),
                alpha < beta ==> worst >= beta ==> -best_child(v, e, ml, i as int) >= worst,
            invariant
                b == (if beta < worst { beta } else { worst }),
                v == board@,
                depth > 0,
                e == depth - 1,
                ml == move_list(v, v.to_move),
                pairs_of(list@) == ml,
                n == best_child(v, e, ml, ml.len() as int),
                i <= list@.len(),
            ensures
                alpha < beta ==> worst <= alpha ==> -n <= worst,
                alpha < beta ==> worst > alpha ==> (worst < beta ==> worst == -n) && (worst
                    >= beta ==> -n >= worst),
            decreases list@.len() - i,
        {
            let mov = list[i];
            proof {
                assert(pairs_of(list@)[i as int] == (mov.src@, mov.dst@));
                lemma_playable(v, ml, i as int);
            }
            let child = board.with_move(mov);
            let val = alpha_beta(&child, depth - 1, alpha, b, true);
            proof {
                let cv = child_value(v, e, ml[i as int]);
                let prev = best_child(v, e, ml, i as int);
                assert(cv == -negamax(child@, e));
                assert(best_child(v, e, ml, i + 1) == if cv > prev { cv } else { prev });
            }
            if val < worst {
                worst = val;
            }
            if worst < b {
                b = worst;
            }
            i = i + 1;
            if worst <= alpha {
                proof {
                    lemma_best_child_mono(v, e, ml, (i - 1) as int, ml.len() as int);
                }
                break;
            }
        }
        worst
    }
}

/// With the widest window, alpha-beta search gives exactly the minimax value: any result
/// that meets its promise for `(i64::MIN, i64::MAX)` is `negamax(v, d)` at a maximising
/// node and its negation at a minimising one.
pub proof fn lemma_alpha_beta_full_window(v: BoardView, d: nat, is_max: bool, r: int)
    requires
        i64::MIN <= r <= i64::MAX,
        alpha_beta_result(v, d, i64::MIN as int, i64::MAX as int, is_max, r),
    ensures
        r == (if is_max {
            negamax(v, d)
        } else {
            -negamax(v, d)
        }),
{
    lemma_negamax_bound(v, d);
}

} // verus!
