use vstd::prelude::*;
use vstd::arithmetic::div_mod::{lemma_fundamental_div_mod, lemma_fundamental_div_mod_converse};

use crate::board::BoardView;
use crate::piece::{Color, PieceKind, other};
use crate::pos::{col_of, on_board, row_of, square};

verus! {

/// Every square holding a piece.
pub open spec fn all_occupied(v: BoardView) -> Set<int> {
    v.occupied(Color::White).union(v.occupied(Color::Black))
}

/// The square one step `(dx, dy)` away from column `x`, row `y`, as a set: empty when
/// that step leaves the board.
pub open spec fn step(x: int, y: int, dx: int, dy: int) -> Set<int> {
    if on_board(x + dx, y + dy) {
        set![square(x + dx, y + dy)]
    } else {
        Set::empty()
    }
}

/// The squares a sliding piece on `(x, y)` reaches in direction `(dx, dy)` within `n`
/// steps: every square up to the board's edge or up to the first occupied square,
/// which is included.
pub open spec fn ray(all: Set<int>, x: int, y: int, dx: int, dy: int, n: nat) -> Set<int>
    decreases n,
{
    if n == 0 || !on_board(x + dx, y + dy) {
        Set::empty()
    } else if all.contains(square(x + dx, y + dy)) {
        set![square(x + dx, y + dy)]
    } else {
        set![square(x + dx, y + dy)].union(ray(all, x + dx, y + dy, dx, dy, (n - 1) as nat))
    }
}

pub open spec fn rook_targets(all: Set<int>, x: int, y: int) -> Set<int> {
    ray(all, x, y, -1, 0, 7).union(ray(all, x, y, 1, 0, 7)).union(ray(all, x, y, 0, -1, 7)).union(
        ray(all, x, y, 0, 1, 7),
    )
}

pub open spec fn bishop_targets(all: Set<int>, x: int, y: int) -> Set<int> {
    ray(all, x, y, -1, -1, 7).union(ray(all, x, y, -1, 1, 7)).union(ray(all, x, y, 1, -1, 7)).union(
        ray(all, x, y, 1, 1, 7),
    )
}

pub open spec fn knight_targets(x: int, y: int) -> Set<int> {
    step(x, y, 2, 1).union(step(x, y, 1, 2)).union(step(x, y, -2, 1)).union(step(x, y, -1, 2)).union(
        step(x, y, 2, -1),
    ).union(step(x, y, 1, -2)).union(step(x, y, -2, -1)).union(step(x, y, -1, -2))
}

pub open spec fn king_targets(x: int, y: int) -> Set<int> {
    step(x, y, -1, -1).union(step(x, y, -1, 0)).union(step(x, y, -1, 1)).union(step(x, y, 0, -1)).union(
        step(x, y, 0, 1),
    ).union(step(x, y, 1, -1)).union(step(x, y, 1, 0)).union(step(x, y, 1, 1))
}

/// The direction in which side `c`'s pawns advance along the rows.
pub open spec fn pawn_dir(c: Color) -> int {
    if c == Color::White {
        1
    } else {
        -1
    }
}

/// The row on which side `c`'s pawns start, from where they may advance two squares.
pub open spec fn pawn_start(c: Color) -> int {
    if c == Color::White {
        1
    } else {
        6
    }
}

/// A pawn of side `c` on `(x, y)`: it takes diagonally forward onto an opponent's piece,
/// advances one square onto an empty square, and two from its starting row when both
/// squares are empty. A pawn on the last row does nothing.
pub open spec fn pawn_targets(v: BoardView, c: Color, x: int, y: int) -> Set<int> {
    let dir = pawn_dir(c);
    let all = all_occupied(v);
    if !on_board(x, y + dir) {
        Set::empty()
    } else {
        let captures = step(x, y + dir, -1, 0).union(step(x, y + dir, 1, 0)).intersect(
            v.occupied(other(c)),
        );
        let one = square(x, y + dir);
        let two = square(x, y + 2 * dir);
        let pushes = if all.contains(one) {
            Set::empty()
        } else if y == pawn_start(c) && on_board(x, y + 2 * dir) && !all.contains(two) {
            set![one, two]
        } else {
            set![one]
        };
        captures.union(pushes)
    }
}

/// The squares that the piece on `s` attacks or may move to, for side `c`, before its
/// own pieces are taken out.
pub open spec fn targets(v: BoardView, c: Color, s: int) -> Set<int> {
    let x = col_of(s);
    let y = row_of(s);
    let all = all_occupied(v);
    match v.pieces[s].kind {
        PieceKind::Empty => Set::empty(),
        PieceKind::Pawn => pawn_targets(v, c, x, y),
        PieceKind::Rook => rook_targets(all, x, y),
        PieceKind::Knight => knight_targets(x, y),
        PieceKind::Bishop => bishop_targets(all, x, y),
        PieceKind::Queen => bishop_targets(all, x, y).union(rook_targets(all, x, y)),
        PieceKind::King => king_targets(x, y),
    }
}

/// The destinations of the piece on `s` for side `c`: its targets but those that side's
/// own pieces hold.
pub open spec fn dests(v: BoardView, c: Color, s: int) -> Set<int> {
    targets(v, c, s).difference(v.occupied(c))
}

/// Whether moving the piece on `s` to `t` is a pseudo-legal move of side `c`.
pub open spec fn is_move(v: BoardView, c: Color, s: int, t: int) -> bool {
    v.occupied(c).contains(s) && dests(v, c, s).contains(t)
}

/// Every square that some pseudo-legal move of side `c` lands on.
pub open spec fn reach(v: BoardView, c: Color) -> Set<int> {
    Set::new(|t: int| exists|s: int| #[trigger] is_move(v, c, s, t))
}

/// Whether side `c` has no pseudo-legal move.
pub open spec fn no_moves(v: BoardView, c: Color) -> bool {
    forall|s: int, t: int| !#[trigger] is_move(v, c, s, t)
}

/// The place of move `(s, t)` in the order of generation: by source square, then by
/// destination square.
pub open spec fn move_code(s: int, t: int) -> int {
    s * 64 + t
}

/// Whether the move with code `k` is a pseudo-legal move of side `c`.
pub open spec fn move_at(v: BoardView, c: Color, k: int) -> bool {
    is_move(v, c, k / 64, k % 64)
}

/// The pseudo-legal moves of side `c` whose codes are `k` or more, in order.
pub open spec fn moves_from(v: BoardView, c: Color, k: int) -> Seq<(int, int)>
    decreases 4096 - k,
{
    if 0 <= k < 4096 {
        if move_at(v, c, k) {
            seq![(k / 64, k % 64)] + moves_from(v, c, k + 1)
        } else {
            moves_from(v, c, k + 1)
        }
    } else {
        Seq::empty()
    }
}

/// Every pseudo-legal move of side `c`, as (source, destination), in the order of
/// generation.
pub open spec fn move_list(v: BoardView, c: Color) -> Seq<(int, int)> {
    moves_from(v, c, 0)
}

/// A code splits into its source and destination squares.
pub proof fn lemma_code_split(k: int)
    requires
        0 <= k,
    ensures
        k == move_code(k / 64, k % 64),
        0 <= k % 64 < 64,
        0 <= k / 64,
{
    lemma_fundamental_div_mod(k, 64);
}

/// The code of `(s, t)` gives back `s` and `t`.
pub proof fn lemma_code(s: int, t: int)
    requires
        0 <= t < 64,
    ensures
        move_code(s, t) / 64 == s,
        move_code(s, t) % 64 == t,
{
    lemma_fundamental_div_mod_converse(move_code(s, t), 64, s, t);
}

/// Codes from `a` up to `b` that are no moves add nothing.
pub proof fn lemma_moves_from_skip(v: BoardView, c: Color, a: int, b: int)
    requires
        0 <= a <= b <= 4096,
        forall|k: int| a <= k < b ==> !#[trigger] move_at(v, c, k),
    ensures
        moves_from(v, c, a) == moves_from(v, c, b),
    decreases b - a,
{
    if a < b {
        lemma_moves_from_skip(v, c, a + 1, b);
    }
}

/// A move starts the list of moves from its own code.
pub proof fn lemma_moves_from_step(v: BoardView, c: Color, s: int, t: int)
    requires
        0 <= s < 64,
        0 <= t < 64,
        is_move(v, c, s, t),
    ensures
        moves_from(v, c, move_code(s, t)) == seq![(s, t)] + moves_from(v, c, move_code(s, t) + 1),
{
    lemma_code(s, t);
}

/// Only squares of the board move.
pub proof fn lemma_move_squares(v: BoardView, c: Color, s: int, t: int)
    requires
        is_move(v, c, s, t),
    ensures
        0 <= s < 64,
        0 <= t < 64,
{
    let x = col_of(s);
    let y = row_of(s);
    let all = all_occupied(v);
    assert(0 <= s < 64);
    lemma_ray_squares(all, x, y);
    match v.pieces[s].kind {
        _ => {},
    }
}

/// The moves from code `k` on are the pseudo-legal moves whose codes are `k` or more.
pub proof fn lemma_moves_from_contains(v: BoardView, c: Color, k: int)
    requires
        0 <= k <= 4096,
    ensures
        forall|s: int, t: int|
            #[trigger] moves_from(v, c, k).contains((s, t)) <==> is_move(v, c, s, t) && move_code(
                s,
                t,
            ) >= k,
    decreases 4096 - k,
{
    if k < 4096 {
        lemma_moves_from_contains(v, c, k + 1);
        lemma_code_split(k);
        let rest = moves_from(v, c, k + 1);
        assert forall|s: int, t: int|
            #[trigger] moves_from(v, c, k).contains((s, t)) <==> is_move(v, c, s, t) && move_code(
                s,
                t,
            ) >= k by {
            if is_move(v, c, s, t) {
                lemma_move_squares(v, c, s, t);
                lemma_code(s, t);
            }
            if move_at(v, c, k) {
                let head = seq![(k / 64, k % 64)];
                assert(moves_from(v, c, k) == head + rest);
                if rest.contains((s, t)) {
                    let i = choose|i: int| 0 <= i < rest.len() && rest[i] == (s, t);
                    assert((head + rest)[i + 1] == (s, t));
                }
                if moves_from(v, c, k).contains((s, t)) {
                    let i = choose|i: int| 0 <= i < (head + rest).len() && (head + rest)[i] == (s, t);
                    if i > 0 {
                        assert(rest[i - 1] == (s, t));
                    }
                }
                if (s, t) == (k / 64, k % 64) {
                    assert((head + rest)[0] == (s, t));
                }
            }
        }
    } else {
        assert forall|s: int, t: int|
            #[trigger] moves_from(v, c, k).contains((s, t)) <==> is_move(v, c, s, t) && move_code(
                s,
                t,
            ) >= k by {
            if is_move(v, c, s, t) {
                lemma_move_squares(v, c, s, t);
            }
        }
    }
}

/// The move list holds exactly the pseudo-legal moves.
pub proof fn lemma_move_list_contains(v: BoardView, c: Color, s: int, t: int)
    ensures
        move_list(v, c).contains((s, t)) <==> is_move(v, c, s, t),
{
    lemma_moves_from_contains(v, c, 0);
    if is_move(v, c, s, t) {
        lemma_move_squares(v, c, s, t);
    }
}

proof fn lemma_ray_on_board(all: Set<int>, x: int, y: int, dx: int, dy: int, n: nat, t: int)
    requires
        ray(all, x, y, dx, dy, n).contains(t),
    ensures
        0 <= t < 64,
    decreases n,
{
    if n > 0 && on_board(x + dx, y + dy) && !all.contains(square(x + dx, y + dy)) && t != square(x + dx, y + dy) {
        lemma_ray_on_board(all, x + dx, y + dy, dx, dy, (n - 1) as nat, t);
    }
}

proof fn lemma_ray_squares(all: Set<int>, x: int, y: int)
    ensures
        forall|t: int| #[trigger] rook_targets(all, x, y).contains(t) ==> 0 <= t < 64,
        forall|t: int| #[trigger] bishop_targets(all, x, y).contains(t) ==> 0 <= t < 64,
{
    assert forall|t: int| #[trigger] rook_targets(all, x, y).contains(t) implies 0 <= t < 64 by {
        if ray(all, x, y, -1, 0, 7).contains(t) {
            lemma_ray_on_board(all, x, y, -1, 0, 7, t);
        } else if ray(all, x, y, 1, 0, 7).contains(t) {
            lemma_ray_on_board(all, x, y, 1, 0, 7, t);
        } else if ray(all, x, y, 0, -1, 7).contains(t) {
            lemma_ray_on_board(all, x, y, 0, -1, 7, t);
        } else {
            lemma_ray_on_board(all, x, y, 0, 1, 7, t);
        }
    }
    assert forall|t: int| #[trigger] bishop_targets(all, x, y).contains(t) implies 0 <= t < 64 by {
        if ray(all, x, y, -1, -1, 7).contains(t) {
            lemma_ray_on_board(all, x, y, -1, -1, 7, t);
        } else if ray(all, x, y, -1, 1, 7).contains(t) {
            lemma_ray_on_board(all, x, y, -1, 1, 7, t);
        } else if ray(all, x, y, 1, -1, 7).contains(t) {
            lemma_ray_on_board(all, x, y, 1, -1, 7, t);
        } else {
            lemma_ray_on_board(all, x, y, 1, 1, 7, t);
        }
    }
}

} // verus!
