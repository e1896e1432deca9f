use vstd::prelude::*;

use rand::rngs::StdRng;

use crate::board::{Board, BoardView};
use crate::pos::Pos;
use crate::moves::{
    Move, MoveSet, generate_pseudo_legal_moves, generate_pseudo_legal_moves_for_color, pairs_of,
};
use crate::piece::{Color, kind_score, other};
use crate::random::random_below;
use crate::rules::{is_move, lemma_move_list_contains, move_list, reach};
use crate::search::{
    alpha_beta, child_value, king_in_reach, king_reachable, lemma_negamax_bound, lemma_playable,
    minimax, negamax,
};

verus! {

/// A move as (source, destination).
pub open spec fn pair(m: Move) -> (int, int) {
    (m.src@, m.dst@)
}

/// The square of the opponent's king when side `c` could take it now.
pub open spec fn king_target(v: BoardView, c: Color) -> Option<int> {
    let o = other(c);
    if v.has_king(o) && reach(v, c).contains(v.king_square(o)) {
        Some(v.king_square(o))
    } else {
        None
    }
}

/// The moves of `ml` that land on square `k`, in order.
pub open spec fn moves_onto(ml: Seq<(int, int)>, k: int) -> Seq<(int, int)> {
    ml.filter(|m: (int, int)| m.1 == k)
}

/// Whether move `i` of `ml` has the greatest child value, and is the first one that does.
pub open spec fn is_first_best(v: BoardView, e: nat, ml: Seq<(int, int)>, i: int) -> bool {
    &&& 0 <= i < ml.len()
    &&& forall|j: int| 0 <= j < ml.len() ==> child_value(v, e, #[trigger] ml[j]) <= child_value(v, e, ml[i])
    &&& forall|j: int| 0 <= j < i ==> child_value(v, e, #[trigger] ml[j]) < child_value(v, e, ml[i])
}

/// Whether move `i` of `ml` has the greatest child value, and is the last one that does.
pub open spec fn is_last_best(v: BoardView, e: nat, ml: Seq<(int, int)>, i: int) -> bool {
    &&& 0 <= i < ml.len()
    &&& forall|j: int| 0 <= j < ml.len() ==> child_value(v, e, #[trigger] ml[j]) <= child_value(v, e, ml[i])
    &&& forall|j: int| i < j < ml.len() ==> child_value(v, e, #[trigger] ml[j]) < child_value(v, e, ml[i])
}

/// The capability all strategies share: choose one of the moves, and none only when
/// there is none.
pub trait PlayerController {
    fn play(&self, moves: &MoveSet, rng: &mut StdRng) -> (r: Option<Move>)
        requires
            moves.side() == moves.board().to_move,
        ensures
            r is None <==> move_list(moves.board(), moves.side()).len() == 0,
            r is Some ==> move_list(moves.board(), moves.side()).contains(pair(r->0)),
    ;
}

/// The first move that takes the opponent's king, if one does.
pub fn king_capture(moves: &MoveSet) -> (r: Option<Move>)
    ensures
        king_target(moves.board(), moves.side()) is None ==> r is None,
        king_target(moves.board(), moves.side()) matches Some(k) ==> r is Some && pair(r->0)
            == moves_onto(move_list(moves.board(), moves.side()), k)[0],
        r is Some ==> move_list(moves.board(), moves.side()).contains(pair(r->0)),
{
    let board = moves.parent_board();
    let o = moves.color().opponent();
    if board.has_king(o) {
        let k = board.king_pos(o);
        if moves.all_dst_positions().contains(k) {
            let onto = moves.moves_ending_in(k);
            proof {
                let v = moves.board();
                let c = moves.side();
                let ml = move_list(v, c);
                let pred = |m: (int, int)| m.1 == k@;
                let s = choose|s: int| #[trigger] is_move(v, c, s, k@);
                lemma_move_list_contains(v, c, s, k@);
                let i = choose|i: int| 0 <= i < ml.len() && ml[i] == (s, k@);
                ml.lemma_filter_contains(pred, i);
                assert(moves_onto(ml, k@).len() > 0);
                assert(moves_onto(ml, k@).contains(moves_onto(ml, k@)[0]));
                ml.lemma_filter_contains_rev(pred, moves_onto(ml, k@)[0]);
            }
            let m = onto[0];
            assert(pairs_of(onto@)[0] == pair(m));
            return Some(m);
        }
    }
    None
}

/// Plays uniformly at random, but takes the opponent's king whenever it can.
pub struct RandomAI();

impl RandomAI {
    /// The first move that takes the opponent's king if there is one; else a move drawn
    /// uniformly from all of them.
    pub fn select(&self, moves: &MoveSet, rng: &mut StdRng) -> (r: Option<Move>)
        ensures
            r is None <==> move_list(moves.board(), moves.side()).len() == 0,
            r is Some ==> move_list(moves.board(), moves.side()).contains(pair(r->0)),
            king_target(moves.board(), moves.side()) matches Some(k) ==> r is Some && pair(
                r->0,
            ) == moves_onto(move_list(moves.board(), moves.side()), k)[0],
    {
        let ghost ml = move_list(moves.board(), moves.side());
        match king_capture(moves) {
            Some(m) => {
                Some(m)
            },
            None => {
                let n = moves.move_count();
                if n == 0 {
                    return None;
                }
                let i = random_below(rng, n);
                let r = moves.nth_move(i);
                assert(ml.contains(ml[i as int]));
                r
            },
        }
    }
}

impl PlayerController for RandomAI {
    fn play(&self, moves: &MoveSet, rng: &mut StdRng) -> (r: Option<Move>)
        ensures
            r is None <==> move_list(moves.board(), moves.side()).len() == 0,
            r is Some ==> move_list(moves.board(), moves.side()).contains(pair(r->0)),
            king_target(moves.board(), moves.side()) matches Some(k) ==> r is Some && pair(
                r->0,
            ) == moves_onto(move_list(moves.board(), moves.side()), k)[0],
    {
        self.select(moves, rng)
    }
}

/// Whether, after move `m`, side `c` could reach square `k` with its next move.
pub open spec fn gives_check(v: BoardView, c: Color, k: int, m: (int, int)) -> bool {
    reach(v.apply(m.0, m.1), c).contains(k)
}

/// The material of the piece that makes move `m`.
pub open spec fn attacker_score(v: BoardView, m: (int, int)) -> int {
    kind_score(v.pieces[m.0].kind)
}

/// Whether move `i` of `ml` gives check on `k` with the cheapest piece that can, and is
/// the first such move.
pub open spec fn is_cheapest_check(v: BoardView, c: Color, k: int, ml: Seq<(int, int)>, i: int) -> bool {
    &&& 0 <= i < ml.len()
    &&& gives_check(v, c, k, ml[i])
    &&& forall|j: int|
        0 <= j < ml.len() && gives_check(v, c, k, #[trigger] ml[j]) ==> attacker_score(v, ml[i])
            <= attacker_score(v, ml[j])
    &&& forall|j: int|
        0 <= j < i && gives_check(v, c, k, #[trigger] ml[j]) ==> attacker_score(v, ml[j])
            > attacker_score(v, ml[i])
}

/// The opponent's pieces that side `c` can take.
pub open spec fn capturable(v: BoardView, c: Color) -> Set<int> {
    v.occupied(other(c)).intersect(reach(v, c))
}

/// Whether `t` is the most valuable piece of `caps`, the highest square among equally
/// valuable ones.
pub open spec fn is_best_target(v: BoardView, caps: Set<int>, t: int) -> bool {
    &&& caps.contains(t)
    &&& forall|u: int| #[trigger] caps.contains(u) ==> kind_score(v.pieces[u].kind) <= kind_score(v.pieces[t].kind)
    &&& forall|u: int| #[trigger] caps.contains(u) && u > t ==> kind_score(v.pieces[u].kind) < kind_score(v.pieces[t].kind)
}

/// Whether move `i` of `ms` is made by the cheapest piece, the first of equally cheap ones.
pub open spec fn is_cheapest(v: BoardView, ms: Seq<(int, int)>, i: int) -> bool {
    &&& 0 <= i < ms.len()
    &&& forall|j: int| 0 <= j < ms.len() ==> attacker_score(v, ms[i]) <= attacker_score(v, #[trigger] ms[j])
    &&& forall|j: int| 0 <= j < i ==> attacker_score(v, #[trigger] ms[j]) > attacker_score(v, ms[i])
}

/// Takes the most valuable piece it can, with its cheapest attacker; optionally first
/// looks for a move after which the opponent's king is in reach, again made by the
/// cheapest piece. Plays at random when neither applies.
pub struct CaptureAI {
    pub search_check: bool,
}

impl CaptureAI {
    /// The check it prefers, else the capture it prefers, else a move drawn uniformly.
    pub fn select(&self, moves: &MoveSet, rng: &mut StdRng) -> (r: Option<Move>)
        requires
            moves.side() == moves.board().to_move,
        ensures
            ({
                let v = moves.board();
                let c = moves.side();
                let o = other(c);
                let ml = move_list(v, c);
                let k = v.king_square(o);
                let checking = self.search_check && v.has_king(o) && exists|i: int|
                    0 <= i < ml.len() && gives_check(v, c, k, #[trigger] ml[i]);
                &&& r is None <==> ml.len() == 0
                &&& r is Some ==> ml.contains(pair(r->0))
                &&& checking ==> exists|i: int|
                    is_cheapest_check(v, c, k, ml, i) && pair(r->0) == ml[i]
                &&& !checking && capturable(v, c) != Set::<int>::empty() ==> exists|t: int, i: int|
                    is_best_target(v, capturable(v, c), t) && is_cheapest(v, moves_onto(ml, t), i)
                        && pair(r->0) == moves_onto(ml, t)[i]
            }),
    {
        let board = moves.parent_board();
        let ghost v = moves.board();
        let ghost ml = move_list(v, v.to_move);
        let me = board.to_move();
        let opp = me.opponent();
        let ghost k = v.king_square(opp);
        if self.search_check && board.has_king(opp) {
            let king = board.king_pos(opp);
            let list = moves.to_vec();
            let ghost mut bi: int = 0;
            let mut best: Option<Move> = None;
            let mut best_score: i64 = 0;
            let mut i: usize = 0;
            while i < list.len()
                invariant
                    v == board@,
                    v.to_move == moves.side(),
                    me == v.to_move,
                    king@ == k,
                    ml == move_list(v, v.to_move),
                    pairs_of(list@) == ml,
                    i <= list@.len(),
                    best is None <==> forall|j: int| 0 <= j < i ==> !gives_check(v, me, k, #[trigger] ml[j]),
                    best is Some ==> {
                        &&& 0 <= bi < i
                        &&& pair(best->0) == ml[bi]
                        &&& gives_check(v, me, k, ml[bi])
                        &&& best_score == attacker_score(v, ml[bi])
                        &&& forall|j: int|
                            0 <= j < i && gives_check(v, me, k, #[trigger] ml[j]) ==> best_score
                                <= attacker_score(v, ml[j])
                        &&& forall|j: int|
                            0 <= j < bi && gives_check(v, me, k, #[trigger] ml[j]) ==> attacker_score(v, ml[j])
                                > best_score
                    },
                decreases list@.len() - i,
            {
                let mov = list[i];
                proof {
                    assert(pairs_of(list@)[i as int] == pair(mov));
                    lemma_playable(v, ml, i as int);
                }
                let result = board.with_move(mov);
                let replies = generate_pseudo_legal_moves_for_color(&result, me);
                if replies.all_dst_positions().contains(king) {
                    let score = board.piece_at(mov.src).kind.score();
                    if best.is_none() || score < best_score {
                        best = Some(mov);
                        best_score = score;
                        proof {
                            bi = i as int;
                        }
                    }
                }
                i = i + 1;
            }
            if best.is_some() {
                proof {
                    assert(is_cheapest_check(v, me, k, ml, bi));
                    assert(ml.contains(ml[bi]));
                }
                return best;
            }
        }
        let captures = board.pieces_for(opp).intersect(moves.all_dst_positions());
        if captures.is_empty() {
            let n = moves.move_count();
            if n == 0 {
                return None;
            }
            let i = random_below(rng, n);
            let r = moves.nth_move(i);
            assert(ml.contains(ml[i as int]));
            return r;
        }
        let mut it = captures.set_positions();
        let mut target = Pos::from_index(0);
        let mut target_score: i64 = -1;
        proof {
            captures.lemma_finite();
        }
        while it.has_next()
            invariant
                v == board@,
                captures@ == capturable(v, me),
                me == moves.side(),
                it@.finite(),
                it@.subset_of(captures@),
                forall|a: int, b: int|
                    #[trigger] captures@.contains(a) && !it@.contains(a) && #[trigger] it@.contains(b) ==> a < b,
                target_score == -1 <==> it@ == captures@,
                target_score != -1 ==> {
                    &&& captures@.contains(target@)
                    &&& !it@.contains(target@)
                    &&& target_score == kind_score(v.pieces[target@].kind)
                    &&& forall|u: int|
                        #[trigger] captures@.contains(u) && !it@.contains(u) ==> kind_score(v.pieces[u].kind)
                            <= target_score
                    &&& forall|u: int|
                        #[trigger] captures@.contains(u) && !it@.contains(u) && u > target@ ==> kind_score(
                            v.pieces[u].kind,
                        ) < target_score
                },
            decreases it@.len(),
        {
            let p = it.next().unwrap();
            let score = board.piece_at(p).kind.score();
            if score >= target_score {
                target = p;
                target_score = score;
            }
        }
        proof {
            assert(it@ =~= Set::<int>::empty());
            assert(target_score != -1) by {
                if target_score == -1 {
                    assert(captures@ =~= Set::<int>::empty());
                }
            }
            assert(is_best_target(v, capturable(v, me), target@));
        }
        let onto = moves.moves_ending_in(target);
        let ghost om = moves_onto(ml, target@);
        proof {
            let pred = |m: (int, int)| m.1 == target@;
            assert(reach(v, me).contains(target@));
            let s = choose|s: int| #[trigger] is_move(v, me, s, target@);
            lemma_move_list_contains(v, me, s, target@);
            let j = choose|j: int| 0 <= j < ml.len() && ml[j] == (s, target@);
            ml.lemma_filter_contains(pred, j);
        }
        let mut best = onto[0];
        let mut best_score = board.piece_at(best.src).kind.score();
        let ghost mut bi: int = 0;
        let mut i: usize = 1;
        assert(pairs_of(onto@)[0] == pair(best));
        while i < onto.len()
            invariant
                v == board@,
                om == pairs_of(onto@),
                1 <= i <= onto@.len(),
                0 <= bi < i,
                pair(best) == om[bi],
                best_score == attacker_score(v, om[bi]),
                forall|j: int| 0 <= j < i ==> best_score <= attacker_score(v, #[trigger] om[j]),
                forall|j: int| 0 <= j < bi ==> attacker_score(v, #[trigger] om[j]) > best_score,
            decreases onto@.len() - i,
        {
            let mov = onto[i];
            assert(pairs_of(onto@)[i as int] == pair(mov));
            let score = board.piece_at(mov.src).kind.score();
            if score < best_score {
                best = mov;
                best_score = score;
                proof {
                    bi = i as int;
                }
            }
            i = i + 1;
        }
        proof {
            assert(is_cheapest(v, om, bi));
            assert(om.contains(om[bi]));
            ml.lemma_filter_contains_rev(|m: (int, int)| m.1 == target@, om[bi]);
        }
        Some(best)
    }
}

impl PlayerController for CaptureAI {
    fn play(&self, moves: &MoveSet, rng: &mut StdRng) -> (r: Option<Move>)
        ensures
            ({
                let v = moves.board();
                let c = moves.side();
                let o = other(c);
                let ml = move_list(v, c);
                let k = v.king_square(o);
                let checking = self.search_check && v.has_king(o) && exists|i: int|
                    0 <= i < ml.len() && gives_check(v, c, k, #[trigger] ml[i]);
                &&& r is None <==> ml.len() == 0
                &&& r is Some ==> ml.contains(pair(r->0))
                &&& checking ==> exists|i: int|
                    is_cheapest_check(v, c, k, ml, i) && pair(r->0) == ml[i]
                &&& !checking && capturable(v, c) != Set::<int>::empty() ==> exists|t: int, i: int|
                    is_best_target(v, capturable(v, c), t) && is_cheapest(v, moves_onto(ml, t), i)
                        && pair(r->0) == moves_onto(ml, t)[i]
            }),
    {
        self.select(moves, rng)
    }
}

/// A playout that reaches this many plies without an end counts as a draw.
pub const ROLLOUT_PLY_LIMIT: u64 = 4096;

/// The value of a playout that ends `depth` plies in: the sooner, the more it counts.
pub open spec fn ending_score(depth: int) -> int {
    20int / (if depth < 20 {
        depth
    } else {
        20int
    })
}

/// The index of the greatest of `scores`, the last of equal ones.
pub fn last_max_index(scores: &Vec<i128>) -> (r: usize)
    requires
        scores@.len() > 0,
    ensures
        r < scores@.len(),
        forall|j: int| 0 <= j < scores@.len() ==> scores@[j] <= scores@[r as int],
        forall|j: int| r < j < scores@.len() ==> scores@[j] < scores@[r as int],
{
    let mut best: usize = 0;
    let mut i: usize = 1;
    while i < scores.len()
        invariant
            1 <= i <= scores@.len(),
            best < i,
            forall|j: int| 0 <= j < i ==> scores@[j] <= scores@[best as int],
            forall|j: int| best < j < i ==> scores@[j] < scores@[best as int],
        decreases scores@.len() - i,
    {
        if scores[i] >= scores[best] {
            best = i;
        }
        i = i + 1;
    }
    best
}

/// The result, for its side to move, of the playout of `v` that picks the move at place
/// `draws[0]` of the move list on the first ply that does not end it, `draws[1]` on the
/// next, and so on; the playout starts `d` plies in and may last `left` plies more. It
/// ends in a loss with no move and a win with the opponent's king in reach, scored by
/// `ending_score`, and in a draw (0) when it runs out of plies or of fitting draws.
pub open spec fn rollout_from(v: BoardView, d: int, draws: Seq<usize>, left: nat) -> int
    decreases left,
{
    let ml = move_list(v, v.to_move);
    if left == 0 {
        0
    } else if ml.len() == 0 {
        -ending_score(d)
    } else if king_in_reach(v) {
        ending_score(d)
    } else if draws.len() == 0 || draws[0] >= ml.len() {
        0
    } else {
        let m = ml[draws[0] as int];
        -rollout_from(v.apply(m.0, m.1), d + 1, draws.drop_first(), (left - 1) as nat)
    }
}

/// Whether each draw of `draws` is below the number of moves on the ply that uses it, for
/// a playout of `v` that may last `left` plies.
pub open spec fn draws_fit_from(v: BoardView, draws: Seq<usize>, left: nat) -> bool
    decreases left,
{
    let ml = move_list(v, v.to_move);
    if left == 0 || ml.len() == 0 || king_in_reach(v) {
        true
    } else {
        draws.len() > 0 && draws[0] < ml.len() && draws_fit_from(
            v.apply(ml[draws[0] as int].0, ml[draws[0] as int].1),
            draws.drop_first(),
            (left - 1) as nat,
        )
    }
}

/// The result of the playout of `v` that starts `d` plies in and follows `draws`.
pub open spec fn rollout(v: BoardView, d: int, draws: Seq<usize>) -> int {
    rollout_from(v, d, draws, ROLLOUT_PLY_LIMIT as nat)
}

/// Whether `draws` fit a playout of `v`.
pub open spec fn draws_fit(v: BoardView, draws: Seq<usize>) -> bool {
    draws_fit_from(v, draws, ROLLOUT_PLY_LIMIT as nat)
}

/// Whether `x` is the result of some playout of `v` that starts `d` plies in.
pub open spec fn possible_outcome(v: BoardView, d: int, x: int) -> bool {
    exists|draws: Seq<usize>| draws_fit(v, draws) && x == rollout(v, d, draws)
}

/// The sum of the negated `outs`.
pub open spec fn neg_sum(outs: Seq<int>) -> int
    decreases outs.len(),
{
    if outs.len() == 0 {
        0
    } else {
        neg_sum(outs.drop_last()) - outs.last()
    }
}

/// Whether `t` is the sum of the negated results of `n` playouts of `v`, each starting one
/// ply in.
pub open spec fn is_total(v: BoardView, n: int, t: int) -> bool {
    exists|outs: Seq<int>|
        outs.len() == n && (forall|j: int| 0 <= j < n ==> possible_outcome(v, 1, #[trigger] outs[j]))
            && t == neg_sum(outs)
}

/// A depth counted up to 20 scores as the true depth does, between 1 and 20.
proof fn lemma_ending_score(d: int, ds: int)
    requires
        1 <= d <= 20,
        ds >= 1,
        d == (if ds < 20 { ds } else { 20 }),
    ensures
        ending_score(d) == ending_score(ds),
        1 <= ending_score(d) <= 20,
{
    assert(1 <= 20int / d <= 20) by (nonlinear_arith)
        requires
            1 <= d <= 20,
    ;
}

proof fn lemma_flip_sign(sign: int, a: int, b: int)
    requires
        a == -b,
    ensures
        sign * a == (-sign) * b,
{
    assert(sign * a == (-sign) * b) by (nonlinear_arith)
        requires
            a == -b,
    ;
}

/// How one ply of a playout goes: `Ok` with the score when the playout ends on it, else
/// `Err` with the number of moves to draw from.
fn playout_ply(current: &Board, d: u64) -> (r: Result<i64, usize>)
    requires
        1 <= d <= 20,
    ensures
        ({
            let ml = move_list(current@, current@.to_move);
            &&& ml.len() == 0 ==> (r matches Ok(x) && x == -ending_score(d as int))
            &&& ml.len() != 0 && king_in_reach(current@) ==> (r matches Ok(x) && x == ending_score(
                d as int,
            ))
            &&& ml.len() != 0 && !king_in_reach(current@) ==> (r matches Err(n) && n == ml.len())
        }),
{
    let moves = generate_pseudo_legal_moves(current);
    let score: i64 = (20 / d) as i64;
    if moves.is_empty() {
        Ok(-score)
    } else if king_reachable(current, &moves) {
        Ok(score)
    } else {
        Err(moves.move_count())
    }
}

/// The position after the move at place `i` of the side to move's list.
fn play_nth(current: &Board, i: usize) -> (r: Board)
    requires
        i < move_list(current@, current@.to_move).len(),
    ensures
        ({
            let m = move_list(current@, current@.to_move)[i as int];
            r@ == current@.apply(m.0, m.1)
        }),
{
    let mov = generate_pseudo_legal_moves(current).nth_move(i).unwrap();
    proof {
        lemma_playable(current@, move_list(current@, current@.to_move), i as int);
    }
    current.with_move(mov)
}

/// The playout of `board` that follows `draws`, starting `depth` plies in.
pub fn playout(board: &Board, draws: &Vec<usize>, depth: u64) -> (r: i64)
    requires
        depth >= 1,
    ensures
        r == rollout(board@, depth as int, draws@),
{
    let mut current = *board;
    let mut d: u64 = if depth < 20 {
        depth
    } else {
        20
    };
    let ghost mut ds: int = depth as int;
    let mut sign: i64 = 1;
    let mut plies: u64 = 0;
    assert(draws@.skip(0) =~= draws@);
    while plies < ROLLOUT_PLY_LIMIT
        invariant
            1 <= d <= 20,
            ds >= 1,
            d == (if ds < 20 { ds } else { 20 }),
            sign == 1 || sign == -1,
            plies <= ROLLOUT_PLY_LIMIT,
            plies <= draws@.len(),
            rollout(board@, depth as int, draws@) == sign * rollout_from(
                current@,
                ds,
                draws@.skip(plies as int),
                (ROLLOUT_PLY_LIMIT - plies) as nat,
            ),
        decreases ROLLOUT_PLY_LIMIT - plies,
    {
        let ghost rest = draws@.skip(plies as int);
        proof {
            lemma_ending_score(d as int, ds);
        }
        match playout_ply(&current, d) {
            Ok(score) => {
                assert(rollout_from(current@, ds, rest, (ROLLOUT_PLY_LIMIT - plies) as nat)
                    == score);
                proof {
                    lemma_flip_sign(sign as int, score as int, -score);
                    lemma_flip_sign(-sign, score as int, -score);
                }
                return if sign == 1 {
                    score
                } else {
                    -score
                };
            },
            Err(n) => {
                if plies as usize >= draws.len() {
                    assert(rest.len() == 0);
                    return 0;
                }
                let i = draws[plies as usize];
                assert(rest[0] == i);
                if i >= n {
                    assert(rollout_from(current@, ds, rest, (ROLLOUT_PLY_LIMIT - plies) as nat)
                        == 0);
                    return 0;
                }
                let next = play_nth(&current, i);
                proof {
                    assert(rest.drop_first() =~= draws@.skip(plies + 1));
                    let ml = move_list(current@, current@.to_move);
                    assert(rollout_from(current@, ds, rest, (ROLLOUT_PLY_LIMIT - plies) as nat)
                        == -rollout_from(
                        next@,
                        ds + 1,
                        rest.drop_first(),
                        (ROLLOUT_PLY_LIMIT - plies - 1) as nat,
                    ));
                    lemma_flip_sign(
                        sign as int,
                        rollout_from(current@, ds, rest, (ROLLOUT_PLY_LIMIT - plies) as nat),
                        rollout_from(
                            next@,
                            ds + 1,
                            rest.drop_first(),
                            (ROLLOUT_PLY_LIMIT - plies - 1) as nat,
                        ),
                    );
                }
                current = next;
                sign = -sign;
                if d < 20 {
                    d = d + 1;
                }
                proof {
                    ds = ds + 1;
                }
                plies = plies + 1;
            },
        }
    }
    0
}

/// Plays every move out at random many times and plays the move whose playouts went
/// best for it (the last of equally good ones).
pub struct MonteCarloAI(pub usize);

impl MonteCarloAI {
    /// Plays `board` out with random moves for both sides and returns the result for its
    /// side to move: the result of the playout that follows the draws made.
    pub fn search(board: &Board, rng: &mut StdRng, depth: u64) -> (r: i64)
        requires
            depth >= 1,
        ensures
            -20 <= r <= 20,
            possible_outcome(board@, depth as int, r as int),
    {
        let mut current = *board;
        let mut d: u64 = if depth < 20 {
            depth
        } else {
            20
        };
        let ghost mut ds: int = depth as int;
        let ghost mut drawn: Seq<usize> = Seq::empty();
        let mut sign: i64 = 1;
        let mut plies: u64 = 0;
        assert forall|tail: Seq<usize>|
            rollout(board@, depth as int, drawn + tail) == sign * rollout_from(
                current@,
                ds,
                tail,
                ROLLOUT_PLY_LIMIT as nat,
            ) && draws_fit(board@, drawn + tail) == draws_fit_from(
                current@,
                tail,
                ROLLOUT_PLY_LIMIT as nat,
            ) by {
            assert(drawn + tail =~= tail);
        }
        while plies < ROLLOUT_PLY_LIMIT
            invariant
                1 <= d <= 20,
                ds >= 1,
                d == (if ds < 20 { ds } else { 20 }),
                sign == 1 || sign == -1,
                plies <= ROLLOUT_PLY_LIMIT,
                forall|tail: Seq<usize>|
                    rollout(board@, depth as int, #[trigger] (drawn + tail)) == sign * rollout_from(
                        current@,
                        ds,
                        tail,
                        (ROLLOUT_PLY_LIMIT - plies) as nat,
                    ) && draws_fit(board@, drawn + tail) == draws_fit_from(
                        current@,
                        tail,
                        (ROLLOUT_PLY_LIMIT - plies) as nat,
                    ),
            decreases ROLLOUT_PLY_LIMIT - plies,
        {
            proof {
                lemma_ending_score(d as int, ds);
            }
            match playout_ply(&current, d) {
                Ok(score) => {
                    proof {
                        assert(drawn + Seq::<usize>::empty() =~= drawn);
                        assert(rollout(board@, depth as int, drawn + Seq::<usize>::empty()) == sign
                            * rollout_from(
                            current@,
                            ds,
                            Seq::<usize>::empty(),
                            (ROLLOUT_PLY_LIMIT - plies) as nat,
                        ));
                        assert(draws_fit(board@, drawn + Seq::<usize>::empty()));
                    }
                    return score * sign;
                },
                Err(n) => {
                    let i = random_below(rng, n);
                    let next = play_nth(&current, i);
                    let ghost left = (ROLLOUT_PLY_LIMIT - plies) as nat;
                    proof {
                        let ml = move_list(current@, current@.to_move);
                        assert forall|tail: Seq<usize>|
                            rollout(board@, depth as int, #[trigger] (drawn.push(i) + tail)) == -sign
                                * rollout_from(next@, ds + 1, tail, (left - 1) as nat) && draws_fit(
                                board@,
                                drawn.push(i) + tail,
                            ) == draws_fit_from(next@, tail, (left - 1) as nat) by {
                            let t2 = seq![i] + tail;
                            assert(drawn.push(i) + tail =~= drawn + t2);
                            assert(t2[0] == i);
                            assert(t2.drop_first() =~= tail);
                            assert(rollout_from(current@, ds, t2, left) == -rollout_from(
                                next@,
                                ds + 1,
                                tail,
                                (left - 1) as nat,
                            ));
                            assert(draws_fit_from(current@, t2, left) == draws_fit_from(
                                next@,
                                tail,
                                (left - 1) as nat,
                            ));
                            assert(rollout(board@, depth as int, drawn + t2) == sign * rollout_from(
                                current@,
                                ds,
                                t2,
                                left,
                            ));
                            assert(draws_fit(board@, drawn + t2) == draws_fit_from(current@, t2, left));
                        }
                        drawn = drawn.push(i);
                        ds = ds + 1;
                    }
                    current = next;
                    sign = -sign;
                    if d < 20 {
                        d = d + 1;
                    }
                    plies = plies + 1;
                },
            }
        }
        proof {
            assert(drawn + Seq::<usize>::empty() =~= drawn);
            assert(rollout(board@, depth as int, drawn + Seq::<usize>::empty()) == sign
                * rollout_from(current@, ds, Seq::<usize>::empty(), 0));
            assert(draws_fit(board@, drawn + Seq::<usize>::empty()));
        }
        0
    }

    /// The move whose playouts scored best; each move gets `self.0` playouts.
    pub fn select(&self, moves: &MoveSet, rng: &mut StdRng) -> (r: Option<Move>)
        requires
            moves.side() == moves.board().to_move,
        ensures
            r is None <==> move_list(moves.board(), moves.side()).len() == 0,
            r is Some ==> move_list(moves.board(), moves.side()).contains(pair(r->0)),
            r is Some ==> self.best_by_playouts(moves.board(), pair(r->0)),
    {
        let board = moves.parent_board();
        let list = moves.to_vec();
        let ghost v = moves.board();
        let ghost ml = move_list(v, v.to_move);
        if list.len() == 0 {
            return None;
        }
        let mut totals: Vec<i128> = Vec::new();
        let ghost mut gt: Seq<int> = Seq::empty();
        let mut i: usize = 0;
        while i < list.len()
            invariant
                v == board@,
                v.to_move == moves.side(),
                ml == move_list(v, v.to_move),
                pairs_of(list@) == ml,
                i <= list@.len(),
                totals@.len() == i,
                gt.len() == i,
                forall|k: int| 0 <= k < i ==> totals@[k] == #[trigger] gt[k],
                forall|k: int|
                    0 <= k < i ==> is_total(v.apply(ml[k].0, ml[k].1), self.0 as int, #[trigger] gt[k]),
            decreases list@.len() - i,
        {
            let mov = list[i];
            proof {
                assert(pairs_of(list@)[i as int] == pair(mov));
                lemma_playable(v, ml, i as int);
            }
            let child = board.with_move(mov);
            let mut total: i128 = 0;
            let ghost mut outs: Seq<int> = Seq::empty();
            let mut k: usize = 0;
            while k < self.0
                invariant
                    k <= self.0,
                    -20 * k <= total <= 20 * k,
                    outs.len() == k,
                    total == neg_sum(outs),
                    forall|j: int| 0 <= j < k ==> possible_outcome(child@, 1, #[trigger] outs[j]),
                decreases self.0 - k,
            {
                let result = MonteCarloAI::search(&child, rng, 1);
                total = total - result as i128;
                proof {
                    let old_outs = outs;
                    outs = outs.push(result as int);
                    assert(outs.drop_last() =~= old_outs);
                }
                k = k + 1;
            }
            totals.push(total);
            proof {
                assert(is_total(child@, self.0 as int, total as int));
                gt = gt.push(total as int);
            }
            i = i + 1;
        }
        let best = last_max_index(&totals);
        let r = list[best];
        proof {
            assert(pairs_of(list@)[best as int] == pair(r));
            assert(ml.contains(ml[best as int]));
            assert(self.totals_fit(v, ml, gt));
            assert(is_last_max(gt, best as int));
        }
        Some(r)
    }

    /// Whether `totals` holds, for each move of `ml`, a total of `self.0` playouts from
    /// the position after it.
    pub open spec fn totals_fit(self, v: BoardView, ml: Seq<(int, int)>, totals: Seq<int>) -> bool {
        &&& totals.len() == ml.len()
        &&& forall|k: int|
            0 <= k < ml.len() ==> is_total(v.apply(ml[k].0, ml[k].1), self.0 as int, #[trigger] totals[k])
    }

    /// Whether move `m` has the greatest total for some fitting totals of the moves of
    /// `v`, the last of equally good ones.
    pub open spec fn best_by_playouts(self, v: BoardView, m: (int, int)) -> bool {
        let ml = move_list(v, v.to_move);
        exists|totals: Seq<int>, i: int|
            #![trigger self.totals_fit(v, ml, totals), is_last_max(totals, i)]
            self.totals_fit(v, ml, totals) && is_last_max(totals, i) && m == ml[i]
    }
}

/// Whether `totals[i]` is the greatest of `totals`, the last of equal ones.
pub open spec fn is_last_max(totals: Seq<int>, i: int) -> bool {
    &&& 0 <= i < totals.len()
    &&& forall|j: int| 0 <= j < totals.len() ==> totals[j] <= totals[i]
    &&& forall|j: int| i < j < totals.len() ==> totals[j] < totals[i]
}

impl PlayerController for MonteCarloAI {
    fn play(&self, moves: &MoveSet, rng: &mut StdRng) -> (r: Option<Move>)
        ensures
            r is None <==> move_list(moves.board(), moves.side()).len() == 0,
            r is Some ==> move_list(moves.board(), moves.side()).contains(pair(r->0)),
            r is Some ==> self.best_by_playouts(moves.board(), pair(r->0)),
    {
        self.select(moves, rng)
    }
}

/// Searches every move `depth` plies deeper with minimax and plays the best one (the
/// last of equally good ones).
pub struct TreeSearchV2AI(pub usize);

impl TreeSearchV2AI {
    /// The move whose resulting position minimax values best, `self.0` plies deep.
    pub fn select(&self, moves: &MoveSet) -> (r: Option<Move>)
        requires
            moves.side() == moves.board().to_move,
        ensures
            r is None <==> move_list(moves.board(), moves.side()).len() == 0,
            r is Some ==> exists|i: int|
                is_last_best(moves.board(), self.0 as nat, move_list(moves.board(), moves.side()), i)
                    && pair(r->0) == move_list(moves.board(), moves.side())[i],
    {
        let board = moves.parent_board();
        let list = moves.to_vec();
        let ghost v = moves.board();
        let ghost e = self.0 as nat;
        let ghost ml = move_list(v, v.to_move);
        let ghost mut bi: int = 0;
        let mut best: Option<Move> = None;
        let mut best_score: i64 = 0;
        let mut i: usize = 0;
        while i < list.len()
            invariant
                v == board@,
                v.to_move == moves.side(),
                e == self.0,
                ml == move_list(v, v.to_move),
                pairs_of(list@) == ml,
                i <= list@.len(),
                best is None <==> i == 0,
                best is Some ==> {
                    &&& 0 <= bi < i
                    &&& pair(best->0) == ml[bi]
                    &&& best_score == child_value(v, e, ml[bi])
                    &&& forall|j: int| 0 <= j < i ==> child_value(v, e, #[trigger] ml[j]) <= best_score
                    &&& forall|j: int| bi < j < i ==> child_value(v, e, #[trigger] ml[j]) < best_score
                },
            decreases list@.len() - i,
        {
            let mov = list[i];
            proof {
                assert(pairs_of(list@)[i as int] == pair(mov));
                lemma_playable(v, ml, i as int);
            }
            let child = board.with_move(mov);
            let val = minimax(&child, self.0);
            proof {
                lemma_negamax_bound(child@, e);
            }
            let score = -val;
            assert(score == child_value(v, e, ml[i as int]));
            if best.is_none() || score >= best_score {
                best = Some(mov);
                best_score = score;
                proof {
                    bi = i as int;
                }
            }
            i = i + 1;
        }
        best
    }
}

impl PlayerController for TreeSearchV2AI {
    fn play(&self, moves: &MoveSet, rng: &mut StdRng) -> (r: Option<Move>)
        ensures
            r is None <==> move_list(moves.board(), moves.side()).len() == 0,
            r is Some ==> exists|i: int|
                is_last_best(moves.board(), self.0 as nat, move_list(moves.board(), moves.side()), i)
                    && pair(r->0) == move_list(moves.board(), moves.side())[i],
    {
        let r = self.select(moves);
        proof {
            if r is Some {
                let ml = move_list(moves.board(), moves.side());
                let i = choose|i: int| is_last_best(moves.board(), self.0 as nat, ml, i) && pair(r->0) == ml[i];
                assert(ml.contains(ml[i]));
            }
        }
        r
    }
}

/// Searches every move `depth` plies deeper with alpha-beta pruning and plays the best
/// one (the first of equally good ones).
pub struct AlphaBetaAI(pub usize);

impl AlphaBetaAI {
    /// The move whose resulting position alpha-beta values best, `self.0` plies deep.
    pub fn select(&self, moves: &MoveSet) -> (r: Option<Move>)
        requires
            moves.side() == moves.board().to_move,
        ensures
            r is None <==> move_list(moves.board(), moves.side()).len() == 0,
            r is Some ==> exists|i: int|
                is_first_best(moves.board(), self.0 as nat, move_list(moves.board(), moves.side()), i)
                    && pair(r->0) == move_list(moves.board(), moves.side())[i],
    {
        let board = moves.parent_board();
        let list = moves.to_vec();
        let ghost v = moves.board();
        let ghost e = self.0 as nat;
        let ghost ml = move_list(v, v.to_move);
        let ghost mut bi: int = 0;
        let mut best_move: Option<Move> = None;
        let mut best_score: i64 = i64::MIN;
        let mut i: usize = 0;
        while i < list.len()
            invariant
                v == board@,
                v.to_move == moves.side(),
                e == self.0,
                ml == move_list(v, v.to_move),
                pairs_of(list@) == ml,
                i <= list@.len(),
                best_move is None <==> i == 0,
                i == 0 ==> best_score == i64::MIN,
                best_move is Some ==> {
                    &&& 0 <= bi < i
                    &&& pair(best_move->0) == ml[bi]
                    &&& best_score == child_value(v, e, ml[bi])
                    &&& forall|j: int| 0 <= j < i ==> child_value(v, e, #[trigger] ml[j]) <= best_score
                    &&& forall|j: int| 0 <= j < bi ==> child_value(v, e, #[trigger] ml[j]) < best_score
                },
            decreases list@.len() - i,
        {
            let mov = list[i];
            proof {
                assert(pairs_of(list@)[i as int] == pair(mov));
                lemma_playable(v, ml, i as int);
                if best_move is Some {
                    lemma_negamax_bound(v.apply(ml[bi].0, ml[bi].1), e);
                }
            }
            let child = board.with_move(mov);
            let val = alpha_beta(&child, self.0, best_score, i64::MAX, false);
            proof {
                lemma_negamax_bound(child@, e);
                assert(child_value(v, e, ml[i as int]) == -negamax(child@, e));
            }
            if val > best_score {
                best_score = val;
                best_move = Some(mov);
                proof {
                    bi = i as int;
                }
            }
            i = i + 1;
        }
        best_move
    }
}

impl PlayerController for AlphaBetaAI {
    fn play(&self, moves: &MoveSet, rng: &mut StdRng) -> (r: Option<Move>)
        ensures
            r is None <==> move_list(moves.board(), moves.side()).len() == 0,
            r is Some ==> exists|i: int|
                is_first_best(moves.board(), self.0 as nat, move_list(moves.board(), moves.side()), i)
                    && pair(r->0) == move_list(moves.board(), moves.side())[i],
    {
        let r = self.select(moves);
        proof {
            if r is Some {
                let ml = move_list(moves.board(), moves.side());
                let i = choose|i: int| is_first_best(moves.board(), self.0 as nat, ml, i) && pair(r->0) == ml[i];
                assert(ml.contains(ml[i]));
            }
        }
        r
    }
}

} // verus!
