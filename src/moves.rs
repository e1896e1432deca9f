use vstd::prelude::*;

use crate::bitboard::{BitBoard, BitBoardIterator, shifted_left, shifted_right};
use crate::board::{Board, BoardView};
use crate::piece::{Color, PieceKind, other};
use crate::pos::{Pos, col_of, on_board, row_of, square};
use crate::rules::{
    all_occupied, bishop_targets, dests, is_move, king_targets, knight_targets, lemma_code_split,
    lemma_move_list_contains, lemma_moves_from_skip, lemma_moves_from_step, move_at, move_code,
    move_list, moves_from, no_moves, pawn_targets, ray, reach, rook_targets, step, targets,
};

verus! {

/// Adds the square one step `(dx, dy)` away from `(x, y)`, when it is on the board.
fn add_step(dst: &mut BitBoard, x: i32, y: i32, dx: i32, dy: i32)
    requires
        on_board(x as int, y as int),
        -2 <= dx <= 2,
        -2 <= dy <= 2,
    ensures
        final(dst)@ == old(dst)@.union(step(x as int, y as int, dx as int, dy as int)),
{
    match Pos::try_new(x + dx, y + dy) {
        Some(p) => {
            dst.insert(p);
            assert(final(dst)@ =~= old(dst)@.union(step(x as int, y as int, dx as int, dy as int)));
        },
        None => {
            assert(old(dst)@ =~= old(dst)@.union(step(x as int, y as int, dx as int, dy as int)));
        },
    }
}

/// The squares that a sliding piece on `(x, y)` reaches in direction `(dx, dy)`.
fn ray_targets(all: BitBoard, x: i32, y: i32, dx: i32, dy: i32) -> (r: BitBoard)
    requires
        on_board(x as int, y as int),
        -1 <= dx <= 1,
        -1 <= dy <= 1,
    ensures
        r@ == ray(all@, x as int, y as int, dx as int, dy as int, 7),
{
    let mut r = BitBoard::empty();
    let mut cx = x;
    let mut cy = y;
    let mut n: u32 = 7;
    assert(r@.union(ray(all@, x as int, y as int, dx as int, dy as int, 7)) =~= ray(
        all@,
        x as int,
        y as int,
        dx as int,
        dy as int,
        7,
    ));
    while n > 0
        invariant
            on_board(cx as int, cy as int),
            -1 <= dx <= 1,
            -1 <= dy <= 1,
            r@.union(ray(all@, cx as int, cy as int, dx as int, dy as int, n as nat)) == ray(
                all@,
                x as int,
                y as int,
                dx as int,
                dy as int,
                7,
            ),
        decreases n,
    {
        match Pos::try_new(cx + dx, cy + dy) {
            None => {
                assert(r@ =~= r@.union(
                    ray(all@, cx as int, cy as int, dx as int, dy as int, n as nat),
                ));
                return r;
            },
            Some(p) => {
                let ghost before = r@;
                r.insert(p);
                if all.contains(p) {
                    assert(r@ =~= before.union(
                        ray(all@, cx as int, cy as int, dx as int, dy as int, n as nat),
                    ));
                    return r;
                }
                assert(r@.union(
                    ray(all@, cx + dx, cy + dy, dx as int, dy as int, (n - 1) as nat),
                ) =~= before.union(
                    ray(all@, cx as int, cy as int, dx as int, dy as int, n as nat),
                ));
                cx = cx + dx;
                cy = cy + dy;
                n = n - 1;
            },
        }
    }
    assert(r@ =~= r@.union(ray(all@, cx as int, cy as int, dx as int, dy as int, 0)));
    r
}

fn rook_moves(all: BitBoard, x: i32, y: i32) -> (r: BitBoard)
    requires
        on_board(x as int, y as int),
    ensures
        r@ == rook_targets(all@, x as int, y as int),
{
    ray_targets(all, x, y, -1, 0).union(ray_targets(all, x, y, 1, 0)).union(
        ray_targets(all, x, y, 0, -1),
    ).union(ray_targets(all, x, y, 0, 1))
}

fn bishop_moves(all: BitBoard, x: i32, y: i32) -> (r: BitBoard)
    requires
        on_board(x as int, y as int),
    ensures
        r@ == bishop_targets(all@, x as int, y as int),
{
    ray_targets(all, x, y, -1, -1).union(ray_targets(all, x, y, -1, 1)).union(
        ray_targets(all, x, y, 1, -1),
    ).union(ray_targets(all, x, y, 1, 1))
}

fn knight_moves(x: i32, y: i32) -> (r: BitBoard)
    requires
        on_board(x as int, y as int),
    ensures
        r@ == knight_targets(x as int, y as int),
{
    let mut r = BitBoard::empty();
    add_step(&mut r, x, y, 2, 1);
    add_step(&mut r, x, y, 1, 2);
    add_step(&mut r, x, y, -2, 1);
    add_step(&mut r, x, y, -1, 2);
    add_step(&mut r, x, y, 2, -1);
    add_step(&mut r, x, y, 1, -2);
    add_step(&mut r, x, y, -2, -1);
    add_step(&mut r, x, y, -1, -2);
    assert(r@ =~= knight_targets(x as int, y as int));
    r
}

fn king_moves(x: i32, y: i32) -> (r: BitBoard)
    requires
        on_board(x as int, y as int),
    ensures
        r@ == king_targets(x as int, y as int),
{
    let mut r = BitBoard::empty();
    add_step(&mut r, x, y, -1, -1);
    add_step(&mut r, x, y, -1, 0);
    add_step(&mut r, x, y, -1, 1);
    add_step(&mut r, x, y, 0, -1);
    add_step(&mut r, x, y, 0, 1);
    add_step(&mut r, x, y, 1, -1);
    add_step(&mut r, x, y, 1, 0);
    add_step(&mut r, x, y, 1, 1);
    assert(r@ =~= king_targets(x as int, y as int));
    r
}

/// A pawn's targets; its diagonal captures are the squares beside the one it advances to,
/// found by shifting that square one column each way.
fn pawn_moves(v: Ghost<BoardView>, color: Color, all: BitBoard, opponents: BitBoard, x: i32, y: i32) -> (r: BitBoard)
    requires
        on_board(x as int, y as int),
        all@ == all_occupied(v@),
        opponents@ == v@.occupied(other(color)),
    ensures
        r@ == pawn_targets(v@, color, x as int, y as int),
{
    let dir: i32 = if color == Color::White { 1 } else { -1 };
    let start: i32 = if color == Color::White { 1 } else { 6 };
    match Pos::try_new(x, y + dir) {
        None => {
            let r = BitBoard::empty();
            assert(r@ =~= pawn_targets(v@, color, x as int, y as int));
            r
        },
        Some(one) => {
            let mut advance = BitBoard::empty();
            advance.insert(one);
            assert(shifted_left(advance@) =~= step(x as int, y + dir, -1, 0));
            assert(shifted_right(advance@) =~= step(x as int, y + dir, 1, 0));
            let mut r = advance.shift_left().union(advance.shift_right()).intersect(opponents);
            if !all.contains(one) {
                r.insert(one);
                if y == start {
                    match Pos::try_new(x, y + dir + dir) {
                        Some(two) => {
                            if !all.contains(two) {
                                r.insert(two);
                            }
                        },
                        None => {},
                    }
                }
            }
            assert(r@ =~= pawn_targets(v@, color, x as int, y as int));
            r
        },
    }
}

/// The targets of the piece on `pos`, moving for side `color`.
fn piece_targets(board: &Board, color: Color, all: BitBoard, opponents: BitBoard, pos: Pos) -> (r: BitBoard)
    requires
        all@ == all_occupied(board@),
        opponents@ == board@.occupied(other(color)),
    ensures
        r@ == targets(board@, color, pos@),
{
    let x = pos.col();
    let y = pos.row();
    proof {
        pos.lemma_range();
        assert(square(col_of(pos@), row_of(pos@)) == pos@);
    }
    match board.piece_at(pos).kind {
        PieceKind::Empty => BitBoard::empty(),
        PieceKind::Pawn => pawn_moves(Ghost(board@), color, all, opponents, x, y),
        PieceKind::Rook => rook_moves(all, x, y),
        PieceKind::Knight => knight_moves(x, y),
        PieceKind::Bishop => bishop_moves(all, x, y),
        PieceKind::Queen => bishop_moves(all, x, y).union(rook_moves(all, x, y)),
        PieceKind::King => king_moves(x, y),
    }
}

/// Every square that a move of a piece of `allies` lands on, for the pieces not in
/// `remaining`.
spec fn covered(v: BoardView, c: Color, allies: Set<int>, remaining: Set<int>) -> Set<int> {
    Set::new(
        |t: int|
            exists|s: int|
                allies.contains(s) && !remaining.contains(s) && #[trigger] dests(v, c, s).contains(
                    t,
                ),
    )
}

/// The destinations of one piece: the square it stands on and where it may go.
#[derive(Debug, Clone, Copy)]
pub struct MoveMask {
    pub dst: BitBoard,
    pub src: Pos,
}

/// Whether `masks` lists, in increasing order of source square, each piece of side `c`
/// that has a pseudo-legal move, with all its destinations.
pub open spec fn masks_wf(v: BoardView, c: Color, masks: Seq<MoveMask>) -> bool {
    &&& forall|i: int, j: int|
        0 <= i < j < masks.len() ==> #[trigger] masks[i].src@ < #[trigger] masks[j].src@
    &&& forall|i: int|
        #![trigger masks[i]]
        0 <= i < masks.len() ==> {
            &&& v.occupied(c).contains(masks[i].src@)
            &&& masks[i].dst@ == dests(v, c, masks[i].src@)
            &&& masks[i].dst@ != Set::<int>::empty()
        }
    &&& forall|s: int|
        v.occupied(c).contains(s) && dests(v, c, s) != Set::<int>::empty() ==> exists|i: int|
            0 <= i < masks.len() && #[trigger] masks[i].src@ == s
}

/// The pseudo-legal moves of one side in one position, as one mask per piece that can
/// move.
pub struct MoveSet<'a> {
    parent: &'a Board,
    color: Color,
    masks: Vec<MoveMask>,
    dst_positions: BitBoard,
}

impl<'a> MoveSet<'a> {
    #[verifier::type_invariant]
    spec fn inv(self) -> bool {
        &&& masks_wf(self.parent@, self.color, self.masks@)
        &&& self.dst_positions@ == reach(self.parent@, self.color)
    }

    /// The position the moves were generated for.
    pub closed spec fn board(self) -> BoardView {
        self.parent@
    }

    /// The side whose moves these are.
    pub closed spec fn side(self) -> Color {
        self.color
    }

    /// The masks, in increasing order of source square.
    pub closed spec fn masks(self) -> Seq<MoveMask> {
        self.masks@
    }
}

/// A move of one piece from `src` to `dst`; it means something only for the position
/// whose move set it came from.
#[derive(Debug, Clone, Copy, PartialEq, Eq, Structural)]
pub struct Move {
    pub src: Pos,
    pub dst: Pos,
}

/// The moves of `ms`, as (source, destination).
pub open spec fn pairs_of(ms: Seq<Move>) -> Seq<(int, int)> {
    ms.map_values(|m: Move| (m.src@, m.dst@))
}

impl<'a> MoveSet<'a> {
    /// Every move, in the order of generation.
    fn move_vec(&self) -> (r: Vec<Move>)
        ensures
            pairs_of(r@) == move_list(self.board(), self.side()),
    {
        proof {
            use_type_invariant(self);
        }
        let ghost v = self.parent@;
        let ghost c = self.color;
        let ghost ml = move_list(v, c);
        let ghost mut k: int = 0;
        let mut r: Vec<Move> = Vec::new();
        let n = self.masks.len();
        let mut i: usize = 0;
        assert(pairs_of(r@) + moves_from(v, c, k) =~= ml);
        while i < n
            invariant
                v == self.parent@,
                c == self.color,
                ml == move_list(v, c),
                masks_wf(v, c, self.masks@),
                n == self.masks@.len(),
                i <= n,
                0 <= k <= 4096,
                pairs_of(r@) + moves_from(v, c, k) == ml,
                i < n ==> k <= move_code(self.masks@[i as int].src@, 0),
                forall|kk: int|
                    k <= kk < 4096 && #[trigger] move_at(v, c, kk) ==> (i < n && kk / 64
                        >= self.masks@[i as int].src@),
            decreases n - i,
        {
            let mask = self.masks[i];
            let src = mask.src;
            let ghost sq = src@;
            proof {
                src.lemma_range();
                assert forall|kk: int| k <= kk < move_code(sq, 0) implies !#[trigger] move_at(v, c, kk) by {
                    lemma_code_split(kk);
                }
                lemma_moves_from_skip(v, c, k, move_code(sq, 0));
                k = move_code(sq, 0);
            }
            let mut bits = mask.dst.set_positions();
            proof {
                mask.dst.lemma_finite();
                assert(self.masks@[i as int].dst@ == dests(v, c, sq));
            }
            while bits.has_next()
                invariant
                    v == self.parent@,
                    c == self.color,
                    ml == move_list(v, c),
                    masks_wf(v, c, self.masks@),
                    n == self.masks@.len(),
                    i < n,
                    mask == self.masks@[i as int],
                    sq == src@,
                    src == mask.src,
                    0 <= sq < 64,
                    move_code(sq, 0) <= k <= move_code(sq, 64),
                    bits@.finite(),
                    forall|t: int|
                        #[trigger] bits@.contains(t) <==> (dests(v, c, sq).contains(t) && k
                            - move_code(sq, 0) <= t < 64),
                    pairs_of(r@) + moves_from(v, c, k) == ml,
                decreases bits@.len(),
            {
                let ghost before = bits@;
                let dst = bits.next().unwrap();
                let ghost t = dst@;
                proof {
                    dst.lemma_range();
                    assert forall|kk: int| k <= kk < move_code(sq, t) implies !#[trigger] move_at(
                        v,
                        c,
                        kk,
                    ) by {
                        lemma_code_split(kk);
                        if move_at(v, c, kk) {
                            assert(before.contains(kk % 64));
                        }
                    }
                    lemma_moves_from_skip(v, c, k, move_code(sq, t));
                    lemma_moves_from_step(v, c, sq, t);
                }
                let ghost old_r = r@;
                r.push(Move { src, dst });
                proof {
                    assert(pairs_of(r@) =~= pairs_of(old_r).push((sq, t)));
                    assert(pairs_of(r@) + moves_from(v, c, move_code(sq, t) + 1) =~= pairs_of(old_r)
                        + moves_from(v, c, move_code(sq, t)));
                    k = move_code(sq, t) + 1;
                }
            }
            proof {
                assert forall|kk: int|
                    k <= kk < 4096 && #[trigger] move_at(v, c, kk) implies (i + 1 < n && kk / 64
                    >= self.masks@[i + 1].src@) by {
                    lemma_code_split(kk);
                    let s2 = kk / 64;
                    let t2 = kk % 64;
                    if s2 == sq {
                        assert(bits@.contains(t2));
                    }
                    assert(s2 > sq);
                    assert(dests(v, c, s2).contains(t2));
                    let j = choose|j: int| 0 <= j < self.masks@.len() && #[trigger] self.masks@[j].src@ == s2;
                    if j <= i {
                        if j < i {
                            assert(self.masks@[j].src@ < self.masks@[i as int].src@);
                        }
                    }
                    if j > i + 1 {
                        assert(self.masks@[i + 1].src@ < self.masks@[j].src@);
                    }
                }
            }
            i = i + 1;
        }
        proof {
            lemma_moves_from_skip(v, c, k, 4096);
            assert(pairs_of(r@) =~= ml);
        }
        r
    }
}

impl<'a> MoveSet<'a> {
    /// One mask per piece that can move, in increasing order of source square.
    pub fn move_masks(&self) -> (r: &[MoveMask])
        ensures
            r@ == self.masks(),
            masks_wf(self.board(), self.side(), r@),
    {
        proof {
            use_type_invariant(self);
        }
        self.masks.as_slice()
    }

    /// Every square that some move lands on.
    pub fn all_dst_positions(&self) -> (r: BitBoard)
        ensures
            r@ == reach(self.board(), self.side()),
    {
        proof {
            use_type_invariant(self);
        }
        self.dst_positions
    }

    /// Whether the side has no pseudo-legal move at all.
    pub fn is_empty(&self) -> (r: bool)
        ensures
            r == no_moves(self.board(), self.side()),
            r == (move_list(self.board(), self.side()).len() == 0),
    {
        proof {
            use_type_invariant(self);
            let v = self.parent@;
            let c = self.color;
            if self.masks@.len() > 0 {
                let m = self.masks@[0];
                m.dst.lemma_finite();
                if m.dst@.len() == 0 {
                    m.dst@.lemma_len0_is_empty();
                }
                vstd::set::axiom_set_choose_len(m.dst@);
                let t = m.dst@.choose();
                assert(m.dst@.contains(t));
                assert(is_move(v, c, m.src@, t));
                lemma_move_list_contains(v, c, m.src@, t);
            } else {
                assert forall|s: int, t: int| !#[trigger] is_move(v, c, s, t) by {
                    if is_move(v, c, s, t) {
                        assert(dests(v, c, s).contains(t));
                    }
                }
                if move_list(v, c).len() > 0 {
                    let p = move_list(v, c)[0];
                    lemma_move_list_contains(v, c, p.0, p.1);
                }
            }
        }
        self.masks.len() == 0
    }

    /// Every move, in the order of generation: by source square, then by destination.
    pub fn to_vec(&self) -> (r: Vec<Move>)
        ensures
            pairs_of(r@) == move_list(self.board(), self.side()),
    {
        self.move_vec()
    }

    /// Walks every move, in the order of generation.
    pub fn moves(&self) -> (r: MoveIterator)
        ensures
            r@ == move_list(self.board(), self.side()),
    {
        let moves = self.move_vec();
        let r = MoveIterator { moves, index: 0 };
        assert(r@ =~= pairs_of(moves@));
        r
    }

    /// Walks the moves of the piece of mask `index`.
    pub fn moves_for_mask(&self, index: usize) -> (r: MoveMaskIterator)
        requires
            index < self.masks().len(),
        ensures
            r.src() == self.masks()[index as int].src,
            r@ == self.masks()[index as int].dst@,
    {
        let mask = self.masks[index];
        MoveMaskIterator { src: mask.src, bits: mask.dst.set_positions() }
    }

    /// The moves that land on `pos`, in the order of generation.
    pub fn moves_ending_in(&self, pos: Pos) -> (r: Vec<Move>)
        ensures
            pairs_of(r@) == move_list(self.board(), self.side()).filter(
                |m: (int, int)| m.1 == pos@,
            ),
    {
        let all = self.move_vec();
        let ghost ml = pairs_of(all@);
        let ghost pred = |m: (int, int)| m.1 == pos@;
        let mut r: Vec<Move> = Vec::new();
        let mut j: usize = 0;
        assert(ml.take(0) =~= Seq::<(int, int)>::empty());
        proof {
            reveal(Seq::filter);
        }
        while j < all.len()
            invariant
                j <= all@.len(),
                ml == pairs_of(all@),
                pred == (|m: (int, int)| m.1 == pos@),
                pairs_of(r@) == ml.take(j as int).filter(pred),
            decreases all@.len() - j,
        {
            let m = all[j];
            let ghost old_r = r@;
            let lands = m.dst.index() == pos.index();
            if lands {
                r.push(m);
            }
            proof {
                reveal(Seq::filter);
                assert(ml.take(j + 1).drop_last() =~= ml.take(j as int));
                assert(ml.take(j + 1).last() == (m.src@, m.dst@));
                assert(pred((m.src@, m.dst@)) == lands);
                if lands {
                    assert(pairs_of(r@) =~= pairs_of(old_r).push((m.src@, m.dst@)));
                } else {
                    assert(pairs_of(r@) =~= pairs_of(old_r));
                }
            }
            j = j + 1;
        }
        assert(ml.take(all@.len() as int) =~= ml);
        r
    }

    pub fn parent_board(&self) -> (r: &'a Board)
        ensures
            r@ == self.board(),
    {
        self.parent
    }

    /// The side whose moves these are.
    pub fn color(&self) -> (r: Color)
        ensures
            r == self.side(),
    {
        self.color
    }

    /// The move at place `index` in the order of generation, if there are that many.
    pub fn nth_move(&self, index: usize) -> (r: Option<Move>)
        ensures
            index < move_list(self.board(), self.side()).len() ==> r is Some && (r->0.src@,
                r->0.dst@) == move_list(self.board(), self.side())[index as int],
            index >= move_list(self.board(), self.side()).len() ==> r is None,
    {
        let list = self.move_vec();
        if index < list.len() {
            assert(pairs_of(list@)[index as int] == (list@[index as int].src@, list@[index as int].dst@));
            Some(list[index])
        } else {
            None
        }
    }

    /// How many moves there are.
    pub fn move_count(&self) -> (r: usize)
        ensures
            r == move_list(self.board(), self.side()).len(),
    {
        self.move_vec().len()
    }
}

/// Walks the moves of a move set, in order.
pub struct MoveIterator {
    moves: Vec<Move>,
    index: usize,
}

impl View for MoveIterator {
    type V = Seq<(int, int)>;

    /// The moves not yet returned, as (source, destination).
    closed spec fn view(&self) -> Seq<(int, int)> {
        pairs_of(self.moves@).subrange(self.index as int, self.moves@.len() as int)
    }
}

impl MoveIterator {
    #[verifier::type_invariant]
    spec fn inv(self) -> bool {
        self.index <= self.moves@.len()
    }

    /// Returns the next move, or `None` once all are returned.
    pub fn next(&mut self) -> (r: Option<Move>)
        ensures
            old(self)@.len() == 0 ==> r is None && final(self)@ == old(self)@,
            old(self)@.len() > 0 ==> {
                &&& r is Some
                &&& (r->0.src@, r->0.dst@) == old(self)@[0]
                &&& final(self)@ == old(self)@.drop_first()
            },
    {
        proof {
            use_type_invariant(&*self);
        }
        if self.index < self.moves.len() {
            let m = self.moves[self.index];
            self.index = self.index + 1;
            assert(self@ =~= old(self)@.drop_first());
            Some(m)
        } else {
            None
        }
    }

    /// How many moves are left.
    pub fn count(&self) -> (r: usize)
        ensures
            r == self@.len(),
    {
        proof {
            use_type_invariant(self);
        }
        self.moves.len() - self.index
    }
}

/// Walks the moves of one piece, lowest destination first.
pub struct MoveMaskIterator {
    src: Pos,
    bits: BitBoardIterator,
}

impl View for MoveMaskIterator {
    type V = Set<int>;

    /// The destinations not yet returned.
    closed spec fn view(&self) -> Set<int> {
        self.bits@
    }
}

impl MoveMaskIterator {
    /// The square the piece moves from.
    pub closed spec fn src(self) -> Pos {
        self.src
    }

    /// Returns the move to the lowest destination not yet returned, or `None` once all
    /// are returned.
    pub fn next(&mut self) -> (r: Option<Move>)
        ensures
            final(self).src() == old(self).src(),
            old(self)@ == Set::<int>::empty() ==> r is None && final(self)@ == old(self)@,
            old(self)@ != Set::<int>::empty() ==> {
                &&& r is Some
                &&& r->0.src == old(self).src()
                &&& old(self)@.contains(r->0.dst@)
                &&& forall|j: int| #[trigger] old(self)@.contains(j) ==> r->0.dst@ <= j
                &&& final(self)@ == old(self)@.remove(r->0.dst@)
            },
    {
        match self.bits.next() {
            Some(dst) => Some(Move { src: self.src, dst }),
            None => None,
        }
    }

    /// How many moves are left.
    pub fn count(&self) -> (r: usize)
        ensures
            r == self@.len(),
    {
        let mut it = self.bits;
        let mut n: usize = 0;
        proof {
            crate::bitboard::lemma_bits_finite_iter(it);
        }
        while it.has_next()
            invariant
                it@.finite(),
                n + it@.len() == self@.len(),
                self@.len() <= 64,
            decreases it@.len(),
        {
            it.next();
            n = n + 1;
        }
        n
    }
}

/// The pseudo-legal moves of side `to_move`: for each of its pieces, in increasing order
/// of square, the squares its kind of move reaches, but those its own side holds; pieces
/// without a destination are left out.
pub fn generate_pseudo_legal_moves_for_color(board: &Board, to_move: Color) -> (r: MoveSet<'_>)
    ensures
        r.board() == board@,
        r.side() == to_move,
        masks_wf(board@, to_move, r.masks()),
{
    let allies = board.pieces_for(to_move);
    let opponents = board.pieces_for(to_move.opponent());
    let all = allies.union(opponents);
    let ghost v = board@;
    let mut masks: Vec<MoveMask> = Vec::new();
    let mut dst_positions = BitBoard::empty();
    let mut it = allies.set_positions();
    proof {
        allies.lemma_finite();
        assert(dst_positions@ =~= covered(v, to_move, allies@, it@));
    }
    while it.has_next()
        invariant
            v == board@,
            it@.finite(),
            it@.subset_of(allies@),
            allies@ == v.occupied(to_move),
            all@ == all_occupied(v),
            opponents@ == v.occupied(other(to_move)),
            forall|a: int, b: int|
                #[trigger] allies@.contains(a) && !it@.contains(a) && #[trigger] it@.contains(b) ==> a < b,
            forall|i: int, j: int|
                0 <= i < j < masks@.len() ==> #[trigger] masks@[i].src@ < #[trigger] masks@[j].src@,
            forall|i: int|
                #![trigger masks@[i]]
                0 <= i < masks@.len() ==> {
                    &&& allies@.contains(masks@[i].src@)
                    &&& !it@.contains(masks@[i].src@)
                    &&& masks@[i].dst@ == dests(v, to_move, masks@[i].src@)
                    &&& masks@[i].dst@ != Set::<int>::empty()
                },
            forall|s: int|
                allies@.contains(s) && !it@.contains(s) && dests(v, to_move, s) != Set::<
                    int,
                >::empty() ==> exists|i: int| 0 <= i < masks@.len() && #[trigger] masks@[i].src@ == s,
            dst_positions@ == covered(v, to_move, allies@, it@),
        decreases it@.len(),
    {
        let ghost before = it@;
        let ghost old_masks = masks@;
        let pos = it.next().unwrap();
        let targets = piece_targets(board, to_move, all, opponents, pos);
        let dst = targets.difference(allies);
        if !dst.is_empty() {
            masks.push(MoveMask { dst, src: pos });
            dst_positions = dst_positions.union(dst);
            proof {
                assert forall|s: int|
                    allies@.contains(s) && !it@.contains(s) && dests(v, to_move, s) != Set::<
                        int,
                    >::empty() implies exists|i: int|
                    0 <= i < masks@.len() && #[trigger] masks@[i].src@ == s by {
                    if s == pos@ {
                        assert(masks@[masks@.len() - 1].src@ == s);
                    } else {
                        let i = choose|i: int| 0 <= i < old_masks.len() && #[trigger] old_masks[i].src@ == s;
                        assert(masks@[i] == old_masks[i]);
                    }
                }
            }
        } else {
            proof {
                assert forall|s: int|
                    allies@.contains(s) && !it@.contains(s) && dests(v, to_move, s) != Set::<
                        int,
                    >::empty() implies exists|i: int|
                    0 <= i < masks@.len() && #[trigger] masks@[i].src@ == s by {
                    if s == pos@ {
                        assert(dst@ =~= Set::<int>::empty());
                    }
                }
            }
        }
        proof {
            assert forall|t: int|
                #[trigger] covered(v, to_move, allies@, it@).contains(t) <==> (covered(
                    v,
                    to_move,
                    allies@,
                    before,
                ).contains(t) || dests(v, to_move, pos@).contains(t)) by {
                if covered(v, to_move, allies@, it@).contains(t) {
                    let s = choose|s: int|
                        allies@.contains(s) && !it@.contains(s) && #[trigger] dests(
                            v,
                            to_move,
                            s,
                        ).contains(t);
                    if s != pos@ {
                        assert(covered(v, to_move, allies@, before).contains(t));
                    }
                }
                if covered(v, to_move, allies@, before).contains(t) {
                    let s = choose|s: int|
                        allies@.contains(s) && !before.contains(s) && #[trigger] dests(
                            v,
                            to_move,
                            s,
                        ).contains(t);
                    assert(!it@.contains(s));
                }
                if dests(v, to_move, pos@).contains(t) {
                    assert(allies@.contains(pos@) && !it@.contains(pos@));
                }
            }
            assert(dst_positions@ =~= covered(v, to_move, allies@, it@));
        }
    }
    proof {
        assert(it@ =~= Set::<int>::empty());
        assert forall|t: int| #[trigger] reach(v, to_move).contains(t) <==> covered(
            v,
            to_move,
            allies@,
            it@,
        ).contains(t) by {
            if reach(v, to_move).contains(t) {
                let s = choose|s: int| #[trigger] is_move(v, to_move, s, t);
                assert(dests(v, to_move, s).contains(t));
            }
            if covered(v, to_move, allies@, it@).contains(t) {
                let s = choose|s: int|
                    allies@.contains(s) && !it@.contains(s) && #[trigger] dests(
                        v,
                        to_move,
                        s,
                    ).contains(t);
                assert(is_move(v, to_move, s, t));
            }
        }
        assert(dst_positions@ =~= reach(v, to_move));
    }
    MoveSet { parent: board, color: to_move, masks, dst_positions }
}

/// The pseudo-legal moves of the side to move.
pub fn generate_pseudo_legal_moves(board: &Board) -> (r: MoveSet<'_>)
    ensures
        r.board() == board@,
        r.side() == board@.to_move,
        masks_wf(board@, board@.to_move, r.masks()),
{
    generate_pseudo_legal_moves_for_color(board, board.to_move())
}

} // verus!
