use vstd::prelude::*;

use crate::board::{Board, BoardView, empty_piece};
use crate::piece::{Color, Piece, piece_of_char};
use crate::pos::{Pos, is_space, is_space_char, on_board, square, trim_start};

verus! {

/// Why a position's text was refused.
#[derive(Debug, Clone, Copy, PartialEq, Eq, Structural)]
pub enum FenError {
    /// There is no piece placement field.
    MissingPlacement,
    /// The placement puts a piece beyond the board's edge.
    SquareOffBoard,
    /// There is no side-to-move field.
    MissingSide,
    /// The side-to-move field starts with neither `w` nor `b`.
    InvalidSide,
}

/// How far reading a placement field has come: the square the next piece goes to, the
/// pieces placed so far, and whether every piece fell on the board.
pub struct Placement {
    pub file: int,
    pub rank: int,
    pub pieces: Seq<Piece>,
    pub fits: bool,
}

/// The value of a decimal digit.
pub open spec fn digit_value(c: char) -> Option<int> {
    if '0' <= c <= '9' {
        Some(c as int - '0' as int)
    } else {
        None
    }
}

/// Reading starts on a8 with an empty board.
pub open spec fn placement_start() -> Placement {
    Placement { file: 0, rank: 7, pieces: Seq::new(64, |i: int| empty_piece()), fits: true }
}

/// One character of a placement field: `/` starts the next rank down, a digit skips that
/// many squares, and any other character puts the piece it names (an empty square for a
/// character that names none) and moves on one square. Counts past the board's edge
/// stop at the first square beyond it.
pub open spec fn place_char(st: Placement, c: char) -> Placement {
    if !st.fits {
        st
    } else if c == '/' {
        Placement { file: 0, rank: if st.rank > -1 { st.rank - 1 } else { -1 }, ..st }
    } else if digit_value(c) is Some {
        let f = st.file + digit_value(c)->0;
        Placement { file: if f < 9 { f } else { 9 }, ..st }
    } else if on_board(st.file, st.rank) {
        Placement {
            file: st.file + 1,
            pieces: st.pieces.update(square(st.file, st.rank), piece_of_char(c)),
            ..st
        }
    } else {
        Placement { fits: false, ..st }
    }
}

/// Reading a whole placement field.
pub open spec fn place_all(s: Seq<char>) -> Placement
    decreases s.len(),
{
    if s.len() == 0 {
        placement_start()
    } else {
        place_char(place_all(s.drop_last()), s.last())
    }
}

/// The length of the word that starts `s`: its characters up to the first space.
pub open spec fn word_len(s: Seq<char>) -> nat
    decreases s.len(),
{
    if s.len() > 0 && !is_space(s[0]) {
        1 + word_len(s.drop_first())
    } else {
        0
    }
}

/// The first two words of `s`: the placement field and the side-to-move field (empty
/// when missing).
pub open spec fn fen_fields(s: Seq<char>) -> (Seq<char>, Seq<char>) {
    let a = trim_start(s);
    let placement = a.take(word_len(a) as int);
    let rest = trim_start(a.skip(word_len(a) as int));
    (placement, rest.take(word_len(rest) as int))
}

/// The position that text `s` describes, or why it is refused.
pub open spec fn fen_result(s: Seq<char>) -> Result<BoardView, FenError> {
    let (placement, side) = fen_fields(s);
    let st = place_all(placement);
    if placement.len() == 0 {
        Err(FenError::MissingPlacement)
    } else if !st.fits {
        Err(FenError::SquareOffBoard)
    } else if side.len() == 0 {
        Err(FenError::MissingSide)
    } else if side[0] != 'w' && side[0] != 'b' {
        Err(FenError::InvalidSide)
    } else {
        Ok(
            BoardView {
                pieces: st.pieces,
                to_move: if side[0] == 'w' {
                    Color::White
                } else {
                    Color::Black
                },
            },
        )
    }
}

/// The first index from `from` on that holds no space.
fn skip_spaces(s: &str, n: usize, from: usize) -> (r: usize)
    requires
        n == s@.len(),
        from <= n,
    ensures
        from <= r <= n,
        trim_start(s@.subrange(from as int, n as int)) == s@.subrange(r as int, n as int),
{
    let mut i = from;
    while i < n && is_space_char(s.get_char(i))
        invariant
            from <= i <= n,
            n == s@.len(),
            trim_start(s@.subrange(from as int, n as int)) == trim_start(
                s@.subrange(i as int, n as int),
            ),
        decreases n - i,
    {
        assert(s@.subrange(i as int, n as int).drop_first() =~= s@.subrange(i + 1, n as int));
        i = i + 1;
    }
    proof {
        lemma_trimmed(s@, i as int, n as int);
    }
    i
}

proof fn lemma_trimmed(s: Seq<char>, i: int, n: int)
    requires
        0 <= i <= n <= s.len(),
        i == n || !is_space(s[i]),
    ensures
        trim_start(s.subrange(i, n)) == s.subrange(i, n),
{
}

/// The index at which the word starting at `from` ends.
fn word_end(s: &str, n: usize, from: usize) -> (r: usize)
    requires
        n == s@.len(),
        from <= n,
    ensures
        from <= r <= n,
        word_len(s@.subrange(from as int, n as int)) == r - from,
{
    let mut i = from;
    while i < n && !is_space_char(s.get_char(i))
        invariant
            from <= i <= n,
            n == s@.len(),
            word_len(s@.subrange(from as int, n as int)) == (i - from) + word_len(
                s@.subrange(i as int, n as int),
            ),
        decreases n - i,
    {
        assert(s@.subrange(i as int, n as int).drop_first() =~= s@.subrange(i + 1, n as int));
        i = i + 1;
    }
    i
}

impl Board {
    /// Reads a position: a piece placement field (rank 8 down to rank 1, ranks separated
    /// by `/`, digits for runs of empty squares, `PRNBQK` for White's pieces and `prnbqk`
    /// for Black's) and a side-to-move field (`w` or `b`), separated by spaces.
    pub fn from_fen(fen: &str) -> (r: Result<Board, FenError>)
        ensures
            r matches Ok(b) ==> fen_result(fen@) == Ok::<BoardView, FenError>(b@),
            r matches Err(e) ==> fen_result(fen@) == Err::<BoardView, FenError>(e),
    {
        let ghost s = fen@;
        let n = fen.unicode_len();
        assert(s.subrange(0, n as int) =~= s);
        let start = skip_spaces(fen, n, 0);
        let end = word_end(fen, n, start);
        let side_start = skip_spaces(fen, n, end);
        let side_end = word_end(fen, n, side_start);
        let ghost a = s.subrange(start as int, n as int);
        let ghost placement = s.subrange(start as int, end as int);
        let ghost side = s.subrange(side_start as int, side_end as int);
        proof {
            assert(a.take(word_len(a) as int) =~= placement);
            assert(a.skip(word_len(a) as int) =~= s.subrange(end as int, n as int));
            let rest = s.subrange(side_start as int, n as int);
            assert(rest.take(word_len(rest) as int) =~= side);
            assert(fen_fields(s) == (placement, side));
        }
        if start == end {
            return Err(FenError::MissingPlacement);
        }
        let mut pieces = [Piece::none(); 64];
        let mut file: i32 = 0;
        let mut rank: i32 = 7;
        let mut fits = true;
        let mut i = start;
        assert(placement.subrange(0, 0) =~= Seq::<char>::empty());
        assert(pieces@ =~= placement_start().pieces);
        while i < end
            invariant
                start <= i <= end <= n,
                n == s.len(),
                s == fen@,
                placement == s.subrange(start as int, end as int),
                ({
                    let st = place_all(s.subrange(start as int, i as int));
                    &&& st.file == file
                    &&& st.rank == rank
                    &&& st.pieces == pieces@
                    &&& st.fits == fits
                }),
                0 <= file <= 9,
                -1 <= rank <= 7,
            decreases end - i,
        {
            let c = fen.get_char(i);
            assert(s.subrange(start as int, i + 1).drop_last() =~= s.subrange(start as int, i as int));
            if fits {
                if c == '/' {
                    file = 0;
                    if rank > -1 {
                        rank = rank - 1;
                    }
                } else if '0' <= c && c <= '9' {
                    let f = file + (c as u32 - '0' as u32) as i32;
                    file = if f < 9 {
                        f
                    } else {
                        9
                    };
                } else if 0 <= file && file < 8 && 0 <= rank && rank < 8 {
                    let pos = Pos::new(file, rank);
                    pieces[pos.index()] = Piece::from_char(c);
                    file = file + 1;
                } else {
                    fits = false;
                }
            }
            i = i + 1;
        }
        assert(s.subrange(start as int, end as int) =~= placement);
        if !fits {
            return Err(FenError::SquareOffBoard);
        }
        if side_start == side_end {
            return Err(FenError::MissingSide);
        }
        let marker = fen.get_char(side_start);
        assert(side[0] == marker);
        let to_move = if marker == 'w' {
            Color::White
        } else if marker == 'b' {
            Color::Black
        } else {
            return Err(FenError::InvalidSide);
        };
        Ok(Board::from_pieces(pieces, to_move))
    }
}

} // verus!
