use vstd::prelude::*;

use crate::bitboard::BitBoard;
use crate::board::Board;
use crate::piece::{Color, Piece, PieceKind};
use crate::pos::{Pos, rank_char, rank_text, square};

verus! {

/// One row of the picture: the rank's digit, then each square's character, lowest
/// column first, then the digit again.
pub open spec fn grid_row(cells: Seq<char>, row: int) -> Seq<char> {
    seq![rank_char(row), '|'] + row_cells(cells, row, 8) + seq![' ', '|', rank_char(row), '\n']
}

/// The first `n` squares of a row, each after a space.
pub open spec fn row_cells(cells: Seq<char>, row: int, n: int) -> Seq<char>
    decreases n,
{
    if n <= 0 {
        Seq::empty()
    } else {
        row_cells(cells, row, n - 1) + seq![' ', cells[square(n - 1, row)]]
    }
}

/// The first `n` rows of the picture, from rank 8 down.
pub open spec fn grid_rows(cells: Seq<char>, n: int) -> Seq<char>
    decreases n,
{
    if n <= 0 {
        Seq::empty()
    } else {
        grid_rows(cells, n - 1) + grid_row(cells, 8 - n)
    }
}

/// A picture of the board with character `cells[s]` on square `s`: rank 8 at the top,
/// files labelled below and above.
pub open spec fn grid_text(cells: Seq<char>) -> Seq<char> {
    "   a b c d e f g h\n +-----------------+\n"@ + grid_rows(cells, 8)
        + " +-----------------+\n   a b c d e f g h\n"@
}

fn letter_text(p: Piece) -> (r: &'static str)
    ensures
        r@ == seq![p.letter()],
{
    match (p.color, p.kind) {
        (_, PieceKind::Empty) => {
            proof { reveal_strlit("."); }
            "."
        },
        (Color::White, PieceKind::Pawn) => {
            proof { reveal_strlit("P"); }
            "P"
        },
        (Color::White, PieceKind::Rook) => {
            proof { reveal_strlit("R"); }
            "R"
        },
        (Color::White, PieceKind::Knight) => {
            proof { reveal_strlit("N"); }
            "N"
        },
        (Color::White, PieceKind::Bishop) => {
            proof { reveal_strlit("B"); }
            "B"
        },
        (Color::White, PieceKind::Queen) => {
            proof { reveal_strlit("Q"); }
            "Q"
        },
        (Color::White, PieceKind::King) => {
            proof { reveal_strlit("K"); }
            "K"
        },
        (Color::Black, PieceKind::Pawn) => {
            proof { reveal_strlit("p"); }
            "p"
        },
        (Color::Black, PieceKind::Rook) => {
            proof { reveal_strlit("r"); }
            "r"
        },
        (Color::Black, PieceKind::Knight) => {
            proof { reveal_strlit("n"); }
            "n"
        },
        (Color::Black, PieceKind::Bishop) => {
            proof { reveal_strlit("b"); }
            "b"
        },
        (Color::Black, PieceKind::Queen) => {
            proof { reveal_strlit("q"); }
            "q"
        },
        (Color::Black, PieceKind::King) => {
            proof { reveal_strlit("k"); }
            "k"
        },
    }
}

/// Draws the picture whose square `s` shows `cells[s]`, given each square's character as
/// text.
fn draw(cells: Ghost<Seq<char>>, texts: &Vec<&'static str>) -> (r: String)
    requires
        cells@.len() == 64,
        texts@.len() == 64,
        forall|s: int| 0 <= s < 64 ==> (#[trigger] texts@[s])@ == seq![cells@[s]],
    ensures
        r@ == grid_text(cells@),
{
    let mut r = String::new();
    r.append("   a b c d e f g h\n +-----------------+\n");
    let mut n: i32 = 0;
    while n < 8
        invariant
            0 <= n <= 8,
            cells@.len() == 64,
            texts@.len() == 64,
            forall|s: int| 0 <= s < 64 ==> (#[trigger] texts@[s])@ == seq![cells@[s]],
            r@ == "   a b c d e f g h\n +-----------------+\n"@ + grid_rows(cells@, n as int),
        decreases 8 - n,
    {
        let row = 7 - n;
        r.append(rank_text(row));
        proof { reveal_strlit("|"); }
        r.append("|");
        let ghost line_start = r@;
        let mut x: i32 = 0;
        assert(r@ == line_start + row_cells(cells@, row as int, 0));
        while x < 8
            invariant
                0 <= x <= 8,
                0 <= row < 8,
                cells@.len() == 64,
                texts@.len() == 64,
                forall|s: int| 0 <= s < 64 ==> (#[trigger] texts@[s])@ == seq![cells@[s]],
                r@ == line_start + row_cells(cells@, row as int, x as int),
            decreases 8 - x,
        {
            proof { reveal_strlit(" "); }
            r.append(" ");
            let s = Pos::new(x, row).index();
            r.append(texts[s]);
            assert(r@ =~= line_start + row_cells(cells@, row as int, x + 1));
            x = x + 1;
        }
        proof { reveal_strlit(" |"); }
        r.append(" |");
        r.append(rank_text(row));
        proof { reveal_strlit("\n"); }
        r.append("\n");
        assert(r@ =~= "   a b c d e f g h\n +-----------------+\n"@ + grid_rows(cells@, n + 1));
        n = n + 1;
    }
    r.append(" +-----------------+\n   a b c d e f g h\n");
    r
}

impl Board {
    /// A picture of the board: each piece's letter, `.` for an empty square.
    pub fn to_text(&self) -> (r: String)
        ensures
            r@ == grid_text(Seq::new(64, |s: int| self@.pieces[s].letter())),
    {
        let ghost cells = Seq::new(64, |s: int| self@.pieces[s].letter());
        let mut texts: Vec<&'static str> = Vec::new();
        let mut i: usize = 0;
        while i < 64
            invariant
                i <= 64,
                cells == Seq::new(64, |s: int| self@.pieces[s].letter()),
                texts@.len() == i,
                forall|s: int| 0 <= s < i ==> (#[trigger] texts@[s])@ == seq![cells[s]],
            decreases 64 - i,
        {
            texts.push(letter_text(self.piece_at(Pos::from_index(i))));
            i = i + 1;
        }
        draw(Ghost(cells), &texts)
    }
}

impl BitBoard {
    /// A picture of the set: `1` on its squares, `0` elsewhere.
    pub fn to_text(&self) -> (r: String)
        ensures
            r@ == grid_text(Seq::new(64, |s: int| if self@.contains(s) { '1' } else { '0' })),
    {
        let ghost cells = Seq::new(64, |s: int| if self@.contains(s) { '1' } else { '0' });
        let mut texts: Vec<&'static str> = Vec::new();
        let mut i: usize = 0;
        while i < 64
            invariant
                i <= 64,
                cells == Seq::new(64, |s: int| if self@.contains(s) { '1' } else { '0' }),
                texts@.len() == i,
                forall|s: int| 0 <= s < i ==> (#[trigger] texts@[s])@ == seq![cells[s]],
            decreases 64 - i,
        {
            if self.contains(Pos::from_index(i)) {
                proof { reveal_strlit("1"); }
                texts.push("1");
            } else {
                proof { reveal_strlit("0"); }
                texts.push("0");
            }
            i = i + 1;
        }
        draw(Ghost(cells), &texts)
    }
}

} // verus!
