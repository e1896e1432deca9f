use vstd::prelude::*;

verus! {

/// The material value of each kind of piece; the king's outweighs all other material
/// together, so that taking it decides a search.
pub open spec fn kind_score(k: PieceKind) -> int {
    match k {
        PieceKind::Empty => 0,
        PieceKind::Pawn => 1,
        PieceKind::Rook => 5,
        PieceKind::Knight => 3,
        PieceKind::Bishop => 3,
        PieceKind::Queen => 10,
        PieceKind::King => 641,
    }
}

/// The lower-case letter of each kind of piece (`.` for an empty square).
pub open spec fn kind_char(k: PieceKind) -> char {
    match k {
        PieceKind::Empty => '.',
        PieceKind::Pawn => 'p',
        PieceKind::Rook => 'r',
        PieceKind::Knight => 'n',
        PieceKind::Bishop => 'b',
        PieceKind::Queen => 'q',
        PieceKind::King => 'k',
    }
}

/// The upper-case letter of each kind of piece (`.` for an empty square).
pub open spec fn kind_upper_char(k: PieceKind) -> char {
    match k {
        PieceKind::Empty => '.',
        PieceKind::Pawn => 'P',
        PieceKind::Rook => 'R',
        PieceKind::Knight => 'N',
        PieceKind::Bishop => 'B',
        PieceKind::Queen => 'Q',
        PieceKind::King => 'K',
    }
}

/// The kind of piece that letter `c` names, in either case; `Empty` for any other character.
pub open spec fn kind_of_char(c: char) -> PieceKind {
    if c == 'p' || c == 'P' {
        PieceKind::Pawn
    } else if c == 'r' || c == 'R' {
        PieceKind::Rook
    } else if c == 'n' || c == 'N' {
        PieceKind::Knight
    } else if c == 'b' || c == 'B' {
        PieceKind::Bishop
    } else if c == 'q' || c == 'Q' {
        PieceKind::Queen
    } else if c == 'k' || c == 'K' {
        PieceKind::King
    } else {
        PieceKind::Empty
    }
}

/// The other side.
pub open spec fn other(c: Color) -> Color {
    match c {
        Color::White => Color::Black,
        Color::Black => Color::White,
    }
}

/// The slot of each side in per-side tables.
pub open spec fn color_index(c: Color) -> int {
    match c {
        Color::White => 0,
        Color::Black => 1,
    }
}

#[derive(Debug, Clone, Copy, PartialEq, Eq, Structural)]
pub enum PieceKind {
    Empty,
    Pawn,
    Rook,
    Knight,
    Bishop,
    Queen,
    King,
}

#[derive(Debug, Clone, Copy, PartialEq, Eq, Structural)]
pub enum Color {
    White,
    Black,
}

/// What stands on a square: a kind and a side. An empty square holds a piece of kind
/// `Empty`.
#[derive(Debug, Clone, Copy, PartialEq, Eq, Structural)]
pub struct Piece {
    pub kind: PieceKind,
    pub color: Color,
}

impl PieceKind {
    pub fn to_char(&self) -> (c: char)
        ensures
            c == kind_char(*self),
    {
        match self {
            PieceKind::Empty => '.',
            PieceKind::Pawn => 'p',
            PieceKind::Rook => 'r',
            PieceKind::Knight => 'n',
            PieceKind::Bishop => 'b',
            PieceKind::Queen => 'q',
            PieceKind::King => 'k',
        }
    }

    pub fn from_char(c: char) -> (k: PieceKind)
        ensures
            k == kind_of_char(c),
    {
        match c {
            'p' | 'P' => PieceKind::Pawn,
            'r' | 'R' => PieceKind::Rook,
            'n' | 'N' => PieceKind::Knight,
            'b' | 'B' => PieceKind::Bishop,
            'q' | 'Q' => PieceKind::Queen,
            'k' | 'K' => PieceKind::King,
            _ => PieceKind::Empty,
        }
    }

    pub fn score(&self) -> (r: i64)
        ensures
            r == kind_score(*self),
    {
        match self {
            PieceKind::Empty => 0,
            PieceKind::Pawn => 1,
            PieceKind::Rook => 5,
            PieceKind::Knight => 3,
            PieceKind::Bishop => 3,
            PieceKind::Queen => 10,
            PieceKind::King => 641,
        }
    }
}

impl Color {
    pub fn opponent(&self) -> (r: Color)
        ensures
            r == other(*self),
    {
        match self {
            Color::White => Color::Black,
            Color::Black => Color::White,
        }
    }

    pub fn index(&self) -> (r: usize)
        ensures
            r == color_index(*self),
    {
        match self {
            Color::White => 0,
            Color::Black => 1,
        }
    }

    /// The side's name: `White` or `Black`.
    pub fn name(&self) -> (r: &'static str)
        ensures
            *self == Color::White ==> r@ == "White"@,
            *self == Color::Black ==> r@ == "Black"@,
    {
        match self {
            Color::White => "White",
            Color::Black => "Black",
        }
    }

    pub fn signed_value(&self) -> (r: i64)
        ensures
            r == (if *self == Color::White { 1int } else { -1int }),
    {
        match self {
            Color::White => 1,
            Color::Black => -1,
        }
    }
}

/// The piece that letter `c` names: upper case is White, anything else Black.
pub open spec fn piece_of_char(c: char) -> Piece {
    Piece {
        kind: kind_of_char(c),
        color: if 'A' <= c <= 'Z' {
            Color::White
        } else {
            Color::Black
        },
    }
}

impl Piece {
    pub open spec fn letter(self) -> char {
        if self.color == Color::White {
            kind_upper_char(self.kind)
        } else {
            kind_char(self.kind)
        }
    }

    pub fn none() -> (p: Piece)
        ensures
            p.kind == PieceKind::Empty,
            p.color == Color::White,
    {
        Piece { kind: PieceKind::Empty, color: Color::White }
    }

    pub fn new(kind: PieceKind, color: Color) -> (p: Piece)
        ensures
            p.kind == kind,
            p.color == color,
    {
        Piece { kind: kind, color: color }
    }

    pub fn is_none(&self) -> (r: bool)
        ensures
            r == (self.kind == PieceKind::Empty),
    {
        match self.kind {
            PieceKind::Empty => true,
            _ => false,
        }
    }

    /// The piece's letter: upper case for White, lower case for Black.
    pub fn to_char(&self) -> (c: char)
        ensures
            c == self.letter(),
    {
        match self.color {
            Color::White => match self.kind {
                PieceKind::Empty => '.',
                PieceKind::Pawn => 'P',
                PieceKind::Rook => 'R',
                PieceKind::Knight => 'N',
                PieceKind::Bishop => 'B',
                PieceKind::Queen => 'Q',
                PieceKind::King => 'K',
            },
            Color::Black => self.kind.to_char(),
        }
    }

    /// The piece that letter `c` names: upper case is White, anything else Black.
    pub fn from_char(c: char) -> (p: Piece)
        ensures
            p == piece_of_char(c),
    {
        let color = if 'A' <= c && c <= 'Z' {
            Color::White
        } else {
            Color::Black
        };
        Piece::new(PieceKind::from_char(c), color)
    }
}

} // verus!
