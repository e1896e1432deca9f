use vstd::prelude::*;

verus! {

/// Whether column `x` and row `y` name a square of the board.
pub open spec fn on_board(x: int, y: int) -> bool {
    0 <= x < 8 && 0 <= y < 8
}

/// The index of the square at column `x` and row `y`.
pub open spec fn square(x: int, y: int) -> int {
    x * 8 + y
}

/// The column of the square with index `s`.
pub open spec fn col_of(s: int) -> int {
    s / 8
}

/// The row of the square with index `s`.
pub open spec fn row_of(s: int) -> int {
    s % 8
}

/// The letter of column `x` (`a` to `h`).
pub open spec fn file_char(x: int) -> char {
    if x == 0 {
        'a'
    } else if x == 1 {
        'b'
    } else if x == 2 {
        'c'
    } else if x == 3 {
        'd'
    } else if x == 4 {
        'e'
    } else if x == 5 {
        'f'
    } else if x == 6 {
        'g'
    } else {
        'h'
    }
}

/// The digit of row `y` (`1` to `8`).
pub open spec fn rank_char(y: int) -> char {
    if y == 0 {
        '1'
    } else if y == 1 {
        '2'
    } else if y == 2 {
        '3'
    } else if y == 3 {
        '4'
    } else if y == 4 {
        '5'
    } else if y == 5 {
        '6'
    } else if y == 6 {
        '7'
    } else {
        '8'
    }
}

/// The column that letter `c` names, if it is one of `a` to `h`.
pub open spec fn file_of_char(c: char) -> Option<int> {
    if 'a' <= c <= 'h' {
        Some(c as int - 'a' as int)
    } else {
        None
    }
}

/// The row that digit `c` names, if it is one of `1` to `8`.
pub open spec fn rank_of_char(c: char) -> Option<int> {
    if '1' <= c <= '8' {
        Some(c as int - '1' as int)
    } else {
        None
    }
}

/// The white-space characters of Unicode (those `char::is_whitespace` accepts), which
/// may surround a square's name or separate the fields of a position.
pub open spec fn is_space(c: char) -> bool {
    ('\u{9}' <= c <= '\u{d}') || c == ' ' || c == '\u{85}' || c == '\u{a0}' || c == '\u{1680}'
        || ('\u{2000}' <= c <= '\u{200a}') || c == '\u{2028}' || c == '\u{2029}' || c
        == '\u{202f}' || c == '\u{205f}' || c == '\u{3000}'
}

/// `s` without its leading spaces.
pub open spec fn trim_start(s: Seq<char>) -> Seq<char>
    decreases s.len(),
{
    if s.len() > 0 && is_space(s[0]) {
        trim_start(s.drop_first())
    } else {
        s
    }
}

/// `s` without its trailing spaces.
pub open spec fn trim_end(s: Seq<char>) -> Seq<char>
    decreases s.len(),
{
    if s.len() > 0 && is_space(s.last()) {
        trim_end(s.drop_last())
    } else {
        s
    }
}

/// The square that text `s` names: two characters, a column letter and a row digit,
/// with any spaces around them.
pub open spec fn parse_square(s: Seq<char>) -> Option<int> {
    let t = trim_end(trim_start(s));
    if t.len() == 2 && file_of_char(t[0]) is Some && rank_of_char(t[1]) is Some {
        Some(square(file_of_char(t[0])->0, rank_of_char(t[1])->0))
    } else {
        None
    }
}

/// The name of the square with index `s`, such as `e4`.
pub open spec fn square_name(s: int) -> Seq<char> {
    seq![file_char(col_of(s)), rank_char(row_of(s))]
}

pub(crate) fn is_space_char(c: char) -> (r: bool)
    ensures
        r == is_space(c),
{
    ('\u{9}' <= c && c <= '\u{d}') || c == ' ' || c == '\u{85}' || c == '\u{a0}' || c
        == '\u{1680}' || ('\u{2000}' <= c && c <= '\u{200a}') || c == '\u{2028}' || c
        == '\u{2029}' || c == '\u{202f}' || c == '\u{205f}' || c == '\u{3000}'
}

fn file_text(x: i32) -> (r: &'static str)
    requires
        0 <= x < 8,
    ensures
        r@ == seq![file_char(x as int)],
{
    match x {
        0 => {
            proof { reveal_strlit("a"); }
            "a"
        },
        1 => {
            proof { reveal_strlit("b"); }
            "b"
        },
        2 => {
            proof { reveal_strlit("c"); }
            "c"
        },
        3 => {
            proof { reveal_strlit("d"); }
            "d"
        },
        4 => {
            proof { reveal_strlit("e"); }
            "e"
        },
        5 => {
            proof { reveal_strlit("f"); }
            "f"
        },
        6 => {
            proof { reveal_strlit("g"); }
            "g"
        },
        _ => {
            proof { reveal_strlit("h"); }
            "h"
        },
    }
}

pub(crate) fn rank_text(y: i32) -> (r: &'static str)
    requires
        0 <= y < 8,
    ensures
        r@ == seq![rank_char(y as int)],
{
    match y {
        0 => {
            proof { reveal_strlit("1"); }
            "1"
        },
        1 => {
            proof { reveal_strlit("2"); }
            "2"
        },
        2 => {
            proof { reveal_strlit("3"); }
            "3"
        },
        3 => {
            proof { reveal_strlit("4"); }
            "4"
        },
        4 => {
            proof { reveal_strlit("5"); }
            "5"
        },
        5 => {
            proof { reveal_strlit("6"); }
            "6"
        },
        6 => {
            proof { reveal_strlit("7"); }
            "7"
        },
        _ => {
            proof { reveal_strlit("8"); }
            "8"
        },
    }
}

/// A column and a row on the board make a square, and the square gives them back; every
/// square comes from its own column and row.
pub proof fn lemma_square_round_trip(x: int, y: int, s: int)
    ensures
        on_board(x, y) ==> 0 <= square(x, y) < 64 && col_of(square(x, y)) == x && row_of(
            square(x, y),
        ) == y,
        0 <= s < 64 ==> on_board(col_of(s), row_of(s)) && square(col_of(s), row_of(s)) == s,
{
    if on_board(x, y) {
        vstd::arithmetic::div_mod::lemma_fundamental_div_mod_converse(square(x, y), 8, x, y);
    }
    if 0 <= s < 64 {
        vstd::arithmetic::div_mod::lemma_fundamental_div_mod(s, 8);
    }
}

/// A square of the board, packed as `column * 8 + row` (a1 is 0, a2 is 1, b1 is 8).
#[derive(Debug, Clone, Copy, PartialEq, Eq, Structural)]
pub struct Pos {
    i: u8,
}

impl View for Pos {
    type V = int;

    /// The index of the square, in `0..64`.
    closed spec fn view(&self) -> int {
        (self.i % 64) as int
    }
}

impl Pos {
    #[verifier::type_invariant]
    spec fn inv(self) -> bool {
        self.i < 64
    }

    /// The square at column `x` and row `y`, both of which must be on the board.
    pub fn new(x: i32, y: i32) -> (p: Pos)
        requires
            on_board(x as int, y as int),
        ensures
            p@ == square(x as int, y as int),
    {
        Pos { i: (x * 8 + y) as u8 }
    }

    /// The index of every square is in `0..64`.
    pub proof fn lemma_range(self)
        ensures
            0 <= self@ < 64,
    {
    }

    /// The square at column `x` and row `y`, or `None` when either is off the board.
    pub fn try_new(x: i32, y: i32) -> (r: Option<Pos>)
        ensures
            r is Some <==> on_board(x as int, y as int),
            r is Some ==> r->0@ == square(x as int, y as int),
    {
        if 0 <= x && x < 8 && 0 <= y && y < 8 {
            Some(Pos::new(x, y))
        } else {
            None
        }
    }

    pub fn from_index(index: usize) -> (p: Pos)
        requires
            index < 64,
        ensures
            p@ == index,
    {
        Pos { i: index as u8 }
    }

    pub fn index(&self) -> (r: usize)
        ensures
            r == self@,
            r < 64,
    {
        proof {
            use_type_invariant(self);
        }
        self.i as usize
    }

    pub fn col(&self) -> (r: i32)
        ensures
            r == col_of(self@),
            0 <= r < 8,
    {
        proof {
            use_type_invariant(self);
        }
        (self.i / 8) as i32
    }

    pub fn row(&self) -> (r: i32)
        ensures
            r == row_of(self@),
            0 <= r < 8,
    {
        proof {
            use_type_invariant(self);
        }
        (self.i % 8) as i32
    }

    pub fn file_symbol(&self) -> (c: char)
        ensures
            c == file_char(col_of(self@)),
    {
        match self.col() {
            0 => 'a',
            1 => 'b',
            2 => 'c',
            3 => 'd',
            4 => 'e',
            5 => 'f',
            6 => 'g',
            _ => 'h',
        }
    }

    /// The square's name, such as `e4`.
    pub fn to_string(&self) -> (r: String)
        ensures
            r@ == square_name(self@),
    {
        let mut r = String::new();
        r.append(file_text(self.col()));
        r.append(rank_text(self.row()));
        r
    }

    /// Reads a square's name, such as `e4`; spaces around it are ignored.
    pub fn parse(s: &str) -> (r: Result<Pos, ()>)
        ensures
            r is Ok <==> parse_square(s@) is Some,
            r is Ok ==> r->Ok_0@ == parse_square(s@)->0,
    {
        let n = s.unicode_len();
        let mut lo: usize = 0;
        assert(s@.subrange(0, n as int) =~= s@);
        while lo < n && is_space_char(s.get_char(lo))
            invariant
                lo <= n,
                n == s@.len(),
                trim_start(s@) == trim_start(s@.subrange(lo as int, n as int)),
            decreases n - lo,
        {
            assert(s@.subrange(lo as int, n as int).drop_first() =~= s@.subrange(
                lo + 1,
                n as int,
            ));
            lo = lo + 1;
        }
        assert(trim_start(s@) == s@.subrange(lo as int, n as int));
        let mut hi: usize = n;
        while hi > lo && is_space_char(s.get_char(hi - 1))
            invariant
                lo <= hi <= n,
                n == s@.len(),
                trim_end(trim_start(s@)) == trim_end(s@.subrange(lo as int, hi as int)),
            decreases hi,
        {
            assert(s@.subrange(lo as int, hi as int).drop_last() =~= s@.subrange(
                lo as int,
                hi - 1,
            ));
            hi = hi - 1;
        }
        let ghost t = s@.subrange(lo as int, hi as int);
        assert(trim_end(trim_start(s@)) == t);
        if hi - lo != 2 {
            return Err(());
        }
        let c = s.get_char(lo);
        let d = s.get_char(lo + 1);
        assert(t[0] == c && t[1] == d);
        if 'a' <= c && c <= 'h' && '1' <= d && d <= '8' {
            let x = (c as u32 - 'a' as u32) as i32;
            let y = (d as u32 - '1' as u32) as i32;
            Ok(Pos::new(x, y))
        } else {
            Err(())
        }
    }
}

impl std::str::FromStr for Pos {
    type Err = ();

    fn from_str(s: &str) -> Result<Pos, ()> {
        Pos::parse(s)
    }
}

} // verus!
