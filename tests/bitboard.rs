use chess_engine::bitboard::BitBoard;
use chess_engine::pos::Pos;

fn board_of(squares: &[(i32, i32)]) -> BitBoard {
    let mut b = BitBoard::empty();
    for &(x, y) in squares {
        b.insert(Pos::new(x, y));
    }
    b
}

fn squares_of(b: BitBoard) -> Vec<usize> {
    let mut it = b.set_positions();
    let mut r = Vec::new();
    while let Some(p) = it.next() {
        r.push(p.index());
    }
    r
}

#[test]
fn bitboard_set_operations() {
    let a = board_of(&[(0, 0), (3, 3), (7, 7)]);
    let b = board_of(&[(3, 3), (4, 4)]);
    assert!(BitBoard::empty().is_empty());
    assert!(!a.is_empty());
    assert!(a.contains(Pos::new(3, 3)));
    assert!(!a.contains(Pos::new(4, 4)));
    assert_eq!(squares_of(a.intersect(b)), vec![27]);
    assert_eq!(squares_of(a.union(b)), vec![0, 27, 36, 63]);
    assert_eq!(squares_of(a.difference(b)), vec![0, 63]);
    assert_eq!(a.bit_count(), 3);
    assert_eq!(BitBoard::empty().bit_count(), 0);
    let mut c = a;
    c.remove(Pos::new(0, 0));
    assert_eq!(squares_of(c), vec![27, 63]);
}

#[test]
fn bitboard_iterates_lowest_first_and_restarts() {
    let a = board_of(&[(7, 7), (0, 5), (2, 1)]);
    assert_eq!(squares_of(a), vec![5, 17, 63]);
    assert_eq!(squares_of(a), vec![5, 17, 63]);
}

#[test]
fn bitboard_shifts_do_not_wrap() {
    let a = board_of(&[(0, 3), (7, 3), (4, 0)]);
    assert_eq!(squares_of(a.shift_left()), vec![24, 51]);
    assert_eq!(squares_of(a.shift_right()), vec![11, 40]);
    let full = board_of(&[(0, 7)]);
    assert!(full.shift_left().is_empty());
    let edge = board_of(&[(7, 0)]);
    assert!(edge.shift_right().is_empty());
}

#[test]
fn bitboard_full_board_count() {
    let mut b = BitBoard::empty();
    for i in 0..64 {
        b.insert(Pos::from_index(i));
    }
    assert_eq!(b.bit_count(), 64);
    assert_eq!(squares_of(b).len(), 64);
}
