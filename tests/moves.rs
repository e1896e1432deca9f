use chess_engine::board::Board;
use chess_engine::moves::{Move, generate_pseudo_legal_moves, generate_pseudo_legal_moves_for_color};
use chess_engine::piece::Color;
use chess_engine::pos::Pos;

const START: &str = "rnbqkbnr/pppppppp/8/8/8/8/PPPPPPPP/RNBQKBNR w";

fn sq(name: &str) -> Pos {
    Pos::parse(name).unwrap()
}

fn mv(src: &str, dst: &str) -> Move {
    Move { src: sq(src), dst: sq(dst) }
}

fn names(moves: &[Move]) -> Vec<String> {
    moves.iter().map(|m| format!("{}{}", m.src.to_string(), m.dst.to_string())).collect()
}

#[test]
fn start_position_has_twenty_moves() {
    let b = Board::from_fen(START).unwrap();
    let ms = generate_pseudo_legal_moves(&b);
    assert_eq!(ms.move_count(), 20);
    assert_eq!(ms.to_vec().len(), 20);
    assert_eq!(ms.moves().count(), 20);
    assert_eq!(ms.move_masks().len(), 10);
    assert!(!ms.is_empty());
    let pawn_moves = ms.to_vec().iter().filter(|m| m.src.row() == 1).count();
    assert_eq!(pawn_moves, 16);
    assert_eq!(ms.all_dst_positions().bit_count(), 16);
}

#[test]
fn start_position_move_order() {
    let b = Board::from_fen(START).unwrap();
    let ms = generate_pseudo_legal_moves(&b);
    let all = names(&ms.to_vec());
    assert_eq!(&all[0..4], &["a2a3", "a2a4", "b1a3", "b1c3"]);
    let mut it = ms.moves();
    assert_eq!(it.next(), Some(mv("a2", "a3")));
    assert_eq!(it.next(), Some(mv("a2", "a4")));
    assert_eq!(it.count(), 18);
    assert_eq!(ms.nth_move(3), Some(mv("b1", "c3")));
    assert_eq!(ms.nth_move(20), None);
    assert_eq!(names(&ms.moves_ending_in(sq("c3"))), vec!["b1c3", "c2c3"]);
    assert!(ms.moves_ending_in(sq("e5")).is_empty());
}

#[test]
fn start_position_black_moves() {
    let b = Board::from_fen(START).unwrap();
    let ms = generate_pseudo_legal_moves_for_color(&b, Color::Black);
    assert_eq!(ms.move_count(), 20);
    assert_eq!(ms.color(), Color::Black);
    assert!(ms.to_vec().contains(&mv("e7", "e5")));
    assert!(ms.to_vec().contains(&mv("g8", "f6")));
}

#[test]
fn rook_on_empty_board_reaches_fourteen_squares() {
    let b = Board::from_fen("8/8/8/8/3R4/8/8/8 w").unwrap();
    let ms = generate_pseudo_legal_moves(&b);
    assert_eq!(ms.move_count(), 14);
    assert_eq!(ms.all_dst_positions().bit_count(), 14);
    let masks = ms.move_masks();
    assert_eq!(masks.len(), 1);
    assert_eq!(masks[0].src, sq("d4"));
    let mut it = ms.moves_for_mask(0);
    assert_eq!(it.count(), 14);
    assert_eq!(it.next(), Some(mv("d4", "a4")));
}

#[test]
fn sliding_pieces_stop_at_first_piece() {
    let b = Board::from_fen("8/8/3p4/8/1P1Q4/8/8/8 w").unwrap();
    let ms = generate_pseudo_legal_moves(&b);
    let all = ms.to_vec();
    assert!(all.contains(&mv("d4", "d6")));
    assert!(!all.contains(&mv("d4", "d7")));
    assert!(all.contains(&mv("d4", "c4")));
    assert!(!all.contains(&mv("d4", "b4")));
    assert!(!all.contains(&mv("d4", "a4")));
    assert!(all.contains(&mv("d4", "a7")));
    assert!(all.contains(&mv("d4", "h8")));
}

#[test]
fn pawn_rules() {
    let b = Board::from_fen("8/8/8/8/8/p1p5/1P5P/7n w").unwrap();
    let ms = generate_pseudo_legal_moves(&b);
    let all = names(&ms.to_vec());
    assert_eq!(all, vec!["b2a3", "b2b3", "b2b4", "b2c3", "h2h3", "h2h4"]);
    let blocked = Board::from_fen("8/8/8/8/8/1n6/1P6/8 w").unwrap();
    assert!(generate_pseudo_legal_moves(&blocked).is_empty());
    let black = Board::from_fen("8/3p4/4P3/8/8/8/8/8 b").unwrap();
    let all = names(&generate_pseudo_legal_moves(&black).to_vec());
    assert_eq!(all, vec!["d7d5", "d7d6", "d7e6"]);
    let last_rank = Board::from_fen("3P4/8/8/8/8/8/8/8 w").unwrap();
    assert!(generate_pseudo_legal_moves(&last_rank).is_empty());
}

#[test]
fn knight_and_king_offsets() {
    let b = Board::from_fen("8/8/8/8/8/8/8/N6K w").unwrap();
    let all = names(&generate_pseudo_legal_moves(&b).to_vec());
    assert_eq!(all, vec!["a1b3", "a1c2", "h1g1", "h1g2", "h1h2"]);
}

#[test]
fn boxed_in_king_has_no_moves() {
    let b = Board::from_fen("PP6/PP6/PP6/PP6/PP6/PP6/PP6/KP6 w").unwrap();
    let ms = generate_pseudo_legal_moves(&b);
    assert!(ms.is_empty());
    assert_eq!(ms.move_count(), 0);
    assert!(ms.all_dst_positions().is_empty());
    assert!(ms.moves().next().is_none());
}
