use chess_engine::bitboard::BitBoard;
use chess_engine::board::Board;
use chess_engine::fen::FenError;
use chess_engine::moves::{Move, generate_pseudo_legal_moves};
use chess_engine::piece::{Color, Piece, PieceKind};
use chess_engine::pos::Pos;

const START: &str = "rnbqkbnr/pppppppp/8/8/8/8/PPPPPPPP/RNBQKBNR w";

fn sq(name: &str) -> Pos {
    Pos::parse(name).unwrap()
}

fn mv(src: &str, dst: &str) -> Move {
    Move { src: sq(src), dst: sq(dst) }
}

#[test]
fn board_from_fen_start_position() {
    let b = Board::from_fen(START).unwrap();
    assert_eq!(b.to_move(), Color::White);
    assert_eq!(b.piece_at(sq("e1")), Piece::new(PieceKind::King, Color::White));
    assert_eq!(b.piece_at(sq("d8")), Piece::new(PieceKind::Queen, Color::Black));
    assert_eq!(b.piece_at(sq("b1")), Piece::new(PieceKind::Knight, Color::White));
    assert!(b.piece_at(sq("e4")).is_none());
    assert_eq!(b.pieces_for(Color::White).bit_count(), 16);
    assert_eq!(b.pieces_for(Color::Black).bit_count(), 16);
    assert!(b.has_king(Color::White));
    assert!(b.has_king(Color::Black));
    assert_eq!(b.king_pos(Color::White), sq("e1"));
    assert_eq!(b.king_pos(Color::Black), sq("e8"));
}

#[test]
fn board_from_fen_black_to_move_and_spaces() {
    let b = Board::from_fen("  4k3/8/8/8/8/8/8/4K3   b  extra").unwrap();
    assert_eq!(b.to_move(), Color::Black);
    assert_eq!(b.pieces_for(Color::White).bit_count(), 1);
    let c = Board::from_fen("4k3/8/8/8/8/8/8/4K3\u{3000}b").unwrap();
    assert_eq!(c.to_move(), Color::Black);
}

#[test]
fn board_from_fen_errors() {
    assert_eq!(Board::from_fen("").err(), Some(FenError::MissingPlacement));
    assert_eq!(Board::from_fen("   ").err(), Some(FenError::MissingPlacement));
    assert_eq!(Board::from_fen("8/8/8/8/8/8/8/8").err(), Some(FenError::MissingSide));
    assert_eq!(Board::from_fen("8/8/8/8/8/8/8/8 x").err(), Some(FenError::InvalidSide));
    assert_eq!(Board::from_fen("9P/8/8/8/8/8/8/8 w").err(), Some(FenError::SquareOffBoard));
    assert_eq!(Board::from_fen("8/8/8/8/8/8/8/8/P w").err(), Some(FenError::SquareOffBoard));
    assert_eq!(Board::from_fen("8/8/8/8/8/8/8/8/P").err(), Some(FenError::SquareOffBoard));
}

#[test]
fn board_from_fen_malformed_letters_are_empty_squares() {
    let b = Board::from_fen("8/8/8/8/8/8/8/3Z3K w").unwrap();
    assert!(b.piece_at(sq("d1")).is_none());
    assert_eq!(b.piece_at(sq("h1")), Piece::new(PieceKind::King, Color::White));
    assert_eq!(b.pieces_for(Color::White).bit_count(), 1);
    assert_eq!(b.pieces_for(Color::Black).bit_count(), 0);
}

#[test]
fn board_empty() {
    let b = Board::empty();
    assert_eq!(b.to_move(), Color::White);
    assert!(b.pieces_for(Color::White).is_empty());
    assert!(!b.has_king(Color::White));
    assert!(b.all_pieces().next().is_none());
}

#[test]
fn board_occupancy_matches_pieces() {
    let b = Board::from_fen("r3k2r/pp3ppp/8/3Q4/8/8/PPP2PPP/R3K2R b").unwrap();
    let white: BitBoard = b.pieces_for(Color::White);
    let black: BitBoard = b.pieces_for(Color::Black);
    for i in 0..64 {
        let p = Pos::from_index(i);
        let piece = b.piece_at(p);
        if piece.is_none() {
            assert!(!white.contains(p) && !black.contains(p));
        } else {
            assert!(white.contains(p) != black.contains(p));
            assert_eq!(white.contains(p), piece.color == Color::White);
        }
    }
}

#[test]
fn board_play_moves_piece_and_flips_side() {
    let b = Board::from_fen(START).unwrap();
    let after = b.play(mv("e2", "e4")).unwrap();
    assert_eq!(after.to_move(), Color::Black);
    assert!(after.piece_at(sq("e2")).is_none());
    assert_eq!(after.piece_at(sq("e4")), Piece::new(PieceKind::Pawn, Color::White));
    assert_eq!(after.pieces_for(Color::White).bit_count(), 16);
    assert!(after.pieces_for(Color::White).contains(sq("e4")));
    assert!(!after.pieces_for(Color::White).contains(sq("e2")));
    assert_eq!(b.piece_at(sq("e2")), Piece::new(PieceKind::Pawn, Color::White));
}

#[test]
fn board_play_rejects_wrong_source() {
    let b = Board::from_fen(START).unwrap();
    assert!(b.play(mv("e4", "e5")).is_none());
    assert!(b.play(mv("e7", "e5")).is_none());
    assert!(b.play(mv("e2", "e2")).is_none());
}

#[test]
fn board_play_capture_counts() {
    let b = Board::from_fen("4k3/8/8/3q4/4P3/8/8/3RK3 w").unwrap();
    let ms = generate_pseudo_legal_moves(&b);
    let moves = ms.to_vec();
    assert!(moves.contains(&mv("e4", "d5")));
    let after = b.play(mv("e4", "d5")).unwrap();
    assert_eq!(after.pieces_for(Color::White).bit_count(), 3);
    assert_eq!(after.pieces_for(Color::Black).bit_count(), 1);
    for m in moves {
        let next = b.play(m).unwrap();
        assert_eq!(next.pieces_for(Color::White).bit_count(), 3);
        assert!(next.pieces_for(Color::Black).bit_count() <= 2);
    }
}

#[test]
fn board_king_capture_clears_has_king() {
    let b = Board::from_fen("4k3/8/8/8/8/8/8/4R2K w").unwrap();
    let after = b.play(mv("e1", "e8")).unwrap();
    assert!(!after.has_king(Color::Black));
    assert!(after.has_king(Color::White));
    assert_eq!(after.king_pos(Color::White), sq("h1"));
}

#[test]
fn board_king_move_updates_cache() {
    let b = Board::from_fen("4k3/8/8/8/8/8/8/4K3 w").unwrap();
    let after = b.play(mv("e1", "d2")).unwrap();
    assert_eq!(after.king_pos(Color::White), sq("d2"));
    assert!(after.has_king(Color::White));
}

#[test]
fn board_all_pieces_in_order() {
    let b = Board::from_fen(START).unwrap();
    let mut it = b.all_pieces();
    let (p0, piece0) = it.next().unwrap();
    assert_eq!(p0, sq("a1"));
    assert_eq!(piece0, Piece::new(PieceKind::Rook, Color::White));
    let (p1, _) = it.next().unwrap();
    assert_eq!(p1, sq("a2"));
    let mut n = 2;
    while it.next().is_some() {
        n += 1;
    }
    assert_eq!(n, 32);
}

#[test]
fn board_san_text() {
    let b = Board::from_fen(START).unwrap();
    assert_eq!(b.san(mv("e2", "e4")), "e2e4");
    assert_eq!(b.san(mv("g1", "f3")), "Ng1f3");
    let c = Board::from_fen("4k3/8/8/3q4/4P3/8/8/R3K3 w").unwrap();
    assert_eq!(c.san(mv("e4", "d5")), "e4xd5");
    assert_eq!(c.san(mv("a1", "a8")), "Ra1a8");
}

#[test]
fn move_san_token() {
    let b = Board::from_fen("4k3/8/8/3q4/4P3/8/8/R3K3 w").unwrap();
    let check = mv("a1", "a8").san(&b).unwrap();
    assert!(check.is_check);
    assert!(!check.is_capture);
    assert_eq!(check.to_string(), "Ra1a8+");
    let capture = mv("e4", "d5").san(&b).unwrap();
    assert!(capture.is_capture);
    assert!(!capture.is_check);
    assert_eq!(capture.to_string(), "e4xd5");
    assert!(mv("d5", "d4").san(&b).is_none());
    let token = chess_engine::san::SanToken::new();
    assert_eq!(token.to_string(), "Ka1a1");
}
