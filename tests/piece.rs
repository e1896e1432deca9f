use chess_engine::piece::{Color, Piece, PieceKind};

#[test]
fn piece_letters() {
    assert_eq!(PieceKind::Knight.to_char(), 'n');
    assert_eq!(PieceKind::Empty.to_char(), '.');
    assert_eq!(PieceKind::from_char('Q'), PieceKind::Queen);
    assert_eq!(PieceKind::from_char('k'), PieceKind::King);
    assert_eq!(PieceKind::from_char('x'), PieceKind::Empty);
    assert_eq!(Piece::new(PieceKind::Bishop, Color::White).to_char(), 'B');
    assert_eq!(Piece::new(PieceKind::Bishop, Color::Black).to_char(), 'b');
    assert_eq!(Piece::from_char('R'), Piece::new(PieceKind::Rook, Color::White));
    assert_eq!(Piece::from_char('p'), Piece::new(PieceKind::Pawn, Color::Black));
    assert!(Piece::from_char('?').is_none());
    assert!(Piece::none().is_none());
    assert!(!Piece::new(PieceKind::Pawn, Color::White).is_none());
}

#[test]
fn piece_scores() {
    assert_eq!(PieceKind::Empty.score(), 0);
    assert_eq!(PieceKind::Pawn.score(), 1);
    assert_eq!(PieceKind::Knight.score(), 3);
    assert_eq!(PieceKind::Bishop.score(), 3);
    assert_eq!(PieceKind::Rook.score(), 5);
    assert_eq!(PieceKind::Queen.score(), 10);
    assert_eq!(PieceKind::King.score(), 641);
}

#[test]
fn colors() {
    assert_eq!(Color::White.opponent(), Color::Black);
    assert_eq!(Color::Black.opponent(), Color::White);
    assert_eq!(Color::White.index(), 0);
    assert_eq!(Color::Black.index(), 1);
    assert_eq!(Color::White.signed_value(), 1);
    assert_eq!(Color::Black.signed_value(), -1);
    assert_eq!(Color::White.name(), "White");
    assert_eq!(Color::Black.name(), "Black");
}
