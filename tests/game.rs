use chess_engine::board::Board;
use chess_engine::game::winner;
use chess_engine::moves::generate_pseudo_legal_moves;
use chess_engine::piece::Color;

fn decided(fen: &str) -> Option<Color> {
    let b = Board::from_fen(fen).unwrap();
    let ms = generate_pseudo_legal_moves(&b);
    winner(&b, &ms)
}

#[test]
fn game_not_decided_at_start() {
    assert_eq!(decided("rnbqkbnr/pppppppp/8/8/8/8/PPPPPPPP/RNBQKBNR w"), None);
}

#[test]
fn game_won_by_reaching_the_king() {
    assert_eq!(decided("4k3/8/8/8/8/8/8/4R2K w"), Some(Color::White));
    assert_eq!(decided("4k3/8/8/8/8/8/8/4R2K b"), None);
}

#[test]
fn game_lost_without_king_or_moves() {
    assert_eq!(decided("8/8/8/8/8/8/8/4R2K b"), Some(Color::White));
    assert_eq!(decided("PP6/PP6/PP6/PP6/PP6/PP6/PP6/KP6 w"), Some(Color::Black));
}
