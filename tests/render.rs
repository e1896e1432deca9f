use chess_engine::bitboard::BitBoard;
use chess_engine::board::Board;
use chess_engine::pos::Pos;

#[test]
fn board_picture() {
    let b = Board::from_fen("rnbqkbnr/pppppppp/8/8/4P3/8/PPPP1PPP/RNBQKBNR b").unwrap();
    let expected = [
        "   a b c d e f g h",
        " +-----------------+",
        "8| r n b q k b n r |8",
        "7| p p p p p p p p |7",
        "6| . . . . . . . . |6",
        "5| . . . . . . . . |5",
        "4| . . . . P . . . |4",
        "3| . . . . . . . . |3",
        "2| P P P P . P P P |2",
        "1| R N B Q K B N R |1",
        " +-----------------+",
        "   a b c d e f g h",
    ]
    .join("\n")
        + "\n";
    assert_eq!(b.to_text(), expected);
}

#[test]
fn bitboard_picture() {
    let mut bits = BitBoard::empty();
    bits.insert(Pos::new(0, 0));
    bits.insert(Pos::new(7, 7));
    let text = bits.to_text();
    let lines: Vec<&str> = text.lines().collect();
    assert_eq!(lines.len(), 12);
    assert_eq!(lines[2], "8| 0 0 0 0 0 0 0 1 |8");
    assert_eq!(lines[9], "1| 1 0 0 0 0 0 0 0 |1");
    assert_eq!(lines[5], "5| 0 0 0 0 0 0 0 0 |5");
}
