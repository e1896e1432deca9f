use std::str::FromStr;

use chess_engine::pos::Pos;

#[test]
fn pos_from_str() {
    assert_eq!(Pos::from_str("a1"), Ok(Pos::new(0, 0)));
    assert_eq!(Pos::from_str("h8"), Ok(Pos::new(7, 7)));
    assert!(Pos::from_str("d4c").is_err());
    assert!(Pos::from_str("j7").is_err());
    assert!(Pos::from_str("e0").is_err());
}

#[test]
fn pos_parse_ignores_surrounding_spaces() {
    assert_eq!(Pos::parse("  e4\n"), Ok(Pos::new(4, 3)));
    assert!(Pos::parse("").is_err());
    assert!(Pos::parse("e 4").is_err());
    assert_eq!(Pos::parse("\u{0B}e4\u{3000}"), Ok(Pos::new(4, 3)));
    assert_eq!(Pos::parse("\u{85}a8"), Ok(Pos::new(0, 7)));
}

#[test]
fn pos_try_new_round_trips() {
    for x in 0..8 {
        for y in 0..8 {
            let p = Pos::try_new(x, y).unwrap();
            assert_eq!(p.col(), x);
            assert_eq!(p.row(), y);
            assert_eq!(p.index(), (x * 8 + y) as usize);
            assert_eq!(Pos::from_index(p.index()), p);
        }
    }
    assert_eq!(Pos::try_new(-1, 0), None);
    assert_eq!(Pos::try_new(0, 8), None);
    assert_eq!(Pos::try_new(8, 3), None);
    assert_eq!(Pos::try_new(3, -2), None);
}

#[test]
fn pos_names() {
    assert_eq!(Pos::new(4, 3).to_string(), "e4");
    assert_eq!(Pos::new(0, 0).to_string(), "a1");
    assert_eq!(Pos::new(7, 7).to_string(), "h8");
    assert_eq!(Pos::new(3, 5).file_symbol(), 'd');
}
