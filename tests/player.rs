use chess_engine::board::Board;
use chess_engine::moves::{Move, generate_pseudo_legal_moves};
use chess_engine::player::{
    AlphaBetaAI, CaptureAI, MonteCarloAI, PlayerController, RandomAI, TreeSearchV2AI, king_capture,
    last_max_index, playout,
};
use chess_engine::pos::Pos;
use chess_engine::search::{WIN_SCORE, alpha_beta, material_of, minimax};
use chess_engine::piece::Color;
use rand::SeedableRng;
use rand::rngs::StdRng;

const START: &str = "rnbqkbnr/pppppppp/8/8/8/8/PPPPPPPP/RNBQKBNR w";
const BOXED: &str = "PP6/PP6/PP6/PP6/PP6/PP6/PP6/KP6 w";

fn sq(name: &str) -> Pos {
    Pos::parse(name).unwrap()
}

fn mv(src: &str, dst: &str) -> Move {
    Move { src: sq(src), dst: sq(dst) }
}

fn strategies() -> Vec<Box<dyn PlayerController>> {
    vec![
        Box::new(RandomAI()),
        Box::new(CaptureAI { search_check: false }),
        Box::new(CaptureAI { search_check: true }),
        Box::new(MonteCarloAI(2)),
        Box::new(TreeSearchV2AI(1)),
        Box::new(AlphaBetaAI(1)),
    ]
}

#[test]
fn every_strategy_returns_none_without_moves() {
    let b = Board::from_fen(BOXED).unwrap();
    let ms = generate_pseudo_legal_moves(&b);
    let mut rng = StdRng::seed_from_u64(1);
    for s in strategies() {
        assert!(s.play(&ms, &mut rng).is_none());
    }
}

#[test]
fn every_strategy_returns_one_of_the_moves() {
    let b = Board::from_fen("4k3/pp6/8/3q4/4P3/8/5PPP/3RK3 w").unwrap();
    let ms = generate_pseudo_legal_moves(&b);
    let all = ms.to_vec();
    let mut rng = StdRng::seed_from_u64(2);
    for s in strategies() {
        let m = s.play(&ms, &mut rng).unwrap();
        assert!(all.contains(&m));
    }
}

#[test]
fn random_takes_the_king_whatever_the_seed() {
    let b = Board::from_fen("4k3/8/8/8/8/8/8/4R2K w").unwrap();
    let ms = generate_pseudo_legal_moves(&b);
    for seed in 0..32 {
        let mut rng = StdRng::seed_from_u64(seed);
        assert_eq!(RandomAI().select(&ms, &mut rng), Some(mv("e1", "e8")));
    }
    assert_eq!(king_capture(&ms), Some(mv("e1", "e8")));
}

#[test]
fn random_spreads_over_moves() {
    let b = Board::from_fen(START).unwrap();
    let ms = generate_pseudo_legal_moves(&b);
    let mut rng = StdRng::seed_from_u64(7);
    let mut seen = Vec::new();
    for _ in 0..200 {
        let m = RandomAI().select(&ms, &mut rng).unwrap();
        if !seen.contains(&m) {
            seen.push(m);
        }
    }
    assert!(seen.len() > 10);
    assert_eq!(king_capture(&ms), None);
}

#[test]
fn capture_prefers_valuable_target_and_cheap_attacker() {
    let b = Board::from_fen("4k3/8/8/3q4/4P3/8/8/3RK3 w").unwrap();
    let ms = generate_pseudo_legal_moves(&b);
    let mut rng = StdRng::seed_from_u64(3);
    assert_eq!(CaptureAI { search_check: false }.select(&ms, &mut rng), Some(mv("e4", "d5")));
    let c = Board::from_fen("4k3/8/8/3q1r2/4N3/8/8/3QK3 w").unwrap();
    let cs = generate_pseudo_legal_moves(&c);
    assert_eq!(CaptureAI { search_check: false }.select(&cs, &mut rng), Some(mv("d1", "d5")));
}

#[test]
fn capture_with_check_search_prefers_check() {
    let b = Board::from_fen("4k3/8/8/3q4/4P3/8/8/R3K3 w").unwrap();
    let ms = generate_pseudo_legal_moves(&b);
    let mut rng = StdRng::seed_from_u64(4);
    assert_eq!(CaptureAI { search_check: true }.select(&ms, &mut rng), Some(mv("a1", "a8")));
    assert_eq!(CaptureAI { search_check: false }.select(&ms, &mut rng), Some(mv("e4", "d5")));
}

#[test]
fn minimax_values() {
    let start = Board::from_fen(START).unwrap();
    assert_eq!(material_of(&start, Color::White), 681);
    assert_eq!(minimax(&start, 0), 681);
    assert_eq!(minimax(&start, 1), -681);
    let win = Board::from_fen("4k3/8/8/8/8/8/8/4R2K w").unwrap();
    assert_eq!(minimax(&win, 0), 646);
    assert_eq!(minimax(&win, 1), WIN_SCORE);
    let boxed = Board::from_fen(BOXED).unwrap();
    assert_eq!(minimax(&boxed, 1), -WIN_SCORE);
    assert_eq!(minimax(&boxed, 0), 641 + 15);
}

#[test]
fn alpha_beta_matches_minimax() {
    let positions = [
        "4k3/8/8/8/8/8/8/4R2K w",
        "4k3/8/8/3q4/4P3/8/8/3RK3 w",
        "4k3/pp6/8/3q4/4P3/8/5PPP/3RK3 b",
        "3k4/8/8/8/8/8/3r4/3K4 w",
    ];
    for fen in positions {
        let b = Board::from_fen(fen).unwrap();
        for d in 1..4 {
            let full = alpha_beta(&b, d, i64::MIN, i64::MAX, true);
            assert_eq!(full, minimax(&b, d), "{} at depth {}", fen, d);
            assert_eq!(alpha_beta(&b, d, i64::MIN, i64::MAX, false), -minimax(&b, d));
        }
    }
}

#[test]
fn search_strategies_take_the_king() {
    let b = Board::from_fen("4k3/8/8/8/8/8/8/4R2K w").unwrap();
    let ms = generate_pseudo_legal_moves(&b);
    assert_eq!(AlphaBetaAI(1).select(&ms), Some(mv("e1", "e8")));
    assert_eq!(TreeSearchV2AI(1).select(&ms), Some(mv("e1", "e8")));
}

#[test]
fn monte_carlo_rollout_ends() {
    let win = Board::from_fen("4k3/8/8/8/8/8/8/4R2K w").unwrap();
    let mut rng = StdRng::seed_from_u64(5);
    assert_eq!(MonteCarloAI::search(&win, &mut rng, 1), 20);
    assert_eq!(MonteCarloAI::search(&win, &mut rng, 4), 5);
    let boxed = Board::from_fen(BOXED).unwrap();
    assert_eq!(MonteCarloAI::search(&boxed, &mut rng, 1), -20);
    assert_eq!(MonteCarloAI::search(&boxed, &mut rng, 30), -1);
    let ms = generate_pseudo_legal_moves(&win);
    assert_eq!(MonteCarloAI(3).select(&ms, &mut rng), Some(mv("e1", "e8")));
}

#[test]
fn last_max_index_prefers_last() {
    assert_eq!(last_max_index(&vec![1, 5, 3, 5, 2]), 3);
    assert_eq!(last_max_index(&vec![-4]), 0);
    assert_eq!(last_max_index(&vec![9, 1, 2]), 0);
}

#[test]
fn playout_follows_the_draws() {
    let win = Board::from_fen("4k3/8/8/8/8/8/8/4R2K w").unwrap();
    assert_eq!(playout(&win, &vec![], 1), 20);
    assert_eq!(playout(&win, &vec![], 3), 6);
    let boxed = Board::from_fen(BOXED).unwrap();
    assert_eq!(playout(&boxed, &vec![], 1), -20);
    let b = Board::from_fen("4k3/8/8/8/8/8/8/4R2K b").unwrap();
    assert_eq!(playout(&b, &vec![2], 1), -10);
    assert_eq!(playout(&b, &vec![0], 1), 0);
    assert_eq!(playout(&b, &vec![7], 1), 0);
}

#[test]
fn search_result_is_a_playout_result() {
    let b = Board::from_fen("4k3/8/8/8/8/8/8/4R2K b").unwrap();
    let mut rng = StdRng::seed_from_u64(11);
    for _ in 0..20 {
        let r = MonteCarloAI::search(&b, &mut rng, 1);
        assert!((-20..=20).contains(&r));
    }
}
