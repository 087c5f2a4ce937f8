use std::str::FromStr;

use stahrfish::evaluate::Evaluator;
use stahrfish::evaluations::search::order_moves;
use stahrfish::rules::ColorKind;
use stahrfish::score::Score;

fn search(board: &chess::Board, leaf: u64, depth: usize, color: ColorKind) -> (Score, Option<chess::ChessMove>, u64) {
    Evaluator::new().negamax(board, leaf, depth, Score::NegInf, Score::PosInf, color)
}

#[test]
fn checkmated_white_scores_negative_infinity() {
    // Fool's mate: White to move stands checkmated.
    let board =
        chess::Board::from_str("rnb1kbnr/pppp1ppp/8/4p3/6Pq/5P2/PPPPP2P/RNBQKBNR w KQkq - 1 3")
            .unwrap();
    assert_eq!(board.status(), chess::BoardStatus::Checkmate);
    let (score, best_move, leafs) = search(&board, 7, 3, ColorKind::White);
    assert_eq!(score, Score::NegInf);
    assert_eq!(best_move, None);
    assert_eq!(leafs, 7);
}

#[test]
fn checkmated_black_scores_negative_infinity() {
    // Back-rank mate: Black to move stands checkmated and scores the
    // mover-relative negative infinity just as a mated White does.
    let board = chess::Board::from_str("R5k1/5ppp/8/8/8/8/8/7K b - - 0 1").unwrap();
    assert_eq!(board.status(), chess::BoardStatus::Checkmate);
    let (score, best_move, leafs) = search(&board, 2, 4, ColorKind::Black);
    assert_eq!(score, Score::NegInf);
    assert_eq!(best_move, None);
    assert_eq!(leafs, 2);
}

#[test]
fn stalemate_scores_zero() {
    let board = chess::Board::from_str("7k/5Q2/6K1/8/8/8/8/8 b - - 0 1").unwrap();
    assert_eq!(board.status(), chess::BoardStatus::Stalemate);
    let (score, best_move, leafs) = search(&board, 3, 2, ColorKind::Black);
    assert_eq!(score, Score::Finite(0));
    assert_eq!(best_move, None);
    assert_eq!(leafs, 3);
}

#[test]
fn depth_zero_counts_one_leaf_and_evaluates() {
    let board = chess::Board::default();
    let (score, best_move, leafs) = search(&board, 0, 0, ColorKind::White);
    assert_eq!(score, Score::Finite(0));
    assert_eq!(best_move, None);
    assert_eq!(leafs, 1);

    let (score2, best_move2, leafs2) = search(&board, 5, 0, ColorKind::White);
    assert_eq!(score2, Score::Finite(0));
    assert_eq!(best_move2, None);
    assert_eq!(leafs2, 6);
}

#[test]
fn depth_zero_negates_for_black() {
    // White is a pawn up (20 twentieths); for Black to move at depth 0
    // the mover-oriented score is the negation.
    let board = chess::Board::from_str("k7/8/8/8/8/8/P7/K7 b - - 0 1").unwrap();
    let (score, _, leafs) = search(&board, 0, 0, ColorKind::Black);
    assert_eq!(score, Score::Finite(-20));
    assert_eq!(leafs, 1);
}

#[test]
fn starting_position_depth_one() {
    // Twenty legal first moves, all quiet: twenty leaves and some move
    // recorded. The pawn pushes to b3 and g3 collect the highest
    // positional bonus (half a pawn: 10 twentieths), so one of them is
    // the best move.
    let board = chess::Board::default();
    let (score, best_move, leafs) = search(&board, 0, 1, ColorKind::White);
    assert_eq!(leafs, 20);
    assert_eq!(score, Score::Finite(10));
    let b3 = chess::ChessMove::new(chess::Square::B2, chess::Square::B3, None);
    let g3 = chess::ChessMove::new(chess::Square::G2, chess::Square::G3, None);
    assert!(best_move == Some(b3) || best_move == Some(g3));
}

#[test]
fn leaf_count_accumulates_and_grows() {
    let board = chess::Board::default();
    let (_, _, base) = search(&board, 0, 2, ColorKind::White);
    assert!(base >= 1);
    let (_, _, shifted) = search(&board, 11, 2, ColorKind::White);
    assert_eq!(shifted, base + 11);
}

#[test]
fn single_legal_move_is_chosen_at_any_depth() {
    // Black's king in the corner has exactly one legal move.
    let board = chess::Board::from_str("k1K5/8/8/8/8/8/8/1R6 b - - 0 1").unwrap();
    let only: Vec<chess::ChessMove> = chess::MoveGen::new_legal(&board).collect();
    assert_eq!(only.len(), 1);
    for depth in 1..4 {
        let (_, best_move, _) = search(&board, 0, depth, ColorKind::Black);
        assert_eq!(best_move, Some(only[0]));
    }
}

#[test]
fn highest_mvv_lva_capture_comes_first() {
    // The e5 pawn may take the d6 queen (victim 180 x 10 - attacker 20)
    // or the f6 pawn (20 x 10 - 20): the queen capture must lead.
    let board = chess::Board::from_str("k7/8/3q1p2/4P3/8/8/8/K7 w - - 0 1").unwrap();
    let ordered = order_moves(&board);
    assert_eq!(ordered.len(), 6);
    assert_eq!(
        ordered[0],
        chess::ChessMove::new(chess::Square::E5, chess::Square::D6, None)
    );
    assert_eq!(
        ordered[1],
        chess::ChessMove::new(chess::Square::E5, chess::Square::F6, None)
    );
    for mv in &ordered[2..] {
        assert!(board.piece_on(mv.get_dest()).is_none());
    }
}

#[test]
fn captures_then_checks_then_quiet_moves() {
    // White can capture, check or play quietly; the buckets must come in
    // that order.
    let board = chess::Board::from_str("k7/8/1q6/2P5/8/8/1R6/K7 w - - 0 1").unwrap();
    let ordered = order_moves(&board);
    let all: Vec<chess::ChessMove> = chess::MoveGen::new_legal(&board).collect();
    assert_eq!(ordered.len(), all.len());
    let bucket = |mv: &chess::ChessMove| -> u8 {
        if board.piece_on(mv.get_dest()).is_some() {
            0
        } else if board.make_move_new(*mv).checkers().popcnt() > 0 {
            1
        } else {
            2
        }
    };
    let buckets: Vec<u8> = ordered.iter().map(bucket).collect();
    assert!(buckets.contains(&0));
    assert!(buckets.contains(&1));
    assert!(buckets.contains(&2));
    for pair in buckets.windows(2) {
        assert!(pair[0] <= pair[1]);
    }
}

#[test]
fn full_window_search_is_deterministic() {
    // Alpha-beta over the full window returns the same score as the same
    // search again and records some best move.
    let board = chess::Board::from_str("k7/8/3q1p2/4P3/8/8/8/K7 w - - 0 1").unwrap();
    let (score, best_move, leafs) = search(&board, 0, 3, ColorKind::White);
    let (score2, best_move2, leafs2) = search(&board, 0, 3, ColorKind::White);
    assert_eq!(score, score2);
    assert_eq!(best_move, best_move2);
    assert_eq!(leafs, leafs2);
    assert!(best_move.is_some());
}

#[test]
fn forcible_capture_of_hanging_queen() {
    // With one ply of depth White must grab the hanging queen: material
    // jumps by the queen's worth.
    let board = chess::Board::from_str("k7/8/3q4/4P3/8/8/8/K7 w - - 0 1").unwrap();
    let (score, best_move, _) = search(&board, 0, 1, ColorKind::White);
    assert_eq!(
        best_move,
        Some(chess::ChessMove::new(chess::Square::E5, chess::Square::D6, None))
    );
    assert_eq!(score, Score::Finite(20));
}
