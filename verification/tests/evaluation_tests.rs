use std::str::FromStr;

use stahrfish::evaluations::material_evaluations::{
    base_piece_value_in_pawns, get_color_material_advantage, get_map_bonus,
};
use stahrfish::evaluate::Evaluator;
use stahrfish::rules::PieceKind;
use stahrfish::score::Score;

#[test]
fn base_piece_values_are_scaled_pawn_units() {
    assert_eq!(base_piece_value_in_pawns(PieceKind::Pawn), 20);
    assert_eq!(base_piece_value_in_pawns(PieceKind::Knight), 60);
    assert_eq!(base_piece_value_in_pawns(PieceKind::Bishop), 64);
    assert_eq!(base_piece_value_in_pawns(PieceKind::Rook), 100);
    assert_eq!(base_piece_value_in_pawns(PieceKind::Queen), 180);
    assert_eq!(base_piece_value_in_pawns(PieceKind::King), 0);
}

#[test]
fn map_bonus_matches_tables() {
    // Pawn table: full first and last ranks, center squares, outposts.
    assert_eq!(get_map_bonus(PieceKind::Pawn, 0, 0), 10);
    assert_eq!(get_map_bonus(PieceKind::Pawn, 7, 5), 10);
    assert_eq!(get_map_bonus(PieceKind::Pawn, 3, 2), 2);
    assert_eq!(get_map_bonus(PieceKind::Pawn, 3, 3), 4);
    assert_eq!(get_map_bonus(PieceKind::Pawn, 4, 5), 2);
    assert_eq!(get_map_bonus(PieceKind::Pawn, 2, 1), 10);
    assert_eq!(get_map_bonus(PieceKind::Pawn, 1, 4), 0);
    // Knight central squares.
    assert_eq!(get_map_bonus(PieceKind::Knight, 2, 3), 5);
    assert_eq!(get_map_bonus(PieceKind::Knight, 4, 6), 5);
    assert_eq!(get_map_bonus(PieceKind::Knight, 3, 3), 0);
    // Bishop long-diagonal squares.
    assert_eq!(get_map_bonus(PieceKind::Bishop, 1, 1), 10);
    assert_eq!(get_map_bonus(PieceKind::Bishop, 4, 5), 10);
    assert_eq!(get_map_bonus(PieceKind::Bishop, 0, 0), 0);
    // King castled squares.
    assert_eq!(get_map_bonus(PieceKind::King, 0, 6), 30);
    assert_eq!(get_map_bonus(PieceKind::King, 7, 1), 20);
    assert_eq!(get_map_bonus(PieceKind::King, 4, 4), 0);
    // Rooks and queens have no table.
    assert_eq!(get_map_bonus(PieceKind::Rook, 0, 0), 0);
    assert_eq!(get_map_bonus(PieceKind::Queen, 3, 3), 0);
}

#[test]
fn starting_position_is_balanced() {
    let board = chess::Board::default();
    let evaluator = Evaluator::new();
    assert_eq!(get_color_material_advantage(&board), 0);
    assert_eq!(evaluator.heuristic(&board), 0);
}

#[test]
fn lone_extra_pawn_is_twenty_twentieths() {
    // White: king a1, pawn a2. Black: king a8. No square bonuses apply on
    // a1/a2/a8 for kings and pawns off the table's nonzero cells, except
    // the pawn's home rank 1 which carries none.
    let board = chess::Board::from_str("k7/8/8/8/8/8/P7/K7 w - - 0 1").unwrap();
    let evaluator = Evaluator::new();
    assert_eq!(get_color_material_advantage(&board), 20);
    assert_eq!(evaluator.heuristic(&board), 20);
}

#[test]
fn unmirrored_tables_reward_both_colors_alike() {
    // A white king on g1 and a black king on g8 each collect the same
    // fixed-orientation bonus of 30, so the position stays balanced.
    let board = chess::Board::from_str("6k1/8/8/8/8/8/8/6K1 w - - 0 1").unwrap();
    let evaluator = Evaluator::new();
    assert_eq!(evaluator.heuristic(&board), 0);
}

#[test]
fn score_arithmetic_and_comparisons() {
    assert_eq!(Score::Finite(5).neg(), Score::Finite(-5));
    assert_eq!(Score::NegInf.neg(), Score::PosInf);
    assert_eq!(Score::PosInf.neg(), Score::NegInf);
    assert!(Score::PosInf.gt(Score::Finite(1_000)));
    assert!(Score::Finite(1).gt(Score::Finite(0)));
    assert!(!Score::NegInf.gt(Score::Finite(-1_000)));
    assert!(Score::NegInf.ge(Score::NegInf));
    assert!(Score::Finite(3).ge(Score::Finite(3)));
    assert_eq!(Score::Finite(2).max_with(Score::Finite(7)), Score::Finite(7));
    assert_eq!(Score::NegInf.max_with(Score::Finite(-9)), Score::Finite(-9));
}
