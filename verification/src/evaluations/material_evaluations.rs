//! Static material evaluation.
//!
//! Every quantity is an integer in twentieths of a pawn, which makes each
//! base piece value and each square bonus exact. For every occupied square
//! the side owning the piece is credited the piece's base value plus a
//! fixed positional bonus looked up by the square's own rank and file; the
//! advantage is White's total minus Black's total. The bonus tables are
//! written in one fixed board orientation and applied unmirrored to both
//! colors: that is deliberate, observed behavior kept as is.

use vstd::prelude::*;

use crate::rules::{color_at, piece_at, piece_on_square, color_on_square, ColorKind, PieceKind};

verus! {

/// Base value of a piece, in twentieths of a pawn.
pub open spec fn piece_worth(p: PieceKind) -> int {
    match p {
        PieceKind::Pawn => 20,
        PieceKind::Knight => 60,
        PieceKind::Bishop => 64,
        PieceKind::Rook => 100,
        PieceKind::Queen => 180,
        PieceKind::King => 0,
    }
}

/// Positional bonus of a pawn on `(rank, file)`.
pub open spec fn pawn_bonus(rank: int, file: int) -> int {
    if rank == 0 || rank == 7 {
        10
    } else if rank == 2 || rank == 5 {
        if file == 1 || file == 6 {
            10
        } else {
            0
        }
    } else if rank == 3 {
        if file == 2 {
            2
        } else if file == 3 || file == 4 {
            4
        } else {
            0
        }
    } else if rank == 4 {
        if file == 5 {
            2
        } else if file == 3 || file == 4 {
            4
        } else {
            0
        }
    } else {
        0
    }
}

/// Positional bonus of a knight on `(rank, file)`.
pub open spec fn knight_bonus(rank: int, file: int) -> int {
    if rank == 2 && (file == 3 || file == 5) {
        5
    } else if rank == 4 && (file == 2 || file == 4 || file == 6) {
        5
    } else {
        0
    }
}

/// Positional bonus of a bishop on `(rank, file)`.
pub open spec fn bishop_bonus(rank: int, file: int) -> int {
    if (rank == 1 || rank == 6) && (file == 1 || file == 6) {
        10
    } else if (rank == 3 || rank == 4) && (file == 2 || file == 5) {
        10
    } else {
        0
    }
}

/// Positional bonus of a king on `(rank, file)`.
pub open spec fn king_bonus(rank: int, file: int) -> int {
    if rank == 0 || rank == 7 {
        if file == 1 || file == 2 {
            20
        } else if file == 6 {
            30
        } else {
            0
        }
    } else {
        0
    }
}

/// Positional bonus of a piece on `(rank, file)`; rooks and queens have
/// no bonus table.
pub open spec fn square_bonus(p: PieceKind, rank: int, file: int) -> int {
    match p {
        PieceKind::Pawn => pawn_bonus(rank, file),
        PieceKind::Knight => knight_bonus(rank, file),
        PieceKind::Bishop => bishop_bonus(rank, file),
        PieceKind::King => king_bonus(rank, file),
        _ => 0,
    }
}

/// What the square with index `sq` contributes to White's total: the
/// piece's worth plus its positional bonus when a White piece sits there.
pub open spec fn white_part(b: chess::Board, sq: int) -> int {
    match piece_at(b, sq) {
        Some(p) => if color_at(b, sq) == Some(ColorKind::White) {
            piece_worth(p) + square_bonus(p, sq / 8, sq % 8)
        } else {
            0
        },
        None => 0,
    }
}

/// What the square with index `sq` contributes to Black's total.
pub open spec fn black_part(b: chess::Board, sq: int) -> int {
    match piece_at(b, sq) {
        Some(p) => if color_at(b, sq) == Some(ColorKind::White) {
            0
        } else {
            piece_worth(p) + square_bonus(p, sq / 8, sq % 8)
        },
        None => 0,
    }
}

/// White's material over the squares with index below `n`.
pub open spec fn white_total(b: chess::Board, n: int) -> int
    decreases n,
{
    if n <= 0 {
        0
    } else {
        white_total(b, n - 1) + white_part(b, n - 1)
    }
}

/// Black's material over the squares with index below `n`.
pub open spec fn black_total(b: chess::Board, n: int) -> int
    decreases n,
{
    if n <= 0 {
        0
    } else {
        black_total(b, n - 1) + black_part(b, n - 1)
    }
}

/// White's whole-board material minus Black's, in twentieths of a pawn.
pub open spec fn material_advantage(b: chess::Board) -> int {
    white_total(b, 64) - black_total(b, 64)
}

/// Every positional bonus lies between 0 and 30.
pub proof fn lemma_square_bonus_range(p: PieceKind, rank: int, file: int)
    ensures
        0 <= square_bonus(p, rank, file) <= 30,
{
}

/// A square contributes at most one piece's worth plus one bonus.
pub proof fn lemma_part_range(b: chess::Board, sq: int)
    ensures
        0 <= white_part(b, sq) <= 210,
        0 <= black_part(b, sq) <= 210,
{
    match piece_at(b, sq) {
        Some(p) => {
            lemma_square_bonus_range(p, sq / 8, sq % 8);
        },
        None => {},
    }
}

/// Each side's total over the first `n` squares lies between 0 and 210·n.
pub proof fn lemma_total_range(b: chess::Board, n: int)
    requires
        0 <= n,
    ensures
        0 <= white_total(b, n) <= 210 * n,
        0 <= black_total(b, n) <= 210 * n,
    decreases n,
{
    if n > 0 {
        lemma_total_range(b, n - 1);
        lemma_part_range(b, n - 1);
    }
}

/// The whole-board advantage is bounded by the material of a board full
/// of queens on best squares.
pub proof fn lemma_advantage_range(b: chess::Board)
    ensures
        -13440 <= material_advantage(b) <= 13440,
{
    lemma_total_range(b, 64);
}

/// Base value of a piece, in twentieths of a pawn (one pawn = 20).
pub fn base_piece_value_in_pawns(piece: PieceKind) -> (v: i64)
    ensures
        v == piece_worth(piece),
{
    match piece {
        PieceKind::Pawn => 20,
        PieceKind::Knight => 60,
        PieceKind::Bishop => 64,
        PieceKind::Rook => 100,
        PieceKind::Queen => 180,
        PieceKind::King => 0,
    }
}

/// Positional bonus of a piece on the square `(rank, file)`, both
/// zero-based, in the fixed orientation of the tables above.
pub fn get_map_bonus(piece: PieceKind, rank: u8, file: u8) -> (v: i64)
    requires
        rank < 8,
        file < 8,
    ensures
        v == square_bonus(piece, rank as int, file as int),
{
    match piece {
        PieceKind::Pawn => {
            if rank == 0 || rank == 7 {
                10
            } else if rank == 2 || rank == 5 {
                if file == 1 || file == 6 { 10 } else { 0 }
            } else if rank == 3 {
                if file == 2 { 2 } else if file == 3 || file == 4 { 4 } else { 0 }
            } else if rank == 4 {
                if file == 5 { 2 } else if file == 3 || file == 4 { 4 } else { 0 }
            } else {
                0
            }
        },
        PieceKind::Knight => {
            if rank == 2 && (file == 3 || file == 5) {
                5
            } else if rank == 4 && (file == 2 || file == 4 || file == 6) {
                5
            } else {
                0
            }
        },
        PieceKind::Bishop => {
            if (rank == 1 || rank == 6) && (file == 1 || file == 6) {
                10
            } else if (rank == 3 || rank == 4) && (file == 2 || file == 5) {
                10
            } else {
                0
            }
        },
        PieceKind::King => {
            if rank == 0 || rank == 7 {
                if file == 1 || file == 2 { 20 } else if file == 6 { 30 } else { 0 }
            } else {
                0
            }
        },
        _ => 0,
    }
}

/// Walk every square once and accumulate each side's material: base piece
/// value plus positional bonus, credited to the owner of the piece.
fn get_board_material_for_color(board: &chess::Board) -> (r: (u64, u64))
    ensures
        r.0 == white_total(*board, 64),
        r.1 == black_total(*board, 64),
        r.0 <= 13440,
        r.1 <= 13440,
{
    let mut white_material: u64 = 0;
    let mut black_material: u64 = 0;
    let mut sq: usize = 0;
    while sq < 64
        invariant
            sq <= 64,
            white_material == white_total(*board, sq as int),
            black_material == black_total(*board, sq as int),
            white_material <= 210 * sq,
            black_material <= 210 * sq,
        decreases 64 - sq,
    {
        match piece_on_square(board, sq) {
            Some(piece) => {
                let rank = (sq / 8) as u8;
                let file = (sq % 8) as u8;
                let value = base_piece_value_in_pawns(piece) + get_map_bonus(piece, rank, file);
                proof {
                    lemma_square_bonus_range(piece, sq as int / 8, sq as int % 8);
                }
                match color_on_square(board, sq) {
                    Some(ColorKind::White) => {
                        white_material = white_material + (value as u64);
                    },
                    _ => {
                        black_material = black_material + (value as u64);
                    },
                }
            },
            None => {},
        }
        sq = sq + 1;
    }
    (white_material, black_material)
}

/// White's whole-board material minus Black's, in twentieths of a pawn.
pub fn get_color_material_advantage(board: &chess::Board) -> (r: i64)
    ensures
        r == material_advantage(*board),
        -13440 <= r <= 13440,
{
    let (white_material, black_material) = get_board_material_for_color(board);
    (white_material as i64) - (black_material as i64)
}

} // verus!
