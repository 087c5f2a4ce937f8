//! Boundary to the rules engine (the `chess` crate).
//!
//! The rules engine owns position representation, legal-move generation,
//! move application and terminal-status classification; this crate never
//! reimplements any of it. A `chess::Board` is treated as an opaque store
//! of facts — which piece sits on which square, whose turn it is over,
//! which moves are legal — and each fact the search reads is given a name
//! by an uninterpreted spec function below. Every name is a function of
//! the position value alone: the rules engine is deterministic, so one
//! board always yields the same status, occupancy and generated move list.
//! The `external_body` wrappers connect the named facts to the actual
//! library calls; they are the only trusted code in this crate.

use vstd::prelude::*;

verus! {

#[verifier::external_type_specification]
#[verifier::external_body]
pub struct ExBoard(chess::Board);

#[verifier::external_type_specification]
#[verifier::external_body]
pub struct ExChessMove(chess::ChessMove);

/// Terminal-status classification of a position.
#[derive(Clone, Copy, PartialEq, Eq, Structural, Debug)]
pub enum Status {
    Ongoing,
    Checkmate,
    Stalemate,
}

/// The side to move, or the color of a piece.
#[derive(Clone, Copy, PartialEq, Eq, Structural, Debug)]
pub enum ColorKind {
    White,
    Black,
}

/// One of the six piece kinds.
#[derive(Clone, Copy, PartialEq, Eq, Structural, Debug)]
pub enum PieceKind {
    Pawn,
    Knight,
    Bishop,
    Rook,
    Queen,
    King,
}

/// The color opposite to `c`.
pub open spec fn other_color(c: ColorKind) -> ColorKind {
    match c {
        ColorKind::White => ColorKind::Black,
        ColorKind::Black => ColorKind::White,
    }
}

impl ColorKind {
    pub fn flip(self) -> (r: ColorKind)
        ensures
            r == other_color(self),
    {
        match self {
            ColorKind::White => ColorKind::Black,
            ColorKind::Black => ColorKind::White,
        }
    }
}

// The status that `chess::Board::status` reports for this position.
pub uninterp spec fn board_status(b: chess::Board) -> Status;

// The piece that `chess::Board::piece_on` reports on the square whose
// index is `sq & 63` (index = rank * 8 + file, both zero-based).
pub uninterp spec fn piece_at(b: chess::Board, sq: int) -> Option<PieceKind>;

// The color that `chess::Board::color_on` reports on the square whose
// index is `sq & 63`.
pub uninterp spec fn color_at(b: chess::Board, sq: int) -> Option<ColorKind>;

// The legal moves of the position, in the order `chess::MoveGen::new_legal`
// generates them.
pub uninterp spec fn legal_seq(b: chess::Board) -> Seq<chess::ChessMove>;

// The position that `chess::Board::make_move_new` returns for `b` and `m`.
pub uninterp spec fn child_board(b: chess::Board, m: chess::ChessMove) -> chess::Board;

// The number of pieces giving check, as `chess::Board::checkers` reports it.
pub uninterp spec fn checker_count(b: chess::Board) -> u32;

// The index of the origin square of `m` (`ChessMove::get_source`).
pub uninterp spec fn move_source(m: chess::ChessMove) -> int;

// The index of the destination square of `m` (`ChessMove::get_dest`).
pub uninterp spec fn move_dest(m: chess::ChessMove) -> int;

/// Relies on `chess::Board::status`: it reports `Ongoing` exactly when
/// `MoveGen::new_legal` finds at least one legal move, and otherwise
/// distinguishes checkmate from stalemate.
#[verifier::external_body]
pub(crate) fn status(b: &chess::Board) -> (s: Status)
    ensures
        s == board_status(*b),
        s == Status::Ongoing ==> legal_seq(*b).len() > 0,
{
    match b.status() {
        chess::BoardStatus::Ongoing => Status::Ongoing,
        chess::BoardStatus::Checkmate => Status::Checkmate,
        chess::BoardStatus::Stalemate => Status::Stalemate,
    }
}

/// Relies on `chess::Board::piece_on`, addressed here by square index;
/// `Rank::from_index` and `File::from_index` wrap indices beyond the board.
#[verifier::external_body]
pub(crate) fn piece_on_square(b: &chess::Board, sq: usize) -> (r: Option<PieceKind>)
    ensures
        r == piece_at(*b, sq as int),
{
    let s = chess::Square::make_square(
        chess::Rank::from_index(sq >> 3),
        chess::File::from_index(sq & 7),
    );
    match b.piece_on(s) {
        None => None,
        Some(chess::Piece::Pawn) => Some(PieceKind::Pawn),
        Some(chess::Piece::Knight) => Some(PieceKind::Knight),
        Some(chess::Piece::Bishop) => Some(PieceKind::Bishop),
        Some(chess::Piece::Rook) => Some(PieceKind::Rook),
        Some(chess::Piece::Queen) => Some(PieceKind::Queen),
        Some(chess::Piece::King) => Some(PieceKind::King),
    }
}

/// Relies on `chess::Board::color_on`, addressed here by square index. A
/// board keeps its combined occupancy equal to the union of the two color
/// occupancies, so a square holds a piece exactly when it holds a color.
#[verifier::external_body]
pub(crate) fn color_on_square(b: &chess::Board, sq: usize) -> (r: Option<ColorKind>)
    ensures
        r == color_at(*b, sq as int),
        r is Some <==> piece_at(*b, sq as int) is Some,
{
    match b.color_on(chess::Square::make_square(
        chess::Rank::from_index(sq >> 3),
        chess::File::from_index(sq & 7),
    )) {
        None => None,
        Some(chess::Color::White) => Some(ColorKind::White),
        Some(chess::Color::Black) => Some(ColorKind::Black),
    }
}

/// Relies on `chess::MoveGen::new_legal`: it enumerates exactly the legal
/// moves of the position, in a fixed generation order.
#[verifier::external_body]
pub(crate) fn legal_moves(b: &chess::Board) -> (v: Vec<chess::ChessMove>)
    ensures
        v@ == legal_seq(*b),
{
    chess::MoveGen::new_legal(b).collect()
}

/// Relies on `chess::Board::make_move_new`: applying a legal move yields
/// the resulting position without mutating `b`. It is undefined (and may
/// panic) for illegal moves, so only legal ones are admitted.
#[verifier::external_body]
pub(crate) fn apply_move(b: &chess::Board, m: chess::ChessMove) -> (r: chess::Board)
    requires
        legal_seq(*b).contains(m),
    ensures
        r == child_board(*b, m),
{
    b.make_move_new(m)
}

/// Relies on `chess::Board::checkers` and `BitBoard::popcnt`: the number
/// of pieces currently giving check to the side to move.
#[verifier::external_body]
pub(crate) fn checkers_on(b: &chess::Board) -> (n: u32)
    ensures
        n == checker_count(*b),
{
    b.checkers().popcnt()
}

/// Relies on `chess::ChessMove::get_source` and `Square::to_index`.
#[verifier::external_body]
pub(crate) fn move_source_square(m: &chess::ChessMove) -> (i: usize)
    ensures
        i == move_source(*m),
{
    m.get_source().to_index()
}

/// Relies on `chess::ChessMove::get_dest` and `Square::to_index`.
#[verifier::external_body]
pub(crate) fn move_dest_square(m: &chess::ChessMove) -> (i: usize)
    ensures
        i == move_dest(*m),
{
    m.get_dest().to_index()
}

} // verus!
