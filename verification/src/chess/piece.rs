use vstd::prelude::*;

verus! {

/// The six kinds of chess pieces.
#[derive(Clone, Copy, PartialEq, Eq, Structural, Debug)]
pub enum PieceType {
    Pawn,
    Rook,
    Knight,
    Bishop,
    Queen,
    King,
}

/// The two sides of a chess game.
#[derive(Clone, Copy, PartialEq, Eq, Structural, Debug)]
pub enum PieceColor {
    White,
    Black,
}

/// A piece standing on a square: its kind and its side.
#[derive(Clone, Copy, PartialEq, Eq, Structural, Debug)]
pub struct Piece {
    pub piece_type: PieceType,
    pub color: PieceColor,
}

/// Column of the sprite sheet that holds the picture of each kind of piece.
pub open spec fn spec_piece_column_index(piece_type: PieceType) -> usize {
    match piece_type {
        PieceType::King => 0,
        PieceType::Queen => 1,
        PieceType::Bishop => 2,
        PieceType::Knight => 3,
        PieceType::Rook => 4,
        PieceType::Pawn => 5,
    }
}

/// Returns the sprite-sheet column of a kind of piece.
pub fn get_piece_column_index(piece_type: PieceType) -> (idx: usize)
    ensures
        idx == spec_piece_column_index(piece_type),
        idx < 6,
{
    match piece_type {
        PieceType::King => 0,
        PieceType::Queen => 1,
        PieceType::Bishop => 2,
        PieceType::Knight => 3,
        PieceType::Rook => 4,
        PieceType::Pawn => 5,
    }
}

/// The side that is not `color`.
pub open spec fn spec_opposite(color: PieceColor) -> PieceColor {
    match color {
        PieceColor::White => PieceColor::Black,
        PieceColor::Black => PieceColor::White,
    }
}

/// Returns the other side.
pub fn opposite_color(color: PieceColor) -> (other: PieceColor)
    ensures
        other == spec_opposite(color),
        other != color,
{
    match color {
        PieceColor::White => PieceColor::Black,
        PieceColor::Black => PieceColor::White,
    }
}

} // verus!
