pub mod agreement;
pub mod ai;
pub mod board;
pub mod game;
pub mod glyphs;
pub mod input;
pub mod laws;
pub mod moves;
pub mod piece;
pub mod properties;
pub mod rules;
pub mod score;

pub use ai::ChessAi;
pub use board::{AiMove, Board};
pub use game::{ChessGame, GameOutcome, MovingPiece};
pub use piece::{get_piece_column_index, Piece, PieceColor, PieceType};
