use vstd::prelude::*;

use super::piece::{Piece, PieceType};

verus! {

/// An 8x8 board, indexed `[row][col]`; row 0 is Black's back rank, row 7 is White's.
pub type Board = [[Option<Piece>; 8]; 8];

/// A move from one square to another, as the engine and the game use it.
#[derive(Debug, Clone, Copy, PartialEq, Eq, Structural)]
pub struct AiMove {
    pub from_row: usize,
    pub from_col: usize,
    pub to_row: usize,
    pub to_col: usize,
}

impl AiMove {
    /// Builds a move from its four coordinates.
    pub fn new(from_row: usize, from_col: usize, to_row: usize, to_col: usize) -> (m: Self)
        ensures
            m.from_row == from_row,
            m.from_col == from_col,
            m.to_row == to_row,
            m.to_col == to_col,
    {
        Self { from_row, from_col, to_row, to_col }
    }
}

/// A square `(row, col)` lies on the board.
pub open spec fn in_board(r: int, c: int) -> bool {
    0 <= r < 8 && 0 <= c < 8
}

/// Both ends of a move lie on the board.
pub open spec fn move_on_board(m: AiMove) -> bool {
    m.from_row < 8 && m.from_col < 8 && m.to_row < 8 && m.to_col < 8
}

/// The board with square `(r, c)` replaced by `v`.
pub open spec fn set_square(b: Board, r: int, c: int, v: Option<Piece>) -> Board {
    vstd::array::spec_array_update(b, r, vstd::array::spec_array_update(b[r], c, v))
}

/// What a piece becomes when it lands on row `to_row`: a pawn reaching
/// the first or last row becomes a queen.
pub open spec fn promoted(p: Piece, to_row: int) -> Piece {
    if p.piece_type == PieceType::Pawn && (to_row == 0 || to_row == 7) {
        Piece { piece_type: PieceType::Queen, color: p.color }
    } else {
        p
    }
}

/// The board after playing `m`: the piece on the origin (promoted if it is a
/// pawn reaching the edge) lands on the target and the origin is emptied. An
/// empty origin leaves the board as it was.
pub open spec fn apply_move(b: Board, m: AiMove) -> Board {
    match b[m.from_row as int][m.from_col as int] {
        Some(p) => set_square(
            set_square(b, m.to_row as int, m.to_col as int, Some(promoted(p, m.to_row as int))),
            m.from_row as int,
            m.from_col as int,
            None,
        ),
        None => b,
    }
}

/// Facts about `set_square` on squares of the board.
pub proof fn lemma_set_square(b: Board, r: int, c: int, v: Option<Piece>)
    requires
        in_board(r, c),
    ensures
        forall|r2: int, c2: int|
            in_board(r2, c2) ==> #[trigger] set_square(b, r, c, v)[r2][c2] == (if r2 == r && c2
                == c {
                v
            } else {
                b[r2][c2]
            }),
{
    broadcast use vstd::array::group_array_axioms;

    let inner = vstd::array::spec_array_update(b[r], c, v);
    assert(inner@ == b[r]@.update(c, v));
    assert(set_square(b, r, c, v)@ == b@.update(r, inner));
}

/// Writes `v` on square `(r, c)`.
pub fn write_square(b: &mut Board, r: usize, c: usize, v: Option<Piece>)
    requires
        r < 8,
        c < 8,
    ensures
        *final(b) == set_square(*old(b), r as int, c as int, v),
{
    broadcast use vstd::array::group_array_axioms;

    let ghost b0 = *b;
    b[r][c] = v;
    proof {
        lemma_set_square(b0, r as int, c as int, v);
        let s = set_square(b0, r as int, c as int, v);
        assert forall|i: int| 0 <= i < 8 implies (*b)[i] =~= s[i] by {}
        assert(*b =~= s);
    }
}

} // verus!
