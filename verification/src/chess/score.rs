//! How the engine values positions and moves, stated as spec functions.
//!
//! Scores are integers in units of 1/200 of a pawn: a pawn is worth 200, a capture
//! bonus of a quarter of the captured piece, a check bonus of 80, and so on. Every
//! weight of the engine is a whole number of such units, so the arithmetic is exact.
use vstd::prelude::*;

use super::board::{apply_move, AiMove, Board};
use super::piece::{spec_opposite, PieceColor, PieceType};
use super::rules::{king_in_check, lemma_legal_moves_len, legal_moves};

verus! {

/// Score of being mated (50 000 pawns).
pub const MATE_SCORE: i64 = 10_000_000;

/// Number of plies the engine looks ahead from the position before its move.
pub const SEARCH_DEPTH: usize = 2;

/// Score added per ply of search left when a mate is found (one pawn).
pub const DEPTH_BONUS: i64 = 200;

/// Widest score gap between the best move and a move that may still be picked (0.18 pawn).
pub const PICK_MARGIN: i64 = 36;

/// Value of a piece: pawn 1, knight 3, bishop 3.1, rook 5, queen 9, king 100 (in pawns).
pub open spec fn spec_piece_value(t: PieceType) -> int {
    match t {
        PieceType::Pawn => 200,
        PieceType::Knight => 600,
        PieceType::Bishop => 620,
        PieceType::Rook => 1000,
        PieceType::Queen => 1800,
        PieceType::King => 20000,
    }
}

/// Value of the piece of `color` on the square numbered `k` in row-major order (0 if none).
pub open spec fn square_material(b: Board, color: PieceColor, k: int) -> int {
    match b[k / 8][k % 8] {
        Some(p) => if p.color == color {
            spec_piece_value(p.piece_type)
        } else {
            0
        },
        None => 0,
    }
}

/// Total value of the pieces of `color` on the first `k` squares.
pub open spec fn material_upto(b: Board, color: PieceColor, k: nat) -> int
    decreases k,
{
    if k == 0 {
        0
    } else {
        material_upto(b, color, (k - 1) as nat) + square_material(b, color, k - 1)
    }
}

/// Total value of the pieces of `color`.
pub open spec fn material(b: Board, color: PieceColor) -> int {
    material_upto(b, color, 64)
}

/// Static evaluation for the side to move: material balance, plus 0.04 pawn per legal
/// move more than the opponent, plus 0.35 pawn if the opponent is in check, minus 0.35
/// pawn if the side to move is.
pub open spec fn evaluation(b: Board, side: PieceColor) -> int {
    let opp = spec_opposite(side);
    material(b, side) - material(b, opp) + 8 * (legal_moves(b, side).len() - legal_moves(
        b,
        opp,
    ).len()) + (if king_in_check(b, opp) {
        70int
    } else {
        0int
    }) - (if king_in_check(b, side) {
        70int
    } else {
        0int
    })
}

/// The larger of two scores.
pub open spec fn max_score(a: int, b: int) -> int {
    if a >= b {
        a
    } else {
        b
    }
}

/// Negamax value of the position for `side` searched `depth` plies deep: a side without
/// legal moves is mated (worth `-MATE_SCORE` plus one pawn per ply left) if in check, and
/// drawn (0) if not; at depth 0 the static evaluation counts; otherwise the best of the
/// negated values of the positions after each legal move.
pub open spec fn negamax_value(b: Board, side: PieceColor, depth: nat) -> int
    decreases depth, 1nat, 0nat,
{
    let moves = legal_moves(b, side);
    if moves.len() == 0 {
        if king_in_check(b, side) {
            -MATE_SCORE + DEPTH_BONUS * depth
        } else {
            0
        }
    } else if depth == 0 {
        evaluation(b, side)
    } else {
        best_over(b, side, depth, moves)
    }
}

/// The best of `-MATE_SCORE` and the negated `depth - 1` values of the positions after each of `moves`.
pub open spec fn best_over(b: Board, side: PieceColor, depth: nat, moves: Seq<AiMove>) -> int
    decreases depth, 0nat, moves.len(),
{
    if depth == 0 || moves.len() == 0 {
        -MATE_SCORE
    } else {
        max_score(
            best_over(b, side, depth, moves.drop_last()),
            -negamax_value(apply_move(b, moves.last()), spec_opposite(side), (depth - 1) as nat),
        )
    }
}

/// `m` undoes `prev`: it goes from where `prev` went back to where `prev` came from.
pub open spec fn reverses(m: AiMove, prev: Option<AiMove>) -> bool {
    prev matches Some(p) && m.from_row == p.to_row && m.from_col == p.to_col && m.to_row
        == p.from_row && m.to_col == p.from_col
}

/// Score the engine gives to playing `m` for `side`: the negated value of the resulting
/// position searched one ply less than `SEARCH_DEPTH`, minus 0.7 pawn for undoing the
/// side's previous move, plus a quarter of the value of a captured piece, plus 0.4 pawn
/// when the move gives check.
pub open spec fn move_score(b: Board, side: PieceColor, m: AiMove, prev: Option<AiMove>) -> int {
    let next = apply_move(b, m);
    -negamax_value(next, spec_opposite(side), (SEARCH_DEPTH - 1) as nat) - (if reverses(m, prev) {
        140int
    } else {
        0int
    }) + (match b[m.to_row as int][m.to_col as int] {
        Some(t) => spec_piece_value(t.piece_type) / 4,
        None => 0,
    }) + (if king_in_check(next, spec_opposite(side)) {
        80int
    } else {
        0int
    })
}


proof fn lemma_material_upto_bounds(b: Board, color: PieceColor, k: nat)
    ensures
        0 <= material_upto(b, color, k) <= 20000 * k,
    decreases k,
{
    if k > 0 {
        lemma_material_upto_bounds(b, color, (k - 1) as nat);
    }
}

/// A side's material lies between 0 and 64 kings.
pub proof fn lemma_material_bounds(b: Board, color: PieceColor)
    ensures
        0 <= material(b, color) <= 1_280_000,
{
    lemma_material_upto_bounds(b, color, 64);
}

/// The static evaluation stays far inside the mate scores.
pub proof fn lemma_evaluation_bounds(b: Board, side: PieceColor)
    ensures
        -1_400_000 <= evaluation(b, side) <= 1_400_000,
{
    lemma_material_bounds(b, side);
    lemma_material_bounds(b, spec_opposite(side));
    lemma_legal_moves_len(b, side);
    lemma_legal_moves_len(b, spec_opposite(side));
}

/// A longer list of moves never lowers their best value.
pub proof fn lemma_best_over_prefix(
    b: Board,
    side: PieceColor,
    depth: nat,
    moves: Seq<AiMove>,
    i: int,
    j: int,
)
    requires
        0 <= i <= j <= moves.len(),
    ensures
        best_over(b, side, depth, moves.take(i)) <= best_over(b, side, depth, moves.take(j)),
    decreases j - i,
{
    if i < j {
        lemma_best_over_prefix(b, side, depth, moves, i, j - 1);
        if depth > 0 {
            assert(moves.take(j).drop_last() =~= moves.take(j - 1));
        }
    }
}

/// Negamax values (for searches of at most 1000 plies) lie between the two mate scores.
pub proof fn lemma_negamax_bounds(b: Board, side: PieceColor, depth: nat)
    requires
        depth <= 1000,
    ensures
        -MATE_SCORE <= negamax_value(b, side, depth) <= MATE_SCORE,
    decreases depth, 1nat, 0nat,
{
    let moves = legal_moves(b, side);
    if moves.len() == 0 {
    } else if depth == 0 {
        lemma_evaluation_bounds(b, side);
    } else {
        lemma_best_over_bounds(b, side, depth, moves);
    }
}

/// The best of the negated child values lies between the two mate scores.
pub proof fn lemma_best_over_bounds(b: Board, side: PieceColor, depth: nat, moves: Seq<AiMove>)
    requires
        depth <= 1000,
    ensures
        -MATE_SCORE <= best_over(b, side, depth, moves) <= MATE_SCORE,
    decreases depth, 0nat, moves.len(),
{
    if depth > 0 && moves.len() > 0 {
        lemma_best_over_bounds(b, side, depth, moves.drop_last());
        lemma_negamax_bounds(apply_move(b, moves.last()), spec_opposite(side), (depth - 1) as nat);
    }
}

} // verus!
