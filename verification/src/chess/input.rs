//! What the player's clicks and key presses do to a match.
use vstd::prelude::*;

use super::board::{set_square, write_square};
use super::game::{opt_on_board, settle_turn, ChessGame, GameView, MovingPiece};
use super::moves::{game_valid_moves, lemma_game_valid_moves_on_board};
use super::piece::{spec_opposite, Piece, PieceColor, PieceType};
use super::rules::all_on_board;

verus! {

/// The state with no square selected and no move hints.
pub open spec fn deselected(v: GameView) -> GameView {
    GameView { selected_square: None, valid_moves: seq![], ..v }
}

/// The state after the player's piece on the selected square `(fr, fc)` moves to
/// `(row, col)`: the piece lands there and is recorded as moving; a pawn reaching the first or
/// last row waits for its promotion (and the turn stays), any other move passes the turn and
/// is settled (draw rules, end of match). The selection is cleared unless a draw rule ended
/// the match.
pub open spec fn player_move(v: GameView, fr: int, fc: int, piece: Piece, row: int, col: int) -> GameView {
    let was_capture = v.board[row][col] is Some;
    let was_pawn_move = piece.piece_type == PieceType::Pawn;
    let v1 = GameView {
        board: set_square(set_square(v.board, row, col, Some(piece)), fr, fc, None),
        moving_piece: Some(
            MovingPiece {
                piece,
                from_row: fr as usize,
                from_col: fc as usize,
                to_row: row as usize,
                to_col: col as usize,
            },
        ),
        ..v
    };
    if was_pawn_move && (row == 0 || row == 7) {
        deselected(
            GameView {
                promotion_move_was_capture: was_capture,
                promotion_pending: Some((row as usize, col as usize)),
                promotion_cursor: 0,
                ..v1
            },
        )
    } else {
        let settled = settle_turn(
            GameView { current_turn: spec_opposite(v.current_turn), ..v1 },
            was_capture || was_pawn_move,
        );
        if settled.1 {
            settled.0
        } else {
            deselected(settled.0)
        }
    }
}

/// The state after the player acts on square `(row, col)`. Nothing happens unless it is the
/// player's turn and the match is on. With a square selected: acting on it again deselects
/// it; acting on one of its move hints plays that move (`player_move`); anything else just
/// deselects. With nothing selected: a square holding one of the player's pieces becomes
/// selected and its legal moves become the hints.
pub open spec fn after_select_or_move(v: GameView, row: int, col: int) -> GameView {
    if v.current_turn != v.player_color || v.game_outcome is Some {
        v
    } else {
        match v.selected_square {
            Some((fr, fc)) => if fr == row && fc == col {
                deselected(v)
            } else {
                match v.board[fr as int][fc as int] {
                    Some(piece) => if v.valid_moves.contains((row as usize, col as usize)) {
                        player_move(v, fr as int, fc as int, piece, row, col)
                    } else {
                        deselected(v)
                    },
                    None => deselected(v),
                }
            },
            None => match v.board[row][col] {
                Some(p) => if p.color == v.player_color {
                    GameView {
                        selected_square: Some((row as usize, col as usize)),
                        valid_moves: game_valid_moves(v.board, row, col),
                        ..v
                    }
                } else {
                    v
                },
                None => v,
            },
        }
    }
}

/// Kind of piece a pawn is promoted to for each menu choice: queen, rook, bishop, knight
/// (any other choice gives a queen).
pub open spec fn promotion_piece(choice_idx: usize) -> PieceType {
    if choice_idx == 1 {
        PieceType::Rook
    } else if choice_idx == 2 {
        PieceType::Bishop
    } else if choice_idx == 3 {
        PieceType::Knight
    } else {
        PieceType::Queen
    }
}

/// The state after the player picks `choice_idx` for a pending promotion: the pawn becomes
/// the chosen piece, the turn passes and the move (a pawn move) is settled. Nothing happens
/// when the match is over or no promotion is pending.
pub open spec fn after_promotion(v: GameView, choice_idx: usize) -> GameView {
    if v.game_outcome is Some {
        v
    } else {
        match v.promotion_pending {
            None => v,
            Some((r, c)) => {
                let board = match v.board[r as int][c as int] {
                    Some(p) => set_square(
                        v.board,
                        r as int,
                        c as int,
                        Some(Piece { piece_type: promotion_piece(choice_idx), color: p.color }),
                    ),
                    None => v.board,
                };
                settle_turn(
                    GameView {
                        board,
                        promotion_pending: None,
                        current_turn: spec_opposite(v.current_turn),
                        promotion_move_was_capture: false,
                        ..v
                    },
                    true,
                ).0
            },
        }
    }
}

/// `(row, col)` is one of `squares`.
fn contains_square(squares: &Vec<(usize, usize)>, row: usize, col: usize) -> (found: bool)
    ensures
        found == squares@.contains((row, col)),
{
    let mut i: usize = 0;
    while i < squares.len()
        invariant
            i <= squares@.len(),
            forall|j: int| 0 <= j < i ==> #[trigger] squares@[j] != (row, col),
        decreases squares@.len() - i,
    {
        let (r, c) = squares[i];
        if r == row && c == col {
            assert(squares@[i as int] == (row, col));
            return true;
        }
        i += 1;
    }
    false
}

impl ChessGame {
    /// The player acts on square `(row, col)` (a click or the keyboard's Enter): selects one
    /// of their pieces, plays a hinted move, or deselects (see `after_select_or_move`).
    pub fn select_or_move(&mut self, row: usize, col: usize)
        requires
            old(self).current_turn == old(self).player_color && old(self).game_outcome is None
                ==> match old(self).selected_square {
                None => row < 8 && col < 8,
                Some((fr, fc)) => (fr == row && fc == col) || (fr < 8 && fc < 8 && (old(
                    self,
                ).valid_moves@.contains((row, col)) ==> row < 8 && col < 8)),
            },
        ensures
            final(self)@ == after_select_or_move(old(self)@, row as int, col as int),
            old(self)@.wf() ==> final(self)@.wf(),
    {
        if self.current_turn != self.player_color || self.game_outcome.is_some() {
            return ;
        }

        if let Some((from_row, from_col)) = self.selected_square {
            if from_row == row && from_col == col {
                self.selected_square = None;
                self.valid_moves.clear();
                proof {
                    assert(self@ =~= deselected(old(self)@));
                }
                return ;
            }

            if let Some(piece) = self.board[from_row][from_col] {
                if contains_square(&self.valid_moves, row, col) {
                    let was_capture = self.board[row][col].is_some();
                    let was_pawn_move = piece.piece_type == PieceType::Pawn;

                    write_square(&mut self.board, row, col, Some(piece));
                    write_square(&mut self.board, from_row, from_col, None);

                    self.moving_piece = Some(
                        MovingPiece { piece, from_row, from_col, to_row: row, to_col: col },
                    );
                    if piece.piece_type == PieceType::Pawn && (row == 0 || row == 7) {
                        self.promotion_move_was_capture = was_capture;
                        self.promotion_pending = Some((row, col));
                        self.promotion_cursor = 0;
                    } else {
                        self.current_turn = match self.current_turn {
                            PieceColor::White => PieceColor::Black,
                            PieceColor::Black => PieceColor::White,
                        };
                        if self.settle_after_move(was_capture || was_pawn_move) {
                            return ;
                        }
                    }
                }
            }

            self.selected_square = None;
            self.valid_moves.clear();
            proof {
                assert(self@ =~= after_select_or_move(old(self)@, row as int, col as int));
            }
        } else {
            if let Some(piece) = self.board[row][col] {
                if piece.color == self.player_color {
                    self.selected_square = Some((row, col));
                    self.calculate_valid_moves(row, col);
                }
            }
        }
    }

    /// The player picks `choice_idx` (0 queen, 1 rook, 2 bishop, 3 knight) for the pending
    /// promotion (see `after_promotion`).
    pub fn apply_promotion(&mut self, choice_idx: usize)
        requires
            opt_on_board(old(self).promotion_pending),
        ensures
            final(self)@ == after_promotion(old(self)@, choice_idx),
            old(self)@.wf() ==> final(self)@.wf(),
    {
        if self.game_outcome.is_some() {
            return ;
        }

        if let Some((r, c)) = self.promotion_pending {
            if let Some(piece) = self.board[r][c] {
                let mut piece = piece;
                piece.piece_type = match choice_idx {
                    0 => PieceType::Queen,
                    1 => PieceType::Rook,
                    2 => PieceType::Bishop,
                    3 => PieceType::Knight,
                    _ => PieceType::Queen,
                };
                write_square(&mut self.board, r, c, Some(piece));
            }
            self.promotion_pending = None;

            self.current_turn = match self.current_turn {
                PieceColor::White => PieceColor::Black,
                PieceColor::Black => PieceColor::White,
            };

            let pawn_or_capture = true;
            self.promotion_move_was_capture = false;
            let ghost before_settle = self@;
            proof {
                assert(before_settle =~= GameView {
                    board: before_settle.board,
                    promotion_pending: None,
                    current_turn: spec_opposite(old(self)@.current_turn),
                    promotion_move_was_capture: false,
                    ..old(self)@
                });
            }
            self.settle_after_move(pawn_or_capture);
        }
    }
}


/// A press of an arrow key on the board.
#[derive(Clone, Copy, PartialEq, Eq, Structural, Debug)]
pub enum CursorStep {
    Up,
    Down,
    Left,
    Right,
}

/// Where the keyboard cursor goes from `(row, col)` on `step`: one square in that direction,
/// staying on the board (Up lowers the row, Left the column).
pub open spec fn stepped(pos: (usize, usize), step: CursorStep) -> (usize, usize) {
    let (row, col) = pos;
    match step {
        CursorStep::Up => (if row > 0 { (row - 1) as usize } else { row }, col),
        CursorStep::Down => (if row < 7 { (row + 1) as usize } else { row }, col),
        CursorStep::Left => (row, if col > 0 { (col - 1) as usize } else { col }),
        CursorStep::Right => (row, if col < 7 { (col + 1) as usize } else { col }),
    }
}

impl ChessGame {
    /// Moves the keyboard cursor one square; a cursor hidden by the mouse comes back from
    /// the white king's starting square. Nothing else changes.
    pub fn move_cursor(&mut self, step: CursorStep)
        ensures
            final(self)@ == (GameView {
                cursor: Some(
                    stepped(
                        match old(self).cursor {
                            Some(p) => p,
                            None => (7usize, 4usize),
                        },
                        step,
                    ),
                ),
                ..old(self)@
            }),
    {
        let (row, col) = match self.cursor {
            Some(p) => p,
            None => (7, 4),
        };
        let next = match step {
            CursorStep::Up => (if row > 0 { row - 1 } else { row }, col),
            CursorStep::Down => (if row < 7 { row + 1 } else { row }, col),
            CursorStep::Left => (row, if col > 0 { col - 1 } else { col }),
            CursorStep::Right => (row, if col < 7 { col + 1 } else { col }),
        };
        self.cursor = Some(next);
        proof {
            assert(self@ =~= (GameView { cursor: Some(next), ..old(self)@ }));
        }
    }
}

} // verus!
