//! The state of a chess match between the player and the engine.
use std::collections::HashMap;
use vstd::prelude::*;

use super::ai::{lemma_square_index, ChessAi};
use crate::rng::{choose_one, random_bool};
use super::score::{move_score, PICK_MARGIN};
use super::board::{apply_move, in_board, move_on_board, promoted, write_square, AiMove, Board};
use super::moves::{game_king_in_check, game_legal_moves, lemma_game_legal_moves_on_board};
use super::piece::{spec_opposite, Piece, PieceColor, PieceType};
use super::rules::all_on_board;

verus! {

/// The last move played, kept so the board can show it moving.
#[derive(Clone, Copy, PartialEq, Eq, Structural, Debug)]
pub struct MovingPiece {
    pub piece: Piece,
    pub from_row: usize,
    pub from_col: usize,
    pub to_row: usize,
    pub to_col: usize,
}

/// How a finished match ended.
#[derive(Clone, Copy, Debug, PartialEq, Eq, Structural)]
pub enum GameOutcome {
    Checkmate { winner: PieceColor },
    Stalemate,
}

/// A chess match: the board, whose turn it is, the player's selection and the
/// bookkeeping of the draw rules (fifty-move rule and threefold repetition).
pub struct ChessGame {
    pub board: Board,
    pub selected_square: Option<(usize, usize)>,
    /// Square pointed at by the keyboard cursor (row, column).
    pub cursor: Option<(usize, usize)>,
    pub current_turn: PieceColor,
    /// Destinations of the selected piece.
    pub valid_moves: Vec<(usize, usize)>,
    pub player_color: PieceColor,
    /// Square of a pawn waiting for the player to choose its promotion.
    pub promotion_pending: Option<(usize, usize)>,
    /// Index (0 to 3) of the promotion choice highlighted by the keyboard.
    pub promotion_cursor: usize,
    pub moving_piece: Option<MovingPiece>,
    pub ai: ChessAi,
    /// The engine's last move for White (index 0) and for Black (index 1).
    pub ai_last_move_by_side: [Option<AiMove>; 2],
    pub game_outcome: Option<GameOutcome>,
    /// How many times each position (by its key) has occurred.
    pub repetition_counts: HashMap<u64, u8>,
    /// Plies since the last capture or pawn move.
    pub halfmove_clock: u16,
    pub promotion_move_was_capture: bool,
}

/// The state of a match as plain mathematical values.
#[verifier::ext_equal]
pub struct GameView {
    pub board: Board,
    pub selected_square: Option<(usize, usize)>,
    pub cursor: Option<(usize, usize)>,
    pub current_turn: PieceColor,
    pub valid_moves: Seq<(usize, usize)>,
    pub player_color: PieceColor,
    pub promotion_pending: Option<(usize, usize)>,
    pub promotion_cursor: usize,
    pub moving_piece: Option<MovingPiece>,
    pub ai: ChessAi,
    pub ai_last_move_by_side: [Option<AiMove>; 2],
    pub game_outcome: Option<GameOutcome>,
    pub repetition_counts: Map<u64, u8>,
    pub halfmove_clock: u16,
    pub promotion_move_was_capture: bool,
}

impl View for ChessGame {
    type V = GameView;

    open spec fn view(&self) -> GameView {
        GameView {
            board: self.board,
            selected_square: self.selected_square,
            cursor: self.cursor,
            current_turn: self.current_turn,
            valid_moves: self.valid_moves@,
            player_color: self.player_color,
            promotion_pending: self.promotion_pending,
            promotion_cursor: self.promotion_cursor,
            moving_piece: self.moving_piece,
            ai: self.ai,
            ai_last_move_by_side: self.ai_last_move_by_side,
            game_outcome: self.game_outcome,
            repetition_counts: self.repetition_counts@,
            halfmove_clock: self.halfmove_clock,
            promotion_move_was_capture: self.promotion_move_was_capture,
        }
    }
}

/// The square `s`, if any, lies on the board.
pub open spec fn opt_on_board(s: Option<(usize, usize)>) -> bool {
    s matches Some((r, c)) ==> r < 8 && c < 8
}

impl GameView {
    /// The squares the state refers to lie on the board.
    pub open spec fn wf(self) -> bool {
        &&& opt_on_board(self.selected_square)
        &&& opt_on_board(self.promotion_pending)
        &&& all_on_board(self.valid_moves)
    }
}


/// Index of a side in `ai_last_move_by_side`.
pub open spec fn color_index(c: PieceColor) -> int {
    match c {
        PieceColor::White => 0,
        PieceColor::Black => 1,
    }
}

/// Kind of piece that starts on column `c` of a back rank.
pub open spec fn back_rank_piece(c: int) -> PieceType {
    if c == 0 || c == 7 {
        PieceType::Rook
    } else if c == 1 || c == 6 {
        PieceType::Knight
    } else if c == 2 || c == 5 {
        PieceType::Bishop
    } else if c == 3 {
        PieceType::Queen
    } else {
        PieceType::King
    }
}

/// Content of square `(r, c)` at the start of a match: Black on rows 0 and 1, White on rows 6 and 7.
pub open spec fn initial_square(r: int, c: int) -> Option<Piece> {
    if r == 0 {
        Some(Piece { piece_type: back_rank_piece(c), color: PieceColor::Black })
    } else if r == 1 {
        Some(Piece { piece_type: PieceType::Pawn, color: PieceColor::Black })
    } else if r == 6 {
        Some(Piece { piece_type: PieceType::Pawn, color: PieceColor::White })
    } else if r == 7 {
        Some(Piece { piece_type: back_rank_piece(c), color: PieceColor::White })
    } else {
        None
    }
}

/// `b` is the starting position.
pub open spec fn is_initial_board(b: Board) -> bool {
    forall|r: int, c: int| in_board(r, c) ==> #[trigger] b[r][c] == initial_square(r, c)
}

/// The starting position.
pub open spec fn initial_board() -> Board {
    choose|b: Board| is_initial_board(b)
}

/// The starting position is the only board with the starting squares.
pub proof fn lemma_initial_board_unique(b: Board)
    requires
        is_initial_board(b),
    ensures
        b == initial_board(),
{
    broadcast use vstd::array::group_array_axioms;

    let i = initial_board();
    assert(is_initial_board(i));
    assert forall|r: int| 0 <= r < 8 implies b[r] =~= i[r] by {
        assert forall|c: int| 0 <= c < 8 implies b[r][c] == i[r][c] by {
            assert(in_board(r, c));
        }
    }
    assert(b =~= i);
}

/// Tag of a side in position keys.
pub open spec fn color_tag(c: PieceColor) -> u64 {
    match c {
        PieceColor::White => 1,
        PieceColor::Black => 2,
    }
}

/// Tag of a kind of piece in position keys.
pub open spec fn role_tag(t: PieceType) -> u64 {
    match t {
        PieceType::Pawn => 1,
        PieceType::Knight => 2,
        PieceType::Bishop => 3,
        PieceType::Rook => 4,
        PieceType::Queen => 5,
        PieceType::King => 6,
    }
}

/// Tag of a square's content in position keys (0 when empty).
pub open spec fn square_tag(s: Option<Piece>) -> u64 {
    match s {
        None => 0,
        Some(p) => (color_tag(p.color) * 10 + role_tag(p.piece_type)) as u64,
    }
}

/// One FNV-1a style step: xor in `x`, then multiply by the 64-bit FNV prime (wrapping).
pub open spec fn fnv_mix(h: u64, x: u64) -> u64 {
    (h ^ x).wrapping_mul(1099511628211)
}

/// Key of the side to move and the first `k` squares (row-major).
pub open spec fn key_upto(b: Board, turn: PieceColor, k: nat) -> u64
    decreases k,
{
    if k == 0 {
        fnv_mix(1469598103934665603, color_tag(turn))
    } else {
        let sq = k - 1;
        fnv_mix(
            key_upto(b, turn, (k - 1) as nat),
            (square_tag(b[sq / 8][sq % 8]) + sq * 17) as u64,
        )
    }
}

/// Key identifying a position (the board and the side to move) for the repetition rule.
pub open spec fn position_key(b: Board, turn: PieceColor) -> u64 {
    key_upto(b, turn, 64)
}

/// How many times the position with key `key` has occurred.
pub open spec fn repetition_count(m: Map<u64, u8>, key: u64) -> u8 {
    if m.contains_key(key) {
        m[key]
    } else {
        0
    }
}

/// Ends the match in a draw unless it has already ended.
pub open spec fn finish_draw(v: GameView) -> GameView {
    if v.game_outcome is Some {
        v
    } else {
        GameView { game_outcome: Some(GameOutcome::Stalemate), ..v }
    }
}

/// Ends the match because `side` cannot move: mate (won by the other side) if its king is in
/// check, stalemate otherwise; nothing changes if the match has already ended.
pub open spec fn finish_for_side(v: GameView, side: PieceColor) -> GameView {
    if v.game_outcome is Some {
        v
    } else {
        GameView {
            game_outcome: Some(
                if game_king_in_check(v.board, side) {
                    GameOutcome::Checkmate { winner: spec_opposite(side) }
                } else {
                    GameOutcome::Stalemate
                },
            ),
            ..v
        }
    }
}

/// Fifty-move counter after a move: reset by a pawn move or a capture, else one more (saturating).
pub open spec fn clock_after(clock: u16, pawn_or_capture: bool) -> u16 {
    if pawn_or_capture {
        0
    } else {
        clock.saturating_add(1)
    }
}

/// The state after recording a new position, and whether a draw rule ended the match:
/// the fifty-move rule (100 plies without a pawn move or capture) or the third occurrence
/// of the position.
pub open spec fn register_position(v: GameView, pawn_or_capture: bool) -> (GameView, bool) {
    let clock = clock_after(v.halfmove_clock, pawn_or_capture);
    let v1 = GameView { halfmove_clock: clock, ..v };
    if clock >= 100 {
        (finish_draw(v1), true)
    } else {
        let key = position_key(v1.board, v1.current_turn);
        let count = repetition_count(v1.repetition_counts, key).saturating_add(1);
        let v2 = GameView { repetition_counts: v1.repetition_counts.insert(key, count), ..v1 };
        if count >= 3 {
            (finish_draw(v2), true)
        } else {
            (v2, false)
        }
    }
}

/// Kinds of the pieces of `color` other than kings on the first `k` squares (row-major).
pub open spec fn non_kings_upto(b: Board, color: PieceColor, k: nat) -> Seq<PieceType>
    decreases k,
{
    if k == 0 {
        seq![]
    } else {
        let sq = k - 1;
        let prev = non_kings_upto(b, color, (k - 1) as nat);
        match b[sq / 8][sq % 8] {
            Some(p) => if p.piece_type != PieceType::King && p.color == color {
                prev.push(p.piece_type)
            } else {
                prev
            },
            None => prev,
        }
    }
}

/// Kinds of the pieces of `color` other than kings, in row-major order.
pub open spec fn non_kings(b: Board, color: PieceColor) -> Seq<PieceType> {
    non_kings_upto(b, color, 64)
}

/// A bishop or a knight.
pub open spec fn is_minor(t: PieceType) -> bool {
    t == PieceType::Bishop || t == PieceType::Knight
}

/// Neither side can mate: only kings, or kings and a single minor piece for one side, or
/// kings and a single minor piece for each side.
pub open spec fn insufficient_material(b: Board) -> bool {
    let w = non_kings(b, PieceColor::White);
    let k = non_kings(b, PieceColor::Black);
    ||| w.len() == 0 && k.len() == 0
    ||| w.len() == 1 && k.len() == 0 && is_minor(w[0])
    ||| k.len() == 1 && w.len() == 0 && is_minor(k[0])
    ||| w.len() == 1 && k.len() == 1 && is_minor(w[0]) && is_minor(k[0])
}

/// What happens once a move has passed the turn: the draw rules are applied, then a side to
/// move without legal moves is mated or stalemated. The flag tells that a draw rule
/// (fifty moves, repetition, insufficient material) ended the match, in which case the
/// state is left as the rule left it.
pub open spec fn settle_turn(v: GameView, pawn_or_capture: bool) -> (GameView, bool) {
    let (v1, drawn) = register_position(v, pawn_or_capture);
    if drawn {
        (v1, true)
    } else if insufficient_material(v1.board) {
        (finish_draw(v1), true)
    } else {
        let v2 = GameView { valid_moves: seq![], ..v1 };
        if game_legal_moves(v2.board, v2.current_turn).len() == 0 {
            (finish_for_side(v2, v2.current_turn), false)
        } else {
            (v2, false)
        }
    }
}

/// The state after the engine's move `m` lands on the board: the moved piece (promoted if
/// it is a pawn reaching the edge) is recorded as moving; an empty origin changes nothing.
pub open spec fn ai_move_applied(v: GameView, m: AiMove) -> GameView {
    match v.board[m.from_row as int][m.from_col as int] {
        Some(piece) => GameView {
            board: apply_move(v.board, m),
            moving_piece: Some(
                MovingPiece {
                    piece: promoted(piece, m.to_row as int),
                    from_row: m.from_row,
                    from_col: m.from_col,
                    to_row: m.to_row,
                    to_col: m.to_col,
                },
            ),
            ..v
        },
        None => v,
    }
}

/// The state after the engine plays `m` for the side to move: the move is remembered as that
/// side's last, played, the turn passes and `settle_turn` follows.
pub open spec fn ai_turn(v: GameView, m: AiMove) -> GameView {
    let actor = v.current_turn;
    let was_capture = v.board[m.to_row as int][m.to_col as int] is Some;
    let was_pawn_move = v.board[m.from_row as int][m.from_col as int] matches Some(p)
        && p.piece_type == PieceType::Pawn;
    let v1 = GameView {
        ai_last_move_by_side: vstd::array::spec_array_update(
            v.ai_last_move_by_side,
            color_index(actor),
            Some(m),
        ),
        ..v
    };
    let v2 = ai_move_applied(v1, m);
    settle_turn(GameView { current_turn: spec_opposite(actor), ..v2 }, was_capture || was_pawn_move).0
}

/// The state at the start of a match in which the player has `player`; the keyboard cursor
/// starts on the white king's square.
pub open spec fn fresh_match(player: PieceColor) -> GameView {
    GameView {
        board: initial_board(),
        selected_square: None,
        cursor: Some((7, 4)),
        current_turn: PieceColor::White,
        valid_moves: seq![],
        player_color: player,
        promotion_pending: None,
        promotion_cursor: 0,
        moving_piece: None,
        ai: ChessAi,
        ai_last_move_by_side: [None, None],
        game_outcome: None,
        repetition_counts: Map::<u64, u8>::empty().insert(position_key(initial_board(), PieceColor::White), 1u8),
        halfmove_clock: 0,
        promotion_move_was_capture: false,
    }
}

/// The state after a new match is started over `v`: the player's side, the cursor and the
/// engine are kept.
pub open spec fn restarted(v: GameView) -> GameView {
    GameView { cursor: v.cursor, player_color: v.player_color, ai: v.ai, ..fresh_match(v.player_color) }
}


/// The starting position.
fn starting_board() -> (b: Board)
    ensures
        is_initial_board(b),
        b == initial_board(),
{
    broadcast use vstd::array::group_array_axioms;

    let bk = PieceColor::Black;
    let wh = PieceColor::White;
    let black_back: [Option<Piece>; 8] = [
        Some(Piece { piece_type: PieceType::Rook, color: bk }),
        Some(Piece { piece_type: PieceType::Knight, color: bk }),
        Some(Piece { piece_type: PieceType::Bishop, color: bk }),
        Some(Piece { piece_type: PieceType::Queen, color: bk }),
        Some(Piece { piece_type: PieceType::King, color: bk }),
        Some(Piece { piece_type: PieceType::Bishop, color: bk }),
        Some(Piece { piece_type: PieceType::Knight, color: bk }),
        Some(Piece { piece_type: PieceType::Rook, color: bk }),
    ];
    let white_back: [Option<Piece>; 8] = [
        Some(Piece { piece_type: PieceType::Rook, color: wh }),
        Some(Piece { piece_type: PieceType::Knight, color: wh }),
        Some(Piece { piece_type: PieceType::Bishop, color: wh }),
        Some(Piece { piece_type: PieceType::Queen, color: wh }),
        Some(Piece { piece_type: PieceType::King, color: wh }),
        Some(Piece { piece_type: PieceType::Bishop, color: wh }),
        Some(Piece { piece_type: PieceType::Knight, color: wh }),
        Some(Piece { piece_type: PieceType::Rook, color: wh }),
    ];
    let bp = Some(Piece { piece_type: PieceType::Pawn, color: bk });
    let wp = Some(Piece { piece_type: PieceType::Pawn, color: wh });
    let black_pawns: [Option<Piece>; 8] = [bp, bp, bp, bp, bp, bp, bp, bp];
    let white_pawns: [Option<Piece>; 8] = [wp, wp, wp, wp, wp, wp, wp, wp];
    let empty: [Option<Piece>; 8] = [None, None, None, None, None, None, None, None];
    let b: Board = [black_back, black_pawns, empty, empty, empty, empty, white_pawns, white_back];
    proof {
        assert(b@ =~= seq![black_back, black_pawns, empty, empty, empty, empty, white_pawns, white_back]);
        assert(black_back@ =~= seq![
            Some(Piece { piece_type: PieceType::Rook, color: bk }),
            Some(Piece { piece_type: PieceType::Knight, color: bk }),
            Some(Piece { piece_type: PieceType::Bishop, color: bk }),
            Some(Piece { piece_type: PieceType::Queen, color: bk }),
            Some(Piece { piece_type: PieceType::King, color: bk }),
            Some(Piece { piece_type: PieceType::Bishop, color: bk }),
            Some(Piece { piece_type: PieceType::Knight, color: bk }),
            Some(Piece { piece_type: PieceType::Rook, color: bk }),
        ]);
        assert(white_back@ =~= seq![
            Some(Piece { piece_type: PieceType::Rook, color: wh }),
            Some(Piece { piece_type: PieceType::Knight, color: wh }),
            Some(Piece { piece_type: PieceType::Bishop, color: wh }),
            Some(Piece { piece_type: PieceType::Queen, color: wh }),
            Some(Piece { piece_type: PieceType::King, color: wh }),
            Some(Piece { piece_type: PieceType::Bishop, color: wh }),
            Some(Piece { piece_type: PieceType::Knight, color: wh }),
            Some(Piece { piece_type: PieceType::Rook, color: wh }),
        ]);
        assert(black_pawns@ =~= seq![bp, bp, bp, bp, bp, bp, bp, bp]);
        assert(white_pawns@ =~= seq![wp, wp, wp, wp, wp, wp, wp, wp]);
        assert(empty@ =~= seq![None, None, None, None, None, None, None, None]);
        assert forall|r: int, c: int| in_board(r, c) implies #[trigger] b[r][c] == initial_square(r, c) by {
            assert(b[r] == b@[r]);
            assert(b[r][c] == b[r]@[c]);
        }
        lemma_initial_board_unique(b);
    }
    b
}


impl ChessGame {
    /// Starts a match with a random side for the player (a coin toss through `rand`).
    pub fn new() -> (game: Self)
        ensures
            game@ == fresh_match(game@.player_color),
            game@.wf(),
    {
        let player_color = if random_bool() {
            PieceColor::White
        } else {
            PieceColor::Black
        };
        Self::with_player_color(player_color)
    }

    /// Starts a match in which the player has `player_color`.
    pub fn with_player_color(player_color: PieceColor) -> (game: Self)
        ensures
            game@ == fresh_match(player_color),
            game@.wf(),
    {
        let ai = ChessAi::new("assets/chess_ai_policy.json");
        let game = Self {
            board: starting_board(),
            selected_square: None,
            cursor: Some((7, 4)),
            current_turn: PieceColor::White,
            valid_moves: Vec::new(),
            player_color,
            promotion_pending: None,
            promotion_cursor: 0,
            moving_piece: None,
            ai,
            ai_last_move_by_side: [None, None],
            game_outcome: None,
            repetition_counts: HashMap::new(),
            halfmove_clock: 0,
            promotion_move_was_capture: false,
        };
        let game = game.with_initial_position_tracking();
        proof {
            assert(game@ =~= fresh_match(player_color));
        }
        game
    }

    /// Records the current position as seen once.
    fn with_initial_position_tracking(self) -> (game: Self)
        ensures
            game@ == (GameView {
                repetition_counts: self@.repetition_counts.insert(
                    position_key(self.board, self.current_turn),
                    1,
                ),
                ..self@
            }),
    {
        let mut game = self;
        let key = game.position_key();
        game.repetition_counts.insert(key, 1);
        proof {
            assert(game@ =~= (GameView {
                repetition_counts: self@.repetition_counts.insert(
                    position_key(self.board, self.current_turn),
                    1,
                ),
                ..self@
            }));
        }
        game
    }

    /// Key of the current position (board and side to move), see `position_key`.
    fn position_key(&self) -> (key: u64)
        ensures
            key == position_key(self.board, self.current_turn),
    {
        let mut h: u64 = 1469598103934665603;
        let turn_tag: u64 = match self.current_turn {
            PieceColor::White => 1,
            PieceColor::Black => 2,
        };
        h = (h ^ turn_tag).wrapping_mul(1099511628211);
        let mut r: usize = 0;
        while r < 8
            invariant
                r <= 8,
                h == key_upto(self.board, self.current_turn, (r * 8) as nat),
            decreases 8 - r,
        {
            let mut c: usize = 0;
            while c < 8
                invariant
                    r < 8,
                    c <= 8,
                    h == key_upto(self.board, self.current_turn, (r * 8 + c) as nat),
                decreases 8 - c,
            {
                proof {
                    lemma_square_index(r as int, c as int);
                }
                let tag: u64 = match self.board[r][c] {
                    None => 0,
                    Some(piece) => {
                        let color: u64 = match piece.color {
                            PieceColor::White => 1,
                            PieceColor::Black => 2,
                        };
                        let role: u64 = match piece.piece_type {
                            PieceType::Pawn => 1,
                            PieceType::Knight => 2,
                            PieceType::Bishop => 3,
                            PieceType::Rook => 4,
                            PieceType::Queen => 5,
                            PieceType::King => 6,
                        };
                        color * 10 + role
                    },
                };
                assert(tag == square_tag(self.board[r as int][c as int]));
                let sq = (r * 8 + c) as u64;
                h = (h ^ (tag + sq * 17)).wrapping_mul(1099511628211);
                c += 1;
            }
            r += 1;
        }
        h
    }

    /// Applies the fifty-move and repetition rules after a move (see `register_position`);
    /// returns whether one of them ended the match.
    fn register_position_and_check_draw(&mut self, pawn_or_capture: bool) -> (ended: bool)
        ensures
            final(self)@ == register_position(old(self)@, pawn_or_capture).0,
            ended == register_position(old(self)@, pawn_or_capture).1,
    {
        broadcast use vstd::std_specs::hash::group_hash_axioms;

        if pawn_or_capture {
            self.halfmove_clock = 0;
        } else {
            self.halfmove_clock = self.halfmove_clock.saturating_add(1);
        }

        if self.halfmove_clock >= 100 {
            self.finish_draw_by_rule("regra dos 50 lances");
            return true;
        }

        let key = self.position_key();
        let previous: u8 = match self.repetition_counts.get(&key) {
            Some(n) => *n,
            None => 0,
        };
        let next_count = previous.saturating_add(1);
        self.repetition_counts.insert(key, next_count);

        if next_count >= 3 {
            self.finish_draw_by_rule("tripla repeticao");
            return true;
        }

        false
    }

    /// Ends the match in a draw by the rule named `rule_name`, unless it has already ended.
    fn finish_draw_by_rule(&mut self, rule_name: &str)
        ensures
            final(self)@ == finish_draw(old(self)@),
    {
        if self.game_outcome.is_some() {
            return ;
        }
        self.game_outcome = Some(GameOutcome::Stalemate);
    }

    /// Starts a new match: the starting position with White to move and no selection,
    /// promotion, animation, remembered engine moves, outcome or draw counters; the player's
    /// side, the cursor and the engine are kept.
    pub fn reset_match(&mut self)
        ensures
            final(self)@ == restarted(old(self)@),
            final(self)@.wf(),
    {
        broadcast use vstd::std_specs::hash::group_hash_axioms;

        self.board = starting_board();
        self.selected_square = None;
        self.valid_moves.clear();
        self.promotion_pending = None;
        self.promotion_cursor = 0;
        self.moving_piece = None;
        self.current_turn = PieceColor::White;
        self.game_outcome = None;
        self.ai_last_move_by_side = [None, None];
        self.halfmove_clock = 0;
        self.promotion_move_was_capture = false;
        self.repetition_counts.clear();
        let key = self.position_key();
        self.repetition_counts.insert(key, 1);
        proof {
            assert(self@ =~= restarted(old(self)@));
        }
    }
}


impl ChessGame {
    /// Neither side has enough material to mate (see `insufficient_material`).
    fn is_insufficient_material_draw(&self) -> (draw: bool)
        ensures
            draw == insufficient_material(self.board),
    {
        let mut white_non_king: Vec<PieceType> = Vec::new();
        let mut black_non_king: Vec<PieceType> = Vec::new();
        let mut row: usize = 0;
        while row < 8
            invariant
                row <= 8,
                white_non_king@ == non_kings_upto(self.board, PieceColor::White, (row * 8) as nat),
                black_non_king@ == non_kings_upto(self.board, PieceColor::Black, (row * 8) as nat),
            decreases 8 - row,
        {
            let mut col: usize = 0;
            while col < 8
                invariant
                    row < 8,
                    col <= 8,
                    white_non_king@ == non_kings_upto(self.board, PieceColor::White, (row * 8 + col) as nat),
                    black_non_king@ == non_kings_upto(self.board, PieceColor::Black, (row * 8 + col) as nat),
                decreases 8 - col,
            {
                proof {
                    lemma_square_index(row as int, col as int);
                }
                if let Some(piece) = self.board[row][col] {
                    if piece.piece_type != PieceType::King {
                        match piece.color {
                            PieceColor::White => white_non_king.push(piece.piece_type),
                            PieceColor::Black => black_non_king.push(piece.piece_type),
                        }
                    }
                }
                col += 1;
            }
            row += 1;
        }

        if white_non_king.len() == 0 && black_non_king.len() == 0 {
            return true;
        }
        if white_non_king.len() == 1 && black_non_king.len() == 0 && is_minor_piece(white_non_king[0]) {
            return true;
        }
        if black_non_king.len() == 1 && white_non_king.len() == 0 && is_minor_piece(black_non_king[0]) {
            return true;
        }
        if white_non_king.len() == 1 && black_non_king.len() == 1 && is_minor_piece(white_non_king[0])
            && is_minor_piece(black_non_king[0]) {
            return true;
        }
        false
    }

    /// Ends the match in a draw for lack of material, unless it has already ended.
    fn finish_draw_insufficient_material(&mut self)
        ensures
            final(self)@ == finish_draw(old(self)@),
    {
        if self.game_outcome.is_some() {
            return ;
        }
        self.game_outcome = Some(GameOutcome::Stalemate);
    }

    /// Ends the match because `side_to_move` has no legal move: checkmate won by the other
    /// side if its king is in check, stalemate otherwise; nothing changes once the match has
    /// ended.
    pub fn finish_game_for_side(&mut self, side_to_move: PieceColor)
        ensures
            final(self)@ == finish_for_side(old(self)@, side_to_move),
    {
        if self.game_outcome.is_some() {
            return ;
        }
        let in_check = self.is_king_in_check(side_to_move);
        self.game_outcome = Some(
            if in_check {
                let winner = match side_to_move {
                    PieceColor::White => PieceColor::Black,
                    PieceColor::Black => PieceColor::White,
                };
                GameOutcome::Checkmate { winner }
            } else {
                GameOutcome::Stalemate
            },
        );
    }

    /// Plays the engine's move on the board and records it as the moving piece (see
    /// `ai_move_applied`).
    pub fn apply_ai_move_to_board(&mut self, mv: AiMove)
        requires
            move_on_board(mv),
        ensures
            final(self)@ == ai_move_applied(old(self)@, mv),
    {
        if let Some(piece) = self.board[mv.from_row][mv.from_col] {
            let mut piece = piece;
            if piece.piece_type == PieceType::Pawn && (mv.to_row == 0 || mv.to_row == 7) {
                piece.piece_type = PieceType::Queen;
            }
            write_square(&mut self.board, mv.to_row, mv.to_col, Some(piece));
            write_square(&mut self.board, mv.from_row, mv.from_col, None);
            self.moving_piece = Some(
                MovingPiece {
                    piece,
                    from_row: mv.from_row,
                    from_col: mv.from_col,
                    to_row: mv.to_row,
                    to_col: mv.to_col,
                },
            );
            proof {
                assert(self@ =~= ai_move_applied(old(self)@, mv));
            }
        }
    }

    /// A move drawn at random among `legal_moves` (through `rand`); `None` when there is none.
    pub fn choose_fallback_move(&self, legal_moves: &[AiMove]) -> (mv: Option<AiMove>)
        ensures
            mv is None <==> legal_moves@.len() == 0,
            mv matches Some(m) ==> legal_moves@.contains(m),
    {
        choose_one(legal_moves)
    }

    /// What follows a move once the turn has passed (see `settle_turn`); returns whether a
    /// draw rule ended the match.
    pub(crate) fn settle_after_move(&mut self, pawn_or_capture: bool) -> (stopped: bool)
        ensures
            final(self)@ == settle_turn(old(self)@, pawn_or_capture).0,
            stopped == settle_turn(old(self)@, pawn_or_capture).1,
    {
        if self.register_position_and_check_draw(pawn_or_capture) {
            return true;
        }
        if self.is_insufficient_material_draw() {
            self.finish_draw_insufficient_material();
            return true;
        }
        let turn = self.current_turn;
        let moves = self.collect_legal_moves_for_turn(turn);
        if moves.len() == 0 {
            self.finish_game_for_side(turn);
        }
        proof {
            assert(self@ =~= settle_turn(old(self)@, pawn_or_capture).0);
        }
        false
    }

    /// The engine plays for the side to move, unless the match is over. With no legal move
    /// the match ends (mate or stalemate). Otherwise the engine picks a legal move as
    /// `choose_move_balanced` says, plays it, passes the turn and applies the draw rules and
    /// the end-of-match check (see `ai_turn`).
    pub fn make_ai_move(&mut self)
        ensures
            old(self)@.wf() ==> final(self)@.wf(),
            old(self)@.game_outcome is Some ==> final(self)@ == old(self)@,
            old(self)@.game_outcome is None ==> {
                let v0 = GameView { valid_moves: seq![], ..old(self)@ };
                let legal = game_legal_moves(old(self).board, old(self).current_turn);
                let prev = old(self).ai_last_move_by_side[color_index(old(self).current_turn)];
                &&& legal.len() == 0 ==> final(self)@ == finish_for_side(v0, v0.current_turn)
                &&& legal.len() > 0 ==> exists|m: AiMove|
                    #[trigger] legal.contains(m) && (forall|i: int|
                        0 <= i < legal.len() ==> #[trigger] move_score(
                            old(self).board,
                            old(self).current_turn,
                            legal[i],
                            prev,
                        ) <= move_score(old(self).board, old(self).current_turn, m, prev)
                            + PICK_MARGIN) && final(self)@ == ai_turn(v0, m)
            },
    {
        if self.game_outcome.is_some() {
            return ;
        }

        let actor = self.current_turn;
        let actor_idx: usize = match actor {
            PieceColor::White => 0,
            PieceColor::Black => 1,
        };

        let legal_moves = self.collect_legal_moves_for_turn(self.current_turn);
        let ghost v0 = self@;

        if legal_moves.len() == 0 {
            self.finish_game_for_side(self.current_turn);
            return ;
        }
        proof {
            lemma_game_legal_moves_on_board(v0.board, actor);
        }

        let mut was_capture = false;
        let mut was_pawn_move = false;

        let choice = self.ai.choose_move_balanced(
            &self.board,
            actor,
            legal_moves.as_slice(),
            false,
            self.ai_last_move_by_side[actor_idx],
        );
        if let Some(mv) = choice {
            assert(move_on_board(mv)) by {
                let k = choose|k: int| 0 <= k < legal_moves@.len() && legal_moves@[k] == mv;
            }
            was_capture = self.board[mv.to_row][mv.to_col].is_some();
            was_pawn_move = match self.board[mv.from_row][mv.from_col] {
                Some(p) => p.piece_type == PieceType::Pawn,
                None => false,
            };
            self.ai_last_move_by_side[actor_idx] = Some(mv);
            self.apply_ai_move_to_board(mv);
        } else if let Some(mv) = self.choose_fallback_move(legal_moves.as_slice()) {
            assert(move_on_board(mv)) by {
                let k = choose|k: int| 0 <= k < legal_moves@.len() && legal_moves@[k] == mv;
            }
            was_capture = self.board[mv.to_row][mv.to_col].is_some();
            was_pawn_move = match self.board[mv.from_row][mv.from_col] {
                Some(p) => p.piece_type == PieceType::Pawn,
                None => false,
            };
            self.ai_last_move_by_side[actor_idx] = Some(mv);
            self.apply_ai_move_to_board(mv);
        }

        self.current_turn = match self.current_turn {
            PieceColor::White => PieceColor::Black,
            PieceColor::Black => PieceColor::White,
        };

        let ghost before_settle = self@;
        self.settle_after_move(was_capture || was_pawn_move);
        proof {
            let m = choice.unwrap();
            let v1 = GameView {
                ai_last_move_by_side: vstd::array::spec_array_update(
                    v0.ai_last_move_by_side,
                    color_index(actor),
                    Some(m),
                ),
                ..v0
            };
            assert(v1.ai_last_move_by_side =~= before_settle.ai_last_move_by_side) by {
                broadcast use vstd::array::group_array_axioms;
            }
            assert(before_settle =~= GameView { current_turn: spec_opposite(actor), ..ai_move_applied(v1, m) });
            assert(self@ == ai_turn(v0, m));
        }
    }
}

/// A bishop or a knight.
fn is_minor_piece(pt: PieceType) -> (minor: bool)
    ensures
        minor == is_minor(pt),
{
    match pt {
        PieceType::Bishop | PieceType::Knight => true,
        _ => false,
    }
}

} // verus!
