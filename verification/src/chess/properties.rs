//! What the rules promise, stated in terms of the board itself: how pawns advance, when
//! material is insufficient, how material counts in the evaluation, when the fifty-move
//! counter restarts, and how the keyboard cursor moves.
use vstd::prelude::*;

use super::board::{in_board, lemma_set_square, set_square, AiMove, Board};
use super::game::{
    is_minor, ai_turn, insufficient_material, non_kings, non_kings_upto, position_key, settle_turn, GameOutcome,
    GameView,
};
use super::moves::{game_king_in_check, game_legal_moves};
use super::input::{after_promotion, after_select_or_move, stepped, CursorStep};
use super::moves::game_pseudo_targets;
use super::piece::{spec_opposite, Piece, PieceColor, PieceType};
use super::rules::{king_in_check, legal_moves, pseudo_targets};
use super::score::{evaluation, material, material_upto, spec_piece_value};
use super::ai::lemma_square_index;
use super::agreement::{
    lemma_ray_hit, lemma_ray_reaches, lemma_slide_has, lemma_slide_hit, lemma_slide_sound,
    lemma_step_has, lemma_step_hit, lemma_step_sound, lemma_tables_proper, pos, vacant,
};
use super::rules::{attacks_from, square_attacked, bishop_dirs, can_land, king_offsets, knight_offsets, queen_dirs, ray, rook_dirs, slide_targets, sq};
use super::agreement::clear_run;

verus! {

/// A pawn moves towards the other side, one row at a time: a white pawn to the row above
/// it (a lower row number), a black pawn to the row below. Only from its start row (row 6
/// for White, row 1 for Black) may it advance two rows, straight ahead over an empty
/// square onto an empty square. A one-row move is straight ahead onto an empty square or
/// diagonal onto an enemy piece. From the start row, with both squares ahead empty, the
/// two-row advance is offered. The engine and the match agree on all of this.
pub proof fn lemma_pawn_advances(b: Board, r: int, c: int, color: PieceColor, t: (usize, usize))
    requires
        in_board(r, c),
    ensures
        ({
            let p = Piece { piece_type: PieceType::Pawn, color };
            let fwd: int = if color == PieceColor::White {
                -1
            } else {
                1
            };
            let start: int = if color == PieceColor::White {
                6
            } else {
                1
            };
            &&& pseudo_targets(b, r, c, p).contains(t) == game_pseudo_targets(b, r, c, p).contains(t)
            &&& pseudo_targets(b, r, c, p).contains(t) ==> {
                ||| t.0 == r + fwd && t.1 == c && b[t.0 as int][t.1 as int] is None
                ||| t.0 == r + fwd && (t.1 == c - 1 || t.1 == c + 1) && (b[t.0 as int][t.1 as int] matches Some(
                    q,
                ) && q.color != color)
                ||| r == start && t.0 == r + 2 * fwd && t.1 == c && b[r + fwd][c] is None && b[t.0 as int][t.1 as int] is None
            }
            &&& (r == start && b[r + fwd][c] is None && b[r + 2 * fwd][c] is None) ==> pseudo_targets(
                b,
                r,
                c,
                p,
            ).contains(((r + 2 * fwd) as usize, c as usize))
        }),
{
    let p = Piece { piece_type: PieceType::Pawn, color };
    let s = pseudo_targets(b, r, c, p);
    if s.contains(t) {
        let i = choose|i: int| 0 <= i < s.len() && s[i] == t;
    }
    let fwd: int = if color == PieceColor::White {
        -1
    } else {
        1
    };
    let start: int = if color == PieceColor::White {
        6
    } else {
        1
    };
    if r == start && b[r + fwd][c] is None && b[r + 2 * fwd][c] is None {
        assert(s[1] == ((r + 2 * fwd) as usize, c as usize));
    }
}

proof fn lemma_non_kings_prefix(b: Board, color: PieceColor, j: nat, k: nat)
    requires
        j <= k,
    ensures
        non_kings_upto(b, color, j).len() <= non_kings_upto(b, color, k).len(),
        forall|i: int|
            0 <= i < non_kings_upto(b, color, j).len() ==> #[trigger] non_kings_upto(b, color, k)[i]
                == non_kings_upto(b, color, j)[i],
    decreases k,
{
    if j < k {
        lemma_non_kings_prefix(b, color, j, (k - 1) as nat);
    }
}

/// A piece other than a king on square `(r, c)` is listed among the non-king pieces of its
/// side, after all those on earlier squares.
proof fn lemma_non_king_listed(b: Board, r: int, c: int)
    requires
        in_board(r, c),
        b[r][c] matches Some(p) && p.piece_type != PieceType::King,
    ensures
        ({
            let p = b[r][c]->0;
            let before = non_kings_upto(b, p.color, (r * 8 + c) as nat);
            &&& non_kings(b, p.color).len() > before.len()
            &&& non_kings(b, p.color)[before.len() as int] == p.piece_type
        }),
{
    let p = b[r][c]->0;
    let s = r * 8 + c;
    lemma_square_index(r, c);
    assert(0 <= s < 64);
    let at = non_kings_upto(b, p.color, (s + 1) as nat);
    assert(at == non_kings_upto(b, p.color, s as nat).push(p.piece_type));
    lemma_non_kings_prefix(b, p.color, (s + 1) as nat, 64);
    assert(at[non_kings_upto(b, p.color, s as nat).len() as int] == p.piece_type);
}

/// Material is insufficient only when no pawn, rook or queen is left: one of them anywhere
/// on the board keeps the match going.
pub proof fn lemma_heavy_piece_is_sufficient(b: Board, r: int, c: int)
    requires
        in_board(r, c),
        b[r][c] matches Some(p) && (p.piece_type == PieceType::Pawn || p.piece_type
            == PieceType::Rook || p.piece_type == PieceType::Queen),
    ensures
        !insufficient_material(b),
{
    lemma_non_king_listed(b, r, c);
}

/// Material is insufficient only when each side has at most one piece besides its king:
/// two such pieces of one side keep the match going.
pub proof fn lemma_two_pieces_are_sufficient(b: Board, r1: int, c1: int, r2: int, c2: int)
    requires
        in_board(r1, c1),
        in_board(r2, c2),
        r1 * 8 + c1 < r2 * 8 + c2,
        b[r1][c1] matches Some(p) && p.piece_type != PieceType::King,
        b[r2][c2] matches Some(q) && q.piece_type != PieceType::King,
        b[r1][c1]->0.color == b[r2][c2]->0.color,
    ensures
        !insufficient_material(b),
{
    let color = b[r1][c1]->0.color;
    lemma_non_king_listed(b, r1, c1);
    lemma_non_king_listed(b, r2, c2);
    lemma_square_index(r1, c1);
    lemma_square_index(r2, c2);
    let s1 = (r1 * 8 + c1) as nat;
    let s2 = (r2 * 8 + c2) as nat;
    lemma_non_kings_prefix(b, color, s1 + 1, s2);
    assert(non_kings_upto(b, color, s1 + 1) == non_kings_upto(b, color, s1).push(
        b[r1][c1]->0.piece_type,
    ));
    assert(non_kings(b, color).len() >= 2);
}

/// The keyboard cursor moves one square per arrow key and never leaves the board: Up
/// lowers the row and Down raises it, Left lowers the column and Right raises it, each by
/// one unless the cursor stands on that edge, where it stays; so, away from the edges,
/// Up and Down undo each other, as do Left and Right.
pub proof fn lemma_cursor_steps(p: (usize, usize))
    requires
        p.0 < 8,
        p.1 < 8,
    ensures
        forall|s: CursorStep| #[trigger] stepped(p, s).0 < 8 && stepped(p, s).1 < 8,
        stepped(p, CursorStep::Up).1 == p.1 && stepped(p, CursorStep::Down).1 == p.1,
        stepped(p, CursorStep::Left).0 == p.0 && stepped(p, CursorStep::Right).0 == p.0,
        p.0 > 0 ==> stepped(p, CursorStep::Up).0 + 1 == p.0,
        p.0 < 7 ==> stepped(p, CursorStep::Down).0 == p.0 + 1,
        p.1 > 0 ==> stepped(p, CursorStep::Left).1 + 1 == p.1,
        p.1 < 7 ==> stepped(p, CursorStep::Right).1 == p.1 + 1,
        p.0 == 0 ==> stepped(p, CursorStep::Up) == p,
        p.0 == 7 ==> stepped(p, CursorStep::Down) == p,
        p.1 == 0 ==> stepped(p, CursorStep::Left) == p,
        p.1 == 7 ==> stepped(p, CursorStep::Right) == p,
        p.0 > 0 ==> stepped(stepped(p, CursorStep::Up), CursorStep::Down) == p,
        p.0 < 7 ==> stepped(stepped(p, CursorStep::Down), CursorStep::Up) == p,
        p.1 > 0 ==> stepped(stepped(p, CursorStep::Left), CursorStep::Right) == p,
        p.1 < 7 ==> stepped(stepped(p, CursorStep::Right), CursorStep::Left) == p,
{
}


proof fn lemma_material_with_extra_piece(b: Board, r: int, c: int, p: Piece, color: PieceColor, k: nat)
    requires
        in_board(r, c),
        b[r][c] is None,
        k <= 64,
    ensures
        material_upto(set_square(b, r, c, Some(p)), color, k) == material_upto(b, color, k) + (
        if r * 8 + c < k && p.color == color {
            spec_piece_value(p.piece_type)
        } else {
            0
        }),
    decreases k,
{
    if k > 0 {
        lemma_material_with_extra_piece(b, r, c, p, color, (k - 1) as nat);
        lemma_set_square(b, r, c, Some(p));
        lemma_square_index(r, c);
        let q = k - 1;
        assert(in_board(q / 8, q % 8));
        assert(q == (q / 8) * 8 + q % 8);
    }
}

/// The static evaluation counts the side's own material for it and the opponent's against
/// it: with everything else equal (how many legal moves each side has, and whether each
/// king is in check), one more piece of `side` raises its evaluation by that piece's value,
/// and one more piece of the other side lowers it by that value.
pub proof fn lemma_extra_piece_changes_evaluation(b: Board, side: PieceColor, r: int, c: int, p: Piece)
    requires
        in_board(r, c),
        b[r][c] is None,
        legal_moves(set_square(b, r, c, Some(p)), side).len() == legal_moves(b, side).len(),
        legal_moves(set_square(b, r, c, Some(p)), spec_opposite(side)).len() == legal_moves(
            b,
            spec_opposite(side),
        ).len(),
        king_in_check(set_square(b, r, c, Some(p)), side) == king_in_check(b, side),
        king_in_check(set_square(b, r, c, Some(p)), spec_opposite(side)) == king_in_check(
            b,
            spec_opposite(side),
        ),
    ensures
        p.color == side ==> evaluation(set_square(b, r, c, Some(p)), side) == evaluation(b, side)
            + spec_piece_value(p.piece_type),
        p.color != side ==> evaluation(set_square(b, r, c, Some(p)), side) == evaluation(b, side)
            - spec_piece_value(p.piece_type),
        p.color == side ==> evaluation(set_square(b, r, c, Some(p)), side) > evaluation(b, side),
        p.color != side ==> evaluation(set_square(b, r, c, Some(p)), side) < evaluation(b, side),
{
    lemma_square_index(r, c);
    lemma_material_with_extra_piece(b, r, c, p, side, 64);
    lemma_material_with_extra_piece(b, r, c, p, spec_opposite(side), 64);
}

/// Pieces are worth more the stronger they are: pawn, then knight, bishop, rook, queen,
/// and the king above all, every one of them worth something.
pub proof fn lemma_piece_values_ordered()
    ensures
        0 < spec_piece_value(PieceType::Pawn),
        spec_piece_value(PieceType::Pawn) < spec_piece_value(PieceType::Knight),
        spec_piece_value(PieceType::Knight) < spec_piece_value(PieceType::Bishop),
        spec_piece_value(PieceType::Bishop) < spec_piece_value(PieceType::Rook),
        spec_piece_value(PieceType::Rook) < spec_piece_value(PieceType::Queen),
        spec_piece_value(PieceType::Queen) < spec_piece_value(PieceType::King),
{
}

/// The fifty-move counter after a move: back to zero after a capture or a pawn move, one
/// more otherwise (it stops at its largest value).
pub open spec fn counter_after(clock: u16, capture_or_pawn: bool) -> int {
    if capture_or_pawn {
        0
    } else if clock < u16::MAX {
        clock + 1
    } else {
        clock as int
    }
}

/// When the player plays a hinted move that is not a pawn reaching the last row, a capture
/// or a pawn move sets the fifty-move counter back to zero and any other move adds one to
/// it.
pub proof fn lemma_player_move_counter(v: GameView, fr: usize, fc: usize, row: usize, col: usize)
    requires
        v.current_turn == v.player_color,
        v.game_outcome is None,
        v.selected_square == Some((fr, fc)),
        (fr, fc) != (row, col),
        fr < 8 && fc < 8 && row < 8 && col < 8,
        v.valid_moves.contains((row, col)),
        v.board[fr as int][fc as int] matches Some(piece) && !(piece.piece_type == PieceType::Pawn
            && (row == 0 || row == 7)),
    ensures
        after_select_or_move(v, row as int, col as int).halfmove_clock == counter_after(
            v.halfmove_clock,
            v.board[row as int][col as int] is Some || v.board[fr as int][fc as int]->0.piece_type
                == PieceType::Pawn,
        ),
{
}

/// The pawn's promotion, once chosen, completes a pawn move: the fifty-move counter goes
/// back to zero.
pub proof fn lemma_promotion_resets_counter(v: GameView, choice_idx: usize)
    requires
        v.game_outcome is None,
        v.promotion_pending is Some,
    ensures
        after_promotion(v, choice_idx).halfmove_clock == 0,
{
}

/// When the engine plays a move, a capture or a pawn move sets the fifty-move counter back
/// to zero and any other move adds one to it.
pub proof fn lemma_engine_move_counter(v: GameView, m: AiMove)
    ensures
        ai_turn(v, m).halfmove_clock == counter_after(
            v.halfmove_clock,
            v.board[m.to_row as int][m.to_col as int] is Some || (v.board[m.from_row as int][m.from_col as int] matches Some(p)
                && p.piece_type == PieceType::Pawn),
        ),
{
}


/// A knight jumps two rows and one column, or one row and two columns: it may go to exactly
/// those squares of the board that are empty or hold an enemy piece.
pub proof fn lemma_knight_moves(b: Board, r: int, c: int, color: PieceColor, tr: int, tc: int)
    requires
        in_board(r, c),
        in_board(tr, tc),
    ensures
        pseudo_targets(b, r, c, Piece { piece_type: PieceType::Knight, color }).contains(sq(tr, tc))
            <==> ({
            let dr = tr - r;
            let dc = tc - c;
            &&& (((dr == 2 || dr == -2) && (dc == 1 || dc == -1)) || ((dr == 1 || dr == -1) && (dc
                == 2 || dc == -2)))
            &&& (b[tr][tc] is None || b[tr][tc]->0.color != color)
        }),
{
    let offs = knight_offsets();
    let p = Piece { piece_type: PieceType::Knight, color };
    lemma_tables_proper();
    lemma_step_sound(b, r, c, color, offs);
    let dr = tr - r;
    let dc = tc - c;
    if pseudo_targets(b, r, c, p).contains(sq(tr, tc)) {
        let i = lemma_step_hit(b, r, c, color, offs, tr, tc);
        assert(can_land(b, color, sq(tr, tc).0 as int, sq(tr, tc).1 as int));
        if i == 0 {} else if i == 1 {} else if i == 2 {} else if i == 3 {} else if i == 4 {} else if i == 5 {} else if i == 6 {} else {}
    }
    if (((dr == 2 || dr == -2) && (dc == 1 || dc == -1)) || ((dr == 1 || dr == -1) && (dc == 2
        || dc == -2))) && (b[tr][tc] is None || b[tr][tc]->0.color != color) {
        let i: int = if dr == -2 && dc == -1 {
            0
        } else if dr == -2 && dc == 1 {
            1
        } else if dr == -1 && dc == -2 {
            2
        } else if dr == -1 && dc == 2 {
            3
        } else if dr == 1 && dc == -2 {
            4
        } else if dr == 1 && dc == 2 {
            5
        } else if dr == 2 && dc == -1 {
            6
        } else {
            7
        };
        assert(r + offs[i].0 == tr && c + offs[i].1 == tc);
        lemma_step_has(b, r, c, color, offs, i);
    }
}

/// A king steps to one of the eight neighbouring squares: it may go to exactly those
/// squares of the board that are empty or hold an enemy piece (check aside).
pub proof fn lemma_king_moves(b: Board, r: int, c: int, color: PieceColor, tr: int, tc: int)
    requires
        in_board(r, c),
        in_board(tr, tc),
    ensures
        pseudo_targets(b, r, c, Piece { piece_type: PieceType::King, color }).contains(sq(tr, tc))
            <==> ({
            let dr = tr - r;
            let dc = tc - c;
            &&& -1 <= dr <= 1 && -1 <= dc <= 1 && (dr != 0 || dc != 0)
            &&& (b[tr][tc] is None || b[tr][tc]->0.color != color)
        }),
{
    let offs = king_offsets();
    let p = Piece { piece_type: PieceType::King, color };
    lemma_tables_proper();
    lemma_step_sound(b, r, c, color, offs);
    let dr = tr - r;
    let dc = tc - c;
    if pseudo_targets(b, r, c, p).contains(sq(tr, tc)) {
        let i = lemma_step_hit(b, r, c, color, offs, tr, tc);
        assert(can_land(b, color, sq(tr, tc).0 as int, sq(tr, tc).1 as int));
        if i == 0 {} else if i == 1 {} else if i == 2 {} else if i == 3 {} else if i == 4 {} else if i == 5 {} else if i == 6 {} else {}
    }
    if -1 <= dr <= 1 && -1 <= dc <= 1 && (dr != 0 || dc != 0) && (b[tr][tc] is None
        || b[tr][tc]->0.color != color) {
        let i: int = if dr == -1 && dc == -1 {
            0
        } else if dr == -1 && dc == 0 {
            1
        } else if dr == -1 && dc == 1 {
            2
        } else if dr == 0 && dc == -1 {
            3
        } else if dr == 0 && dc == 1 {
            4
        } else if dr == 1 && dc == -1 {
            5
        } else if dr == 1 && dc == 0 {
            6
        } else {
            7
        };
        assert(r + offs[i].0 == tr && c + offs[i].1 == tc);
        lemma_step_has(b, r, c, color, offs, i);
    }
}


/// Every square strictly between `(r, c)` and the square `k` steps away in direction
/// `(d0, d1)` lies on the board and is empty.
pub open spec fn path_clear(b: Board, r: int, c: int, d0: int, d1: int, k: int) -> bool {
    forall|m: int| 0 < m < k ==> #[trigger] vacant(b, pos(r, d0, m), pos(c, d1, m))
}

/// Direction `(d0, d1)` is one a sliding piece of kind `t` may take: along a row or a column
/// for a rook, along a diagonal for a bishop, either for a queen.
pub open spec fn slides_along(t: PieceType, d0: int, d1: int) -> bool {
    &&& -1 <= d0 <= 1 && -1 <= d1 <= 1 && (d0 != 0 || d1 != 0)
    &&& match t {
        PieceType::Rook => d0 == 0 || d1 == 0,
        PieceType::Bishop => d0 != 0 && d1 != 0,
        PieceType::Queen => true,
        _ => false,
    }
}

proof fn lemma_ray_reaches_landing(
    b: Board,
    r: int,
    c: int,
    dr: int,
    dc: int,
    color: PieceColor,
    fuel: nat,
    k: int,
)
    requires
        -1 <= dr <= 1,
        -1 <= dc <= 1,
        0 <= k < fuel,
        clear_run(b, r, c, dr, dc, k),
        can_land(b, color, pos(r, dr, k), pos(c, dc, k)),
    ensures
        ray(b, r, c, dr, dc, color, fuel).contains(sq(pos(r, dr, k), pos(c, dc, k))),
    decreases fuel,
{
    let s = ray(b, r, c, dr, dc, color, fuel);
    if k == 0 {
        assert(s[0] == sq(r, c));
    } else {
        assert(vacant(b, pos(r, dr, 0), pos(c, dc, 0)));
        assert forall|j: int| 0 <= j < k - 1 implies #[trigger] vacant(
            b,
            pos(r + dr, dr, j),
            pos(c + dc, dc, j),
        ) by {
            assert(pos(r + dr, dr, j) == pos(r, dr, j + 1));
            assert(pos(c + dc, dc, j) == pos(c, dc, j + 1));
            assert(vacant(b, pos(r, dr, j + 1), pos(c, dc, j + 1)));
        }
        assert(pos(r + dr, dr, k - 1) == pos(r, dr, k));
        assert(pos(c + dc, dc, k - 1) == pos(c, dc, k));
        lemma_ray_reaches_landing(b, r + dr, c + dc, dr, dc, color, (fuel - 1) as nat, k - 1);
        let rest = ray(b, r + dr, c + dc, dr, dc, color, (fuel - 1) as nat);
        let t = sq(pos(r, dr, k), pos(c, dc, k));
        assert(s == seq![sq(r, c)] + rest);
        let i = choose|i: int| 0 <= i < rest.len() && rest[i] == t;
        assert(s[i + 1] == t);
    }
}

/// The sliding directions of each piece, as listed by the engine.
pub open spec fn slide_dirs(t: PieceType) -> Seq<(i32, i32)> {
    match t {
        PieceType::Rook => rook_dirs(),
        PieceType::Bishop => bishop_dirs(),
        _ => queen_dirs(),
    }
}

proof fn lemma_slide_dir_tables(t: PieceType, i: int)
    requires
        t == PieceType::Rook || t == PieceType::Bishop || t == PieceType::Queen,
        0 <= i < slide_dirs(t).len(),
    ensures
        slides_along(t, slide_dirs(t)[i].0 as int, slide_dirs(t)[i].1 as int),
{
    assert(queen_dirs() =~= seq![(-1i32, -1i32), (-1i32, 1i32), (1i32, -1i32), (1i32, 1i32), (-1i32, 0i32), (1i32, 0i32), (0i32, -1i32), (0i32, 1i32)]);
    if i == 0 {} else if i == 1 {} else if i == 2 {} else if i == 3 {} else if i == 4 {} else if i == 5 {} else if i == 6 {} else {}
}

proof fn lemma_slide_dir_index(t: PieceType, d0: int, d1: int) -> (i: int)
    requires
        slides_along(t, d0, d1),
    ensures
        0 <= i < slide_dirs(t).len(),
        slide_dirs(t)[i].0 == d0,
        slide_dirs(t)[i].1 == d1,
{
    assert(queen_dirs() =~= seq![(-1i32, -1i32), (-1i32, 1i32), (1i32, -1i32), (1i32, 1i32), (-1i32, 0i32), (1i32, 0i32), (0i32, -1i32), (0i32, 1i32)]);
    match t {
        PieceType::Rook => if d0 == -1 {
            0
        } else if d0 == 1 {
            1
        } else if d1 == -1 {
            2
        } else {
            3
        },
        PieceType::Bishop => if d0 == -1 && d1 == -1 {
            0
        } else if d0 == -1 {
            1
        } else if d1 == -1 {
            2
        } else {
            3
        },
        _ => if d0 == -1 && d1 == -1 {
            0
        } else if d0 == -1 && d1 == 1 {
            1
        } else if d0 == 1 && d1 == -1 {
            2
        } else if d0 == 1 && d1 == 1 {
            3
        } else if d0 == -1 {
            4
        } else if d0 == 1 {
            5
        } else if d1 == -1 {
            6
        } else {
            7
        },
    }
}

/// A rook slides along its row or its column, a bishop along a diagonal, a queen along
/// either, over empty squares only: it may go to exactly the squares reached that way that
/// are empty or hold an enemy piece.
pub proof fn lemma_slider_moves(b: Board, r: int, c: int, p: Piece, tr: int, tc: int)
    requires
        in_board(r, c),
        in_board(tr, tc),
        p.piece_type == PieceType::Rook || p.piece_type == PieceType::Bishop || p.piece_type
            == PieceType::Queen,
    ensures
        pseudo_targets(b, r, c, p).contains(sq(tr, tc)) <==> exists|d0: int, d1: int, k: int|
            #![trigger pos(r, d0, k), pos(c, d1, k)]
            slides_along(p.piece_type, d0, d1) && k >= 1 && pos(r, d0, k) == tr && pos(c, d1, k) == tc
                && path_clear(b, r, c, d0, d1, k) && (b[tr][tc] is None || b[tr][tc]->0.color
                != p.color),
{
    let color = p.color;
    let dirs = slide_dirs(p.piece_type);
    lemma_tables_proper();
    assert(pseudo_targets(b, r, c, p) == slide_targets(b, r, c, color, dirs));
    lemma_slide_sound(b, r, c, color, dirs);
    let t = sq(tr, tc);
    if pseudo_targets(b, r, c, p).contains(t) {
        let i = lemma_slide_hit(b, r, c, color, dirs, t);
        lemma_slide_dir_tables(p.piece_type, i);
        let d0 = dirs[i].0 as int;
        let d1 = dirs[i].1 as int;
        let k1 = lemma_ray_hit(b, r + d0, c + d1, d0, d1, color, 8, tr, tc);
        assert forall|m: int| 0 < m < k1 + 1 implies #[trigger] vacant(b, pos(r, d0, m), pos(c, d1, m)) by {
            assert(pos(r + d0, d0, m - 1) == pos(r, d0, m));
            assert(pos(c + d1, d1, m - 1) == pos(c, d1, m));
            assert(vacant(b, pos(r + d0, d0, m - 1), pos(c + d1, d1, m - 1)));
        }
        assert(pos(r, d0, k1 + 1) == tr && pos(c, d1, k1 + 1) == tc);
        assert(can_land(b, color, t.0 as int, t.1 as int));
    }
    if exists|d0: int, d1: int, k: int|
        #![trigger pos(r, d0, k), pos(c, d1, k)]
        slides_along(p.piece_type, d0, d1) && k >= 1 && pos(r, d0, k) == tr && pos(c, d1, k) == tc
            && path_clear(b, r, c, d0, d1, k) && (b[tr][tc] is None || b[tr][tc]->0.color
            != p.color) {
        let (d0, d1, k) = choose|d0: int, d1: int, k: int|
            #![trigger pos(r, d0, k), pos(c, d1, k)]
            slides_along(p.piece_type, d0, d1) && k >= 1 && pos(r, d0, k) == tr && pos(c, d1, k) == tc
                && path_clear(b, r, c, d0, d1, k) && (b[tr][tc] is None || b[tr][tc]->0.color
                != p.color);
        let i = lemma_slide_dir_index(p.piece_type, d0, d1);
        assert forall|j: int| 0 <= j < k - 1 implies #[trigger] vacant(
            b,
            pos(r + d0, d0, j),
            pos(c + d1, d1, j),
        ) by {
            assert(pos(r + d0, d0, j) == pos(r, d0, j + 1));
            assert(pos(c + d1, d1, j) == pos(c, d1, j + 1));
            assert(vacant(b, pos(r, d0, j + 1), pos(c, d1, j + 1)));
        }
        assert(pos(r + d0, d0, k - 1) == tr && pos(c + d1, d1, k - 1) == tc);
        assert(k - 1 < 8);
        lemma_ray_reaches_landing(b, r + d0, c + d1, d0, d1, color, 8, k - 1);
        lemma_slide_has(b, r, c, color, dirs, i, t);
    }
}


/// How many times the position `(b, turn)` has been recorded in `counts`.
pub open spec fn times_seen(counts: Map<u64, u8>, b: Board, turn: PieceColor) -> int {
    let key = position_key(b, turn);
    if counts.contains_key(key) {
        counts[key] as int
    } else {
        0
    }
}

/// After a move, the hundredth ply in a row without a capture or a pawn move ends the match
/// in a draw.
pub proof fn lemma_fifty_move_draw(v: GameView, capture_or_pawn: bool)
    requires
        v.game_outcome is None,
        counter_after(v.halfmove_clock, capture_or_pawn) >= 100,
    ensures
        settle_turn(v, capture_or_pawn).1,
        settle_turn(v, capture_or_pawn).0.game_outcome == Some(GameOutcome::Stalemate),
        settle_turn(v, capture_or_pawn).0.board == v.board,
{
}

/// After a move, a position reached for the third time ends the match in a draw.
pub proof fn lemma_threefold_draw(v: GameView, capture_or_pawn: bool)
    requires
        v.game_outcome is None,
        counter_after(v.halfmove_clock, capture_or_pawn) < 100,
        times_seen(v.repetition_counts, v.board, v.current_turn) >= 2,
    ensures
        settle_turn(v, capture_or_pawn).1,
        settle_turn(v, capture_or_pawn).0.game_outcome == Some(GameOutcome::Stalemate),
{
}

/// After a move that triggers none of the draw rules, the side to move with no legal move
/// loses if its king is in check, the winner being the side that has just moved, and is
/// stalemated otherwise; with a legal move the match goes on.
pub proof fn lemma_mate_or_play_on(v: GameView, capture_or_pawn: bool)
    requires
        v.game_outcome is None,
        counter_after(v.halfmove_clock, capture_or_pawn) < 100,
        times_seen(v.repetition_counts, v.board, v.current_turn) < 2,
        !insufficient_material(v.board),
    ensures
        !settle_turn(v, capture_or_pawn).1,
        settle_turn(v, capture_or_pawn).0.board == v.board,
        times_seen(
            settle_turn(v, capture_or_pawn).0.repetition_counts,
            v.board,
            v.current_turn,
        ) == times_seen(v.repetition_counts, v.board, v.current_turn) + 1,
        game_legal_moves(v.board, v.current_turn).len() > 0 ==> settle_turn(
            v,
            capture_or_pawn,
        ).0.game_outcome is None,
        game_legal_moves(v.board, v.current_turn).len() == 0 && game_king_in_check(
            v.board,
            v.current_turn,
        ) ==> settle_turn(v, capture_or_pawn).0.game_outcome == Some(
            GameOutcome::Checkmate { winner: spec_opposite(v.current_turn) },
        ),
        game_legal_moves(v.board, v.current_turn).len() == 0 && !game_king_in_check(
            v.board,
            v.current_turn,
        ) ==> settle_turn(v, capture_or_pawn).0.game_outcome == Some(GameOutcome::Stalemate),
{
}

/// A click changes the board only when it is the player's turn in a match still on, a
/// piece is selected, and the click is on one of the squares hinted for it; with nothing
/// selected, a click selects only a piece of the player's own side.
pub proof fn lemma_clicks_move_only_to_hints(v: GameView, row: int, col: int)
    ensures
        after_select_or_move(v, row, col).board != v.board ==> {
            &&& v.current_turn == v.player_color
            &&& v.game_outcome is None
            &&& v.selected_square matches Some((fr, fc)) && v.board[fr as int][fc as int] is Some
            &&& v.valid_moves.contains((row as usize, col as usize))
        },
        v.selected_square is None && after_select_or_move(v, row, col).selected_square is Some
            ==> (v.board[row][col] matches Some(p) && p.color == v.player_color),
{
}


/// Square number `s` (row-major) holds a piece of `color` other than a king.
pub open spec fn non_king_at(b: Board, color: PieceColor, s: int) -> bool {
    b[s / 8][s % 8] matches Some(p) && p.piece_type != PieceType::King && p.color == color
}

proof fn lemma_non_kings_come_from_squares(b: Board, color: PieceColor, k: nat)
    requires
        k <= 64,
    ensures
        non_kings_upto(b, color, k).len() > 0 ==> exists|s: int| 0 <= s < k && #[trigger] non_king_at(b, color, s),
        non_kings_upto(b, color, k).len() > 1 ==> exists|s1: int, s2: int|
            0 <= s1 < s2 < k && #[trigger] non_king_at(b, color, s1) && #[trigger] non_king_at(b, color, s2),
        forall|i: int|
            0 <= i < non_kings_upto(b, color, k).len() ==> exists|s: int|
                0 <= s < k && #[trigger] non_king_at(b, color, s) && b[s / 8][s % 8]->0.piece_type
                    == #[trigger] non_kings_upto(b, color, k)[i],
    decreases k,
{
    if k > 0 {
        let q = k - 1;
        lemma_non_kings_come_from_squares(b, color, q as nat);
        let prev = non_kings_upto(b, color, q as nat);
        let cur = non_kings_upto(b, color, k);
        if non_king_at(b, color, q) {
            assert(cur == prev.push(b[q / 8][q % 8]->0.piece_type));
            if prev.len() > 0 {
                let s1 = choose|s: int| 0 <= s < q && #[trigger] non_king_at(b, color, s);
                assert(non_king_at(b, color, s1) && non_king_at(b, color, q));
            }
            assert forall|i: int| 0 <= i < cur.len() implies exists|s: int|
                0 <= s < k && #[trigger] non_king_at(b, color, s) && b[s / 8][s % 8]->0.piece_type
                    == #[trigger] cur[i] by {
                if i < prev.len() {
                    assert(cur[i] == prev[i]);
                } else {
                    assert(non_king_at(b, color, q));
                }
            }
        } else {
            assert(cur == prev);
        }
    }
}

/// Bare kings, or kings with no more than one bishop or knight per side, cannot mate: the
/// material is insufficient.
pub proof fn lemma_lone_minor_pieces_are_insufficient(b: Board)
    requires
        forall|r: int, c: int|
            in_board(r, c) && (#[trigger] b[r][c] matches Some(p) && p.piece_type != PieceType::King)
                ==> (b[r][c]->0.piece_type == PieceType::Bishop || b[r][c]->0.piece_type
                == PieceType::Knight),
        forall|r1: int, c1: int, r2: int, c2: int|
            in_board(r1, c1) && in_board(r2, c2) && (r1 != r2 || c1 != c2) && (#[trigger] b[r1][c1] matches Some(
                p,
            ) && p.piece_type != PieceType::King) && (#[trigger] b[r2][c2] matches Some(q)
                && q.piece_type != PieceType::King) ==> b[r1][c1]->0.color != b[r2][c2]->0.color,
    ensures
        insufficient_material(b),
{
    lemma_non_kings_come_from_squares(b, PieceColor::White, 64);
    lemma_non_kings_come_from_squares(b, PieceColor::Black, 64);
    assert forall|color: PieceColor| non_kings(b, color).len() <= 1 && (non_kings(b, color).len()
        == 1 ==> is_minor(#[trigger] non_kings(b, color)[0])) by {
        lemma_non_kings_come_from_squares(b, color, 64);
        if non_kings(b, color).len() > 1 {
            let (s1, s2) = choose|s1: int, s2: int|
                0 <= s1 < s2 < 64 && #[trigger] non_king_at(b, color, s1) && #[trigger] non_king_at(b, color, s2);
            assert(in_board(s1 / 8, s1 % 8) && in_board(s2 / 8, s2 % 8));
            assert(s1 == (s1 / 8) * 8 + s1 % 8 && s2 == (s2 / 8) * 8 + s2 % 8);
            assert(b[s1 / 8][s1 % 8] matches Some(p) && p.piece_type != PieceType::King);
            assert(b[s2 / 8][s2 % 8] matches Some(p) && p.piece_type != PieceType::King);
        }
        if non_kings(b, color).len() == 1 {
            let s = choose|s: int|
                0 <= s < 64 && #[trigger] non_king_at(b, color, s) && b[s / 8][s % 8]->0.piece_type
                    == non_kings(b, color)[0];
            assert(in_board(s / 8, s % 8));
            assert(b[s / 8][s % 8] matches Some(p) && p.piece_type != PieceType::King);
        }
    }
    assert(non_kings(b, PieceColor::White).len() <= 1);
    assert(non_kings(b, PieceColor::Black).len() <= 1);
}


/// A pawn attacks exactly the two squares diagonally ahead of it (the row above it for
/// White, the row below for Black), whatever stands there.
pub proof fn lemma_pawn_attacks(b: Board, r: int, c: int, tr: int, tc: int)
    requires
        in_board(r, c),
        in_board(tr, tc),
        b[r][c] matches Some(p) && p.piece_type == PieceType::Pawn,
    ensures
        ({
            let color = b[r][c]->0.color;
            let fwd: int = if color == PieceColor::White {
                -1
            } else {
                1
            };
            &&& attacks_from(b, r, c, tr, tc, color) <==> (tr == r + fwd && (tc == c - 1 || tc == c
                + 1))
            &&& (tr == r + fwd && (tc == c - 1 || tc == c + 1)) ==> square_attacked(b, tr, tc, color)
        }),
{
    let color = b[r][c]->0.color;
    if attacks_from(b, r, c, tr, tc, color) {
        assert(in_board(r, c) && attacks_from(b, r, c, tr, tc, color));
    }
}

} // verus!
