//! Properties that hold across the rules, the engine and the match.
use vstd::prelude::*;

use super::ai::lemma_square_index;
use super::board::{apply_move, in_board, move_on_board, AiMove, Board};
use super::moves::{
    game_king_in_check, game_legal_from, game_legal_moves, game_legal_moves_upto, game_legal_targets,
    game_pseudo_targets, game_valid_moves, lemma_game_targets_on_board, lemma_game_valid_moves_on_board,
    moves_from, simulate,
};
use super::game::{ai_turn, fresh_match, restarted, settle_turn, GameView};
use super::input::{after_promotion, after_select_or_move, player_move};
use super::piece::{spec_opposite, Piece, PieceColor, PieceType};
use super::rules::{
    king_in_check, legal_from, legal_moves, legal_moves_upto, legal_targets, lemma_targets_on_board,
    pseudo_targets,
};
use super::score::{evaluation, material};

verus! {

/// `m` moves a piece of `color` to one of its squares and does not leave the king of `color`
/// in check.
pub open spec fn safe_move(b: Board, color: PieceColor, m: AiMove) -> bool {
    &&& move_on_board(m)
    &&& b[m.from_row as int][m.from_col as int] matches Some(p) && p.color == color
        && pseudo_targets(b, m.from_row as int, m.from_col as int, p).contains((m.to_row, m.to_col))
    &&& !king_in_check(apply_move(b, m), color)
}

proof fn lemma_legal_targets_members(
    b: Board,
    color: PieceColor,
    r: int,
    c: int,
    ts: Seq<(usize, usize)>,
    m: AiMove,
)
    requires
        in_board(r, c),
    ensures
        legal_targets(b, color, r, c, ts).contains(m) <==> (m.from_row == r && m.from_col == c
            && ts.contains((m.to_row, m.to_col)) && !king_in_check(apply_move(b, m), color)),
    decreases ts.len(),
{
    if ts.len() > 0 {
        lemma_legal_targets_members(b, color, r, c, ts.drop_last(), m);
        let prev = legal_targets(b, color, r, c, ts.drop_last());
        let t = ts.last();
        let mt = AiMove { from_row: r as usize, from_col: c as usize, to_row: t.0, to_col: t.1 };
        if ts.contains((m.to_row, m.to_col)) {
            let k = choose|k: int| 0 <= k < ts.len() && ts[k] == (m.to_row, m.to_col);
            if k < ts.len() - 1 {
                assert(ts.drop_last()[k] == ts[k]);
            }
        }
        if ts.drop_last().contains((m.to_row, m.to_col)) {
            let k = choose|k: int| 0 <= k < ts.drop_last().len() && ts.drop_last()[k] == (m.to_row, m.to_col);
            assert(ts[k] == ts.drop_last()[k]);
        }
        if !king_in_check(apply_move(b, mt), color) {
            assert(prev.push(mt)[prev.len() as int] == mt);
            if prev.push(mt).contains(m) && m != mt {
                let k = choose|k: int| 0 <= k < prev.push(mt).len() && prev.push(mt)[k] == m;
                assert(prev[k] == m);
            }
            if prev.contains(m) {
                let k = choose|k: int| 0 <= k < prev.len() && prev[k] == m;
                assert(prev.push(mt)[k] == m);
            }
        }
    }
}

proof fn lemma_legal_upto_members(b: Board, color: PieceColor, k: nat, m: AiMove)
    requires
        k <= 64,
    ensures
        legal_moves_upto(b, color, k).contains(m) <==> (safe_move(b, color, m) && m.from_row * 8
            + m.from_col < k),
    decreases k,
{
    if k > 0 {
        lemma_legal_upto_members(b, color, (k - 1) as nat, m);
        let r = (k - 1) / 8;
        let c = (k - 1) % 8;
        assert(k - 1 == r * 8 + c && 0 <= r < 8 && 0 <= c < 8) by (nonlinear_arith)
            requires
                r == (k - 1) / 8,
                c == (k - 1) % 8,
                1 <= k <= 64,
        ;
        if move_on_board(m) {
            lemma_square_index(m.from_row as int, m.from_col as int);
        }
        let a = legal_moves_upto(b, color, (k - 1) as nat);
        let f = legal_from(b, color, r, c);
        if let Some(p) = b[r][c] {
            if p.color == color {
                let ts = pseudo_targets(b, r, c, p);
                lemma_legal_targets_members(b, color, r, c, ts, m);
                lemma_targets_on_board(b, r, c, p);
                if ts.contains((m.to_row, m.to_col)) {
                    let i = choose|i: int| 0 <= i < ts.len() && ts[i] == (m.to_row, m.to_col);
                    assert(ts[i].0 < 8 && ts[i].1 < 8);
                }
            }
        }
        if (a + f).contains(m) {
            let i = choose|i: int| 0 <= i < (a + f).len() && (a + f)[i] == m;
            if i < a.len() {
                assert(a[i] == m);
            } else {
                assert(f[i - a.len()] == m);
            }
        }
        if a.contains(m) {
            let i = choose|i: int| 0 <= i < a.len() && a[i] == m;
            assert((a + f)[i] == m);
        }
        if f.contains(m) {
            let i = choose|i: int| 0 <= i < f.len() && f[i] == m;
            assert((a + f)[a.len() + i] == m);
        }
        if safe_move(b, color, m) && m.from_row * 8 + m.from_col == k - 1 {
            assert(m.from_row == r && m.from_col == c);
        }
        if f.contains(m) {
            assert(m.from_row == r && m.from_col == c);
        }
    }
}

/// The engine's legal moves of `color` are exactly the moves of its pieces, each along that
/// piece's own way of moving, that do not leave its king in check.
pub proof fn lemma_legal_moves_are_the_safe_moves(b: Board, color: PieceColor, m: AiMove)
    ensures
        legal_moves(b, color).contains(m) <==> safe_move(b, color, m),
{
    lemma_legal_upto_members(b, color, 64, m);
}

/// The opposite of the opposite side is the side itself.
pub proof fn lemma_opposite_involutive(c: PieceColor)
    ensures
        spec_opposite(spec_opposite(c)) == c,
        spec_opposite(c) != c,
{
}

/// The static evaluation is zero-sum: what one side gains the other loses.
pub proof fn lemma_evaluation_antisymmetric(b: Board, side: PieceColor)
    ensures
        evaluation(b, side) == -evaluation(b, spec_opposite(side)),
{
    lemma_opposite_involutive(side);
}


/// `m` moves a piece of `color` to one of its squares (as the match lists them) and the
/// match's check test does not find the king of `color` in check after the move.
pub open spec fn game_safe_move(b: Board, color: PieceColor, m: AiMove) -> bool {
    &&& move_on_board(m)
    &&& b[m.from_row as int][m.from_col as int] matches Some(p) && p.color == color
        && game_pseudo_targets(b, m.from_row as int, m.from_col as int, p).contains(
        (m.to_row, m.to_col),
    ) && !game_king_in_check(
        simulate(b, m.from_row as int, m.from_col as int, p, m.to_row as int, m.to_col as int),
        color,
    )
}

proof fn lemma_game_legal_targets_members(
    b: Board,
    r: int,
    c: int,
    p: Piece,
    ts: Seq<(usize, usize)>,
    t: (usize, usize),
)
    ensures
        game_legal_targets(b, r, c, p, ts).contains(t) <==> (ts.contains(t) && !game_king_in_check(
            simulate(b, r, c, p, t.0 as int, t.1 as int),
            p.color,
        )),
    decreases ts.len(),
{
    if ts.len() > 0 {
        lemma_game_legal_targets_members(b, r, c, p, ts.drop_last(), t);
        let prev = game_legal_targets(b, r, c, p, ts.drop_last());
        let last = ts.last();
        if ts.contains(t) {
            let k = choose|k: int| 0 <= k < ts.len() && ts[k] == t;
            if k < ts.len() - 1 {
                assert(ts.drop_last()[k] == ts[k]);
            }
        }
        if ts.drop_last().contains(t) {
            let k = choose|k: int| 0 <= k < ts.drop_last().len() && ts.drop_last()[k] == t;
            assert(ts[k] == ts.drop_last()[k]);
        }
        if !game_king_in_check(simulate(b, r, c, p, last.0 as int, last.1 as int), p.color) {
            assert(prev.push(last)[prev.len() as int] == last);
            if prev.push(last).contains(t) && t != last {
                let k = choose|k: int| 0 <= k < prev.push(last).len() && prev.push(last)[k] == t;
                assert(prev[k] == t);
            }
            if prev.contains(t) {
                let k = choose|k: int| 0 <= k < prev.len() && prev[k] == t;
                assert(prev.push(last)[k] == t);
            }
        }
    }
}

proof fn lemma_moves_from_members(r: int, c: int, ts: Seq<(usize, usize)>, m: AiMove)
    requires
        in_board(r, c),
    ensures
        moves_from(r, c, ts).contains(m) <==> (m.from_row == r && m.from_col == c && ts.contains(
            (m.to_row, m.to_col),
        )),
{
    let ms = moves_from(r, c, ts);
    if ms.contains(m) {
        let i = choose|i: int| 0 <= i < ms.len() && ms[i] == m;
        assert(ts[i] == (m.to_row, m.to_col));
    }
    if m.from_row == r && m.from_col == c && ts.contains((m.to_row, m.to_col)) {
        let i = choose|i: int| 0 <= i < ts.len() && ts[i] == (m.to_row, m.to_col);
        assert(ms[i] == m);
    }
}

proof fn lemma_game_upto_members(b: Board, color: PieceColor, k: nat, m: AiMove)
    requires
        k <= 64,
    ensures
        game_legal_moves_upto(b, color, k).contains(m) <==> (game_safe_move(b, color, m)
            && m.from_row * 8 + m.from_col < k),
    decreases k,
{
    if k > 0 {
        lemma_game_upto_members(b, color, (k - 1) as nat, m);
        let r = (k - 1) / 8;
        let c = (k - 1) % 8;
        assert(k - 1 == r * 8 + c && 0 <= r < 8 && 0 <= c < 8) by (nonlinear_arith)
            requires
                r == (k - 1) / 8,
                c == (k - 1) % 8,
                1 <= k <= 64,
        ;
        if move_on_board(m) {
            lemma_square_index(m.from_row as int, m.from_col as int);
        }
        let a = game_legal_moves_upto(b, color, (k - 1) as nat);
        let f = game_legal_from(b, color, r, c);
        if let Some(p) = b[r][c] {
            if p.color == color {
                let ts = game_pseudo_targets(b, r, c, p);
                lemma_moves_from_members(r, c, game_valid_moves(b, r, c), m);
                lemma_game_legal_targets_members(b, r, c, p, ts, (m.to_row, m.to_col));
                lemma_game_valid_moves_on_board(b, r, c);
                let vs = game_valid_moves(b, r, c);
                if vs.contains((m.to_row, m.to_col)) {
                    let i = choose|i: int| 0 <= i < vs.len() && vs[i] == (m.to_row, m.to_col);
                    assert(vs[i].0 < 8 && vs[i].1 < 8);
                }
                lemma_game_targets_on_board(b, r, c, p);
                if ts.contains((m.to_row, m.to_col)) {
                    let i = choose|i: int| 0 <= i < ts.len() && ts[i] == (m.to_row, m.to_col);
                    assert(ts[i].0 < 8 && ts[i].1 < 8);
                }
            }
        }
        if (a + f).contains(m) {
            let i = choose|i: int| 0 <= i < (a + f).len() && (a + f)[i] == m;
            if i < a.len() {
                assert(a[i] == m);
            } else {
                assert(f[i - a.len()] == m);
            }
        }
        if a.contains(m) {
            let i = choose|i: int| 0 <= i < a.len() && a[i] == m;
            assert((a + f)[i] == m);
        }
        if f.contains(m) {
            let i = choose|i: int| 0 <= i < f.len() && f[i] == m;
            assert((a + f)[a.len() + i] == m);
        }
    }
}

/// The moves the match lists for `color` are exactly the moves of its pieces, each along
/// that piece's own way of moving, after which the match's check test finds its king safe.
pub proof fn lemma_game_legal_moves_are_the_safe_moves(b: Board, color: PieceColor, m: AiMove)
    ensures
        game_legal_moves(b, color).contains(m) <==> game_safe_move(b, color, m),
{
    lemma_game_upto_members(b, color, 64, m);
}


/// Once a match has ended, the player's clicks and promotion choices change nothing (the
/// engine's move leaves it alone as well, see `ChessGame::make_ai_move`).
pub proof fn lemma_finished_match_is_frozen(v: GameView, row: int, col: int, choice_idx: usize)
    requires
        v.game_outcome is Some,
    ensures
        after_select_or_move(v, row, col) == v,
        after_promotion(v, choice_idx) == v,
{
}

/// Settling a move (draw rules and end-of-match test) never changes the board, whose turn it
/// is, or the player's selection of side.
pub proof fn lemma_settle_keeps_board_and_turn(v: GameView, pawn_or_capture: bool)
    ensures
        settle_turn(v, pawn_or_capture).0.board == v.board,
        settle_turn(v, pawn_or_capture).0.current_turn == v.current_turn,
        settle_turn(v, pawn_or_capture).0.player_color == v.player_color,
{
}

/// After the engine plays, it is the other side's turn.
pub proof fn lemma_engine_move_passes_turn(v: GameView, m: AiMove)
    ensures
        ai_turn(v, m).current_turn == spec_opposite(v.current_turn),
{
}

/// After the player moves a piece that is not a pawn reaching the edge, it is the other
/// side's turn; a promotion keeps the turn until the promotion is chosen, which then passes it.
pub proof fn lemma_player_move_passes_turn(
    v: GameView,
    fr: int,
    fc: int,
    piece: Piece,
    row: int,
    col: int,
    choice_idx: usize,
)
    ensures
        !(piece.piece_type == PieceType::Pawn && (row == 0 || row == 7)) ==> player_move(
            v,
            fr,
            fc,
            piece,
            row,
            col,
        ).current_turn == spec_opposite(v.current_turn),
        piece.piece_type == PieceType::Pawn && (row == 0 || row == 7) ==> {
            let w = player_move(v, fr, fc, piece, row, col);
            &&& w.current_turn == v.current_turn
            &&& w.promotion_pending == Some((row as usize, col as usize))
            &&& (w.game_outcome is None ==> after_promotion(w, choice_idx).current_turn
                == spec_opposite(v.current_turn))
        },
{
}

/// Starting a new match over a fresh match gives the fresh match back.
pub proof fn lemma_restart_fresh_match(player: PieceColor)
    ensures
        restarted(fresh_match(player)) == fresh_match(player),
{
    assert(restarted(fresh_match(player)) =~= fresh_match(player));
}

} // verus!
