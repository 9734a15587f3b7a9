//! The engine's own view of the rules and its move search.
use vstd::prelude::*;

use super::board::{
    apply_move, in_board, move_on_board, promoted, set_square, write_square, AiMove, Board,
};
use super::piece::{opposite_color, spec_opposite, Piece, PieceColor, PieceType};
use super::rules::{
    bishop_dirs, can_land, holds_enemy, king_offsets, knight_offsets, pawn_capture_targets,
    pawn_dir, pawn_start_row, pawn_targets, pseudo_targets, queen_dirs, ray, rook_dirs, slide_targets,
    sq, step_targets, unit_direction, attacks_from, square_attacked, is_king_of, row_has_king,
    king_found_at, king_in_check, legal_moves, legal_moves_upto, legal_from, legal_targets,
    lemma_targets_on_board, lemma_legal_moves_len, lemma_legal_moves_on_board,
};
use super::score::{
    best_over, evaluation, lemma_best_over_prefix, lemma_evaluation_bounds, lemma_material_bounds,
    lemma_negamax_bounds, material, material_upto, max_score, negamax_value, spec_piece_value,
    move_score, reverses, DEPTH_BONUS, MATE_SCORE, PICK_MARGIN, SEARCH_DEPTH,
};
use crate::rng::shuffle_in_place;

verus! {

/// `(row, col)` lies on the board.
pub fn in_bounds(row: i32, col: i32) -> (b: bool)
    ensures
        b == in_board(row as int, col as int),
{
    0 <= row && row < 8 && 0 <= col && col < 8
}

/// Plays `mv` on `board`: the moving piece (a pawn reaching the edge becomes a queen)
/// lands on the target and its origin is emptied; nothing happens when the origin is empty.
pub fn apply_move_on_board(board: &mut Board, mv: AiMove)
    requires
        mv.from_row < 8,
        mv.from_col < 8,
        mv.to_row < 8,
        mv.to_col < 8,
    ensures
        *final(board) == apply_move(*old(board), mv),
{
    if let Some(piece) = board[mv.from_row][mv.from_col] {
        let mut piece = piece;
        if piece.piece_type == PieceType::Pawn && (mv.to_row == 0 || mv.to_row == 7) {
            piece.piece_type = PieceType::Queen;
        }
        write_square(board, mv.to_row, mv.to_col, Some(piece));
        write_square(board, mv.from_row, mv.from_col, None);
    }
}

/// Appends the diagonal capture of a pawn towards column offset `dc`, if there is one.
fn push_pawn_capture(
    board: &Board,
    from_row: usize,
    from_col: usize,
    color: PieceColor,
    step: i32,
    dc: i32,
    out: &mut Vec<(usize, usize)>,
)
    requires
        from_row < 8,
        from_col < 8,
        step == pawn_dir(color),
        dc == -1 || dc == 1,
    ensures
        final(out)@ == old(out)@ + pawn_capture_targets(
            *board,
            from_row as int,
            from_col as int,
            color,
            dc as int,
        ),
{
    let tr = from_row as i32 + step;
    let tc = from_col as i32 + dc;
    if !in_bounds(tr, tc) {
        proof {
            assert(old(out)@ + seq![] =~= old(out)@);
        }
        return ;
    }
    if let Some(target) = board[tr as usize][tc as usize] {
        if target.color != color {
            out.push((tr as usize, tc as usize));
            return ;
        }
    }
    proof {
        assert(old(out)@ + seq![] =~= old(out)@);
    }
}

/// Moves of a pawn of `color` on `(from_row, from_col)`, ignoring check.
pub fn pawn_moves(board: &Board, from_row: usize, from_col: usize, color: PieceColor) -> (out: Vec<
    (usize, usize),
>)
    requires
        from_row < 8,
        from_col < 8,
    ensures
        out@ == pawn_targets(*board, from_row as int, from_col as int, color),
{
    let mut out: Vec<(usize, usize)> = Vec::new();
    let (step, start_row): (i32, usize) = match color {
        PieceColor::White => (-1i32, 6usize),
        PieceColor::Black => (1i32, 1usize),
    };
    assert(step == pawn_dir(color) && start_row == pawn_start_row(color));

    let r1 = from_row as i32 + step;
    if in_bounds(r1, from_col as i32) && board[r1 as usize][from_col].is_none() {
        out.push((r1 as usize, from_col));
        let r2 = from_row as i32 + step * 2;
        if from_row == start_row && in_bounds(r2, from_col as i32)
            && board[r2 as usize][from_col].is_none() {
            out.push((r2 as usize, from_col));
        }
    }
    push_pawn_capture(board, from_row, from_col, color, step, -1, &mut out);
    push_pawn_capture(board, from_row, from_col, color, step, 1, &mut out);
    out
}

/// Landing squares of single steps by each of `offsets` from `(from_row, from_col)`.
fn step_moves(
    board: &Board,
    from_row: usize,
    from_col: usize,
    color: PieceColor,
    offsets: &[(i32, i32)],
) -> (out: Vec<(usize, usize)>)
    requires
        from_row < 8,
        from_col < 8,
        forall|i: int|
            0 <= i < offsets@.len() ==> -2 <= #[trigger] offsets@[i].0 <= 2 && -2 <= offsets@[i].1
                <= 2,
    ensures
        out@ == step_targets(*board, from_row as int, from_col as int, color, offsets@),
{
    let mut out: Vec<(usize, usize)> = Vec::new();
    let mut i: usize = 0;
    while i < offsets.len()
        invariant
            i <= offsets@.len(),
            from_row < 8,
            from_col < 8,
            forall|j: int|
                0 <= j < offsets@.len() ==> -2 <= #[trigger] offsets@[j].0 <= 2 && -2
                    <= offsets@[j].1 <= 2,
            out@ == step_targets(
                *board,
                from_row as int,
                from_col as int,
                color,
                offsets@.take(i as int),
            ),
        decreases offsets@.len() - i,
    {
        let (dr, dc) = offsets[i];
        let tr = from_row as i32 + dr;
        let tc = from_col as i32 + dc;
        proof {
            assert(offsets@.take(i + 1).drop_last() =~= offsets@.take(i as int));
            assert(offsets@.take(i + 1).last() == offsets@[i as int]);
        }
        if in_bounds(tr, tc) {
            match board[tr as usize][tc as usize] {
                None => out.push((tr as usize, tc as usize)),
                Some(target) => {
                    if target.color != color {
                        out.push((tr as usize, tc as usize));
                    }
                },
            }
        }
        i += 1;
    }
    proof {
        assert(offsets@.take(offsets@.len() as int) =~= offsets@);
    }
    out
}

/// Knight moves from `(from_row, from_col)`, ignoring check.
pub fn knight_moves(board: &Board, from_row: usize, from_col: usize, color: PieceColor) -> (out:
    Vec<(usize, usize)>)
    requires
        from_row < 8,
        from_col < 8,
    ensures
        out@ == step_targets(*board, from_row as int, from_col as int, color, knight_offsets()),
{
    let deltas: [(i32, i32); 8] = [
        (-2, -1),
        (-2, 1),
        (-1, -2),
        (-1, 2),
        (1, -2),
        (1, 2),
        (2, -1),
        (2, 1),
    ];
    assert(deltas@ =~= knight_offsets());
    step_moves(board, from_row, from_col, color, &deltas)
}

/// King moves from `(from_row, from_col)`, ignoring check.
pub fn king_moves(board: &Board, from_row: usize, from_col: usize, color: PieceColor) -> (out: Vec<
    (usize, usize),
>)
    requires
        from_row < 8,
        from_col < 8,
    ensures
        out@ == step_targets(*board, from_row as int, from_col as int, color, king_offsets()),
{
    let deltas: [(i32, i32); 8] = [
        (-1, -1),
        (-1, 0),
        (-1, 1),
        (0, -1),
        (0, 1),
        (1, -1),
        (1, 0),
        (1, 1),
    ];
    assert(deltas@ =~= king_offsets());
    step_moves(board, from_row, from_col, color, &deltas)
}


/// Appends to `out` the squares reached by sliding from `(from_row, from_col)` along each of
/// `directions`, stopping before a piece of `color` and on (after taking) an enemy piece.
pub(crate) fn push_slides(
    board: &Board,
    from_row: usize,
    from_col: usize,
    color: PieceColor,
    directions: &[(i32, i32)],
    out: &mut Vec<(usize, usize)>,
)
    requires
        from_row < 8,
        from_col < 8,
        forall|i: int| 0 <= i < directions@.len() ==> unit_direction(#[trigger] directions@[i]),
    ensures
        final(out)@ == old(out)@ + slide_targets(
            *board,
            from_row as int,
            from_col as int,
            color,
            directions@,
        ),
{
    let ghost start = out@;
    let mut i: usize = 0;
    while i < directions.len()
        invariant
            i <= directions@.len(),
            from_row < 8,
            from_col < 8,
            forall|j: int|
                0 <= j < directions@.len() ==> unit_direction(#[trigger] directions@[j]),
            out@ == start + slide_targets(
                *board,
                from_row as int,
                from_col as int,
                color,
                directions@.take(i as int),
            ),
        decreases directions@.len() - i,
    {
        let (dr, dc) = directions[i];
        assert(unit_direction(directions@[i as int]));
        let mut tr = from_row as i32 + dr;
        let mut tc = from_col as i32 + dc;
        let ghost base = out@;
        let ghost full = ray(
            *board,
            from_row + dr,
            from_col + dc,
            dr as int,
            dc as int,
            color,
            8,
        );
        let ghost mut k: int = 0;
        let ghost mut fuel: nat = 8;
        let ghost mut taken: Seq<(usize, usize)> = seq![];
        while in_bounds(tr, tc)
            invariant_except_break
                taken + ray(*board, tr as int, tc as int, dr as int, dc as int, color, fuel)
                    == full,
            invariant
                from_row < 8,
                from_col < 8,
                -1 <= dr <= 1,
                -1 <= dc <= 1,
                dr != 0 || dc != 0,
                0 <= k <= 8,
                fuel == 8 - k,
                dr == 1 ==> tr == from_row + 1 + k,
                dr == -1 ==> tr == from_row - 1 - k,
                dr == 0 ==> tr == from_row,
                dc == 1 ==> tc == from_col + 1 + k,
                dc == -1 ==> tc == from_col - 1 - k,
                dc == 0 ==> tc == from_col,
                out@ == base + taken,
            ensures
                taken == full,
            decreases fuel,
        {
            assert(fuel > 0);
            match board[tr as usize][tc as usize] {
                None => {
                    out.push((tr as usize, tc as usize));
                    proof {
                        assert(taken.push(sq(tr as int, tc as int)) + ray(
                            *board,
                            tr + dr,
                            tc + dc,
                            dr as int,
                            dc as int,
                            color,
                            (fuel - 1) as nat,
                        ) =~= taken + ray(
                            *board,
                            tr as int,
                            tc as int,
                            dr as int,
                            dc as int,
                            color,
                            fuel,
                        ));
                        taken = taken.push(sq(tr as int, tc as int));
                        fuel = (fuel - 1) as nat;
                        k = k + 1;
                    }
                },
                Some(target) => {
                    if target.color != color {
                        out.push((tr as usize, tc as usize));
                        proof {
                            assert(taken.push(sq(tr as int, tc as int)) =~= taken + ray(
                                *board,
                                tr as int,
                                tc as int,
                                dr as int,
                                dc as int,
                                color,
                                fuel,
                            ));
                            taken = taken.push(sq(tr as int, tc as int));
                        }
                    } else {
                        proof {
                            assert(taken =~= taken + ray(
                                *board,
                                tr as int,
                                tc as int,
                                dr as int,
                                dc as int,
                                color,
                                fuel,
                            ));
                        }
                    }
                    break ;
                },
            }
            tr += dr;
            tc += dc;
        }
        proof {
            assert(directions@.take(i + 1).drop_last() =~= directions@.take(i as int));
            assert(directions@.take(i + 1).last() == directions@[i as int]);
        }
        i += 1;
    }
    proof {
        assert(directions@.take(directions@.len() as int) =~= directions@);
        assert(directions@.take(0) =~= Seq::<(i32, i32)>::empty());
    }
}

/// Squares reached by sliding from `(from_row, from_col)` along each of `directions`,
/// stopping before a piece of `color` and on (after taking) an enemy piece.
pub fn sliding_moves(
    board: &Board,
    from_row: usize,
    from_col: usize,
    color: PieceColor,
    directions: &[(i32, i32)],
) -> (out: Vec<(usize, usize)>)
    requires
        from_row < 8,
        from_col < 8,
        forall|i: int| 0 <= i < directions@.len() ==> unit_direction(#[trigger] directions@[i]),
    ensures
        out@ == slide_targets(*board, from_row as int, from_col as int, color, directions@),
{
    let mut out: Vec<(usize, usize)> = Vec::new();
    push_slides(board, from_row, from_col, color, directions, &mut out);
    assert(Seq::<(usize, usize)>::empty() + slide_targets(
        *board,
        from_row as int,
        from_col as int,
        color,
        directions@,
    ) =~= slide_targets(*board, from_row as int, from_col as int, color, directions@));
    out
}

/// Moves of `piece` standing on `(from_row, from_col)`, ignoring check.
pub fn pseudo_moves_for_piece(board: &Board, from_row: usize, from_col: usize, piece: Piece) -> (out:
    Vec<(usize, usize)>)
    requires
        from_row < 8,
        from_col < 8,
    ensures
        out@ == pseudo_targets(*board, from_row as int, from_col as int, piece),
{
    match piece.piece_type {
        PieceType::Pawn => pawn_moves(board, from_row, from_col, piece.color),
        PieceType::Knight => knight_moves(board, from_row, from_col, piece.color),
        PieceType::Bishop => {
            let dirs: [(i32, i32); 4] = [(-1, -1), (-1, 1), (1, -1), (1, 1)];
            assert(dirs@ =~= bishop_dirs());
            sliding_moves(board, from_row, from_col, piece.color, &dirs)
        },
        PieceType::Rook => {
            let dirs: [(i32, i32); 4] = [(-1, 0), (1, 0), (0, -1), (0, 1)];
            assert(dirs@ =~= rook_dirs());
            sliding_moves(board, from_row, from_col, piece.color, &dirs)
        },
        PieceType::Queen => {
            let dirs: [(i32, i32); 8] = [
                (-1, -1),
                (-1, 1),
                (1, -1),
                (1, 1),
                (-1, 0),
                (1, 0),
                (0, -1),
                (0, 1),
            ];
            assert(dirs@ =~= queen_dirs());
            sliding_moves(board, from_row, from_col, piece.color, &dirs)
        },
        PieceType::King => king_moves(board, from_row, from_col, piece.color),
    }
}


/// Some piece of `attacker_color` attacks `(target_row, target_col)`.
pub fn is_square_attacked(
    board: &Board,
    target_row: usize,
    target_col: usize,
    attacker_color: PieceColor,
) -> (attacked: bool)
    requires
        target_row < 8,
        target_col < 8,
    ensures
        attacked == square_attacked(*board, target_row as int, target_col as int, attacker_color),
{
    let mut row: usize = 0;
    while row < 8
        invariant
            row <= 8,
            target_row < 8,
            target_col < 8,
            forall|r: int, c: int|
                0 <= r < row && 0 <= c < 8 ==> !#[trigger] attacks_from(
                    *board,
                    r,
                    c,
                    target_row as int,
                    target_col as int,
                    attacker_color,
                ),
        decreases 8 - row,
    {
        let mut col: usize = 0;
        while col < 8
            invariant
                row < 8,
                col <= 8,
                target_row < 8,
                target_col < 8,
                forall|r: int, c: int|
                    (0 <= r < row && 0 <= c < 8) || (r == row && 0 <= c < col) ==> !#[trigger] attacks_from(
                        *board,
                        r,
                        c,
                        target_row as int,
                        target_col as int,
                        attacker_color,
                    ),
            decreases 8 - col,
        {
            if let Some(piece) = board[row][col] {
                if piece.color == attacker_color {
                    if piece.piece_type == PieceType::Pawn {
                        let step: i32 = if attacker_color == PieceColor::White {
                            -1
                        } else {
                            1
                        };
                        assert(step == pawn_dir(attacker_color));
                        let tr = row as i32 + step;
                        if tr == target_row as i32 && (col as i32 - 1 == target_col as i32 || col
                            as i32 + 1 == target_col as i32) {
                            assert(attacks_from(
                                *board,
                                row as int,
                                col as int,
                                target_row as int,
                                target_col as int,
                                attacker_color,
                            ));
                            return true;
                        }
                    } else {
                        let moves = pseudo_moves_for_piece(board, row, col, piece);
                        let mut j: usize = 0;
                        while j < moves.len()
                            invariant
                                j <= moves@.len(),
                                row < 8,
                                col < 8,
                                target_row < 8,
                                target_col < 8,
                                board[row as int][col as int] == Some(piece),
                                piece.color == attacker_color,
                                piece.piece_type != PieceType::Pawn,
                                moves@ == pseudo_targets(*board, row as int, col as int, piece),
                                forall|i: int|
                                    0 <= i < j ==> #[trigger] moves@[i] != (target_row, target_col),
                            decreases moves@.len() - j,
                        {
                            let (tr, tc) = moves[j];
                            if tr == target_row && tc == target_col {
                                assert(moves@[j as int] == sq(target_row as int, target_col as int));
                                assert(attacks_from(
                                    *board,
                                    row as int,
                                    col as int,
                                    target_row as int,
                                    target_col as int,
                                    attacker_color,
                                ));
                                return true;
                            }
                            j += 1;
                        }
                        assert(!moves@.contains(sq(target_row as int, target_col as int)));
                    }
                }
            }
            col += 1;
        }
        row += 1;
    }
    false
}

/// The king searched for is the one in the highest row that holds a king of `color`,
/// in the lowest column of that row holding one; there is at most one such square.
pub proof fn lemma_king_found_unique(b: Board, color: PieceColor, r1: int, c1: int, r2: int, c2: int)
    requires
        king_found_at(b, color, r1, c1),
        king_found_at(b, color, r2, c2),
    ensures
        r1 == r2 && c1 == c2,
{
    if r1 < r2 {
        assert(row_has_king(b, color, r2));
    } else if r2 < r1 {
        assert(row_has_king(b, color, r1));
    }
}

/// Looks for the king of `color`: the lowest column holding one in the highest row holding one.
pub(crate) fn find_king(board: &Board, color: PieceColor) -> (pos: Option<(usize, usize)>)
    ensures
        match pos {
            Some((r, c)) => king_found_at(*board, color, r as int, c as int),
            None => forall|r: int, c: int| in_board(r, c) ==> !#[trigger] is_king_of(*board, color, r, c),
        },
{
    let mut king_pos: Option<(usize, usize)> = None;
    let mut row: usize = 0;
    while row < 8
        invariant
            row <= 8,
            match king_pos {
                Some((r, c)) => {
                    &&& r < row
                    &&& c < 8
                    &&& is_king_of(*board, color, r as int, c as int)
                    &&& forall|c2: int| 0 <= c2 < c ==> !#[trigger] is_king_of(*board, color, r as int, c2)
                    &&& forall|r2: int| r < r2 < row ==> !#[trigger] row_has_king(*board, color, r2)
                },
                None => forall|r2: int| 0 <= r2 < row ==> !#[trigger] row_has_king(*board, color, r2),
            },
        decreases 8 - row,
    {
        let mut col: usize = 0;
        let ghost before = king_pos;
        while col < 8
            invariant_except_break
                king_pos == before,
            invariant
                row < 8,
                col <= 8,
                forall|c2: int| 0 <= c2 < col ==> !#[trigger] is_king_of(*board, color, row as int, c2),
            ensures
                king_pos == before && !row_has_king(*board, color, row as int) || king_pos == Some(
                    (row, col),
                ) && col < 8 && is_king_of(*board, color, row as int, col as int) && forall|c2: int|
                    0 <= c2 < col ==> !#[trigger] is_king_of(*board, color, row as int, c2),
            decreases 8 - col,
        {
            if let Some(p) = board[row][col] {
                if p.piece_type == PieceType::King && p.color == color {
                    king_pos = Some((row, col));
                    break ;
                }
            }
            col += 1;
        }
        row += 1;
    }
    proof {
        if king_pos is None {
            assert forall|r: int, c: int| in_board(r, c) implies !#[trigger] is_king_of(
                *board,
                color,
                r,
                c,
            ) by {
                if is_king_of(*board, color, r, c) {
                    assert(row_has_king(*board, color, r));
                }
            }
        }
    }
    king_pos
}

/// The king of `color` is attacked (a board without that king is never in check).
pub fn is_king_in_check_static(board: &Board, color: PieceColor) -> (in_check: bool)
    ensures
        in_check == king_in_check(*board, color),
{
    match find_king(board, color) {
        Some((king_row, king_col)) => {
            let attacked = is_square_attacked(board, king_row, king_col, opposite_color(color));
            proof {
                if king_in_check(*board, color) {
                    let (r, c) = choose|r: int, c: int|
                        #[trigger] king_found_at(*board, color, r, c) && square_attacked(
                            *board,
                            r,
                            c,
                            spec_opposite(color),
                        );
                    lemma_king_found_unique(*board, color, r, c, king_row as int, king_col as int);
                }
            }
            attacked
        },
        None => false,
    }
}


/// Index arithmetic of row-major square numbering.
pub proof fn lemma_square_index(row: int, col: int)
    requires
        0 <= row < 8,
        0 <= col < 8,
    ensures
        (row * 8 + col) / 8 == row,
        (row * 8 + col) % 8 == col,
{
    assert((row * 8 + col) / 8 == row && (row * 8 + col) % 8 == col) by (nonlinear_arith)
        requires
            0 <= row < 8,
            0 <= col < 8,
    ;
}

/// All legal moves of `color`: for each square in row-major order holding a piece of
/// `color`, each of its moves (in the order they are generated) after which its own king is
/// not in check.
pub fn collect_legal_moves_static(board: &Board, color: PieceColor) -> (out: Vec<AiMove>)
    ensures
        out@ == legal_moves(*board, color),
{
    let mut out: Vec<AiMove> = Vec::new();
    let mut from_row: usize = 0;
    while from_row < 8
        invariant
            from_row <= 8,
            out@ == legal_moves_upto(*board, color, (from_row * 8) as nat),
        decreases 8 - from_row,
    {
        let mut from_col: usize = 0;
        while from_col < 8
            invariant
                from_row < 8,
                from_col <= 8,
                out@ == legal_moves_upto(*board, color, (from_row * 8 + from_col) as nat),
            decreases 8 - from_col,
        {
            let ghost k: nat = (from_row * 8 + from_col) as nat;
            let ghost before = out@;
            proof {
                lemma_square_index(from_row as int, from_col as int);
            }
            assert(legal_moves_upto(*board, color, k + 1) == before + legal_from(
                *board,
                color,
                from_row as int,
                from_col as int,
            ));
            if let Some(piece) = board[from_row][from_col] {
                if piece.color == color {
                    let targets = pseudo_moves_for_piece(board, from_row, from_col, piece);
                    let mut j: usize = 0;
                    while j < targets.len()
                        invariant
                            from_row < 8,
                            from_col < 8,
                            j <= targets@.len(),
                            targets@ == pseudo_targets(*board, from_row as int, from_col as int, piece),
                            out@ == before + legal_targets(
                                *board,
                                color,
                                from_row as int,
                                from_col as int,
                                targets@.take(j as int),
                            ),
                        decreases targets@.len() - j,
                    {
                        let (to_row, to_col) = targets[j];
                        proof {
                            assert(targets@.take(j + 1).drop_last() =~= targets@.take(j as int));
                            assert(targets@.take(j + 1).last() == targets@[j as int]);
                            lemma_targets_on_board(*board, from_row as int, from_col as int, piece);
                        }
                        let mut next = *board;
                        let mv = AiMove::new(from_row, from_col, to_row, to_col);
                        apply_move_on_board(&mut next, mv);
                        if !is_king_in_check_static(&next, color) {
                            out.push(mv);
                        }
                        j += 1;
                    }
                    proof {
                        assert(targets@.take(targets@.len() as int) =~= targets@);
                    }
                } else {
                    assert(before + seq![] =~= before);
                }
            } else {
                assert(before + seq![] =~= before);
            }
            from_col += 1;
        }
        from_row += 1;
    }
    out
}


/// Value of a kind of piece, in 1/200 pawn.
pub fn piece_value(piece_type: PieceType) -> (v: i64)
    ensures
        v == spec_piece_value(piece_type),
{
    match piece_type {
        PieceType::Pawn => 200,
        PieceType::Knight => 600,
        PieceType::Bishop => 620,
        PieceType::Rook => 1000,
        PieceType::Queen => 1800,
        PieceType::King => 20000,
    }
}

/// Total value of the pieces of `color` on the board.
fn material_score_for(board: &Board, color: PieceColor) -> (total: i64)
    ensures
        total == material(*board, color),
{
    let mut total: i64 = 0;
    let mut row: usize = 0;
    while row < 8
        invariant
            row <= 8,
            total == material_upto(*board, color, (row * 8) as nat),
            0 <= total <= 20000 * (row * 8),
        decreases 8 - row,
    {
        let mut col: usize = 0;
        while col < 8
            invariant
                row < 8,
                col <= 8,
                total == material_upto(*board, color, (row * 8 + col) as nat),
                0 <= total <= 20000 * (row * 8 + col),
            decreases 8 - col,
        {
            proof {
                lemma_square_index(row as int, col as int);
            }
            if let Some(piece) = board[row][col] {
                if piece.color == color {
                    total += piece_value(piece.piece_type);
                }
            }
            col += 1;
        }
        row += 1;
    }
    total
}

/// Static evaluation of the position for `side_to_move` (see `evaluation`).
fn evaluate_position(board: &Board, side_to_move: PieceColor) -> (score: i64)
    ensures
        score == evaluation(*board, side_to_move),
{
    proof {
        lemma_material_bounds(*board, side_to_move);
        lemma_material_bounds(*board, spec_opposite(side_to_move));
        lemma_legal_moves_len(*board, side_to_move);
        lemma_legal_moves_len(*board, spec_opposite(side_to_move));
    }
    let opp = opposite_color(side_to_move);
    let own = material_score_for(board, side_to_move);
    let theirs = material_score_for(board, opp);
    let mut score = own - theirs;

    let own_moves = collect_legal_moves_static(board, side_to_move).len() as i64;
    let opp_moves = collect_legal_moves_static(board, opp).len() as i64;
    score += (own_moves - opp_moves) * 8;

    if is_king_in_check_static(board, opp) {
        score += 70;
    }
    if is_king_in_check_static(board, side_to_move) {
        score -= 70;
    }
    score
}

/// The move-choosing engine. It keeps no state: its moves depend on the position, the
/// moves it is offered, its previous move, and chance.
#[derive(Debug, Clone, Copy, PartialEq, Eq, Structural)]
pub struct ChessAi;

impl ChessAi {
    /// Builds the engine. The path of a learned model is accepted and ignored: the engine
    /// plays by search alone.
    pub fn new(_model_path: impl Into<String>) -> (ai: Self)
        ensures
            ai == ChessAi,
    {
        ChessAi
    }

    /// Negamax search with alpha-beta pruning, `depth` plies deep, for `side_to_move`.
    /// The result is fail-soft: inside the window `(alpha, beta)` it is the exact negamax
    /// value; at or below `alpha` it bounds the value from above; at or above `beta` it
    /// bounds it from below. Whatever the window, a mated side gets
    /// `-MATE_SCORE + DEPTH_BONUS * depth`, a stalemated side 0, and at depth 0 the
    /// evaluation of the position.
    fn negamax(&self, board: &Board, side_to_move: PieceColor, depth: usize, alpha: i64, beta: i64) -> (r: i64)
        requires
            depth <= SEARCH_DEPTH,
            -MATE_SCORE <= alpha < beta <= MATE_SCORE,
        ensures
            -MATE_SCORE <= r <= MATE_SCORE,
            super::rules::legal_moves(*board, side_to_move).len() == 0 && king_in_check(*board, side_to_move)
                ==> r == -MATE_SCORE + DEPTH_BONUS * depth,
            super::rules::legal_moves(*board, side_to_move).len() == 0 && !king_in_check(*board, side_to_move)
                ==> r == 0,
            super::rules::legal_moves(*board, side_to_move).len() > 0 && depth == 0 ==> r == evaluation(
                *board,
                side_to_move,
            ),
            r <= alpha ==> negamax_value(*board, side_to_move, depth as nat) <= r,
            r >= beta ==> negamax_value(*board, side_to_move, depth as nat) >= r,
            alpha < r < beta ==> r == negamax_value(*board, side_to_move, depth as nat),
        decreases depth,
    {
        proof {
            lemma_negamax_bounds(*board, side_to_move, depth as nat);
        }
        let legal_moves = collect_legal_moves_static(board, side_to_move);

        if legal_moves.len() == 0 {
            if is_king_in_check_static(board, side_to_move) {
                return -MATE_SCORE + DEPTH_BONUS * depth as i64;
            }
            return 0;
        }

        if depth == 0 {
            proof {
                lemma_evaluation_bounds(*board, side_to_move);
            }
            return evaluate_position(board, side_to_move);
        }

        let ghost alpha0 = alpha;
        let ghost moves = legal_moves@;
        let opp = opposite_color(side_to_move);
        let mut alpha = alpha;
        let mut best: i64 = -MATE_SCORE;
        let mut i: usize = 0;
        while i < legal_moves.len() && alpha < beta
            invariant
                i <= moves.len(),
                moves.len() > 0,
                moves == legal_moves@,
                moves == super::rules::legal_moves(*board, side_to_move),
                1 <= depth <= SEARCH_DEPTH,
                opp == spec_opposite(side_to_move),
                -MATE_SCORE <= alpha0 < beta <= MATE_SCORE,
                -MATE_SCORE <= best <= MATE_SCORE,
                alpha0 <= alpha <= MATE_SCORE,
                i == 0 ==> best == -MATE_SCORE && alpha == alpha0,
                i > 0 ==> alpha == max_score(alpha0 as int, best as int),
                best >= beta ==> best_over(*board, side_to_move, depth as nat, moves.take(i as int)) >= best,
                best <= alpha0 ==> best_over(*board, side_to_move, depth as nat, moves.take(i as int)) <= best,
                alpha0 < best < beta ==> best_over(*board, side_to_move, depth as nat, moves.take(i as int)) == best,
            decreases moves.len() - i,
        {
            let mv = legal_moves[i];
            proof {
                lemma_legal_moves_on_board(*board, side_to_move);
                assert(super::board::move_on_board(moves[i as int]));
            }
            let mut next = *board;
            apply_move_on_board(&mut next, mv);
            let child = self.negamax(&next, opp, depth - 1, -beta, -alpha);
            let score = -child;
            proof {
                let t = -negamax_value(next, opp, (depth - 1) as nat);
                assert(moves.take(i + 1).drop_last() =~= moves.take(i as int));
                assert(moves.take(i + 1).last() == mv);
                assert(best_over(*board, side_to_move, depth as nat, moves.take(i + 1)) == max_score(
                    best_over(*board, side_to_move, depth as nat, moves.take(i as int)),
                    t,
                ));
            }
            if score > best {
                best = score;
            }
            if score > alpha {
                alpha = score;
            }
            i += 1;
        }
        proof {
            if i < moves.len() {
                lemma_best_over_prefix(*board, side_to_move, depth as nat, moves, i as int, moves.len() as int);
            }
            assert(moves.take(moves.len() as int) =~= moves);
        }
        best
    }

    /// Picks a move for `side_to_move` among `legal_moves`. Each move is scored (see
    /// `move_score`: a two-ply negamax search of the resulting position, a penalty for undoing
    /// `previous_side_move`, bonuses for captures and checks); a move is then drawn at random
    /// among those scoring within `PICK_MARGIN` of the best. `None` only when there is no move.
    pub fn choose_move_balanced(
        &self,
        board: &Board,
        side_to_move: PieceColor,
        legal_moves: &[AiMove],
        _autonomous_training: bool,
        previous_side_move: Option<AiMove>,
    ) -> (choice: Option<AiMove>)
        requires
            forall|i: int| 0 <= i < legal_moves@.len() ==> move_on_board(#[trigger] legal_moves@[i]),
        ensures
            choice is None <==> legal_moves@.len() == 0,
            choice matches Some(m) ==> {
                &&& legal_moves@.contains(m)
                &&& forall|i: int|
                    0 <= i < legal_moves@.len() ==> #[trigger] move_score(
                        *board,
                        side_to_move,
                        legal_moves@[i],
                        previous_side_move,
                    ) <= move_score(*board, side_to_move, m, previous_side_move) + PICK_MARGIN
            },
    {
        if legal_moves.len() == 0 {
            return None;
        }
        let n = legal_moves.len();
        let opp = opposite_color(side_to_move);
        let mut scores: Vec<i64> = Vec::new();
        let mut i: usize = 0;
        while i < n
            invariant
                n == legal_moves@.len(),
                i <= n,
                opp == spec_opposite(side_to_move),
                forall|j: int| 0 <= j < n ==> move_on_board(#[trigger] legal_moves@[j]),
                scores@.len() == i,
                forall|j: int|
                    0 <= j < i ==> -MATE_SCORE - 200 <= #[trigger] scores@[j] <= MATE_SCORE + 6000,
                forall|j: int|
                    0 <= j < i ==> #[trigger] scores@[j] == move_score(
                        *board,
                        side_to_move,
                        legal_moves@[j],
                        previous_side_move,
                    ),
            decreases n - i,
        {
            let mv = legal_moves[i];
            assert(move_on_board(legal_moves@[i as int]));
            let mut next = *board;
            apply_move_on_board(&mut next, mv);
            proof {
                lemma_negamax_bounds(next, opp, (SEARCH_DEPTH - 1) as nat);
            }
            let mut score = -self.negamax(&next, opp, SEARCH_DEPTH - 1, -MATE_SCORE, MATE_SCORE);
            let mut undoes = false;
            if let Some(prev) = previous_side_move {
                if mv.from_row == prev.to_row && mv.from_col == prev.to_col && mv.to_row
                    == prev.from_row && mv.to_col == prev.from_col {
                    undoes = true;
                    score -= 140;
                }
            }
            assert(undoes == reverses(mv, previous_side_move));
            if let Some(target) = board[mv.to_row][mv.to_col] {
                score += piece_value(target.piece_type) / 4;
            }
            if is_king_in_check_static(&next, opp) {
                score += 80;
            }
            scores.push(score);
            i += 1;
        }

        let mut best = scores[0];
        let mut arg: usize = 0;
        let mut k: usize = 1;
        while k < n
            invariant
                n == scores@.len(),
                1 <= k <= n,
                arg < k,
                scores@[arg as int] == best,
                forall|j: int| 0 <= j < k ==> #[trigger] scores@[j] <= best,
                forall|j: int|
                    0 <= j < n ==> -MATE_SCORE - 200 <= #[trigger] scores@[j] <= MATE_SCORE + 6000,
            decreases n - k,
        {
            if scores[k] > best {
                best = scores[k];
                arg = k;
            }
            k += 1;
        }

        let mut top: Vec<AiMove> = Vec::new();
        let mut j: usize = 0;
        while j < n
            invariant
                n == scores@.len(),
                n == legal_moves@.len(),
                j <= n,
                arg < n,
                scores@[arg as int] == best,
                forall|x: int| 0 <= x < n ==> #[trigger] scores@[x] <= best,
                forall|j: int|
                    0 <= j < n ==> -MATE_SCORE - 200 <= #[trigger] scores@[j] <= MATE_SCORE + 6000,
                forall|x: int|
                    0 <= x < n ==> #[trigger] scores@[x] == move_score(
                        *board,
                        side_to_move,
                        legal_moves@[x],
                        previous_side_move,
                    ),
                j > arg ==> top@.len() > 0,
                forall|t: int|
                    0 <= t < top@.len() ==> legal_moves@.contains(#[trigger] top@[t]) && best
                        <= move_score(*board, side_to_move, top@[t], previous_side_move)
                        + PICK_MARGIN,
            decreases n - j,
        {
            if best - scores[j] <= PICK_MARGIN {
                top.push(legal_moves[j]);
                proof {
                    assert(legal_moves@[j as int] == top@[top@.len() - 1]);
                    assert(legal_moves@.contains(legal_moves@[j as int]));
                }
            }
            j += 1;
        }

        let ghost unshuffled = top@;
        shuffle_in_place(&mut top);
        proof {
            broadcast use vstd::seq_lib::group_to_multiset_ensures;

            assert(unshuffled.len() > 0);
            assert(unshuffled.to_multiset().len() == unshuffled.len());
            assert(top@.len() == top@.to_multiset().len());
            assert(top@.contains(top@[0]));
            assert(top@.to_multiset().count(top@[0]) > 0);
            assert(unshuffled.contains(top@[0]));
            let t = choose|t: int| 0 <= t < unshuffled.len() && unshuffled[t] == top@[0];
            assert(legal_moves@.contains(unshuffled[t]));
            assert forall|x: int| 0 <= x < legal_moves@.len() implies #[trigger] move_score(
                *board,
                side_to_move,
                legal_moves@[x],
                previous_side_move,
            ) <= move_score(*board, side_to_move, top@[0], previous_side_move) + PICK_MARGIN by {
                assert(scores@[x] <= best);
            }
        }
        Some(top[0])
    }
}


} // verus!
