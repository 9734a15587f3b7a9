//! The rules of piece movement, attack and check, stated as spec functions.
use vstd::prelude::*;

use super::board::{apply_move, in_board, move_on_board, AiMove, Board};
use super::piece::{spec_opposite, Piece, PieceColor, PieceType};

verus! {

/// Row direction in which pawns of `color` advance.
pub open spec fn pawn_dir(color: PieceColor) -> int {
    match color {
        PieceColor::White => -1,
        PieceColor::Black => 1,
    }
}

/// Row on which pawns of `color` start (and may advance two squares).
pub open spec fn pawn_start_row(color: PieceColor) -> int {
    match color {
        PieceColor::White => 6,
        PieceColor::Black => 1,
    }
}

/// The square `(r, c)` as a pair of machine indices.
pub open spec fn sq(r: int, c: int) -> (usize, usize) {
    (r as usize, c as usize)
}

/// Square `(r, c)` holds a piece of the side other than `color`.
pub open spec fn holds_enemy(b: Board, color: PieceColor, r: int, c: int) -> bool {
    b[r][c] matches Some(t) && t.color != color
}

/// A piece of `color` may land on `(r, c)`: it is on the board and empty or held by the enemy.
pub open spec fn can_land(b: Board, color: PieceColor, r: int, c: int) -> bool {
    in_board(r, c) && (b[r][c] is None || holds_enemy(b, color, r, c))
}

/// Diagonal capture of a pawn of `color` on `(r, c)` towards column offset `dc`.
pub open spec fn pawn_capture_targets(b: Board, r: int, c: int, color: PieceColor, dc: int) -> Seq<
    (usize, usize),
> {
    let tr = r + pawn_dir(color);
    let tc = c + dc;
    if in_board(tr, tc) && holds_enemy(b, color, tr, tc) {
        seq![sq(tr, tc)]
    } else {
        seq![]
    }
}

/// Squares a pawn of `color` on `(r, c)` may move to, in the order the engine lists them:
/// one step forward onto an empty square, then two steps from the start row when both are
/// empty, then the captures towards the lower and the higher column.
pub open spec fn pawn_targets(b: Board, r: int, c: int, color: PieceColor) -> Seq<(usize, usize)> {
    let r1 = r + pawn_dir(color);
    let r2 = r + 2 * pawn_dir(color);
    let forward = if in_board(r1, c) && b[r1][c] is None {
        if r == pawn_start_row(color) && in_board(r2, c) && b[r2][c] is None {
            seq![sq(r1, c), sq(r2, c)]
        } else {
            seq![sq(r1, c)]
        }
    } else {
        seq![]
    };
    forward + pawn_capture_targets(b, r, c, color, -1) + pawn_capture_targets(b, r, c, color, 1)
}

/// Knight jumps, in the engine's order.
pub open spec fn knight_offsets() -> Seq<(i32, i32)> {
    seq![(-2i32, -1i32), (-2i32, 1i32), (-1i32, -2i32), (-1i32, 2i32), (1i32, -2i32), (1i32, 2i32), (2i32, -1i32), (2i32, 1i32)]
}

/// King steps, in the engine's order.
pub open spec fn king_offsets() -> Seq<(i32, i32)> {
    seq![(-1i32, -1i32), (-1i32, 0i32), (-1i32, 1i32), (0i32, -1i32), (0i32, 1i32), (1i32, -1i32), (1i32, 0i32), (1i32, 1i32)]
}

/// Landing squares of single steps by `offs` from `(r, c)`, in the order of `offs`.
pub open spec fn step_targets(
    b: Board,
    r: int,
    c: int,
    color: PieceColor,
    offs: Seq<(i32, i32)>,
) -> Seq<(usize, usize)>
    decreases offs.len(),
{
    if offs.len() == 0 {
        seq![]
    } else {
        let rest = step_targets(b, r, c, color, offs.drop_last());
        let tr = r + offs.last().0;
        let tc = c + offs.last().1;
        if can_land(b, color, tr, tc) {
            rest.push(sq(tr, tc))
        } else {
            rest
        }
    }
}

/// Squares reached by sliding from `(r, c)` (included) in direction `(dr, dc)`:
/// empty squares, then the first occupied square if it holds an enemy. `fuel`
/// bounds the length of the ray.
pub open spec fn ray(
    b: Board,
    r: int,
    c: int,
    dr: int,
    dc: int,
    color: PieceColor,
    fuel: nat,
) -> Seq<(usize, usize)>
    decreases fuel,
{
    if fuel == 0 || !in_board(r, c) {
        seq![]
    } else {
        match b[r][c] {
            None => seq![sq(r, c)] + ray(b, r + dr, c + dc, dr, dc, color, (fuel - 1) as nat),
            Some(t) => if t.color != color {
                seq![sq(r, c)]
            } else {
                seq![]
            },
        }
    }
}

/// A direction is one of the eight king steps.
pub open spec fn unit_direction(d: (i32, i32)) -> bool {
    -1 <= d.0 <= 1 && -1 <= d.1 <= 1 && (d.0 != 0 || d.1 != 0)
}

/// Squares reached by sliding from `(r, c)` along each of `dirs`, direction after direction.
pub open spec fn slide_targets(
    b: Board,
    r: int,
    c: int,
    color: PieceColor,
    dirs: Seq<(i32, i32)>,
) -> Seq<(usize, usize)>
    decreases dirs.len(),
{
    if dirs.len() == 0 {
        seq![]
    } else {
        let d = dirs.last();
        slide_targets(b, r, c, color, dirs.drop_last()) + ray(
            b,
            r + d.0,
            c + d.1,
            d.0 as int,
            d.1 as int,
            color,
            8,
        )
    }
}

/// Bishop directions, in the engine's order.
pub open spec fn bishop_dirs() -> Seq<(i32, i32)> {
    seq![(-1i32, -1i32), (-1i32, 1i32), (1i32, -1i32), (1i32, 1i32)]
}

/// Rook directions, in the engine's order.
pub open spec fn rook_dirs() -> Seq<(i32, i32)> {
    seq![(-1i32, 0i32), (1i32, 0i32), (0i32, -1i32), (0i32, 1i32)]
}

/// Queen directions, in the engine's order.
pub open spec fn queen_dirs() -> Seq<(i32, i32)> {
    bishop_dirs() + rook_dirs()
}

/// Squares the piece `p` standing on `(r, c)` may move to when only its own way of
/// moving and the pieces in its path count (check is not considered).
pub open spec fn pseudo_targets(b: Board, r: int, c: int, p: Piece) -> Seq<(usize, usize)> {
    match p.piece_type {
        PieceType::Pawn => pawn_targets(b, r, c, p.color),
        PieceType::Knight => step_targets(b, r, c, p.color, knight_offsets()),
        PieceType::Bishop => slide_targets(b, r, c, p.color, bishop_dirs()),
        PieceType::Rook => slide_targets(b, r, c, p.color, rook_dirs()),
        PieceType::Queen => slide_targets(b, r, c, p.color, queen_dirs()),
        PieceType::King => step_targets(b, r, c, p.color, king_offsets()),
    }
}

/// The piece on `(row, col)` belongs to `attacker` and attacks `(tr, tc)`: a pawn
/// attacks the two squares diagonally ahead of it, any other piece the squares it may move to.
pub open spec fn attacks_from(
    b: Board,
    row: int,
    col: int,
    tr: int,
    tc: int,
    attacker: PieceColor,
) -> bool {
    match b[row][col] {
        None => false,
        Some(p) => p.color == attacker && if p.piece_type == PieceType::Pawn {
            tr == row + pawn_dir(attacker) && (tc == col - 1 || tc == col + 1)
        } else {
            pseudo_targets(b, row, col, p).contains(sq(tr, tc))
        },
    }
}

/// Some piece of `attacker` attacks square `(tr, tc)`.
pub open spec fn square_attacked(b: Board, tr: int, tc: int, attacker: PieceColor) -> bool {
    exists|row: int, col: int| in_board(row, col) && #[trigger] attacks_from(b, row, col, tr, tc, attacker)
}

/// Square `(r, c)` holds the king of `color`.
pub open spec fn is_king_of(b: Board, color: PieceColor, r: int, c: int) -> bool {
    b[r][c] matches Some(p) && p.piece_type == PieceType::King && p.color == color
}

/// Row `r` holds a king of `color`.
pub open spec fn row_has_king(b: Board, color: PieceColor, r: int) -> bool {
    exists|c: int| 0 <= c < 8 && #[trigger] is_king_of(b, color, r, c)
}

/// `(r, c)` is the square at which the king of `color` is looked for: the lowest
/// column holding such a king in the highest row that holds one.
pub open spec fn king_found_at(b: Board, color: PieceColor, r: int, c: int) -> bool {
    &&& in_board(r, c)
    &&& is_king_of(b, color, r, c)
    &&& forall|c2: int| 0 <= c2 < c ==> !#[trigger] is_king_of(b, color, r, c2)
    &&& forall|r2: int| r < r2 < 8 ==> !#[trigger] row_has_king(b, color, r2)
}

/// The king of `color` stands attacked by the other side. A board without such a king
/// is never in check.
pub open spec fn king_in_check(b: Board, color: PieceColor) -> bool {
    exists|r: int, c: int|
        #[trigger] king_found_at(b, color, r, c) && square_attacked(b, r, c, spec_opposite(color))
}

/// The moves from `(r, c)` to each of `ts` that do not leave the king of `color` in check.
pub open spec fn legal_targets(
    b: Board,
    color: PieceColor,
    r: int,
    c: int,
    ts: Seq<(usize, usize)>,
) -> Seq<AiMove>
    decreases ts.len(),
{
    if ts.len() == 0 {
        seq![]
    } else {
        let prev = legal_targets(b, color, r, c, ts.drop_last());
        let m = AiMove {
            from_row: r as usize,
            from_col: c as usize,
            to_row: ts.last().0,
            to_col: ts.last().1,
        };
        if !king_in_check(apply_move(b, m), color) {
            prev.push(m)
        } else {
            prev
        }
    }
}

/// The legal moves of the piece of `color` on `(r, c)`; none if the square holds no such piece.
pub open spec fn legal_from(b: Board, color: PieceColor, r: int, c: int) -> Seq<AiMove> {
    match b[r][c] {
        Some(p) => if p.color == color {
            legal_targets(b, color, r, c, pseudo_targets(b, r, c, p))
        } else {
            seq![]
        },
        None => seq![],
    }
}

/// The legal moves of `color` from the first `k` squares in row-major order.
pub open spec fn legal_moves_upto(b: Board, color: PieceColor, k: nat) -> Seq<AiMove>
    decreases k,
{
    if k == 0 {
        seq![]
    } else {
        legal_moves_upto(b, color, (k - 1) as nat) + legal_from(
            b,
            color,
            (k - 1) / 8,
            (k - 1) % 8,
        )
    }
}

/// All legal moves of `color`, square by square in row-major order.
pub open spec fn legal_moves(b: Board, color: PieceColor) -> Seq<AiMove> {
    legal_moves_upto(b, color, 64)
}


/// Every square of `ts` lies on the board.
pub open spec fn all_on_board(ts: Seq<(usize, usize)>) -> bool {
    forall|i: int| 0 <= i < ts.len() ==> #[trigger] ts[i].0 < 8 && ts[i].1 < 8
}

proof fn lemma_step_bounds(b: Board, r: int, c: int, color: PieceColor, offs: Seq<(i32, i32)>)
    ensures
        all_on_board(step_targets(b, r, c, color, offs)),
        step_targets(b, r, c, color, offs).len() <= offs.len(),
    decreases offs.len(),
{
    if offs.len() > 0 {
        lemma_step_bounds(b, r, c, color, offs.drop_last());
    }
}

proof fn lemma_ray_bounds(b: Board, r: int, c: int, dr: int, dc: int, color: PieceColor, fuel: nat)
    ensures
        all_on_board(ray(b, r, c, dr, dc, color, fuel)),
        ray(b, r, c, dr, dc, color, fuel).len() <= fuel,
    decreases fuel,
{
    if fuel > 0 && in_board(r, c) {
        lemma_ray_bounds(b, r + dr, c + dc, dr, dc, color, (fuel - 1) as nat);
        let rest = ray(b, r + dr, c + dc, dr, dc, color, (fuel - 1) as nat);
        let whole = seq![sq(r, c)] + rest;
        assert forall|i: int| 0 <= i < whole.len() implies #[trigger] whole[i].0 < 8 && whole[i].1
            < 8 by {
            if i > 0 {
                assert(whole[i] == rest[i - 1]);
            }
        }
    }
}

pub proof fn lemma_slide_bounds(b: Board, r: int, c: int, color: PieceColor, dirs: Seq<(i32, i32)>)
    ensures
        all_on_board(slide_targets(b, r, c, color, dirs)),
        slide_targets(b, r, c, color, dirs).len() <= 8 * dirs.len(),
    decreases dirs.len(),
{
    if dirs.len() > 0 {
        let d = dirs.last();
        lemma_slide_bounds(b, r, c, color, dirs.drop_last());
        lemma_ray_bounds(b, r + d.0, c + d.1, d.0 as int, d.1 as int, color, 8);
        let a = slide_targets(b, r, c, color, dirs.drop_last());
        let rr = ray(b, r + d.0, c + d.1, d.0 as int, d.1 as int, color, 8);
        assert forall|i: int| 0 <= i < (a + rr).len() implies #[trigger] (a + rr)[i].0 < 8 && (a
            + rr)[i].1 < 8 by {
            if i >= a.len() {
                assert((a + rr)[i] == rr[i - a.len()]);
                assert(rr[i - a.len()].0 < 8 && rr[i - a.len()].1 < 8);
            } else {
                assert((a + rr)[i] == a[i]);
                assert(a[i].0 < 8 && a[i].1 < 8);
            }
        }
    }
}

/// The moves of any piece stay on the board, and there are at most 64 of them.
pub proof fn lemma_targets_on_board(b: Board, r: int, c: int, p: Piece)
    ensures
        all_on_board(pseudo_targets(b, r, c, p)),
        pseudo_targets(b, r, c, p).len() <= 64,
{
    match p.piece_type {
        PieceType::Pawn => {
            let ts = pawn_targets(b, r, c, p.color);
            assert(all_on_board(ts));
        },
        PieceType::Knight => lemma_step_bounds(b, r, c, p.color, knight_offsets()),
        PieceType::King => lemma_step_bounds(b, r, c, p.color, king_offsets()),
        PieceType::Bishop => lemma_slide_bounds(b, r, c, p.color, bishop_dirs()),
        PieceType::Rook => lemma_slide_bounds(b, r, c, p.color, rook_dirs()),
        PieceType::Queen => lemma_slide_bounds(b, r, c, p.color, queen_dirs()),
    }
}


proof fn lemma_legal_targets_len(b: Board, color: PieceColor, r: int, c: int, ts: Seq<(usize, usize)>)
    ensures
        legal_targets(b, color, r, c, ts).len() <= ts.len(),
    decreases ts.len(),
{
    if ts.len() > 0 {
        lemma_legal_targets_len(b, color, r, c, ts.drop_last());
    }
}

proof fn lemma_legal_upto_len(b: Board, color: PieceColor, k: nat)
    ensures
        legal_moves_upto(b, color, k).len() <= 64 * k,
    decreases k,
{
    if k > 0 {
        lemma_legal_upto_len(b, color, (k - 1) as nat);
        let r = (k - 1) / 8;
        let c = (k - 1) % 8;
        if let Some(p) = b[r][c] {
            lemma_targets_on_board(b, r, c, p);
            lemma_legal_targets_len(b, color, r, c, pseudo_targets(b, r, c, p));
        }
    }
}

/// A side never has more than 4096 legal moves.
pub proof fn lemma_legal_moves_len(b: Board, color: PieceColor)
    ensures
        legal_moves(b, color).len() <= 4096,
{
    lemma_legal_upto_len(b, color, 64);
}


/// Every move of `ms` starts and ends on the board.
pub open spec fn moves_on_board(ms: Seq<AiMove>) -> bool {
    forall|i: int| 0 <= i < ms.len() ==> move_on_board(#[trigger] ms[i])
}

proof fn lemma_legal_targets_on_board(
    b: Board,
    color: PieceColor,
    r: int,
    c: int,
    ts: Seq<(usize, usize)>,
)
    requires
        in_board(r, c),
        all_on_board(ts),
    ensures
        moves_on_board(legal_targets(b, color, r, c, ts)),
    decreases ts.len(),
{
    if ts.len() > 0 {
        assert(all_on_board(ts.drop_last()));
        lemma_legal_targets_on_board(b, color, r, c, ts.drop_last());
        assert(ts.last() == ts[ts.len() - 1]);
    }
}

proof fn lemma_legal_upto_on_board(b: Board, color: PieceColor, k: nat)
    requires
        k <= 64,
    ensures
        moves_on_board(legal_moves_upto(b, color, k)),
    decreases k,
{
    if k > 0 {
        lemma_legal_upto_on_board(b, color, (k - 1) as nat);
        let r = (k - 1) / 8;
        let c = (k - 1) % 8;
        if let Some(p) = b[r][c] {
            lemma_targets_on_board(b, r, c, p);
            lemma_legal_targets_on_board(b, color, r, c, pseudo_targets(b, r, c, p));
        }
        let a = legal_moves_upto(b, color, (k - 1) as nat);
        let f = legal_from(b, color, r, c);
        assert forall|i: int| 0 <= i < (a + f).len() implies move_on_board(#[trigger] (a + f)[i]) by {
            if i < a.len() {
                assert((a + f)[i] == a[i]);
            } else {
                assert((a + f)[i] == f[i - a.len()]);
            }
        }
    }
}

/// Every legal move starts and ends on the board.
pub proof fn lemma_legal_moves_on_board(b: Board, color: PieceColor)
    ensures
        moves_on_board(legal_moves(b, color)),
{
    lemma_legal_upto_on_board(b, color, 64);
}

} // verus!
