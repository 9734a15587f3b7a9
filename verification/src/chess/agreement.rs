//! The engine and the match judge check and list moves by different means: the engine
//! asks whether any enemy piece could move onto the king's square, the match looks
//! outwards from the king. Here both are shown to agree.
use vstd::prelude::*;

use super::board::{
    apply_move, in_board, lemma_set_square, move_on_board, promoted, set_square, AiMove, Board,
};
use super::laws::{lemma_game_legal_moves_are_the_safe_moves, lemma_legal_moves_are_the_safe_moves};
use super::moves::{
    enemy_at, first_on_ray, game_bishop_dirs, game_king_in_check, game_legal_moves,
    game_pseudo_targets, game_queen_dirs, game_rook_dirs, ray_threat, rays_threat, simulate,
    slide_threat, step_threat,
};
use super::piece::{spec_opposite, Piece, PieceColor, PieceType};
use super::rules::{
    attacks_from, bishop_dirs, can_land, holds_enemy, is_king_of, king_found_at, king_in_check,
    king_offsets, knight_offsets, legal_moves, pawn_dir, pawn_targets, pseudo_targets, queen_dirs,
    ray, rook_dirs, row_has_king, slide_targets, sq, square_attacked, step_targets, unit_direction,
    pawn_capture_targets, pawn_start_row, lemma_targets_on_board, all_on_board,
};

verus! {

/// `x` moved `k` steps in direction `d` (one of -1, 0, 1).
pub open spec fn pos(x: int, d: int, k: int) -> int {
    if d == 1 {
        x + k
    } else if d == -1 {
        x - k
    } else {
        x
    }
}

/// Square `(r, c)` is on the board and empty.
pub open spec fn vacant(b: Board, r: int, c: int) -> bool {
    in_board(r, c) && b[r][c] is None
}

/// The first `k` squares from `(r, c)` (included) in direction `(dr, dc)` are on the board
/// and empty.
pub open spec fn clear_run(b: Board, r: int, c: int, dr: int, dc: int, k: int) -> bool {
    forall|j: int| 0 <= j < k ==> #[trigger] vacant(b, pos(r, dr, j), pos(c, dc, j))
}

/// The first piece on a ray stands after a run of empty squares.
proof fn lemma_first_hit(b: Board, r: int, c: int, dr: int, dc: int, fuel: nat) -> (k: int)
    requires
        -1 <= dr <= 1,
        -1 <= dc <= 1,
        first_on_ray(b, r, c, dr, dc, fuel) is Some,
    ensures
        0 <= k < fuel,
        in_board(pos(r, dr, k), pos(c, dc, k)),
        b[pos(r, dr, k)][pos(c, dc, k)] == first_on_ray(b, r, c, dr, dc, fuel),
        clear_run(b, r, c, dr, dc, k),
    decreases fuel,
{
    if b[r][c] is Some {
        0
    } else {
        let k1 = lemma_first_hit(b, r + dr, c + dc, dr, dc, (fuel - 1) as nat);
        assert forall|j: int| 0 <= j < k1 + 1 implies #[trigger] vacant(
            b,
            pos(r, dr, j),
            pos(c, dc, j),
        ) by {
            if j > 0 {
                assert(pos(r + dr, dr, j - 1) == pos(r, dr, j));
                assert(pos(c + dc, dc, j - 1) == pos(c, dc, j));
                assert(vacant(b, pos(r + dr, dr, j - 1), pos(c + dc, dc, j - 1)));
            }
        }
        assert(pos(r + dr, dr, k1) == pos(r, dr, k1 + 1));
        assert(pos(c + dc, dc, k1) == pos(c, dc, k1 + 1));
        k1 + 1
    }
}

/// A piece after a run of empty squares is the first piece on the ray.
proof fn lemma_first_from_run(b: Board, r: int, c: int, dr: int, dc: int, fuel: nat, k: int)
    requires
        -1 <= dr <= 1,
        -1 <= dc <= 1,
        0 <= k < fuel,
        clear_run(b, r, c, dr, dc, k),
        in_board(pos(r, dr, k), pos(c, dc, k)),
        b[pos(r, dr, k)][pos(c, dc, k)] is Some,
    ensures
        first_on_ray(b, r, c, dr, dc, fuel) == b[pos(r, dr, k)][pos(c, dc, k)],
    decreases fuel,
{
    if k > 0 {
        assert(vacant(b, pos(r, dr, 0), pos(c, dc, 0)));
        assert forall|j: int| 0 <= j < k - 1 implies #[trigger] vacant(
            b,
            pos(r + dr, dr, j),
            pos(c + dc, dc, j),
        ) by {
            assert(pos(r + dr, dr, j) == pos(r, dr, j + 1));
            assert(pos(c + dc, dc, j) == pos(c, dc, j + 1));
            assert(vacant(b, pos(r, dr, j + 1), pos(c, dc, j + 1)));
        }
        assert(pos(r + dr, dr, k - 1) == pos(r, dr, k));
        assert(pos(c + dc, dc, k - 1) == pos(c, dc, k));
        lemma_first_from_run(b, r + dr, c + dc, dr, dc, (fuel - 1) as nat, k - 1);
    }
}

/// A square on a sliding ray stands after a run of empty squares.
pub(crate) proof fn lemma_ray_hit(
    b: Board,
    r: int,
    c: int,
    dr: int,
    dc: int,
    color: PieceColor,
    fuel: nat,
    tr: int,
    tc: int,
) -> (k: int)
    requires
        -1 <= dr <= 1,
        -1 <= dc <= 1,
        in_board(tr, tc),
        ray(b, r, c, dr, dc, color, fuel).contains(sq(tr, tc)),
    ensures
        0 <= k < fuel,
        pos(r, dr, k) == tr,
        pos(c, dc, k) == tc,
        clear_run(b, r, c, dr, dc, k),
    decreases fuel,
{
    let s = ray(b, r, c, dr, dc, color, fuel);
    let i = choose|i: int| 0 <= i < s.len() && s[i] == sq(tr, tc);
    if b[r][c] is None && i > 0 {
        let rest = ray(b, r + dr, c + dc, dr, dc, color, (fuel - 1) as nat);
        assert(s == seq![sq(r, c)] + rest);
        assert(rest[i - 1] == sq(tr, tc));
        let k1 = lemma_ray_hit(b, r + dr, c + dc, dr, dc, color, (fuel - 1) as nat, tr, tc);
        assert forall|j: int| 0 <= j < k1 + 1 implies #[trigger] vacant(
            b,
            pos(r, dr, j),
            pos(c, dc, j),
        ) by {
            if j > 0 {
                assert(pos(r + dr, dr, j - 1) == pos(r, dr, j));
                assert(pos(c + dc, dc, j - 1) == pos(c, dc, j));
                assert(vacant(b, pos(r + dr, dr, j - 1), pos(c + dc, dc, j - 1)));
            }
        }
        assert(pos(r + dr, dr, k1) == pos(r, dr, k1 + 1));
        assert(pos(c + dc, dc, k1) == pos(c, dc, k1 + 1));
        k1 + 1
    } else {
        assert(s[0] == sq(r, c));
        0
    }
}

/// An enemy after a run of empty squares is reached by the sliding ray.
pub(crate) proof fn lemma_ray_reaches(
    b: Board,
    r: int,
    c: int,
    dr: int,
    dc: int,
    color: PieceColor,
    fuel: nat,
    k: int,
)
    requires
        -1 <= dr <= 1,
        -1 <= dc <= 1,
        0 <= k < fuel,
        clear_run(b, r, c, dr, dc, k),
        in_board(pos(r, dr, k), pos(c, dc, k)),
        holds_enemy(b, color, pos(r, dr, k), pos(c, dc, k)),
    ensures
        ray(b, r, c, dr, dc, color, fuel).contains(sq(pos(r, dr, k), pos(c, dc, k))),
    decreases fuel,
{
    let s = ray(b, r, c, dr, dc, color, fuel);
    if k == 0 {
        assert(s[0] == sq(r, c));
    } else {
        assert(vacant(b, pos(r, dr, 0), pos(c, dc, 0)));
        assert forall|j: int| 0 <= j < k - 1 implies #[trigger] vacant(
            b,
            pos(r + dr, dr, j),
            pos(c + dc, dc, j),
        ) by {
            assert(pos(r + dr, dr, j) == pos(r, dr, j + 1));
            assert(pos(c + dc, dc, j) == pos(c, dc, j + 1));
            assert(vacant(b, pos(r, dr, j + 1), pos(c, dc, j + 1)));
        }
        assert(pos(r + dr, dr, k - 1) == pos(r, dr, k));
        assert(pos(c + dc, dc, k - 1) == pos(c, dc, k));
        lemma_ray_reaches(b, r + dr, c + dc, dr, dc, color, (fuel - 1) as nat, k - 1);
        let rest = ray(b, r + dr, c + dc, dr, dc, color, (fuel - 1) as nat);
        let t = sq(pos(r, dr, k), pos(c, dc, k));
        assert(s == seq![sq(r, c)] + rest);
        let i = choose|i: int| 0 <= i < rest.len() && rest[i] == t;
        assert(s[i + 1] == t);
    }
}

/// A square reached by sliding pieces is on the ray of one of the directions.
pub(crate) proof fn lemma_slide_hit(
    b: Board,
    r: int,
    c: int,
    color: PieceColor,
    dirs: Seq<(i32, i32)>,
    t: (usize, usize),
) -> (i: int)
    requires
        slide_targets(b, r, c, color, dirs).contains(t),
    ensures
        0 <= i < dirs.len(),
        ray(b, r + dirs[i].0, c + dirs[i].1, dirs[i].0 as int, dirs[i].1 as int, color, 8).contains(
            t,
        ),
    decreases dirs.len(),
{
    let prev = slide_targets(b, r, c, color, dirs.drop_last());
    let d = dirs.last();
    let rr = ray(b, r + d.0, c + d.1, d.0 as int, d.1 as int, color, 8);
    let s = prev + rr;
    let j = choose|j: int| 0 <= j < s.len() && s[j] == t;
    if j < prev.len() {
        assert(prev[j] == t);
        let i = lemma_slide_hit(b, r, c, color, dirs.drop_last(), t);
        assert(dirs.drop_last()[i] == dirs[i]);
        i
    } else {
        assert(rr[j - prev.len()] == t);
        dirs.len() - 1
    }
}

/// A square on the ray of one of the directions is reached by sliding.
pub(crate) proof fn lemma_slide_has(
    b: Board,
    r: int,
    c: int,
    color: PieceColor,
    dirs: Seq<(i32, i32)>,
    i: int,
    t: (usize, usize),
)
    requires
        0 <= i < dirs.len(),
        ray(b, r + dirs[i].0, c + dirs[i].1, dirs[i].0 as int, dirs[i].1 as int, color, 8).contains(
            t,
        ),
    ensures
        slide_targets(b, r, c, color, dirs).contains(t),
    decreases dirs.len(),
{
    let prev = slide_targets(b, r, c, color, dirs.drop_last());
    let d = dirs.last();
    let rr = ray(b, r + d.0, c + d.1, d.0 as int, d.1 as int, color, 8);
    let s = prev + rr;
    if i == dirs.len() - 1 {
        let j = choose|j: int| 0 <= j < rr.len() && rr[j] == t;
        assert(s[prev.len() + j] == t);
    } else {
        assert(dirs.drop_last()[i] == dirs[i]);
        lemma_slide_has(b, r, c, color, dirs.drop_last(), i, t);
        let j = choose|j: int| 0 <= j < prev.len() && prev[j] == t;
        assert(s[j] == t);
    }
}

/// A square reached by a single step is one of the steps away.
pub(crate) proof fn lemma_step_hit(
    b: Board,
    r: int,
    c: int,
    color: PieceColor,
    offs: Seq<(i32, i32)>,
    tr: int,
    tc: int,
) -> (i: int)
    requires
        in_board(tr, tc),
        step_targets(b, r, c, color, offs).contains(sq(tr, tc)),
    ensures
        0 <= i < offs.len(),
        r + offs[i].0 == tr,
        c + offs[i].1 == tc,
    decreases offs.len(),
{
    let rest = step_targets(b, r, c, color, offs.drop_last());
    let o = offs.last();
    let s = step_targets(b, r, c, color, offs);
    let j = choose|j: int| 0 <= j < s.len() && s[j] == sq(tr, tc);
    if can_land(b, color, r + o.0, c + o.1) && j == rest.len() {
        offs.len() - 1
    } else {
        assert(rest[j] == sq(tr, tc));
        let i = lemma_step_hit(b, r, c, color, offs.drop_last(), tr, tc);
        assert(offs.drop_last()[i] == offs[i]);
        i
    }
}

/// A step onto a square the piece may land on is among its targets.
pub(crate) proof fn lemma_step_has(b: Board, r: int, c: int, color: PieceColor, offs: Seq<(i32, i32)>, i: int)
    requires
        0 <= i < offs.len(),
        can_land(b, color, r + offs[i].0, c + offs[i].1),
    ensures
        step_targets(b, r, c, color, offs).contains(sq(r + offs[i].0, c + offs[i].1)),
    decreases offs.len(),
{
    let rest = step_targets(b, r, c, color, offs.drop_last());
    let s = step_targets(b, r, c, color, offs);
    if i == offs.len() - 1 {
        assert(s[rest.len() as int] == sq(r + offs[i].0, c + offs[i].1));
    } else {
        assert(offs.drop_last()[i] == offs[i]);
        lemma_step_has(b, r, c, color, offs.drop_last(), i);
        let j = choose|j: int| 0 <= j < rest.len() && rest[j] == sq(r + offs[i].0, c + offs[i].1);
        assert(s[j] == rest[j]);
    }
}

/// The knight jumps and king steps come in opposite pairs, the `i`-th and the `(7 - i)`-th.
proof fn lemma_offsets_symmetric(i: int)
    requires
        0 <= i < 8,
    ensures
        knight_offsets().len() == 8,
        king_offsets().len() == 8,
        knight_offsets()[7 - i].0 == -knight_offsets()[i].0,
        knight_offsets()[7 - i].1 == -knight_offsets()[i].1,
        king_offsets()[7 - i].0 == -king_offsets()[i].0,
        king_offsets()[7 - i].1 == -king_offsets()[i].1,
{
}

/// The rook direction opposite to the `i`-th one of a list, in the other list.
pub open spec fn rook_partner(i: int) -> int {
    if i == 0 {
        2
    } else if i == 1 {
        3
    } else if i == 2 {
        0
    } else {
        1
    }
}

/// How the direction lists of the engine and of the match relate.
proof fn lemma_dir_tables(i: int)
    requires
        0 <= i < 4,
    ensures
        bishop_dirs().len() == 4,
        rook_dirs().len() == 4,
        game_bishop_dirs().len() == 4,
        game_rook_dirs().len() == 4,
        queen_dirs().len() == 8,
        game_bishop_dirs()[i].0 == -bishop_dirs()[i].0,
        game_bishop_dirs()[i].1 == -bishop_dirs()[i].1,
        game_rook_dirs()[rook_partner(i)].0 == -rook_dirs()[i].0,
        game_rook_dirs()[rook_partner(i)].1 == -rook_dirs()[i].1,
        rook_dirs()[rook_partner(i)].0 == -game_rook_dirs()[i].0,
        rook_dirs()[rook_partner(i)].1 == -game_rook_dirs()[i].1,
        0 <= rook_partner(i) < 4,
        queen_dirs()[i] == bishop_dirs()[i],
        queen_dirs()[i + 4] == rook_dirs()[i],
        -1 <= bishop_dirs()[i].0 <= 1 && -1 <= bishop_dirs()[i].1 <= 1,
        -1 <= rook_dirs()[i].0 <= 1 && -1 <= rook_dirs()[i].1 <= 1,
        -1 <= game_bishop_dirs()[i].0 <= 1 && -1 <= game_bishop_dirs()[i].1 <= 1,
        -1 <= game_rook_dirs()[i].0 <= 1 && -1 <= game_rook_dirs()[i].1 <= 1,
{
}

/// From a king, the first piece met in direction `d` reaches the king by sliding back in
/// direction `e`, the opposite of `d`.
proof fn lemma_threat_to_attack(
    b: Board,
    kr: int,
    kc: int,
    color: PieceColor,
    d: (i32, i32),
    e: (i32, i32),
) -> (at: (int, int))
    requires
        in_board(kr, kc),
        is_king_of(b, color, kr, kc),
        -1 <= d.0 <= 1,
        -1 <= d.1 <= 1,
        e.0 == -d.0,
        e.1 == -d.1,
        first_on_ray(b, kr + d.0, kc + d.1, d.0 as int, d.1 as int, 8) matches Some(p) && p.color
            != color,
    ensures
        in_board(at.0, at.1),
        b[at.0][at.1] == first_on_ray(b, kr + d.0, kc + d.1, d.0 as int, d.1 as int, 8),
        ray(b, at.0 + e.0, at.1 + e.1, e.0 as int, e.1 as int, b[at.0][at.1]->0.color, 8).contains(
            sq(kr, kc),
        ),
{
    let d0 = d.0 as int;
    let d1 = d.1 as int;
    let e0 = e.0 as int;
    let e1 = e.1 as int;
    let k = lemma_first_hit(b, kr + d0, kc + d1, d0, d1, 8);
    let pr = pos(kr + d0, d0, k);
    let pc = pos(kc + d1, d1, k);
    let p = b[pr][pc]->0;
    assert forall|j: int| 0 <= j < k implies #[trigger] vacant(
        b,
        pos(pr + e0, e0, j),
        pos(pc + e1, e1, j),
    ) by {
        assert(pos(pr + e0, e0, j) == pos(kr + d0, d0, k - 1 - j));
        assert(pos(pc + e1, e1, j) == pos(kc + d1, d1, k - 1 - j));
        assert(vacant(b, pos(kr + d0, d0, k - 1 - j), pos(kc + d1, d1, k - 1 - j)));
    }
    assert(pos(pr + e0, e0, k) == kr);
    assert(pos(pc + e1, e1, k) == kc);
    assert(holds_enemy(b, p.color, kr, kc));
    lemma_ray_reaches(b, pr + e0, pc + e1, e0, e1, p.color, 8, k);
    (pr, pc)
}

/// A piece on `(row, col)` sliding in direction `e` onto the king is the first piece met
/// from the king in the opposite direction `d`.
proof fn lemma_attack_to_threat(
    b: Board,
    kr: int,
    kc: int,
    row: int,
    col: int,
    e: (i32, i32),
    d: (i32, i32),
    color: PieceColor,
)
    requires
        in_board(row, col),
        b[row][col] is Some,
        in_board(kr, kc),
        -1 <= e.0 <= 1,
        -1 <= e.1 <= 1,
        d.0 == -e.0,
        d.1 == -e.1,
        ray(b, row + e.0, col + e.1, e.0 as int, e.1 as int, color, 8).contains(sq(kr, kc)),
    ensures
        first_on_ray(b, kr + d.0, kc + d.1, d.0 as int, d.1 as int, 8) == b[row][col],
{
    let d0 = d.0 as int;
    let d1 = d.1 as int;
    let e0 = e.0 as int;
    let e1 = e.1 as int;
    let k = lemma_ray_hit(b, row + e0, col + e1, e0, e1, color, 8, kr, kc);
    assert forall|j: int| 0 <= j < k implies #[trigger] vacant(
        b,
        pos(kr + d0, d0, j),
        pos(kc + d1, d1, j),
    ) by {
        assert(pos(kr + d0, d0, j) == pos(row + e0, e0, k - 1 - j));
        assert(pos(kc + d1, d1, j) == pos(col + e1, e1, k - 1 - j));
        assert(vacant(b, pos(row + e0, e0, k - 1 - j), pos(col + e1, e1, k - 1 - j)));
    }
    assert(pos(kr + d0, d0, k) == row);
    assert(pos(kc + d1, d1, k) == col);
    lemma_first_from_run(b, kr + d0, kc + d1, d0, d1, 8, k);
}


/// An enemy piece attacking a king's square threatens the king as the match sees it.
proof fn lemma_attacked_implies_threat(b: Board, kr: int, kc: int, color: PieceColor)
    requires
        in_board(kr, kc),
        is_king_of(b, color, kr, kc),
        square_attacked(b, kr, kc, spec_opposite(color)),
    ensures
        rays_threat(b, kr, kc, color),
{
    let att = spec_opposite(color);
    let (row, col) = choose|row: int, col: int|
        in_board(row, col) && #[trigger] attacks_from(b, row, col, kr, kc, att);
    let p = b[row][col]->0;
    assert(p.color == att && p.color != color);
    let t = sq(kr, kc);
    match p.piece_type {
        PieceType::Pawn => {
            if kc == col - 1 {
                assert(enemy_at(b, color, kr + pawn_dir(color), kc + 1, PieceType::Pawn));
            } else {
                assert(enemy_at(b, color, kr + pawn_dir(color), kc - 1, PieceType::Pawn));
            }
        },
        PieceType::Knight => {
            let i = lemma_step_hit(b, row, col, att, knight_offsets(), kr, kc);
            lemma_offsets_symmetric(i);
            let o = knight_offsets()[7 - i];
            assert(enemy_at(b, color, kr + o.0, kc + o.1, PieceType::Knight));
            assert(step_threat(b, kr, kc, color, knight_offsets(), PieceType::Knight));
        },
        PieceType::King => {
            let i = lemma_step_hit(b, row, col, att, king_offsets(), kr, kc);
            lemma_offsets_symmetric(i);
            let o = king_offsets()[7 - i];
            assert(enemy_at(b, color, kr + o.0, kc + o.1, PieceType::King));
            assert(step_threat(b, kr, kc, color, king_offsets(), PieceType::King));
        },
        PieceType::Bishop => {
            let i = lemma_slide_hit(b, row, col, att, bishop_dirs(), t);
            lemma_dir_tables(i);
            lemma_attack_to_threat(b, kr, kc, row, col, bishop_dirs()[i], game_bishop_dirs()[i], att);
            assert(ray_threat(b, kr, kc, game_bishop_dirs()[i], color, PieceType::Bishop));
        },
        PieceType::Rook => {
            let i = lemma_slide_hit(b, row, col, att, rook_dirs(), t);
            lemma_dir_tables(i);
            let j = rook_partner(i);
            lemma_attack_to_threat(b, kr, kc, row, col, rook_dirs()[i], game_rook_dirs()[j], att);
            assert(ray_threat(b, kr, kc, game_rook_dirs()[j], color, PieceType::Rook));
        },
        PieceType::Queen => {
            let i = lemma_slide_hit(b, row, col, att, queen_dirs(), t);
            if i < 4 {
                lemma_dir_tables(i);
                lemma_attack_to_threat(b, kr, kc, row, col, queen_dirs()[i], game_bishop_dirs()[i], att);
                assert(ray_threat(b, kr, kc, game_bishop_dirs()[i], color, PieceType::Bishop));
            } else {
                lemma_dir_tables(i - 4);
                let j = rook_partner(i - 4);
                lemma_attack_to_threat(b, kr, kc, row, col, queen_dirs()[i], game_rook_dirs()[j], att);
                assert(ray_threat(b, kr, kc, game_rook_dirs()[j], color, PieceType::Rook));
            }
        },
    }
}

/// A threat to a king, as the match sees it, comes from an enemy piece attacking its square.
proof fn lemma_threat_implies_attacked(b: Board, kr: int, kc: int, color: PieceColor)
    requires
        in_board(kr, kc),
        is_king_of(b, color, kr, kc),
        rays_threat(b, kr, kc, color),
    ensures
        square_attacked(b, kr, kc, spec_opposite(color)),
{
    let att = spec_opposite(color);
    let t = sq(kr, kc);
    if slide_threat(b, kr, kc, color, game_rook_dirs(), PieceType::Rook) {
        let i = choose|i: int|
            0 <= i < game_rook_dirs().len() && #[trigger] ray_threat(
                b,
                kr,
                kc,
                game_rook_dirs()[i],
                color,
                PieceType::Rook,
            );
        lemma_dir_tables(i);
        let j = rook_partner(i);
        lemma_dir_tables(j);
        let at = lemma_threat_to_attack(b, kr, kc, color, game_rook_dirs()[i], rook_dirs()[j]);
        let p = b[at.0][at.1]->0;
        if p.piece_type == PieceType::Rook {
            lemma_slide_has(b, at.0, at.1, p.color, rook_dirs(), j, t);
        } else {
            lemma_slide_has(b, at.0, at.1, p.color, queen_dirs(), j + 4, t);
        }
        assert(attacks_from(b, at.0, at.1, kr, kc, att));
    } else if slide_threat(b, kr, kc, color, game_bishop_dirs(), PieceType::Bishop) {
        let i = choose|i: int|
            0 <= i < game_bishop_dirs().len() && #[trigger] ray_threat(
                b,
                kr,
                kc,
                game_bishop_dirs()[i],
                color,
                PieceType::Bishop,
            );
        lemma_dir_tables(i);
        let at = lemma_threat_to_attack(b, kr, kc, color, game_bishop_dirs()[i], bishop_dirs()[i]);
        let p = b[at.0][at.1]->0;
        if p.piece_type == PieceType::Bishop {
            lemma_slide_has(b, at.0, at.1, p.color, bishop_dirs(), i, t);
        } else {
            lemma_slide_has(b, at.0, at.1, p.color, queen_dirs(), i, t);
        }
        assert(attacks_from(b, at.0, at.1, kr, kc, att));
    } else if step_threat(b, kr, kc, color, knight_offsets(), PieceType::Knight) {
        let i = choose|i: int|
            0 <= i < knight_offsets().len() && #[trigger] enemy_at(
                b,
                color,
                kr + knight_offsets()[i].0,
                kc + knight_offsets()[i].1,
                PieceType::Knight,
            );
        lemma_offsets_symmetric(i);
        let pr = kr + knight_offsets()[i].0;
        let pc = kc + knight_offsets()[i].1;
        let p = b[pr][pc]->0;
        assert(pr + knight_offsets()[7 - i].0 == kr);
        assert(pc + knight_offsets()[7 - i].1 == kc);
        assert(holds_enemy(b, p.color, kr, kc));
        lemma_step_has(b, pr, pc, p.color, knight_offsets(), 7 - i);
        assert(attacks_from(b, pr, pc, kr, kc, att));
    } else if step_threat(b, kr, kc, color, king_offsets(), PieceType::King) {
        let i = choose|i: int|
            0 <= i < king_offsets().len() && #[trigger] enemy_at(
                b,
                color,
                kr + king_offsets()[i].0,
                kc + king_offsets()[i].1,
                PieceType::King,
            );
        lemma_offsets_symmetric(i);
        let pr = kr + king_offsets()[i].0;
        let pc = kc + king_offsets()[i].1;
        let p = b[pr][pc]->0;
        assert(pr + king_offsets()[7 - i].0 == kr);
        assert(pc + king_offsets()[7 - i].1 == kc);
        assert(holds_enemy(b, p.color, kr, kc));
        lemma_step_has(b, pr, pc, p.color, king_offsets(), 7 - i);
        assert(attacks_from(b, pr, pc, kr, kc, att));
    } else if enemy_at(b, color, kr + pawn_dir(color), kc - 1, PieceType::Pawn) {
        assert(attacks_from(b, kr + pawn_dir(color), kc - 1, kr, kc, att));
    } else {
        assert(attacks_from(b, kr + pawn_dir(color), kc + 1, kr, kc, att));
    }
}

/// The engine and the match always agree on whether the king of `color` is in check: an
/// enemy piece could move onto the king's square exactly when, looking outwards from the
/// king, an enemy rook, bishop, queen, knight, pawn or king threatens it.
pub proof fn lemma_check_tests_agree(b: Board, color: PieceColor)
    ensures
        king_in_check(b, color) == game_king_in_check(b, color),
{
    let att = spec_opposite(color);
    if king_in_check(b, color) {
        let (r, c) = choose|r: int, c: int|
            #[trigger] king_found_at(b, color, r, c) && square_attacked(b, r, c, att);
        lemma_attacked_implies_threat(b, r, c, color);
        assert(king_found_at(b, color, r, c) && rays_threat(b, r, c, color));
    }
    if game_king_in_check(b, color) {
        let (r, c) = choose|r: int, c: int|
            #[trigger] king_found_at(b, color, r, c) && rays_threat(b, r, c, color);
        lemma_threat_implies_attacked(b, r, c, color);
        assert(king_found_at(b, color, r, c) && square_attacked(b, r, c, att));
    }
}


/// The engine's and the match's direction lists hold the same directions.
proof fn lemma_same_dirs(i: int)
    requires
        0 <= i < 4,
    ensures
        rook_dirs().len() == 4,
        bishop_dirs().len() == 4,
        game_rook_dirs().len() == 4,
        game_bishop_dirs().len() == 4,
        queen_dirs().len() == 8,
        game_queen_dirs().len() == 8,
        rook_dirs()[i] == game_rook_dirs()[3 - i],
        bishop_dirs()[i] == game_bishop_dirs()[3 - i],
        queen_dirs()[i] == bishop_dirs()[i],
        queen_dirs()[i + 4] == rook_dirs()[i],
        game_queen_dirs()[i] == game_rook_dirs()[i],
        game_queen_dirs()[i + 4] == game_bishop_dirs()[i],
{
}

/// A piece reaches the same squares whether the engine or the match lists them.
proof fn lemma_pseudo_targets_agree(b: Board, r: int, c: int, p: Piece, t: (usize, usize))
    ensures
        pseudo_targets(b, r, c, p).contains(t) <==> game_pseudo_targets(b, r, c, p).contains(t),
{
    let color = p.color;
    match p.piece_type {
        PieceType::Bishop => {
            if pseudo_targets(b, r, c, p).contains(t) {
                let i = lemma_slide_hit(b, r, c, color, bishop_dirs(), t);
                lemma_same_dirs(i);
                lemma_slide_has(b, r, c, color, game_bishop_dirs(), 3 - i, t);
            }
            if game_pseudo_targets(b, r, c, p).contains(t) {
                let i = lemma_slide_hit(b, r, c, color, game_bishop_dirs(), t);
                lemma_same_dirs(3 - i);
                lemma_slide_has(b, r, c, color, bishop_dirs(), 3 - i, t);
            }
        },
        PieceType::Rook => {
            if pseudo_targets(b, r, c, p).contains(t) {
                let i = lemma_slide_hit(b, r, c, color, rook_dirs(), t);
                lemma_same_dirs(i);
                lemma_slide_has(b, r, c, color, game_rook_dirs(), 3 - i, t);
            }
            if game_pseudo_targets(b, r, c, p).contains(t) {
                let i = lemma_slide_hit(b, r, c, color, game_rook_dirs(), t);
                lemma_same_dirs(3 - i);
                lemma_slide_has(b, r, c, color, rook_dirs(), 3 - i, t);
            }
        },
        PieceType::Queen => {
            if pseudo_targets(b, r, c, p).contains(t) {
                let i = lemma_slide_hit(b, r, c, color, queen_dirs(), t);
                if i < 4 {
                    lemma_same_dirs(i);
                    lemma_same_dirs(3 - i);
                    lemma_slide_has(b, r, c, color, game_queen_dirs(), 7 - i, t);
                } else {
                    lemma_same_dirs(i - 4);
                    lemma_same_dirs(7 - i);
                    lemma_slide_has(b, r, c, color, game_queen_dirs(), 7 - i, t);
                }
            }
            if game_pseudo_targets(b, r, c, p).contains(t) {
                let i = lemma_slide_hit(b, r, c, color, game_queen_dirs(), t);
                if i < 4 {
                    lemma_same_dirs(i);
                    lemma_same_dirs(3 - i);
                    lemma_slide_has(b, r, c, color, queen_dirs(), 7 - i, t);
                } else {
                    lemma_same_dirs(i - 4);
                    lemma_same_dirs(7 - i);
                    lemma_slide_has(b, r, c, color, queen_dirs(), 7 - i, t);
                }
            }
        },
        _ => {},
    }
}

/// The side of the piece on `(r, c)`, if any.
pub open spec fn color_at(b: Board, r: int, c: int) -> Option<PieceColor> {
    match b[r][c] {
        Some(p) => Some(p.color),
        None => None,
    }
}

/// Both boards have the same squares occupied, by pieces of the same sides.
pub open spec fn same_colors(b1: Board, b2: Board) -> bool {
    forall|r: int, c: int| in_board(r, c) ==> #[trigger] color_at(b1, r, c) == color_at(b2, r, c)
}

proof fn lemma_ray_same(
    b1: Board,
    b2: Board,
    r: int,
    c: int,
    dr: int,
    dc: int,
    color: PieceColor,
    fuel: nat,
)
    requires
        same_colors(b1, b2),
    ensures
        ray(b1, r, c, dr, dc, color, fuel) == ray(b2, r, c, dr, dc, color, fuel),
    decreases fuel,
{
    if fuel > 0 && in_board(r, c) {
        assert(color_at(b1, r, c) == color_at(b2, r, c));
        lemma_ray_same(b1, b2, r + dr, c + dc, dr, dc, color, (fuel - 1) as nat);
    }
}

proof fn lemma_slide_same(
    b1: Board,
    b2: Board,
    r: int,
    c: int,
    color: PieceColor,
    dirs: Seq<(i32, i32)>,
)
    requires
        same_colors(b1, b2),
    ensures
        slide_targets(b1, r, c, color, dirs) == slide_targets(b2, r, c, color, dirs),
    decreases dirs.len(),
{
    if dirs.len() > 0 {
        let d = dirs.last();
        lemma_slide_same(b1, b2, r, c, color, dirs.drop_last());
        lemma_ray_same(b1, b2, r + d.0, c + d.1, d.0 as int, d.1 as int, color, 8);
    }
}

proof fn lemma_step_same(
    b1: Board,
    b2: Board,
    r: int,
    c: int,
    color: PieceColor,
    offs: Seq<(i32, i32)>,
)
    requires
        same_colors(b1, b2),
    ensures
        step_targets(b1, r, c, color, offs) == step_targets(b2, r, c, color, offs),
    decreases offs.len(),
{
    if offs.len() > 0 {
        let o = offs.last();
        lemma_step_same(b1, b2, r, c, color, offs.drop_last());
        if in_board(r + o.0, c + o.1) {
            assert(color_at(b1, r + o.0, c + o.1) == color_at(b2, r + o.0, c + o.1));
        }
    }
}

/// What a piece may move to depends only on which squares are occupied and by which side.
proof fn lemma_pseudo_same(b1: Board, b2: Board, r: int, c: int, p: Piece)
    requires
        same_colors(b1, b2),
    ensures
        pseudo_targets(b1, r, c, p) == pseudo_targets(b2, r, c, p),
{
    match p.piece_type {
        PieceType::Pawn => {
            let r1 = r + pawn_dir(p.color);
            let r2 = r + 2 * pawn_dir(p.color);
            if in_board(r1, c) {
                assert(color_at(b1, r1, c) == color_at(b2, r1, c));
            }
            if in_board(r2, c) {
                assert(color_at(b1, r2, c) == color_at(b2, r2, c));
            }
            if in_board(r1, c - 1) {
                assert(color_at(b1, r1, c - 1) == color_at(b2, r1, c - 1));
            }
            if in_board(r1, c + 1) {
                assert(color_at(b1, r1, c + 1) == color_at(b2, r1, c + 1));
            }
            assert(pawn_targets(b1, r, c, p.color) == pawn_targets(b2, r, c, p.color));
        },
        PieceType::Knight => lemma_step_same(b1, b2, r, c, p.color, knight_offsets()),
        PieceType::King => lemma_step_same(b1, b2, r, c, p.color, king_offsets()),
        PieceType::Bishop => lemma_slide_same(b1, b2, r, c, p.color, bishop_dirs()),
        PieceType::Rook => lemma_slide_same(b1, b2, r, c, p.color, rook_dirs()),
        PieceType::Queen => lemma_slide_same(b1, b2, r, c, p.color, queen_dirs()),
    }
}

/// On `(r, c)` the two boards hold the same thing, or both hold a piece of `color` that is
/// not a king.
pub open spec fn twin_square(b1: Board, b2: Board, color: PieceColor, r: int, c: int) -> bool {
    ||| b1[r][c] == b2[r][c]
    ||| b1[r][c] matches Some(p1) && b2[r][c] matches Some(p2) && p1.color == color && p2.color
        == color && p1.piece_type != PieceType::King && p2.piece_type != PieceType::King
}

/// The boards differ at most in the kind of some non-king pieces of `color`.
pub open spec fn alike_for(b1: Board, b2: Board, color: PieceColor) -> bool {
    forall|r: int, c: int| in_board(r, c) ==> #[trigger] twin_square(b1, b2, color, r, c)
}

proof fn lemma_alike_symmetric(b1: Board, b2: Board, color: PieceColor)
    requires
        alike_for(b1, b2, color),
    ensures
        alike_for(b2, b1, color),
        same_colors(b1, b2),
{
    assert forall|r: int, c: int| in_board(r, c) implies #[trigger] twin_square(b2, b1, color, r, c) by {
        assert(twin_square(b1, b2, color, r, c));
    }
    assert forall|r: int, c: int| in_board(r, c) implies #[trigger] color_at(b1, r, c) == color_at(
        b2,
        r,
        c,
    ) by {
        assert(twin_square(b1, b2, color, r, c));
    }
}

proof fn lemma_alike_kings(b1: Board, b2: Board, color: PieceColor, r: int, c: int)
    requires
        alike_for(b1, b2, color),
        king_found_at(b1, color, r, c),
    ensures
        king_found_at(b2, color, r, c),
{
    assert(twin_square(b1, b2, color, r, c));
    assert forall|c2: int| 0 <= c2 < c implies !#[trigger] is_king_of(b2, color, r, c2) by {
        assert(twin_square(b1, b2, color, r, c2));
        assert(!is_king_of(b1, color, r, c2));
    }
    assert forall|r2: int| r < r2 < 8 implies !#[trigger] row_has_king(b2, color, r2) by {
        assert(!row_has_king(b1, color, r2));
        if row_has_king(b2, color, r2) {
            let c2 = choose|c2: int| 0 <= c2 < 8 && #[trigger] is_king_of(b2, color, r2, c2);
            assert(twin_square(b1, b2, color, r2, c2));
            assert(is_king_of(b1, color, r2, c2));
        }
    }
}

proof fn lemma_alike_attacked(b1: Board, b2: Board, color: PieceColor, tr: int, tc: int)
    requires
        alike_for(b1, b2, color),
        square_attacked(b1, tr, tc, spec_opposite(color)),
    ensures
        square_attacked(b2, tr, tc, spec_opposite(color)),
{
    let att = spec_opposite(color);
    lemma_alike_symmetric(b1, b2, color);
    let (row, col) = choose|row: int, col: int|
        in_board(row, col) && #[trigger] attacks_from(b1, row, col, tr, tc, att);
    assert(twin_square(b1, b2, color, row, col));
    let p = b1[row][col]->0;
    lemma_pseudo_same(b1, b2, row, col, p);
    assert(attacks_from(b2, row, col, tr, tc, att));
}

/// Boards that differ at most in the kind of some non-king pieces of `color` agree on
/// whether the king of `color` is in check.
proof fn lemma_alike_check(b1: Board, b2: Board, color: PieceColor)
    requires
        alike_for(b1, b2, color),
    ensures
        king_in_check(b1, color) == king_in_check(b2, color),
{
    let att = spec_opposite(color);
    lemma_alike_symmetric(b1, b2, color);
    if king_in_check(b1, color) {
        let (r, c) = choose|r: int, c: int|
            #[trigger] king_found_at(b1, color, r, c) && square_attacked(b1, r, c, att);
        lemma_alike_kings(b1, b2, color, r, c);
        lemma_alike_attacked(b1, b2, color, r, c);
        assert(king_found_at(b2, color, r, c) && square_attacked(b2, r, c, att));
    }
    if king_in_check(b2, color) {
        let (r, c) = choose|r: int, c: int|
            #[trigger] king_found_at(b2, color, r, c) && square_attacked(b2, r, c, att);
        lemma_alike_kings(b2, b1, color, r, c);
        lemma_alike_attacked(b2, b1, color, r, c);
        assert(king_found_at(b1, color, r, c) && square_attacked(b1, r, c, att));
    }
}

/// The engine's board after a move (with promotion) and the match's trial board (without)
/// differ at most in the kind of the moved piece.
proof fn lemma_move_boards_alike(b: Board, m: AiMove, p: Piece)
    requires
        move_on_board(m),
        b[m.from_row as int][m.from_col as int] == Some(p),
    ensures
        alike_for(
            apply_move(b, m),
            simulate(b, m.from_row as int, m.from_col as int, p, m.to_row as int, m.to_col as int),
            p.color,
        ),
{
    let fr = m.from_row as int;
    let fc = m.from_col as int;
    let tr = m.to_row as int;
    let tc = m.to_col as int;
    let b1 = set_square(b, tr, tc, Some(promoted(p, tr)));
    let b2 = set_square(b, tr, tc, Some(p));
    lemma_set_square(b, tr, tc, Some(promoted(p, tr)));
    lemma_set_square(b1, fr, fc, None);
    lemma_set_square(b, tr, tc, Some(p));
    lemma_set_square(b2, fr, fc, None);
    let e = apply_move(b, m);
    let g = simulate(b, fr, fc, p, tr, tc);
    assert forall|r: int, c: int| in_board(r, c) implies #[trigger] twin_square(e, g, p.color, r, c) by {
        assert(e[r][c] == set_square(b1, fr, fc, None)[r][c]);
        assert(g[r][c] == set_square(b2, fr, fc, None)[r][c]);
    }
}

/// The engine and the match offer a side the same legal moves: a move is among the engine's
/// legal moves exactly when the match lists it (each lists them in its own order).
pub proof fn lemma_engine_and_match_moves_agree(b: Board, color: PieceColor, m: AiMove)
    ensures
        legal_moves(b, color).contains(m) <==> game_legal_moves(b, color).contains(m),
{
    lemma_legal_moves_are_the_safe_moves(b, color, m);
    lemma_game_legal_moves_are_the_safe_moves(b, color, m);
    let fr = m.from_row as int;
    let fc = m.from_col as int;
    if move_on_board(m) {
        if let Some(p) = b[fr][fc] {
            let sim = simulate(b, fr, fc, p, m.to_row as int, m.to_col as int);
            lemma_pseudo_targets_agree(b, fr, fc, p, (m.to_row, m.to_col));
            lemma_move_boards_alike(b, m, p);
            lemma_alike_check(apply_move(b, m), sim, p.color);
            lemma_check_tests_agree(sim, p.color);
        }
    }
}


/// Each of `dirs` is one of the eight king steps, and no direction is listed twice.
pub open spec fn proper_dirs(dirs: Seq<(i32, i32)>) -> bool {
    &&& forall|i: int| 0 <= i < dirs.len() ==> unit_direction(#[trigger] dirs[i])
    &&& forall|i: int, j: int|
        0 <= i < dirs.len() && 0 <= j < dirs.len() && i != j ==> #[trigger] dirs[i] != #[trigger] dirs[j]
}

/// None of `offs` is the null step, and no step is listed twice.
pub open spec fn proper_offsets(offs: Seq<(i32, i32)>) -> bool {
    &&& forall|i: int| 0 <= i < offs.len() ==> #[trigger] offs[i] != (0i32, 0i32)
    &&& forall|i: int, j: int|
        0 <= i < offs.len() && 0 <= j < offs.len() && i != j ==> #[trigger] offs[i] != #[trigger] offs[j]
}

pub(crate) proof fn lemma_tables_proper()
    ensures
        proper_dirs(bishop_dirs()),
        proper_dirs(rook_dirs()),
        proper_dirs(queen_dirs()),
        proper_dirs(game_bishop_dirs()),
        proper_dirs(game_rook_dirs()),
        proper_dirs(game_queen_dirs()),
        proper_offsets(knight_offsets()),
        proper_offsets(king_offsets()),
{
    assert(queen_dirs() =~= seq![(-1i32, -1i32), (-1i32, 1i32), (1i32, -1i32), (1i32, 1i32), (-1i32, 0i32), (1i32, 0i32), (0i32, -1i32), (0i32, 1i32)]);
    assert(game_queen_dirs() =~= seq![(0i32, 1i32), (0i32, -1i32), (1i32, 0i32), (-1i32, 0i32), (1i32, 1i32), (1i32, -1i32), (-1i32, 1i32), (-1i32, -1i32)]);
}


/// Two sliding rays from the same square meet only if they go the same way.
proof fn lemma_rays_meet(r: int, c: int, d0: int, d1: int, e0: int, e1: int, k1: int, k2: int)
    requires
        -1 <= d0 <= 1,
        -1 <= d1 <= 1,
        -1 <= e0 <= 1,
        -1 <= e1 <= 1,
        k1 >= 0,
        k2 >= 0,
        pos(r + d0, d0, k1) == pos(r + e0, e0, k2),
        pos(c + d1, d1, k1) == pos(c + e1, e1, k2),
    ensures
        d0 == e0,
        d1 == e1,
{
}

/// Every square on a sliding ray may be landed on.
pub(crate) proof fn lemma_ray_lands(
    b: Board,
    r: int,
    c: int,
    dr: int,
    dc: int,
    color: PieceColor,
    fuel: nat,
    t: (usize, usize),
)
    requires
        ray(b, r, c, dr, dc, color, fuel).contains(t),
    ensures
        t.0 < 8 && t.1 < 8,
        can_land(b, color, t.0 as int, t.1 as int),
    decreases fuel,
{
    let s = ray(b, r, c, dr, dc, color, fuel);
    let i = choose|i: int| 0 <= i < s.len() && s[i] == t;
    if b[r][c] is None && i > 0 {
        let rest = ray(b, r + dr, c + dc, dr, dc, color, (fuel - 1) as nat);
        assert(s == seq![sq(r, c)] + rest);
        assert(rest[i - 1] == t);
        lemma_ray_lands(b, r + dr, c + dc, dr, dc, color, (fuel - 1) as nat, t);
    } else {
        assert(s[0] == sq(r, c));
    }
}

/// A sliding ray lists no square twice.
proof fn lemma_ray_distinct(b: Board, r: int, c: int, dr: int, dc: int, color: PieceColor, fuel: nat)
    requires
        -1 <= dr <= 1,
        -1 <= dc <= 1,
        dr != 0 || dc != 0,
    ensures
        ray(b, r, c, dr, dc, color, fuel).no_duplicates(),
    decreases fuel,
{
    let s = ray(b, r, c, dr, dc, color, fuel);
    if fuel > 0 && in_board(r, c) && b[r][c] is None {
        let rest = ray(b, r + dr, c + dc, dr, dc, color, (fuel - 1) as nat);
        lemma_ray_distinct(b, r + dr, c + dc, dr, dc, color, (fuel - 1) as nat);
        assert(s == seq![sq(r, c)] + rest);
        if rest.contains(sq(r, c)) {
            let k = lemma_ray_hit(b, r + dr, c + dc, dr, dc, color, (fuel - 1) as nat, r, c);
        }
        assert forall|i: int, j: int| 0 <= i < s.len() && 0 <= j < s.len() && i != j implies s[i]
            != s[j] by {
            if i == 0 {
                assert(s[j] == rest[j - 1]);
            } else if j == 0 {
                assert(s[i] == rest[i - 1]);
            } else {
                assert(s[i] == rest[i - 1]);
                assert(s[j] == rest[j - 1]);
            }
        }
    }
}

/// Sliding along distinct directions lists no square twice, and only squares that may be
/// landed on and are not the start square.
pub(crate) proof fn lemma_slide_sound(b: Board, r: int, c: int, color: PieceColor, dirs: Seq<(i32, i32)>)
    requires
        in_board(r, c),
        proper_dirs(dirs),
    ensures
        slide_targets(b, r, c, color, dirs).no_duplicates(),
        forall|t: (usize, usize)| #[trigger] slide_targets(b, r, c, color, dirs).contains(t) ==> t
            != sq(r, c) && t.0 < 8 && t.1 < 8 && can_land(b, color, t.0 as int, t.1 as int),
    decreases dirs.len(),
{
    let s = slide_targets(b, r, c, color, dirs);
    assert forall|t: (usize, usize)| #[trigger] s.contains(t) implies t != sq(r, c) && t.0 < 8
        && t.1 < 8 && can_land(b, color, t.0 as int, t.1 as int) by {
        let i = lemma_slide_hit(b, r, c, color, dirs, t);
        let d = dirs[i];
        assert(unit_direction(d));
        lemma_ray_lands(b, r + d.0, c + d.1, d.0 as int, d.1 as int, color, 8, t);
        let k = lemma_ray_hit(b, r + d.0, c + d.1, d.0 as int, d.1 as int, color, 8, t.0 as int, t.1 as int);
    }
    if dirs.len() > 0 {
        let prev = dirs.drop_last();
        assert forall|i: int, j: int|
            0 <= i < prev.len() && 0 <= j < prev.len() && i != j implies #[trigger] prev[i]
            != #[trigger] prev[j] by {
            assert(dirs[i] != dirs[j]);
        }
        assert forall|i: int| 0 <= i < prev.len() implies unit_direction(#[trigger] prev[i]) by {
            assert(unit_direction(dirs[i]));
        }
        lemma_slide_sound(b, r, c, color, prev);
        let d = dirs.last();
        assert(unit_direction(dirs[dirs.len() - 1]));
        lemma_ray_distinct(b, r + d.0, c + d.1, d.0 as int, d.1 as int, color, 8);
        let a = slide_targets(b, r, c, color, prev);
        let rr = ray(b, r + d.0, c + d.1, d.0 as int, d.1 as int, color, 8);
        assert(s == a + rr);
        assert forall|x: (usize, usize)| a.contains(x) implies !rr.contains(x) by {
            if rr.contains(x) {
                let i = lemma_slide_hit(b, r, c, color, prev, x);
                let e = prev[i];
                assert(unit_direction(dirs[i]));
                lemma_ray_lands(b, r + d.0, c + d.1, d.0 as int, d.1 as int, color, 8, x);
                let k1 = lemma_ray_hit(b, r + e.0, c + e.1, e.0 as int, e.1 as int, color, 8, x.0 as int, x.1 as int);
                let k2 = lemma_ray_hit(b, r + d.0, c + d.1, d.0 as int, d.1 as int, color, 8, x.0 as int, x.1 as int);
                lemma_rays_meet(r, c, e.0 as int, e.1 as int, d.0 as int, d.1 as int, k1, k2);
                assert(dirs[i] == dirs[dirs.len() - 1]);
            }
        }
        assert forall|i: int, j: int| 0 <= i < s.len() && 0 <= j < s.len() && i != j implies s[i]
            != s[j] by {
            if i < a.len() && j < a.len() {
                assert(s[i] == a[i] && s[j] == a[j]);
            } else if i >= a.len() && j >= a.len() {
                assert(s[i] == rr[i - a.len()] && s[j] == rr[j - a.len()]);
            } else if i < a.len() {
                assert(s[i] == a[i] && s[j] == rr[j - a.len()]);
                assert(a.contains(a[i]));
            } else {
                assert(s[j] == a[j] && s[i] == rr[i - a.len()]);
                assert(a.contains(a[j]));
            }
        }
    }
}

/// Single steps by distinct non-null offsets list no square twice, and only squares that
/// may be landed on and are not the start square.
pub(crate) proof fn lemma_step_sound(b: Board, r: int, c: int, color: PieceColor, offs: Seq<(i32, i32)>)
    requires
        in_board(r, c),
        proper_offsets(offs),
    ensures
        step_targets(b, r, c, color, offs).no_duplicates(),
        forall|t: (usize, usize)| #[trigger] step_targets(b, r, c, color, offs).contains(t) ==> t
            != sq(r, c) && t.0 < 8 && t.1 < 8 && can_land(b, color, t.0 as int, t.1 as int),
    decreases offs.len(),
{
    let s = step_targets(b, r, c, color, offs);
    if offs.len() > 0 {
        let prev = offs.drop_last();
        assert forall|i: int, j: int|
            0 <= i < prev.len() && 0 <= j < prev.len() && i != j implies #[trigger] prev[i]
            != #[trigger] prev[j] by {
            assert(offs[i] != offs[j]);
        }
        assert forall|i: int| 0 <= i < prev.len() implies #[trigger] prev[i] != (0i32, 0i32) by {
            assert(offs[i] != (0i32, 0i32));
        }
        lemma_step_sound(b, r, c, color, prev);
        let rest = step_targets(b, r, c, color, prev);
        let o = offs.last();
        assert(offs[offs.len() - 1] != (0i32, 0i32));
        if can_land(b, color, r + o.0, c + o.1) {
            let x = sq(r + o.0, c + o.1);
            assert(s == rest.push(x));
            if rest.contains(x) {
                let i = lemma_step_hit(b, r, c, color, prev, r + o.0, c + o.1);
                assert(offs[i] == offs[offs.len() - 1]);
            }
            assert forall|i: int, j: int| 0 <= i < s.len() && 0 <= j < s.len() && i != j implies s[i]
                != s[j] by {
                if i == rest.len() {
                    assert(rest.contains(s[j]));
                } else if j == rest.len() {
                    assert(rest.contains(s[i]));
                }
            }
            assert forall|t: (usize, usize)| #[trigger] s.contains(t) implies t != sq(r, c) && t.0 < 8
                && t.1 < 8 && can_land(b, color, t.0 as int, t.1 as int) by {
                if t != x {
                    let j = choose|j: int| 0 <= j < s.len() && s[j] == t;
                    assert(rest[j] == t);
                    assert(rest.contains(t));
                }
            }
        } else {
            assert(s == rest);
        }
    }
}

/// The pawn's squares are distinct, may be landed on, and are not its own square.
proof fn lemma_pawn_sound(b: Board, r: int, c: int, color: PieceColor)
    requires
        in_board(r, c),
    ensures
        pawn_targets(b, r, c, color).no_duplicates(),
        forall|t: (usize, usize)| #[trigger] pawn_targets(b, r, c, color).contains(t) ==> t
            != sq(r, c) && t.0 < 8 && t.1 < 8 && can_land(b, color, t.0 as int, t.1 as int),
{
    let r1 = r + pawn_dir(color);
    let r2 = r + 2 * pawn_dir(color);
    let forward = if in_board(r1, c) && b[r1][c] is None {
        if r == pawn_start_row(color) && in_board(r2, c) && b[r2][c] is None {
            seq![sq(r1, c), sq(r2, c)]
        } else {
            seq![sq(r1, c)]
        }
    } else {
        seq![]
    };
    let left = pawn_capture_targets(b, r, c, color, -1);
    let right = pawn_capture_targets(b, r, c, color, 1);
    let s = pawn_targets(b, r, c, color);
    assert(s == forward + left + right);
    assert forall|i: int| 0 <= i < s.len() implies (s[i] == sq(r1, c) && in_board(r1, c) && b[r1][c]
        is None) || (s[i] == sq(r2, c) && in_board(r2, c) && b[r2][c] is None) || (s[i] == sq(
        r1,
        c - 1,
    ) && in_board(r1, c - 1) && holds_enemy(b, color, r1, c - 1) && left.len() == 1 && i
        == forward.len()) || (s[i] == sq(r1, c + 1) && in_board(r1, c + 1) && holds_enemy(
        b,
        color,
        r1,
        c + 1,
    ) && i == forward.len() + left.len()) by {
        if i < forward.len() {
            assert(s[i] == forward[i]);
        } else if i < forward.len() + left.len() {
            assert(s[i] == left[i - forward.len()]);
        } else {
            assert(s[i] == right[i - forward.len() - left.len()]);
        }
    }
    assert forall|i: int, j: int| 0 <= i < s.len() && 0 <= j < s.len() && i != j implies s[i]
        != s[j] by {
        if i < forward.len() && j < forward.len() {
            assert(s[i] == forward[i] && s[j] == forward[j]);
        }
    }
    assert forall|t: (usize, usize)| #[trigger] s.contains(t) implies t != sq(r, c) && t.0 < 8 && t.1
        < 8 && can_land(b, color, t.0 as int, t.1 as int) by {
        let i = choose|i: int| 0 <= i < s.len() && s[i] == t;
    }
}

/// Every square a piece may move to when check is not considered lies on the board, is not
/// the square the piece stands on, holds no piece of the piece's own side, and is listed
/// once; the engine and the match list the same squares (each in its own order).
pub proof fn lemma_pseudo_targets_sound(b: Board, r: int, c: int, p: Piece)
    requires
        in_board(r, c),
    ensures
        pseudo_targets(b, r, c, p).no_duplicates(),
        game_pseudo_targets(b, r, c, p).no_duplicates(),
        forall|t: (usize, usize)| #[trigger] pseudo_targets(b, r, c, p).contains(t) ==> t != sq(r, c)
            && t.0 < 8 && t.1 < 8 && can_land(b, p.color, t.0 as int, t.1 as int),
        forall|t: (usize, usize)|
            #[trigger] pseudo_targets(b, r, c, p).contains(t) <==> game_pseudo_targets(
                b,
                r,
                c,
                p,
            ).contains(t),
{
    lemma_tables_proper();
    let color = p.color;
    match p.piece_type {
        PieceType::Pawn => lemma_pawn_sound(b, r, c, color),
        PieceType::Knight => lemma_step_sound(b, r, c, color, knight_offsets()),
        PieceType::King => lemma_step_sound(b, r, c, color, king_offsets()),
        PieceType::Bishop => {
            lemma_slide_sound(b, r, c, color, bishop_dirs());
            lemma_slide_sound(b, r, c, color, game_bishop_dirs());
        },
        PieceType::Rook => {
            lemma_slide_sound(b, r, c, color, rook_dirs());
            lemma_slide_sound(b, r, c, color, game_rook_dirs());
        },
        PieceType::Queen => {
            lemma_slide_sound(b, r, c, color, queen_dirs());
            lemma_slide_sound(b, r, c, color, game_queen_dirs());
        },
    }
    assert forall|t: (usize, usize)|
        #[trigger] pseudo_targets(b, r, c, p).contains(t) <==> game_pseudo_targets(
            b,
            r,
            c,
            p,
        ).contains(t) by {
        lemma_pseudo_targets_agree(b, r, c, p, t);
    }
}

} // verus!
