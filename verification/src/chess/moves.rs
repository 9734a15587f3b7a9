//! The match's own move generation and check detection, and the rules they follow.
use vstd::prelude::*;

use super::ai::{find_king, lemma_square_index, king_moves, knight_moves, lemma_king_found_unique, pawn_moves, push_slides};
use super::board::{in_board, move_on_board, lemma_set_square, set_square, write_square, AiMove, Board};
use super::game::{ChessGame, GameView};
use super::piece::{Piece, PieceColor, PieceType};
use super::rules::{
    all_on_board, king_found_at, king_offsets, knight_offsets, lemma_targets_on_board, pawn_dir,
    pawn_targets, pseudo_targets, slide_targets, step_targets, unit_direction, is_king_of,
    lemma_slide_bounds, moves_on_board,
};

verus! {

/// Rook directions, in the order the match tries them.
pub open spec fn game_rook_dirs() -> Seq<(i32, i32)> {
    seq![(0i32, 1i32), (0i32, -1i32), (1i32, 0i32), (-1i32, 0i32)]
}

/// Bishop directions, in the order the match tries them.
pub open spec fn game_bishop_dirs() -> Seq<(i32, i32)> {
    seq![(1i32, 1i32), (1i32, -1i32), (-1i32, 1i32), (-1i32, -1i32)]
}

/// Queen directions, in the order the match tries them.
pub open spec fn game_queen_dirs() -> Seq<(i32, i32)> {
    game_rook_dirs() + game_bishop_dirs()
}

/// Squares the piece `p` on `(r, c)` may move to when check is not considered, in the
/// order the match lists them (sliding pieces try their directions in the match's order).
pub open spec fn game_pseudo_targets(b: Board, r: int, c: int, p: Piece) -> Seq<(usize, usize)> {
    match p.piece_type {
        PieceType::Pawn => pawn_targets(b, r, c, p.color),
        PieceType::Knight => step_targets(b, r, c, p.color, knight_offsets()),
        PieceType::King => step_targets(b, r, c, p.color, king_offsets()),
        PieceType::Rook => slide_targets(b, r, c, p.color, game_rook_dirs()),
        PieceType::Bishop => slide_targets(b, r, c, p.color, game_bishop_dirs()),
        PieceType::Queen => slide_targets(b, r, c, p.color, game_queen_dirs()),
    }
}

/// The first piece met when walking from `(r, c)` (included) in direction `(dr, dc)`.
pub open spec fn first_on_ray(b: Board, r: int, c: int, dr: int, dc: int, fuel: nat) -> Option<Piece>
    decreases fuel,
{
    if fuel == 0 || !in_board(r, c) {
        None
    } else {
        match b[r][c] {
            Some(p) => Some(p),
            None => first_on_ray(b, r + dr, c + dc, dr, dc, (fuel - 1) as nat),
        }
    }
}

/// The first piece seen from `(kr, kc)` in direction `d` is an enemy `slider` or queen.
pub open spec fn ray_threat(
    b: Board,
    kr: int,
    kc: int,
    d: (i32, i32),
    color: PieceColor,
    slider: PieceType,
) -> bool {
    first_on_ray(b, kr + d.0, kc + d.1, d.0 as int, d.1 as int, 8) matches Some(p) && p.color
        != color && (p.piece_type == slider || p.piece_type == PieceType::Queen)
}

/// `(r, c)` lies on the board and holds an enemy piece of kind `t`.
pub open spec fn enemy_at(b: Board, color: PieceColor, r: int, c: int, t: PieceType) -> bool {
    in_board(r, c) && (b[r][c] matches Some(p) && p.color != color && p.piece_type == t)
}

/// Some ray in `dirs` from `(kr, kc)` meets an enemy `slider` or queen first.
pub open spec fn slide_threat(
    b: Board,
    kr: int,
    kc: int,
    color: PieceColor,
    dirs: Seq<(i32, i32)>,
    slider: PieceType,
) -> bool {
    exists|i: int| 0 <= i < dirs.len() && #[trigger] ray_threat(b, kr, kc, dirs[i], color, slider)
}

/// Some step in `offs` from `(kr, kc)` lands on an enemy piece of kind `t`.
pub open spec fn step_threat(
    b: Board,
    kr: int,
    kc: int,
    color: PieceColor,
    offs: Seq<(i32, i32)>,
    t: PieceType,
) -> bool {
    exists|i: int|
        0 <= i < offs.len() && #[trigger] enemy_at(b, color, kr + offs[i].0, kc + offs[i].1, t)
}

/// The square `(kr, kc)` of a king of `color` is threatened, as the match sees it: along a
/// line by an enemy rook or queen, along a diagonal by an enemy bishop or queen, by an enemy
/// knight a jump away, by an enemy pawn diagonally ahead of the king, or by the enemy king
/// next to it.
pub open spec fn rays_threat(b: Board, kr: int, kc: int, color: PieceColor) -> bool {
    ||| slide_threat(b, kr, kc, color, game_rook_dirs(), PieceType::Rook)
    ||| slide_threat(b, kr, kc, color, game_bishop_dirs(), PieceType::Bishop)
    ||| step_threat(b, kr, kc, color, knight_offsets(), PieceType::Knight)
    ||| enemy_at(b, color, kr + pawn_dir(color), kc - 1, PieceType::Pawn)
    ||| enemy_at(b, color, kr + pawn_dir(color), kc + 1, PieceType::Pawn)
    ||| step_threat(b, kr, kc, color, king_offsets(), PieceType::King)
}

/// The king of `color` is in check as the match sees it (a board without that king is not).
pub open spec fn game_king_in_check(b: Board, color: PieceColor) -> bool {
    exists|r: int, c: int| #[trigger] king_found_at(b, color, r, c) && rays_threat(b, r, c, color)
}

/// The board on which the piece `p` has moved from `(r, c)` to `(tr, tc)` without promotion.
pub open spec fn simulate(b: Board, r: int, c: int, p: Piece, tr: int, tc: int) -> Board {
    set_square(set_square(b, tr, tc, Some(p)), r, c, None)
}

/// The targets of `ts` to which the piece `p` on `(r, c)` may move without its king being in check.
pub open spec fn game_legal_targets(
    b: Board,
    r: int,
    c: int,
    p: Piece,
    ts: Seq<(usize, usize)>,
) -> Seq<(usize, usize)>
    decreases ts.len(),
{
    if ts.len() == 0 {
        seq![]
    } else {
        let prev = game_legal_targets(b, r, c, p, ts.drop_last());
        let t = ts.last();
        if !game_king_in_check(simulate(b, r, c, p, t.0 as int, t.1 as int), p.color) {
            prev.push(t)
        } else {
            prev
        }
    }
}

/// The squares the piece on `(r, c)` may legally move to (none for an empty square).
pub open spec fn game_valid_moves(b: Board, r: int, c: int) -> Seq<(usize, usize)> {
    match b[r][c] {
        None => seq![],
        Some(p) => game_legal_targets(b, r, c, p, game_pseudo_targets(b, r, c, p)),
    }
}

/// The moves from `(r, c)` to each square of `ts`.
pub open spec fn moves_from(r: int, c: int, ts: Seq<(usize, usize)>) -> Seq<AiMove> {
    ts.map_values(
        |t: (usize, usize)| AiMove { from_row: r as usize, from_col: c as usize, to_row: t.0, to_col: t.1 },
    )
}

/// The legal moves of the piece on `(r, c)` if it belongs to `color`.
pub open spec fn game_legal_from(b: Board, color: PieceColor, r: int, c: int) -> Seq<AiMove> {
    match b[r][c] {
        Some(p) => if p.color == color {
            moves_from(r, c, game_valid_moves(b, r, c))
        } else {
            seq![]
        },
        None => seq![],
    }
}

/// The legal moves of `color` from the first `k` squares in row-major order.
pub open spec fn game_legal_moves_upto(b: Board, color: PieceColor, k: nat) -> Seq<AiMove>
    decreases k,
{
    if k == 0 {
        seq![]
    } else {
        game_legal_moves_upto(b, color, (k - 1) as nat) + game_legal_from(
            b,
            color,
            (k - 1) / 8,
            (k - 1) % 8,
        )
    }
}

/// The legal moves of `color` as the match lists them.
pub open spec fn game_legal_moves(b: Board, color: PieceColor) -> Seq<AiMove> {
    game_legal_moves_upto(b, color, 64)
}


/// Some ray along `dirs` from `(kr, kc)` meets an enemy `slider` or queen before any other piece.
fn slider_threat(
    board: &Board,
    kr: usize,
    kc: usize,
    color: PieceColor,
    dirs: &[(i32, i32)],
    slider: PieceType,
) -> (hit: bool)
    requires
        kr < 8,
        kc < 8,
        forall|i: int| 0 <= i < dirs@.len() ==> unit_direction(#[trigger] dirs@[i]),
    ensures
        hit == slide_threat(*board, kr as int, kc as int, color, dirs@, slider),
{
    let mut i: usize = 0;
    while i < dirs.len()
        invariant
            kr < 8,
            kc < 8,
            i <= dirs@.len(),
            forall|j: int| 0 <= j < dirs@.len() ==> unit_direction(#[trigger] dirs@[j]),
            forall|j: int|
                0 <= j < i ==> !#[trigger] ray_threat(*board, kr as int, kc as int, dirs@[j], color, slider),
        decreases dirs@.len() - i,
    {
        let (dr, dc) = dirs[i];
        assert(unit_direction(dirs@[i as int]));
        let mut r = kr as i32 + dr;
        let mut c = kc as i32 + dc;
        let ghost d = dirs@[i as int];
        let ghost first = first_on_ray(*board, kr + d.0, kc + d.1, d.0 as int, d.1 as int, 8);
        assert(d.0 == dr && d.1 == dc);
        let ghost mut k: int = 0;
        let ghost mut fuel: nat = 8;
        while r >= 0 && r < 8 && c >= 0 && c < 8
            invariant_except_break
                first == first_on_ray(*board, r as int, c as int, dr as int, dc as int, fuel),
            invariant
                kr < 8,
                kc < 8,
                i < dirs@.len(),
                d == dirs@[i as int],
                d.0 == dr,
                d.1 == dc,
                first == first_on_ray(*board, kr + d.0, kc + d.1, d.0 as int, d.1 as int, 8),
                -1 <= dr <= 1,
                -1 <= dc <= 1,
                dr != 0 || dc != 0,
                0 <= k <= 8,
                fuel == 8 - k,
                dr == 1 ==> r == kr + 1 + k,
                dr == -1 ==> r == kr - 1 - k,
                dr == 0 ==> r == kr,
                dc == 1 ==> c == kc + 1 + k,
                dc == -1 ==> c == kc - 1 - k,
                dc == 0 ==> c == kc,
            ensures
                !ray_threat(*board, kr as int, kc as int, dirs@[i as int], color, slider),
            decreases fuel,
        {
            assert(fuel > 0);
            if let Some(p) = board[r as usize][c as usize] {
                if p.color != color && (p.piece_type == slider || p.piece_type == PieceType::Queen) {
                    assert(ray_threat(*board, kr as int, kc as int, dirs@[i as int], color, slider));
                    return true;
                }
                break ;
            }
            r += dr;
            c += dc;
            proof {
                fuel = (fuel - 1) as nat;
                k = k + 1;
            }
        }
        i += 1;
    }
    false
}

/// Some step along `offs` from `(kr, kc)` lands on an enemy piece of kind `t`.
fn stepper_threat(
    board: &Board,
    kr: usize,
    kc: usize,
    color: PieceColor,
    offs: &[(i32, i32)],
    t: PieceType,
) -> (hit: bool)
    requires
        kr < 8,
        kc < 8,
        forall|i: int|
            0 <= i < offs@.len() ==> -2 <= #[trigger] offs@[i].0 <= 2 && -2 <= offs@[i].1 <= 2,
    ensures
        hit == step_threat(*board, kr as int, kc as int, color, offs@, t),
{
    let mut i: usize = 0;
    while i < offs.len()
        invariant
            kr < 8,
            kc < 8,
            i <= offs@.len(),
            forall|j: int|
                0 <= j < offs@.len() ==> -2 <= #[trigger] offs@[j].0 <= 2 && -2 <= offs@[j].1 <= 2,
            forall|j: int|
                0 <= j < i ==> !#[trigger] enemy_at(
                    *board,
                    color,
                    kr + offs@[j].0,
                    kc + offs@[j].1,
                    t,
                ),
        decreases offs@.len() - i,
    {
        let (dr, dc) = offs[i];
        let r = kr as i32 + dr;
        let c = kc as i32 + dc;
        if r >= 0 && r < 8 && c >= 0 && c < 8 {
            if let Some(p) = board[r as usize][c as usize] {
                if p.color != color && p.piece_type == t {
                    assert(enemy_at(*board, color, kr + offs@[i as int].0, kc + offs@[i as int].1, t));
                    return true;
                }
            }
        }
        i += 1;
    }
    false
}

/// An enemy pawn stands on `(r, c)`, which may lie off the board.
fn enemy_pawn_at(board: &Board, color: PieceColor, r: i32, c: i32) -> (hit: bool)
    ensures
        hit == enemy_at(*board, color, r as int, c as int, PieceType::Pawn),
{
    if r >= 0 && r < 8 && c >= 0 && c < 8 {
        if let Some(p) = board[r as usize][c as usize] {
            return p.color != color && p.piece_type == PieceType::Pawn;
        }
    }
    false
}

impl ChessGame {
    /// Moves of `piece` standing on `(row, col)` when check is not considered.
    pub fn get_pseudo_legal_moves(&self, row: usize, col: usize, piece: Piece) -> (moves: Vec<
        (usize, usize),
    >)
        requires
            row < 8,
            col < 8,
        ensures
            moves@ == game_pseudo_targets(self.board, row as int, col as int, piece),
    {
        let r = row as i32;
        let c = col as i32;
        match piece.piece_type {
            PieceType::Pawn => pawn_moves(&self.board, row, col, piece.color),
            PieceType::Knight => knight_moves(&self.board, row, col, piece.color),
            PieceType::King => king_moves(&self.board, row, col, piece.color),
            PieceType::Rook => {
                let mut moves: Vec<(usize, usize)> = Vec::new();
                let directions: [(i32, i32); 4] = [(0, 1), (0, -1), (1, 0), (-1, 0)];
                assert(directions@ =~= game_rook_dirs());
                self.add_sliding_moves(r, c, &directions, piece.color, &mut moves);
                assert(seq![] + slide_targets(self.board, row as int, col as int, piece.color, game_rook_dirs())
                    =~= slide_targets(self.board, row as int, col as int, piece.color, game_rook_dirs()));
                moves
            },
            PieceType::Bishop => {
                let mut moves: Vec<(usize, usize)> = Vec::new();
                let directions: [(i32, i32); 4] = [(1, 1), (1, -1), (-1, 1), (-1, -1)];
                assert(directions@ =~= game_bishop_dirs());
                self.add_sliding_moves(r, c, &directions, piece.color, &mut moves);
                assert(seq![] + slide_targets(self.board, row as int, col as int, piece.color, game_bishop_dirs())
                    =~= slide_targets(self.board, row as int, col as int, piece.color, game_bishop_dirs()));
                moves
            },
            PieceType::Queen => {
                let mut moves: Vec<(usize, usize)> = Vec::new();
                let directions: [(i32, i32); 8] = [
                    (0, 1),
                    (0, -1),
                    (1, 0),
                    (-1, 0),
                    (1, 1),
                    (1, -1),
                    (-1, 1),
                    (-1, -1),
                ];
                assert(directions@ =~= game_queen_dirs());
                self.add_sliding_moves(r, c, &directions, piece.color, &mut moves);
                assert(seq![] + slide_targets(self.board, row as int, col as int, piece.color, game_queen_dirs())
                    =~= slide_targets(self.board, row as int, col as int, piece.color, game_queen_dirs()));
                moves
            },
        }
    }

    /// Appends to `moves` the squares a piece of `color` on `(start_r, start_c)` reaches by
    /// sliding along each of `directions` until the edge or a piece (an enemy piece is taken).
    pub fn add_sliding_moves(
        &self,
        start_r: i32,
        start_c: i32,
        directions: &[(i32, i32)],
        color: PieceColor,
        moves: &mut Vec<(usize, usize)>,
    )
        requires
            0 <= start_r < 8,
            0 <= start_c < 8,
            forall|i: int| 0 <= i < directions@.len() ==> unit_direction(#[trigger] directions@[i]),
        ensures
            final(moves)@ == old(moves)@ + slide_targets(
                self.board,
                start_r as int,
                start_c as int,
                color,
                directions@,
            ),
    {
        push_slides(&self.board, start_r as usize, start_c as usize, color, directions, moves);
    }

    /// The king of `color` is in check (see `game_king_in_check`); a board without that king
    /// is never in check.
    pub fn is_king_in_check(&self, color: PieceColor) -> (in_check: bool)
        ensures
            in_check == game_king_in_check(self.board, color),
    {
        let (kr, kc) = match find_king(&self.board, color) {
            Some(pos) => pos,
            None => return false,
        };
        let straight: [(i32, i32); 4] = [(0, 1), (0, -1), (1, 0), (-1, 0)];
        assert(straight@ =~= game_rook_dirs());
        let diagonals: [(i32, i32); 4] = [(1, 1), (1, -1), (-1, 1), (-1, -1)];
        assert(diagonals@ =~= game_bishop_dirs());
        let knight_jumps: [(i32, i32); 8] = [
            (-2, -1),
            (-2, 1),
            (-1, -2),
            (-1, 2),
            (1, -2),
            (1, 2),
            (2, -1),
            (2, 1),
        ];
        assert(knight_jumps@ =~= knight_offsets());
        let king_steps: [(i32, i32); 8] = [
            (-1, -1),
            (-1, 0),
            (-1, 1),
            (0, -1),
            (0, 1),
            (1, -1),
            (1, 0),
            (1, 1),
        ];
        assert(king_steps@ =~= king_offsets());
        let pawn_attack_dir: i32 = match color {
            PieceColor::White => -1,
            PieceColor::Black => 1,
        };
        let threatened = slider_threat(&self.board, kr, kc, color, &straight, PieceType::Rook)
            || slider_threat(&self.board, kr, kc, color, &diagonals, PieceType::Bishop)
            || stepper_threat(&self.board, kr, kc, color, &knight_jumps, PieceType::Knight)
            || enemy_pawn_at(&self.board, color, kr as i32 + pawn_attack_dir, kc as i32 - 1)
            || enemy_pawn_at(&self.board, color, kr as i32 + pawn_attack_dir, kc as i32 + 1)
            || stepper_threat(&self.board, kr, kc, color, &king_steps, PieceType::King);
        assert(threatened == rays_threat(self.board, kr as int, kc as int, color));
        proof {
            if game_king_in_check(self.board, color) {
                let (r, c) = choose|r: int, c: int|
                    #[trigger] king_found_at(self.board, color, r, c) && rays_threat(self.board, r, c, color);
                lemma_king_found_unique(self.board, color, r, c, kr as int, kc as int);
            }
        }
        threatened
    }
}


/// Undoing a simulated move (putting the piece back, then the old content of the target)
/// gives back the original board.
proof fn lemma_restore(b: Board, r: int, c: int, p: Piece, tr: int, tc: int)
    requires
        in_board(r, c),
        in_board(tr, tc),
        b[r][c] == Some(p),
    ensures
        set_square(set_square(simulate(b, r, c, p, tr, tc), r, c, Some(p)), tr, tc, b[tr][tc]) == b,
{
    broadcast use vstd::array::group_array_axioms;

    let s1 = set_square(b, tr, tc, Some(p));
    let s2 = set_square(s1, r, c, None);
    let s3 = set_square(s2, r, c, Some(p));
    let s4 = set_square(s3, tr, tc, b[tr][tc]);
    lemma_set_square(b, tr, tc, Some(p));
    lemma_set_square(s1, r, c, None);
    lemma_set_square(s2, r, c, Some(p));
    lemma_set_square(s3, tr, tc, b[tr][tc]);
    assert forall|i: int| 0 <= i < 8 implies s4[i] =~= b[i] by {
        assert forall|j: int| 0 <= j < 8 implies s4[i][j] == b[i][j] by {
            assert(in_board(i, j));
        }
    }
    assert(s4 =~= b);
}

/// Moves of a piece on the board stay on the board.
pub proof fn lemma_game_targets_on_board(b: Board, r: int, c: int, p: Piece)
    ensures
        all_on_board(game_pseudo_targets(b, r, c, p)),
{
    match p.piece_type {
        PieceType::Rook => lemma_slide_bounds(b, r, c, p.color, game_rook_dirs()),
        PieceType::Bishop => lemma_slide_bounds(b, r, c, p.color, game_bishop_dirs()),
        PieceType::Queen => lemma_slide_bounds(b, r, c, p.color, game_queen_dirs()),
        _ => lemma_targets_on_board(b, r, c, p),
    }
}

impl ChessGame {
    /// Fills `valid_moves` with the squares the piece on `(row, col)` may legally move to
    /// (empty for an empty square); every other part of the state, the board included, is
    /// left as it was.
    pub fn calculate_valid_moves(&mut self, row: usize, col: usize)
        requires
            row < 8,
            col < 8,
        ensures
            final(self)@ == (GameView { valid_moves: game_valid_moves(old(self).board, row as int, col as int), ..old(self)@ }),
            all_on_board(final(self)@.valid_moves),
    {
        self.valid_moves.clear();

        let piece = match self.board[row][col] {
            Some(p) => p,
            None => {
                proof {
                    lemma_game_valid_moves_on_board(self.board, row as int, col as int);
                }
                return ;
            },
        };

        let pseudo_moves = self.get_pseudo_legal_moves(row, col, piece);
        proof {
            lemma_game_targets_on_board(self.board, row as int, col as int, piece);
        }
        let ghost b0 = self.board;
        let mut legal_moves: Vec<(usize, usize)> = Vec::new();
        let mut i: usize = 0;
        while i < pseudo_moves.len()
            invariant
                row < 8,
                col < 8,
                self.board == b0,
                b0[row as int][col as int] == Some(piece),
                i <= pseudo_moves@.len(),
                pseudo_moves@ == game_pseudo_targets(b0, row as int, col as int, piece),
                all_on_board(pseudo_moves@),
                legal_moves@ == game_legal_targets(b0, row as int, col as int, piece, pseudo_moves@.take(i as int)),
                self@ == (GameView { valid_moves: seq![], board: b0, ..old(self)@ }),
            decreases pseudo_moves@.len() - i,
        {
            let (tr, tc) = pseudo_moves[i];
            assert(pseudo_moves@[i as int].0 < 8 && pseudo_moves@[i as int].1 < 8);
            proof {
                assert(pseudo_moves@.take(i + 1).drop_last() =~= pseudo_moves@.take(i as int));
                assert(pseudo_moves@.take(i + 1).last() == pseudo_moves@[i as int]);
            }
            let original_destination = self.board[tr][tc];

            write_square(&mut self.board, tr, tc, Some(piece));
            write_square(&mut self.board, row, col, None);

            if !self.is_king_in_check(piece.color) {
                legal_moves.push((tr, tc));
            }

            write_square(&mut self.board, row, col, Some(piece));
            write_square(&mut self.board, tr, tc, original_destination);
            proof {
                lemma_restore(b0, row as int, col as int, piece, tr as int, tc as int);
            }
            i += 1;
        }
        proof {
            assert(pseudo_moves@.take(pseudo_moves@.len() as int) =~= pseudo_moves@);
            lemma_game_valid_moves_on_board(b0, row as int, col as int);
        }
        self.valid_moves = legal_moves;
    }
}


impl ChessGame {
    /// All legal moves of `color` as the match lists them; `valid_moves` ends up empty and
    /// the rest of the state is left as it was.
    pub fn collect_legal_moves_for_turn(&mut self, color: PieceColor) -> (all_moves: Vec<AiMove>)
        ensures
            all_moves@ == game_legal_moves(old(self).board, color),
            final(self)@ == (GameView { valid_moves: seq![], ..old(self)@ }),
    {
        let ghost v0 = self@;
        let mut all_moves: Vec<AiMove> = Vec::new();
        let mut r: usize = 0;
        while r < 8
            invariant
                r <= 8,
                self@ == (GameView { valid_moves: self@.valid_moves, ..v0 }),
                all_moves@ == game_legal_moves_upto(v0.board, color, (r * 8) as nat),
            decreases 8 - r,
        {
            let mut c: usize = 0;
            while c < 8
                invariant
                    r < 8,
                    c <= 8,
                    self@ == (GameView { valid_moves: self@.valid_moves, ..v0 }),
                    all_moves@ == game_legal_moves_upto(v0.board, color, (r * 8 + c) as nat),
                decreases 8 - c,
            {
                proof {
                    lemma_square_index(r as int, c as int);
                }
                let ghost before = all_moves@;
                assert(game_legal_moves_upto(v0.board, color, (r * 8 + c + 1) as nat) == before
                    + game_legal_from(v0.board, color, r as int, c as int));
                if let Some(piece) = self.board[r][c] {
                    if piece.color == color {
                        self.calculate_valid_moves(r, c);
                        let ghost valid = self@.valid_moves;
                        let mut j: usize = 0;
                        while j < self.valid_moves.len()
                            invariant
                                r < 8,
                                c < 8,
                                j <= valid.len(),
                                self@ == (GameView { valid_moves: valid, ..v0 }),
                                valid == game_valid_moves(v0.board, r as int, c as int),
                                all_moves@ == before + moves_from(r as int, c as int, valid.take(j as int)),
                            decreases valid.len() - j,
                        {
                            let (tr, tc) = self.valid_moves[j];
                            all_moves.push(AiMove::new(r, c, tr, tc));
                            proof {
                                assert(moves_from(r as int, c as int, valid.take(j + 1)) =~= moves_from(
                                    r as int,
                                    c as int,
                                    valid.take(j as int),
                                ).push(AiMove { from_row: r, from_col: c, to_row: tr, to_col: tc }));
                            }
                            j += 1;
                        }
                        proof {
                            assert(valid.take(valid.len() as int) =~= valid);
                        }
                    } else {
                        assert(before + seq![] =~= before);
                    }
                } else {
                    assert(before + seq![] =~= before);
                }
                c += 1;
            }
            r += 1;
        }
        self.valid_moves.clear();
        proof {
            assert(self@ =~= (GameView { valid_moves: seq![], ..v0 }));
        }
        all_moves
    }
}


proof fn lemma_game_legal_targets_on_board(b: Board, r: int, c: int, p: Piece, ts: Seq<(usize, usize)>)
    requires
        all_on_board(ts),
    ensures
        all_on_board(game_legal_targets(b, r, c, p, ts)),
    decreases ts.len(),
{
    if ts.len() > 0 {
        assert(all_on_board(ts.drop_last()));
        lemma_game_legal_targets_on_board(b, r, c, p, ts.drop_last());
        assert(ts.last() == ts[ts.len() - 1]);
        let prev = game_legal_targets(b, r, c, p, ts.drop_last());
        let t = ts.last();
        assert(t.0 < 8 && t.1 < 8);
        assert forall|i: int| 0 <= i < prev.push(t).len() implies #[trigger] prev.push(t)[i].0 < 8
            && prev.push(t)[i].1 < 8 by {
            if i < prev.len() {
                assert(prev.push(t)[i] == prev[i]);
                assert(prev[i].0 < 8 && prev[i].1 < 8);
            }
        }
    }
}

/// The squares `valid_moves` may hold lie on the board.
pub proof fn lemma_game_valid_moves_on_board(b: Board, r: int, c: int)
    ensures
        all_on_board(game_valid_moves(b, r, c)),
{
    if let Some(p) = b[r][c] {
        lemma_game_targets_on_board(b, r, c, p);
        lemma_game_legal_targets_on_board(b, r, c, p, game_pseudo_targets(b, r, c, p));
    }
}

proof fn lemma_game_legal_upto_on_board(b: Board, color: PieceColor, k: nat)
    requires
        k <= 64,
    ensures
        moves_on_board(game_legal_moves_upto(b, color, k)),
    decreases k,
{
    if k > 0 {
        lemma_game_legal_upto_on_board(b, color, (k - 1) as nat);
        let r = (k - 1) / 8;
        let c = (k - 1) % 8;
        lemma_game_valid_moves_on_board(b, r, c);
        let a = game_legal_moves_upto(b, color, (k - 1) as nat);
        let f = game_legal_from(b, color, r, c);
        let vm = game_valid_moves(b, r, c);
        assert forall|i: int| 0 <= i < (a + f).len() implies move_on_board(#[trigger] (a + f)[i]) by {
            if i < a.len() {
                assert((a + f)[i] == a[i]);
            } else {
                assert((a + f)[i] == f[i - a.len()]);
                assert(vm[i - a.len()].0 < 8);
            }
        }
    }
}

/// The moves the match lists start and end on the board.
pub proof fn lemma_game_legal_moves_on_board(b: Board, color: PieceColor)
    ensures
        moves_on_board(game_legal_moves(b, color)),
{
    lemma_game_legal_upto_on_board(b, color, 64);
}

} // verus!
