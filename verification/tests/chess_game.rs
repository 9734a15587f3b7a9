use chess_menu::chess::input::CursorStep;
use chess_menu::chess::{AiMove, Board, ChessGame, GameOutcome, MovingPiece, Piece, PieceColor, PieceType};

fn p(piece_type: PieceType, color: PieceColor) -> Option<Piece> {
    Some(Piece { piece_type, color })
}

fn start_board() -> Board {
    let b = PieceColor::Black;
    let w = PieceColor::White;
    [
        [
            p(PieceType::Rook, b), p(PieceType::Knight, b), p(PieceType::Bishop, b), p(PieceType::Queen, b),
            p(PieceType::King, b), p(PieceType::Bishop, b), p(PieceType::Knight, b), p(PieceType::Rook, b),
        ],
        [p(PieceType::Pawn, b); 8],
        [None; 8],
        [None; 8],
        [None; 8],
        [None; 8],
        [p(PieceType::Pawn, w); 8],
        [
            p(PieceType::Rook, w), p(PieceType::Knight, w), p(PieceType::Bishop, w), p(PieceType::Queen, w),
            p(PieceType::King, w), p(PieceType::Bishop, w), p(PieceType::Knight, w), p(PieceType::Rook, w),
        ],
    ]
}

fn game_with(board: Board, player: PieceColor, turn: PieceColor) -> ChessGame {
    let mut g = ChessGame::with_player_color(player);
    g.board = board;
    g.current_turn = turn;
    g
}

fn play(g: &mut ChessGame, from: (usize, usize), to: (usize, usize)) {
    g.player_color = g.current_turn;
    g.select_or_move(from.0, from.1);
    g.select_or_move(to.0, to.1);
}

#[test]
fn fresh_match_state() {
    let g = ChessGame::with_player_color(PieceColor::Black);
    assert_eq!(g.board, start_board());
    assert_eq!(g.current_turn, PieceColor::White);
    assert_eq!(g.player_color, PieceColor::Black);
    assert_eq!(g.cursor, Some((7, 4)));
    assert_eq!(g.selected_square, None);
    assert!(g.valid_moves.is_empty());
    assert_eq!(g.game_outcome, None);
    assert_eq!(g.repetition_counts.len(), 1);
    assert_eq!(g.repetition_counts.values().copied().collect::<Vec<u8>>(), vec![1]);
    assert_eq!(g.halfmove_clock, 0);
    assert_eq!(g.ai_last_move_by_side, [None, None]);
}

#[test]
fn random_side_match_starts_normally() {
    let g = ChessGame::new();
    assert!(g.player_color == PieceColor::White || g.player_color == PieceColor::Black);
    assert_eq!(g.board, start_board());
    assert_eq!(g.current_turn, PieceColor::White);
}

#[test]
fn select_then_move_a_pawn() {
    let mut g = ChessGame::with_player_color(PieceColor::White);
    g.select_or_move(6, 4);
    assert_eq!(g.selected_square, Some((6, 4)));
    assert_eq!(g.valid_moves, vec![(5, 4), (4, 4)]);
    g.select_or_move(4, 4);
    assert_eq!(g.board[4][4], p(PieceType::Pawn, PieceColor::White));
    assert_eq!(g.board[6][4], None);
    assert_eq!(g.current_turn, PieceColor::Black);
    assert_eq!(g.selected_square, None);
    assert!(g.valid_moves.is_empty());
    assert_eq!(g.halfmove_clock, 0);
    assert_eq!(g.repetition_counts.len(), 2);
    assert_eq!(
        g.moving_piece,
        Some(MovingPiece {
            piece: Piece { piece_type: PieceType::Pawn, color: PieceColor::White },
            from_row: 6,
            from_col: 4,
            to_row: 4,
            to_col: 4,
        })
    );
}

#[test]
fn clicking_the_selected_square_deselects() {
    let mut g = ChessGame::with_player_color(PieceColor::White);
    g.select_or_move(7, 1);
    assert_eq!(g.valid_moves, vec![(5, 0), (5, 2)]);
    g.select_or_move(7, 1);
    assert_eq!(g.selected_square, None);
    assert!(g.valid_moves.is_empty());
    assert_eq!(g.board, start_board());
}

#[test]
fn clicking_elsewhere_just_deselects() {
    let mut g = ChessGame::with_player_color(PieceColor::White);
    g.select_or_move(6, 0);
    g.select_or_move(3, 3);
    assert_eq!(g.selected_square, None);
    assert_eq!(g.board, start_board());
    assert_eq!(g.current_turn, PieceColor::White);
}

#[test]
fn opponent_pieces_and_turns_are_guarded() {
    let mut g = ChessGame::with_player_color(PieceColor::White);
    g.select_or_move(1, 0);
    assert_eq!(g.selected_square, None);
    let mut h = ChessGame::with_player_color(PieceColor::Black);
    h.select_or_move(1, 0);
    assert_eq!(h.selected_square, None);
}

#[test]
fn legal_moves_for_turn_in_order() {
    let mut g = ChessGame::with_player_color(PieceColor::White);
    let moves = g.collect_legal_moves_for_turn(PieceColor::White);
    assert_eq!(moves.len(), 20);
    assert_eq!(moves[0], AiMove::new(6, 0, 5, 0));
    assert_eq!(moves[1], AiMove::new(6, 0, 4, 0));
    assert!(g.valid_moves.is_empty());
    assert_eq!(g.board, start_board());
}

#[test]
fn valid_moves_leave_board_untouched() {
    let mut g = ChessGame::with_player_color(PieceColor::White);
    g.calculate_valid_moves(7, 6);
    assert_eq!(g.valid_moves, vec![(5, 5), (5, 7)]);
    g.calculate_valid_moves(4, 4);
    assert!(g.valid_moves.is_empty());
    assert_eq!(g.board, start_board());
}

#[test]
fn queen_lines_in_match_order() {
    let mut b = [[None; 8]; 8];
    b[7][7] = p(PieceType::Queen, PieceColor::White);
    b[7][5] = p(PieceType::Knight, PieceColor::White);
    b[6][6] = p(PieceType::Pawn, PieceColor::Black);
    let g = game_with(b, PieceColor::White, PieceColor::White);
    let queen = Piece { piece_type: PieceType::Queen, color: PieceColor::White };
    assert_eq!(
        g.get_pseudo_legal_moves(7, 7, queen),
        vec![(7, 6), (6, 7), (5, 7), (4, 7), (3, 7), (2, 7), (1, 7), (0, 7), (6, 6)]
    );
}

#[test]
fn ray_check_detection() {
    let mut b = [[None; 8]; 8];
    b[7][4] = p(PieceType::King, PieceColor::White);
    b[0][0] = p(PieceType::King, PieceColor::Black);
    let mut g = game_with(b, PieceColor::White, PieceColor::White);
    assert!(!g.is_king_in_check(PieceColor::White));
    g.board[3][0] = p(PieceType::Bishop, PieceColor::Black);
    assert!(g.is_king_in_check(PieceColor::White));
    g.board[3][0] = None;
    g.board[5][3] = p(PieceType::Knight, PieceColor::Black);
    assert!(g.is_king_in_check(PieceColor::White));
    g.board[5][3] = None;
    g.board[6][5] = p(PieceType::Pawn, PieceColor::Black);
    assert!(g.is_king_in_check(PieceColor::White));
    g.board[6][5] = None;
    g.board[7][0] = p(PieceType::Rook, PieceColor::Black);
    g.board[7][2] = p(PieceType::Bishop, PieceColor::White);
    assert!(!g.is_king_in_check(PieceColor::White));
}

#[test]
fn mate_and_stalemate_endings() {
    let mut b = [[None; 8]; 8];
    b[0][7] = p(PieceType::King, PieceColor::Black);
    b[2][6] = p(PieceType::King, PieceColor::White);
    b[0][0] = p(PieceType::Rook, PieceColor::White);
    let mut g = game_with(b, PieceColor::White, PieceColor::Black);
    g.finish_game_for_side(PieceColor::Black);
    assert_eq!(g.game_outcome, Some(GameOutcome::Checkmate { winner: PieceColor::White }));
    g.finish_game_for_side(PieceColor::White);
    assert_eq!(g.game_outcome, Some(GameOutcome::Checkmate { winner: PieceColor::White }));

    let mut s = [[None; 8]; 8];
    s[0][7] = p(PieceType::King, PieceColor::Black);
    s[2][6] = p(PieceType::King, PieceColor::White);
    s[1][5] = p(PieceType::Queen, PieceColor::White);
    let mut h = game_with(s, PieceColor::White, PieceColor::Black);
    h.finish_game_for_side(PieceColor::Black);
    assert_eq!(h.game_outcome, Some(GameOutcome::Stalemate));
}

#[test]
fn engine_mates_in_one() {
    let mut b = [[None; 8]; 8];
    b[0][7] = p(PieceType::King, PieceColor::Black);
    b[2][6] = p(PieceType::King, PieceColor::White);
    b[7][0] = p(PieceType::Rook, PieceColor::White);
    let mut g = game_with(b, PieceColor::Black, PieceColor::White);
    g.make_ai_move();
    assert_eq!(g.board[0][0], p(PieceType::Rook, PieceColor::White));
    assert_eq!(g.board[7][0], None);
    assert_eq!(g.current_turn, PieceColor::Black);
    assert_eq!(g.game_outcome, Some(GameOutcome::Checkmate { winner: PieceColor::White }));
    assert_eq!(g.ai_last_move_by_side[0], Some(AiMove::new(7, 0, 0, 0)));
}

#[test]
fn engine_does_nothing_after_the_end() {
    let mut g = ChessGame::with_player_color(PieceColor::Black);
    g.game_outcome = Some(GameOutcome::Stalemate);
    g.make_ai_move();
    assert_eq!(g.board, start_board());
    assert_eq!(g.current_turn, PieceColor::White);
}

#[test]
fn engine_without_moves_ends_the_match() {
    let mut s = [[None; 8]; 8];
    s[0][7] = p(PieceType::King, PieceColor::Black);
    s[2][6] = p(PieceType::King, PieceColor::White);
    s[1][5] = p(PieceType::Queen, PieceColor::White);
    let mut g = game_with(s, PieceColor::White, PieceColor::Black);
    g.make_ai_move();
    assert_eq!(g.game_outcome, Some(GameOutcome::Stalemate));
    assert_eq!(g.board, s);
}

#[test]
fn engine_plays_a_legal_reply() {
    let mut g = ChessGame::with_player_color(PieceColor::White);
    g.select_or_move(6, 4);
    g.select_or_move(4, 4);
    let mut probe = ChessGame::with_player_color(PieceColor::White);
    probe.board = g.board;
    let legal = probe.collect_legal_moves_for_turn(PieceColor::Black);
    g.make_ai_move();
    assert_eq!(g.current_turn, PieceColor::White);
    let played = g.ai_last_move_by_side[1].unwrap();
    assert!(legal.contains(&played));
    assert_eq!(g.game_outcome, None);
}

#[test]
fn capture_leaving_bishop_only_is_a_draw() {
    let mut b = [[None; 8]; 8];
    b[7][4] = p(PieceType::King, PieceColor::White);
    b[0][4] = p(PieceType::King, PieceColor::Black);
    b[4][4] = p(PieceType::Bishop, PieceColor::White);
    b[2][2] = p(PieceType::Knight, PieceColor::Black);
    let mut g = game_with(b, PieceColor::White, PieceColor::White);
    g.select_or_move(4, 4);
    g.select_or_move(2, 2);
    assert_eq!(g.board[2][2], p(PieceType::Bishop, PieceColor::White));
    assert_eq!(g.game_outcome, Some(GameOutcome::Stalemate));
    assert_eq!(g.current_turn, PieceColor::Black);
    // The draw rule stops the move before the selection is cleared.
    assert_eq!(g.selected_square, Some((4, 4)));
}

#[test]
fn promotion_waits_for_the_choice() {
    let mut b = [[None; 8]; 8];
    b[7][4] = p(PieceType::King, PieceColor::White);
    b[0][7] = p(PieceType::King, PieceColor::Black);
    b[1][0] = p(PieceType::Pawn, PieceColor::White);
    b[6][7] = p(PieceType::Pawn, PieceColor::Black);
    let mut g = game_with(b, PieceColor::White, PieceColor::White);
    g.select_or_move(1, 0);
    g.select_or_move(0, 0);
    assert_eq!(g.promotion_pending, Some((0, 0)));
    assert_eq!(g.current_turn, PieceColor::White);
    assert_eq!(g.board[0][0], p(PieceType::Pawn, PieceColor::White));
    assert_eq!(g.selected_square, None);
    g.apply_promotion(1);
    assert_eq!(g.board[0][0], p(PieceType::Rook, PieceColor::White));
    assert_eq!(g.promotion_pending, None);
    assert_eq!(g.current_turn, PieceColor::Black);
    assert_eq!(g.halfmove_clock, 0);
}

#[test]
fn promotion_choices() {
    for (choice, kind) in [
        (0usize, PieceType::Queen),
        (2, PieceType::Bishop),
        (3, PieceType::Knight),
        (9, PieceType::Queen),
    ] {
        let mut b = [[None; 8]; 8];
        b[7][4] = p(PieceType::King, PieceColor::White);
        b[0][7] = p(PieceType::King, PieceColor::Black);
        b[0][0] = p(PieceType::Pawn, PieceColor::White);
        b[6][7] = p(PieceType::Pawn, PieceColor::Black);
        let mut g = game_with(b, PieceColor::White, PieceColor::White);
        g.promotion_pending = Some((0, 0));
        g.apply_promotion(choice);
        assert_eq!(g.board[0][0], p(kind, PieceColor::White));
    }
}

#[test]
fn fifty_move_rule() {
    let mut g = ChessGame::with_player_color(PieceColor::White);
    g.halfmove_clock = 99;
    g.select_or_move(7, 6);
    g.select_or_move(5, 5);
    assert_eq!(g.halfmove_clock, 100);
    assert_eq!(g.game_outcome, Some(GameOutcome::Stalemate));
}

#[test]
fn threefold_repetition() {
    let mut g = ChessGame::with_player_color(PieceColor::White);
    for _ in 0..2 {
        play(&mut g, (7, 6), (5, 5));
        play(&mut g, (0, 6), (2, 5));
        play(&mut g, (5, 5), (7, 6));
        assert_eq!(g.game_outcome, None);
        play(&mut g, (2, 5), (0, 6));
    }
    assert_eq!(g.board, start_board());
    assert_eq!(g.game_outcome, Some(GameOutcome::Stalemate));
}

#[test]
fn reset_restores_the_start() {
    let mut g = ChessGame::with_player_color(PieceColor::Black);
    play(&mut g, (6, 4), (4, 4));
    g.game_outcome = Some(GameOutcome::Stalemate);
    g.cursor = Some((3, 3));
    g.reset_match();
    assert_eq!(g.board, start_board());
    assert_eq!(g.current_turn, PieceColor::White);
    assert_eq!(g.game_outcome, None);
    assert_eq!(g.repetition_counts.len(), 1);
    assert_eq!(g.cursor, Some((3, 3)));
    assert_eq!(g.player_color, PieceColor::White);
    assert_eq!(g.moving_piece, None);
}

#[test]
fn engine_move_promotes_and_animates() {
    let mut b = [[None; 8]; 8];
    b[6][3] = p(PieceType::Pawn, PieceColor::Black);
    let mut g = game_with(b, PieceColor::White, PieceColor::Black);
    g.apply_ai_move_to_board(AiMove::new(6, 3, 7, 3));
    assert_eq!(g.board[7][3], p(PieceType::Queen, PieceColor::Black));
    assert_eq!(g.board[6][3], None);
    assert_eq!(
        g.moving_piece,
        Some(MovingPiece {
            piece: Piece { piece_type: PieceType::Queen, color: PieceColor::Black },
            from_row: 6,
            from_col: 3,
            to_row: 7,
            to_col: 3,
        })
    );
}

#[test]
fn fallback_move_is_listed() {
    let g = ChessGame::with_player_color(PieceColor::White);
    assert_eq!(g.choose_fallback_move(&[]), None);
    let moves = [AiMove::new(6, 0, 5, 0), AiMove::new(6, 1, 5, 1)];
    let m = g.choose_fallback_move(&moves).unwrap();
    assert!(moves.contains(&m));
}

#[test]
fn bitmap_glyphs() {
    assert_eq!(ChessGame::glyph_rows('A'), [0b01110, 0b10001, 0b10001, 0b11111, 0b10001, 0b10001, 0b10001]);
    assert_eq!(ChessGame::glyph_rows(' '), [0; 7]);
    assert_eq!(ChessGame::glyph_rows('@'), [0b11111, 0b00001, 0b00010, 0b00100, 0b01000, 0b00000, 0b01000]);
    assert_eq!(ChessGame::glyph_rows('7'), [0b11111, 0b00001, 0b00010, 0b00100, 0b01000, 0b01000, 0b01000]);
}

fn sorted(mut v: Vec<AiMove>) -> Vec<(usize, usize, usize, usize)> {
    let mut out: Vec<(usize, usize, usize, usize)> =
        v.drain(..).map(|m| (m.from_row, m.from_col, m.to_row, m.to_col)).collect();
    out.sort();
    out
}

fn tricky_board() -> Board {
    let w = PieceColor::White;
    let b = PieceColor::Black;
    let mut board: Board = [[None; 8]; 8];
    board[7][4] = p(PieceType::King, w);
    board[6][4] = p(PieceType::Rook, w);
    board[1][3] = p(PieceType::Pawn, w);
    board[5][2] = p(PieceType::Knight, w);
    board[0][4] = p(PieceType::King, b);
    board[2][4] = p(PieceType::Queen, b);
    board[4][1] = p(PieceType::Bishop, b);
    board[6][6] = p(PieceType::Pawn, b);
    board
}

#[test]
fn check_tests_agree_on_sample_positions() {
    let mut boards = vec![start_board(), tricky_board()];
    let mut checked = tricky_board();
    checked[6][4] = None;
    boards.push(checked);
    let mut pawn_check = tricky_board();
    pawn_check[6][3] = p(PieceType::Pawn, PieceColor::Black);
    boards.push(pawn_check);
    for board in boards {
        for color in [PieceColor::White, PieceColor::Black] {
            let g = game_with(board, color, color);
            assert_eq!(
                g.is_king_in_check(color),
                chess_menu::chess::ai::is_king_in_check_static(&board, color)
            );
        }
    }
    let mut checked = tricky_board();
    checked[6][4] = None;
    assert!(game_with(checked, PieceColor::White, PieceColor::White).is_king_in_check(PieceColor::White));
    let mut pawn_check = tricky_board();
    pawn_check[6][3] = p(PieceType::Pawn, PieceColor::Black);
    assert!(chess_menu::chess::ai::is_king_in_check_static(&pawn_check, PieceColor::White));
}

#[test]
fn engine_and_match_list_the_same_moves() {
    for board in [start_board(), tricky_board()] {
        for color in [PieceColor::White, PieceColor::Black] {
            let mut g = game_with(board, color, color);
            let from_match = sorted(g.collect_legal_moves_for_turn(color));
            let from_engine = sorted(chess_menu::chess::ai::collect_legal_moves_static(&board, color));
            assert_eq!(from_match, from_engine);
        }
    }
    assert_eq!(sorted(chess_menu::chess::ai::collect_legal_moves_static(&start_board(), PieceColor::White)).len(), 20);
}

#[test]
fn keyboard_cursor_moves_and_stays_on_the_board() {
    let mut g = ChessGame::with_player_color(PieceColor::White);
    g.move_cursor(CursorStep::Down);
    assert_eq!(g.cursor, Some((7, 4)));
    g.move_cursor(CursorStep::Up);
    assert_eq!(g.cursor, Some((6, 4)));
    g.move_cursor(CursorStep::Right);
    g.move_cursor(CursorStep::Right);
    g.move_cursor(CursorStep::Right);
    g.move_cursor(CursorStep::Right);
    assert_eq!(g.cursor, Some((6, 7)));
    g.cursor = None;
    g.move_cursor(CursorStep::Left);
    assert_eq!(g.cursor, Some((7, 3)));
    g.cursor = Some((0, 0));
    g.move_cursor(CursorStep::Up);
    g.move_cursor(CursorStep::Left);
    assert_eq!(g.cursor, Some((0, 0)));
    assert_eq!(g.board, start_board());
}

#[test]
fn clicks_off_the_board_do_nothing_or_only_deselect() {
    let mut g = game_with(start_board(), PieceColor::White, PieceColor::Black);
    g.select_or_move(12, 40);
    assert_eq!(g.board, start_board());
    assert_eq!(g.selected_square, None);
    let mut g = game_with(start_board(), PieceColor::White, PieceColor::White);
    g.select_or_move(6, 4);
    assert_eq!(g.selected_square, Some((6, 4)));
    assert_eq!(g.valid_moves.len(), 2);
    g.select_or_move(20, 20);
    assert_eq!(g.selected_square, None);
    assert!(g.valid_moves.is_empty());
    assert_eq!(g.board, start_board());
    assert_eq!(g.current_turn, PieceColor::White);
}

#[test]
fn pseudo_moves_are_distinct_on_board_and_agree() {
    let board = tricky_board();
    for r in 0..8usize {
        for c in 0..8usize {
            if let Some(piece) = board[r][c] {
                let g = game_with(board, piece.color, piece.color);
                let moves = g.get_pseudo_legal_moves(r, c, piece);
                for (i, &(tr, tc)) in moves.iter().enumerate() {
                    assert!(tr < 8 && tc < 8 && (tr, tc) != (r, c));
                    assert!(board[tr][tc].map_or(true, |t| t.color != piece.color));
                    assert!(!moves[i + 1..].contains(&(tr, tc)));
                }
                let mut a = moves.clone();
                let mut b = chess_menu::chess::ai::pseudo_moves_for_piece(&board, r, c, piece);
                a.sort();
                b.sort();
                assert_eq!(a, b);
            }
        }
    }
}
