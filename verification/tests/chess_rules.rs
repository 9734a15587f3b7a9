use chess_menu::chess::ai::{
    apply_move_on_board, collect_legal_moves_static, in_bounds, is_king_in_check_static,
    is_square_attacked, king_moves, knight_moves, pawn_moves, piece_value, pseudo_moves_for_piece,
    sliding_moves,
};
use chess_menu::chess::piece::opposite_color;
use chess_menu::chess::{get_piece_column_index, AiMove, Board, ChessAi, Piece, PieceColor, PieceType};

fn p(piece_type: PieceType, color: PieceColor) -> Option<Piece> {
    Some(Piece { piece_type, color })
}

fn empty_board() -> Board {
    [[None; 8]; 8]
}

fn start_board() -> Board {
    let b = PieceColor::Black;
    let w = PieceColor::White;
    [
        [p(PieceType::Rook, b), p(PieceType::Knight, b), p(PieceType::Bishop, b), p(PieceType::Queen, b), p(PieceType::King, b), p(PieceType::Bishop, b), p(PieceType::Knight, b), p(PieceType::Rook, b)],
        [p(PieceType::Pawn, b); 8],
        [None; 8],
        [None; 8],
        [None; 8],
        [None; 8],
        [p(PieceType::Pawn, w); 8],
        [p(PieceType::Rook, w), p(PieceType::Knight, w), p(PieceType::Bishop, w), p(PieceType::Queen, w), p(PieceType::King, w), p(PieceType::Bishop, w), p(PieceType::Knight, w), p(PieceType::Rook, w)],
    ]
}

#[test]
fn sprite_columns() {
    assert_eq!(get_piece_column_index(PieceType::King), 0);
    assert_eq!(get_piece_column_index(PieceType::Queen), 1);
    assert_eq!(get_piece_column_index(PieceType::Bishop), 2);
    assert_eq!(get_piece_column_index(PieceType::Knight), 3);
    assert_eq!(get_piece_column_index(PieceType::Rook), 4);
    assert_eq!(get_piece_column_index(PieceType::Pawn), 5);
}

#[test]
fn opposite_sides() {
    assert_eq!(opposite_color(PieceColor::White), PieceColor::Black);
    assert_eq!(opposite_color(PieceColor::Black), PieceColor::White);
}

#[test]
fn bounds() {
    assert!(in_bounds(0, 0));
    assert!(in_bounds(7, 7));
    assert!(!in_bounds(-1, 3));
    assert!(!in_bounds(3, 8));
}

#[test]
fn pawn_from_start_and_captures() {
    let mut b = start_board();
    assert_eq!(pawn_moves(&b, 6, 4, PieceColor::White), vec![(5, 4), (4, 4)]);
    assert_eq!(pawn_moves(&b, 1, 3, PieceColor::Black), vec![(2, 3), (3, 3)]);
    b[5][3] = p(PieceType::Knight, PieceColor::Black);
    b[5][5] = p(PieceType::Knight, PieceColor::White);
    assert_eq!(pawn_moves(&b, 6, 4, PieceColor::White), vec![(5, 4), (4, 4), (5, 3)]);
    b[5][4] = p(PieceType::Pawn, PieceColor::Black);
    assert_eq!(pawn_moves(&b, 6, 4, PieceColor::White), vec![(5, 3)]);
}

#[test]
fn knight_and_king_steps() {
    let b = start_board();
    assert_eq!(knight_moves(&b, 7, 1, PieceColor::White), vec![(5, 0), (5, 2)]);
    assert_eq!(king_moves(&b, 7, 4, PieceColor::White), Vec::<(usize, usize)>::new());
    let e = empty_board();
    assert_eq!(king_moves(&e, 0, 0, PieceColor::White), vec![(0, 1), (1, 0), (1, 1)]);
}

#[test]
fn rook_slides_until_blocked() {
    let mut b = empty_board();
    b[3][3] = p(PieceType::Rook, PieceColor::White);
    b[1][3] = p(PieceType::Pawn, PieceColor::Black);
    b[3][5] = p(PieceType::Pawn, PieceColor::White);
    let moves = sliding_moves(&b, 3, 3, PieceColor::White, &[(-1, 0), (1, 0), (0, -1), (0, 1)]);
    assert_eq!(
        moves,
        vec![(2, 3), (1, 3), (4, 3), (5, 3), (6, 3), (7, 3), (3, 2), (3, 1), (3, 0), (3, 4)]
    );
    let rook = Piece { piece_type: PieceType::Rook, color: PieceColor::White };
    assert_eq!(pseudo_moves_for_piece(&b, 3, 3, rook), moves);
}

#[test]
fn start_position_has_twenty_moves() {
    let b = start_board();
    assert_eq!(collect_legal_moves_static(&b, PieceColor::White).len(), 20);
    assert_eq!(collect_legal_moves_static(&b, PieceColor::Black).len(), 20);
    assert!(!is_king_in_check_static(&b, PieceColor::White));
}

#[test]
fn check_by_rook_and_pinned_piece() {
    let mut b = empty_board();
    b[7][4] = p(PieceType::King, PieceColor::White);
    b[0][4] = p(PieceType::Rook, PieceColor::Black);
    b[0][0] = p(PieceType::King, PieceColor::Black);
    assert!(is_king_in_check_static(&b, PieceColor::White));
    assert!(is_square_attacked(&b, 7, 4, PieceColor::Black));
    assert!(!is_square_attacked(&b, 7, 3, PieceColor::Black));
    // A white knight blocking the file is pinned: it has no legal move.
    b[5][4] = p(PieceType::Knight, PieceColor::White);
    assert!(!is_king_in_check_static(&b, PieceColor::White));
    let moves = collect_legal_moves_static(&b, PieceColor::White);
    assert!(moves.iter().all(|m| !(m.from_row == 5 && m.from_col == 4)));
    assert_eq!(moves.len(), 5);
}

#[test]
fn pawn_attacks_diagonally_only() {
    let mut b = empty_board();
    b[4][4] = p(PieceType::Pawn, PieceColor::Black);
    assert!(is_square_attacked(&b, 5, 3, PieceColor::Black));
    assert!(is_square_attacked(&b, 5, 5, PieceColor::Black));
    assert!(!is_square_attacked(&b, 5, 4, PieceColor::Black));
    assert!(!is_square_attacked(&b, 3, 3, PieceColor::Black));
}

#[test]
fn move_promotes_pawn_on_last_row() {
    let mut b = empty_board();
    b[1][0] = p(PieceType::Pawn, PieceColor::White);
    apply_move_on_board(&mut b, AiMove::new(1, 0, 0, 0));
    assert_eq!(b[0][0], p(PieceType::Queen, PieceColor::White));
    assert_eq!(b[1][0], None);
    let before = b;
    apply_move_on_board(&mut b, AiMove::new(4, 4, 3, 4));
    assert_eq!(b, before);
}

#[test]
fn piece_values_in_two_hundredths() {
    assert_eq!(piece_value(PieceType::Pawn), 200);
    assert_eq!(piece_value(PieceType::Knight), 600);
    assert_eq!(piece_value(PieceType::Bishop), 620);
    assert_eq!(piece_value(PieceType::Rook), 1000);
    assert_eq!(piece_value(PieceType::Queen), 1800);
    assert_eq!(piece_value(PieceType::King), 20000);
}

#[test]
fn engine_finds_the_mate_in_one() {
    let mut b = empty_board();
    b[0][7] = p(PieceType::King, PieceColor::Black);
    b[2][6] = p(PieceType::King, PieceColor::White);
    b[7][0] = p(PieceType::Rook, PieceColor::White);
    let moves = collect_legal_moves_static(&b, PieceColor::White);
    let ai = ChessAi::new("unused.json");
    let choice = ai.choose_move_balanced(&b, PieceColor::White, &moves, false, None);
    assert_eq!(choice, Some(AiMove::new(7, 0, 0, 0)));
}

#[test]
fn engine_without_moves_returns_none() {
    let b = start_board();
    let ai = ChessAi::new(String::from("x"));
    assert_eq!(ai.choose_move_balanced(&b, PieceColor::White, &[], false, None), None);
}

#[test]
fn engine_picks_a_listed_move() {
    let b = start_board();
    let moves = collect_legal_moves_static(&b, PieceColor::White);
    let ai = ChessAi::new("x");
    let choice = ai.choose_move_balanced(&b, PieceColor::White, &moves, false, None).unwrap();
    assert!(moves.contains(&choice));
}
