use chess::board::{
    create_pieces, Board, PlayerTurn, SelectedPiece, SelectedSquare, Square, SquareEvent,
};
use chess::pieces::{Piece, PieceColor, PieceType};

fn chosen(x: u8, y: u8) -> SquareEvent {
    SquareEvent::Chosen(Square { x, y })
}

fn cleared(x: u8, y: u8) -> SquareEvent {
    SquareEvent::Cleared(Square { x, y })
}

fn piece_at(board: &Board, x: u8, y: u8) -> Option<Piece> {
    board.pieces.iter().copied().find(|p| p.x == x && p.y == y)
}

fn board_with(pieces: Vec<Piece>, turn: PieceColor) -> Board {
    Board {
        pieces,
        selected_square: SelectedSquare { square: None },
        selected_piece: SelectedPiece { index: None },
        turn: PlayerTurn(turn),
        taken: None,
    }
}

#[test]
fn starting_position() {
    let pieces = create_pieces();
    assert_eq!(pieces.len(), 32);
    let back = [
        PieceType::Rook,
        PieceType::Knight,
        PieceType::Bishop,
        PieceType::Queen,
        PieceType::King,
        PieceType::Bishop,
        PieceType::Knight,
        PieceType::Rook,
    ];
    for y in 0u8..8 {
        for (x, color, kind) in [
            (0u8, PieceColor::White, back[y as usize]),
            (1, PieceColor::White, PieceType::Pawn),
            (6, PieceColor::Black, PieceType::Pawn),
            (7, PieceColor::Black, back[y as usize]),
        ] {
            let n = pieces.iter().filter(|p| p.x == x && p.y == y).count();
            assert_eq!(n, 1);
            let p = pieces.iter().find(|p| p.x == x && p.y == y).unwrap();
            assert_eq!(p.color, color);
            assert_eq!(p.piece_type, kind);
        }
    }
    let board = Board::new();
    assert_eq!(board.pieces, pieces);
    assert_eq!(board.turn, PlayerTurn(PieceColor::White));
    assert_eq!(board.selected_square.square, None);
    assert_eq!(board.selected_piece.index, None);
    assert_eq!(board.taken, None);
}

#[test]
fn turn_toggles_and_names() {
    let mut turn = PlayerTurn::default();
    assert_eq!(turn.0, PieceColor::White);
    assert_eq!(turn.name(), "White");
    turn.toggle();
    assert_eq!(turn.0, PieceColor::Black);
    assert_eq!(turn.name(), "Black");
    turn.toggle();
    assert_eq!(turn.0, PieceColor::White);
}

#[test]
fn pawn_double_step_from_start() {
    let mut board = Board::new();
    assert!(!board.update(&vec![chosen(1, 0)]));
    assert_eq!(board.selected_square.square, Some(Square { x: 1, y: 0 }));
    assert_eq!(board.selected_piece.index, Some(8));
    assert!(!board.update(&vec![cleared(1, 0), chosen(3, 0)]));
    let pawn = piece_at(&board, 3, 0).unwrap();
    assert_eq!(pawn.piece_type, PieceType::Pawn);
    assert_eq!(pawn.color, PieceColor::White);
    assert_eq!(piece_at(&board, 1, 0), None);
    assert_eq!(board.turn.0, PieceColor::Black);
    assert_eq!(board.pieces.len(), 32);
    assert_eq!(board.selected_square.square, None);
    assert_eq!(board.selected_piece.index, None);
}

#[test]
fn pawn_move_with_only_the_new_square_reported() {
    let mut board = Board::new();
    board.update(&vec![chosen(1, 0)]);
    board.update(&vec![chosen(3, 0)]);
    assert_eq!(piece_at(&board, 3, 0).map(|p| p.piece_type), Some(PieceType::Pawn));
    assert_eq!(board.turn.0, PieceColor::Black);
}

#[test]
fn blocked_rook_move_changes_nothing() {
    let mut board = Board::new();
    board.update(&vec![chosen(0, 0)]);
    assert_eq!(board.selected_piece.index, Some(0));
    board.update(&vec![chosen(0, 3)]);
    assert_eq!(board.pieces, create_pieces());
    assert_eq!(board.turn.0, PieceColor::White);
    assert_eq!(board.selected_square.square, None);
    assert_eq!(board.selected_piece.index, None);
}

#[test]
fn selecting_an_opponent_piece_selects_nothing() {
    let mut board = Board::new();
    board.update(&vec![chosen(6, 0)]);
    assert_eq!(board.selected_square.square, Some(Square { x: 6, y: 0 }));
    assert_eq!(board.selected_piece.index, None);
    // The next square is resolved afresh.
    board.update(&vec![chosen(1, 1)]);
    assert_eq!(board.selected_piece.index, Some(9));
}

#[test]
fn deselecting_drops_the_piece() {
    let mut board = Board::new();
    board.update(&vec![chosen(1, 3)]);
    assert_eq!(board.selected_piece.index, Some(11));
    board.update(&vec![cleared(1, 3)]);
    assert_eq!(board.selected_square.square, None);
    assert_eq!(board.selected_piece.index, None);
    assert_eq!(board.pieces, create_pieces());
}

#[test]
fn clearing_twice_is_a_no_op() {
    let mut board = Board::new();
    board.update(&vec![chosen(1, 3)]);
    board.update(&vec![cleared(1, 3)]);
    let pieces = board.pieces.clone();
    let square = board.selected_square;
    let piece = board.selected_piece;
    assert!(!board.select_squares(&vec![cleared(1, 3)]));
    assert!(!board.update(&vec![cleared(1, 3)]));
    assert_eq!(board.pieces, pieces);
    assert_eq!(board.selected_square, square);
    assert_eq!(board.selected_piece, piece);
    assert_eq!(board.turn.0, PieceColor::White);
    // Clearing a square other than the selected one keeps the selection.
    board.update(&vec![chosen(1, 4)]);
    board.update(&vec![cleared(2, 2)]);
    board.update(&vec![cleared(2, 2)]);
    assert_eq!(board.selected_square.square, Some(Square { x: 1, y: 4 }));
    assert_eq!(board.selected_piece.index, Some(12));
}

#[test]
fn pawn_capture_removes_the_piece() {
    let mut board = Board::new();
    for events in [
        vec![chosen(1, 4)],
        vec![chosen(3, 4)],
        vec![chosen(6, 3)],
        vec![chosen(4, 3)],
        vec![chosen(3, 4)],
    ] {
        assert!(!board.update(&events));
    }
    assert_eq!(board.turn.0, PieceColor::White);
    assert_eq!(board.selected_piece.index, Some(12));
    // White takes on (4, 3), step by step.
    let square_changed = board.select_squares(&vec![chosen(4, 3)]);
    assert!(square_changed);
    let piece_changed = board.select_piece(square_changed);
    assert!(!piece_changed);
    board.move_piece(square_changed, piece_changed);
    let taken = board.taken.unwrap();
    assert_eq!(board.pieces[taken].color, PieceColor::Black);
    assert_eq!(board.pieces[taken].piece_type, PieceType::Pawn);
    assert_eq!((board.pieces[taken].x, board.pieces[taken].y), (4, 3));
    assert_eq!(board.pieces.len(), 32);
    assert!(!board.remove_taken_pieces());
    assert_eq!(board.taken, None);
    assert_eq!(board.pieces.len(), 31);
    let p = piece_at(&board, 4, 3).unwrap();
    assert_eq!((p.color, p.piece_type), (PieceColor::White, PieceType::Pawn));
    assert_eq!(board.turn.0, PieceColor::Black);
}

#[test]
fn taking_the_king_ends_the_game() {
    let pieces = vec![
        Piece { color: PieceColor::White, piece_type: PieceType::Rook, x: 0, y: 0 },
        Piece { color: PieceColor::White, piece_type: PieceType::King, x: 0, y: 7 },
        Piece { color: PieceColor::Black, piece_type: PieceType::King, x: 5, y: 0 },
    ];
    let mut board = board_with(pieces, PieceColor::White);
    assert!(!board.update(&vec![chosen(0, 0)]));
    assert_eq!(board.selected_piece.index, Some(0));
    let square_changed = board.select_squares(&vec![chosen(5, 0)]);
    let piece_changed = board.select_piece(square_changed);
    board.move_piece(square_changed, piece_changed);
    assert_eq!(board.taken, Some(2));
    assert!(board.remove_taken_pieces());
    assert_eq!(board.pieces.len(), 2);
    assert!(board.pieces.iter().all(|p| p.color == PieceColor::White));
    assert_eq!(piece_at(&board, 5, 0).map(|p| p.piece_type), Some(PieceType::Rook));
}

#[test]
fn taking_the_king_in_one_update() {
    let pieces = vec![
        Piece { color: PieceColor::Black, piece_type: PieceType::Queen, x: 7, y: 3 },
        Piece { color: PieceColor::White, piece_type: PieceType::King, x: 4, y: 0 },
        Piece { color: PieceColor::Black, piece_type: PieceType::King, x: 7, y: 4 },
    ];
    let mut board = board_with(pieces, PieceColor::Black);
    assert!(!board.update(&vec![chosen(7, 3)]));
    assert!(board.update(&vec![cleared(7, 3), chosen(4, 0)]));
    assert_eq!(board.pieces.len(), 2);
    assert_eq!(board.turn.0, PieceColor::White);
    assert_eq!(board.taken, None);
}

#[test]
fn illegal_move_needs_a_new_selection() {
    let mut board = Board::new();
    board.update(&vec![chosen(0, 1)]);
    assert_eq!(board.selected_piece.index, Some(1));
    // A knight cannot go straight ahead.
    board.update(&vec![chosen(3, 1)]);
    assert_eq!(board.selected_piece.index, None);
    assert_eq!(board.turn.0, PieceColor::White);
    // Picking the target again only selects a square.
    board.update(&vec![chosen(2, 2)]);
    assert_eq!(board.selected_piece.index, None);
    board.update(&vec![chosen(0, 1)]);
    board.update(&vec![chosen(2, 2)]);
    assert_eq!(piece_at(&board, 2, 2).map(|p| p.piece_type), Some(PieceType::Knight));
    assert_eq!(board.turn.0, PieceColor::Black);
}

#[test]
fn board_checks() {
    let mut board = Board::new();
    assert!(board.is_well_formed());
    assert!(board.has_unique_positions());
    assert!(board.is_settled());
    board.update(&vec![chosen(1, 2)]);
    assert!(board.is_settled());
    board.pieces.push(Piece { color: PieceColor::Black, piece_type: PieceType::Pawn, x: 1, y: 2 });
    assert!(!board.has_unique_positions());
    assert!(!board.is_settled());
    board.pieces.pop();
    board.selected_piece.index = Some(40);
    assert!(!board.is_well_formed());
    board.selected_piece.index = Some(16);
    assert!(!board.is_well_formed());
    board.selected_piece.index = None;
    board.taken = Some(3);
    assert!(board.is_well_formed());
    assert!(!board.is_settled());
}
