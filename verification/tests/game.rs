use rust_tetris_core::board::Board;
use rust_tetris_core::enums::{PieceType, PieceTypeColor, Rotation};
use rust_tetris_core::game::{
    fall, freeze_piece, handle_clear, handle_hold, hard_drop, init_piece, piece_move_step,
    spawn_piece, HoldOutcome, MoveState, SPAWN_COL,
};
use rust_tetris_core::holder::{HoldPiece, Swappable};
use rust_tetris_core::piece_bag::PieceBag;
use rust_tetris_core::pieces::{Piece, PieceWithPosition};
use rust_tetris_core::test_utils::load_board;

#[test]
fn test_init_piece_places_at_the_entry() {
    let board = Board::new(40, 10);
    let p = init_piece(Piece::new(PieceType::I), &board).unwrap();
    assert_eq!((p.row(), p.col()), (18, 3));
    assert_eq!(SPAWN_COL, 3);
    assert_eq!(p.tetris_piece_ref().piece_type, PieceType::I);
    for pt in [
        PieceType::T,
        PieceType::L,
        PieceType::J,
        PieceType::O,
        PieceType::S,
        PieceType::Z,
    ] {
        let p = init_piece(Piece::new(pt), &board).unwrap();
        assert_eq!((p.row(), p.col()), (19, 3));
        assert_eq!(p.tetris_piece_ref().piece_type, pt);
        assert_eq!(p.tetris_piece_ref().rotation, Rotation::R0);
    }
}

#[test]
fn test_init_piece_without_room_gives_nothing() {
    let mut board = Board::new(40, 10);
    board.set(20, 4, PieceTypeColor::NotPlayable);
    assert!(init_piece(Piece::new(PieceType::T), &board).is_none());
    assert!(init_piece(Piece::new(PieceType::I), &board).is_some());
    board.set(19, 6, PieceTypeColor::NotPlayable);
    assert!(init_piece(Piece::new(PieceType::I), &board).is_none());
    let low = Board::new(20, 10);
    assert!(init_piece(Piece::new(PieceType::T), &low).is_none());
    let i = init_piece(Piece::new(PieceType::I), &low).unwrap();
    assert_eq!((i.row(), i.col()), (18, 3));
}

#[test]
fn test_spawn_piece_frees_the_hold_and_draws() {
    let board = Board::new(40, 10);
    let mut bag = PieceBag::new(5, Some(0xDEADBEEF));
    let mut hold = Some(HoldPiece::new(Piece::new(PieceType::Z)));
    assert!(!hold.can_swap());
    let p = spawn_piece(&mut hold, &mut bag, &board).unwrap();
    assert_eq!(p.tetris_piece_ref().piece_type, PieceType::L);
    assert_eq!((p.row(), p.col()), (19, 3));
    assert!(hold.can_swap());
    assert_eq!(hold.as_ref().unwrap().piece.piece_type, PieceType::Z);
    assert_eq!(bag.buffer_next_pieces.len(), 5);

    let mut empty: Option<HoldPiece> = None;
    let p = spawn_piece(&mut empty, &mut bag, &board).unwrap();
    assert_eq!(p.tetris_piece_ref().piece_type, PieceType::O);
    assert!(empty.is_none());
}

#[test]
fn test_fall_stops_above_the_ground() {
    let board = Board::new(10, 10);
    let mut p = PieceWithPosition::new(5, 3, Piece::new(PieceType::T));
    assert_eq!(fall(&mut p, 0, &board), 0);
    assert_eq!(p.row(), 5);
    assert_eq!(fall(&mut p, 3, &board), 3);
    assert_eq!((p.row(), p.col()), (2, 3));
    assert_eq!(fall(&mut p, 100, &board), 2);
    assert_eq!((p.row(), p.col()), (0, 3));
    assert_eq!(fall(&mut p, usize::MAX, &board), 0);
    assert_eq!((p.row(), p.col()), (0, 3));
}

#[test]
fn test_hard_drop_rests_on_blocks() {
    let mut board = Board::new(10, 10);
    load_board(&mut board, "          ****      ");
    let mut p = PieceWithPosition::new(7, 3, Piece::new(PieceType::T));
    hard_drop(&mut p, &board);
    assert_eq!((p.row(), p.col()), (1, 3));
    assert!(p.collides_down(&board));
    assert!(!p.collides(&board));
    hard_drop(&mut p, &board);
    assert_eq!((p.row(), p.col()), (1, 3));

    let mut q = PieceWithPosition::new(7, 0, Piece::new(PieceType::T));
    hard_drop(&mut q, &board);
    assert_eq!((q.row(), q.col()), (2, 0));

    let mut i = PieceWithPosition::new(7, 5, Piece::new(PieceType::I));
    hard_drop(&mut i, &board);
    assert_eq!((i.row(), i.col()), (-1, 5));
}

#[test]
fn test_piece_move_step() {
    let board = Board::new(10, 10);
    let mut p = PieceWithPosition::new(5, 5, Piece::new(PieceType::T));
    assert!(!piece_move_step(&mut p, MoveState::Left, 2, &board));
    assert_eq!((p.row(), p.col()), (5, 3));
    assert!(!piece_move_step(&mut p, MoveState::No, 2, &board));
    assert_eq!((p.row(), p.col()), (5, 3));
    assert!(!piece_move_step(&mut p, MoveState::Left, 7, &board));
    assert_eq!((p.row(), p.col()), (5, 0));
    assert!(!piece_move_step(&mut p, MoveState::Right, usize::MAX, &board));
    assert_eq!((p.row(), p.col()), (5, 7));
    assert!(!piece_move_step(&mut p, MoveState::Right, 1, &board));
    assert_eq!((p.row(), p.col()), (5, 7));

    let mut g = PieceWithPosition::new(0, 4, Piece::new(PieceType::T));
    assert!(piece_move_step(&mut g, MoveState::Left, 1, &board));
    assert_eq!((g.row(), g.col()), (0, 3));
    assert!(!piece_move_step(&mut g, MoveState::Left, 0, &board));
    assert!(piece_move_step(&mut g, MoveState::Right, 2, &board));
    assert_eq!((g.row(), g.col()), (0, 5));
}

#[test]
fn test_piece_move_step_off_a_ledge() {
    let mut board = Board::new(10, 10);
    load_board(&mut board, "*****     ");
    let mut p = PieceWithPosition::new(1, 3, Piece::new(PieceType::O));
    assert!(p.collides_down(&board));
    assert!(!piece_move_step(&mut p, MoveState::Right, 3, &board));
    assert_eq!((p.row(), p.col()), (1, 6));
    assert!(!p.collides_down(&board));
}

#[test]
fn test_handle_hold_swaps_once() {
    let board = Board::new(40, 10);
    let mut bag = PieceBag::new(5, Some(0xDEADBEEF));
    let mut hold: Option<HoldPiece> = None;
    let current = PieceWithPosition::new(
        10,
        4,
        Piece::with_rotation(PieceType::S, Rotation::R180),
    );
    let next = match handle_hold(current, &mut hold, &mut bag, &board) {
        HoldOutcome::Swapped(Some(next)) => next,
        other => panic!("{:?}", other),
    };
    assert_eq!(next.tetris_piece_ref().piece_type, PieceType::L);
    assert_eq!((next.row(), next.col()), (19, 3));
    let held = hold.as_ref().unwrap();
    assert_eq!(held.piece.piece_type, PieceType::S);
    assert_eq!(held.piece.rotation, Rotation::R0);
    assert_eq!(held.piece.to_string(), Piece::new(PieceType::S).to_string());
    assert!(held.already_hold);

    let back = match handle_hold(next, &mut hold, &mut bag, &board) {
        HoldOutcome::Refused(back) => back,
        other => panic!("{:?}", other),
    };
    assert_eq!(back.tetris_piece_ref().piece_type, PieceType::L);
    assert_eq!(hold.as_ref().unwrap().piece.piece_type, PieceType::S);
    assert_eq!(bag.buffer_next_pieces.len(), 5);

    hold.as_mut().unwrap().reset_hold();
    let swapped = match handle_hold(back, &mut hold, &mut bag, &board) {
        HoldOutcome::Swapped(Some(next)) => next,
        other => panic!("{:?}", other),
    };
    assert_eq!(swapped.tetris_piece_ref().piece_type, PieceType::S);
    assert_eq!((swapped.row(), swapped.col()), (19, 3));
    assert_eq!(hold.as_ref().unwrap().piece.piece_type, PieceType::L);
    assert!(!hold.can_swap());
    assert_eq!(bag.next_piece().piece_type, PieceType::O);
}

#[test]
fn test_handle_hold_without_room_for_the_next() {
    let mut board = Board::new(40, 10);
    load_board(&mut board, &"*".repeat(400));
    let mut bag = PieceBag::new(5, Some(1));
    let mut hold: Option<HoldPiece> = None;
    let current = PieceWithPosition::new(10, 4, Piece::new(PieceType::J));
    match handle_hold(current, &mut hold, &mut bag, &board) {
        HoldOutcome::Swapped(None) => {}
        other => panic!("{:?}", other),
    }
    assert_eq!(hold.as_ref().unwrap().piece.piece_type, PieceType::J);
}

#[test]
fn test_handle_clear_counts_the_rows() {
    let mut board = Board::new(6, 3);
    load_board(&mut board, "****  ******L  ***");
    assert_eq!(handle_clear(&mut board), 4);
    assert_eq!(board.picture(), "   \n   \n   \n   \n*  \n*  \n");
    assert_eq!(handle_clear(&mut board), 0);
    assert_eq!(board.picture(), "   \n   \n   \n   \n*  \n*  \n");
}

#[test]
fn test_freeze_piece_locks_and_clears() {
    let mut board = Board::new(5, 4);
    load_board(&mut board, "*  **  *");
    let p = PieceWithPosition::new(0, 1, Piece::new(PieceType::O));
    assert_eq!(freeze_piece(&p, &mut board), 2);
    assert!(board.is_empty());
    load_board(&mut board, "*    *");
    let p = PieceWithPosition::new(0, 0, Piece::new(PieceType::L));
    assert_eq!(freeze_piece(&p, &mut board), 0);
    assert_eq!(board.picture(), "    \n    \n    \n*** \n* * \n");
}

#[test]
fn test_try_rotate_turns_and_kicks() {
    let board = Board::new(10, 10);
    let mut p = PieceWithPosition::new(4, 4, Piece::new(PieceType::T));
    assert!(p.try_rotate(&board));
    assert_eq!(p.tetris_piece_ref().rotation, Rotation::R90);
    assert_eq!((p.row(), p.col()), (4, 4));
    assert!(p.try_rotate_prev(&board));
    assert_eq!(p.tetris_piece_ref().rotation, Rotation::R0);
    assert_eq!((p.row(), p.col()), (4, 4));
    assert!(p.try_rotate_prev(&board));
    assert_eq!(p.tetris_piece_ref().rotation, Rotation::R270);

    let mut wall = PieceWithPosition::new(
        4,
        -1,
        Piece::with_rotation(PieceType::T, Rotation::R90),
    );
    assert!(!wall.collides(&board));
    assert!(wall.try_rotate(&board));
    assert_eq!(wall.tetris_piece_ref().rotation, Rotation::R180);
    assert_eq!((wall.row(), wall.col()), (4, 0));
    assert!(!wall.collides(&board));
}

#[test]
fn test_try_rotate_without_room_changes_nothing() {
    let mut board = Board::new(4, 4);
    load_board(&mut board, "*****  **  *****");
    let mut o = PieceWithPosition::new(1, 1, Piece::new(PieceType::O));
    assert!(!o.collides(&board));
    assert!(o.try_rotate(&board));
    assert_eq!(o.tetris_piece_ref().rotation, Rotation::R90);
    assert_eq!((o.row(), o.col()), (1, 1));

    let mut full = Board::new(6, 6);
    load_board(&mut full, &"*".repeat(36));
    let mut stuck = PieceWithPosition::new(2, 2, Piece::new(PieceType::L));
    assert!(!stuck.try_rotate(&full));
    assert_eq!(stuck.tetris_piece_ref().rotation, Rotation::R0);
    assert_eq!((stuck.row(), stuck.col()), (2, 2));
    assert_eq!(stuck.tetris_piece_ref().to_string(), Piece::new(PieceType::L).to_string());
    assert!(!stuck.try_rotate_prev(&full));
    assert_eq!(stuck.tetris_piece_ref().rotation, Rotation::R0);
    assert_eq!((stuck.row(), stuck.col()), (2, 2));
}

#[test]
fn test_try_rotate_180() {
    let board = Board::new(10, 10);
    let mut p = PieceWithPosition::new(4, 4, Piece::new(PieceType::T));
    assert!(p.try_rotate_180(&board));
    assert_eq!(p.tetris_piece_ref().rotation, Rotation::R180);
    assert_eq!((p.row(), p.col()), (4, 4));
    assert_eq!(p.tetris_piece_ref().to_string(), "   \n***\n * \n");

    let mut full = Board::new(6, 6);
    load_board(&mut full, &"*".repeat(36));
    let mut stuck = PieceWithPosition::new(
        2,
        2,
        Piece::with_rotation(PieceType::J, Rotation::R90),
    );
    assert!(!stuck.try_rotate_180(&full));
    assert_eq!(stuck.tetris_piece_ref().rotation, Rotation::R90);
    assert_eq!((stuck.row(), stuck.col()), (2, 2));

    let mut slot = Board::new(4, 3);
    load_board(&mut slot, "* ** ** ** *");
    let mut i = PieceWithPosition::new(0, -1, Piece::with_rotation(PieceType::I, Rotation::R90));
    assert!(!i.collides(&slot));
    assert!(!i.try_rotate_180(&slot));
    assert_eq!(i.tetris_piece_ref().rotation, Rotation::R90);
    assert_eq!((i.row(), i.col()), (0, -1));
    assert_eq!(
        i.tetris_piece_ref().to_string(),
        Piece::with_rotation(PieceType::I, Rotation::R90).to_string()
    );
}
