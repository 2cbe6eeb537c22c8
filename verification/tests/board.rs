use rust_tetris_core::board::{
    is_filled, not_playable_piece_to_cell, playable_piece_to_cell, Board, Cell,
};
use rust_tetris_core::enums::{PieceType, PieceTypeColor};
use rust_tetris_core::test_utils::load_board;

#[test]
fn test_is_filled() {
    assert!(is_filled(Cell::Filled(PieceTypeColor::NotPlayable)));
    assert!(is_filled(Cell::Filled(PieceTypeColor::Playable(PieceType::I))));
    assert!(!is_filled(Cell::Empty));
}

#[test]
fn test_playable_piece_to_cell() {
    let pt = PieceType::I;
    assert_eq!(
        playable_piece_to_cell(pt),
        Cell::Filled(PieceTypeColor::Playable(pt))
    );
}

#[test]
fn test_not_playable_piece_to_cell() {
    assert_eq!(
        not_playable_piece_to_cell(),
        Cell::Filled(PieceTypeColor::NotPlayable)
    );
}

#[test]
fn test_board_is_in_bounds() {
    let mut board = Board::new(5, 3);
    load_board(&mut board, "     *  *******");

    assert!(!board.is_in_bounds(-1, 0));
    assert!(!board.is_in_bounds(0, -1));
    assert!(board.is_in_bounds(0, 1));
    assert!(board.is_in_bounds(0, 2));
    assert!(!board.is_in_bounds(6, 0));
    assert!(!board.is_in_bounds(0, 4));
}

#[test]
fn test_board_is_in_bounds_edges() {
    let board = Board::new(5, 3);
    assert!(board.is_in_bounds(0, 0));
    assert!(board.is_in_bounds(4, 2));
    assert!(!board.is_in_bounds(5, 0));
    assert!(!board.is_in_bounds(0, 3));
    assert!(!board.is_in_bounds(isize::MIN, isize::MAX));
}

#[test]
fn test_board_get() {
    let mut board = Board::new(5, 3);
    load_board(&mut board, "     *  OILTSJZ");
    assert_eq!(board.get(0, 0), Cell::Empty);
    assert_eq!(board.get(1, 2), Cell::Filled(PieceTypeColor::NotPlayable));
    assert_eq!(
        board.get(2, 2),
        Cell::Filled(PieceTypeColor::Playable(PieceType::O))
    );
    assert_eq!(
        board.get(3, 0),
        Cell::Filled(PieceTypeColor::Playable(PieceType::I))
    );
    assert_eq!(
        board.get(3, 1),
        Cell::Filled(PieceTypeColor::Playable(PieceType::L))
    );
    assert_eq!(
        board.get(3, 2),
        Cell::Filled(PieceTypeColor::Playable(PieceType::T))
    );
    assert_eq!(
        board.get(4, 0),
        Cell::Filled(PieceTypeColor::Playable(PieceType::S))
    );
    assert_eq!(
        board.get(4, 1),
        Cell::Filled(PieceTypeColor::Playable(PieceType::J))
    );
    assert_eq!(
        board.get(4, 2),
        Cell::Filled(PieceTypeColor::Playable(PieceType::Z))
    );
}

#[test]
fn test_is_set() {
    let mut board = Board::new(5, 3);
    load_board(&mut board, "     *  OILTSJZ");
    assert!(!board.is_set(0, 0));
    assert!(board.is_set(1, 2));
    assert!(board.is_set(2, 2));
    assert!(!board.is_set(-2, 2));
    assert!(!board.is_set(5, 0));
    assert!(!board.is_set(0, 3));
}

#[test]
fn test_new_board_is_blank() {
    let board = Board::new(4, 6);
    assert_eq!(board.rows, 4);
    assert_eq!(board.cols, 6);
    assert_eq!(board.rows().len(), 4);
    for i in 0..4 {
        assert_eq!(board.rows()[i].len(), 6);
        for j in 0..6 {
            assert_eq!(board.get(i as isize, j), Cell::Empty);
        }
    }
    assert!(board.is_empty());
}

#[test]
fn test_new_board_without_cells() {
    let mut board = Board::new(0, 0);
    assert!(board.is_empty());
    assert_eq!(board.completed_rows(), vec![]);
    assert_eq!(board.get_first_set_col(), None);
    assert_eq!(board.get_last_set_col(), None);
    assert_eq!(board.picture(), "");
}

#[test]
fn test_set_clear_set_val() {
    let mut board = Board::new(3, 3);
    board.set(1, 2, PieceTypeColor::Playable(PieceType::S));
    assert_eq!(
        board.get(1, 2),
        Cell::Filled(PieceTypeColor::Playable(PieceType::S))
    );
    assert!(!board.is_empty());
    board.set_val(0, 0, Cell::Filled(PieceTypeColor::NotPlayable));
    assert_eq!(board.get(0, 0), Cell::Filled(PieceTypeColor::NotPlayable));
    board.clear(1, 2);
    assert_eq!(board.get(1, 2), Cell::Empty);
    board.set_val(0, 0, Cell::Empty);
    assert!(board.is_empty());
}

#[test]
fn test_clear_all() {
    let mut board = Board::new(5, 3);
    load_board(&mut board, "*** * *********");
    board.clear_all();
    assert!(board.is_empty());
    assert_eq!(board.rows, 5);
    assert_eq!(board.cols, 3);
}

#[test]
fn test_is_complete_is_every_column_filled() {
    let mut board = Board::new(5, 3);
    load_board(&mut board, "*** * **T   ");
    assert!(board.is_complete(0));
    assert!(!board.is_complete(1));
    assert!(board.is_complete(2));
    assert!(!board.is_complete(3));
    assert!(!board.is_complete(4));
    for i in 0..5 {
        let all = (0..3).all(|j| board.is_set(i, j));
        assert_eq!(board.is_complete(i), all);
    }
}

#[test]
fn test_completed_rows_are_maximal_runs_from_the_top() {
    let mut board = Board::new(10, 4);
    for i in [2, 3, 4, 7] {
        for j in 0..4 {
            board.set(i, j, PieceTypeColor::NotPlayable);
        }
    }
    assert_eq!(board.completed_rows(), vec![(7, 7), (4, 2)]);
}

#[test]
fn test_completed_rows_none_and_all() {
    let mut board = Board::new(3, 2);
    assert_eq!(board.completed_rows(), vec![]);
    load_board(&mut board, "******");
    assert_eq!(board.completed_rows(), vec![(2, 0)]);
    board.clear(1, 0);
    assert_eq!(board.completed_rows(), vec![(2, 2), (0, 0)]);
}

#[test]
fn test_completed_rows_leaves_board_as_it_is() {
    let mut board = Board::new(5, 3);
    load_board(&mut board, "*** * *********");
    let before = board.clone();
    let _ = board.completed_rows();
    assert_eq!(board.rows(), before.rows());
}

#[test]
fn test_board_remove_rows() {
    let mut board = Board::new(5, 3);

    load_board(&mut board, "*** * *********");

    let ranges = board.completed_rows();
    board.remove_ranges(ranges);

    for i in 0..5 {
        for j in 0..3 {
            if i == 0 && j == 1 {
                assert!(is_filled(board.get(i, j)));
            } else {
                assert!(!is_filled(board.get(i, j)));
            }
        }
    }
}

#[test]
fn test_board_remove_rows3() {
    let mut board = Board::new(5, 3);

    load_board(&mut board, "      *********");

    let ranges = board.completed_rows();
    board.remove_ranges(ranges);

    for i in 0..5 {
        for j in 0..3 {
            assert!(!is_filled(board.get(i, j)));
        }
    }
}

#[test]
fn test_remove_then_completed_rows_is_empty() {
    let mut board = Board::new(6, 3);
    load_board(&mut board, "****  ******L  ***");
    let ranges = board.completed_rows();
    assert_eq!(ranges, vec![(5, 5), (3, 2), (0, 0)]);
    board.remove_ranges(ranges);
    assert_eq!(board.completed_rows(), vec![]);
    assert_eq!(board.picture(), "   \n   \n   \n   \n*  \n*  \n");
}

#[test]
fn test_remove_rows_shifts_rows_above() {
    let mut board = Board::new(5, 2);
    load_board(&mut board, "T LLJJS  Z");
    board.remove_rows(2, 1);
    assert_eq!(board.picture(), "  \n  \n *\n* \n* \n");
    assert_eq!(board.rows, 5);
    assert_eq!(board.cols, 2);
}

#[test]
fn test_remove_row() {
    let mut board = Board::new(3, 2);
    load_board(&mut board, "T LLJ ");
    board.remove_row(1);
    assert_eq!(board.picture(), "  \n* \n* \n");
    assert_eq!(
        board.get(1, 0),
        Cell::Filled(PieceTypeColor::Playable(PieceType::J))
    );
    board.remove_row(2);
    assert_eq!(board.picture(), "  \n* \n* \n");
    board.remove_row(0);
    assert_eq!(board.picture(), "  \n  \n* \n");
    assert_eq!(
        board.get(0, 0),
        Cell::Filled(PieceTypeColor::Playable(PieceType::J))
    );
}

#[test]
fn test_first_and_last_set_col() {
    let mut board = Board::new(3, 5);
    assert_eq!(board.get_first_set_col(), None);
    assert_eq!(board.get_last_set_col(), None);
    board.set(2, 3, PieceTypeColor::NotPlayable);
    assert_eq!(board.get_first_set_col(), Some(3));
    assert_eq!(board.get_last_set_col(), Some(3));
    board.set(0, 1, PieceTypeColor::NotPlayable);
    assert_eq!(board.get_first_set_col(), Some(1));
    assert_eq!(board.get_last_set_col(), Some(3));
    board.set(1, 4, PieceTypeColor::NotPlayable);
    board.set(1, 0, PieceTypeColor::NotPlayable);
    assert_eq!(board.get_first_set_col(), Some(0));
    assert_eq!(board.get_last_set_col(), Some(4));
}

#[test]
fn test_clone_is_a_deep_copy() {
    let mut board = Board::new(2, 2);
    board.set(0, 0, PieceTypeColor::NotPlayable);
    let copy = board.clone();
    board.set(1, 1, PieceTypeColor::NotPlayable);
    board.clear(0, 0);
    assert!(copy.is_set(0, 0));
    assert!(!copy.is_set(1, 1));
    assert_eq!(copy.rows, 2);
    assert_eq!(copy.cols, 2);
}

#[test]
fn test_rows_mut_changes_the_board() {
    let mut board = Board::new(2, 2);
    board.rows_mut()[1][0] = Cell::Filled(PieceTypeColor::NotPlayable);
    assert!(board.is_set(1, 0));
    assert_eq!(board.picture(), "* \n  \n");
}

#[test]
fn test_load_board_short_text_keeps_the_rest() {
    let mut board = Board::new(2, 3);
    board.set(1, 2, PieceTypeColor::NotPlayable);
    board.set(0, 0, PieceTypeColor::NotPlayable);
    load_board(&mut board, " Z");
    assert_eq!(board.get(0, 0), Cell::Empty);
    assert_eq!(
        board.get(0, 1),
        Cell::Filled(PieceTypeColor::Playable(PieceType::Z))
    );
    assert_eq!(board.get(0, 2), Cell::Empty);
    assert_eq!(board.get(1, 2), Cell::Filled(PieceTypeColor::NotPlayable));
    load_board(&mut board, "");
    assert_eq!(board.picture(), "  *\n * \n");
}
