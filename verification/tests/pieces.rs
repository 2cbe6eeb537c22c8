use rust_tetris_core::board::{Board, Cell};
use rust_tetris_core::constants::{default_kick_row, get_rotations, i_kick_row, Kick};
use rust_tetris_core::enums::{PieceType, PieceTypeColor, Rotation};
use rust_tetris_core::pieces::{
    fill_piece_matrix, get_piece_matrix, get_piece_size, Piece, PieceWithPosition,
};
use rust_tetris_core::test_utils::load_board;

const ALL_TYPES: [PieceType; 7] = [
    PieceType::T,
    PieceType::L,
    PieceType::J,
    PieceType::O,
    PieceType::I,
    PieceType::S,
    PieceType::Z,
];

const ALL_ROTATIONS: [Rotation; 4] = [
    Rotation::R0,
    Rotation::R90,
    Rotation::R180,
    Rotation::R270,
];

#[test]
fn test_get_piece_size() {
    assert_eq!(get_piece_size(PieceType::T), (3, 3));
    assert_eq!(get_piece_size(PieceType::I), (4, 4));
    assert_eq!(get_piece_size(PieceType::S), (3, 3));
    assert_eq!(get_piece_size(PieceType::Z), (3, 3));
    assert_eq!(get_piece_size(PieceType::J), (3, 3));
    assert_eq!(get_piece_size(PieceType::L), (3, 3));
    assert_eq!(get_piece_size(PieceType::O), (3, 4));
}

#[test]
fn test_next_rotation() {
    let mut rotation = Rotation::R0;
    let rotations = vec![
        Rotation::R0,
        Rotation::R90,
        Rotation::R180,
        Rotation::R270,
        Rotation::R0,
    ];

    for r in rotations {
        assert_eq!(rotation, r);
        rotation = rotation.next();
    }
}

#[test]
fn test_prev_rotation() {
    let mut rotation = Rotation::R0;
    let rotations = vec![
        Rotation::R0,
        Rotation::R270,
        Rotation::R180,
        Rotation::R90,
        Rotation::R0,
    ];

    for r in rotations {
        assert_eq!(rotation, r);
        rotation = rotation.prev();
    }
}

#[test]
fn test_rotation_from_index() {
    assert_eq!(Rotation::from(0), Rotation::R0);
    assert_eq!(Rotation::from(1), Rotation::R90);
    assert_eq!(Rotation::from(2), Rotation::R180);
    assert_eq!(Rotation::from(3), Rotation::R270);
    for r in ALL_ROTATIONS {
        assert_eq!(Rotation::from(r.to_index()), r);
    }
}

#[test]
fn test_piece_type_from_char_and_text() {
    assert_eq!(PieceType::from_char('T'), Some(PieceType::T));
    assert_eq!(PieceType::from_char('L'), Some(PieceType::L));
    assert_eq!(PieceType::from_char('J'), Some(PieceType::J));
    assert_eq!(PieceType::from_char('O'), Some(PieceType::O));
    assert_eq!(PieceType::from_char('I'), Some(PieceType::I));
    assert_eq!(PieceType::from_char('S'), Some(PieceType::S));
    assert_eq!(PieceType::from_char('Z'), Some(PieceType::Z));
    assert_eq!(PieceType::from_char('t'), None);
    assert_eq!(PieceType::from_char(' '), None);
    assert_eq!(PieceType::parse("Z"), Ok(PieceType::Z));
    assert!(PieceType::parse("").is_err());
    assert!(PieceType::parse("ZZ").is_err());
    assert!(PieceType::parse("x").is_err());
    assert_eq!("S".parse::<PieceType>(), Ok(PieceType::S));
    assert!("Q".parse::<PieceType>().is_err());
}

#[test]
#[allow(non_snake_case)]
fn test_set_cells_T() {
    let t = Piece::new(PieceType::T);
    let cells: Vec<_> = t.set_cells();

    assert_eq!(cells, vec![(0, 1), (1, 0), (1, 1), (1, 2)]);
}

#[test]
#[allow(non_snake_case)]
fn test_set_cells_I() {
    let t = Piece::new(PieceType::I);
    let cells: Vec<_> = t.set_cells();

    assert_eq!(cells, vec![(1, 0), (1, 1), (1, 2), (1, 3)]);
}

#[test]
fn test_all_cells_row_by_row() {
    let o = Piece::new(PieceType::O);
    assert_eq!(o.width(), 3);
    assert_eq!(o.height(), 4);
    assert_eq!(
        o.all_cells(),
        vec![
            (0, 0),
            (0, 1),
            (0, 2),
            (1, 0),
            (1, 1),
            (1, 2),
            (2, 0),
            (2, 1),
            (2, 2),
            (3, 0),
            (3, 1),
            (3, 2)
        ]
    );
    assert_eq!(o.set_cells(), vec![(0, 0), (0, 1), (1, 0), (1, 1)]);
    assert_eq!(o.to_string(), "** \n** \n   \n   \n");
}

#[test]
fn test_width_and_height_of_each_piece() {
    for pt in ALL_TYPES {
        for r in ALL_ROTATIONS {
            let p = Piece::with_rotation(pt, r);
            let (w, h) = match pt {
                PieceType::I => (4, 4),
                PieceType::O => (3, 4),
                _ => (3, 3),
            };
            assert_eq!(p.width(), w);
            assert_eq!(p.height(), h);
            assert_eq!(p.board.cols, w);
            assert_eq!(p.board.rows, h);
            assert_eq!(p.board.rows().len() as isize, h);
            assert_eq!(p.all_cells().len() as isize, w * h);
        }
    }
}

#[test]
fn test_every_piece_has_four_blocks_of_its_type() {
    for pt in ALL_TYPES {
        for r in ALL_ROTATIONS {
            let p = Piece::with_rotation(pt, r);
            assert_eq!(p.piece_type, pt);
            assert_eq!(p.rotation, r);
            let cells = p.set_cells();
            assert_eq!(cells.len(), 4);
            for (i, j) in cells {
                assert_eq!(
                    p.board.get(i, j),
                    Cell::Filled(PieceTypeColor::Playable(pt))
                );
            }
            let (w, h) = get_piece_size(pt);
            assert_eq!(p.width(), w);
            assert_eq!(p.height(), h);
            assert_eq!(get_rotations(pt, r).len() as isize, h);
        }
    }
}

#[test]
fn test_piece_matrix_of_each_orientation_of_l() {
    assert_eq!(
        Piece::with_rotation(PieceType::L, Rotation::R0).to_string(),
        "  *\n***\n   \n"
    );
    assert_eq!(
        Piece::with_rotation(PieceType::L, Rotation::R90).to_string(),
        " * \n * \n **\n"
    );
    assert_eq!(
        Piece::with_rotation(PieceType::L, Rotation::R180).to_string(),
        "   \n***\n*  \n"
    );
    assert_eq!(
        Piece::with_rotation(PieceType::L, Rotation::R270).to_string(),
        "** \n * \n * \n"
    );
    assert_eq!(
        get_piece_matrix(PieceType::I, Rotation::R270).picture(),
        " *  \n *  \n *  \n *  \n"
    );
}

#[test]
fn test_fill_piece_matrix_overwrites() {
    let mut m = Board::new(3, 3);
    load_board(&mut m, "*********");
    fill_piece_matrix(PieceType::S, &mut m, Rotation::R0);
    assert_eq!(m.picture(), "   \n** \n **\n");
    assert_eq!(
        m.get(0, 1),
        Cell::Filled(PieceTypeColor::Playable(PieceType::S))
    );
}

#[test]
fn test_rotate_four_times_is_identity() {
    for pt in ALL_TYPES {
        for r in ALL_ROTATIONS {
            let start = Piece::with_rotation(pt, r);
            let mut p = start.clone();
            for _ in 0..4 {
                p.rotate_piece();
            }
            assert_eq!(p.rotation, start.rotation);
            assert_eq!(p.board.rows(), start.board.rows());
            for _ in 0..4 {
                p.rotate_piece_prev();
            }
            assert_eq!(p.rotation, start.rotation);
            assert_eq!(p.board.rows(), start.board.rows());
            p.rotate_piece();
            assert_eq!(p.rotation, r.next());
            p.rotate_piece_prev();
            assert_eq!(p.rotation, r);
            assert_eq!(p.board.rows(), start.board.rows());
        }
    }
}

#[test]
fn test_set_rotation_redraws() {
    let mut p = Piece::new(PieceType::T);
    p.set_rotation(Rotation::R180);
    assert_eq!(p.rotation, Rotation::R180);
    assert_eq!(p.to_string(), "   \n***\n * \n");
    p.board.clear(1, 1);
    p.setup_board();
    assert_eq!(p.to_string(), "   \n***\n * \n");
}

#[test]
fn test_collides_right_true() {
    let mut b = Board::new(4, 5);
    load_board(&mut b, "        **    ******");
    let mut t = Piece::new(PieceType::T);
    for _ in 1..=3 {
        assert!(t.collides(0, 1, &b), "current rotation: {:?}", t.rotation);
        t.rotate_piece();
    }
    assert!(!t.collides(0, 1, &b), "current rotation: {:?}", t.rotation);
}

#[test]
fn test_collides_right_wall_true() {
    let mut b = Board::new(3, 3);
    let s = " ".repeat(9);
    load_board(&mut b, &s);
    let mut t = Piece::new(PieceType::T);
    for _ in 1..=3 {
        assert!(t.collides(0, 1, &b), "current rotation: {:?}", t.rotation);
        t.rotate_piece();
    }
    assert!(!t.collides(0, 1, &b), "current rotation: {:?}", t.rotation);
}

#[test]
fn test_collides_right_false() {
    let mut b = Board::new(4, 5);
    load_board(&mut b, "         *    ******");
    let mut t = Piece::new(PieceType::T);
    for _ in 1..=4 {
        assert!(!t.collides(0, 1, &b), "current rotation: {:?}", t.rotation);
        t.rotate_piece();
    }
}

#[test]
fn test_collides_far_off_the_board() {
    let b = Board::new(4, 5);
    let t = Piece::new(PieceType::T);
    assert!(!t.collides(0, 0, &b));
    assert!(t.collides(isize::MAX, 0, &b));
    assert!(t.collides(0, isize::MAX, &b));
    assert!(t.collides(isize::MIN, isize::MIN, &b));
    assert!(t.collides(-1, 0, &b));
    assert!(t.collides(0, -1, &b));
    assert!(!t.collides(2, 2, &b));
    assert!(t.collides(3, 2, &b));
    assert!(t.collides_from(isize::MAX, isize::MAX as i128, 0, 0, &b));
    assert!(t.collides_from(isize::MAX, -(isize::MAX as i128), isize::MIN, isize::MAX as i128, &b));
    assert!(!t.collides_from(
        isize::MAX,
        -(isize::MAX as i128),
        isize::MIN,
        isize::MAX as i128 + 1,
        &b
    ));
}

#[test]
fn test_display_t() {
    let t = Piece::new(PieceType::T);
    let s = t.to_string();
    assert_eq!(s, " * \n***\n   \n");

    let t = Piece::with_rotation(PieceType::T, Rotation::R180);
    let s = t.to_string();
    assert_eq!(s, "   \n***\n * \n");
}

#[test]
fn test_get_kicks_is_total() {
    for pt in ALL_TYPES {
        for from in ALL_ROTATIONS {
            for to in [from.next(), from.prev()] {
                let p = Piece::with_rotation(pt, to);
                let kicks = p.get_kicks(from);
                if pt == PieceType::O {
                    assert_eq!(kicks, vec![(0, 0)]);
                } else {
                    assert_eq!(kicks.len(), 5);
                    assert_eq!(kicks[0], (0, 0));
                }
            }
        }
    }
}

#[test]
fn test_get_kicks_values() {
    let t = Piece::with_rotation(PieceType::T, Rotation::R90);
    assert_eq!(
        t.get_kicks(Rotation::R0),
        vec![(0, 0), (-1, 0), (-1, 1), (0, -2), (-1, -2)]
    );
    assert_eq!(
        t.get_kicks(Rotation::R180),
        vec![(0, 0), (-1, 0), (-1, 1), (0, -2), (-1, -2)]
    );
    let t = Piece::with_rotation(PieceType::Z, Rotation::R0);
    assert_eq!(
        t.get_kicks(Rotation::R270),
        vec![(0, 0), (-1, 0), (-1, -1), (0, 2), (-1, 2)]
    );
    assert_eq!(
        t.get_kicks(Rotation::R90),
        vec![(0, 0), (1, 0), (1, -1), (0, 2), (1, 2)]
    );
    let i = Piece::with_rotation(PieceType::I, Rotation::R270);
    assert_eq!(
        i.get_kicks(Rotation::R0),
        vec![(0, 0), (-1, 0), (2, 0), (-1, 2), (2, -1)]
    );
    assert_eq!(
        i.get_kicks(Rotation::R180),
        vec![(0, 0), (2, 0), (-1, 0), (2, 1), (-1, -2)]
    );
}

#[test]
fn test_kick_rows() {
    let i_rows: [[Kick; 5]; 8] = [
        [(0, 0), (-2, 0), (1, 0), (-2, -1), (1, 2)],
        [(0, 0), (2, 0), (-1, 0), (2, 1), (-1, -2)],
        [(0, 0), (-1, 0), (2, 0), (-1, 2), (2, -1)],
        [(0, 0), (1, 0), (-2, 0), (1, -2), (-2, 1)],
        [(0, 0), (2, 0), (-1, 0), (2, 1), (-1, -2)],
        [(0, 0), (-2, 0), (1, 0), (-2, -1), (1, 2)],
        [(0, 0), (1, 0), (-2, 0), (1, -2), (-2, 1)],
        [(0, 0), (-1, 0), (2, 0), (-1, 2), (2, -1)],
    ];
    let default_rows: [[Kick; 5]; 8] = [
        [(0, 0), (-1, 0), (-1, 1), (0, -2), (-1, -2)],
        [(0, 0), (1, 0), (1, -1), (0, 2), (1, 2)],
        [(0, 0), (1, 0), (1, -1), (0, 2), (1, 2)],
        [(0, 0), (-1, 0), (-1, 1), (0, -2), (-1, -2)],
        [(0, 0), (1, 0), (1, 1), (0, -2), (1, -2)],
        [(0, 0), (-1, 0), (-1, -1), (0, 2), (-1, 2)],
        [(0, 0), (-1, 0), (-1, -1), (0, 2), (-1, 2)],
        [(0, 0), (1, 0), (1, 1), (0, -2), (1, -2)],
    ];
    for slot in 0..8u8 {
        assert_eq!(i_kick_row(slot), i_rows[slot as usize].to_vec());
        assert_eq!(default_kick_row(slot), default_rows[slot as usize].to_vec());
    }
}

#[test]
fn test_piece_with_position_accessors() {
    let mut p = PieceWithPosition::new(7, -2, Piece::new(PieceType::J));
    assert_eq!(p.row(), 7);
    assert_eq!(p.col(), -2);
    assert_eq!(p.tetris_piece_ref().piece_type, PieceType::J);
    p.tetris_piece_mut().rotate_piece();
    assert_eq!(p.tetris_piece_ref().rotation, Rotation::R90);
    assert_eq!(p.row(), 7);
    assert_eq!(p.col(), -2);
    let piece = p.tetris_piece();
    assert_eq!(piece.piece_type, PieceType::J);
    assert_eq!(piece.rotation, Rotation::R90);
}

#[test]
fn test_moves() {
    let mut p = PieceWithPosition::new(5, 5, Piece::new(PieceType::T));
    p.move_down();
    assert_eq!((p.row(), p.col()), (4, 5));
    p.move_left();
    assert_eq!((p.row(), p.col()), (4, 4));
    p.move_right();
    p.move_right();
    assert_eq!((p.row(), p.col()), (4, 6));
}

#[test]
fn test_kick_by_adds_horizontal_and_subtracts_vertical() {
    let mut p = PieceWithPosition::new(5, 5, Piece::new(PieceType::T));
    p.kick_by(&(-1, 2));
    assert_eq!((p.row(), p.col()), (3, 4));
    p.kick_by(&(2, -1));
    assert_eq!((p.row(), p.col()), (4, 6));
    p.kick_by(&(0, 0));
    assert_eq!((p.row(), p.col()), (4, 6));
}

#[test]
fn test_collides_left_right_down() {
    let mut b = Board::new(4, 5);
    load_board(&mut b, "*          ");
    let p = PieceWithPosition::new(0, 1, Piece::new(PieceType::T));
    assert!(!p.collides_left(&b));
    assert!(!p.collides_right(&b));
    assert!(p.collides_down(&b));
    let p = PieceWithPosition::new(0, 0, Piece::new(PieceType::T));
    assert!(p.collides_left(&b));
    let p = PieceWithPosition::new(1, 2, Piece::new(PieceType::T));
    assert!(p.collides_right(&b));
    assert!(!p.collides_down(&b));
    let p = PieceWithPosition::new(1, 0, Piece::new(PieceType::L));
    assert!(!p.collides_down(&b));
    let p = PieceWithPosition::new(1, 0, Piece::new(PieceType::J));
    assert!(p.collides_down(&b));
}

#[test]
fn test_collides_kick_tests_right_and_down() {
    let mut b = Board::new(5, 5);
    load_board(&mut b, "     *****");
    let p = PieceWithPosition::new(2, 1, Piece::new(PieceType::T));
    assert!(!p.collides_kick(&b, &(0, 0)));
    assert!(p.collides_kick(&b, &(0, 1)));
    assert!(!p.collides_kick(&b, &(1, 0)));
    assert!(p.collides_kick(&b, &(2, 0)));
    assert!(!p.collides_kick(&b, &(-1, -1)));
    assert!(!p.collides_kick(&b, &(0, -1)));
    assert!(p.collides_kick(&b, &(0, -2)));
    assert!(p.collides_kick(&b, &(-2, 0)));
    assert!(p.collides_kick(&b, &(0, isize::MIN)));
    assert!(p.collides_kick(&b, &(isize::MAX, isize::MAX)));
}

#[test]
fn test_try_move_left_and_right() {
    let mut b = Board::new(4, 5);
    load_board(&mut b, "         *");
    let mut p = PieceWithPosition::new(0, 1, Piece::new(PieceType::T));
    assert!(p.try_move_left(&b));
    assert_eq!((p.row(), p.col()), (0, 0));
    assert!(!p.try_move_left(&b));
    assert_eq!((p.row(), p.col()), (0, 0));
    assert!(p.try_move_right(&b));
    assert_eq!((p.row(), p.col()), (0, 1));
    assert!(!p.try_move_right(&b));
    assert_eq!((p.row(), p.col()), (0, 1));
    let mut far = PieceWithPosition::new(0, isize::MIN, Piece::new(PieceType::T));
    assert!(!far.try_move_left(&b));
    assert_eq!(far.col(), isize::MIN);
    let mut far = PieceWithPosition::new(0, isize::MAX, Piece::new(PieceType::T));
    assert!(!far.try_move_right(&b));
    assert_eq!(far.col(), isize::MAX);
}

#[test]
fn test_rotate_and_kick_takes_the_first_free_kick() {
    let b = Board::new(6, 6);
    let p = PieceWithPosition::new(
        2,
        2,
        Piece::with_rotation(PieceType::T, Rotation::R90),
    );
    assert_eq!(p.rotate_and_kick(Rotation::R0, &b), Some((0, 0)));

    let p = PieceWithPosition::new(
        2,
        -1,
        Piece::with_rotation(PieceType::T, Rotation::R180),
    );
    assert_eq!(p.rotate_and_kick(Rotation::R90, &b), Some((1, 0)));

    let p = PieceWithPosition::new(
        2,
        4,
        Piece::with_rotation(PieceType::T, Rotation::R0),
    );
    assert_eq!(p.rotate_and_kick(Rotation::R270, &b), Some((-1, 0)));

    let mut full = Board::new(6, 6);
    load_board(&mut full, &"*".repeat(36));
    assert_eq!(p.rotate_and_kick(Rotation::R270, &full), None);

    let mut b = Board::new(6, 6);
    load_board(&mut b, "                        ******");
    let p = PieceWithPosition::new(
        3,
        4,
        Piece::with_rotation(PieceType::T, Rotation::R0),
    );
    assert_eq!(p.rotate_and_kick(Rotation::R270, &b), Some((-1, 2)));
    let mut kicked = PieceWithPosition::new(
        3,
        4,
        Piece::with_rotation(PieceType::T, Rotation::R0),
    );
    kicked.kick_by(&(-1, 2));
    assert_eq!((kicked.row(), kicked.col()), (1, 3));
    assert!(!kicked.collides(&b));

    let o = PieceWithPosition::new(0, 5, Piece::with_rotation(PieceType::O, Rotation::R90));
    assert_eq!(o.rotate_and_kick(Rotation::R0, &b), None);
    let o = PieceWithPosition::new(0, 0, Piece::with_rotation(PieceType::O, Rotation::R90));
    assert_eq!(o.rotate_and_kick(Rotation::R0, &b), Some((0, 0)));
}

#[test]
fn test_finalize_on_writes_the_blocks() {
    let mut b = Board::new(4, 5);
    load_board(&mut b, "*  **");
    let p = PieceWithPosition::new(0, 1, Piece::new(PieceType::T));
    p.finalize_on(&mut b);
    assert_eq!(b.picture(), "     \n     \n *** \n* ***\n");
    assert_eq!(
        b.get(0, 2),
        Cell::Filled(PieceTypeColor::Playable(PieceType::T))
    );
    assert_eq!(
        b.get(1, 1),
        Cell::Filled(PieceTypeColor::Playable(PieceType::T))
    );
    assert_eq!(b.get(0, 0), Cell::Filled(PieceTypeColor::NotPlayable));
    assert_eq!(b.get(0, 1), Cell::Empty);
    assert_eq!(p.row(), 0);
    assert_eq!(p.col(), 1);
}

#[test]
fn test_finalize_on_with_grid_partly_off_the_board() {
    let mut b = Board::new(2, 4);
    let p = PieceWithPosition::new(-1, 0, Piece::new(PieceType::I));
    p.finalize_on(&mut b);
    assert_eq!(b.picture(), "    \n****\n");
}

#[test]
fn test_piece_clone_is_a_deep_copy() {
    let mut p = Piece::new(PieceType::T);
    let copy = p.clone();
    p.rotate_piece();
    assert_eq!(copy.rotation, Rotation::R0);
    assert_eq!(copy.to_string(), " * \n***\n   \n");
    assert_eq!(p.to_string(), " * \n **\n * \n");
}
