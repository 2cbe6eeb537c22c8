//! The steps of a game that the loop around the library asks for: placing a
//! new piece, letting it fall and slide, holding it, locking it.

use crate::board::Board;
use crate::clearing::{compacted, complete_count, count_rows, lemma_clear_compacts};
use crate::enums::{PieceType, Rotation};
use crate::holder::{HoldPiece, Swappable};
use crate::piece_bag::{drew, PieceBag};
use crate::pieces::{lemma_free_shape_is_on_board, shape_collides, Piece, PieceWithPosition};
use vstd::prelude::*;

verus! {

/// The direction in which the player holds the piece moving.
#[derive(Debug, Clone, Copy, PartialEq, Eq, Structural)]
pub enum MoveState {
    Left,
    Right,
    No,
}

/// How a request to hold the piece in play ended.
#[derive(Debug)]
pub enum HoldOutcome {
    /// The piece went into the hold slot. What comes with it is the piece
    /// that is in play now, or nothing where that piece has no room.
    Swapped(Option<PieceWithPosition>),
    /// The slot was already used for this piece, which stays in play.
    Refused(PieceWithPosition),
}

/// The column at which a new piece comes into play.
pub const SPAWN_COL: isize = 3;

/// The row at which a new piece comes into play.
pub open spec fn spawn_row(piece: PieceType) -> int {
    if piece == PieceType::I {
        18
    } else {
        19
    }
}

/// `placed` is what comes of bringing `p` into play on the board: the piece
/// at its place of entry, or nothing where it collides there.
pub open spec fn placed_at_spawn(p: Piece, board: &Board, placed: Option<PieceWithPosition>) -> bool {
    match placed {
        Some(q) => {
            &&& q.spec_piece() == p
            &&& q.spec_row() == spawn_row(p.piece_type)
            &&& q.spec_col() == SPAWN_COL
            &&& !p.collides_at(spawn_row(p.piece_type), SPAWN_COL as int, board)
        },
        None => p.collides_at(spawn_row(p.piece_type), SPAWN_COL as int, board),
    }
}

/// How many steps of `(drow, dcol)` a piece can make from `(row, col)`
/// before the next step would make it collide, up to `limit` steps.
pub open spec fn free_steps(
    piece: PieceType,
    rotation: Rotation,
    row: int,
    col: int,
    drow: int,
    dcol: int,
    limit: nat,
    matrix: &Board,
) -> nat
    decreases limit,
{
    if limit == 0 || shape_collides(piece, rotation, row + drow, col + dcol, matrix) {
        0
    } else {
        1 + free_steps(
            piece,
            rotation,
            row + drow,
            col + dcol,
            drow,
            dcol,
            (limit - 1) as nat,
            matrix,
        )
    }
}

/// Brings a piece into play at its place of entry. There is no piece in
/// play if it collides there: the game is over.
pub fn init_piece(p: Piece, board: &Board) -> (placed: Option<PieceWithPosition>)
    requires
        p.wf(),
        board.wf(),
    ensures
        placed_at_spawn(p, board, placed),
{
    let row: isize = match p.piece_type {
        PieceType::I => 18,
        _ => 19,
    };
    let placed = PieceWithPosition::new(row, SPAWN_COL, p);
    if placed.collides(board) {
        None
    } else {
        Some(placed)
    }
}

/// Takes the next piece from the bag and brings it into play. The hold slot
/// is free to use again for the new piece.
pub fn spawn_piece(hold: &mut Option<HoldPiece>, bag: &mut PieceBag, board: &Board) -> (placed:
    Option<PieceWithPosition>)
    requires
        old(bag).wf(),
        old(bag).buffer_next_pieces@.len() > 0,
        board.wf(),
    ensures
        match (*old(hold), *final(hold)) {
            (Some(before), Some(after)) => after.piece == before.piece && !after.already_hold,
            (None, None) => true,
            _ => false,
        },
        final(bag).wf(),
        old(bag).cyclic() ==> final(bag).cyclic(),
        drew(*old(bag), *final(bag), old(bag).buffer_next_pieces@.last()),
        placed_at_spawn(old(bag).buffer_next_pieces@.last(), board, placed),
{
    match hold {
        Some(hp) => {
            hp.reset_hold();
        },
        None => {},
    }
    let p = bag.next_piece();
    init_piece(p, board)
}

/// Lets the piece fall by up to `steps` rows: it stops above the first row
/// at which it would collide. Says by how many rows it fell.
pub fn fall(piece: &mut PieceWithPosition, steps: usize, board: &Board) -> (fallen: usize)
    requires
        old(piece).wf(),
        board.wf(),
    ensures
        final(piece).spec_piece() == old(piece).spec_piece(),
        final(piece).spec_col() == old(piece).spec_col(),
        final(piece).spec_row() == old(piece).spec_row() - fallen,
        fallen == free_steps(
            old(piece).spec_piece().piece_type,
            old(piece).spec_piece().rotation,
            old(piece).spec_row() as int,
            old(piece).spec_col() as int,
            -1,
            0,
            steps as nat,
            board,
        ),
{
    let mut fallen: usize = 0;
    while fallen < steps && !piece.collides_down(board)
        invariant
            0 <= fallen <= steps,
            board.wf(),
            piece.wf(),
            piece.spec_piece() == old(piece).spec_piece(),
            piece.spec_col() == old(piece).spec_col(),
            piece.spec_row() == old(piece).spec_row() - fallen,
            free_steps(
                old(piece).spec_piece().piece_type,
                old(piece).spec_piece().rotation,
                old(piece).spec_row() as int,
                old(piece).spec_col() as int,
                -1,
                0,
                steps as nat,
                board,
            ) == fallen + free_steps(
                piece.spec_piece().piece_type,
                piece.spec_piece().rotation,
                piece.spec_row() as int,
                piece.spec_col() as int,
                -1,
                0,
                (steps - fallen) as nat,
                board,
            ),
        decreases steps - fallen,
    {
        proof {
            piece.lemma_free_place_is_on_board(-1, 0, board);
        }
        piece.move_down();
        fallen += 1;
    }
    fallen
}

/// Drops the piece as far as it can fall: it comes to rest on the first
/// place from which one more row down would make it collide.
pub fn hard_drop(piece: &mut PieceWithPosition, board: &Board)
    requires
        old(piece).wf(),
        board.wf(),
    ensures
        final(piece).spec_piece() == old(piece).spec_piece(),
        final(piece).spec_col() == old(piece).spec_col(),
        final(piece).spec_row() <= old(piece).spec_row(),
        final(piece).collides_moved(-1, 0, board),
        forall|d: int|
            0 < d <= old(piece).spec_row() - final(piece).spec_row() ==> !#[trigger] old(piece)
                .collides_moved(-d, 0, board),
{
    while !piece.collides_down(board)
        invariant
            board.wf(),
            piece.wf(),
            piece.spec_piece() == old(piece).spec_piece(),
            piece.spec_col() == old(piece).spec_col(),
            piece.spec_row() <= old(piece).spec_row(),
            forall|d: int|
                0 < d <= old(piece).spec_row() - piece.spec_row() ==> !#[trigger] old(piece)
                    .collides_moved(-d, 0, board),
        decreases piece.spec_row() + 4,
    {
        proof {
            piece.lemma_free_place_is_on_board(-1, 0, board);
        }
        let ghost above = piece.spec_row();
        piece.move_down();
        proof {
            assert forall|d: int|
                0 < d <= old(piece).spec_row() - piece.spec_row() implies !#[trigger] old(piece)
                .collides_moved(-d, 0, board) by {
                if d == old(piece).spec_row() - piece.spec_row() {
                    assert(old(piece).spec_row() + (-d) == above + (-1));
                }
            }
        }
    }
}

/// Slides the piece to the side that `move_state` names, by up to `step`
/// columns: it stops before the first column at which it would collide.
/// Says whether the piece slid along the ground: it moved, and it lay on
/// something both before and after.
pub fn piece_move_step(
    piece: &mut PieceWithPosition,
    move_state: MoveState,
    step: usize,
    board: &Board,
) -> (slid_on_ground: bool)
    requires
        old(piece).wf(),
        board.wf(),
    ensures
        final(piece).spec_piece() == old(piece).spec_piece(),
        final(piece).spec_row() == old(piece).spec_row(),
        ({
            let dcol: int = match move_state {
                MoveState::Left => -1,
                MoveState::Right => 1,
                MoveState::No => 0,
            };
            let moved = if move_state == MoveState::No {
                0
            } else {
                free_steps(
                    old(piece).spec_piece().piece_type,
                    old(piece).spec_piece().rotation,
                    old(piece).spec_row() as int,
                    old(piece).spec_col() as int,
                    0,
                    dcol,
                    step as nat,
                    board,
                )
            };
            &&& final(piece).spec_col() == old(piece).spec_col() + dcol * moved
            &&& slid_on_ground == (moved > 0 && old(piece).collides_moved(-1, 0, board)
                && final(piece).collides_moved(-1, 0, board))
        }),
{
    let touch_ground_before = piece.collides_down(board);
    let mut moved: usize = 0;
    match move_state {
        MoveState::Left => {
            while moved < step && !piece.collides_left(board)
                invariant
                    0 <= moved <= step,
                    board.wf(),
                    piece.wf(),
                    piece.spec_piece() == old(piece).spec_piece(),
                    piece.spec_row() == old(piece).spec_row(),
                    piece.spec_col() == old(piece).spec_col() - moved,
                    free_steps(
                        old(piece).spec_piece().piece_type,
                        old(piece).spec_piece().rotation,
                        old(piece).spec_row() as int,
                        old(piece).spec_col() as int,
                        0,
                        -1,
                        step as nat,
                        board,
                    ) == moved + free_steps(
                        piece.spec_piece().piece_type,
                        piece.spec_piece().rotation,
                        piece.spec_row() as int,
                        piece.spec_col() as int,
                        0,
                        -1,
                        (step - moved) as nat,
                        board,
                    ),
                decreases step - moved,
            {
                proof {
                    piece.lemma_free_place_is_on_board(0, -1, board);
                }
                piece.move_left();
                moved += 1;
            }
            assert(-1 * moved == -moved) by (nonlinear_arith);
        },
        MoveState::Right => {
            while moved < step && !piece.collides_right(board)
                invariant
                    0 <= moved <= step,
                    board.wf(),
                    piece.wf(),
                    piece.spec_piece() == old(piece).spec_piece(),
                    piece.spec_row() == old(piece).spec_row(),
                    piece.spec_col() == old(piece).spec_col() + moved,
                    free_steps(
                        old(piece).spec_piece().piece_type,
                        old(piece).spec_piece().rotation,
                        old(piece).spec_row() as int,
                        old(piece).spec_col() as int,
                        0,
                        1,
                        step as nat,
                        board,
                    ) == moved + free_steps(
                        piece.spec_piece().piece_type,
                        piece.spec_piece().rotation,
                        piece.spec_row() as int,
                        piece.spec_col() as int,
                        0,
                        1,
                        (step - moved) as nat,
                        board,
                    ),
                decreases step - moved,
            {
                proof {
                    piece.lemma_free_place_is_on_board(0, 1, board);
                }
                piece.move_right();
                moved += 1;
            }
            assert(1 * moved == moved) by (nonlinear_arith);
        },
        MoveState::No => {},
    }
    let touch_ground_after = piece.collides_down(board);
    moved > 0 && touch_ground_before && touch_ground_after
}

/// Holds the piece in play, if the slot allows it. The piece goes into the
/// slot, upright, and the slot counts as used. The piece that was in the
/// slot comes into play, or the next piece from the bag where the slot was
/// empty.
pub fn handle_hold(
    current: PieceWithPosition,
    hold: &mut Option<HoldPiece>,
    bag: &mut PieceBag,
    board: &Board,
) -> (outcome: HoldOutcome)
    requires
        board.wf(),
        *old(hold) matches Some(held) ==> held.piece.wf(),
        *old(hold) is None ==> old(bag).wf() && old(bag).buffer_next_pieces@.len() > 0,
    ensures
        !old(hold).swappable() ==> {
            &&& outcome == HoldOutcome::Refused(current)
            &&& *final(hold) == *old(hold)
            &&& *final(bag) == *old(bag)
        },
        old(hold).swappable() ==> {
            &&& outcome matches HoldOutcome::Swapped(next)
            &&& *final(hold) matches Some(held)
            &&& held.already_hold
            &&& held.piece.wf()
            &&& held.piece.piece_type == current.spec_piece().piece_type
            &&& held.piece.rotation == Rotation::R0
            &&& match *old(hold) {
                Some(before) => *final(bag) == *old(bag) && placed_at_spawn(before.piece, board, next),
                None => {
                    &&& final(bag).wf()
                    &&& drew(*old(bag), *final(bag), old(bag).buffer_next_pieces@.last())
                    &&& placed_at_spawn(old(bag).buffer_next_pieces@.last(), board, next)
                },
            }
        },
{
    if hold.can_swap() {
        let next = match hold.take() {
            Some(held) => init_piece(held.piece, board),
            None => spawn_piece(hold, bag, board),
        };
        let mut held = HoldPiece::new(current.tetris_piece());
        held.set_hold();
        *hold = Some(held);
        HoldOutcome::Swapped(next)
    } else {
        HoldOutcome::Refused(current)
    }
}

/// Takes the complete rows out of the board, and says how many they were.
pub fn handle_clear(board: &mut Board) -> (lines: isize)
    requires
        old(board).wf(),
    ensures
        final(board).wf(),
        final(board).rows == old(board).rows,
        final(board).cols == old(board).cols,
        final(board)@ == compacted(old(board)@, old(board).cols as int),
        lines == complete_count(old(board)@),
        0 <= lines <= old(board).rows,
{
    let ranges = board.completed_rows();
    let lines = count_rows(board, &ranges);
    proof {
        lemma_clear_compacts(board@, board.rows as int, board.cols as int, ranges@);
    }
    board.remove_ranges(ranges);
    lines
}

/// Locks the piece: its blocks are written into the board, and the rows
/// that are complete with them are taken out. Says how many rows went.
pub fn freeze_piece(piece: &PieceWithPosition, board: &mut Board) -> (lines: isize)
    requires
        piece.wf(),
        old(board).wf(),
        forall|x: int, y: int| #[trigger] piece.covers(x, y) ==> old(board).in_bounds(x, y),
    ensures
        final(board).wf(),
        final(board).rows == old(board).rows,
        final(board).cols == old(board).cols,
        final(board)@ == compacted(piece.stamped(old(board)@), old(board).cols as int),
        lines == complete_count(piece.stamped(old(board)@)),
{
    piece.finalize_on(board);
    handle_clear(board)
}

} // verus!
