use crate::board::{Board, Cell};
use crate::enums::{PieceType, PieceTypeColor};
use vstd::prelude::*;

verus! {

/// The cell that a character of a board text stands for: a blank is an
/// empty cell, a star a block of no playable piece, the letter of a piece
/// type a block of that piece. Other characters stand for nothing.
pub open spec fn cell_of_char(c: char) -> Option<Cell> {
    if c == ' ' {
        Some(Cell::Empty)
    } else if c == '*' {
        Some(Cell::Filled(PieceTypeColor::NotPlayable))
    } else {
        match PieceType::of_char(c) {
            Some(piece) => Some(Cell::Filled(PieceTypeColor::Playable(piece))),
            None => None,
        }
    }
}

/// In a grid of `cols` columns, the cells in row-major order are numbered
/// `row * cols + col`: a cell comes before another exactly if its row is
/// lower, or the row is the same and its column is.
pub proof fn lemma_cell_number_order(r1: int, c1: int, r2: int, c2: int, cols: int)
    requires
        0 <= c1 < cols,
        0 <= c2 < cols,
    ensures
        (r1 * cols + c1 < r2 * cols + c2) <==> (r1 < r2 || (r1 == r2 && c1 < c2)),
        (r1 * cols + c1 == r2 * cols + c2) <==> (r1 == r2 && c1 == c2),
{
    if r1 < r2 {
        assert(r1 * cols + cols <= r2 * cols) by (nonlinear_arith)
            requires
                r1 + 1 <= r2,
                cols > 0,
        ;
    } else if r2 < r1 {
        assert(r2 * cols + cols <= r1 * cols) by (nonlinear_arith)
            requires
                r2 + 1 <= r1,
                cols > 0,
        ;
    }
}

/// Writes a text into the board, cell by cell: the first character into row
/// 0, column 0, the next into the column to its right, and on into the next
/// row when a row is full. Cells beyond the end of the text stay as they
/// are.
#[verifier::loop_isolation(false)]
pub fn load_board(board: &mut Board, s: &str)
    requires
        old(board).wf(),
        s@.len() <= old(board).rows * old(board).cols,
        forall|k: int| 0 <= k < s@.len() ==> cell_of_char(#[trigger] s@[k]) is Some,
    ensures
        final(board).wf(),
        final(board).rows == old(board).rows,
        final(board).cols == old(board).cols,
        forall|r: int, c: int|
            old(board).in_bounds(r, c) ==> #[trigger] final(board)@[r][c] == (if r * old(board).cols
                + c < s@.len() {
                cell_of_char(s@[r * old(board).cols + c])->0
            } else {
                old(board)@[r][c]
            }),
{
    let rows = board.rows;
    let cols = board.cols;
    let n = s.unicode_len();
    let mut i: usize = 0;
    let mut row: isize = 0;
    let mut col: isize = 0;
    assert(cols == 0 ==> rows * cols == 0) by (nonlinear_arith);
    while i < n
        invariant
            0 <= i <= n,
            n == s@.len(),
            board.wf(),
            board.rows == rows,
            board.cols == cols,
            i == row * cols + col,
            0 <= row,
            0 <= col,
            i < n ==> col < cols,
            i == n ==> col <= cols,
            forall|r: int, c: int|
                board.in_bounds(r, c) ==> #[trigger] board@[r][c] == (if r * cols + c < i {
                    cell_of_char(s@[r * cols + c])->0
                } else {
                    old(board)@[r][c]
                }),
        decreases n - i,
    {
        let ch = s.get_char(i);
        proof {
            assert(cell_of_char(s@[i as int]) is Some);
            if row >= rows {
                assert(rows * cols <= row * cols) by (nonlinear_arith)
                    requires
                        rows <= row,
                        cols >= 0,
                ;
            }
        }
        let cell = if ch == ' ' {
            Cell::Empty
        } else if ch == '*' {
            Cell::Filled(PieceTypeColor::NotPlayable)
        } else {
            match PieceType::from_char(ch) {
                Some(piece) => Cell::Filled(PieceTypeColor::Playable(piece)),
                None => Cell::Empty,
            }
        };
        let ghost before = board@;
        board.set_val(row, col, cell);
        proof {
            assert forall|r: int, c: int| board.in_bounds(r, c) implies #[trigger] board@[r][c] == (if r
                * cols + c < i + 1 {
                cell_of_char(s@[r * cols + c])->0
            } else {
                old(board)@[r][c]
            }) by {
                lemma_cell_number_order(r, c, row as int, col as int, cols as int);
                assert(before[r].len() == cols);
            }
        }
        i += 1;
        col += 1;
        if col == cols && i < n {
            col = 0;
            row += 1;
            assert(i == row * cols + col) by (nonlinear_arith)
                requires
                    i == (row - 1) * cols + cols,
                    col == 0,
            ;
        }
    }
}

} // verus!
