use crate::board::{playable_piece_to_cell, push_row_text, rows_text, Board, Cell};
use crate::constants::{
    default_kick_row, get_rotations, i_kick_row, kick_slot, kick_table, shape_rows, Kick,
};
use crate::enums::{PieceType, PieceTypeColor, Rotation};
use vstd::prelude::*;

verus! {

/// The size of a piece's own grid: first its width, then its height. The I
/// piece has a grid of four by four, the O piece one that is three wide and
/// four high, and every other piece one of three by three.
pub open spec fn piece_size(piece: PieceType) -> (int, int) {
    match piece {
        PieceType::I => (4, 4),
        PieceType::O => (3, 4),
        _ => (3, 3),
    }
}

/// The number of rows of a piece's own grid: its height.
pub open spec fn piece_rows(piece: PieceType) -> int {
    piece_size(piece).1
}

/// The number of columns of a piece's own grid: its width.
pub open spec fn piece_cols(piece: PieceType) -> int {
    piece_size(piece).0
}

/// Whether a row pattern has the bit that lies `shift` places above the
/// lowest.
pub open spec fn pattern_bit(pattern: u8, shift: u8) -> bool {
    pattern & (1u8 << shift) != 0
}

/// The cell at `(i, j)` of the grid of a piece in one orientation: a block of
/// the piece where the pattern of row `i` has the bit of column `j`, and
/// empty elsewhere. Column 0 is the highest bit that the width allows.
pub open spec fn shape_cell(piece: PieceType, rotation: Rotation, i: int, j: int) -> Cell {
    if pattern_bit(shape_rows(piece, rotation)[i], (piece_cols(piece) - 1 - j) as u8) {
        Cell::Filled(PieceTypeColor::Playable(piece))
    } else {
        Cell::Empty
    }
}

/// The grid of a piece in one orientation.
pub open spec fn piece_grid(piece: PieceType, rotation: Rotation) -> Seq<Seq<Cell>> {
    Seq::new(
        piece_rows(piece) as nat,
        |i: int| Seq::new(piece_cols(piece) as nat, |j: int| shape_cell(piece, rotation, i, j)),
    )
}

/// The cells `(0, 0), (0, 1), ..` of a grid of `height` by `width`, row by
/// row.
pub open spec fn grid_cells(height: int, width: int) -> Seq<(isize, isize)> {
    Seq::new((height * width) as nat, |k: int| ((k / width) as isize, (k % width) as isize))
}

/// Whether the place `(i, j)` of a board is taken: it lies outside the board,
/// or the cell there is filled.
pub open spec fn blocked(matrix: &Board, i: int, j: int) -> bool {
    !matrix.in_bounds(i, j) || matrix.filled_at(i, j)
}

/// Whether the grid of a piece in one orientation has a block at `(i, j)`.
pub open spec fn shape_filled(piece: PieceType, rotation: Rotation, i: int, j: int) -> bool {
    &&& 0 <= i < piece_rows(piece)
    &&& 0 <= j < piece_cols(piece)
    &&& shape_cell(piece, rotation, i, j) is Filled
}

/// Whether a piece in one orientation, with the origin of its grid at
/// `(row, col)` of the board, has a block outside the board or on a filled
/// cell.
pub open spec fn shape_collides(
    piece: PieceType,
    rotation: Rotation,
    row: int,
    col: int,
    matrix: &Board,
) -> bool {
    exists|i: int, j: int| #[trigger]
        shape_filled(piece, rotation, i, j) && blocked(matrix, row + i, col + j)
}

/// Whether a kick moves a piece from `(row, col)` to a place at which it
/// does not collide. A kick moves to the right by its first part and down
/// by its second.
pub open spec fn kick_fits(
    piece: PieceType,
    rotation: Rotation,
    row: int,
    col: int,
    kick: Kick,
    matrix: &Board,
) -> bool {
    !shape_collides(piece, rotation, row - kick.1, col + kick.0, matrix)
}

/// The first of `kicks`, in their order, that moves the piece from
/// `(row, col)` to a place at which it does not collide.
pub open spec fn first_fit(
    piece: PieceType,
    rotation: Rotation,
    row: int,
    col: int,
    kicks: Seq<Kick>,
    matrix: &Board,
) -> Option<Kick>
    decreases kicks.len(),
{
    if kicks.len() == 0 {
        None
    } else if kick_fits(piece, rotation, row, col, kicks[0], matrix) {
        Some(kicks[0])
    } else {
        first_fit(piece, rotation, row, col, kicks.skip(1), matrix)
    }
}

/// A piece in one orientation, with its own small grid.
#[derive(Debug)]
pub struct Piece {
    pub piece_type: PieceType,
    pub board: Board,
    pub rotation: Rotation,
}

/// The size of a piece's own grid: first its width, then its height.
pub fn get_piece_size(piece: PieceType) -> (size: (isize, isize))
    ensures
        size.0 == piece_size(piece).0,
        size.1 == piece_size(piece).1,
        size.0 == piece_cols(piece),
        size.1 == piece_rows(piece),
{
    match piece {
        PieceType::I => (4, 4),
        PieceType::O => (3, 4),
        _ => (3, 3),
    }
}

/// Draws a piece in one orientation onto a grid of the piece's size.
#[verifier::loop_isolation(false)]
pub fn fill_piece_matrix(piece: PieceType, matrix: &mut Board, rotation: Rotation)
    requires
        old(matrix).wf(),
        old(matrix).rows == piece_rows(piece),
        old(matrix).cols == piece_cols(piece),
    ensures
        final(matrix).wf(),
        final(matrix).rows == old(matrix).rows,
        final(matrix).cols == old(matrix).cols,
        final(matrix)@ == piece_grid(piece, rotation),
{
    let patterns = get_rotations(piece, rotation);
    let rows = matrix.rows;
    let cols = matrix.cols;
    let mut i: isize = 0;
    while i < rows
        invariant
            0 <= i <= rows,
            matrix.wf(),
            matrix.rows == rows,
            matrix.cols == cols,
            forall|r: int, c: int|
                0 <= r < i && 0 <= c < cols ==> matrix@[r][c] == shape_cell(piece, rotation, r, c),
        decreases rows - i,
    {
        let pattern = patterns[i as usize];
        let mut j: isize = 0;
        while j < cols
            invariant
                0 <= j <= cols,
                0 <= i < rows,
                matrix.wf(),
                matrix.rows == rows,
                matrix.cols == cols,
                forall|r: int, c: int|
                    0 <= r < i && 0 <= c < cols ==> matrix@[r][c] == shape_cell(
                        piece,
                        rotation,
                        r,
                        c,
                    ),
                forall|c: int| 0 <= c < j ==> matrix@[i as int][c] == shape_cell(piece, rotation, i as int, c),
            decreases cols - j,
        {
            let shift: u8 = (cols - 1 - j) as u8;
            let cell = if pattern & (1u8 << shift) != 0 {
                playable_piece_to_cell(piece)
            } else {
                Cell::Empty
            };
            matrix.set_val(i, j, cell);
            j += 1;
        }
        i += 1;
    }
    assert(matrix@ =~= piece_grid(piece, rotation)) by {
        assert forall|r: int| 0 <= r < rows implies matrix@[r] =~= piece_grid(piece, rotation)[r] by {
            assert(matrix@[r].len() == cols);
        }
    }
}

/// The grid of a piece in one orientation.
pub fn get_piece_matrix(piece: PieceType, rotation: Rotation) -> (matrix: Board)
    ensures
        matrix.wf(),
        matrix.rows == piece_rows(piece),
        matrix.cols == piece_cols(piece),
        matrix@ == piece_grid(piece, rotation),
{
    let (width, height) = get_piece_size(piece);
    let mut matrix = Board::new(height, width);
    fill_piece_matrix(piece, &mut matrix, rotation);
    matrix
}

impl Piece {
    /// The piece's grid is the one that its type and orientation give.
    pub open spec fn wf(&self) -> bool {
        &&& self.board.wf()
        &&& self.board.rows == piece_rows(self.piece_type)
        &&& self.board.cols == piece_cols(self.piece_type)
        &&& self.board@ == piece_grid(self.piece_type, self.rotation)
    }

    /// Whether the piece, with the origin of its grid at `(row, col)` of the
    /// board `matrix`, has a block outside the board or on a filled cell.
    pub open spec fn collides_at(&self, row: int, col: int, matrix: &Board) -> bool {
        shape_collides(self.piece_type, self.rotation, row, col, matrix)
    }

    /// The blocks in the grid of a well-formed piece are those of its shape.
    pub proof fn lemma_blocks_are_shape(&self)
        requires
            self.wf(),
        ensures
            forall|i: int, j: int| #[trigger]
                self.board.filled_at(i, j) == shape_filled(self.piece_type, self.rotation, i, j),
    {
        assert forall|i: int, j: int| #[trigger]
            self.board.filled_at(i, j) == shape_filled(self.piece_type, self.rotation, i, j) by {
            if self.board.in_bounds(i, j) {
                assert(self.board@[i][j] == shape_cell(self.piece_type, self.rotation, i, j));
            }
        }
    }

    /// The piece of the given type in the given orientation.
    pub fn with_rotation(piece_type: PieceType, rotation: Rotation) -> (piece: Piece)
        ensures
            piece.wf(),
            piece.piece_type == piece_type,
            piece.rotation == rotation,
    {
        let mut tetris_piece = Piece { piece_type, rotation, board: Board::new(0, 0) };
        tetris_piece.setup_board();
        tetris_piece
    }

    /// The piece of the given type, upright.
    pub fn new(piece_type: PieceType) -> (piece: Piece)
        ensures
            piece.wf(),
            piece.piece_type == piece_type,
            piece.rotation == Rotation::R0,
    {
        Self::with_rotation(piece_type, Rotation::R0)
    }

    /// Redraws the piece's grid from its type and orientation.
    pub fn setup_board(&mut self)
        ensures
            final(self).wf(),
            final(self).piece_type == old(self).piece_type,
            final(self).rotation == old(self).rotation,
    {
        self.board = get_piece_matrix(self.piece_type, self.rotation);
    }

    /// Turns the piece a quarter turn clockwise.
    pub fn rotate_piece(&mut self)
        ensures
            final(self).wf(),
            final(self).piece_type == old(self).piece_type,
            final(self).rotation == old(self).rotation.succ(),
    {
        let next = self.rotation.next();
        self.set_rotation(next);
    }

    /// Turns the piece a quarter turn counterclockwise.
    pub fn rotate_piece_prev(&mut self)
        ensures
            final(self).wf(),
            final(self).piece_type == old(self).piece_type,
            final(self).rotation == old(self).rotation.pred(),
    {
        let prev = self.rotation.prev();
        self.set_rotation(prev);
    }

    /// Puts the piece into the given orientation.
    pub fn set_rotation(&mut self, rotation: Rotation)
        ensures
            final(self).wf(),
            final(self).piece_type == old(self).piece_type,
            final(self).rotation == rotation,
    {
        self.rotation = rotation;
        self.setup_board();
    }

    /// The number of columns of the piece's grid.
    pub fn width(&self) -> (w: isize)
        ensures
            w == self.board.cols,
    {
        self.board.cols
    }

    /// The number of rows of the piece's grid.
    pub fn height(&self) -> (h: isize)
        ensures
            h == self.board.rows,
    {
        self.board.rows
    }
    /// The cells of the piece's grid that hold a block, row by row.
    pub open spec fn blocks(&self) -> Seq<(isize, isize)> {
        grid_cells(self.board.rows as int, self.board.cols as int).filter(
            |c: (isize, isize)| self.board.filled_at(c.0 as int, c.1 as int),
        )
    }

    /// All cells `(row, column)` of the piece's grid, row by row.
    #[verifier::loop_isolation(false)]
    pub fn all_cells(&self) -> (cells: Vec<(isize, isize)>)
        requires
            self.wf(),
        ensures
            cells@ == grid_cells(self.board.rows as int, self.board.cols as int),
    {
        let w = self.width();
        let h = self.height();
        assert(0 <= h * w <= 16) by (nonlinear_arith)
            requires
                0 <= h <= 4,
                0 <= w <= 4,
        ;
        let n = h * w;
        let mut cells: Vec<(isize, isize)> = Vec::new();
        let mut k: isize = 0;
        while k < n
            invariant
                0 <= k <= n,
                cells@.len() == k,
                forall|x: int| 0 <= x < k ==> cells@[x] == ((x / w as int) as isize, (x % w as int) as isize),
            decreases n - k,
        {
            cells.push((k / w, k % w));
            k += 1;
        }
        assert(cells@ =~= grid_cells(h as int, w as int));
        cells
    }

    /// The cells `(row, column)` of the piece's grid that hold a block, row
    /// by row.
    #[verifier::loop_isolation(false)]
    pub fn set_cells(&self) -> (cells: Vec<(isize, isize)>)
        requires
            self.wf(),
        ensures
            cells@ == self.blocks(),
    {
        let all = self.all_cells();
        let ghost pred = |c: (isize, isize)| self.board.filled_at(c.0 as int, c.1 as int);
        let mut cells: Vec<(isize, isize)> = Vec::new();
        let mut k: usize = 0;
        proof {
            reveal(Seq::filter);
            assert(all@.take(0) =~= Seq::empty());
        }
        while k < all.len()
            invariant
                0 <= k <= all@.len(),
                cells@ == all@.take(k as int).filter(pred),
            decreases all@.len() - k,
        {
            let (i, j) = all[k];
            proof {
                reveal(Seq::filter);
                assert(all@.take(k + 1).drop_last() =~= all@.take(k as int));
            }
            if self.board.is_set(i, j) {
                cells.push((i, j));
            }
            k += 1;
        }
        assert(all@.take(k as int) =~= all@);
        cells
    }

    /// Whether the piece, with the origin of its grid at `(row, col)` of the
    /// board, has a block outside the board or on a filled cell.
    pub fn collides(&self, row: isize, col: isize, matrix: &Board) -> (b: bool)
        requires
            self.wf(),
            matrix.wf(),
        ensures
            b == self.collides_at(row as int, col as int, matrix),
    {
        self.collides_from(row, 0, col, 0, matrix)
    }

    /// Whether the piece collides with the origin of its grid at
    /// `(row + drow, col + dcol)`, a place that need not fit the machine's
    /// integers.
    #[verifier::loop_isolation(false)]
    pub fn collides_from(&self, row: isize, drow: i128, col: isize, dcol: i128, matrix: &Board) -> (b:
        bool)
        requires
            self.wf(),
            matrix.wf(),
            -0x1_0000_0000_0000_0000 <= drow <= 0x1_0000_0000_0000_0000,
            -0x1_0000_0000_0000_0000 <= dcol <= 0x1_0000_0000_0000_0000,
        ensures
            b == self.collides_at(row + drow, col + dcol, matrix),
    {
        let h = self.board.rows;
        let w = self.board.cols;
        let mut i: isize = 0;
        while i < h
            invariant
                0 <= i <= h,
                forall|x: int, y: int|
                    0 <= x < i && #[trigger] self.board.filled_at(x, y) ==> !blocked(
                        matrix,
                        row + drow + x,
                        col + dcol + y,
                    ),
            decreases h - i,
        {
            let mut j: isize = 0;
            while j < w
                invariant
                    0 <= j <= w,
                    0 <= i < h,
                    forall|x: int, y: int|
                        0 <= x < i && #[trigger] self.board.filled_at(x, y) ==> !blocked(
                            matrix,
                            row + drow + x,
                            col + dcol + y,
                        ),
                    forall|y: int|
                        0 <= y < j && #[trigger] self.board.filled_at(i as int, y) ==> !blocked(
                            matrix,
                            row + drow + i,
                            col + dcol + y,
                        ),
                decreases w - j,
            {
                if self.board.is_set(i, j) {
                    let r: i128 = row as i128 + drow + i as i128;
                    let c: i128 = col as i128 + dcol + j as i128;
                    let taken = if r < 0 || r >= matrix.rows as i128 || c < 0 || c
                        >= matrix.cols as i128 {
                        true
                    } else {
                        matrix.is_set(r as isize, c as isize)
                    };
                    if taken {
                        proof {
                            self.lemma_blocks_are_shape();
                            assert(shape_filled(
                                self.piece_type,
                                self.rotation,
                                i as int,
                                j as int,
                            ) && blocked(matrix, row + drow + i, col + dcol + j));
                        }
                        return true;
                    }
                }
                j += 1;
            }
            i += 1;
        }
        proof {
            self.lemma_blocks_are_shape();
            assert forall|x: int, y: int| #[trigger]
                shape_filled(self.piece_type, self.rotation, x, y) implies !blocked(
                matrix,
                row + drow + x,
                col + dcol + y,
            ) by {
                assert(self.board.filled_at(x, y));
            }
        }
        false
    }

    /// A picture of the piece as text: one line for each row of its grid,
    /// row 0 first, with a star for each block and a blank for each empty
    /// cell.
    #[verifier::loop_isolation(false)]
    pub fn to_string(&self) -> (text: String)
        ensures
            text@ == rows_text(self.board@),
    {
        let rows = self.board.rows();
        let n = rows.len();
        let mut text = String::new();
        let mut k: usize = 0;
        assert(self.board@.take(0) =~= Seq::<Seq<Cell>>::empty());
        while k < n
            invariant
                0 <= k <= n,
                n == rows@.len(),
                text@ == rows_text(self.board@.take(k as int)),
            decreases n - k,
        {
            push_row_text(&mut text, &rows[k]);
            proof {
                let shown = self.board@.take(k + 1);
                assert(shown.drop_last() =~= self.board@.take(k as int));
                assert(shown.last() == self.board@[k as int]);
            }
            k += 1;
        }
        assert(self.board@.take(n as int) =~= self.board@);
        text
    }

    /// The kicks to try after the piece has turned from `from_rot` to the
    /// orientation it has now, in the order in which they are tried: five of
    /// them, but for the O piece the one that moves nothing.
    pub fn get_kicks(&self, from_rot: Rotation) -> (kicks: Vec<Kick>)
        requires
            from_rot.is_quarter_turn_to(self.rotation),
        ensures
            kicks@ == kick_table(self.piece_type, from_rot, self.rotation),
            kicks@.len() == (if self.piece_type == PieceType::O {
                1nat
            } else {
                5nat
            }),
    {
        let kick_index: u8 = match (from_rot, self.rotation) {
            (Rotation::R0, Rotation::R90) => 0,
            (Rotation::R90, Rotation::R0) => 1,
            (Rotation::R90, Rotation::R180) => 2,
            (Rotation::R180, Rotation::R90) => 3,
            (Rotation::R180, Rotation::R270) => 4,
            (Rotation::R270, Rotation::R180) => 5,
            (Rotation::R270, Rotation::R0) => 6,
            _ => 7,
        };
        assert(kick_index == kick_slot(from_rot, self.rotation));
        match self.piece_type {
            PieceType::I => i_kick_row(kick_index),
            PieceType::O => {
                let kicks: Vec<Kick> = vec![(0isize, 0isize)];
                assert(kicks@ =~= kick_table(self.piece_type, from_rot, self.rotation));
                kicks
            },
            _ => default_kick_row(kick_index),
        }
    }
}

impl Clone for Piece {
    /// A copy of the piece, with a grid of its own.
    fn clone(&self) -> (copy: Piece)
        ensures
            copy.piece_type == self.piece_type,
            copy.rotation == self.rotation,
            copy.board.rows == self.board.rows,
            copy.board.cols == self.board.cols,
            copy.board@ == self.board@,
    {
        Piece { piece_type: self.piece_type, board: self.board.clone(), rotation: self.rotation }
    }
}

/// A piece at a place on the playing field: `(r, c)` is where the origin of
/// the piece's grid lies. Rows count upwards, columns to the right.
#[derive(Debug)]
pub struct PieceWithPosition {
    r: isize,
    c: isize,
    piece: Piece,
}

impl PieceWithPosition {
    /// The row of the board at which row 0 of the piece's grid lies.
    pub closed spec fn spec_row(&self) -> isize {
        self.r
    }

    /// The column of the board at which column 0 of the piece's grid lies.
    pub closed spec fn spec_col(&self) -> isize {
        self.c
    }

    /// The piece that is placed.
    pub closed spec fn spec_piece(&self) -> Piece {
        self.piece
    }

    /// The piece that is placed is well formed.
    pub open spec fn wf(&self) -> bool {
        self.spec_piece().wf()
    }

    /// Whether the placed piece, moved by `drow` rows and `dcol` columns, has
    /// a block outside the board or on a filled cell.
    pub open spec fn collides_moved(&self, drow: int, dcol: int, matrix: &Board) -> bool {
        self.spec_piece().collides_at(self.spec_row() + drow, self.spec_col() + dcol, matrix)
    }

    /// Whether a block of the placed piece lies on the cell `(x, y)` of the
    /// board.
    pub open spec fn covers(&self, x: int, y: int) -> bool {
        self.spec_piece().board.filled_at(x - self.spec_row(), y - self.spec_col())
    }

    /// The grid with the blocks of the placed piece written into it.
    pub open spec fn stamped(&self, grid: Seq<Seq<Cell>>) -> Seq<Seq<Cell>> {
        Seq::new(
            grid.len(),
            |x: int|
                Seq::new(
                    grid[x].len(),
                    |y: int|
                        if self.covers(x, y) {
                            Cell::Filled(PieceTypeColor::Playable(self.spec_piece().piece_type))
                        } else {
                            grid[x][y]
                        },
                ),
        )
    }

    /// The piece `piece` with the origin of its grid at `(r, c)`.
    pub fn new(r: isize, c: isize, piece: Piece) -> (p: PieceWithPosition)
        ensures
            p.spec_row() == r,
            p.spec_col() == c,
            p.spec_piece() == piece,
    {
        PieceWithPosition { r, c, piece }
    }

    /// The row of the board at which row 0 of the piece's grid lies.
    #[verifier::when_used_as_spec(spec_row)]
    pub fn row(&self) -> (r: isize)
        ensures
            r == self.spec_row(),
    {
        self.r
    }

    /// The column of the board at which column 0 of the piece's grid lies.
    #[verifier::when_used_as_spec(spec_col)]
    pub fn col(&self) -> (c: isize)
        ensures
            c == self.spec_col(),
    {
        self.c
    }

    /// The piece, without its place.
    pub fn tetris_piece(self) -> (piece: Piece)
        ensures
            piece == self.spec_piece(),
    {
        self.piece
    }

    /// The piece that is placed.
    pub fn tetris_piece_ref(&self) -> (piece: &Piece)
        ensures
            *piece == self.spec_piece(),
    {
        &self.piece
    }
    /// The piece that is placed, to be changed in place.
    pub fn tetris_piece_mut(&mut self) -> (piece: &mut Piece)
        ensures
            *piece == old(self).spec_piece(),
            final(self).spec_piece() == *final(piece),
            final(self).spec_row() == old(self).spec_row(),
            final(self).spec_col() == old(self).spec_col(),
    {
        &mut self.piece
    }

    /// Writes the blocks of the piece into the board where the piece lies,
    /// each as a block of this piece's type.
    #[verifier::loop_isolation(false)]
    pub fn finalize_on(&self, board: &mut Board)
        requires
            self.wf(),
            old(board).wf(),
            forall|x: int, y: int| #[trigger] self.covers(x, y) ==> old(board).in_bounds(x, y),
        ensures
            final(board).wf(),
            final(board).rows == old(board).rows,
            final(board).cols == old(board).cols,
            final(board)@ == self.stamped(old(board)@),
    {
        let h = self.piece.board.rows;
        let w = self.piece.board.cols;
        let colour = PieceTypeColor::Playable(self.piece.piece_type);
        let mut i: isize = 0;
        while i < h
            invariant
                0 <= i <= h,
                board.wf(),
                board.rows == old(board).rows,
                board.cols == old(board).cols,
                forall|x: int, y: int|
                    board.in_bounds(x, y) ==> #[trigger] board@[x][y] == (if self.covers(x, y) && x
                        - self.r < i {
                        Cell::Filled(colour)
                    } else {
                        old(board)@[x][y]
                    }),
            decreases h - i,
        {
            let mut j: isize = 0;
            while j < w
                invariant
                    0 <= j <= w,
                    0 <= i < h,
                    board.wf(),
                    board.rows == old(board).rows,
                    board.cols == old(board).cols,
                    forall|x: int, y: int|
                        board.in_bounds(x, y) ==> #[trigger] board@[x][y] == (if self.covers(x, y)
                            && (x - self.r < i || (x - self.r == i && y - self.c < j)) {
                            Cell::Filled(colour)
                        } else {
                            old(board)@[x][y]
                        }),
                decreases w - j,
            {
                if self.piece.board.is_set(i, j) {
                    assert(self.covers(self.r + i, self.c + j));
                    let ghost before = board@;
                    board.set(i + self.r, j + self.c, colour);
                    assert forall|x: int, y: int| board.in_bounds(x, y) implies #[trigger] board@[x][y]
                        == (if self.covers(x, y) && (x - self.r < i || (x - self.r == i && y
                        - self.c < j + 1)) {
                        Cell::Filled(colour)
                    } else {
                        old(board)@[x][y]
                    }) by {
                        assert(before[x].len() == board.cols);
                    }
                }
                j += 1;
            }
            i += 1;
        }
        assert(board@ =~= self.stamped(old(board)@)) by {
            assert forall|x: int| 0 <= x < board@.len() implies #[trigger] board@[x] =~= self.stamped(
                old(board)@,
            )[x] by {
                assert(board@[x].len() == board.cols);
                assert(old(board)@[x].len() == board.cols);
                assert forall|y: int| 0 <= y < board.cols implies board@[x][y] == self.stamped(
                    old(board)@,
                )[x][y] by {
                    assert(board.in_bounds(x, y));
                    if self.covers(x, y) {
                        assert(x - self.r < h);
                    }
                }
            }
        }
    }

    /// Whether the piece, one column to the left, would collide.
    pub fn collides_left(&self, matrix: &Board) -> (b: bool)
        requires
            self.wf(),
            matrix.wf(),
        ensures
            b == self.collides_moved(0, -1, matrix),
    {
        self.piece.collides_from(self.r, 0, self.c, -1, matrix)
    }

    /// Whether the piece, one column to the right, would collide.
    pub fn collides_right(&self, matrix: &Board) -> (b: bool)
        requires
            self.wf(),
            matrix.wf(),
        ensures
            b == self.collides_moved(0, 1, matrix),
    {
        self.piece.collides_from(self.r, 0, self.c, 1, matrix)
    }

    /// Whether the piece, one row further down, would collide.
    pub fn collides_down(&self, matrix: &Board) -> (b: bool)
        requires
            self.wf(),
            matrix.wf(),
        ensures
            b == self.collides_moved(-1, 0, matrix),
    {
        self.piece.collides_from(self.r, -1, self.c, 0, matrix)
    }

    /// Whether the piece would collide at the place that a kick moves it to:
    /// to the right by the kick's first part, and down by its second.
    pub fn collides_kick(&self, matrix: &Board, kick: &Kick) -> (b: bool)
        requires
            self.wf(),
            matrix.wf(),
        ensures
            b == !kick_fits(
                self.spec_piece().piece_type,
                self.spec_piece().rotation,
                self.spec_row() as int,
                self.spec_col() as int,
                *kick,
                matrix,
            ),
    {
        self.piece.collides_from(self.r, -(kick.1 as i128), self.c, kick.0 as i128, matrix)
    }

    /// Whether the piece collides where it lies.
    pub fn collides(&self, matrix: &Board) -> (b: bool)
        requires
            self.wf(),
            matrix.wf(),
        ensures
            b == self.collides_moved(0, 0, matrix),
    {
        self.piece.collides_from(self.r, 0, self.c, 0, matrix)
    }

    /// Moves the piece one column to the left unless it would collide there,
    /// and says whether it moved.
    pub fn try_move_left(&mut self, matrix: &Board) -> (moved: bool)
        requires
            old(self).wf(),
            matrix.wf(),
        ensures
            moved == !old(self).collides_moved(0, -1, matrix),
            final(self).spec_piece() == old(self).spec_piece(),
            final(self).spec_row() == old(self).spec_row(),
            final(self).spec_col() == (if moved {
                old(self).spec_col() - 1
            } else {
                old(self).spec_col() as int
            }),
    {
        if !self.collides_left(matrix) {
            proof {
                self.lemma_free_place_is_on_board(0, -1, matrix);
            }
            self.move_left();
            true
        } else {
            false
        }
    }

    /// Moves the piece one column to the right unless it would collide there,
    /// and says whether it moved.
    pub fn try_move_right(&mut self, matrix: &Board) -> (moved: bool)
        requires
            old(self).wf(),
            matrix.wf(),
        ensures
            moved == !old(self).collides_moved(0, 1, matrix),
            final(self).spec_piece() == old(self).spec_piece(),
            final(self).spec_row() == old(self).spec_row(),
            final(self).spec_col() == (if moved {
                old(self).spec_col() + 1
            } else {
                old(self).spec_col() as int
            }),
    {
        if !self.collides_right(matrix) {
            proof {
                self.lemma_free_place_is_on_board(0, 1, matrix);
            }
            self.move_right();
            true
        } else {
            false
        }
    }

    /// Moves the piece by a kick: to the right by the kick's first part, and
    /// down by its second.
    pub fn kick_by(&mut self, kick: &Kick)
        requires
            isize::MIN <= old(self).spec_row() - kick.1 <= isize::MAX,
            isize::MIN <= old(self).spec_col() + kick.0 <= isize::MAX,
        ensures
            final(self).spec_piece() == old(self).spec_piece(),
            final(self).spec_row() == old(self).spec_row() - kick.1,
            final(self).spec_col() == old(self).spec_col() + kick.0,
    {
        self.r -= kick.1;
        self.c += kick.0;
    }

    /// After the piece has turned from `prev_rot` to the orientation it has
    /// now: the first kick of that quarter turn, in the table's order, that
    /// moves the piece to a place at which it does not collide; none if it
    /// collides at all of them.
    #[verifier::loop_isolation(false)]
    pub fn rotate_and_kick(&self, prev_rot: Rotation, matrix: &Board) -> (kick: Option<Kick>)
        requires
            self.wf(),
            matrix.wf(),
            prev_rot.is_quarter_turn_to(self.spec_piece().rotation),
        ensures
            kick == first_fit(
                self.spec_piece().piece_type,
                self.spec_piece().rotation,
                self.spec_row() as int,
                self.spec_col() as int,
                kick_table(self.spec_piece().piece_type, prev_rot, self.spec_piece().rotation),
                matrix,
            ),
    {
        let kicks = self.piece.get_kicks(prev_rot);
        let mut n: usize = 0;
        assert(kicks@.skip(0) =~= kicks@);
        while n < kicks.len()
            invariant
                0 <= n <= kicks@.len(),
                first_fit(
                    self.piece.piece_type,
                    self.piece.rotation,
                    self.r as int,
                    self.c as int,
                    kicks@,
                    matrix,
                ) == first_fit(
                    self.piece.piece_type,
                    self.piece.rotation,
                    self.r as int,
                    self.c as int,
                    kicks@.skip(n as int),
                    matrix,
                ),
            decreases kicks@.len() - n,
        {
            let kick = kicks[n];
            assert(kicks@.skip(n as int).skip(1) =~= kicks@.skip(n + 1));
            if !self.collides_kick(matrix, &kick) {
                return Some(kick);
            }
            n += 1;
        }
        None
    }

    /// Turns the piece a quarter turn clockwise if one of the kicks of that
    /// turn brings it to a place at which it does not collide: the piece is
    /// then turned and moved by the first such kick. Otherwise the piece
    /// stays as it is. Says whether the piece turned.
    pub fn try_rotate(&mut self, matrix: &Board) -> (turned: bool)
        requires
            old(self).wf(),
            matrix.wf(),
        ensures
            final(self).wf(),
            final(self).spec_piece().piece_type == old(self).spec_piece().piece_type,
            ({
                let piece = old(self).spec_piece().piece_type;
                let from = old(self).spec_piece().rotation;
                let to = from.succ();
                match first_fit(
                    piece,
                    to,
                    old(self).spec_row() as int,
                    old(self).spec_col() as int,
                    kick_table(piece, from, to),
                    matrix,
                ) {
                    Some(kick) => {
                        &&& turned
                        &&& final(self).spec_piece().rotation == to
                        &&& final(self).spec_row() == old(self).spec_row() - kick.1
                        &&& final(self).spec_col() == old(self).spec_col() + kick.0
                        &&& !final(self).collides_moved(0, 0, matrix)
                    },
                    None => {
                        &&& !turned
                        &&& final(self).spec_piece().rotation == from
                        &&& final(self).spec_row() == old(self).spec_row()
                        &&& final(self).spec_col() == old(self).spec_col()
                    },
                }
            }),
    {
        let prev = self.piece.rotation;
        self.piece.rotate_piece();
        proof {
            crate::enums::lemma_rotation_cycle(prev);
        }
        match self.rotate_and_kick(prev, matrix) {
            Some(kick) => {
                proof {
                    lemma_first_fit(
                        self.piece.piece_type,
                        self.piece.rotation,
                        self.r as int,
                        self.c as int,
                        kick_table(self.piece.piece_type, prev, self.piece.rotation),
                        matrix,
                    );
                    lemma_free_shape_is_on_board(
                        self.piece.piece_type,
                        self.piece.rotation,
                        self.r - kick.1,
                        self.c + kick.0,
                        matrix,
                    );
                }
                self.kick_by(&kick);
                true
            },
            None => {
                self.piece.rotate_piece_prev();
                false
            },
        }
    }

    /// Turns the piece a quarter turn counterclockwise if one of the kicks
    /// of that turn brings it to a place at which it does not collide: the
    /// piece is then turned and moved by the first such kick. Otherwise the
    /// piece stays as it is. Says whether the piece turned.
    pub fn try_rotate_prev(&mut self, matrix: &Board) -> (turned: bool)
        requires
            old(self).wf(),
            matrix.wf(),
        ensures
            final(self).wf(),
            final(self).spec_piece().piece_type == old(self).spec_piece().piece_type,
            ({
                let piece = old(self).spec_piece().piece_type;
                let from = old(self).spec_piece().rotation;
                let to = from.pred();
                match first_fit(
                    piece,
                    to,
                    old(self).spec_row() as int,
                    old(self).spec_col() as int,
                    kick_table(piece, from, to),
                    matrix,
                ) {
                    Some(kick) => {
                        &&& turned
                        &&& final(self).spec_piece().rotation == to
                        &&& final(self).spec_row() == old(self).spec_row() - kick.1
                        &&& final(self).spec_col() == old(self).spec_col() + kick.0
                        &&& !final(self).collides_moved(0, 0, matrix)
                    },
                    None => {
                        &&& !turned
                        &&& final(self).spec_piece().rotation == from
                        &&& final(self).spec_row() == old(self).spec_row()
                        &&& final(self).spec_col() == old(self).spec_col()
                    },
                }
            }),
    {
        let prev = self.piece.rotation;
        self.piece.rotate_piece_prev();
        proof {
            crate::enums::lemma_rotation_cycle(prev);
        }
        match self.rotate_and_kick(prev, matrix) {
            Some(kick) => {
                proof {
                    lemma_first_fit(
                        self.piece.piece_type,
                        self.piece.rotation,
                        self.r as int,
                        self.c as int,
                        kick_table(self.piece.piece_type, prev, self.piece.rotation),
                        matrix,
                    );
                    lemma_free_shape_is_on_board(
                        self.piece.piece_type,
                        self.piece.rotation,
                        self.r - kick.1,
                        self.c + kick.0,
                        matrix,
                    );
                }
                self.kick_by(&kick);
                true
            },
            None => {
                self.piece.rotate_piece();
                false
            },
        }
    }

    /// Turns the piece a half turn, as two quarter turns clockwise, each
    /// with its own kicks. If either of them finds no room the piece stays
    /// as it is. Says whether the piece turned.
    pub fn try_rotate_180(&mut self, matrix: &Board) -> (turned: bool)
        requires
            old(self).wf(),
            matrix.wf(),
        ensures
            final(self).wf(),
            final(self).spec_piece().piece_type == old(self).spec_piece().piece_type,
            ({
                let piece = old(self).spec_piece().piece_type;
                let from = old(self).spec_piece().rotation;
                let half = from.succ();
                let to = half.succ();
                let row = old(self).spec_row() as int;
                let col = old(self).spec_col() as int;
                let unchanged = {
                    &&& !turned
                    &&& final(self).spec_piece().rotation == from
                    &&& final(self).spec_row() == row
                    &&& final(self).spec_col() == col
                };
                match first_fit(piece, half, row, col, kick_table(piece, from, half), matrix) {
                    Some(first) => match first_fit(
                        piece,
                        to,
                        row - first.1,
                        col + first.0,
                        kick_table(piece, half, to),
                        matrix,
                    ) {
                        Some(second) => {
                            &&& turned
                            &&& final(self).spec_piece().rotation == to
                            &&& final(self).spec_row() == row - first.1 - second.1
                            &&& final(self).spec_col() == col + first.0 + second.0
                            &&& !final(self).collides_moved(0, 0, matrix)
                        },
                        None => unchanged,
                    },
                    None => unchanged,
                }
            }),
    {
        let row = self.r;
        let col = self.c;
        if !self.try_rotate(matrix) {
            false
        } else if self.try_rotate(matrix) {
            true
        } else {
            proof {
                crate::enums::lemma_rotation_cycle(old(self).spec_piece().rotation);
            }
            self.piece.rotate_piece_prev();
            self.r = row;
            self.c = col;
            false
        }
    }

    /// Moves the piece one row down.
    pub fn move_down(&mut self)
        requires
            old(self).spec_row() > isize::MIN,
        ensures
            final(self).spec_piece() == old(self).spec_piece(),
            final(self).spec_row() == old(self).spec_row() - 1,
            final(self).spec_col() == old(self).spec_col(),
    {
        self.r -= 1;
    }

    /// Moves the piece one column to the left.
    pub fn move_left(&mut self)
        requires
            old(self).spec_col() > isize::MIN,
        ensures
            final(self).spec_piece() == old(self).spec_piece(),
            final(self).spec_row() == old(self).spec_row(),
            final(self).spec_col() == old(self).spec_col() - 1,
    {
        self.c -= 1;
    }

    /// Moves the piece one column to the right.
    pub fn move_right(&mut self)
        requires
            old(self).spec_col() < isize::MAX,
        ensures
            final(self).spec_piece() == old(self).spec_piece(),
            final(self).spec_row() == old(self).spec_row(),
            final(self).spec_col() == old(self).spec_col() + 1,
    {
        self.c += 1;
    }

    /// A place at which the piece does not collide lies on the board with
    /// all blocks of the piece, so the origin of the piece's grid there is
    /// less than four cells off the board.
    pub proof fn lemma_free_place_is_on_board(&self, drow: int, dcol: int, matrix: &Board)
        requires
            self.wf(),
            matrix.wf(),
            !self.collides_moved(drow, dcol, matrix),
        ensures
            -4 < self.spec_row() + drow < matrix.rows,
            -4 < self.spec_col() + dcol < matrix.cols,
    {
        let piece = self.spec_piece();
        lemma_free_shape_is_on_board(
            piece.piece_type,
            piece.rotation,
            self.spec_row() + drow,
            self.spec_col() + dcol,
            matrix,
        );
    }
}

/// A place at which a piece does not collide is less than four cells off the
/// board, below and to the left, and it is not beyond the board above or to
/// the right.
pub proof fn lemma_free_shape_is_on_board(
    piece: PieceType,
    rotation: Rotation,
    row: int,
    col: int,
    matrix: &Board,
)
    requires
        matrix.wf(),
        !shape_collides(piece, rotation, row, col, matrix),
    ensures
        -4 < row < matrix.rows,
        -4 < col < matrix.cols,
{
    lemma_piece_has_block(piece, rotation);
    let (i, j) = choose|i: int, j: int|
        0 <= i < piece_rows(piece) && 0 <= j < piece_cols(piece) && shape_cell(
            piece,
            rotation,
            i,
            j,
        ) is Filled;
    assert(shape_filled(piece, rotation, i, j));
}

/// A kick that the search for a fit returns is one of the kicks searched,
/// and it moves the piece to a place at which it does not collide; where the
/// search returns none, no kick does.
pub proof fn lemma_first_fit(
    piece: PieceType,
    rotation: Rotation,
    row: int,
    col: int,
    kicks: Seq<Kick>,
    matrix: &Board,
)
    ensures
        match first_fit(piece, rotation, row, col, kicks, matrix) {
            Some(kick) => kicks.contains(kick) && kick_fits(piece, rotation, row, col, kick, matrix),
            None => forall|n: int|
                0 <= n < kicks.len() ==> !kick_fits(
                    piece,
                    rotation,
                    row,
                    col,
                    #[trigger] kicks[n],
                    matrix,
                ),
        },
    decreases kicks.len(),
{
    if kicks.len() > 0 {
        if kick_fits(piece, rotation, row, col, kicks[0], matrix) {
            assert(kicks.contains(kicks[0]));
        } else {
            let rest = kicks.skip(1);
            lemma_first_fit(piece, rotation, row, col, rest, matrix);
            match first_fit(piece, rotation, row, col, rest, matrix) {
                Some(kick) => {
                    let n = choose|n: int| 0 <= n < rest.len() && rest[n] == kick;
                    assert(kicks[n + 1] == kick);
                },
                None => {
                    assert forall|n: int| 0 <= n < kicks.len() implies !kick_fits(
                        piece,
                        rotation,
                        row,
                        col,
                        #[trigger] kicks[n],
                        matrix,
                    ) by {
                        if n > 0 {
                            assert(kicks[n] == rest[n - 1]);
                        }
                    }
                },
            }
        }
    }
}

/// Every piece has a block, in each of its orientations.
pub proof fn lemma_piece_has_block(piece: PieceType, rotation: Rotation)
    ensures
        exists|i: int, j: int|
            0 <= i < piece_rows(piece) && 0 <= j < piece_cols(piece) && shape_cell(
                piece,
                rotation,
                i,
                j,
            ) is Filled,
{
    let i: int = if piece == PieceType::I && rotation == Rotation::R180 {
        2
    } else {
        1
    };
    let p: u8 = shape_rows(piece, rotation)[i];
    let w = piece_cols(piece);
    assert(p != 0 && p < 16);
    assert(w == 3 ==> p < 8);
    assert(p & (1u8 << 0u8) != 0 || p & (1u8 << 1u8) != 0 || p & (1u8 << 2u8) != 0 || p & (1u8
        << 3u8) != 0) by (bit_vector)
        requires
            p != 0 && p < 16,
    ;
    assert(p < 8 ==> p & (1u8 << 3u8) == 0) by (bit_vector);
    let s: int = if p & (1u8 << 0u8) != 0 {
        0
    } else if p & (1u8 << 1u8) != 0 {
        1
    } else if p & (1u8 << 2u8) != 0 {
        2
    } else {
        3
    };
    let j = w - 1 - s;
    assert(pattern_bit(p, (w - 1 - j) as u8));
    assert(shape_cell(piece, rotation, i, j) is Filled);
}

/// Four quarter turns of a piece, all clockwise or all counterclockwise,
/// bring it back to the orientation and to the grid it had. `p[0]` is the
/// piece as it was, and `p[1]` to `p[4]` are the piece after each turn.
pub proof fn lemma_four_turns(p: Seq<Piece>, clockwise: bool)
    requires
        p.len() == 5,
        forall|k: int| 0 <= k < 5 ==> (#[trigger] p[k]).wf(),
        forall|k: int|
            0 <= k < 4 ==> (#[trigger] p[k + 1]).piece_type == p[k].piece_type && p[k + 1].rotation
                == (if clockwise {
                p[k].rotation.succ()
            } else {
                p[k].rotation.pred()
            }),
    ensures
        p[4].piece_type == p[0].piece_type,
        p[4].rotation == p[0].rotation,
        p[4].board@ == p[0].board@,
        p[4].board.rows == p[0].board.rows,
        p[4].board.cols == p[0].board.cols,
{
    crate::enums::lemma_rotation_cycle(p[0].rotation);
    assert(p[0int + 1].piece_type == p[0].piece_type);
    assert(p[1int + 1].piece_type == p[1].piece_type);
    assert(p[2int + 1].piece_type == p[2].piece_type);
    assert(p[3int + 1].piece_type == p[3].piece_type);
}

/// The kick table has an entry for every quarter turn of every piece: five
/// kicks, or the single kick of the O piece; and the first kick of every
/// entry moves nothing.
pub proof fn lemma_kick_table_total(piece: PieceType, from: Rotation, to: Rotation)
    requires
        from.is_quarter_turn_to(to),
    ensures
        0 <= kick_slot(from, to) < 8,
        kick_table(piece, from, to).len() == (if piece == PieceType::O {
            1nat
        } else {
            5nat
        }),
        kick_table(piece, from, to)[0] == (0isize, 0isize),
{
}

} // verus!
