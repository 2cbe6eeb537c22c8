use crate::enums::{PieceType, PieceTypeColor};
use vstd::prelude::*;

verus! {

/// One square of the playing field.
#[derive(Debug, Clone, Copy, PartialEq, Eq, Structural)]
pub enum Cell {
    Filled(PieceTypeColor),
    Empty,
}

/// Whether a cell holds a block.
pub fn is_filled(cell: Cell) -> (b: bool)
    ensures
        b == (cell is Filled),
{
    match cell {
        Cell::Filled(_) => true,
        Cell::Empty => false,
    }
}

/// The cell that holds a block of the given playable piece.
pub fn playable_piece_to_cell(piece: PieceType) -> (c: Cell)
    ensures
        c == Cell::Filled(PieceTypeColor::Playable(piece)),
{
    Cell::Filled(PieceTypeColor::Playable(piece))
}

/// The cell that holds a block of no playable piece.
pub fn not_playable_piece_to_cell() -> (c: Cell)
    ensures
        c == Cell::Filled(PieceTypeColor::NotPlayable),
{
    Cell::Filled(PieceTypeColor::NotPlayable)
}

/// A row is complete when every one of its cells is filled.
pub open spec fn row_complete(row: Seq<Cell>) -> bool {
    forall|j: int| 0 <= j < row.len() ==> (#[trigger] row[j]) is Filled
}

/// A row is blank when every one of its cells is empty.
pub open spec fn row_blank(row: Seq<Cell>) -> bool {
    forall|j: int| 0 <= j < row.len() ==> (#[trigger] row[j]) is Empty
}

/// A row of `cols` empty cells.
pub open spec fn blank_row(cols: int) -> Seq<Cell> {
    Seq::new(cols as nat, |j: int| Cell::Empty)
}

/// `n` rows of `cols` empty cells each.
pub open spec fn blank_rows(n: int, cols: int) -> Seq<Seq<Cell>> {
    Seq::new(n as nat, |i: int| blank_row(cols))
}

/// A grid of `rows` rows, each of `cols` cells. Row 0 is the bottom row.
pub open spec fn is_grid(grid: Seq<Seq<Cell>>, rows: int, cols: int) -> bool {
    &&& 0 <= rows
    &&& 0 <= cols
    &&& grid.len() == rows
    &&& forall|i: int| 0 <= i < rows ==> (#[trigger] grid[i]).len() == cols
}

/// Row `i` exists in the grid and is complete.
pub open spec fn complete_at(grid: Seq<Seq<Cell>>, i: int) -> bool {
    0 <= i < grid.len() && row_complete(grid[i])
}

/// The grid without its rows `to..=from`: the rows above them have come down
/// by the height of the span, and as many blank rows have come in at the top.
pub open spec fn remove_span(grid: Seq<Seq<Cell>>, cols: int, from: int, to: int) -> Seq<
    Seq<Cell>,
> {
    grid.subrange(0, to) + grid.subrange(from + 1, grid.len() as int) + blank_rows(
        from - to + 1,
        cols,
    )
}

/// The grid after the spans of `ranges` were removed one after the other,
/// the first of the list first, each by its own indices in the grid that the
/// removals before it left.
pub open spec fn remove_spans(grid: Seq<Seq<Cell>>, cols: int, ranges: Seq<(isize, isize)>) -> Seq<
    Seq<Cell>,
>
    decreases ranges.len(),
{
    if ranges.len() == 0 {
        grid
    } else {
        remove_span(
            remove_spans(grid, cols, ranges.drop_last()),
            cols,
            ranges.last().0 as int,
            ranges.last().1 as int,
        )
    }
}

/// The span `to..=from` is a run of complete rows that cannot be made longer:
/// every row of it is complete, and the rows next to it, above and below, are
/// not (or do not exist).
pub open spec fn is_run(grid: Seq<Seq<Cell>>, from: int, to: int) -> bool {
    &&& 0 <= to <= from < grid.len()
    &&& forall|i: int| to <= i <= from ==> row_complete(#[trigger] grid[i])
    &&& !complete_at(grid, from + 1)
    &&& !complete_at(grid, to - 1)
}

/// Row `i` lies in one of the spans of `ranges`.
pub open spec fn covered(ranges: Seq<(isize, isize)>, i: int) -> bool {
    exists|k: int| 0 <= k < ranges.len() && (#[trigger] ranges[k]).1 <= i <= ranges[k].0
}

/// `ranges` lists the runs of complete rows of the grid: each entry
/// `(from, to)` is a maximal run `to..=from`, the entries come from the top of
/// the grid down, and every complete row lies in one of them.
pub open spec fn lists_runs(grid: Seq<Seq<Cell>>, ranges: Seq<(isize, isize)>) -> bool {
    &&& forall|k: int|
        0 <= k < ranges.len() ==> is_run(grid, (#[trigger] ranges[k]).0 as int, ranges[k].1 as int)
    &&& forall|k: int, l: int|
        0 <= k < l < ranges.len() ==> (#[trigger] ranges[l]).0 < (#[trigger] ranges[k]).1
    &&& forall|i: int| complete_at(grid, i) ==> covered(ranges, i)
}

/// The number of rows in the spans of `ranges`, taken together.
pub open spec fn span_rows(ranges: Seq<(isize, isize)>) -> int
    decreases ranges.len(),
{
    if ranges.len() == 0 {
        0
    } else {
        span_rows(ranges.drop_last()) + (ranges.last().0 - ranges.last().1 + 1)
    }
}

/// The character that pictures a cell: a star for a filled cell, a blank
/// for an empty one.
pub open spec fn cell_char(cell: Cell) -> char {
    if cell is Filled {
        '*'
    } else {
        ' '
    }
}

/// The line of text that pictures a row: one character for each cell, and
/// the end of the line.
pub open spec fn row_text(row: Seq<Cell>) -> Seq<char> {
    row.map_values(|cell: Cell| cell_char(cell)).push('\n')
}

/// The text that pictures the rows of a grid, one line for each row, in the
/// order of the rows.
pub open spec fn rows_text(grid: Seq<Seq<Cell>>) -> Seq<char>
    decreases grid.len(),
{
    if grid.len() == 0 {
        Seq::empty()
    } else {
        rows_text(grid.drop_last()) + row_text(grid.last())
    }
}

/// Appends the picture of a row to a text.
#[verifier::loop_isolation(false)]
pub fn push_row_text(text: &mut String, row: &Vec<Cell>)
    ensures
        final(text)@ == old(text)@ + row_text(row@),
{
    let n = row.len();
    let mut j: usize = 0;
    proof {
        reveal_strlit("*");
        reveal_strlit(" ");
        reveal_strlit("\n");
    }
    while j < n
        invariant
            0 <= j <= n,
            n == row@.len(),
            text@ == old(text)@ + row@.take(j as int).map_values(|cell: Cell| cell_char(cell)),
        decreases n - j,
    {
        if is_filled(row[j]) {
            text.append("*");
        } else {
            text.append(" ");
        }
        assert(text@ =~= old(text)@ + row@.take(j + 1).map_values(|cell: Cell| cell_char(cell)));
        j += 1;
    }
    assert(row@.take(n as int) =~= row@);
    text.append("\n");
    assert(text@ =~= old(text)@ + row_text(row@));
}

/// The playing field: a grid of fixed size, row 0 at the bottom.
///
/// `data` holds the rows from the bottom up. It is public so that contracts
/// anywhere can speak of the cells; code outside this module goes through the
/// methods, which keep the grid `rows` by `cols`.
#[derive(Debug)]
pub struct Board {
    pub rows: isize,
    pub cols: isize,
    pub data: Vec<Vec<Cell>>,
}

impl View for Board {
    type V = Seq<Seq<Cell>>;

    /// The cells of the board, row by row from the bottom.
    open spec fn view(&self) -> Seq<Seq<Cell>> {
        Seq::new(self.data@.len(), |i: int| self.data@[i]@)
    }
}

/// A fresh row of `cols` empty cells.
fn new_blank_row(cols: isize) -> (row: Vec<Cell>)
    requires
        0 <= cols,
    ensures
        row@ == blank_row(cols as int),
{
    let mut row: Vec<Cell> = Vec::new();
    let mut j: isize = 0;
    while j < cols
        invariant
            0 <= j <= cols,
            row@.len() == j,
            forall|k: int| 0 <= k < j ==> row@[k] == Cell::Empty,
        decreases cols - j,
    {
        row.push(Cell::Empty);
        j += 1;
    }
    assert(row@ =~= blank_row(cols as int));
    row
}

impl Board {
    /// The board holds a grid of `rows` by `cols` cells.
    pub open spec fn wf(&self) -> bool {
        is_grid(self@, self.rows as int, self.cols as int)
    }

    /// Whether `(i, j)` names a cell of the board.
    pub open spec fn in_bounds(&self, i: int, j: int) -> bool {
        0 <= i < self.rows && 0 <= j < self.cols
    }

    /// Whether `(i, j)` names a cell of the board that is filled.
    pub open spec fn filled_at(&self, i: int, j: int) -> bool {
        self.in_bounds(i, j) && self@[i][j] is Filled
    }

    /// A board of `rows` by `cols` empty cells.
    pub fn new(rows: isize, cols: isize) -> (board: Board)
        requires
            0 <= rows,
            0 <= cols,
        ensures
            board.wf(),
            board.rows == rows,
            board.cols == cols,
            board@ == blank_rows(rows as int, cols as int),
    {
        let mut data: Vec<Vec<Cell>> = Vec::new();
        let mut i: isize = 0;
        while i < rows
            invariant
                0 <= i <= rows,
                0 <= cols,
                data@.len() == i,
                forall|k: int| 0 <= k < i ==> (#[trigger] data@[k])@ == blank_row(cols as int),
            decreases rows - i,
        {
            data.push(new_blank_row(cols));
            i += 1;
        }
        let board = Board { rows, cols, data };
        assert(board@ =~= blank_rows(rows as int, cols as int));
        board
    }

    /// The cell at row `i`, column `j`.
    pub fn get(&self, i: isize, j: isize) -> (cell: Cell)
        requires
            self.wf(),
            self.in_bounds(i as int, j as int),
        ensures
            cell == self@[i as int][j as int],
    {
        self.data[i as usize][j as usize]
    }

    /// Whether `(i, j)` names a cell of the board.
    pub fn is_in_bounds(&self, i: isize, j: isize) -> (b: bool)
        ensures
            b == self.in_bounds(i as int, j as int),
    {
        !(i >= self.rows || j >= self.cols || i < 0 || j < 0)
    }

    /// Whether `(i, j)` names a filled cell. Outside the board nothing is
    /// filled.
    pub fn is_set(&self, i: isize, j: isize) -> (b: bool)
        requires
            self.wf(),
        ensures
            b == self.filled_at(i as int, j as int),
    {
        if !self.is_in_bounds(i, j) {
            false
        } else {
            assert(self@[i as int].len() == self.cols);
            is_filled(self.data[i as usize][j as usize])
        }
    }

    /// Fills the cell at `(i, j)` with a block of colour `p`.
    pub fn set(&mut self, i: isize, j: isize, p: PieceTypeColor)
        requires
            old(self).wf(),
            old(self).in_bounds(i as int, j as int),
        ensures
            final(self).wf(),
            final(self).rows == old(self).rows,
            final(self).cols == old(self).cols,
            final(self)@ == old(self)@.update(
                i as int,
                old(self)@[i as int].update(j as int, Cell::Filled(p)),
            ),
    {
        self.set_val(i, j, Cell::Filled(p));
    }

    /// Empties the cell at `(i, j)`.
    pub fn clear(&mut self, i: isize, j: isize)
        requires
            old(self).wf(),
            old(self).in_bounds(i as int, j as int),
        ensures
            final(self).wf(),
            final(self).rows == old(self).rows,
            final(self).cols == old(self).cols,
            final(self)@ == old(self)@.update(
                i as int,
                old(self)@[i as int].update(j as int, Cell::Empty),
            ),
    {
        self.set_val(i, j, Cell::Empty);
    }

    /// Puts `b` into the cell at `(i, j)`.
    pub fn set_val(&mut self, i: isize, j: isize, b: Cell)
        requires
            old(self).wf(),
            old(self).in_bounds(i as int, j as int),
        ensures
            final(self).wf(),
            final(self).rows == old(self).rows,
            final(self).cols == old(self).cols,
            final(self)@ == old(self)@.update(i as int, old(self)@[i as int].update(j as int, b)),
    {
        assert(self@[i as int].len() == self.cols);
        self.data[i as usize][j as usize] = b;
        assert(self@ =~= old(self)@.update(i as int, old(self)@[i as int].update(j as int, b)));
    }

    /// Empties every cell of the board.
    pub fn clear_all(&mut self)
        requires
            old(self).wf(),
        ensures
            final(self).wf(),
            final(self).rows == old(self).rows,
            final(self).cols == old(self).cols,
            final(self)@ == blank_rows(old(self).rows as int, old(self).cols as int),
    {
        let fresh = Board::new(self.rows, self.cols);
        self.data = fresh.data;
    }

    /// Whether every cell of row `i` is filled.
    #[verifier::loop_isolation(false)]
    pub fn is_complete(&self, i: isize) -> (b: bool)
        requires
            self.wf(),
            0 <= i < self.rows,
        ensures
            b == row_complete(self@[i as int]),
    {
        let row = &self.data[i as usize];
        let n = row.len();
        let mut j: usize = 0;
        while j < n
            invariant
                0 <= j <= n,
                n == row@.len(),
                forall|k: int| 0 <= k < j ==> (#[trigger] row@[k]) is Filled,
            decreases n - j,
        {
            if !is_filled(row[j]) {
                return false;
            }
            j += 1;
        }
        true
    }

    /// Whether no cell of the board is filled.
    #[verifier::loop_isolation(false)]
    pub fn is_empty(&self) -> (b: bool)
        ensures
            b == (forall|i: int| 0 <= i < self@.len() ==> row_blank(#[trigger] self@[i])),
    {
        let n = self.data.len();
        let mut i: usize = 0;
        while i < n
            invariant
                0 <= i <= n,
                n == self.data@.len(),
                forall|k: int| 0 <= k < i ==> row_blank(#[trigger] self@[k]),
            decreases n - i,
        {
            let row = &self.data[i];
            let m = row.len();
            let mut j: usize = 0;
            while j < m
                invariant
                    0 <= j <= m,
                    m == row@.len(),
                    forall|k: int| 0 <= k < j ==> (#[trigger] row@[k]) is Empty,
                decreases m - j,
            {
                if is_filled(row[j]) {
                    assert(!row_blank(self@[i as int]));
                    return false;
                }
                j += 1;
            }
            assert(row_blank(self@[i as int]));
            i += 1;
        }
        true
    }
    /// The rows of the board, from the bottom up, to be changed in place.
    /// Whoever changes them keeps each row as long as the board is wide.
    pub fn rows_mut(&mut self) -> (rows: &mut Vec<Vec<Cell>>)
        ensures
            *rows == old(self).data,
            final(self).data == *final(rows),
            final(self).rows == old(self).rows,
            final(self).cols == old(self).cols,
    {
        &mut self.data
    }

    /// A picture of the board as text: one line for each row, the top row
    /// first, with a star for each filled cell and a blank for each empty
    /// one.
    #[verifier::loop_isolation(false)]
    pub fn picture(&self) -> (text: String)
        ensures
            text@ == rows_text(self@.reverse()),
    {
        let n = self.data.len();
        let mut text = String::new();
        let mut k: usize = 0;
        assert(self@.reverse().take(0) =~= Seq::<Seq<Cell>>::empty());
        while k < n
            invariant
                0 <= k <= n,
                n == self.data@.len(),
                text@ == rows_text(self@.reverse().take(k as int)),
            decreases n - k,
        {
            push_row_text(&mut text, &self.data[n - 1 - k]);
            proof {
                let shown = self@.reverse().take(k + 1);
                assert(shown.drop_last() =~= self@.reverse().take(k as int));
                assert(shown.last() == self@[n - 1 - k]);
            }
            k += 1;
        }
        assert(self@.reverse().take(n as int) =~= self@.reverse());
        text
    }

    /// Whether some cell of column `j` is filled.
    pub open spec fn col_occupied(&self, j: int) -> bool {
        exists|i: int| #[trigger] self.filled_at(i, j)
    }

    /// The runs of complete rows, from the top of the board down. Each entry
    /// `(from, to)` is one run, `to..=from`, as long as it can be.
    #[verifier::loop_isolation(false)]
    pub fn completed_rows(&mut self) -> (ranges: Vec<(isize, isize)>)
        requires
            old(self).wf(),
        ensures
            *final(self) == *old(self),
            lists_runs(old(self)@, ranges@),
    {
        let ghost grid = self@;
        let mut ranges: Vec<(isize, isize)> = Vec::new();
        let mut top: Option<isize> = None;
        let mut i: isize = self.rows;
        while i > 0
            invariant
                *self == *old(self),
                0 <= i <= self.rows,
                top matches Some(f) ==> {
                    &&& i <= f < self.rows
                    &&& forall|r: int| i <= r <= f ==> row_complete(#[trigger] grid[r])
                    &&& !complete_at(grid, f + 1)
                },
                top is None ==> !complete_at(grid, i as int),
                forall|k: int|
                    0 <= k < ranges@.len() ==> is_run(
                        grid,
                        (#[trigger] ranges@[k]).0 as int,
                        ranges@[k].1 as int,
                    ),
                forall|k: int| 0 <= k < ranges@.len() ==> (#[trigger] ranges@[k]).1 > i,
                top matches Some(f) ==> forall|k: int|
                    0 <= k < ranges@.len() ==> (#[trigger] ranges@[k]).1 > f,
                forall|k: int, l: int|
                    0 <= k < l < ranges@.len() ==> (#[trigger] ranges@[l]).0 < (
                    #[trigger] ranges@[k]).1,
                forall|r: int|
                    i <= r && complete_at(grid, r) ==> covered(ranges@, r) || (top matches Some(f)
                        && r <= f),
            decreases i,
        {
            i -= 1;
            if self.is_complete(i) {
                if top.is_none() {
                    top = Some(i);
                }
            } else if let Some(f) = top {
                let ghost before = ranges@;
                ranges.push((f, i + 1));
                top = None;
                proof {
                    lemma_covered_push(before, (f, (i + 1) as isize));
                }
            }
        }
        if let Some(f) = top {
            let ghost before = ranges@;
            ranges.push((f, 0));
            proof {
                lemma_covered_push(before, (f, 0isize));
            }
        }
        ranges
    }

    /// Removes the spans of `ranges` one after the other, the first of the
    /// list first. Each span `(from, to)` is taken by its own indices in the
    /// board as the removals before it left it, so a list of several spans
    /// goes from the top of the board down, as `completed_rows` gives it.
    pub fn remove_ranges(&mut self, ranges: Vec<(isize, isize)>)
        requires
            old(self).wf(),
            forall|k: int|
                0 <= k < ranges@.len() ==> 0 <= (#[trigger] ranges@[k]).1 <= ranges@[k].0 < old(self).rows,
        ensures
            final(self).wf(),
            final(self).rows == old(self).rows,
            final(self).cols == old(self).cols,
            final(self)@ == remove_spans(old(self)@, old(self).cols as int, ranges@),
    {
        let mut k: usize = 0;
        while k < ranges.len()
            invariant
                0 <= k <= ranges@.len(),
                self.wf(),
                self.rows == old(self).rows,
                self.cols == old(self).cols,
                forall|k: int|
                    0 <= k < ranges@.len() ==> 0 <= (#[trigger] ranges@[k]).1 <= ranges@[k].0
                        < self.rows,
                self@ == remove_spans(old(self)@, self.cols as int, ranges@.take(k as int)),
            decreases ranges@.len() - k,
        {
            let (from, to) = ranges[k];
            self.remove_rows(from, to);
            proof {
                assert(ranges@.take(k + 1).drop_last() =~= ranges@.take(k as int));
            }
            k += 1;
        }
        assert(ranges@.take(k as int) =~= ranges@);
    }

    /// The rows of the board, from the bottom up.
    pub fn rows(&self) -> (rows: &Vec<Vec<Cell>>)
        ensures
            *rows == self.data,
    {
        &self.data
    }

    /// Removes row `row`: the rows above it come down by one, and a blank row
    /// comes in at the top.
    pub fn remove_row(&mut self, row: isize)
        requires
            old(self).wf(),
            0 <= row < old(self).rows,
        ensures
            final(self).wf(),
            final(self).rows == old(self).rows,
            final(self).cols == old(self).cols,
            final(self)@ == remove_span(old(self)@, old(self).cols as int, row as int, row as int),
    {
        self.remove_rows(row, row)
    }

    /// Removes the rows `to..=from`: the rows above them come down by the
    /// height of the span, and as many blank rows come in at the top.
    #[verifier::loop_isolation(false)]
    pub fn remove_rows(&mut self, from: isize, to: isize)
        requires
            old(self).wf(),
            0 <= to <= from < old(self).rows,
        ensures
            final(self).wf(),
            final(self).rows == old(self).rows,
            final(self).cols == old(self).cols,
            final(self)@ == remove_span(old(self)@, old(self).cols as int, from as int, to as int),
    {
        let height = from - to + 1;
        let mut n: isize = 0;
        while n < height
            invariant
                0 <= n <= height,
                height == from - to + 1,
                0 <= to <= from < self.rows,
                old(self).wf(),
                self.rows == old(self).rows,
                self.cols == old(self).cols,
                self@ == old(self)@.subrange(0, to as int) + old(self)@.subrange(
                    to + n,
                    self.rows as int,
                ) + blank_rows(n as int, self.cols as int),
            decreases height - n,
        {
            let ghost before = self@;
            assert(before.len() == self.rows);
            let _ = self.data.remove(to as usize);
            self.data.push(new_blank_row(self.cols));
            n += 1;
            assert(self@ =~= before.remove(to as int).push(blank_row(self.cols as int)));
            assert(before.remove(to as int).push(blank_row(self.cols as int)) =~= old(self)@.subrange(
                0,
                to as int,
            ) + old(self)@.subrange(to + n, self.rows as int) + blank_rows(
                n as int,
                self.cols as int,
            ));
        }
    }

    /// The leftmost column that holds a filled cell, if there is one.
    #[verifier::loop_isolation(false)]
    pub fn get_first_set_col(&self) -> (col: Option<isize>)
        requires
            self.wf(),
        ensures
            match col {
                Some(j) => {
                    &&& 0 <= j < self.cols
                    &&& self.col_occupied(j as int)
                    &&& forall|c: int| 0 <= c < j ==> !self.col_occupied(c)
                },
                None => forall|c: int| 0 <= c < self.cols ==> !self.col_occupied(c),
            },
    {
        let mut j: isize = 0;
        while j < self.cols
            invariant
                0 <= j <= self.cols,
                forall|c: int| 0 <= c < j ==> !self.col_occupied(c),
            decreases self.cols - j,
        {
            if self.column_has_block(j) {
                return Some(j);
            }
            j += 1;
        }
        None
    }

    /// The rightmost column that holds a filled cell, if there is one.
    #[verifier::loop_isolation(false)]
    pub fn get_last_set_col(&self) -> (col: Option<isize>)
        requires
            self.wf(),
        ensures
            match col {
                Some(j) => {
                    &&& 0 <= j < self.cols
                    &&& self.col_occupied(j as int)
                    &&& forall|c: int| j < c < self.cols ==> !self.col_occupied(c)
                },
                None => forall|c: int| 0 <= c < self.cols ==> !self.col_occupied(c),
            },
    {
        let mut j: isize = self.cols;
        while j > 0
            invariant
                0 <= j <= self.cols,
                forall|c: int| j <= c < self.cols ==> !self.col_occupied(c),
            decreases j,
        {
            j -= 1;
            if self.column_has_block(j) {
                return Some(j);
            }
        }
        None
    }

    /// Whether some cell of column `j` is filled.
    #[verifier::loop_isolation(false)]
    fn column_has_block(&self, j: isize) -> (b: bool)
        requires
            self.wf(),
            0 <= j < self.cols,
        ensures
            b == self.col_occupied(j as int),
    {
        let mut i: isize = 0;
        while i < self.rows
            invariant
                0 <= i <= self.rows,
                forall|r: int| 0 <= r < i ==> !self.filled_at(r, j as int),
            decreases self.rows - i,
        {
            if self.is_set(i, j) {
                return true;
            }
            i += 1;
        }
        false
    }
}

/// A row that one of the listed spans holds is still held by one of them
/// after another span was added to the list.
pub proof fn lemma_covered_push(ranges: Seq<(isize, isize)>, span: (isize, isize))
    ensures
        forall|i: int| covered(ranges, i) ==> covered(ranges.push(span), i),
        forall|i: int| span.1 <= i <= span.0 ==> covered(ranges.push(span), i),
{
    assert forall|i: int| covered(ranges, i) implies covered(ranges.push(span), i) by {
        let k = choose|k: int| 0 <= k < ranges.len() && (#[trigger] ranges[k]).1 <= i <= ranges[k].0;
        assert(ranges.push(span)[k] == ranges[k]);
    }
    assert forall|i: int| span.1 <= i <= span.0 implies covered(ranges.push(span), i) by {
        assert(ranges.push(span)[ranges.len() as int] == span);
    }
}

impl Clone for Board {
    /// A copy of the board that shares nothing with it.
    #[verifier::loop_isolation(false)]
    fn clone(&self) -> (copy: Board)
        ensures
            copy.rows == self.rows,
            copy.cols == self.cols,
            copy@ == self@,
    {
        let n = self.data.len();
        let mut data: Vec<Vec<Cell>> = Vec::new();
        let mut i: usize = 0;
        while i < n
            invariant
                0 <= i <= n,
                n == self.data@.len(),
                data@.len() == i,
                forall|k: int| 0 <= k < i ==> (#[trigger] data@[k])@ == self.data@[k]@,
            decreases n - i,
        {
            let src = &self.data[i];
            let m = src.len();
            let mut row: Vec<Cell> = Vec::new();
            let mut j: usize = 0;
            while j < m
                invariant
                    0 <= j <= m,
                    m == src@.len(),
                    row@.len() == j,
                    forall|k: int| 0 <= k < j ==> row@[k] == src@[k],
                decreases m - j,
            {
                row.push(src[j]);
                j += 1;
            }
            assert(row@ =~= src@);
            data.push(row);
            i += 1;
        }
        let copy = Board { rows: self.rows, cols: self.cols, data };
        assert(copy@ =~= self@);
        copy
    }
}

} // verus!
