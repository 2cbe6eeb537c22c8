use crate::board::{row_blank, Board};
use crate::clearing::{compacted, complete_count, count_rows, lemma_clear_compacts};
use crate::enums::PieceType;
use crate::pieces::{blocked, PieceWithPosition};
use vstd::prelude::*;

verus! {

/// What a lock is scored as.
#[derive(Debug, Clone, Copy, PartialEq, Eq, Structural)]
pub enum ScoreType {
    TSpinSingle,
    TSpinDouble,
    TSpinTriple,
    TSpinMini,
    Tetris,
    AllClear,
    Single,
    Double,
    Triple,
}

/// The kinds of move that the player, or gravity, makes with a piece.
#[derive(Debug, Clone, Copy, PartialEq, Eq, Structural)]
pub enum Moves {
    Fall,
    Rotate,
    Side,
    Down,
    Up,
}

/// The run of locks in a row that each cleared something: none yet, the
/// first one, or the number of those that followed it.
#[derive(Debug, Clone, Copy, PartialEq, Eq, Structural)]
pub enum ComboState {
    Empty,
    Started,
    Continuing(u32),
}

/// Whether a score keeps a back-to-back streak going: every score does, but
/// the plain single, double and triple.
pub open spec fn b2b_worth(s: ScoreType) -> bool {
    !(s is Single || s is Double || s is Triple)
}

/// Whether a score keeps a back-to-back streak going.
pub fn is_b2b_worth(s: ScoreType) -> (b: bool)
    ensures
        b == b2b_worth(s),
        b == !(s == ScoreType::Single || s == ScoreType::Double || s == ScoreType::Triple),
{
    match s {
        ScoreType::Single | ScoreType::Double | ScoreType::Triple => false,
        _ => true,
    }
}

impl ComboState {
    /// The state after a lock that cleared `completed_rows` rows: a lock
    /// that clears nothing ends the run; one that clears something starts a
    /// run, or makes it longer by one.
    pub open spec fn step(self, completed_rows: int) -> ComboState {
        if completed_rows == 0 {
            ComboState::Empty
        } else {
            match self {
                ComboState::Empty => ComboState::Started,
                ComboState::Started => ComboState::Continuing(1),
                ComboState::Continuing(n) => ComboState::Continuing((n + 1) as u32),
            }
        }
    }

    /// Whether the run can grow by one without its count leaving `u32`.
    pub open spec fn can_grow(self) -> bool {
        self matches ComboState::Continuing(n) ==> n < u32::MAX
    }

    /// The state after a lock that cleared `completed_rows` rows.
    pub fn next(self, completed_rows: u32) -> (state: ComboState)
        requires
            completed_rows > 0 ==> self.can_grow(),
        ensures
            state == self.step(completed_rows as int),
    {
        if completed_rows == 0 {
            ComboState::Empty
        } else {
            match self {
                ComboState::Empty => ComboState::Started,
                ComboState::Started => ComboState::Continuing(1),
                ComboState::Continuing(n) => ComboState::Continuing(n + 1),
            }
        }
    }

    /// The count of a run that is past its first lock.
    pub fn value(&self) -> (v: Option<u32>)
        ensures
            v == (match *self {
                ComboState::Continuing(n) => Some(n),
                _ => None,
            }),
    {
        if let ComboState::Continuing(n) = self {
            Some(*n)
        } else {
            None
        }
    }
}

impl Default for ComboState {
    fn default() -> (state: ComboState)
        ensures
            state == ComboState::Empty,
    {
        ComboState::Empty
    }
}

/// 1 where the place `(i, j)` of the board is taken, 0 where it is free.
pub open spec fn taken(board: &Board, i: int, j: int) -> int {
    if blocked(board, i, j) {
        1
    } else {
        0
    }
}

/// How many of the four places diagonal to the centre of a three by three
/// piece are taken, for a piece whose grid has its origin at `(row, col)`:
/// the centre is at `(row + 1, col + 1)`. A place off the board is taken.
pub open spec fn corners_taken(board: &Board, row: int, col: int) -> int {
    taken(board, row, col) + taken(board, row, col + 2) + taken(board, row + 2, col) + taken(
        board,
        row + 2,
        col + 2,
    )
}

/// Whether a lock is a T-spin: a T piece that was last turned, that clears
/// something, and that has three of its four corners taken.
pub open spec fn is_t_spin(piece: PieceType, last_move: Moves, cleared: int, corners: int) -> bool {
    piece == PieceType::T && cleared > 0 && last_move == Moves::Rotate && corners >= 3
}

/// The score of a lock by the rows it cleared. A T-spin of one, two or
/// three rows has its own scores, and one of more rows has none. Any other
/// lock of two, three or four rows is a double, a triple or a tetris; one
/// row alone, and more than four, have no score.
pub open spec fn classify(piece: PieceType, last_move: Moves, cleared: int, corners: int) -> Option<
    ScoreType,
> {
    if is_t_spin(piece, last_move, cleared, corners) {
        if cleared == 1 {
            Some(ScoreType::TSpinSingle)
        } else if cleared == 2 {
            Some(ScoreType::TSpinDouble)
        } else if cleared == 3 {
            Some(ScoreType::TSpinTriple)
        } else {
            None
        }
    } else if cleared == 2 {
        Some(ScoreType::Double)
    } else if cleared == 3 {
        Some(ScoreType::Triple)
    } else if cleared == 4 {
        Some(ScoreType::Tetris)
    } else {
        None
    }
}

/// The back-to-back count after a lock: one more than before where the lock
/// cleared something, the lock before it had a score, and this one has a
/// score that is worth it; 0 otherwise.
pub open spec fn streak(before: int, had_score: bool, cleared: int, score: Option<ScoreType>) -> int {
    if cleared > 0 && had_score && score is Some && b2b_worth(score->0) {
        before + 1
    } else {
        0
    }
}

/// Whether no cell of the grid is filled.
pub open spec fn grid_blank(grid: Seq<Seq<crate::board::Cell>>) -> bool {
    forall|i: int| 0 <= i < grid.len() ==> row_blank(#[trigger] grid[i])
}

/// Whether the lock of a piece on the board leaves the board without any
/// block once its complete rows are taken out.
pub open spec fn clears_all(board: &Board) -> bool {
    grid_blank(compacted(board@, board.cols as int))
}

/// The score of the lock of a piece of type `piece` that lies on the board
/// with the origin of its grid at `(row, col)`, after the move `last_move`:
/// an all-clear where the lock empties the board, and else the score of the
/// rows that it clears.
pub open spec fn lock_score(
    piece: PieceType,
    last_move: Moves,
    board: &Board,
    row: int,
    col: int,
) -> Option<ScoreType> {
    if clears_all(board) {
        Some(ScoreType::AllClear)
    } else {
        classify(piece, last_move, complete_count(board@), corners_taken(board, row, col))
    }
}

/// The back-to-back count after that lock: 0 where the lock empties the
/// board, and else what the streak comes to.
pub open spec fn lock_streak(
    before: int,
    had_score: bool,
    piece: PieceType,
    last_move: Moves,
    board: &Board,
    row: int,
    col: int,
) -> int {
    if clears_all(board) {
        0
    } else {
        streak(
            before,
            had_score,
            complete_count(board@),
            classify(piece, last_move, complete_count(board@), corners_taken(board, row, col)),
        )
    }
}

/// A lock that empties the board is an all-clear and ends the back-to-back
/// streak, whatever the piece, the last move, the rows cleared and the
/// streak before.
pub proof fn lemma_all_clear_overrides(
    before: int,
    had_score: bool,
    piece: PieceType,
    last_move: Moves,
    board: &Board,
    row: int,
    col: int,
)
    requires
        clears_all(board),
    ensures
        lock_score(piece, last_move, board, row, col) == Some(ScoreType::AllClear),
        lock_streak(before, had_score, piece, last_move, board, row, col) == 0,
{
}

/// The lock of a T piece that clears one, two or three rows and leaves
/// blocks on the board is scored as the T-spin of that many rows exactly if
/// the last move was a rotation and three of the four places diagonal to
/// the piece's centre are taken; otherwise it is scored as none of the
/// T-spins.
pub proof fn lemma_t_spin_detection(last_move: Moves, board: &Board, row: int, col: int)
    requires
        1 <= complete_count(board@) <= 3,
        !clears_all(board),
    ensures
        ({
            let n = complete_count(board@);
            let score = lock_score(PieceType::T, last_move, board, row, col);
            if last_move == Moves::Rotate && corners_taken(board, row, col) >= 3 {
                score == Some(
                    if n == 1 {
                        ScoreType::TSpinSingle
                    } else if n == 2 {
                        ScoreType::TSpinDouble
                    } else {
                        ScoreType::TSpinTriple
                    },
                )
            } else {
                &&& score != Some(ScoreType::TSpinSingle)
                &&& score != Some(ScoreType::TSpinDouble)
                &&& score != Some(ScoreType::TSpinTriple)
            }
        }),
{
}

/// Keeps the score state of a game from lock to lock.
#[derive(Debug)]
pub struct ScoreUpdater {
    current_combo: ComboState,
    last_score: Option<ScoreType>,
    last_move: Moves,
    back_to_back: u32,
}

/// Whether the place `(row + drow, col + dcol)` of the board is taken.
fn place_taken(board: &Board, row: isize, drow: isize, col: isize, dcol: isize) -> (b: bool)
    requires
        board.wf(),
    ensures
        b == blocked(board, row + drow, col + dcol),
{
    let r: i128 = row as i128 + drow as i128;
    let c: i128 = col as i128 + dcol as i128;
    if r < 0 || r >= board.rows as i128 || c < 0 || c >= board.cols as i128 {
        true
    } else {
        board.is_set(r as isize, c as isize)
    }
}

impl ScoreUpdater {
    /// The state of the combo.
    pub closed spec fn spec_combo(&self) -> ComboState {
        self.current_combo
    }

    /// The score of the last lock, if it had one.
    pub closed spec fn spec_last_score(&self) -> Option<ScoreType> {
        self.last_score
    }

    /// The kind of the last move.
    pub closed spec fn spec_last_move(&self) -> Moves {
        self.last_move
    }

    /// The length of the back-to-back streak.
    pub closed spec fn spec_b2b(&self) -> u32 {
        self.back_to_back
    }

    /// Records the kind of the move that was just made.
    pub fn set_last_move(&mut self, last_move: Moves)
        ensures
            final(self).spec_last_move() == last_move,
            final(self).spec_combo() == old(self).spec_combo(),
            final(self).spec_last_score() == old(self).spec_last_score(),
            final(self).spec_b2b() == old(self).spec_b2b(),
    {
        self.last_move = last_move;
    }

    /// The kind of the last move.
    #[verifier::when_used_as_spec(spec_last_move)]
    pub fn get_last_move(&self) -> (m: Moves)
        ensures
            m == self.spec_last_move(),
    {
        self.last_move
    }

    /// The score of the last lock, if it had one.
    #[verifier::when_used_as_spec(spec_last_score)]
    pub fn get_last_score(&self) -> (s: Option<ScoreType>)
        ensures
            s == self.spec_last_score(),
    {
        self.last_score
    }

    /// The length of the back-to-back streak.
    #[verifier::when_used_as_spec(spec_b2b)]
    pub fn get_b2b(&self) -> (n: u32)
        ensures
            n == self.spec_b2b(),
    {
        self.back_to_back
    }

    /// The state of the combo.
    #[verifier::when_used_as_spec(spec_combo)]
    pub fn get_combo(&self) -> (c: ComboState)
        ensures
            c == self.spec_combo(),
    {
        self.current_combo
    }

    /// Scores the lock of a piece that was just written into the board, and
    /// clears the board's complete rows.
    ///
    /// The combo goes on by the number of complete rows. The lock is scored
    /// by that number, by the piece and by the last move, with the corners
    /// of a T piece taken from the board as it is before the rows go. The
    /// back-to-back streak grows or ends. Then the complete rows are taken
    /// out of the board. If that leaves the board without any block, the
    /// score is an all-clear and the streak ends, whatever they were.
    ///
    /// The two counters are `u32`: the combo must be able to grow where the
    /// lock clears a row, and the streak where it grows.
    ///
    /// A lock that clears exactly one row and is no T-spin has no score.
    pub fn finalized_piece(&mut self, piece_with_position: &PieceWithPosition, board: &mut Board)
        requires
            old(board).wf(),
            complete_count(old(board)@) > 0 ==> old(self).spec_combo().can_grow(),
            lock_streak(
                old(self).spec_b2b() as int,
                old(self).spec_last_score() is Some,
                piece_with_position.spec_piece().piece_type,
                old(self).spec_last_move(),
                old(board),
                piece_with_position.spec_row() as int,
                piece_with_position.spec_col() as int,
            ) <= u32::MAX,
        ensures
            final(board).wf(),
            final(board).rows == old(board).rows,
            final(board).cols == old(board).cols,
            final(board)@ == compacted(old(board)@, old(board).cols as int),
            final(self).spec_last_move() == old(self).spec_last_move(),
            final(self).spec_combo() == old(self).spec_combo().step(complete_count(old(board)@)),
            final(self).spec_last_score() == lock_score(
                piece_with_position.spec_piece().piece_type,
                old(self).spec_last_move(),
                old(board),
                piece_with_position.spec_row() as int,
                piece_with_position.spec_col() as int,
            ),
            final(self).spec_b2b() == lock_streak(
                old(self).spec_b2b() as int,
                old(self).spec_last_score() is Some,
                piece_with_position.spec_piece().piece_type,
                old(self).spec_last_move(),
                old(board),
                piece_with_position.spec_row() as int,
                piece_with_position.spec_col() as int,
            ),
    {
        let completed_rows_ranges = board.completed_rows();
        proof {
            lemma_clear_compacts(
                board@,
                board.rows as int,
                board.cols as int,
                completed_rows_ranges@,
            );
        }
        let completed_rows = count_rows(board, &completed_rows_ranges);

        let count: u32 = if completed_rows > 0 {
            if completed_rows as i128 > u32::MAX as i128 {
                u32::MAX
            } else {
                completed_rows as u32
            }
        } else {
            0
        };
        self.current_combo = self.current_combo.next(count);

        let last = self.last_score;
        self.last_score = None;

        let is_t = match piece_with_position.tetris_piece_ref().piece_type {
            PieceType::T => true,
            _ => false,
        };
        let rotated = match self.last_move {
            Moves::Rotate => true,
            _ => false,
        };
        let mut spin = false;
        if is_t && completed_rows > 0 && rotated {
            let row = piece_with_position.row();
            let col = piece_with_position.col();
            let mut occupied: u8 = 0;
            if place_taken(board, row, 0, col, 0) {
                occupied += 1;
            }
            if place_taken(board, row, 0, col, 2) {
                occupied += 1;
            }
            if place_taken(board, row, 2, col, 0) {
                occupied += 1;
            }
            if place_taken(board, row, 2, col, 2) {
                occupied += 1;
            }
            assert(occupied == corners_taken(old(board), row as int, col as int));
            spin = occupied >= 3;
        }
        if spin {
            self.last_score = if completed_rows == 1 {
                Some(ScoreType::TSpinSingle)
            } else if completed_rows == 2 {
                Some(ScoreType::TSpinDouble)
            } else if completed_rows == 3 {
                Some(ScoreType::TSpinTriple)
            } else {
                None
            };
        } else if completed_rows == 2 {
            self.last_score = Some(ScoreType::Double);
        } else if completed_rows == 3 {
            self.last_score = Some(ScoreType::Triple);
        } else if completed_rows == 4 {
            self.last_score = Some(ScoreType::Tetris);
        }

        let is_b2b = completed_rows > 0 && last.is_some() && match self.last_score {
            Some(s) => is_b2b_worth(s),
            None => false,
        };

        board.remove_ranges(completed_rows_ranges);

        if board.is_empty() {
            self.back_to_back = 0;
            self.last_score = Some(ScoreType::AllClear);
        } else if is_b2b {
            self.back_to_back += 1;
        } else {
            self.back_to_back = 0;
        }
    }
}

impl Default for ScoreUpdater {
    /// The state at the start of a game.
    fn default() -> (updater: ScoreUpdater)
        ensures
            updater.spec_combo() == ComboState::Empty,
            updater.spec_last_move() == Moves::Fall,
            updater.spec_last_score() == None::<ScoreType>,
            updater.spec_b2b() == 0,
    {
        ScoreUpdater {
            current_combo: ComboState::Empty,
            last_move: Moves::Fall,
            last_score: None,
            back_to_back: 0,
        }
    }
}

} // verus!
