//! What clearing the complete rows does to a board, stated on the grid as a
//! whole, and the proof that removing the runs of complete rows one by one
//! does exactly that.

use crate::board::{
    blank_rows, complete_at, covered, is_grid, is_run, lists_runs, remove_span, remove_spans,
    row_complete, span_rows, Board, Cell,
};
use vstd::prelude::*;

verus! {

/// The test that a row is not complete.
pub open spec fn incomplete() -> spec_fn(Seq<Cell>) -> bool {
    |row: Seq<Cell>| !row_complete(row)
}

/// The test that a row is complete.
pub open spec fn complete() -> spec_fn(Seq<Cell>) -> bool {
    |row: Seq<Cell>| row_complete(row)
}

/// The rows of the grid that are not complete, in their order.
pub open spec fn kept_rows(grid: Seq<Seq<Cell>>) -> Seq<Seq<Cell>> {
    grid.filter(incomplete())
}

/// The number of complete rows of the grid.
pub open spec fn complete_count(grid: Seq<Seq<Cell>>) -> int {
    grid.filter(complete()).len() as int
}

/// The grid after its complete rows were taken out: the other rows, in
/// their order, have come down to the bottom, and blank rows fill the top.
pub open spec fn compacted(grid: Seq<Seq<Cell>>, cols: int) -> Seq<Seq<Cell>> {
    kept_rows(grid) + blank_rows(grid.len() - kept_rows(grid).len(), cols)
}

/// The row below the lowest of the first `k` spans of `ranges`; the height
/// `n` of the grid where `k` is 0.
pub open spec fn low_end(ranges: Seq<(isize, isize)>, n: int, k: int) -> int {
    if k == 0 {
        n
    } else {
        ranges[k - 1].1 as int
    }
}

/// A filter that no element passes leaves nothing.
pub proof fn lemma_filter_none<A>(s: Seq<A>, p: spec_fn(A) -> bool)
    requires
        forall|i: int| 0 <= i < s.len() ==> !p(#[trigger] s[i]),
    ensures
        s.filter(p) == Seq::<A>::empty(),
    decreases s.len(),
{
    reveal(Seq::filter);
    if s.len() > 0 {
        assert forall|i: int| 0 <= i < s.drop_last().len() implies !p(#[trigger] s.drop_last()[i]) by {
            assert(s.drop_last()[i] == s[i]);
        }
        lemma_filter_none(s.drop_last(), p);
    } else {
        assert(s =~= Seq::<A>::empty());
    }
}

/// A filter that every element passes leaves everything.
pub proof fn lemma_filter_all<A>(s: Seq<A>, p: spec_fn(A) -> bool)
    requires
        forall|i: int| 0 <= i < s.len() ==> p(#[trigger] s[i]),
    ensures
        s.filter(p) == s,
    decreases s.len(),
{
    reveal(Seq::filter);
    if s.len() > 0 {
        assert forall|i: int| 0 <= i < s.drop_last().len() implies p(#[trigger] s.drop_last()[i]) by {
            assert(s.drop_last()[i] == s[i]);
        }
        lemma_filter_all(s.drop_last(), p);
        assert(s.drop_last().push(s.last()) =~= s);
    }
}

/// A test and its opposite part a sequence in two.
pub proof fn lemma_filter_split<A>(s: Seq<A>, p: spec_fn(A) -> bool, q: spec_fn(A) -> bool)
    requires
        forall|x: A| #[trigger] q(x) == !p(x),
    ensures
        s.filter(p).len() + s.filter(q).len() == s.len(),
    decreases s.len(),
{
    reveal(Seq::filter);
    if s.len() > 0 {
        lemma_filter_split(s.drop_last(), p, q);
    }
}

/// Gaps between the listed runs hold no complete row: a row that lies above
/// span `k` and below span `k - 1` (below the top of the grid, where `k` is
/// 0) is not complete; nor is one below the last span.
pub proof fn lemma_gap_is_incomplete(
    grid: Seq<Seq<Cell>>,
    ranges: Seq<(isize, isize)>,
    k: int,
    i: int,
)
    requires
        lists_runs(grid, ranges),
        0 <= k <= ranges.len(),
        0 <= i < low_end(ranges, grid.len() as int, k),
        k < ranges.len() ==> ranges[k].0 < i,
    ensures
        !row_complete(grid[i]),
{
    if row_complete(grid[i]) {
        if k > 0 {
            assert(is_run(grid, ranges[k - 1].0 as int, ranges[k - 1].1 as int));
        }
        assert(complete_at(grid, i));
        assert(covered(ranges, i));
        let m = choose|m: int| 0 <= m < ranges.len() && (#[trigger] ranges[m]).1 <= i <= ranges[m].0;
        assert(is_run(grid, ranges[m].0 as int, ranges[m].1 as int));
        if m < k - 1 {
            assert(ranges[k - 1].0 < ranges[m].1);
        } else if m > k {
            assert(ranges[m].0 < ranges[k].1);
            assert(is_run(grid, ranges[k].0 as int, ranges[k].1 as int));
        }
        assert(false);
    }
}

/// Taking the span of length `a.len()` that starts at `x.len()` out of
/// `x + a + b + c + blanks` leaves `x + b + c + blanks`, with that many more
/// blank rows.
pub proof fn lemma_remove_span_parts(
    x: Seq<Seq<Cell>>,
    a: Seq<Seq<Cell>>,
    b: Seq<Seq<Cell>>,
    c: Seq<Seq<Cell>>,
    gone: int,
    cols: int,
)
    requires
        a.len() >= 1,
        gone >= 0,
    ensures
        remove_span(
            ((x + a) + b) + c + blank_rows(gone, cols),
            cols,
            x.len() + a.len() - 1,
            x.len() as int,
        ) == x + (b + c) + blank_rows(gone + a.len(), cols),
{
    let before = ((x + a) + b) + c + blank_rows(gone, cols);
    let t = x.len() as int;
    let f = x.len() + a.len() - 1;
    assert(before.subrange(0, t) =~= x);
    assert(before.subrange(f + 1, before.len() as int) =~= (b + c) + blank_rows(gone, cols));
    assert(blank_rows(gone, cols) + blank_rows(f - t + 1, cols) =~= blank_rows(
        gone + a.len(),
        cols,
    ));
    assert(remove_span(before, cols, f, t) =~= x + (b + c) + blank_rows(gone + a.len(), cols));
}

/// The incomplete rows from the bottom of a run up are the rows of the gap
/// above the run, all of them, and then the incomplete rows from the next
/// run up.
pub proof fn lemma_kept_above_run(
    grid: Seq<Seq<Cell>>,
    ranges: Seq<(isize, isize)>,
    k: int,
)
    requires
        lists_runs(grid, ranges),
        0 <= k < ranges.len(),
    ensures
        ({
            let rows = grid.len() as int;
            let f = ranges[k].0 as int;
            let t = ranges[k].1 as int;
            let lo = low_end(ranges, rows, k);
            &&& 0 <= t <= f < lo <= rows
            &&& kept_rows(grid.subrange(t, rows)) == grid.subrange(f + 1, lo) + kept_rows(
                grid.subrange(lo, rows),
            )
        }),
{
    let rows = grid.len() as int;
    let f = ranges[k].0 as int;
    let t = ranges[k].1 as int;
    let lo = low_end(ranges, rows, k);
    assert(is_run(grid, f, t));
    if k > 0 {
        assert(ranges[k].0 < ranges[k - 1].1);
        assert(is_run(grid, ranges[k - 1].0 as int, ranges[k - 1].1 as int));
    }
    let a = grid.subrange(t, f + 1);
    let b = grid.subrange(f + 1, lo);
    let c = grid.subrange(lo, rows);
    assert forall|i: int| 0 <= i < a.len() implies !incomplete()(#[trigger] a[i]) by {
        assert(a[i] == grid[t + i]);
    }
    assert forall|i: int| 0 <= i < b.len() implies incomplete()(#[trigger] b[i]) by {
        assert(b[i] == grid[f + 1 + i]);
        lemma_gap_is_incomplete(grid, ranges, k, f + 1 + i);
    }
    lemma_filter_none(a, incomplete());
    lemma_filter_all(b, incomplete());
    assert(grid.subrange(t, rows) =~= (a + b) + c);
    Seq::filter_distributes_over_add(a + b, c, incomplete());
    Seq::filter_distributes_over_add(a, b, incomplete());
    assert(kept_rows(grid.subrange(t, rows)) =~= b + kept_rows(c));
}

/// After the first `k` of the listed runs were removed, the grid is: the rows
/// below those runs as they were, above them the incomplete rows from there
/// up, and at the top as many blank rows as were removed.
pub proof fn lemma_clear_prefix(
    grid: Seq<Seq<Cell>>,
    rows: int,
    cols: int,
    ranges: Seq<(isize, isize)>,
    k: int,
)
    requires
        is_grid(grid, rows, cols),
        lists_runs(grid, ranges),
        0 <= k <= ranges.len(),
    ensures
        ({
            let lo = low_end(ranges, rows, k);
            let upper = kept_rows(grid.subrange(lo, rows));
            &&& 0 <= lo <= rows
            &&& span_rows(ranges.take(k)) == (rows - lo) - upper.len()
            &&& span_rows(ranges.take(k)) >= 0
            &&& remove_spans(grid, cols, ranges.take(k)) == grid.subrange(0, lo) + upper
                + blank_rows(span_rows(ranges.take(k)), cols)
        }),
    decreases k,
{
    if k == 0 {
        reveal(Seq::filter);
        assert(ranges.take(0) =~= Seq::<(isize, isize)>::empty());
        assert(grid.subrange(rows, rows) =~= Seq::<Seq<Cell>>::empty());
        assert(grid.subrange(0, rows) + kept_rows(grid.subrange(rows, rows)) + blank_rows(0, cols)
            =~= grid);
    } else {
        lemma_clear_prefix(grid, rows, cols, ranges, k - 1);
        lemma_kept_above_run(grid, ranges, k - 1);
        let prev = ranges.take(k - 1);
        let cur = ranges.take(k);
        assert(cur.drop_last() =~= prev);
        assert(cur.last() == ranges[k - 1]);
        let f = ranges[k - 1].0 as int;
        let t = ranges[k - 1].1 as int;
        let lo = low_end(ranges, rows, k - 1);
        let x = grid.subrange(0, t);
        let a = grid.subrange(t, f + 1);
        let b = grid.subrange(f + 1, lo);
        let kc = kept_rows(grid.subrange(lo, rows));
        let gone = span_rows(prev);
        let before = remove_spans(grid, cols, prev);
        assert(grid.subrange(0, lo) =~= (x + a) + b);
        assert(before == ((x + a) + b) + kc + blank_rows(gone, cols));
        lemma_remove_span_parts(x, a, b, kc, gone, cols);
        assert(remove_spans(grid, cols, cur) == remove_span(before, cols, f, t));
        assert(span_rows(cur) == gone + (f - t + 1));
    }
}

/// Removing the runs of complete rows one after the other, from the top of
/// the grid down and each by its own indices, gives the same grid as taking
/// all complete rows out at once and letting the rest fall; and the runs
/// hold as many rows as the grid has complete rows.
pub proof fn lemma_clear_compacts(
    grid: Seq<Seq<Cell>>,
    rows: int,
    cols: int,
    ranges: Seq<(isize, isize)>,
)
    requires
        is_grid(grid, rows, cols),
        lists_runs(grid, ranges),
    ensures
        remove_spans(grid, cols, ranges) == compacted(grid, cols),
        span_rows(ranges) == complete_count(grid),
        is_grid(compacted(grid, cols), rows, cols),
{
    let m = ranges.len() as int;
    lemma_clear_prefix(grid, rows, cols, ranges, m);
    assert(ranges.take(m) =~= ranges);
    let lo = low_end(ranges, rows, m);
    let below = grid.subrange(0, lo);
    let above = grid.subrange(lo, rows);
    assert forall|i: int| 0 <= i < below.len() implies incomplete()(#[trigger] below[i]) by {
        assert(below[i] == grid[i]);
        lemma_gap_is_incomplete(grid, ranges, m, i);
    }
    lemma_filter_all(below, incomplete());
    assert(grid =~= below + above);
    Seq::filter_distributes_over_add(below, above, incomplete());
    lemma_filter_split(grid, incomplete(), complete());
    assert(remove_spans(grid, cols, ranges) =~= compacted(grid, cols));
    lemma_compacted_is_grid(grid, rows, cols);
}

/// The compacted grid has the size of the grid it was made from.
pub proof fn lemma_compacted_is_grid(grid: Seq<Seq<Cell>>, rows: int, cols: int)
    requires
        is_grid(grid, rows, cols),
    ensures
        is_grid(compacted(grid, cols), rows, cols),
        kept_rows(grid).len() <= rows,
        forall|i: int| 0 <= i < kept_rows(grid).len() ==> !row_complete(#[trigger] compacted(grid, cols)[i]),
{
    let kept = kept_rows(grid);
    grid.lemma_filter_len(incomplete());
    assert forall|i: int| 0 <= i < kept.len() implies (#[trigger] kept[i]).len() == cols
        && !row_complete(kept[i]) by {
        grid.lemma_filter_pred(incomplete(), i);
        assert(kept.contains(kept[i]));
        grid.lemma_filter_contains_rev(incomplete(), kept[i]);
        let j = choose|j: int| 0 <= j < grid.len() && grid[j] == kept[i];
        assert(grid[j].len() == cols);
    }
    assert forall|i: int| 0 <= i < rows implies (#[trigger] compacted(grid, cols)[i]).len()
        == cols by {
        if i < kept.len() {
            assert(compacted(grid, cols)[i] == kept[i]);
        }
    }
    assert forall|i: int| 0 <= i < kept.len() implies !row_complete(#[trigger] compacted(grid, cols)[i]) by {
        assert(compacted(grid, cols)[i] == kept[i]);
    }
}

/// Once the runs of complete rows were removed, the board has no complete
/// row left, so that listing its runs again gives the empty list. This holds
/// of a board with at least one column; on a board without columns every row
/// counts as complete, the blank ones that come in at the top too.
pub proof fn lemma_cleared_board_has_no_run(
    grid: Seq<Seq<Cell>>,
    rows: int,
    cols: int,
    ranges: Seq<(isize, isize)>,
    again: Seq<(isize, isize)>,
)
    requires
        is_grid(grid, rows, cols),
        cols > 0,
        lists_runs(grid, ranges),
        lists_runs(remove_spans(grid, cols, ranges), again),
    ensures
        again.len() == 0,
        forall|i: int| !complete_at(remove_spans(grid, cols, ranges), i),
{
    lemma_clear_compacts(grid, rows, cols, ranges);
    lemma_compacted_is_grid(grid, rows, cols);
    let after = compacted(grid, cols);
    let kept = kept_rows(grid);
    assert forall|i: int| !complete_at(after, i) by {
        if 0 <= i < after.len() {
            if i >= kept.len() {
                assert(after[i] == blank_rows(rows - kept.len(), cols)[i - kept.len()]);
                assert(after[i][0] is Empty);
            }
        }
    }
    if again.len() > 0 {
        assert(is_run(after, again[0].0 as int, again[0].1 as int));
        assert(complete_at(after, again[0].0 as int));
    }
}

/// Two maximal runs of complete rows that share a row are the same run.
pub proof fn lemma_runs_meet(grid: Seq<Seq<Cell>>, f1: int, t1: int, f2: int, t2: int, r: int)
    requires
        is_run(grid, f1, t1),
        is_run(grid, f2, t2),
        t1 <= r <= f1,
        t2 <= r <= f2,
    ensures
        f1 == f2,
        t1 == t2,
{
    if f1 < f2 {
        assert(row_complete(grid[f1 + 1]));
    }
    if f2 < f1 {
        assert(row_complete(grid[f2 + 1]));
    }
    if t1 < t2 {
        assert(row_complete(grid[t2 - 1]));
    }
    if t2 < t1 {
        assert(row_complete(grid[t1 - 1]));
    }
}

/// Every run of one list of the runs of a grid stands in every other such
/// list.
pub proof fn lemma_run_is_listed(
    grid: Seq<Seq<Cell>>,
    a: Seq<(isize, isize)>,
    b: Seq<(isize, isize)>,
    k: int,
) -> (m: int)
    requires
        lists_runs(grid, a),
        lists_runs(grid, b),
        0 <= k < a.len(),
    ensures
        0 <= m < b.len(),
        b[m] == a[k],
{
    assert(is_run(grid, a[k].0 as int, a[k].1 as int));
    let top = a[k].0 as int;
    assert(row_complete(grid[top]));
    assert(complete_at(grid, top));
    assert(covered(b, top));
    let m = choose|m: int| 0 <= m < b.len() && (#[trigger] b[m]).1 <= top <= b[m].0;
    assert(is_run(grid, b[m].0 as int, b[m].1 as int));
    lemma_runs_meet(grid, a[k].0 as int, a[k].1 as int, b[m].0 as int, b[m].1 as int, top);
    m
}

/// Two lists of the runs of one grid agree in their first `n` entries, as
/// far as both have them.
pub proof fn lemma_runs_agree(
    grid: Seq<Seq<Cell>>,
    a: Seq<(isize, isize)>,
    b: Seq<(isize, isize)>,
    n: int,
)
    requires
        lists_runs(grid, a),
        lists_runs(grid, b),
        0 <= n <= a.len(),
    ensures
        n <= b.len(),
        forall|k: int| 0 <= k < n ==> #[trigger] a[k] == b[k],
    decreases n,
{
    if n > 0 {
        lemma_runs_agree(grid, a, b, n - 1);
        let k = n - 1;
        assert(is_run(grid, a[k].0 as int, a[k].1 as int));
        let m = lemma_run_is_listed(grid, a, b, k);
        if m < k {
            assert(a[m] == b[m]);
            assert(a[k].0 < a[m].1);
            assert(is_run(grid, a[m].0 as int, a[m].1 as int));
        } else if m > k {
            assert(is_run(grid, b[k].0 as int, b[k].1 as int));
            assert(is_run(grid, b[m].0 as int, b[m].1 as int));
            assert(b[m].0 < b[k].1);
            let back = lemma_run_is_listed(grid, b, a, k);
            assert(is_run(grid, a[back].0 as int, a[back].1 as int));
            if back < k {
                assert(a[back] == b[back]);
                assert(b[k].0 < b[back].1);
            } else if back > k {
                assert(a[back].0 < a[k].1);
            }
        }
    }
}

/// A grid has one list of its runs of complete rows, and no other: what
/// `lists_runs` says of a list says what the list is.
pub proof fn lemma_runs_unique(grid: Seq<Seq<Cell>>, a: Seq<(isize, isize)>, b: Seq<(isize, isize)>)
    requires
        lists_runs(grid, a),
        lists_runs(grid, b),
    ensures
        a == b,
{
    lemma_runs_agree(grid, a, b, a.len() as int);
    lemma_runs_agree(grid, b, a, b.len() as int);
    assert(a =~= b);
}

/// The number of rows in the runs of complete rows of a board, which is the
/// number of its complete rows.
#[verifier::loop_isolation(false)]
pub fn count_rows(board: &Board, ranges: &Vec<(isize, isize)>) -> (n: isize)
    requires
        board.wf(),
        lists_runs(board@, ranges@),
    ensures
        n == complete_count(board@),
        n == span_rows(ranges@),
        0 <= n <= board.rows,
{
    let mut n: isize = 0;
    let mut k: usize = 0;
    proof {
        lemma_clear_prefix(board@, board.rows as int, board.cols as int, ranges@, 0);
    }
    while k < ranges.len()
        invariant
            0 <= k <= ranges@.len(),
            n == span_rows(ranges@.take(k as int)),
            0 <= n <= board.rows,
        decreases ranges@.len() - k,
    {
        let r = ranges[k];
        proof {
            lemma_clear_prefix(board@, board.rows as int, board.cols as int, ranges@, k + 1);
            assert(ranges@.take(k + 1).drop_last() =~= ranges@.take(k as int));
        }
        n = n + (r.0 - r.1 + 1);
        k += 1;
    }
    proof {
        assert(ranges@.take(k as int) =~= ranges@);
        lemma_clear_compacts(board@, board.rows as int, board.cols as int, ranges@);
    }
    n
}

} // verus!
