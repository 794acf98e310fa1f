//! The cell grid of a table: where each cell goes, given column and row spans.

use vstd::prelude::*;

use crate::layout::boxgen::{attr_of, attr_value};
use crate::node::{attrs_view, Attr};
use crate::number::{natural_of, parse_natural};
use crate::scan::{trim, trimmed};

verus! {

/// A cell's place: the cell `cell` of row `row` covers the columns from `col` and
/// the rows from `row` on, as many as its spans say.
#[derive(Debug, Clone, Copy, PartialEq, Eq, Structural)]
pub struct Slot {
    pub row: usize,
    pub cell: usize,
    pub col: usize,
    pub colspan: usize,
    pub rowspan: usize,
}

/// The spans of one cell.
#[derive(Debug, Clone, Copy, PartialEq, Eq, Structural)]
pub struct Spans {
    pub cols: usize,
    pub rows: usize,
}

// --------------------------------------------------------------------------
// spans
// --------------------------------------------------------------------------

/// A span attribute: a whole number of at least one, else one.
pub open spec fn span_in(a: Seq<(Seq<char>, Seq<char>)>, name: Seq<char>) -> usize {
    match attr_of(a, name) {
        Some(v) => match natural_of(trimmed(v)) {
            Some(n) if 1 <= n <= u64::MAX && n <= usize::MAX => n as usize,
            _ => 1,
        },
        None => 1,
    }
}

pub fn attr_usize(attrs: &Vec<Attr>, name: &str) -> (r: usize)
    ensures
        r == span_in(attrs_view(attrs@), name@),
        r >= 1,
{
    match attr_value(attrs, name) {
        Some(v) => match parse_natural(trim(v), u64::MAX) {
            Some(n) => if n >= 1 && n <= usize::MAX as u64 {
                n as usize
            } else {
                1
            },
            None => 1,
        },
        None => 1,
    }
}

// --------------------------------------------------------------------------
// the grid
// --------------------------------------------------------------------------

/// Whether a slot covers column `c` of row `r`.
pub open spec fn covers(s: Slot, r: int, c: int) -> bool {
    s.row <= r < s.row + s.rowspan && s.col <= c < s.col + s.colspan
}

/// Whether any slot covers column `c` of row `r`.
pub open spec fn covered(v: Seq<Slot>, r: int, c: int) -> bool {
    exists|i: int| 0 <= i < v.len() && covers(#[trigger] v[i], r, c)
}

/// The first column that no slot reaches.
pub open spec fn right_edge(v: Seq<Slot>) -> int
    decreases v.len(),
{
    if v.len() == 0 {
        0
    } else {
        let before = right_edge(v.drop_last());
        let end = v.last().col + v.last().colspan;
        if end > before {
            end
        } else {
            before
        }
    }
}

/// The first column of row `r`, from `c` on, that no slot covers.
pub open spec fn first_free(v: Seq<Slot>, r: int, c: int) -> int
    decreases right_edge(v) - c,
{
    if c >= right_edge(v) || !covered(v, r, c) {
        c
    } else {
        first_free(v, r, c + 1)
    }
}

/// The slots after the first `k` cells of row `r`, and the column after the last
/// of them: each cell goes to the first free column after the one before it.
pub open spec fn place_cells(v: Seq<Slot>, cells: Seq<Spans>, r: int, k: nat) -> (Seq<Slot>, int)
    decreases k,
{
    if k == 0 {
        (v, 0)
    } else {
        let (s, c) = place_cells(v, cells, r, (k - 1) as nat);
        let at = first_free(s, r, c);
        let span = cells[k - 1];
        (
            s.push(
                Slot {
                    row: r as usize,
                    cell: (k - 1) as usize,
                    col: at as usize,
                    colspan: span.cols,
                    rowspan: span.rows,
                },
            ),
            at + span.cols,
        )
    }
}

/// The slots of the first `k` rows, and the number of columns.
pub open spec fn grid_of(rows: Seq<Seq<Spans>>, k: nat) -> (Seq<Slot>, int)
    decreases k,
{
    if k == 0 {
        (Seq::empty(), 0)
    } else {
        let (s, n) = grid_of(rows, (k - 1) as nat);
        let (t, c) = place_cells(s, rows[k - 1], k - 1, rows[k - 1].len());
        (
            t,
            if c > n {
                c
            } else {
                n
            },
        )
    }
}

/// The columns that the first `k` cells of a row span together.
pub open spec fn span_sum(cells: Seq<Spans>, k: nat) -> int
    decreases k,
{
    if k == 0 {
        0
    } else {
        span_sum(cells, (k - 1) as nat) + cells[k - 1].cols
    }
}

/// The columns that the cells of the first `k` rows span together.
pub open spec fn total_span(rows: Seq<Seq<Spans>>, k: nat) -> int
    decreases k,
{
    if k == 0 {
        0
    } else {
        total_span(rows, (k - 1) as nat) + span_sum(rows[k - 1], rows[k - 1].len())
    }
}

/// Whether every span is at least one, and the grid's columns and rows can be
/// counted.
pub open spec fn grid_fits(rows: Seq<Seq<Spans>>) -> bool {
    &&& total_span(rows, rows.len()) <= usize::MAX
    &&& forall|r: int, c: int|
        0 <= r < rows.len() && 0 <= c < rows[r].len() ==> {
            let s = #[trigger] rows[r][c];
            s.cols >= 1 && s.rows >= 1 && rows.len() + s.rows <= usize::MAX
        }
}

proof fn lemma_right_edge(v: Seq<Slot>, r: int, c: int)
    requires
        covered(v, r, c),
    ensures
        c < right_edge(v),
    decreases v.len(),
{
    let i = choose|i: int| 0 <= i < v.len() && covers(#[trigger] v[i], r, c);
    if i < v.len() - 1 {
        assert(v.drop_last()[i] == v[i]);
        lemma_right_edge(v.drop_last(), r, c);
    }
}

/// The column found is free, and every one before it from `c` on is taken.
proof fn lemma_first_free(v: Seq<Slot>, r: int, c: int)
    ensures
        first_free(v, r, c) >= c,
        !covered(v, r, first_free(v, r, c)),
        forall|j: int| c <= j < first_free(v, r, c) ==> covered(v, r, j),
        first_free(v, r, c) <= c || first_free(v, r, c) <= right_edge(v),
    decreases right_edge(v) - c,
{
    if c >= right_edge(v) || !covered(v, r, c) {
        if covered(v, r, c) {
            lemma_right_edge(v, r, c);
        }
    } else {
        lemma_first_free(v, r, c + 1);
    }
}

proof fn lemma_push_edge(v: Seq<Slot>, s: Slot)
    ensures
        right_edge(v.push(s)) == if s.col + s.colspan > right_edge(v) {
            s.col + s.colspan
        } else {
            right_edge(v)
        },
{
    assert(v.push(s).drop_last() =~= v);
}

/// Columns never run past the sum of the spans placed.
proof fn lemma_place_bounds(v: Seq<Slot>, cells: Seq<Spans>, r: int, k: nat, total: int)
    requires
        k <= cells.len(),
        right_edge(v) <= total,
        0 <= total,
        total + span_sum(cells, k) <= usize::MAX,
        forall|c: int| 0 <= c < cells.len() ==> (#[trigger] cells[c]).cols >= 1,
    ensures
        ({
            let (s, c) = place_cells(v, cells, r, k);
            &&& 0 <= c <= total + span_sum(cells, k)
            &&& right_edge(s) <= total + span_sum(cells, k)
            &&& s.len() == v.len() + k
            &&& right_edge(v) <= right_edge(s)
            &&& k > 0 ==> c <= right_edge(s)
        }),
    decreases k,
{
    if k > 0 {
        lemma_span_mono(cells, (k - 1) as nat);
        lemma_place_bounds(v, cells, r, (k - 1) as nat, total);
        let (s, c) = place_cells(v, cells, r, (k - 1) as nat);
        lemma_first_free(s, r, c);
        let at = first_free(s, r, c);
        let slot = place_cells(v, cells, r, k).0.last();
        assert(slot.col == at);
        lemma_push_edge(s, slot);
    }
}

proof fn lemma_span_mono(cells: Seq<Spans>, k: nat)
    ensures
        0 <= span_sum(cells, k) <= span_sum(cells, k + 1),
    decreases k,
{
    if k > 0 {
        lemma_span_mono(cells, (k - 1) as nat);
    }
}

proof fn lemma_span_upto(cells: Seq<Spans>, j: nat, k: nat)
    requires
        j <= k,
    ensures
        0 <= span_sum(cells, j) <= span_sum(cells, k),
    decreases k,
{
    lemma_span_mono(cells, j);
    if j < k {
        lemma_span_upto(cells, j, (k - 1) as nat);
    }
}

proof fn lemma_total_upto(rows: Seq<Seq<Spans>>, j: nat, k: nat)
    requires
        j <= k,
    ensures
        0 <= total_span(rows, j) <= total_span(rows, k),
    decreases k,
{
    if k > 0 {
        lemma_span_upto(rows[k - 1], 0, rows[k - 1].len());
    }
    if j < k {
        lemma_total_upto(rows, j, (k - 1) as nat);
    } else if k > 0 {
        lemma_total_upto(rows, (k - 1) as nat, (k - 1) as nat);
    }
}

/// The grid's columns never run past the sum of all spans.
proof fn lemma_grid_bounds(rows: Seq<Seq<Spans>>, k: nat)
    requires
        k <= rows.len(),
        grid_fits(rows),
    ensures
        ({
            let (s, n) = grid_of(rows, k);
            right_edge(s) <= total_span(rows, k) && 0 <= n <= total_span(rows, k)
        }),
    decreases k,
{
    if k > 0 {
        lemma_grid_bounds(rows, (k - 1) as nat);
        lemma_total_upto(rows, k, rows.len());
        lemma_total_upto(rows, (k - 1) as nat, k);
        let (s, n) = grid_of(rows, (k - 1) as nat);
        let total = total_span(rows, (k - 1) as nat);
        let cells = rows[k - 1];
        assert forall|c: int| 0 <= c < cells.len() implies (#[trigger] cells[c]).cols >= 1 by {
            assert(rows[k - 1][c].cols >= 1);
        }
        lemma_place_bounds(s, cells, k - 1, cells.len(), total);
    }
}

// --------------------------------------------------------------------------
// occupancy
// --------------------------------------------------------------------------

/// Whether column `c` of row `r` is marked.
pub open spec fn marked(occ: Seq<Vec<bool>>, r: int, c: int) -> bool {
    0 <= r < occ.len() && 0 <= c < occ[r]@.len() && occ[r]@[c]
}

/// Whether the marks are those of the slots.
pub open spec fn marks(occ: Seq<Vec<bool>>, v: Seq<Slot>) -> bool {
    forall|r: int, c: int| #![trigger marked(occ, r, c)] marked(occ, r, c) == covered(v, r, c)
}

pub open spec fn larger(a: nat, b: nat) -> nat {
    if a >= b {
        a
    } else {
        b
    }
}

/// How many columns row `r` has; a row that is not there has none.
pub open spec fn row_len(occ: Seq<Vec<bool>>, r: int) -> nat {
    if 0 <= r < occ.len() {
        occ[r]@.len()
    } else {
        0
    }
}

/// Whether the marks have grown to hold `rows` rows and `cols` columns, and no
/// further.
pub open spec fn grown_to(now: Seq<Vec<bool>>, was: Seq<Vec<bool>>, rows: nat, cols: nat) -> bool {
    &&& now.len() == larger(was.len(), rows)
    &&& forall|r: int|
        0 <= r < now.len() ==> #[trigger] row_len(now, r) == larger(row_len(was, r), cols)
}

/// Lengthen one row to at least `cols` columns, unmarked.
fn widen(row: &mut Vec<bool>, cols: usize)
    ensures
        final(row)@.len() == larger(old(row)@.len(), cols as nat),
        forall|c: int| 0 <= c < old(row)@.len() ==> final(row)@[c] == old(row)@[c],
        forall|c: int| old(row)@.len() <= c < final(row)@.len() ==> !final(row)@[c],
{
    while row.len() < cols
        invariant
            old(row)@.len() <= row@.len() <= larger(old(row)@.len(), cols as nat),
            forall|c: int| 0 <= c < old(row)@.len() ==> row@[c] == old(row)@[c],
            forall|c: int| old(row)@.len() <= c < row@.len() ==> !row@[c],
        decreases cols - row@.len(),
    {
        row.push(false);
    }
}

/// Grow the marks to at least `rows` rows, and those rows to `cols` columns.
pub fn ensure(occ: &mut Vec<Vec<bool>>, rows: usize, cols: usize)
    ensures
        grown_to(final(occ)@, old(occ)@, rows as nat, cols as nat),
        forall|r: int, c: int| #[trigger] marked(final(occ)@, r, c) == marked(old(occ)@, r, c),
{
    while occ.len() < rows
        invariant
            old(occ)@.len() <= occ@.len() <= larger(old(occ)@.len(), rows as nat),
            forall|r: int| 0 <= r < old(occ)@.len() ==> occ@[r] == old(occ)@[r],
            forall|r: int| old(occ)@.len() <= r < occ@.len() ==> (#[trigger] occ@[r])@.len() == 0,
        decreases rows - occ@.len(),
    {
        occ.push(Vec::new());
    }
    let ghost grown = occ@;
    let n: usize = occ.len();
    proof {
        assert forall|r: int, c: int| #[trigger] marked(grown, r, c) == marked(
            old(occ)@,
            r,
            c,
        ) by {}
    }
    let mut i: usize = 0;
    while i < n
        invariant
            n == grown.len(),
            occ@.len() == n,
            n == larger(old(occ)@.len(), rows as nat),
            i <= n,
            forall|r: int| 0 <= r < n ==> #[trigger] row_len(grown, r) == row_len(old(occ)@, r),
            forall|r: int| i <= r < n ==> occ@[r] == grown[r],
            forall|r: int|
                0 <= r < i ==> #[trigger] row_len(occ@, r) == larger(
                    row_len(grown, r),
                    cols as nat,
                ),
            forall|r: int, c: int| #[trigger] marked(occ@, r, c) == marked(grown, r, c),
        decreases n - i,
    {
        let ghost before = occ@;
        let mut row: Vec<bool> = Vec::new();
        occ.set_and_swap(i, &mut row);
        widen(&mut row, cols);
        occ.set(i, row);
        proof {
            assert forall|r: int| 0 <= r < i + 1 implies #[trigger] row_len(occ@, r) == larger(
                row_len(grown, r),
                cols as nat,
            ) by {
                if r < i {
                    assert(row_len(before, r) == larger(row_len(grown, r), cols as nat));
                    assert(occ@[r] == before[r]);
                }
            }
            assert forall|r: int, c: int| #[trigger] marked(occ@, r, c) == marked(grown, r, c) by {
                assert(marked(before, r, c) == marked(grown, r, c));
                if r != i {
                    assert(0 <= r < n ==> occ@[r] == before[r]);
                }
            }
        }
        i += 1;
    }
}

/// The first unmarked column of a row from `start` on.
pub fn next_free(row: &Vec<bool>, start: usize) -> (r: usize)
    ensures
        r >= start,
        r < row@.len() ==> !row@[r as int],
        r > start ==> r <= row@.len(),
        forall|c: int| start <= c < r ==> #[trigger] row@[c],
{
    let mut c: usize = start;
    while c < row.len() && row[c]
        invariant
            c >= start,
            c > start ==> c <= row@.len(),
            forall|j: int| start <= j < c ==> #[trigger] row@[j],
        decreases row@.len() - c,
    {
        c += 1;
    }
    c
}

/// Mark `cs` columns from `col` on in `rs` rows from `r` on.
pub fn mark(occ: &mut Vec<Vec<bool>>, r: usize, col: usize, cs: usize, rs: usize)
    requires
        r + rs <= usize::MAX,
        col + cs <= usize::MAX,
    ensures
        grown_to(final(occ)@, old(occ)@, (r + rs) as nat, (col + cs) as nat),
        forall|i: int, j: int| #[trigger]
            marked(final(occ)@, i, j) == (marked(old(occ)@, i, j) || (r <= i < r + rs && col <= j
                < col + cs)),
{
    ensure(occ, r + rs, col + cs);
    let ghost wide = occ@;
    let n: usize = occ.len();
    proof {
        assert forall|x: int| 0 <= x < n implies (#[trigger] wide[x])@.len() >= col + cs by {
            assert(row_len(wide, x) == larger(row_len(old(occ)@, x), (col + cs) as nat));
        }
    }
    let mut i: usize = r;
    while i < r + rs
        invariant
            n == wide.len(),
            occ@.len() == n,
            r <= i <= r + rs <= n,
            grown_to(wide, old(occ)@, (r + rs) as nat, (col + cs) as nat),
            col + cs <= usize::MAX,
            forall|x: int| 0 <= x < n ==> (#[trigger] occ@[x])@.len() == wide[x]@.len(),
            forall|x: int| 0 <= x < n ==> (#[trigger] wide[x])@.len() >= col + cs,
            forall|x: int, y: int| #[trigger]
                marked(occ@, x, y) == (marked(wide, x, y) || (r <= x < i && col <= y < col + cs)),
        decreases r + rs - i,
    {
        let ghost before = occ@;
        let mut row: Vec<bool> = Vec::new();
        occ.set_and_swap(i, &mut row);
        let ghost row0 = row@;
        let mut j: usize = col;
        while j < col + cs
            invariant
                col <= j <= col + cs <= row@.len(),
                col + cs <= usize::MAX,
                row@.len() == row0.len(),
                forall|y: int|
                    0 <= y < row@.len() ==> #[trigger] row@[y] == (row0[y] || (col <= y < j)),
            decreases col + cs - j,
        {
            row.set(j, true);
            j += 1;
        }
        let ghost row1 = row@;
        occ.set(i, row);
        proof {
            assert forall|x: int, y: int| #[trigger]
                marked(occ@, x, y) == (marked(wide, x, y) || (r <= x < i + 1 && col <= y < col
                    + cs)) by {
                assert(marked(before, x, y) == (marked(wide, x, y) || (r <= x < i && col <= y < col
                    + cs)));
                if x == i {
                    assert(occ@[x]@ == row1);
                    assert(before[x]@ == row0);
                    if 0 <= y < row1.len() {
                        assert(row1[y] == (row0[y] || (col <= y < col + cs)));
                    }
                } else if 0 <= x < n {
                    assert(occ@[x] == before[x]);
                }
            }
            assert forall|x: int| 0 <= x < n implies (#[trigger] occ@[x])@.len()
                == wide[x]@.len() by {
                if x == i {
                    assert(before[x]@.len() == wide[x]@.len());
                } else {
                    assert(occ@[x] == before[x]);
                }
            }
        }
        i += 1;
    }
    proof {
        assert forall|x: int| 0 <= x < n implies #[trigger] row_len(occ@, x) == larger(
            row_len(old(occ)@, x),
            (col + cs) as nat,
        ) by {
            assert(occ@[x]@.len() == wide[x]@.len());
            assert(row_len(wide, x) == larger(row_len(old(occ)@, x), (col + cs) as nat));
        }
    }
}

/// One more slot covers what it covers.
proof fn lemma_push_covered(v: Seq<Slot>, s: Slot, r: int, c: int)
    ensures
        covered(v.push(s), r, c) == (covered(v, r, c) || covers(s, r, c)),
{
    let w = v.push(s);
    if covered(v, r, c) {
        let i = choose|i: int| 0 <= i < v.len() && covers(#[trigger] v[i], r, c);
        assert(covers(w[i], r, c));
    }
    if covers(s, r, c) {
        assert(covers(w[v.len() as int], r, c));
    }
    if covered(w, r, c) {
        let i = choose|i: int| 0 <= i < w.len() && covers(#[trigger] w[i], r, c);
        if i < v.len() {
            assert(covers(v[i], r, c));
        }
    }
}

proof fn lemma_free_is(v: Seq<Slot>, r: int, c: int, f: int)
    requires
        c <= f,
        !covered(v, r, f),
        forall|j: int| c <= j < f ==> covered(v, r, j),
    ensures
        first_free(v, r, c) == f,
    decreases f - c,
{
    if c < f {
        assert(covered(v, r, c));
        lemma_right_edge(v, r, c);
        lemma_free_is(v, r, c + 1, f);
    }
}

/// Place the cells of one row, returning the column after the last.
fn place_row(
    occ: &mut Vec<Vec<bool>>,
    cells: &Vec<Spans>,
    r: usize,
    slots: &mut Vec<Slot>,
    total: Ghost<int>,
) -> (last: usize)
    requires
        marks(old(occ)@, old(slots)@),
        right_edge(old(slots)@) <= total@,
        0 <= total@,
        total@ + span_sum(cells@, cells@.len()) <= usize::MAX,
        forall|c: int|
            0 <= c < cells@.len() ==> (#[trigger] cells@[c]).cols >= 1 && cells@[c].rows >= 1 && r
                + cells@[c].rows <= usize::MAX,
        r < usize::MAX,
    ensures
        marks(final(occ)@, final(slots)@),
        (final(slots)@, last as int) == place_cells(
            old(slots)@,
            cells@,
            r as int,
            cells@.len(),
        ),
{
    ensure(occ, r + 1, 0);
    let ghost start = slots@;
    let mut col: usize = 0;
    let mut k: usize = 0;
    proof {
        assert(marks(occ@, slots@)) by {
            assert forall|x: int, y: int| #![trigger marked(occ@, x, y)]
                marked(occ@, x, y) == covered(slots@, x, y) by {
                assert(marked(old(occ)@, x, y) == covered(start, x, y));
            }
        }
    }
    while k < cells.len()
        invariant
            k <= cells@.len(),
            r < usize::MAX,
            occ@.len() > r,
            marks(occ@, slots@),
            right_edge(start) <= total@,
            0 <= total@,
            total@ + span_sum(cells@, cells@.len()) <= usize::MAX,
            forall|c: int|
                0 <= c < cells@.len() ==> (#[trigger] cells@[c]).cols >= 1 && cells@[c].rows >= 1
                    && r + cells@[c].rows <= usize::MAX,
            (slots@, col as int) == place_cells(start, cells@, r as int, k as nat),
        decreases cells@.len() - k,
    {
        let at: usize = next_free(&occ[r], col);
        let span: Spans = cells[k];
        proof {
            assert forall|j: int| col <= j < at implies covered(slots@, r as int, j) by {
                assert(occ@[r as int]@[j]);
                assert(marked(occ@, r as int, j));
            }
            assert(!covered(slots@, r as int, at as int)) by {
                assert(marked(occ@, r as int, at as int) == covered(slots@, r as int, at as int));
            }
            lemma_free_is(slots@, r as int, col as int, at as int);
            lemma_span_upto(cells@, (k + 1) as nat, cells@.len());
            lemma_place_bounds(start, cells@, r as int, (k + 1) as nat, total@);
        }
        let slot = Slot { row: r, cell: k, col: at, colspan: span.cols, rowspan: span.rows };
        let ghost before = slots@;
        let ghost occ0 = occ@;
        mark(occ, r, at, span.cols, span.rows);
        slots.push(slot);
        proof {
            assert forall|x: int, y: int| #![trigger marked(occ@, x, y)]
                marked(occ@, x, y) == covered(slots@, x, y) by {
                lemma_push_covered(before, slot, x, y);
                assert(marked(occ0, x, y) == covered(before, x, y));
            }
        }
        col = at + span.cols;
        k += 1;
    }
    col
}

pub open spec fn spans_view(rows: Seq<Vec<Spans>>) -> Seq<Seq<Spans>> {
    rows.map_values(|v: Vec<Spans>| v@)
}

/// Whether a grid of these spans can be counted.
pub fn fits(rows: &Vec<Vec<Spans>>) -> (r: bool)
    ensures
        r == grid_fits(spans_view(rows@)),
{
    let ghost rv = spans_view(rows@);
    let n: usize = rows.len();
    let mut total: u128 = 0;
    let mut i: usize = 0;
    while i < n
        invariant
            n == rows@.len(),
            rv == spans_view(rows@),
            i <= n,
            total == total_span(rv, i as nat),
            total <= usize::MAX,
            forall|r: int, c: int|
                0 <= r < i && 0 <= c < rv[r].len() ==> {
                    let s = #[trigger] rv[r][c];
                    s.cols >= 1 && s.rows >= 1 && n + s.rows <= usize::MAX
                },
        decreases n - i,
    {
        let row = &rows[i];
        proof {
            assert(rv[i as int] == row@);
            lemma_total_upto(rv, (i + 1) as nat, rv.len());
        }
        let mut sum: u128 = 0;
        let mut j: usize = 0;
        while j < row.len()
            invariant
                j <= row@.len(),
                row@ == rv[i as int],
                rv == spans_view(rows@),
                i < n,
                n == rows@.len(),
                total == total_span(rv, i as nat),
                total <= usize::MAX,
                total_span(rv, (i + 1) as nat) == total + span_sum(row@, row@.len()),
                total_span(rv, (i + 1) as nat) <= total_span(rv, rv.len()),
                sum == span_sum(row@, j as nat),
                total + sum <= usize::MAX,
                forall|c: int|
                    0 <= c < j ==> {
                        let s = #[trigger] row@[c];
                        s.cols >= 1 && s.rows >= 1 && n + s.rows <= usize::MAX
                    },
            decreases row@.len() - j,
        {
            let s: Spans = row[j];
            if s.cols < 1 || s.rows < 1 || n as u128 + s.rows as u128 > usize::MAX as u128 {
                proof {
                    assert(rv[i as int][j as int] == s);
                }
                return false;
            }
            sum = sum + s.cols as u128;
            if total + sum > usize::MAX as u128 {
                proof {
                    lemma_span_upto(row@, (j + 1) as nat, row@.len());
                }
                return false;
            }
            j += 1;
        }
        total = total + sum;
        i += 1;
    }
    true
}

/// Place every cell of a table, returning the slots in row order and the number
/// of columns.
pub fn build_grid(rows: &Vec<Vec<Spans>>) -> (r: (Vec<Slot>, usize))
    requires
        grid_fits(spans_view(rows@)),
    ensures
        (r.0@, r.1 as int) == grid_of(spans_view(rows@), rows@.len()),
{
    let ghost rv = spans_view(rows@);
    let mut occ: Vec<Vec<bool>> = Vec::new();
    let mut slots: Vec<Slot> = Vec::new();
    let mut ncols: usize = 0;
    let mut i: usize = 0;
    while i < rows.len()
        invariant
            i <= rows@.len(),
            rv == spans_view(rows@),
            grid_fits(rv),
            marks(occ@, slots@),
            (slots@, ncols as int) == grid_of(rv, i as nat),
        decreases rows@.len() - i,
    {
        proof {
            assert(rv[i as int] == rows@[i as int]@);
            lemma_grid_bounds(rv, i as nat);
            lemma_total_upto(rv, i as nat, (i + 1) as nat);
            lemma_total_upto(rv, (i + 1) as nat, rv.len());
            assert forall|c: int| 0 <= c < rows@[i as int]@.len() implies (#[trigger] rows@[i as int]@[c]).cols
                >= 1 && rows@[i as int]@[c].rows >= 1 && i + rows@[i as int]@[c].rows
                <= usize::MAX by {
                assert(rv[i as int][c].cols >= 1);
            }
        }
        let last: usize = place_row(
            &mut occ,
            &rows[i],
            i,
            &mut slots,
            Ghost(total_span(rv, i as nat)),
        );
        if last > ncols {
            ncols = last;
        }
        i += 1;
    }
    (slots, ncols)
}

// --------------------------------------------------------------------------
// laws
// --------------------------------------------------------------------------

/// Every cell lies within the columns of the grid.
pub open spec fn within(v: Seq<Slot>, ncols: int) -> bool {
    forall|i: int| 0 <= i < v.len() ==> (#[trigger] v[i]).col + v[i].colspan <= ncols
}

/// No cell starts on a place that an earlier cell covers.
pub open spec fn origins_free(v: Seq<Slot>) -> bool {
    forall|i: int, j: int|
        #![trigger v[i], v[j]]
        0 <= i < j < v.len() ==> !covers(v[i], v[j].row as int, v[j].col as int)
}

/// Cells of one row stand in order, none overlapping the next.
pub open spec fn rows_in_order(v: Seq<Slot>) -> bool {
    forall|i: int, j: int|
        #![trigger v[i], v[j]]
        0 <= i < j < v.len() && v[i].row == v[j].row ==> v[i].col + v[i].colspan <= v[j].col
}

proof fn lemma_edge_within(v: Seq<Slot>)
    ensures
        within(v, right_edge(v)),
    decreases v.len(),
{
    if v.len() > 0 {
        lemma_edge_within(v.drop_last());
        assert forall|i: int| 0 <= i < v.len() implies (#[trigger] v[i]).col + v[i].colspan
            <= right_edge(v) by {
            if i < v.len() - 1 {
                assert(v.drop_last()[i] == v[i]);
            }
        }
    }
}

proof fn lemma_place_laws(v: Seq<Slot>, cells: Seq<Spans>, r: int, k: nat, total: int)
    requires
        k <= cells.len(),
        0 <= r < usize::MAX,
        right_edge(v) <= total,
        0 <= total,
        total + span_sum(cells, k) <= usize::MAX,
        forall|c: int| 0 <= c < cells.len() ==> (#[trigger] cells[c]).cols >= 1,
        origins_free(v),
        rows_in_order(v),
        forall|i: int| 0 <= i < v.len() ==> (#[trigger] v[i]).row < r,
    ensures
        ({
            let (s, c) = place_cells(v, cells, r, k);
            &&& origins_free(s)
            &&& rows_in_order(s)
            &&& s.len() == v.len() + k
            &&& forall|i: int| 0 <= i < v.len() ==> s[i] == v[i]
            &&& forall|i: int| v.len() <= i < s.len() ==> (#[trigger] s[i]).row == r && s[i].col
                + s[i].colspan <= c
            &&& forall|i: int| 0 <= i < s.len() ==> (#[trigger] s[i]).row <= r
        }),
    decreases k,
{
    if k > 0 {
        lemma_span_mono(cells, (k - 1) as nat);
        lemma_place_laws(v, cells, r, (k - 1) as nat, total);
        lemma_place_bounds(v, cells, r, (k - 1) as nat, total);
        lemma_place_bounds(v, cells, r, k, total);
        let (s, c) = place_cells(v, cells, r, (k - 1) as nat);
        lemma_first_free(s, r, c);
        let t = place_cells(v, cells, r, k).0;
        let slot = t.last();
        let at = first_free(s, r, c);
        assert(slot.col == at && slot.row == r);
        assert forall|i: int, j: int|
            #![trigger t[i], t[j]]
            0 <= i < j < t.len() implies !covers(t[i], t[j].row as int, t[j].col as int) by {
            if j < s.len() {
                assert(t[i] == s[i] && t[j] == s[j]);
            } else {
                assert(t[i] == s[i]);
                assert(!covered(s, r, at));
            }
        }
        assert forall|i: int, j: int|
            #![trigger t[i], t[j]]
            0 <= i < j < t.len() && t[i].row == t[j].row implies t[i].col + t[i].colspan
            <= t[j].col by {
            if j < s.len() {
                assert(t[i] == s[i] && t[j] == s[j]);
            } else {
                assert(t[i] == s[i]);
                if i < v.len() {
                    assert(s[i] == v[i]);
                    assert(v[i].row < r);
                }
            }
        }
    }
}

proof fn lemma_grid_laws(rows: Seq<Seq<Spans>>, k: nat)
    requires
        k <= rows.len(),
        grid_fits(rows),
        rows.len() < usize::MAX,
    ensures
        ({
            let (s, n) = grid_of(rows, k);
            &&& origins_free(s)
            &&& rows_in_order(s)
            &&& within(s, n)
            &&& forall|i: int| 0 <= i < s.len() ==> (#[trigger] s[i]).row < k
        }),
    decreases k,
{
    if k > 0 {
        lemma_grid_laws(rows, (k - 1) as nat);
        lemma_grid_bounds(rows, (k - 1) as nat);
        lemma_total_upto(rows, k, rows.len());
        lemma_total_upto(rows, (k - 1) as nat, k);
        let (v, n) = grid_of(rows, (k - 1) as nat);
        let cells = rows[k - 1];
        assert forall|c: int| 0 <= c < cells.len() implies (#[trigger] cells[c]).cols >= 1 by {
            assert(rows[k - 1][c].cols >= 1);
        }
        lemma_place_laws(v, cells, k - 1, cells.len(), total_span(rows, (k - 1) as nat));
        let (s, m) = grid_of(rows, k);
        assert forall|i: int| 0 <= i < s.len() implies (#[trigger] s[i]).col + s[i].colspan
            <= m by {
            if i < v.len() {
                assert(s[i] == v[i]);
            }
        }
        assert forall|i: int| 0 <= i < s.len() implies (#[trigger] s[i]).row < k by {
            if i < v.len() {
                assert(s[i] == v[i]);
            }
        }
    }
}

/// Of every grid: each cell lies within its columns, starts where no earlier cell
/// reaches, and stands after the cells before it in its row.
pub proof fn law_grid_is_sound(rows: Seq<Seq<Spans>>)
    requires
        grid_fits(rows),
        rows.len() < usize::MAX,
    ensures
        ({
            let (s, n) = grid_of(rows, rows.len());
            &&& within(s, n)
            &&& origins_free(s)
            &&& rows_in_order(s)
            &&& forall|i: int| 0 <= i < s.len() ==> (#[trigger] s[i]).row < rows.len()
        }),
{
    lemma_grid_laws(rows, rows.len());
}

} // verus!
