//! What always holds of tables: tracks hold their cells, cells stand on their tracks.

use vstd::prelude::*;
use vstd::string::*;

use crate::layout::fragment::moved;
use crate::layout::grid_slots::{within, Slot};
use crate::layout::length::{px_of, Edges, Viewport, DEFAULT_FONT_SIZE};
use crate::layout::table::{range_sum, total_of, zeros, RowV};
use crate::layout::table_place::{
    all_expanded, bottoms, cell_at, cells_in_row, cols_end, cols_start, content_shift, lefts,
    rights, rows_end, rows_start, tops, expanded, finished_rows, heights_of,
    horizontal_lines, in_tracks, line_center, line_fold, line_start, offset_of, outer_lines,
    row_frag, rows_within, spacing_in, tallest, vertical_lines, GeomV, LaidV,
};
use crate::layout::table_widths::{
    columns_of, declared_sum, first_row, fit_to, fitted, natural_columns, shared, spans_fitted,
    undeclared, widest,
};
use crate::layout::value::VAlign;
use crate::layout::valuelaws::{says, unset};
use crate::number::{round_div, LIMIT};
use crate::scan::words_in;
use crate::style::StyleMap;

verus! {

/// Whether all are lengths that can be counted, none below zero.
pub open spec fn amounts(v: Seq<i64>) -> bool {
    forall|i: int| 0 <= i < v.len() ==> 0 <= #[trigger] v[i] <= LIMIT
}

/// Whether every slot lies within the columns.
pub open spec fn cols_within(v: Seq<Slot>, ncols: int) -> bool {
    forall|i: int|
        0 <= i < v.len() ==> (#[trigger] v[i]).colspan >= 1 && v[i].col + v[i].colspan <= ncols
}

/// Whether every slot spans something.
pub open spec fn spanning(v: Seq<Slot>) -> bool {
    forall|i: int| 0 <= i < v.len() ==> (#[trigger] v[i]).rowspan >= 1 && v[i].colspan >= 1
}

/// The sum of the `n` entries from `a` on, without a limit.
pub open spec fn plain_sum(v: Seq<i64>, a: int, n: nat) -> int
    decreases n,
{
    if n == 0 {
        0
    } else {
        plain_sum(v, a, (n - 1) as nat) + v[a + n - 1]
    }
}

/// Sums of lengths are what they add up to, as far as that can be counted.
pub proof fn lemma_range_sum(v: Seq<i64>, a: int, n: nat)
    requires
        amounts(v),
        0 <= a,
        a + n <= v.len(),
    ensures
        plain_sum(v, a, n) >= 0,
        range_sum(v, a, n) == if plain_sum(v, a, n) <= LIMIT {
            plain_sum(v, a, n)
        } else {
            LIMIT as int
        },
    decreases n,
{
    if n > 0 {
        lemma_range_sum(v, a, (n - 1) as nat);
        assert(0 <= v[a + n - 1] <= LIMIT);
    }
}

proof fn lemma_plain_sum_part(v: Seq<i64>, a: int, n: nat, i: int)
    requires
        amounts(v),
        0 <= a <= i < a + n,
        a + n <= v.len(),
    ensures
        v[i] <= plain_sum(v, a, n),
    decreases n,
{
    assert(0 <= v[a + n - 1] <= LIMIT);
    lemma_range_sum(v, a, (n - 1) as nat);
    if i < a + n - 1 {
        lemma_plain_sum_part(v, a, (n - 1) as nat, i);
    }
}

proof fn lemma_plain_sum_update(v: Seq<i64>, a: int, n: nat, i: int, x: i64)
    requires
        0 <= a <= i < a + n,
        a + n <= v.len(),
    ensures
        plain_sum(v.update(i, x), a, n) == plain_sum(v, a, n) - v[i] + x,
    decreases n,
{
    if i < a + n - 1 {
        lemma_plain_sum_update(v, a, (n - 1) as nat, i, x);
    } else {
        lemma_plain_sum_same(v, v.update(i, x), a, (n - 1) as nat);
    }
}

proof fn lemma_plain_sum_same(v: Seq<i64>, w: Seq<i64>, a: int, n: nat)
    requires
        0 <= a,
        a + n <= v.len(),
        v.len() == w.len(),
        forall|j: int| a <= j < a + n ==> v[j] == w[j],
    ensures
        plain_sum(v, a, n) == plain_sum(w, a, n),
    decreases n,
{
    if n > 0 {
        lemma_plain_sum_same(v, w, a, (n - 1) as nat);
    }
}

proof fn lemma_plain_sum_grows(v: Seq<i64>, w: Seq<i64>, a: int, n: nat)
    requires
        0 <= a,
        a + n <= v.len(),
        v.len() == w.len(),
        forall|j: int| 0 <= j < v.len() ==> w[j] >= #[trigger] v[j],
    ensures
        plain_sum(v, a, n) <= plain_sum(w, a, n),
    decreases n,
{
    if n > 0 {
        lemma_plain_sum_grows(v, w, a, (n - 1) as nat);
        assert(w[a + n - 1] >= v[a + n - 1]);
    }
}

proof fn lemma_row_fold(v: Seq<Slot>, h: Seq<i64>, base: Seq<i64>, k: nat)
    requires
        k <= v.len(),
        h.len() == v.len(),
        rows_within(v, base.len() as int),
        amounts(h),
        amounts(base),
    ensures
        ({
            let r = tallest(v, h, base, k);
            &&& r.len() == base.len()
            &&& amounts(r)
            &&& forall|i: int| 0 <= i < base.len() ==> r[i] >= #[trigger] base[i]
            &&& forall|i: int|
                0 <= i < k && (#[trigger] v[i]).rowspan == 1 ==> r[v[i].row as int] >= h[i]
            &&& forall|j: int|
                0 <= j < base.len() && #[trigger] r[j] != base[j] ==> asked_row(v, h, k, j, r[j])
        }),
    decreases k,
{
    if k > 0 {
        lemma_row_fold(v, h, base, (k - 1) as nat);
        let before = tallest(v, h, base, (k - 1) as nat);
        let r = tallest(v, h, base, k);
        let s = v[k - 1];
        let at = s.row as int;
        assert forall|i: int| 0 <= i < base.len() implies r[i] >= #[trigger] base[i] by {
            assert(before[i] >= base[i]);
        }
        assert forall|i: int| 0 <= i < r.len() implies 0 <= #[trigger] r[i] <= LIMIT by {
            assert(0 <= before[i] <= LIMIT);
            assert(0 <= h[k - 1] <= LIMIT);
        }
        assert forall|i: int| 0 <= i < k && (#[trigger] v[i]).rowspan == 1 implies r[v[i].row as int]
            >= h[i] by {
            if i < k - 1 {
                assert(before[v[i].row as int] >= h[i]);
            }
        }
        assert forall|j: int| 0 <= j < base.len() && #[trigger] r[j] != base[j] implies asked_row(
            v,
            h,
            k,
            j,
            r[j],
        ) by {
            if r[j] == before[j] {
                assert(before[j] != base[j]);
                let i = choose|i: int|
                    0 <= i < k - 1 && (#[trigger] v[i]).rowspan == 1 && v[i].row == j && h[i]
                        == before[j];
                assert(v[i].rowspan == 1);
            } else {
                assert(v[k - 1].rowspan == 1);
            }
        }
    }
}

/// Whether one of the first `k` cells that stand in track `j` alone asks for `x`.
pub open spec fn asked_row(v: Seq<Slot>, h: Seq<i64>, k: nat, j: int, x: i64) -> bool {
    exists|i: int| 0 <= i < k && (#[trigger] v[i]).rowspan == 1 && v[i].row == j && h[i] == x
}

proof fn lemma_row_room(t: Seq<i64>, s: Slot, need: int)
    requires
        amounts(t),
        s.row + s.rowspan <= t.len(),
        s.rowspan >= 1,
        0 <= need <= LIMIT,
    ensures
        ({
            let r = expanded(t, s, need);
            &&& r.len() == t.len()
            &&& amounts(r)
            &&& forall|i: int| 0 <= i < t.len() ==> r[i] >= #[trigger] t[i]
            &&& forall|i: int|
                0 <= i < t.len() && (s.rowspan == 1 || i != s.row + s.rowspan - 1) ==> r[i]
                    == #[trigger] t[i]
            &&& s.rowspan > 1 ==> range_sum(r, s.row as int, s.rowspan as nat) >= need
        }),
{
    let r = expanded(t, s, need);
    let a = s.row as int;
    let n = s.rowspan as nat;
    lemma_range_sum(t, a, n);
    if n > 1 && need > range_sum(t, a, n) {
        let last = a + n - 1;
        lemma_plain_sum_part(t, a, n, last);
        assert forall|i: int| 0 <= i < r.len() implies 0 <= #[trigger] r[i] <= LIMIT by {
            assert(0 <= t[i] <= LIMIT);
        }
        lemma_plain_sum_update(t, a, n, last, r[last]);
        lemma_range_sum(r, a, n);
    }
}

proof fn lemma_row_rooms(v: Seq<Slot>, h: Seq<i64>, t: Seq<i64>, k: nat)
    requires
        k <= v.len(),
        h.len() == v.len(),
        rows_within(v, t.len() as int),
        spanning(v),
        amounts(h),
        amounts(t),
    ensures
        ({
            let r = all_expanded(v, h, t, k);
            &&& r.len() == t.len()
            &&& amounts(r)
            &&& forall|i: int| 0 <= i < t.len() ==> r[i] >= #[trigger] t[i]
            &&& forall|i: int|
                0 <= i < k && (#[trigger] v[i]).rowspan > 1 ==> range_sum(
                    r,
                    v[i].row as int,
                    v[i].rowspan as nat,
                ) >= h[i]
            &&& forall|j: int|
                0 <= j < t.len() && !ends_row(v, k, j) ==> r[j] == #[trigger] t[j]
        }),
    decreases k,
{
    if k > 0 {
        lemma_row_rooms(v, h, t, (k - 1) as nat);
        let before = all_expanded(v, h, t, (k - 1) as nat);
        let r = all_expanded(v, h, t, k);
        let s = v[k - 1];
        assert(0 <= h[k - 1] <= LIMIT);
        lemma_row_room(before, s, h[k - 1] as int);
        assert forall|i: int| 0 <= i < t.len() implies r[i] >= #[trigger] t[i] by {
            assert(before[i] >= t[i]);
        }
        assert forall|i: int| 0 <= i < k && (#[trigger] v[i]).rowspan > 1 implies range_sum(
            r,
            v[i].row as int,
            v[i].rowspan as nat,
        ) >= h[i] by {
            if i < k - 1 {
                let (a, n) = (v[i].row as int, v[i].rowspan as nat);
                lemma_range_sum(before, a, n);
                lemma_range_sum(r, a, n);
                lemma_plain_sum_grows(before, r, a, n);
            }
        }
        assert forall|j: int| 0 <= j < t.len() && !ends_row(v, k, j) implies r[j]
            == #[trigger] t[j] by {
            assert(!ends_row(v, (k - 1) as nat, j)) by {
                if ends_row(v, (k - 1) as nat, j) {
                    let i = choose|i: int|
                        0 <= i < k - 1 && (#[trigger] v[i]).rowspan > 1 && v[i].row + v[i].rowspan - 1
                            == j;
                    assert(v[i].rowspan > 1);
                }
            }
            assert(before[j] == t[j]);
            if s.rowspan > 1 && j == s.row + s.rowspan - 1 {
                assert(v[k - 1].rowspan > 1);
            }
        }
    }
}

/// Whether one of the first `k` cells spans several tracks and ends in track `j`.
pub open spec fn ends_row(v: Seq<Slot>, k: nat, j: int) -> bool {
    exists|i: int|
        0 <= i < k && (#[trigger] v[i]).rowspan > 1 && v[i].row + v[i].rowspan - 1 == j
}

proof fn lemma_col_fold(v: Seq<Slot>, h: Seq<i64>, base: Seq<i64>, k: nat)
    requires
        k <= v.len(),
        h.len() == v.len(),
        cols_within(v, base.len() as int),
        amounts(h),
        base == zeros(base.len()),
        amounts(base),
    ensures
        ({
            let r = widest(v, h, base.len(), k);
            &&& r.len() == base.len()
            &&& amounts(r)
            &&& forall|i: int| 0 <= i < base.len() ==> r[i] >= #[trigger] base[i]
            &&& forall|i: int|
                0 <= i < k && (#[trigger] v[i]).colspan == 1 ==> r[v[i].col as int] >= h[i]
            &&& forall|j: int|
                0 <= j < base.len() && #[trigger] r[j] != base[j] ==> asked_col(v, h, k, j, r[j])
        }),
    decreases k,
{
    if k > 0 {
        lemma_col_fold(v, h, base, (k - 1) as nat);
        let before = widest(v, h, base.len(), (k - 1) as nat);
        let r = widest(v, h, base.len(), k);
        let s = v[k - 1];
        let at = s.col as int;
        assert forall|i: int| 0 <= i < base.len() implies r[i] >= #[trigger] base[i] by {
            assert(before[i] >= base[i]);
        }
        assert forall|i: int| 0 <= i < r.len() implies 0 <= #[trigger] r[i] <= LIMIT by {
            assert(0 <= before[i] <= LIMIT);
            assert(0 <= h[k - 1] <= LIMIT);
        }
        assert forall|i: int| 0 <= i < k && (#[trigger] v[i]).colspan == 1 implies r[v[i].col as int]
            >= h[i] by {
            if i < k - 1 {
                assert(before[v[i].col as int] >= h[i]);
            }
        }
        assert forall|j: int| 0 <= j < base.len() && #[trigger] r[j] != base[j] implies asked_col(
            v,
            h,
            k,
            j,
            r[j],
        ) by {
            if r[j] == before[j] {
                assert(before[j] != base[j]);
                let i = choose|i: int|
                    0 <= i < k - 1 && (#[trigger] v[i]).colspan == 1 && v[i].col == j && h[i]
                        == before[j];
                assert(v[i].colspan == 1);
            } else {
                assert(v[k - 1].colspan == 1);
            }
        }
    }
}

/// Whether one of the first `k` cells that stand in track `j` alone asks for `x`.
pub open spec fn asked_col(v: Seq<Slot>, h: Seq<i64>, k: nat, j: int, x: i64) -> bool {
    exists|i: int| 0 <= i < k && (#[trigger] v[i]).colspan == 1 && v[i].col == j && h[i] == x
}

proof fn lemma_col_room(t: Seq<i64>, s: Slot, need: int)
    requires
        amounts(t),
        s.col + s.colspan <= t.len(),
        s.colspan >= 1,
        0 <= need <= LIMIT,
    ensures
        ({
            let r = fitted(t, s, need);
            &&& r.len() == t.len()
            &&& amounts(r)
            &&& forall|i: int| 0 <= i < t.len() ==> r[i] >= #[trigger] t[i]
            &&& forall|i: int|
                0 <= i < t.len() && (s.colspan == 1 || i != s.col + s.colspan - 1) ==> r[i]
                    == #[trigger] t[i]
            &&& s.colspan > 1 ==> range_sum(r, s.col as int, s.colspan as nat) >= need
        }),
{
    let r = fitted(t, s, need);
    let a = s.col as int;
    let n = s.colspan as nat;
    lemma_range_sum(t, a, n);
    if n > 1 && need > range_sum(t, a, n) {
        let last = a + n - 1;
        lemma_plain_sum_part(t, a, n, last);
        assert forall|i: int| 0 <= i < r.len() implies 0 <= #[trigger] r[i] <= LIMIT by {
            assert(0 <= t[i] <= LIMIT);
        }
        lemma_plain_sum_update(t, a, n, last, r[last]);
        lemma_range_sum(r, a, n);
    }
}

proof fn lemma_col_rooms(v: Seq<Slot>, h: Seq<i64>, t: Seq<i64>, k: nat)
    requires
        k <= v.len(),
        h.len() == v.len(),
        cols_within(v, t.len() as int),
        spanning(v),
        amounts(h),
        amounts(t),
    ensures
        ({
            let r = spans_fitted(v, h, t, k);
            &&& r.len() == t.len()
            &&& amounts(r)
            &&& forall|i: int| 0 <= i < t.len() ==> r[i] >= #[trigger] t[i]
            &&& forall|i: int|
                0 <= i < k && (#[trigger] v[i]).colspan > 1 ==> range_sum(
                    r,
                    v[i].col as int,
                    v[i].colspan as nat,
                ) >= h[i]
            &&& forall|j: int|
                0 <= j < t.len() && !ends_col(v, k, j) ==> r[j] == #[trigger] t[j]
        }),
    decreases k,
{
    if k > 0 {
        lemma_col_rooms(v, h, t, (k - 1) as nat);
        let before = spans_fitted(v, h, t, (k - 1) as nat);
        let r = spans_fitted(v, h, t, k);
        let s = v[k - 1];
        assert(0 <= h[k - 1] <= LIMIT);
        lemma_col_room(before, s, h[k - 1] as int);
        assert forall|i: int| 0 <= i < t.len() implies r[i] >= #[trigger] t[i] by {
            assert(before[i] >= t[i]);
        }
        assert forall|i: int| 0 <= i < k && (#[trigger] v[i]).colspan > 1 implies range_sum(
            r,
            v[i].col as int,
            v[i].colspan as nat,
        ) >= h[i] by {
            if i < k - 1 {
                let (a, n) = (v[i].col as int, v[i].colspan as nat);
                lemma_range_sum(before, a, n);
                lemma_range_sum(r, a, n);
                lemma_plain_sum_grows(before, r, a, n);
            }
        }
        assert forall|j: int| 0 <= j < t.len() && !ends_col(v, k, j) implies r[j]
            == #[trigger] t[j] by {
            assert(!ends_col(v, (k - 1) as nat, j)) by {
                if ends_col(v, (k - 1) as nat, j) {
                    let i = choose|i: int|
                        0 <= i < k - 1 && (#[trigger] v[i]).colspan > 1 && v[i].col + v[i].colspan - 1
                            == j;
                    assert(v[i].colspan > 1);
                }
            }
            assert(before[j] == t[j]);
            if s.colspan > 1 && j == s.col + s.colspan - 1 {
                assert(v[k - 1].colspan > 1);
            }
        }
    }
}

/// Whether one of the first `k` cells spans several tracks and ends in track `j`.
pub open spec fn ends_col(v: Seq<Slot>, k: nat, j: int) -> bool {
    exists|i: int|
        0 <= i < k && (#[trigger] v[i]).colspan > 1 && v[i].col + v[i].colspan - 1 == j
}

/// A row is at least as high as it declares and as each cell that stands in it alone,
/// and the rows that a cell spans are together at least as high as the cell. A row in
/// which no spanning cell ends is no higher than the highest of these.
pub proof fn law_rows_hold_their_cells(v: Seq<Slot>, h: Seq<i64>, floors: Seq<i64>)
    requires
        h.len() == v.len(),
        rows_within(v, floors.len() as int),
        spanning(v),
        amounts(h),
        amounts(floors),
    ensures
        ({
            let r = heights_of(v, h, floors);
            &&& r.len() == floors.len()
            &&& forall|k: int| 0 <= k < r.len() ==> r[k] >= #[trigger] floors[k]
            &&& forall|i: int|
                0 <= i < v.len() && (#[trigger] v[i]).rowspan == 1 ==> r[v[i].row as int] >= h[i]
            &&& forall|i: int|
                0 <= i < v.len() && (#[trigger] v[i]).rowspan > 1 ==> range_sum(
                    r,
                    v[i].row as int,
                    v[i].rowspan as nat,
                ) >= h[i]
            &&& forall|k: int|
                0 <= k < r.len() && !ends_row(v, v.len(), k) && #[trigger] r[k] != floors[k]
                    ==> asked_row(v, h, v.len(), k, r[k])
        }),
{
    let t = tallest(v, h, floors, v.len());
    lemma_row_fold(v, h, floors, v.len());
    lemma_row_rooms(v, h, t, v.len());
    let r = heights_of(v, h, floors);
    assert forall|k: int| 0 <= k < r.len() implies r[k] >= #[trigger] floors[k] by {
        assert(r[k] >= t[k]);
    }
    assert forall|i: int| 0 <= i < v.len() && (#[trigger] v[i]).rowspan == 1 implies r[v[i].row as int]
        >= h[i] by {
        assert(r[v[i].row as int] >= t[v[i].row as int]);
    }
    assert forall|k: int|
        0 <= k < r.len() && !ends_row(v, v.len(), k) && #[trigger] r[k] != floors[k] implies asked_row(
        v,
        h,
        v.len(),
        k,
        r[k],
    ) by {
        assert(r[k] == t[k]);
    }
}

/// A column of a table sized by content is at least as wide as each cell that stands in
/// it alone, and the columns that a cell spans are together at least as wide as the
/// cell. A column in which no spanning cell ends is no wider than the widest of these.
pub proof fn law_columns_hold_their_cells(v: Seq<Slot>, w: Seq<i64>, ncols: nat)
    requires
        w.len() == v.len(),
        cols_within(v, ncols as int),
        spanning(v),
        amounts(w),
    ensures
        ({
            let r = natural_columns(v, w, ncols);
            &&& r.len() == ncols
            &&& amounts(r)
            &&& forall|i: int|
                0 <= i < v.len() && (#[trigger] v[i]).colspan == 1 ==> r[v[i].col as int] >= w[i]
            &&& forall|i: int|
                0 <= i < v.len() && (#[trigger] v[i]).colspan > 1 ==> range_sum(
                    r,
                    v[i].col as int,
                    v[i].colspan as nat,
                ) >= w[i]
            &&& forall|k: int|
                0 <= k < r.len() && !ends_col(v, v.len(), k) && #[trigger] r[k] != 0 ==> asked_col(
                    v,
                    w,
                    v.len(),
                    k,
                    r[k],
                )
        }),
{
    let z = zeros(ncols);
    let t = widest(v, w, ncols, v.len());
    lemma_col_fold(v, w, z, v.len());
    lemma_col_rooms(v, w, t, v.len());
    let r = natural_columns(v, w, ncols);
    assert forall|i: int| 0 <= i < v.len() && (#[trigger] v[i]).colspan == 1 implies r[v[i].col as int]
        >= w[i] by {
        assert(r[v[i].col as int] >= t[v[i].col as int]);
    }
    assert forall|k: int|
        0 <= k < r.len() && !ends_col(v, v.len(), k) && #[trigger] r[k] != 0 implies asked_col(
        v,
        w,
        v.len(),
        k,
        r[k],
    ) by {
        assert(r[k] == t[k]);
        assert(t[k] != z[k]);
    }
}

// --------------------------------------------------------------------------
// tracks
// --------------------------------------------------------------------------

/// The first track starts one gap in, and each starts where the one before ends and a
/// gap after it.
pub proof fn law_tracks_follow_each_other(tracks: Seq<i64>, gap: int, i: nat)
    requires
        i < tracks.len(),
        0 <= gap <= LIMIT / 4,
        0 <= tracks[i as int] <= LIMIT / 4,
        0 <= offset_of(tracks, gap, i) <= LIMIT / 4,
    ensures
        offset_of(tracks, gap, 0) == gap,
        offset_of(tracks, gap, i + 1) == offset_of(tracks, gap, i) + tracks[i as int] + gap,
{
}

/// On a table of merged borders a line is followed by its track and that by the next
/// line, the first line standing at the edge; cells meet in the middles of lines.
pub proof fn law_lines_and_tracks_take_turns(tracks: Seq<i64>, lines: Seq<i64>, i: nat)
    requires
        i < tracks.len(),
        i < lines.len(),
        0 <= tracks[i as int] <= LIMIT / 4,
        0 <= lines[i as int] <= LIMIT / 4,
        0 <= line_start(tracks, lines, i) <= LIMIT / 4,
    ensures
        line_start(tracks, lines, 0) == 0,
        line_start(tracks, lines, i + 1) == line_start(tracks, lines, i) + lines[i as int]
            + tracks[i as int],
        0 <= 2 * (line_center(tracks, lines, i) - line_start(tracks, lines, i)) - lines[i as int]
            <= 1,
{
    assert(lines[i as int] * 1 == lines[i as int]);
}

/// Cells are 2px apart where nothing is said, as far as the style says where it does,
/// the first length across and the second down, and not at all where borders collapse.
pub proof fn law_border_spacing(m: StyleMap, vp: Viewport)
    ensures
        says(m, "border-collapse"@, "collapse"@) ==> spacing_in(m, vp) == (0int, 0int),
        !says(m, "border-collapse"@, "collapse"@) && unset(m, "border-spacing"@) ==> spacing_in(m, vp)
            == (2_000_000int, 2_000_000int),
        forall|a: int|
            !says(m, "border-collapse"@, "collapse"@) && m.contains_key("border-spacing"@) && words_in(
                m["border-spacing"@],
            ).len() == 1 && #[trigger] spaced(m, 0, vp, a) ==> spacing_in(m, vp) == (a, a),
        forall|a: int, b: int|
            !says(m, "border-collapse"@, "collapse"@) && m.contains_key("border-spacing"@) && words_in(
                m["border-spacing"@],
            ).len() >= 2 && #[trigger] spaced(m, 0, vp, a) && #[trigger] spaced(m, 1, vp, b)
                ==> spacing_in(m, vp) == (a, b),
{
}

/// Whether the `i`th word of `border-spacing` writes the length `a`.
pub open spec fn spaced(m: StyleMap, i: int, vp: Viewport, a: int) -> bool {
    px_of(words_in(m["border-spacing"@])[i], DEFAULT_FONT_SIZE as int, vp) == Some(a)
}

// --------------------------------------------------------------------------
// places
// --------------------------------------------------------------------------

/// Content stands at the top of its cell, at the bottom, or in the middle, as it is
/// aligned; content as high as its cell or higher stays at the top.
pub proof fn law_content_is_aligned_in_its_cell(cell_h: int, content_h: int)
    requires
        0 <= content_h <= LIMIT,
        0 <= cell_h <= LIMIT,
    ensures
        content_shift(VAlign::Top, cell_h, content_h) == 0,
        content_h <= cell_h ==> content_shift(VAlign::Bottom, cell_h, content_h) + content_h == cell_h,
        content_h <= cell_h ==> 0 <= 2 * content_shift(VAlign::Middle, cell_h, content_h) - (cell_h
            - content_h) <= 1,
        content_shift(VAlign::Baseline, cell_h, content_h) == content_shift(
            VAlign::Middle,
            cell_h,
            content_h,
        ),
        content_h >= cell_h ==> content_shift(VAlign::Bottom, cell_h, content_h) == 0
            && content_shift(VAlign::Middle, cell_h, content_h) == 0,
{
    if content_h <= cell_h {
        assert((cell_h - content_h) * 1 == cell_h - content_h);
    }
}

/// A cell stands where its first column and its first row start, is as high as the rows
/// it spans, keeps its width, and has its content moved down by its alignment.
pub proof fn law_cells_stand_on_their_tracks(c: LaidV, g: GeomV, cx: int, cy: int)
    requires
        in_tracks(c.slot, g),
        -LIMIT / 4 <= cx <= LIMIT / 4,
        -LIMIT / 4 <= cy <= LIMIT / 4,
        0 <= g.col_x[c.slot.col as int] <= LIMIT / 4,
        0 <= g.row_y[c.slot.row as int] <= LIMIT / 4,
        c.frag.x == 0,
        c.frag.y == 0,
    ensures
        ({
            let f = cell_at(c, g, cx, cy);
            &&& f.x == cx + g.col_x[c.slot.col as int]
            &&& f.y == cy + g.row_y[c.slot.row as int]
            &&& f.width == c.frag.width
            &&& f.height == range_sum(g.row_h, c.slot.row as int, c.slot.rowspan as nat)
            &&& f.id == c.frag.id && f.content == c.frag.content
            &&& f.children.len() == c.frag.children.len()
            &&& forall|i: int|
                0 <= i < f.children.len() ==> #[trigger] f.children[i] == moved(
                    moved(c.frag.children[i], f.x, f.y),
                    0,
                    content_shift(c.valign, f.height, c.frag.height),
                )
        }),
{
}

/// A row reaches over the whole table, starts where its track starts, is as high as its
/// track, and is repeated as its group says.
pub proof fn law_rows_stand_on_their_tracks(row: RowV, r: int, g: GeomV, cx: int, cy: int)
    requires
        0 <= r < g.row_y.len(),
        0 <= r < g.row_h.len(),
        -LIMIT / 4 <= cy <= LIMIT / 4,
        0 <= g.row_y[r] <= LIMIT / 4,
    ensures
        ({
            let f = row_frag(row, r, g, cx, cy);
            &&& f.x == cx && f.y == cy + g.row_y[r]
            &&& f.width == g.table_w && f.height == g.row_h[r]
            &&& f.break_meta.repeatable == row.repeat
            &&& f.children.len() == 0
        }),
{
}

/// How many of the first `k` cells start in row `r`.
pub open spec fn starting_in(c: Seq<LaidV>, r: int, k: nat) -> nat
    decreases k,
{
    if k == 0 || k > c.len() {
        0
    } else {
        starting_in(c, r, (k - 1) as nat) + if c[k - 1].slot.row == r {
            1nat
        } else {
            0
        }
    }
}

proof fn lemma_cells_in_row(c: Seq<LaidV>, g: GeomV, cx: int, cy: int, r: int, k: nat, i: int)
    requires
        0 <= i < k <= c.len(),
        c[i].slot.row == r,
    ensures
        starting_in(c, r, i as nat) < cells_in_row(c, g, cx, cy, r, k).len(),
        cells_in_row(c, g, cx, cy, r, k)[starting_in(c, r, i as nat) as int] == cell_at(
            c[i],
            g,
            cx,
            cy,
        ),
    decreases k,
{
    lemma_row_count(c, g, cx, cy, r, (k - 1) as nat);
    lemma_row_count(c, g, cx, cy, r, i as nat);
    if i < k - 1 {
        lemma_cells_in_row(c, g, cx, cy, r, (k - 1) as nat, i);
    }
}

proof fn lemma_row_count(c: Seq<LaidV>, g: GeomV, cx: int, cy: int, r: int, k: nat)
    requires
        k <= c.len(),
    ensures
        cells_in_row(c, g, cx, cy, r, k).len() == starting_in(c, r, k),
    decreases k,
{
    if k > 0 {
        lemma_row_count(c, g, cx, cy, r, (k - 1) as nat);
    }
}

/// Every row of a table is there, in order, and holds the cells that start in it, each
/// at its place and in order.
pub proof fn law_rows_hold_the_cells_that_start_in_them(
    rows: Seq<RowV>,
    c: Seq<LaidV>,
    g: GeomV,
    cx: int,
    cy: int,
    i: int,
)
    requires
        0 <= i < c.len(),
        c[i].slot.row < rows.len(),
    ensures
        ({
            let out = finished_rows(rows, c, g, cx, cy);
            let r = c[i].slot.row as int;
            &&& out.len() == rows.len()
            &&& out[r].children.len() == starting_in(c, r, c.len())
            &&& out[r].children[starting_in(c, r, i as nat) as int] == cell_at(c[i], g, cx, cy)
            &&& out[r].x == row_frag(rows[r], r, g, cx, cy).x
            &&& out[r].y == row_frag(rows[r], r, g, cx, cy).y
            &&& out[r].height == row_frag(rows[r], r, g, cx, cy).height
            &&& out[r].width == row_frag(rows[r], r, g, cx, cy).width
        }),
{
    lemma_cells_in_row(c, g, cx, cy, c[i].slot.row as int, c.len(), i);
    lemma_row_count(c, g, cx, cy, c[i].slot.row as int, c.len());
}

// --------------------------------------------------------------------------
// widths
// --------------------------------------------------------------------------

/// Columns of declared width keep it, and the others share equally what is left of the
/// width, or get nothing where nothing is left.
pub proof fn law_undeclared_columns_share(w: Seq<Option<i64>>, width: int)
    requires
        0 <= width <= LIMIT,
        0 <= declared_sum(w, w.len()) <= LIMIT,
        undeclared(w, w.len()) > 0,
    ensures
        ({
            let r = shared(w, width);
            let n = undeclared(w, w.len()) as int;
            let rest = width - declared_sum(w, w.len());
            &&& r.len() == w.len()
            &&& forall|i: int|
                0 <= i < w.len() ==> ((#[trigger] w[i]) matches Some(x) ==> r[i] == x)
            &&& forall|i: int, j: int|
                0 <= i < w.len() && 0 <= j < w.len() && (#[trigger] w[i]) is None && (
                #[trigger] w[j]) is None ==> r[i] == r[j]
            &&& forall|i: int|
                0 <= i < w.len() && (#[trigger] w[i]) is None && rest >= 0 ==> -n <= 2 * (r[i] * n
                    - rest) <= n
            &&& forall|i: int|
                0 <= i < w.len() && (#[trigger] w[i]) is None && rest <= 0 ==> r[i] == 0
        }),
{
    let n = undeclared(w, w.len()) as int;
    let rest = width - declared_sum(w, w.len());
    assert(rest * 1 == rest);
    if rest >= 0 {
        lemma_round_div(rest, n);
        assert(round_div(rest, n) <= LIMIT) by (nonlinear_arith)
            requires
                -n <= 2 * (round_div(rest, n) * n - rest) <= n,
                0 <= rest <= LIMIT,
                n >= 1,
        ;
        assert(round_div(rest, n) >= 0) by (nonlinear_arith)
            requires
                -n <= 2 * (round_div(rest, n) * n - rest) <= n,
                0 <= rest,
                n >= 1,
        ;
    } else {
        lemma_round_div(-rest, n);
        assert(round_div(rest, n) == -round_div(-rest, n));
        assert(round_div(-rest, n) >= 0) by (nonlinear_arith)
            requires
                -n <= 2 * (round_div(-rest, n) * n + rest) <= n,
                rest <= 0,
                n >= 1,
        ;
    }
}

/// Rounding a quotient is off by no more than a half.
pub proof fn lemma_round_div(a: int, b: int)
    requires
        a >= 0,
        b >= 1,
    ensures
        -b <= 2 * (round_div(a, b) * b - a) <= b,
{
    let q = a / b;
    let r = a % b;
    assert(a == q * b + r && 0 <= r < b) by (nonlinear_arith)
        requires
            q == a / b,
            r == a % b,
            b >= 1,
    ;
    assert((q + 1) * b == q * b + b) by (nonlinear_arith);
}

/// A table of fixed layout goes by the widths that its first row declares; another is
/// sized by its content, and is as wide as it declares, or else no wider than there is
/// room.
pub proof fn law_layout_goes_by_the_first_row_or_by_content(
    m: StyleMap,
    v: Seq<Slot>,
    ncols: nat,
    cw: i64,
    declared: Seq<Option<i64>>,
    natural: Seq<i64>,
    min: Seq<i64>,
    vp: Viewport,
)
    ensures
        says(m, "table-layout"@, "fixed"@) ==> columns_of(
            m,
            v,
            ncols,
            cw,
            declared,
            natural,
            min,
            vp,
        ) == shared(first_row(v, declared, ncols, v.len()), cw as int),
        !says(m, "table-layout"@, "fixed"@) && unset_width(m, cw, vp) && 0 < total_of(
            natural_columns(v, natural, ncols),
        ) <= cw ==> columns_of(m, v, ncols, cw, declared, natural, min, vp) == natural_columns(
            v,
            natural,
            ncols,
        ),
{
}

/// Whether a table declares no width.
pub open spec fn unset_width(m: StyleMap, cw: i64, vp: Viewport) -> bool {
    !crate::layout::table_widths::declares_width(m, cw, vp)
}

proof fn lemma_first_row(v: Seq<Slot>, w: Seq<Option<i64>>, ncols: nat, k: nat, i: int)
    requires
        k <= v.len(),
        w.len() == v.len(),
        cols_within(v, ncols as int),
        0 <= i < k,
        v[i].row == 0,
        v[i].colspan == 1,
        w[i] is Some,
        forall|j: int|
            0 <= j < i && (#[trigger] v[j]).row == 0 && v[j].colspan == 1 && v[j].col == v[i].col
                ==> w[j] is None,
    ensures
        first_row(v, w, ncols, k).len() == ncols,
        first_row(v, w, ncols, k)[v[i].col as int] == w[i],
    decreases k,
{
    lemma_first_row_none(v, w, ncols, i as nat, v[i].col as int);
    if k - 1 > i {
        lemma_first_row(v, w, ncols, (k - 1) as nat, i);
    }
}

proof fn lemma_first_row_none(v: Seq<Slot>, w: Seq<Option<i64>>, ncols: nat, k: nat, c: int)
    requires
        k <= v.len(),
        w.len() == v.len(),
        cols_within(v, ncols as int),
        0 <= c < ncols,
        forall|j: int|
            0 <= j < k && (#[trigger] v[j]).row == 0 && v[j].colspan == 1 && v[j].col == c
                ==> w[j] is None,
    ensures
        first_row(v, w, ncols, k).len() == ncols,
        first_row(v, w, ncols, k)[c] is None,
    decreases k,
{
    if k > 0 {
        lemma_first_row_none(v, w, ncols, (k - 1) as nat, c);
        assert(v[k - 1].col + v[k - 1].colspan <= ncols);
    }
}

/// In a table of fixed layout the first cell of the first row that declares a width for
/// a column gives it that width.
pub proof fn law_first_row_gives_the_width(
    m: StyleMap,
    v: Seq<Slot>,
    ncols: nat,
    cw: i64,
    declared: Seq<Option<i64>>,
    natural: Seq<i64>,
    min: Seq<i64>,
    vp: Viewport,
    i: int,
)
    requires
        says(m, "table-layout"@, "fixed"@),
        declared.len() == v.len(),
        cols_within(v, ncols as int),
        0 <= i < v.len(),
        v[i].row == 0,
        v[i].colspan == 1,
        declared[i] is Some,
        forall|j: int|
            0 <= j < i && (#[trigger] v[j]).row == 0 && v[j].colspan == 1 && v[j].col == v[i].col
                ==> declared[j] is None,
    ensures
        columns_of(m, v, ncols, cw, declared, natural, min, vp)[v[i].col as int] == declared[i]->0,
{
    lemma_first_row(v, declared, ncols, v.len(), i);
}

/// Columns grow to a wider table each in proportion.
pub proof fn law_columns_grow_in_proportion(c: Seq<i64>, target: int, m: Seq<i64>, i: int)
    requires
        amounts(c),
        0 <= i < c.len(),
        0 < total_of(c) < target <= LIMIT,
        c[i] <= total_of(c),
    ensures
        fit_to(c, target, m).len() == c.len(),
        -total_of(c) <= 2 * (fit_to(c, target, m)[i] * total_of(c) - c[i] * target) <= total_of(c),
{
    let have = total_of(c);
    let x = c[i] as int;
    assert(0 <= x * target) by (nonlinear_arith)
        requires
            0 <= x,
            0 < target,
    ;
    lemma_round_div(x * target, have);
    assert(0 <= round_div(x * target, have) <= LIMIT) by (nonlinear_arith)
        requires
            -have <= 2 * (round_div(x * target, have) * have - x * target) <= have,
            0 <= x <= have,
            0 < have,
            0 < target <= LIMIT,
    ;
}

// --------------------------------------------------------------------------
// merged borders
// --------------------------------------------------------------------------

proof fn lemma_lines(
    lines: Seq<i64>,
    start: Seq<usize>,
    end: Seq<usize>,
    first: Seq<i64>,
    last: Seq<i64>,
    k: nat,
)
    requires
        k <= start.len(),
        start.len() == end.len(),
        forall|i: int| 0 <= i < start.len() ==> (#[trigger] start[i]) < lines.len(),
        forall|i: int| 0 <= i < end.len() ==> (#[trigger] end[i]) < lines.len(),
    ensures
        ({
            let r = line_fold(lines, start, end, first, last, k);
            &&& r.len() == lines.len()
            &&& forall|j: int| 0 <= j < lines.len() ==> r[j] >= #[trigger] lines[j]
            &&& forall|i: int| 0 <= i < k ==> r[(#[trigger] start[i]) as int] >= first[i]
            &&& forall|i: int| 0 <= i < k ==> r[(#[trigger] end[i]) as int] >= last[i]
        }),
    decreases k,
{
    if k > 0 {
        lemma_lines(lines, start, end, first, last, (k - 1) as nat);
        let before = line_fold(lines, start, end, first, last, (k - 1) as nat);
        let r = line_fold(lines, start, end, first, last, k);
        assert(start[k - 1] < lines.len() && end[k - 1] < lines.len());
        assert forall|j: int| 0 <= j < lines.len() implies r[j] >= #[trigger] lines[j] by {
            assert(before[j] >= lines[j]);
        }
        assert forall|i: int| 0 <= i < k implies r[(#[trigger] start[i]) as int] >= first[i] by {
            if i < k - 1 {
                assert(before[start[i] as int] >= first[i]);
            }
        }
        assert forall|i: int| 0 <= i < k implies r[(#[trigger] end[i]) as int] >= last[i] by {
            if i < k - 1 {
                assert(before[end[i] as int] >= last[i]);
            }
        }
    }
}

/// Where borders are merged, a line is at least as thick as every border that meets on
/// it: those of the cells on either side, and at the edges the table's.
pub proof fn law_lines_hold_every_border(
    v: Seq<Slot>,
    b: Seq<Edges>,
    ncols: nat,
    nrows: nat,
    table: Edges,
)
    requires
        b.len() == v.len(),
        ncols > 0,
        nrows > 0,
        ncols < usize::MAX,
        nrows < usize::MAX,
        cols_within(v, ncols as int),
        rows_within(v, nrows as int),
        table.left >= 0,
        table.top >= 0,
    ensures
        ({
            let x = vertical_lines(v, b, ncols, table);
            let y = horizontal_lines(v, b, nrows, table);
            &&& x.len() == ncols + 1 && y.len() == nrows + 1
            &&& x[0] >= table.left && x[ncols as int] >= table.right
            &&& y[0] >= table.top && y[nrows as int] >= table.bottom
            &&& forall|i: int|
                0 <= i < v.len() ==> x[(#[trigger] v[i]).col as int] >= b[i].left && x[v[i].col
                    + v[i].colspan] >= b[i].right && y[v[i].row as int] >= b[i].top && y[v[i].row
                    + v[i].rowspan] >= b[i].bottom
        }),
{
    let cs = cols_start(v);
    let ce = cols_end(v);
    let rs = rows_start(v);
    let re = rows_end(v);
    assert forall|i: int| 0 <= i < v.len() implies cs[i] == v[i].col && ce[i] == v[i].col
        + v[i].colspan && rs[i] == v[i].row && re[i] == v[i].row + v[i].rowspan && cs[i] <= ncols
        && (#[trigger] ce[i]) <= ncols && rs[i] <= nrows && re[i] <= nrows by {
        assert(v[i].col + v[i].colspan <= ncols);
        assert(v[i].row + v[i].rowspan <= nrows);
    }
    assert forall|i: int| 0 <= i < cs.len() implies (#[trigger] cs[i]) < ncols + 1 by {
        assert(ce[i] <= ncols);
    }
    assert forall|i: int| 0 <= i < rs.len() implies (#[trigger] rs[i]) < nrows + 1 by {
        assert(ce[i] <= ncols);
    }
    assert forall|i: int| 0 <= i < re.len() implies (#[trigger] re[i]) < nrows + 1 by {
        assert(ce[i] <= ncols);
    }
    let ox = outer_lines(ncols, table.left as int, table.right as int);
    let oy = outer_lines(nrows, table.top as int, table.bottom as int);
    lemma_lines(ox, cs, ce, lefts(b), rights(b), v.len());
    lemma_lines(oy, rs, re, tops(b), bottoms(b), v.len());
    let x = vertical_lines(v, b, ncols, table);
    let y = horizontal_lines(v, b, nrows, table);
    assert(x[0] >= ox[0] && x[ncols as int] >= ox[ncols as int]);
    assert(y[0] >= oy[0] && y[nrows as int] >= oy[nrows as int]);
    assert forall|i: int| 0 <= i < v.len() implies x[(#[trigger] v[i]).col as int] >= b[i].left
        && x[v[i].col + v[i].colspan] >= b[i].right && y[v[i].row as int] >= b[i].top && y[v[i].row
        + v[i].rowspan] >= b[i].bottom by {
        assert(ce[i] <= ncols);
        assert(x[cs[i] as int] >= lefts(b)[i]);
        assert(x[ce[i] as int] >= rights(b)[i]);
        assert(y[rs[i] as int] >= tops(b)[i]);
        assert(y[re[i] as int] >= bottoms(b)[i]);
    }
}

} // verus!
