//! Row heights of a table and the places of its cells, with separate borders and
//! with collapsed ones.

use vstd::prelude::*;

use crate::layout::edges::{BorderEdges, BorderSide};
use crate::layout::fragment::{
    all_moved, frag_view, frags_view, lemma_frag_children, lemma_frags_push, moved, plain_frag,
    translate_all, BoxPaint, BreakMeta, ContentV, FragV, Fragment, FragmentContent, NodeId, PaintV,
};
use crate::layout::grid_slots::{within, Slot};
use crate::layout::length::{parse_px, px_of, Edges, Viewport, DEFAULT_FONT_SIZE};
use crate::layout::table::{filled, range_sum, rows_view, spanned, zeros, RowRef, RowV};
use crate::layout::table_widths::{
    collapsed, declared_sum, declared_total, has_collapsed_borders, no_widths, share, share_of, shared,
    undeclared,
};
use crate::layout::value::VAlign;
use crate::number::{diff, greatest, least, max_of, minus, plus, scale, scaled, sum, ONE};
use crate::scan::{texts, words, words_in};
use crate::style::{prop, ComputedStyle, StyleMap};

verus! {

// --------------------------------------------------------------------------
// row heights
// --------------------------------------------------------------------------

/// Whether every slot lies within the rows.
pub open spec fn rows_within(v: Seq<Slot>, nrows: int) -> bool {
    forall|i: int|
        0 <= i < v.len() ==> (#[trigger] v[i]).rowspan >= 1 && v[i].row + v[i].rowspan <= nrows
}

/// Row heights after the first `k` single-row cells: each row's floor, or its
/// tallest cell.
pub open spec fn tallest(v: Seq<Slot>, h: Seq<i64>, floors: Seq<i64>, k: nat) -> Seq<i64>
    decreases k,
{
    if k == 0 {
        floors
    } else {
        let before = tallest(v, h, floors, (k - 1) as nat);
        let s = v[k - 1];
        if s.rowspan == 1 {
            before.update(
                s.row as int,
                greatest(before[s.row as int] as int, h[k - 1] as int) as i64,
            )
        } else {
            before
        }
    }
}

/// Row heights with room made for one spanning cell, in its last row.
pub open spec fn expanded(rows: Seq<i64>, s: Slot, need: int) -> Seq<i64> {
    if s.rowspan > 1 {
        let have = range_sum(rows, s.row as int, s.rowspan as nat);
        let last = s.row + s.rowspan - 1;
        if need > have {
            rows.update(last, sum(rows[last] as int, diff(need, have)) as i64)
        } else {
            rows
        }
    } else {
        rows
    }
}

/// Row heights after the first `k` spanning cells.
pub open spec fn all_expanded(v: Seq<Slot>, h: Seq<i64>, rows: Seq<i64>, k: nat) -> Seq<i64>
    decreases k,
{
    if k == 0 {
        rows
    } else {
        expanded(all_expanded(v, h, rows, (k - 1) as nat), v[k - 1], h[k - 1] as int)
    }
}

/// The row heights that cells of heights `h` ask for.
pub open spec fn heights_of(v: Seq<Slot>, h: Seq<i64>, floors: Seq<i64>) -> Seq<i64> {
    all_expanded(v, h, tallest(v, h, floors, v.len()), v.len())
}

fn expand_rows(rows: &mut Vec<i64>, s: Slot, need: i64)
    requires
        s.row + s.rowspan <= old(rows)@.len(),
    ensures
        final(rows)@ == expanded(old(rows)@, s, need as int),
        final(rows)@.len() == old(rows)@.len(),
{
    if s.rowspan > 1 {
        let n: usize = rows.len();
        let have: i64 = spanned(rows, s.row, s.rowspan);
        if need > have {
            let last: usize = s.row + s.rowspan - 1;
            let x: i64 = plus(rows[last], minus(need, have));
            rows.set(last, x);
        }
    }
}

fn copy_of(v: &Vec<i64>) -> (r: Vec<i64>)
    ensures
        r@ == v@,
{
    let mut out: Vec<i64> = Vec::new();
    let mut k: usize = 0;
    while k < v.len()
        invariant
            k <= v@.len(),
            out@ == v@.take(k as int),
        decreases v@.len() - k,
    {
        proof {
            assert(v@.take(k as int + 1) =~= v@.take(k as int).push(v@[k as int]));
        }
        out.push(v[k]);
        k += 1;
    }
    proof {
        assert(v@.take(k as int) =~= v@);
    }
    out
}

/// The height of each row: its floor or its tallest cell; a cell over several
/// rows that needs more makes the last of them taller.
pub fn row_heights(v: &Vec<Slot>, h: &Vec<i64>, floors: &Vec<i64>) -> (r: Vec<i64>)
    requires
        h@.len() == v@.len(),
        rows_within(v@, floors@.len() as int),
    ensures
        r@ == heights_of(v@, h@, floors@),
        r@.len() == floors@.len(),
{
    let mut rows = copy_of(floors);
    let mut k: usize = 0;
    while k < v.len()
        invariant
            k <= v@.len(),
            h@.len() == v@.len(),
            rows_within(v@, floors@.len() as int),
            rows@ == tallest(v@, h@, floors@, k as nat),
            rows@.len() == floors@.len(),
        decreases v@.len() - k,
    {
        let s: Slot = v[k];
        if s.rowspan == 1 {
            let x: i64 = max_of(rows[s.row], h[k]);
            rows.set(s.row, x);
        }
        k += 1;
    }
    let ghost base = rows@;
    let mut i: usize = 0;
    while i < v.len()
        invariant
            i <= v@.len(),
            h@.len() == v@.len(),
            rows_within(v@, floors@.len() as int),
            rows@ == all_expanded(v@, h@, base, i as nat),
            rows@.len() == floors@.len(),
        decreases v@.len() - i,
    {
        expand_rows(&mut rows, v[i], h[i]);
        i += 1;
    }
    rows
}

// --------------------------------------------------------------------------
// offsets
// --------------------------------------------------------------------------

/// Where track `i` starts, tracks being separated and bracketed by `gap`.
pub open spec fn offset_of(tracks: Seq<i64>, gap: int, i: nat) -> int
    decreases i,
{
    if i == 0 {
        gap
    } else {
        sum(
            offset_of(tracks, gap, (i - 1) as nat),
            sum(tracks[i - 1] as int, gap),
        )
    }
}

/// Where each track starts, with a gap before it and between it and the next.
pub fn spaced_offsets(tracks: &Vec<i64>, gap: i64) -> (r: Vec<i64>)
    ensures
        r@.len() == tracks@.len(),
        forall|i: int|
            0 <= i < r@.len() ==> #[trigger] r@[i] == offset_of(tracks@, gap as int, i as nat),
{
    let mut out: Vec<i64> = Vec::new();
    let mut acc: i64 = gap;
    let mut k: usize = 0;
    while k < tracks.len()
        invariant
            k <= tracks@.len(),
            out@.len() == k,
            acc == offset_of(tracks@, gap as int, k as nat),
            forall|i: int|
                0 <= i < k ==> #[trigger] out@[i] == offset_of(tracks@, gap as int, i as nat),
        decreases tracks@.len() - k,
    {
        out.push(acc);
        acc = plus(acc, plus(tracks[k], gap));
        k += 1;
    }
    out
}

/// The gaps between the cells of a table whose borders are separate: two values,
/// the second as the first where it is absent, 2px by default.
pub open spec fn spacing_in(m: StyleMap, vp: Viewport) -> (int, int) {
    if has_collapsed_borders(m) {
        (0, 0)
    } else {
        let w = match prop(m, "border-spacing"@) {
            Some(v) => words_in(v),
            None => Seq::empty(),
        };
        let fs = DEFAULT_FONT_SIZE as int;
        let h = if w.len() > 0 {
            px_of(w[0], fs, vp)
        } else {
            None
        };
        let v = if w.len() > 1 {
            px_of(w[1], fs, vp)
        } else {
            None
        };
        let hh = match h {
            Some(x) => x,
            None => 2 * ONE as int,
        };
        (
            hh,
            match v {
                Some(x) => x,
                None => hh,
            },
        )
    }
}

pub fn border_spacing(style: &ComputedStyle, vp: Viewport) -> (r: (i64, i64))
    ensures
        (r.0 as int, r.1 as int) == spacing_in(style@, vp),
{
    if collapsed(style) {
        return (0, 0);
    }
    let w = match style.get("border-spacing") {
        Some(v) => words(v),
        None => Vec::new(),
    };
    proof {
        match prop(style@, "border-spacing"@) {
            Some(v) => {
                assert(texts(w@) == words_in(v));
            },
            None => {
                assert(texts(w@) =~= Seq::empty());
            },
        }
        assert(texts(w@).len() == w@.len());
    }
    let h: Option<i64> = if w.len() > 0 {
        parse_px(w[0], DEFAULT_FONT_SIZE, vp)
    } else {
        None
    };
    let v: Option<i64> = if w.len() > 1 {
        parse_px(w[1], DEFAULT_FONT_SIZE, vp)
    } else {
        None
    };
    let hh: i64 = match h {
        Some(x) => x,
        None => 2 * ONE,
    };
    let vv: i64 = match v {
        Some(x) => x,
        None => hh,
    };
    (hh, vv)
}

// --------------------------------------------------------------------------
// collapsed borders
// --------------------------------------------------------------------------

/// Widths of the lines between tracks after the first `k` cells: the widest of
/// the borders that meet on each line. `start` and `end` give the lines that each
/// cell meets, `first` and `last` the borders it has there.
pub open spec fn line_fold(
    lines: Seq<i64>,
    start: Seq<usize>,
    end: Seq<usize>,
    first: Seq<i64>,
    last: Seq<i64>,
    k: nat,
) -> Seq<i64>
    decreases k,
{
    if k == 0 {
        lines
    } else {
        let before = line_fold(lines, start, end, first, last, (k - 1) as nat);
        let a = start[k - 1] as int;
        let b = end[k - 1] as int;
        let one = before.update(a, greatest(before[a] as int, first[k - 1] as int) as i64);
        one.update(b, greatest(one[b] as int, last[k - 1] as int) as i64)
    }
}

/// The lines before any cell: the table's own borders at both ends.
pub open spec fn outer_lines(n: nat, first: int, last: int) -> Seq<i64> {
    let one = zeros(n + 1).update(0, first as i64);
    one.update(n as int, greatest(one[n as int] as int, last) as i64)
}

fn merge_lines(
    n: usize,
    first_edge: i64,
    last_edge: i64,
    start: &Vec<usize>,
    end: &Vec<usize>,
    first: &Vec<i64>,
    last: &Vec<i64>,
) -> (r: Vec<i64>)
    requires
        n < usize::MAX,
        end@.len() == start@.len(),
        first@.len() == start@.len(),
        last@.len() == start@.len(),
        forall|i: int| 0 <= i < start@.len() ==> #[trigger] start@[i] <= n && end@[i] <= n,
    ensures
        r@ == line_fold(
            outer_lines(n as nat, first_edge as int, last_edge as int),
            start@,
            end@,
            first@,
            last@,
            start@.len(),
        ),
        r@.len() == n + 1,
{
    let mut lines = filled(n + 1, 0);
    proof {
        assert(lines@ =~= zeros((n + 1) as nat));
    }
    lines.set(0, first_edge);
    let x: i64 = max_of(lines[n], last_edge);
    lines.set(n, x);
    let ghost outer = lines@;
    let mut k: usize = 0;
    while k < start.len()
        invariant
            k <= start@.len(),
            n < usize::MAX,
            end@.len() == start@.len(),
            first@.len() == start@.len(),
            last@.len() == start@.len(),
            forall|i: int| 0 <= i < start@.len() ==> #[trigger] start@[i] <= n && end@[i] <= n,
            lines@.len() == n + 1,
            lines@ == line_fold(outer, start@, end@, first@, last@, k as nat),
        decreases start@.len() - k,
    {
        let a: usize = start[k];
        let b: usize = end[k];
        let x: i64 = max_of(lines[a], first[k]);
        lines.set(a, x);
        let y: i64 = max_of(lines[b], last[k]);
        lines.set(b, y);
        k += 1;
    }
    lines
}

pub open spec fn cols_start(v: Seq<Slot>) -> Seq<usize> {
    v.map_values(|s: Slot| s.col)
}

pub open spec fn cols_end(v: Seq<Slot>) -> Seq<usize> {
    v.map_values(|s: Slot| (s.col + s.colspan) as usize)
}

pub open spec fn rows_start(v: Seq<Slot>) -> Seq<usize> {
    v.map_values(|s: Slot| s.row)
}

pub open spec fn rows_end(v: Seq<Slot>) -> Seq<usize> {
    v.map_values(|s: Slot| (s.row + s.rowspan) as usize)
}

pub open spec fn lefts(b: Seq<Edges>) -> Seq<i64> {
    b.map_values(|e: Edges| e.left)
}

pub open spec fn rights(b: Seq<Edges>) -> Seq<i64> {
    b.map_values(|e: Edges| e.right)
}

pub open spec fn tops(b: Seq<Edges>) -> Seq<i64> {
    b.map_values(|e: Edges| e.top)
}

pub open spec fn bottoms(b: Seq<Edges>) -> Seq<i64> {
    b.map_values(|e: Edges| e.bottom)
}

/// The widths of the vertical lines of a collapsed table.
pub open spec fn vertical_lines(v: Seq<Slot>, b: Seq<Edges>, ncols: nat, table: Edges) -> Seq<i64> {
    line_fold(
        outer_lines(ncols, table.left as int, table.right as int),
        cols_start(v),
        cols_end(v),
        lefts(b),
        rights(b),
        v.len(),
    )
}

/// The widths of the horizontal lines of a collapsed table.
pub open spec fn horizontal_lines(v: Seq<Slot>, b: Seq<Edges>, nrows: nat, table: Edges) -> Seq<i64> {
    line_fold(
        outer_lines(nrows, table.top as int, table.bottom as int),
        rows_start(v),
        rows_end(v),
        tops(b),
        bottoms(b),
        v.len(),
    )
}

/// The border width of each vertical line: the widest of the borders that meet
/// there. A spanning cell counts at its two outer edges only.
pub fn vborders(v: &Vec<Slot>, b: &Vec<Edges>, ncols: usize, table: Edges) -> (r: Vec<i64>)
    requires
        within(v@, ncols as int),
        b@.len() == v@.len(),
        ncols < usize::MAX,
    ensures
        r@ == vertical_lines(v@, b@, ncols as nat, table),
        r@.len() == ncols + 1,
{
    let mut start: Vec<usize> = Vec::new();
    let mut end: Vec<usize> = Vec::new();
    let mut first: Vec<i64> = Vec::new();
    let mut last: Vec<i64> = Vec::new();
    let mut k: usize = 0;
    while k < v.len()
        invariant
            k <= v@.len(),
            within(v@, ncols as int),
            b@.len() == v@.len(),
            start@.len() == k,
            end@.len() == k,
            first@.len() == k,
            last@.len() == k,
            forall|i: int| 0 <= i < k ==> #[trigger] start@[i] == v@[i].col,
            forall|i: int| 0 <= i < k ==> #[trigger] end@[i] == v@[i].col + v@[i].colspan,
            forall|i: int| 0 <= i < k ==> #[trigger] first@[i] == b@[i].left,
            forall|i: int| 0 <= i < k ==> #[trigger] last@[i] == b@[i].right,
        decreases v@.len() - k,
    {
        let s: Slot = v[k];
        start.push(s.col);
        end.push(s.col + s.colspan);
        first.push(b[k].left);
        last.push(b[k].right);
        k += 1;
    }
    proof {
        assert(start@ =~= cols_start(v@));
        assert(end@ =~= cols_end(v@));
        assert(first@ =~= lefts(b@));
        assert(last@ =~= rights(b@));
        assert forall|i: int| 0 <= i < start@.len() implies #[trigger] start@[i] <= ncols && end@[i]
            <= ncols by {
            assert(v@[i].col + v@[i].colspan <= ncols);
        }
    }
    merge_lines(ncols, table.left, table.right, &start, &end, &first, &last)
}

/// The border width of each horizontal line, as [`vborders`] for rows.
pub fn hborders(v: &Vec<Slot>, b: &Vec<Edges>, nrows: usize, table: Edges) -> (r: Vec<i64>)
    requires
        rows_within(v@, nrows as int),
        b@.len() == v@.len(),
        nrows < usize::MAX,
    ensures
        r@ == horizontal_lines(v@, b@, nrows as nat, table),
        r@.len() == nrows + 1,
{
    let mut start: Vec<usize> = Vec::new();
    let mut end: Vec<usize> = Vec::new();
    let mut first: Vec<i64> = Vec::new();
    let mut last: Vec<i64> = Vec::new();
    let mut k: usize = 0;
    while k < v.len()
        invariant
            k <= v@.len(),
            rows_within(v@, nrows as int),
            b@.len() == v@.len(),
            start@.len() == k,
            end@.len() == k,
            first@.len() == k,
            last@.len() == k,
            forall|i: int| 0 <= i < k ==> #[trigger] start@[i] == v@[i].row,
            forall|i: int| 0 <= i < k ==> #[trigger] end@[i] == v@[i].row + v@[i].rowspan,
            forall|i: int| 0 <= i < k ==> #[trigger] first@[i] == b@[i].top,
            forall|i: int| 0 <= i < k ==> #[trigger] last@[i] == b@[i].bottom,
        decreases v@.len() - k,
    {
        let s: Slot = v[k];
        start.push(s.row);
        end.push(s.row + s.rowspan);
        first.push(b[k].top);
        last.push(b[k].bottom);
        k += 1;
    }
    proof {
        assert(start@ =~= rows_start(v@));
        assert(end@ =~= rows_end(v@));
        assert(first@ =~= tops(b@));
        assert(last@ =~= bottoms(b@));
        assert forall|i: int| 0 <= i < start@.len() implies #[trigger] start@[i] <= nrows && end@[i]
            <= nrows by {
            assert(v@[i].row + v@[i].rowspan <= nrows);
        }
    }
    merge_lines(nrows, table.top, table.bottom, &start, &end, &first, &last)
}

/// Where the line before track `i` starts.
pub open spec fn line_start(tracks: Seq<i64>, lines: Seq<i64>, i: nat) -> int
    decreases i,
{
    if i == 0 {
        0
    } else {
        sum(
            line_start(tracks, lines, (i - 1) as nat),
            sum(lines[i - 1] as int, tracks[i - 1] as int),
        )
    }
}

/// The middle of the line before track `i`; the last line follows the last track.
pub open spec fn line_center(tracks: Seq<i64>, lines: Seq<i64>, i: nat) -> int {
    sum(line_start(tracks, lines, i), scaled(lines[i as int] as int, 1, 2))
}

/// The middles of the lines around the tracks. A cell runs from middle to middle,
/// owning half of each border.
pub fn line_centers(tracks: &Vec<i64>, lines: &Vec<i64>) -> (r: Vec<i64>)
    requires
        lines@.len() == tracks@.len() + 1,
    ensures
        r@.len() == lines@.len(),
        forall|i: int|
            0 <= i < r@.len() ==> #[trigger] r@[i] == line_center(tracks@, lines@, i as nat),
{
    let mut out: Vec<i64> = Vec::new();
    let mut pos: i64 = 0;
    let mut k: usize = 0;
    while k < tracks.len()
        invariant
            k <= tracks@.len(),
            lines@.len() == tracks@.len() + 1,
            out@.len() == k,
            pos == line_start(tracks@, lines@, k as nat),
            forall|i: int|
                0 <= i < k ==> #[trigger] out@[i] == line_center(tracks@, lines@, i as nat),
        decreases tracks@.len() - k,
    {
        out.push(plus(pos, scale(lines[k], 1, 2)));
        pos = plus(pos, plus(lines[k], tracks[k]));
        k += 1;
    }
    out.push(plus(pos, scale(lines[k], 1, 2)));
    out
}

// --------------------------------------------------------------------------
// columns of a collapsed table
// --------------------------------------------------------------------------

/// The columns of a span set to `x`, where they are not set yet.
pub open spec fn set_span(w: Seq<Option<i64>>, a: int, n: int, x: i64) -> Seq<Option<i64>> {
    Seq::new(
        w.len(),
        |i: int|
            if a <= i < a + n && w[i] is None {
                Some(x)
            } else {
                w[i]
            },
    )
}

/// Declared track widths after the first `k` cells: those of the first row, a
/// spanning cell's divided over its columns.
pub open spec fn first_row_tracks(v: Seq<Slot>, w: Seq<Option<i64>>, ncols: nat, k: nat) -> Seq<
    Option<i64>,
>
    decreases k,
{
    if k == 0 {
        Seq::new(ncols, |i: int| None::<i64>)
    } else {
        let before = first_row_tracks(v, w, ncols, (k - 1) as nat);
        let s = v[k - 1];
        match w[k - 1] {
            Some(x) if s.row == 0 => set_span(
                before,
                s.col as int,
                s.colspan as int,
                scaled(x as int, 1, s.colspan as int) as i64,
            ),
            _ => before,
        }
    }
}

/// Whether every span can divide a length.
pub open spec fn spans_divide(v: Seq<Slot>) -> bool {
    forall|i: int| 0 <= i < v.len() ==> 1 <= (#[trigger] v[i]).colspan <= i64::MAX
}

pub fn first_row_cp(v: &Vec<Slot>, w: &Vec<Option<i64>>, ncols: usize) -> (r: Vec<Option<i64>>)
    requires
        within(v@, ncols as int),
        spans_divide(v@),
        w@.len() == v@.len(),
    ensures
        r@ == first_row_tracks(v@, w@, ncols as nat, v@.len()),
        r@.len() == ncols,
{
    let mut cols: Vec<Option<i64>> = no_widths(ncols);
    let mut k: usize = 0;
    while k < v.len()
        invariant
            k <= v@.len(),
            within(v@, ncols as int),
            spans_divide(v@),
            w@.len() == v@.len(),
            cols@.len() == ncols,
            cols@ == first_row_tracks(v@, w@, ncols as nat, k as nat),
        decreases v@.len() - k,
    {
        let s: Slot = v[k];
        proof {
            assert(v@[k as int].col + v@[k as int].colspan <= ncols);
        }
        if let Some(x) = w[k] {
            if s.row == 0 {
                let per: i64 = scale(x, 1, s.colspan as i64);
                let ghost before = cols@;
                let mut j: usize = s.col;
                while j < s.col + s.colspan
                    invariant
                        s.col <= j <= s.col + s.colspan <= ncols,
                        cols@.len() == ncols,
                        before.len() == ncols,
                        forall|i: int|
                            0 <= i < ncols ==> #[trigger] cols@[i] == (if s.col <= i < j
                                && before[i] is None {
                                Some(per)
                            } else {
                                before[i]
                            }),
                    decreases s.col + s.colspan - j,
                {
                    if cols[j].is_none() {
                        cols.set(j, Some(per));
                    }
                    j += 1;
                }
                proof {
                    assert(cols@ =~= set_span(before, s.col as int, s.colspan as int, per));
                }
            }
        }
        k += 1;
    }
    cols
}

/// Every declared width scaled so that they fill `avail`.
pub open spec fn filled_out(w: Seq<Option<i64>>, avail: int, declared: int) -> Seq<i64> {
    Seq::new(
        w.len(),
        |i: int|
            match w[i] {
                Some(x) => if declared > 0 {
                    scaled(x as int, avail, declared) as i64
                } else {
                    0
                },
                None => 0,
            },
    )
}

/// The tracks of a collapsed table: declared ones keep their width and the others
/// share the rest; where all are declared, they fill what there is.
pub open spec fn collapsed_tracks(w: Seq<Option<i64>>, avail: int) -> Seq<i64> {
    if undeclared(w, w.len()) > 0 {
        shared(w, avail)
    } else {
        filled_out(w, avail, declared_sum(w, w.len()))
    }
}

pub fn fixed_collapse_columns(v: &Vec<Slot>, w: &Vec<Option<i64>>, ncols: usize, avail: i64) -> (r: Vec<
    i64,
>)
    requires
        within(v@, ncols as int),
        spans_divide(v@),
        w@.len() == v@.len(),
        ncols <= i64::MAX,
    ensures
        r@ == collapsed_tracks(first_row_tracks(v@, w@, ncols as nat, v@.len()), avail as int),
        r@.len() == ncols,
{
    let tracks = first_row_cp(v, w, ncols);
    let (declared, count) = declared_total(&tracks);
    let each: i64 = share(minus(avail, declared), count);
    let mut out: Vec<i64> = Vec::new();
    let mut i: usize = 0;
    while i < tracks.len()
        invariant
            i <= tracks@.len(),
            declared == declared_sum(tracks@, tracks@.len()),
            count == undeclared(tracks@, tracks@.len()),
            each == share_of(diff(avail as int, declared as int), count as nat),
            out@.len() == i,
            forall|j: int|
                0 <= j < i ==> #[trigger] out@[j] == collapsed_tracks(tracks@, avail as int)[j],
        decreases tracks@.len() - i,
    {
        let x: i64 = match tracks[i] {
            Some(x) => if count > 0 {
                x
            } else if declared > 0 {
                scale(x, avail, declared)
            } else {
                0
            },
            None => if count > 0 {
                each
            } else {
                0
            },
        };
        out.push(x);
        i += 1;
    }
    proof {
        assert(out@ =~= collapsed_tracks(tracks@, avail as int));
    }
    out
}

/// The least tracks of a collapsed table while they are worked out.
pub struct MinTracks {
    pub width: Seq<i64>,
    pub fixed: Seq<bool>,
}

/// The least tracks after one cell of the first row: a declared width holds, the
/// first that is declared; others give the widest content.
pub open spec fn min_track_step(t: MinTracks, s: Slot, declared: Option<i64>, content: int) -> MinTracks {
    let val = match declared {
        Some(x) => x as int,
        None => content,
    };
    let per = scaled(val, 1, s.colspan as int) as i64;
    let here = |i: int| s.col <= i < s.col + s.colspan && !t.fixed[i];
    MinTracks {
        width: Seq::new(
            t.width.len(),
            |i: int|
                if here(i) {
                    if declared is Some {
                        per
                    } else {
                        greatest(t.width[i] as int, per as int) as i64
                    }
                } else {
                    t.width[i]
                },
        ),
        fixed: Seq::new(
            t.fixed.len(),
            |i: int| t.fixed[i] || (s.col <= i < s.col + s.colspan && declared is Some),
        ),
    }
}

/// The least tracks after the first `k` cells.
pub open spec fn min_tracks(
    v: Seq<Slot>,
    declared: Seq<Option<i64>>,
    content: Seq<i64>,
    ncols: nat,
    k: nat,
) -> MinTracks
    decreases k,
{
    if k == 0 {
        MinTracks { width: zeros(ncols), fixed: Seq::new(ncols, |i: int| false) }
    } else {
        let before = min_tracks(v, declared, content, ncols, (k - 1) as nat);
        if v[k - 1].row == 0 {
            min_track_step(before, v[k - 1], declared[k - 1], content[k - 1] as int)
        } else {
            before
        }
    }
}

/// The least track widths of a collapsed table, from its first row. `content`
/// gives each cell's least content width without its borders.
pub fn fixed_min_cp(
    v: &Vec<Slot>,
    declared: &Vec<Option<i64>>,
    content: &Vec<i64>,
    ncols: usize,
) -> (r: Vec<i64>)
    requires
        within(v@, ncols as int),
        spans_divide(v@),
        declared@.len() == v@.len(),
        content@.len() == v@.len(),
    ensures
        r@ == min_tracks(v@, declared@, content@, ncols as nat, v@.len()).width,
        r@.len() == ncols,
{
    let mut w = filled(ncols, 0);
    let mut fixed: Vec<bool> = Vec::new();
    let mut c: usize = 0;
    while c < ncols
        invariant
            c <= ncols,
            fixed@.len() == c,
            forall|j: int| 0 <= j < c ==> !fixed@[j],
        decreases ncols - c,
    {
        fixed.push(false);
        c += 1;
    }
    proof {
        assert(w@ =~= zeros(ncols as nat));
        assert(fixed@ =~= Seq::new(ncols as nat, |i: int| false));
    }
    let mut k: usize = 0;
    while k < v.len()
        invariant
            k <= v@.len(),
            within(v@, ncols as int),
            spans_divide(v@),
            declared@.len() == v@.len(),
            content@.len() == v@.len(),
            w@.len() == ncols,
            fixed@.len() == ncols,
            min_tracks(v@, declared@, content@, ncols as nat, k as nat) == (MinTracks {
                width: w@,
                fixed: fixed@,
            }),
        decreases v@.len() - k,
    {
        let s: Slot = v[k];
        proof {
            assert(v@[k as int].col + v@[k as int].colspan <= ncols);
        }
        if s.row == 0 {
            let given: bool = declared[k].is_some();
            let val: i64 = match declared[k] {
                Some(x) => x,
                None => content[k],
            };
            let per: i64 = scale(val, 1, s.colspan as i64);
            let ghost w0 = w@;
            let ghost f0 = fixed@;
            let mut j: usize = s.col;
            while j < s.col + s.colspan
                invariant
                    s.col <= j <= s.col + s.colspan <= ncols,
                    w@.len() == ncols,
                    fixed@.len() == ncols,
                    w0.len() == ncols,
                    f0.len() == ncols,
                    forall|i: int|
                        0 <= i < ncols ==> #[trigger] w@[i] == (if s.col <= i < j && !f0[i] {
                            if given {
                                per
                            } else {
                                greatest(w0[i] as int, per as int) as i64
                            }
                        } else {
                            w0[i]
                        }),
                    forall|i: int|
                        0 <= i < ncols ==> #[trigger] fixed@[i] == (f0[i] || (s.col <= i < j
                            && given)),
                decreases s.col + s.colspan - j,
            {
                if !fixed[j] {
                    if given {
                        w.set(j, per);
                        fixed.set(j, true);
                    } else {
                        let x: i64 = max_of(w[j], per);
                        w.set(j, x);
                    }
                }
                j += 1;
            }
            proof {
                let step = min_track_step(
                    MinTracks { width: w0, fixed: f0 },
                    s,
                    declared@[k as int],
                    content@[k as int] as int,
                );
                assert(w@ =~= step.width);
                assert(fixed@ =~= step.fixed);
            }
        }
        k += 1;
    }
    w
}

// --------------------------------------------------------------------------
// cells in place
// --------------------------------------------------------------------------

/// How far a cell's content moves down in its cell.
pub open spec fn content_shift(v: VAlign, cell_h: int, content_h: int) -> int {
    let slack = greatest(diff(cell_h, content_h), 0);
    match v {
        VAlign::Middle | VAlign::Baseline => scaled(slack, 1, 2),
        VAlign::Bottom => slack,
        _ => 0,
    }
}

pub fn valign_offset(v: VAlign, cell_h: i64, content_h: i64) -> (r: i64)
    ensures
        r == content_shift(v, cell_h as int, content_h as int),
{
    let slack: i64 = max_of(minus(cell_h, content_h), 0);
    match v {
        VAlign::Middle | VAlign::Baseline => scale(slack, 1, 2),
        VAlign::Bottom => slack,
        _ => 0,
    }
}

/// The places of a table's tracks.
#[derive(Debug)]
pub struct Geom {
    pub col_x: Vec<i64>,
    pub row_y: Vec<i64>,
    pub row_h: Vec<i64>,
    pub table_w: i64,
}

/// The mathematical reading of a [`Geom`].
pub struct GeomV {
    pub col_x: Seq<i64>,
    pub row_y: Seq<i64>,
    pub row_h: Seq<i64>,
    pub table_w: int,
}

impl View for Geom {
    type V = GeomV;

    open spec fn view(&self) -> GeomV {
        GeomV {
            col_x: self.col_x@,
            row_y: self.row_y@,
            row_h: self.row_h@,
            table_w: self.table_w as int,
        }
    }
}

/// A cell laid out at the origin, and how it aligns.
#[derive(Debug)]
pub struct LaidCell {
    pub slot: Slot,
    pub frag: Fragment,
    pub valign: VAlign,
}

/// The mathematical reading of a [`LaidCell`].
pub struct LaidV {
    pub slot: Slot,
    pub frag: FragV,
    pub valign: VAlign,
}

impl View for LaidCell {
    type V = LaidV;

    open spec fn view(&self) -> LaidV {
        LaidV { slot: self.slot, frag: self.frag@, valign: self.valign }
    }
}

pub open spec fn laid_view(v: Seq<LaidCell>) -> Seq<LaidV> {
    v.map_values(|c: LaidCell| c@)
}

/// A cell at its place: moved there, its content aligned, its height that of the
/// rows it spans.
pub open spec fn cell_at(c: LaidV, g: GeomV, cx: int, cy: int) -> FragV {
    let cell_h = range_sum(g.row_h, c.slot.row as int, c.slot.rowspan as nat);
    let dy = content_shift(c.valign, cell_h, c.frag.height);
    let f = moved(
        c.frag,
        sum(cx, g.col_x[c.slot.col as int] as int),
        sum(cy, g.row_y[c.slot.row as int] as int),
    );
    FragV { children: all_moved(f.children, 0, dy), height: cell_h, ..f }
}

/// Whether a cell's slot lies within the tracks.
pub open spec fn in_tracks(s: Slot, g: GeomV) -> bool {
    s.col < g.col_x.len() && s.row < g.row_y.len() && s.row + s.rowspan <= g.row_h.len()
}

pub fn position_cell(c: LaidCell, g: &Geom, cx: i64, cy: i64) -> (r: Fragment)
    requires
        in_tracks(c.slot, g@),
    ensures
        r@ == cell_at(c@, g@, cx as int, cy as int),
{
    let LaidCell { slot, frag, valign } = c;
    let cell_h: i64 = spanned(&g.row_h, slot.row, slot.rowspan);
    let dy: i64 = valign_offset(valign, cell_h, frag.height);
    let f = frag.translate(plus(cx, g.col_x[slot.col]), plus(cy, g.row_y[slot.row]));
    let ghost fv = f@;
    proof {
        lemma_frag_children(f);
    }
    let Fragment {
        node_id,
        x,
        y,
        width,
        height,
        content,
        break_meta,
        children,
        z_index,
        is_positioned,
    } = f;
    let r = Fragment {
        node_id,
        x,
        y,
        width,
        height: cell_h,
        content,
        break_meta,
        children: translate_all(children, 0, dy),
        z_index,
        is_positioned,
    };
    proof {
        lemma_frag_children(r);
    }
    r
}

/// What a row paints of itself: nothing.
pub open spec fn empty_paint() -> PaintV {
    let s = BorderSide { width: 0, color: None };
    PaintV {
        background: None,
        border: BorderEdges { top: s, right: s, bottom: s, left: s },
        border_radius: 0,
        shadow: None,
        gradient: None,
        transform: None,
    }
}

/// A row's fragment before its cells.
pub open spec fn row_frag(row: RowV, r: int, g: GeomV, cx: int, cy: int) -> FragV {
    let f = plain_frag(
        NodeId(row.id as u32),
        cx,
        sum(cy, g.row_y[r] as int),
        g.table_w,
        g.row_h[r] as int,
        ContentV::Box(empty_paint()),
    );
    FragV { break_meta: BreakMeta { repeatable: row.repeat, ..f.break_meta }, ..f }
}

pub fn make_row_frag(row: &RowRef, r: usize, g: &Geom, cx: i64, cy: i64) -> (f: Fragment)
    requires
        r < g.row_y@.len(),
        r < g.row_h@.len(),
    ensures
        f@ == row_frag(row@, r as int, g@, cx as int, cy as int),
{
    let paint = BoxPaint {
        background: None,
        border: BorderEdges::default(),
        border_radius: 0,
        shadow: None,
        gradient: None,
        transform: None,
    };
    proof {
        assert(paint@ == empty_paint());
    }
    let mut f = Fragment::new(
        row.node_id,
        cx,
        plus(cy, g.row_y[r]),
        g.table_w,
        g.row_h[r],
        FragmentContent::Box(paint),
    );
    f.break_meta.repeatable = row.repeat;
    f
}

/// The cells among the first `k` that start in row `r`, at their places.
pub open spec fn cells_in_row(c: Seq<LaidV>, g: GeomV, cx: int, cy: int, r: int, k: nat) -> Seq<FragV>
    decreases k,
{
    if k == 0 {
        Seq::empty()
    } else {
        let before = cells_in_row(c, g, cx, cy, r, (k - 1) as nat);
        if c[k - 1].slot.row == r {
            before.push(cell_at(c[k - 1], g, cx, cy))
        } else {
            before
        }
    }
}

/// The rows of a laid-out table, each with the cells that start in it.
pub open spec fn finished_rows(rows: Seq<RowV>, c: Seq<LaidV>, g: GeomV, cx: int, cy: int) -> Seq<FragV> {
    Seq::new(
        rows.len(),
        |r: int|
            FragV {
                children: cells_in_row(c, g, cx, cy, r, c.len()),
                ..row_frag(rows[r], r, g, cx, cy)
            },
    )
}

/// Put every cell in place and under its row.
pub fn finalize(rows: &Vec<RowRef>, laid: Vec<LaidCell>, g: &Geom, cx: i64, cy: i64) -> (out: Vec<
    Fragment,
>)
    requires
        g.row_y@.len() == rows@.len(),
        g.row_h@.len() == rows@.len(),
        forall|i: int| 0 <= i < laid@.len() ==> in_tracks((#[trigger] laid@[i]).slot, g@),
    ensures
        frags_view(out@) == finished_rows(
            rows_view(rows@),
            laid_view(laid@),
            g@,
            cx as int,
            cy as int,
        ),
{
    let ghost rv = rows_view(rows@);
    let ghost all = laid@;
    let ghost lv = laid_view(all);
    let ghost gv = g@;
    let mut out: Vec<Fragment> = Vec::new();
    let mut r: usize = 0;
    while r < rows.len()
        invariant
            r <= rows@.len(),
            rv == rows_view(rows@),
            gv == g@,
            g.row_y@.len() == rows@.len(),
            g.row_h@.len() == rows@.len(),
            out@.len() == r,
            forall|i: int|
                0 <= i < r ==> frag_view(#[trigger] out@[i]) == row_frag(
                    rv[i],
                    i,
                    gv,
                    cx as int,
                    cy as int,
                ),
        decreases rows@.len() - r,
    {
        out.push(make_row_frag(&rows[r], r, g, cx, cy));
        r += 1;
    }
    let ghost n = rows@.len();
    proof {
        assert forall|i: int| 0 <= i < n implies frag_view(#[trigger] out@[i]) == (FragV {
            children: cells_in_row(lv, gv, cx as int, cy as int, i, 0),
            ..row_frag(rv[i], i, gv, cx as int, cy as int)
        }) by {}
    }
    for c in it: laid
        invariant
            it.seq() == all,
            lv == laid_view(all),
            gv == g@,
            n == rv.len(),
            g.row_y@.len() == n,
            g.row_h@.len() == n,
            forall|i: int| 0 <= i < all.len() ==> in_tracks((#[trigger] all[i]).slot, gv),
            out@.len() == n,
            forall|i: int|
                0 <= i < n ==> frag_view(#[trigger] out@[i]) == (FragV {
                    children: cells_in_row(
                        lv,
                        gv,
                        cx as int,
                        cy as int,
                        i,
                        it.index() as nat,
                    ),
                    ..row_frag(rv[i], i, gv, cx as int, cy as int)
                }),
    {
        let ghost k = it.index();
        proof {
            assert(lv[k] == all[k]@);
            assert(in_tracks(all[k].slot, gv));
        }
        let row: usize = c.slot.row;
        let placed = position_cell(c, g, cx, cy);
        let ghost before = out@;
        proof {
            lemma_frag_children(out@[row as int]);
        }
        let mut f = out.remove(row);
        let ghost f0 = f;
        proof {
            lemma_frags_push(f.children@, placed);
        }
        f.children.push(placed);
        proof {
            lemma_frag_children(f);
            assert(frag_view(f) == (FragV {
                children: frag_view(f0).children.push(frag_view(placed)),
                ..frag_view(f0)
            }));
        }
        out.insert(row, f);
        proof {
            assert forall|i: int| 0 <= i < n implies frag_view(#[trigger] out@[i]) == (FragV {
                children: cells_in_row(lv, gv, cx as int, cy as int, i, (k + 1) as nat),
                ..row_frag(rv[i], i, gv, cx as int, cy as int)
            }) by {
                if i != row {
                    assert(out@[i] == before[i]);
                } else {
                    assert(before[i] == f0);
                }
            }
        }
    }
    proof {
        assert(frags_view(out@) =~= finished_rows(rv, lv, gv, cx as int, cy as int));
    }
    out
}

} // verus!
