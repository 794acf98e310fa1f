//! What always holds of the rows, the grid and the extents of tables.

use vstd::prelude::*;
use vstd::string::*;

use crate::layout::blocklaws::{side_frame, small, small_edges, SMALL};
use crate::layout::boxgen::{BoxV, KindV};
use crate::layout::fragment::RepeatKind;
use crate::layout::grid_slots::{
    covered, first_free, grid_of, place_cells, right_edge, Slot, Spans,
};
use crate::layout::length::{length_pct, px_of, Edges, LengthPct, Viewport, DEFAULT_FONT_SIZE};
use crate::layout::measure::{min_content, natural, Sources};
use crate::layout::table::{total_of, row_floor, row_of, rows_in, RowV};
use crate::layout::table_cells::{cells_of_rows, slots_of};
use crate::layout::table_layout::{
    CellsV, MergedV, between, content_heights, gaps, inner_min, least_width, merged_columns,
    merged_extent, merged_geom, merged_rows, merged_tracks, merged_width, merges_borders,
    separate_columns, separate_geom, separate_height, widest_span,
};
use crate::layout::table_place::{
    LaidV, MinTracks, collapsed_tracks, first_row_tracks, heights_of, horizontal_lines,
    line_center, min_track_step, min_tracks, offset_of, spacing_in, vertical_lines,
};
use crate::layout::table_widths::{
    border_of, cell_ctx, columns_of, declared_sum, declared_track, declared_width, declares_width,
    fit_to, shared, slack_of, undeclared,
};
use crate::layout::tablelaws::{amounts, lemma_range_sum, plain_sum};
use crate::layout::value::{ResolveCtx, box_style_in};

use crate::layout::valuelaws::{lemma_fields, says, unset};
use crate::number::{LIMIT, round_div};
use crate::readlaws::law_rounding;
use crate::style::StyleMap;

verus! {

// --------------------------------------------------------------------------
// rows
// --------------------------------------------------------------------------

proof fn lemma_rows_prefix(a: Seq<BoxV>, b: BoxV, vp: Viewport, k: nat)
    requires
        k <= a.len(),
    ensures
        rows_in(a.push(b), vp, k) == rows_in(a, vp, k),
    decreases k,
{
    if k > 0 {
        lemma_rows_prefix(a, b, vp, (k - 1) as nat);
        assert(a.push(b)[k - 1] == a[k - 1]);
    }
}

/// The rows of a table are its rows and those of its groups, in order; those of a header or
/// footer group repeat as such, and no others do.
pub proof fn law_rows_of_tables(a: Seq<BoxV>, b: BoxV, vp: Viewport, i: int)
    ensures
        ({
            let before = rows_in(a, vp, a.len());
            let after = rows_in(a.push(b), vp, a.len() + 1);
            &&& after.take(before.len() as int) == before
            &&& b.display is TableRow ==> after.len() == before.len() + 1 && after.last().id == b.id
                && after.last().repeat is None && (b.kind matches KindV::Block(cells)
                ==> after.last().cells == cells)
            &&& !(b.display is TableRow) ==> (b.kind matches KindV::Block(rows) ==> after.len()
                == before.len() + rows.len() && (0 <= i < rows.len() ==> {
                let r = after[before.len() + i];
                &&& r.id == rows[i].id
                &&& rows[i].kind matches KindV::Block(cells) ==> r.cells == cells
                &&& r.repeat == Some(RepeatKind::Header) <==> b.display is TableHeaderGroup
                &&& r.repeat == Some(RepeatKind::Footer) <==> b.display is TableFooterGroup
            }))
        }),
        rows_in(Seq::empty(), vp, 0).len() == 0,
{
    lemma_rows_prefix(a, b, vp, a.len());
    assert(a.push(b)[a.len() as int] == b);
    let before = rows_in(a, vp, a.len());
    let after = rows_in(a.push(b), vp, a.len() + 1);
    assert(after.take(before.len() as int) =~= before);
}

/// A row is at least as high as its style says, which is not below zero; nothing else makes
/// it a floor.
pub proof fn law_row_floors(m: StyleMap, vp: Viewport)
    ensures
        unset(m, "height"@) ==> row_floor(m, vp) == 0,
        m.contains_key("height"@) ==> (px_of(m["height"@], 16_000_000, vp) matches Some(h) ==> (h >= 0
            ==> row_floor(m, vp) == h) && (h < 0 ==> row_floor(m, vp) == 0)),
{
}

/// A row keeps the floor of its own style.
pub proof fn law_rows_keep_their_floor(b: BoxV, r: Option<RepeatKind>, vp: Viewport)
    ensures
        row_of(b, r, vp).min_height == row_floor(b.style, vp),
        row_of(b, r, vp).repeat == r,
        row_of(b, r, vp).id == b.id,
{
}

// --------------------------------------------------------------------------
// the grid
// --------------------------------------------------------------------------

/// A cell goes to the first column, from where it is looked for on, that no cell above it
/// covers.
pub proof fn law_first_free_column(v: Seq<Slot>, r: int, c: int)
    ensures
        first_free(v, r, c) >= c,
        forall|j: int| c <= j < first_free(v, r, c) ==> covered(v, r, j),
        first_free(v, r, c) < right_edge(v) ==> !covered(v, r, first_free(v, r, c)),
    decreases right_edge(v) - c,
{
    if c < right_edge(v) && covered(v, r, c) {
        law_first_free_column(v, r, c + 1);
    }
}

/// The cells of a row are put behind each other, each with its own spans and at the first
/// free column behind the one before; those of earlier rows stay.
pub proof fn law_cells_of_a_row(v: Seq<Slot>, cells: Seq<Spans>, r: int, k: nat)
    requires
        0 < k <= cells.len(),
        k <= usize::MAX,
        0 <= r <= usize::MAX,
    ensures
        ({
            let (s, c) = place_cells(v, cells, r, (k - 1) as nat);
            let (t, e) = place_cells(v, cells, r, k);
            let x = t.last();
            &&& t.len() == s.len() + 1 && t.drop_last() == s
            &&& x.row == r && x.cell == k - 1 && x.colspan == cells[k - 1].cols && x.rowspan
                == cells[k - 1].rows
            &&& 0 <= first_free(s, r, c) <= usize::MAX ==> x.col == first_free(s, r, c) && e == x.col
                + x.colspan
        }),
        place_cells(v, cells, r, 0) == (v, 0int),
{
    let (s, c) = place_cells(v, cells, r, (k - 1) as nat);
    let (t, e) = place_cells(v, cells, r, k);
    assert(t.drop_last() =~= s);
}

/// A table has as many columns as the longest of its rows reaches.
pub proof fn law_columns_of_a_grid(rows: Seq<Seq<Spans>>, k: nat)
    requires
        0 < k <= rows.len(),
    ensures
        ({
            let (s, n) = grid_of(rows, (k - 1) as nat);
            let (t, c) = place_cells(s, rows[k - 1], k - 1, rows[k - 1].len());
            &&& grid_of(rows, k).0 == t
            &&& grid_of(rows, k).1 >= n && grid_of(rows, k).1 >= c
            &&& grid_of(rows, k).1 == n || grid_of(rows, k).1 == c
        }),
        grid_of(rows, 0).0.len() == 0 && grid_of(rows, 0).1 == 0,
{
}

/// A cell spans no further than the last row, and keeps its place otherwise.
pub proof fn law_spans_end_with_the_table(rows: Seq<RowV>, i: int)
    requires
        0 <= i < slots_of(rows).len(),
        ({
            let s = grid_of(crate::layout::table_cells::all_spans(rows), rows.len()).0[i];
            s.row <= rows.len() <= usize::MAX
        }),
    ensures
        ({
            let s = grid_of(crate::layout::table_cells::all_spans(rows), rows.len()).0[i];
            let t = slots_of(rows)[i];
            &&& t.row == s.row && t.col == s.col && t.cell == s.cell && t.colspan == s.colspan
            &&& t.row + t.rowspan <= rows.len()
            &&& s.row + s.rowspan <= rows.len() ==> t.rowspan == s.rowspan
            &&& s.row + s.rowspan > rows.len() ==> t.row + t.rowspan == rows.len()
        }),
{
}

/// What is known of each cell is its own: its declared width, its widths on one line and at
/// least, and its borders.
pub proof fn law_cells_are_their_own(rows: Seq<RowV>, env: Sources, i: int)
    requires
        0 <= i < slots_of(rows).len(),
    ensures
        ({
            let c = cells_of_rows(rows, env);
            let s = slots_of(rows)[i];
            let b = rows[s.row as int].cells[s.cell as int];
            &&& c.slots == slots_of(rows)
            &&& c.declared[i] == declared_width(b.style, env.viewport)
            &&& c.tracks[i] == declared_track(b.style, env.viewport)
            &&& i64::MIN <= natural(b, env) <= i64::MAX ==> c.natural[i] == natural(b, env)
            &&& i64::MIN <= min_content(b, env) <= i64::MAX ==> c.min[i] == min_content(b, env)
            &&& c.borders[i] == border_of(b.style, env.viewport)
        }),
{
    reveal(cells_of_rows);
}

/// A cell declares its width with its padding and borders, its track with its padding only.
pub proof fn law_declared_widths(m: StyleMap, vp: Viewport, w: i64)
    requires
        small_edges(box_style_in(m, cell_ctx(vp))),
        0 <= w <= SMALL,
    ensures
        ({
            let s = box_style_in(m, cell_ctx(vp));
            &&& s.width == LengthPct::Px(w) ==> (declared_width(m, vp) matches Some(x) && x == w
                + side_frame(s))
            &&& s.width == LengthPct::Px(w) ==> (declared_track(m, vp) matches Some(x) && x == w
                + s.padding.left + s.padding.right)
            &&& s.width is Auto ==> declared_width(m, vp) is None && declared_track(m, vp) is None
            &&& border_of(m, vp).left == s.border.left.width * 1_000_000 && border_of(m, vp).right
                == s.border.right.width * 1_000_000
            &&& border_of(m, vp).top == s.border.top.width * 1_000_000 && border_of(m, vp).bottom
                == s.border.bottom.width * 1_000_000
        }),
{
}

// --------------------------------------------------------------------------
// extents
// --------------------------------------------------------------------------

/// There is a gap around each track: one more than there are tracks.
pub proof fn law_gaps(gap: int, n: int)
    requires
        0 <= gap <= 1_000_000_000,
        0 <= n <= 100_000,
    ensures
        gaps(gap, n) == (n + 1) * gap,
{
    assert(0 <= gap * (n + 1) <= 1_000_000_000_000_000) by (nonlinear_arith)
        requires
            0 <= gap <= 1_000_000_000,
            0 <= n <= 100_000,
    ;
    assert(gap * (n + 1) == (n + 1) * gap) by (nonlinear_arith);
    assert(gap * (n + 1) <= 100_001 * 1_000_000_000) by (nonlinear_arith)
        requires
            0 <= gap <= 1_000_000_000,
            0 <= n <= 100_000,
    ;
    law_rounding(gap * (n + 1), 1);
}

/// The rows of borders are merged only in fixed layout with collapsed borders.
pub proof fn law_merging(m: StyleMap)
    ensures
        merges_borders(m) <==> says(m, "table-layout"@, "fixed"@) && says(
            m,
            "border-collapse"@,
            "collapse"@,
        ),
{
}

/// The columns of a table with separate borders share what the gaps leave of its width.
pub proof fn law_columns_share_what_gaps_leave(
    m: StyleMap,
    c: CellsV,
    n: nat,
    cw: int,
    vp: Viewport,
)
    requires
        n <= 100_000,
        0 <= spacing_in(m, vp).0 <= 1_000_000_000,
        0 <= cw <= SMALL,
        cw - (n + 1) * spacing_in(m, vp).0 >= 1_000_000,
    ensures
        separate_columns(m, c, n, cw, vp) == columns_of(
            m,
            c.slots,
            n,
            (cw - (n + 1) * spacing_in(m, vp).0) as i64,
            c.declared,
            c.natural,
            c.min,
            vp,
        ),
{
    reveal(separate_columns);
    law_gaps(spacing_in(m, vp).0, n as int);
}

/// Columns and rows of a table with separate borders stand behind each other, a gap before
/// each and one behind the last; the table is as wide and as high as all of them.
pub proof fn law_separate_tracks(
    m: StyleMap,
    cols: Seq<i64>,
    v: Seq<Slot>,
    rows: Seq<RowV>,
    laid: Seq<LaidV>,
    vp: Viewport,
    i: int,
)
    requires
        amounts(cols),
        cols.len() <= 100_000,
        plain_sum(cols, 0, cols.len()) <= SMALL,
        0 <= spacing_in(m, vp).0 <= 1_000_000,
        0 <= spacing_in(m, vp).1 <= 1_000_000,
    ensures
        ({
            let (hs, vs) = spacing_in(m, vp);
            let g = separate_geom(m, cols, v, rows, laid, vp);
            &&& g.col_x.len() == cols.len() && g.row_y.len() == g.row_h.len()
            &&& cols.len() > 0 ==> g.col_x[0] == hs
            &&& g.row_h.len() > 0 ==> g.row_y[0] == vs
            &&& 0 < i < cols.len() && 0 <= offset_of(cols, hs, (i - 1) as nat) <= SMALL && cols[i - 1]
                <= SMALL ==> g.col_x[i] == g.col_x[i - 1] + cols[i - 1] + hs
            &&& 0 < i < g.row_h.len() && 0 <= offset_of(g.row_h, vs, (i - 1) as nat) <= SMALL && 0
                <= g.row_h[i - 1] <= SMALL ==> g.row_y[i] == g.row_y[i - 1] + g.row_h[i - 1] + vs
            &&& g.table_w == plain_sum(cols, 0, cols.len()) + (cols.len() + 1) * hs
            &&& amounts(g.row_h) && g.row_h.len() <= 100_000 && plain_sum(
                g.row_h,
                0,
                g.row_h.len(),
            ) <= SMALL ==> separate_height(m, g, vp) == plain_sum(g.row_h, 0, g.row_h.len()) + (
            g.row_h.len() + 1) * vs
        }),
{
    let (hs, vs) = spacing_in(m, vp);
    let g = separate_geom(m, cols, v, rows, laid, vp);
    lemma_range_sum(cols, 0, cols.len());
    law_gaps(hs, cols.len() as int);
    assert(0 <= (cols.len() + 1) * hs <= 200_000_000_000) by (nonlinear_arith)
        requires
            0 <= hs <= 1_000_000,
            0 <= cols.len() <= 100_000,
    ;
    if amounts(g.row_h) && g.row_h.len() <= 100_000 && plain_sum(g.row_h, 0, g.row_h.len())
        <= SMALL {
        let n = g.row_h.len() as int;
        lemma_range_sum(g.row_h, 0, g.row_h.len());
        law_gaps(vs, n);
        assert(0 <= (n + 1) * vs <= 200_000_000_000) by (nonlinear_arith)
            requires
                0 <= vs <= 1_000_000,
                0 <= n <= 100_000,
        ;
    }
}

/// The rows of a table with separate borders are as high as its laid-out cells and its
/// floors make them.
pub proof fn law_rows_by_their_cells(
    m: StyleMap,
    cols: Seq<i64>,
    v: Seq<Slot>,
    rows: Seq<RowV>,
    laid: Seq<LaidV>,
    vp: Viewport,
    heights: Seq<i64>,
    floors: Seq<i64>,
)
    requires
        heights.len() == laid.len(),
        floors.len() == rows.len(),
        forall|i: int| 0 <= i < laid.len() ==> #[trigger] heights[i] == laid[i].frag.height,
        forall|i: int| 0 <= i < rows.len() ==> #[trigger] floors[i] == rows[i].min_height,
    ensures
        separate_geom(m, cols, v, rows, laid, vp).row_h == heights_of(v, heights, floors),
{
    let h = crate::layout::table_layout::frag_heights(laid).map_values(|h: int| h as i64);
    assert(h =~= heights);
    assert(crate::layout::table_layout::floors_of(rows) =~= floors);
}

/// A cell of merged borders reaches from the middle of the line before it to that of the line
/// behind it; it is laid out in what lies between the lines, its own borders added.
pub proof fn law_merged_cells(centers: Seq<i64>, lines: Seq<i64>, s: Slot, own: int)
    requires
        s.col + s.colspan < centers.len(),
        s.col + s.colspan < lines.len(),
        small(centers[s.col as int] as int) && small(centers[s.col + s.colspan] as int),
        0 <= lines[s.col as int] <= SMALL && 0 <= lines[s.col + s.colspan] <= SMALL,
        lines[s.col as int] % 2 == 0 && lines[s.col + s.colspan] % 2 == 0,
        0 <= own <= SMALL,
    ensures
        merged_extent(centers, s) == centers[s.col + s.colspan] - centers[s.col as int],
        ({
            let w = centers[s.col + s.colspan] - centers[s.col as int] - lines[s.col as int] / 2
                - lines[s.col + s.colspan] / 2 + own;
            &&& w >= 0 ==> merged_width(centers, lines, s, own) == w
            &&& w < 0 ==> merged_width(centers, lines, s, own) == 0
        }),
{
    law_rounding(lines[s.col as int] as int, 2);
    law_rounding(lines[s.col + s.colspan] as int, 2);
}

/// A row between merged borders is as high as its cells without their borders make it; its
/// cells reach from middle to middle of the lines.
pub proof fn law_merged_rows(
    c: CellsV,
    m: MergedV,
    rows: Seq<RowV>,
    laid: Seq<LaidV>,
    table: Edges,
    i: int,
)
    requires
        0 <= i < rows.len(),
        m.centers.len() > m.tracks.len(),
    ensures
        ({
            let g = merged_geom(c, m, rows, laid, table);
            let tracks = merged_rows(c, rows, laid);
            let lines = horizontal_lines(c.slots, c.borders, rows.len(), table);
            let (a, b) = (
                line_center(tracks, lines, i as nat),
                line_center(tracks, lines, (i + 1) as nat),
            );
            &&& g.row_y.len() == rows.len() && g.row_h.len() == rows.len()
            &&& small(a) && small(b) ==> g.row_y[i] == a && g.row_y[i] + g.row_h[i] == b
            &&& g.col_x.len() == m.tracks.len()
            &&& 0 <= i < m.tracks.len() ==> g.col_x[i] == m.centers[i]
        }),
{
}

/// A merged table is as wide as its tracks and its lines.
pub proof fn law_merged_tables(c: CellsV, m: MergedV, rows: Seq<RowV>, laid: Seq<LaidV>, table: Edges)
    requires
        amounts(m.tracks) && amounts(m.lines),
        plain_sum(m.tracks, 0, m.tracks.len()) <= SMALL,
        plain_sum(m.lines, 0, m.lines.len()) <= SMALL,
    ensures
        merged_geom(c, m, rows, laid, table).table_w == plain_sum(m.tracks, 0, m.tracks.len())
            + plain_sum(m.lines, 0, m.lines.len()),
{
    lemma_range_sum(m.tracks, 0, m.tracks.len());
    lemma_range_sum(m.lines, 0, m.lines.len());
}

/// A cell between merged borders counts with its height less its own borders.
pub proof fn law_content_heights(laid: Seq<LaidV>, b: Seq<Edges>, i: int)
    requires
        0 <= i < laid.len(),
        i < b.len(),
        small(laid[i].frag.height),
        0 <= b[i].top <= SMALL && 0 <= b[i].bottom <= SMALL,
    ensures
        ({
            let h = laid[i].frag.height - b[i].top - b[i].bottom;
            &&& h >= 0 ==> content_heights(laid, b)[i] == h
            &&& h < 0 ==> content_heights(laid, b)[i] == 0
        }),
{
}

/// The columns of a merged table have their lines between them and meet in the middles of
/// these; they share what the lines leave of its width.
pub proof fn law_merged_columns(c: CellsV, n: nat, cw: int, table: Edges, i: int)
    requires
        0 <= i <= n,
    ensures
        ({
            let m = merged_columns(c, n, cw, table);
            &&& m.lines == vertical_lines(c.slots, c.borders, n, table)
            &&& m.centers.len() == n + 1
            &&& small(line_center(m.tracks, m.lines, i as nat)) ==> m.centers[i] == line_center(
                m.tracks,
                m.lines,
                i as nat,
            )
        }),
{
    reveal(merged_columns);
}

proof fn lemma_first_row_tracks(v: Seq<Slot>, w: Seq<Option<i64>>, n: nat, k: nat)
    requires
        k <= v.len() == w.len(),
    ensures
        first_row_tracks(v, w, n, k).len() == n,
    decreases k,
{
    if k > 0 {
        lemma_first_row_tracks(v, w, n, (k - 1) as nat);
    }
}

/// A cell of the first row that declares a width gives it to its columns in equal parts, but
/// not to those that have one; cells of other rows give none.
pub proof fn law_first_row_gives_its_tracks(
    v: Seq<Slot>,
    w: Seq<Option<i64>>,
    n: nat,
    k: nat,
    i: int,
)
    requires
        0 < k <= v.len() == w.len(),
        0 <= i < n,
        v[k - 1].colspan >= 1,
        w[k - 1] matches Some(x) ==> 0 <= x <= SMALL,
    ensures
        ({
            let before = first_row_tracks(v, w, n, (k - 1) as nat);
            let after = first_row_tracks(v, w, n, k);
            let s = v[k - 1];
            &&& before[i] is Some ==> after[i] == before[i]
            &&& s.row != 0 || w[k - 1] is None || i < s.col || i >= s.col + s.colspan ==> after[i]
                == before[i]
            &&& s.row == 0 && s.col <= i < s.col + s.colspan && before[i] is None ==> (
            w[k - 1] matches Some(x) ==> (after[i] matches Some(p) && -s.colspan <= 2 * (p * s.colspan
                - x) <= s.colspan))
        }),
{
    lemma_first_row_tracks(v, w, n, (k - 1) as nat);
    lemma_first_row_tracks(v, w, n, k);
    if let Some(x) = w[k - 1] {
        let d = v[k - 1].colspan as int;
        law_rounding(x as int, d);
        let q = round_div(x as int, d);
        assert(-LIMIT <= q <= LIMIT) by (nonlinear_arith)
            requires
                -d <= 2 * (q * d - x) <= d,
                0 <= x <= SMALL,
                d >= 1,
                SMALL + 1 <= LIMIT,
        ;
        assert(x * 1 == x);
    }
}

proof fn lemma_widest_span(v: Seq<Slot>, w: Seq<i64>, k: nat)
    requires
        k <= v.len() == w.len(),
    ensures
        widest_span(v, w, k) >= 0,
        forall|i: int| 0 <= i < k && (#[trigger] v[i]).colspan > 1 ==> widest_span(v, w, k) >= w[i],
    decreases k,
{
    if k > 0 {
        lemma_widest_span(v, w, (k - 1) as nat);
    }
}

/// A table with separate borders is at least as wide as each of its spanning cells and the
/// gaps around its columns.
pub proof fn law_least_width_holds_spans(
    m: StyleMap,
    c: CellsV,
    n: nat,
    table: Edges,
    vp: Viewport,
    i: int,
)
    requires
        0 < n <= 100_000,
        !merges_borders(m),
        c.min.len() == c.slots.len(),
        0 <= i < c.slots.len(),
        c.slots[i].colspan > 1,
        0 <= spacing_in(m, vp).0 <= 1_000_000,
        c.min[i] <= SMALL,
    ensures
        least_width(m, c, n, table, vp) >= c.min[i] + (n + 1) * spacing_in(m, vp).0,
{
    lemma_widest_span(c.slots, c.min, c.slots.len());
    law_gaps(spacing_in(m, vp).0, n as int);
    let hs = spacing_in(m, vp).0;
    assert(0 <= (n + 1) * hs <= 200_000_000_000) by (nonlinear_arith)
        requires
            0 <= hs <= 1_000_000,
            0 <= n <= 100_000,
    ;
}

/// The least width of a cell between merged borders leaves these out.
pub proof fn law_inner_widths(c: CellsV, i: int)
    requires
        0 <= i < c.slots.len(),
        small(c.min[i] as int),
        0 <= c.borders[i].left <= SMALL && 0 <= c.borders[i].right <= SMALL,
    ensures
        ({
            let w = c.min[i] - c.borders[i].left - c.borders[i].right;
            &&& w >= 0 ==> inner_min(c)[i] == w
            &&& w < 0 ==> inner_min(c)[i] == 0
        }),
{
}

/// A table declares a width where its own property is a length or a percentage.
pub proof fn law_declared_tables(m: StyleMap, cw: i64, vp: Viewport)
    ensures
        unset(m, "width"@) ==> !declares_width(m, cw, vp),
        ({
            let s = box_style_in(
                m,
                ResolveCtx { parent_font_size: DEFAULT_FONT_SIZE, cb_width: cw, viewport: vp },
            );
            m.contains_key("width"@) ==> (length_pct(
                m["width"@],
                s.font_size as int,
                vp,
            ) matches Some(l) ==> (declares_width(m, cw, vp) <==> !(l is Auto)))
        }),
{
    lemma_fields(
        m,
        ResolveCtx { parent_font_size: DEFAULT_FONT_SIZE, cb_width: cw, viewport: vp },
    );
}

/// How far the first `k` columns stand above their minima, without a limit.
pub open spec fn plain_slack(c: Seq<i64>, m: Seq<i64>, k: nat) -> int
    decreases k,
{
    if k == 0 || k > c.len() || k > m.len() {
        0
    } else {
        plain_slack(c, m, (k - 1) as nat) + (c[k - 1] - m[k - 1])
    }
}

proof fn lemma_slack(c: Seq<i64>, m: Seq<i64>, k: nat)
    requires
        amounts(c),
        amounts(m),
        k <= c.len() == m.len(),
        forall|i: int| 0 <= i < c.len() ==> #[trigger] m[i] <= c[i],
        plain_sum(c, 0, c.len()) <= SMALL,
    ensures
        0 <= plain_slack(c, m, k) <= plain_sum(c, 0, k),
        plain_sum(c, 0, k) <= SMALL ==> slack_of(c, m, k) == plain_slack(c, m, k),
    decreases k,
{
    if k > 0 {
        lemma_slack(c, m, (k - 1) as nat);
        assert(m[k - 1] <= c[k - 1]);
        assert(0 <= m[k - 1] && 0 <= c[k - 1]);
    }
}

/// Columns too wide for their table give way in proportion to how far they stand above what
/// they need at least.
pub proof fn law_columns_shrink_within_their_slack(c: Seq<i64>, target: int, m: Seq<i64>, i: int)
    requires
        amounts(c),
        amounts(m),
        c.len() == m.len(),
        0 <= i < c.len(),
        forall|j: int| 0 <= j < c.len() ==> #[trigger] m[j] <= c[j],
        0 < plain_sum(c, 0, c.len()) <= SMALL,
        0 < plain_sum(c, 0, c.len()) - target <= plain_slack(c, m, c.len()),
        0 <= target,
    ensures
        ({
            let slack = plain_slack(c, m, c.len());
            let over = plain_sum(c, 0, c.len()) - target;
            let r = fit_to(c, target, m)[i];
            -slack <= 2 * ((c[i] - r) * slack - over * (c[i] - m[i])) <= slack
        }),
{
    lemma_range_sum(c, 0, c.len());
    lemma_slack(c, m, c.len());
    let slack = plain_slack(c, m, c.len());
    let over = plain_sum(c, 0, c.len()) - target;
    let d = c[i] - m[i];
    assert(m[i] <= c[i] && 0 <= m[i] && c[i] <= LIMIT);
    let x = over * d;
    assert(0 <= x) by (nonlinear_arith)
        requires
            x == over * d,
            over > 0,
            d >= 0,
    ;
    law_rounding(x, slack);
    let q = round_div(x, slack);
    assert(0 <= q <= d) by (nonlinear_arith)
        requires
            -slack <= 2 * (q * slack - x) <= slack,
            x == over * d,
            0 < over <= slack,
            d >= 0,
            slack > 0,
            x >= 0,
    {
        assert(x <= slack * d) by (nonlinear_arith)
            requires
                x == over * d,
                0 < over <= slack,
                d >= 0,
        ;
        if q >= d + 1 {
            assert(q * slack >= d * slack + slack) by (nonlinear_arith)
                requires
                    q >= d + 1,
                    slack > 0,
            ;
            assert(d * slack == slack * d) by (nonlinear_arith);
        }
        if q <= -1 {
            assert(q * slack <= -slack) by (nonlinear_arith)
                requires
                    q <= -1,
                    slack > 0,
            ;
        }
    }
    assert((c[i] - (c[i] - q)) * slack == q * slack);
}

/// Where all columns of a merged table declare a width they fill it in proportion; where some
/// do not these share the rest.
pub proof fn law_merged_columns_fill_the_table(w: Seq<Option<i64>>, avail: int, i: int)
    requires
        0 <= i < w.len(),
        0 <= avail <= SMALL,
    ensures
        undeclared(w, w.len()) > 0 ==> collapsed_tracks(w, avail) == shared(w, avail),
        undeclared(w, w.len()) == 0 && 0 < declared_sum(w, w.len()) <= SMALL ==> (
        w[i] matches Some(x) ==> (0 <= x <= declared_sum(w, w.len()) ==> {
            let all = declared_sum(w, w.len());
            -all <= 2 * (collapsed_tracks(w, avail)[i] * all - x * avail) <= all
        })),
{
    let all = declared_sum(w, w.len());
    if let Some(x) = w[i] {
        if undeclared(w, w.len()) == 0 && 0 < all <= SMALL && 0 <= x <= all {
            let p = x * avail;
            assert(0 <= p) by (nonlinear_arith)
                requires
                    p == x * avail,
                    0 <= x,
                    0 <= avail,
            ;
            law_rounding(p, all);
            let q = round_div(p, all);
            assert(-LIMIT <= q <= LIMIT) by (nonlinear_arith)
                requires
                    -all <= 2 * (q * all - p) <= all,
                    p == x * avail,
                    0 <= x <= all,
                    0 <= avail <= SMALL,
                    all > 0,
                    p >= 0,
                    SMALL + 1 <= LIMIT,
            ;
        }
    }
}

/// The columns of a merged table fill what its lines leave of its width.
pub proof fn law_merged_tracks_leave_room_for_lines(c: CellsV, n: nat, cw: int, table: Edges)
    requires
        0 <= cw <= SMALL,
        0 <= total_of(vertical_lines(c.slots, c.borders, n, table)) <= cw - 1_000_000,
    ensures
        merged_tracks(c, n, cw, table) == collapsed_tracks(
            first_row_tracks(c.slots, c.tracks, n, c.slots.len()),
            cw - total_of(vertical_lines(c.slots, c.borders, n, table)),
        ),
        merged_columns(c, n, cw, table).tracks == merged_tracks(c, n, cw, table),
{
    reveal(merged_columns);
}

/// A cell of the first row that declares a width gives it to its open columns in equal parts
/// and closes them; one that does not widens them to an equal part of its content.
pub proof fn law_least_tracks(t: MinTracks, s: Slot, declared: Option<i64>, content: int, i: int)
    requires
        0 <= i < t.width.len() == t.fixed.len(),
        s.colspan >= 1,
        0 <= content <= SMALL,
        declared matches Some(x) ==> 0 <= x <= SMALL,
        0 <= t.width[i] <= SMALL,
    ensures
        ({
            let r = min_track_step(t, s, declared, content);
            let here = s.col <= i < s.col + s.colspan;
            &&& !here || t.fixed[i] ==> r.width[i] == t.width[i]
            &&& !here ==> r.fixed[i] == t.fixed[i]
            &&& t.fixed[i] ==> r.fixed[i]
            &&& here && !t.fixed[i] ==> (declared matches Some(x) ==> r.fixed[i] && -s.colspan <= 2 * (
            r.width[i] * s.colspan - x) <= s.colspan)
            &&& here && !t.fixed[i] && declared is None ==> !r.fixed[i] && r.width[i] >= t.width[i]
                && 2 * (r.width[i] * s.colspan - content) >= -s.colspan && (r.width[i] == t.width[i]
                || 2 * (r.width[i] * s.colspan - content) <= s.colspan)
        }),
{
    let d = s.colspan as int;
    let v = match declared {
        Some(x) => x as int,
        None => content,
    };
    law_rounding(v, d);
    let q = round_div(v, d);
    assert(-LIMIT <= q <= LIMIT) by (nonlinear_arith)
        requires
            -d <= 2 * (q * d - v) <= d,
            0 <= v <= SMALL,
            d >= 1,
            SMALL + 1 <= LIMIT,
    ;
    assert(v * 1 == v);
    let r = min_track_step(t, s, declared, content);
    if s.col <= i < s.col + s.colspan && !t.fixed[i] && declared is None {
        if q >= t.width[i] {
            assert(r.width[i] == q);
        } else {
            assert(r.width[i] == t.width[i]);
            assert(t.width[i] * d >= q * d) by (nonlinear_arith)
                requires
                    q < t.width[i],
                    d >= 1,
            ;
        }
    }
}

/// Only cells of the first row count for the least tracks.
pub proof fn law_least_tracks_by_the_first_row(
    v: Seq<Slot>,
    declared: Seq<Option<i64>>,
    content: Seq<i64>,
    n: nat,
    k: nat,
)
    requires
        0 < k <= v.len(),
    ensures
        v[k - 1].row != 0 ==> min_tracks(v, declared, content, n, k) == min_tracks(
            v,
            declared,
            content,
            n,
            (k - 1) as nat,
        ),
        v[k - 1].row == 0 ==> min_tracks(v, declared, content, n, k) == min_track_step(
            min_tracks(v, declared, content, n, (k - 1) as nat),
            v[k - 1],
            declared[k - 1],
            content[k - 1] as int,
        ),
{
}

} // verus!
