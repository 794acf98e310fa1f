//! Laying a table out in two steps: the width of every cell first, and, once each
//! cell has been laid out at its width, the places of all of them.

use vstd::prelude::*;

use crate::layout::fragment::{frags_view, Fragment};
use crate::layout::grid_slots::{within, Slot};
use crate::layout::length::{Edges, Viewport};
use crate::layout::table::{rows_view, sum_all, total_of, RowRef, RowV};
use crate::layout::table_place::{
    border_spacing, collapsed_tracks, finalize, finished_rows, first_row_tracks,
    fixed_collapse_columns, fixed_min_cp, hborders, heights_of, horizontal_lines, in_tracks,
    laid_view, line_center, line_centers, min_tracks, offset_of, row_heights, rows_within,
    spaced_offsets, spacing_in, spans_divide, vborders, vertical_lines, Geom, GeomV, LaidCell,
    LaidV,
};
use crate::layout::table_widths::{
    collapsed, column_widths, columns_of, has_collapsed_borders, has_fixed_layout, is_fixed,
    min_columns, widest,
};
use crate::number::{clip, diff, greatest, least, max_of, minus, plus, scale, scaled, sum, ONE};
use crate::style::{ComputedStyle, StyleMap};

verus! {

/// What is known of each cell before it is laid out, in slot order.
#[derive(Debug)]
pub struct Cells {
    pub slots: Vec<Slot>,
    /// The declared border-box width.
    pub declared: Vec<Option<i64>>,
    /// The declared width without borders.
    pub tracks: Vec<Option<i64>>,
    /// The width on one line.
    pub natural: Vec<i64>,
    /// The width broken as far as it goes.
    pub min: Vec<i64>,
    /// The border widths.
    pub borders: Vec<Edges>,
}

impl CellsV {
    /// Whether there is one entry of each kind for every slot, all within the
    /// grid.
    pub open spec fn wf(self, ncols: int, nrows: int) -> bool {
        &&& within(self.slots, ncols)
        &&& rows_within(self.slots, nrows)
        &&& spans_divide(self.slots)
        &&& self.declared.len() == self.slots.len()
        &&& self.tracks.len() == self.slots.len()
        &&& self.natural.len() == self.slots.len()
        &&& self.min.len() == self.slots.len()
        &&& self.borders.len() == self.slots.len()
        &&& ncols < i64::MAX && ncols < usize::MAX
        &&& nrows < i64::MAX && nrows < usize::MAX
    }
}

/// The mathematical reading of [`Cells`].
pub struct CellsV {
    pub slots: Seq<Slot>,
    pub declared: Seq<Option<i64>>,
    pub tracks: Seq<Option<i64>>,
    pub natural: Seq<i64>,
    pub min: Seq<i64>,
    pub borders: Seq<Edges>,
}

impl View for Cells {
    type V = CellsV;

    open spec fn view(&self) -> CellsV {
        CellsV {
            slots: self.slots@,
            declared: self.declared@,
            tracks: self.tracks@,
            natural: self.natural@,
            min: self.min@,
            borders: self.borders@,
        }
    }
}

/// Whether the borders of a table are merged on one grid: fixed layout with
/// collapsed borders.
pub open spec fn merges_borders(m: StyleMap) -> bool {
    has_fixed_layout(m) && has_collapsed_borders(m)
}

pub fn merged(style: &ComputedStyle) -> (r: bool)
    ensures
        r == merges_borders(style@),
{
    is_fixed(style) && collapsed(style)
}

/// `n + 1` gaps.
pub open spec fn gaps(gap: int, n: int) -> int {
    scaled(gap, n + 1, 1)
}

fn all_gaps(gap: i64, n: usize) -> (r: i64)
    requires
        n < i64::MAX,
    ensures
        r == gaps(gap as int, n as int),
{
    scale(gap, n as i64 + 1, 1)
}

// --------------------------------------------------------------------------
// separate borders
// --------------------------------------------------------------------------

/// The columns of a table with separate borders, of content width `cw`.
#[verifier::opaque]
pub open spec fn separate_columns(m: StyleMap, c: CellsV, ncols: nat, cw: int, vp: Viewport) -> Seq<i64> {
    let inner = greatest(diff(cw, gaps(spacing_in(m, vp).0, ncols as int)), ONE as int);
    columns_of(m, c.slots, ncols, inner as i64, c.declared, c.natural, c.min, vp)
}

/// The columns of a table with separate borders.
pub fn columns_separate(style: &ComputedStyle, c: &Cells, ncols: usize, nrows: usize, cw: i64, vp: Viewport) -> (r:
    Vec<i64>)
    requires
        c@.wf(ncols as int, nrows as int),
    ensures
        r@ == separate_columns(style@, c@, ncols as nat, cw as int, vp),
        r@.len() == ncols,
{
    proof {
        reveal(separate_columns);
    }
    let (hs, _) = border_spacing(style, vp);
    let inner: i64 = max_of(minus(cw, all_gaps(hs, ncols)), ONE);
    column_widths(style, &c.slots, ncols, inner, &c.declared, &c.natural, &c.min, vp)
}

pub open spec fn frag_heights(l: Seq<LaidV>) -> Seq<int> {
    l.map_values(|c: LaidV| c.frag.height)
}

pub open spec fn floors_of(rows: Seq<RowV>) -> Seq<i64> {
    rows.map_values(|r: RowV| r.min_height as i64)
}

fn laid_heights(l: &Vec<LaidCell>) -> (r: Vec<i64>)
    ensures
        r@.len() == l@.len(),
        forall|i: int| 0 <= i < r@.len() ==> #[trigger] r@[i] == l@[i].frag.height,
{
    let mut out: Vec<i64> = Vec::new();
    let mut k: usize = 0;
    while k < l.len()
        invariant
            k <= l@.len(),
            out@.len() == k,
            forall|i: int| 0 <= i < k ==> #[trigger] out@[i] == l@[i].frag.height,
        decreases l@.len() - k,
    {
        out.push(l[k].frag.height);
        k += 1;
    }
    out
}

fn row_floors(rows: &Vec<RowRef>) -> (r: Vec<i64>)
    ensures
        r@ == floors_of(rows_view(rows@)),
{
    let mut out: Vec<i64> = Vec::new();
    let mut k: usize = 0;
    while k < rows.len()
        invariant
            k <= rows@.len(),
            out@.len() == k,
            forall|i: int| 0 <= i < k ==> #[trigger] out@[i] == rows@[i].min_height,
        decreases rows@.len() - k,
    {
        out.push(rows[k].min_height);
        k += 1;
    }
    proof {
        assert(out@ =~= floors_of(rows_view(rows@)));
    }
    out
}

/// The cells laid out are those of the slots, in order.
pub open spec fn laid_for(l: Seq<LaidCell>, v: Seq<Slot>) -> bool {
    &&& l.len() == v.len()
    &&& forall|i: int| 0 <= i < l.len() ==> (#[trigger] l[i]).slot == v[i]
}

/// The tracks of a table with separate borders whose cells are laid out.
pub open spec fn separate_geom(
    m: StyleMap,
    cols: Seq<i64>,
    v: Seq<Slot>,
    rows: Seq<RowV>,
    laid: Seq<LaidV>,
    vp: Viewport,
) -> GeomV {
    let (hs, vs) = spacing_in(m, vp);
    let row_h = heights_of(v, frag_heights(laid).map_values(|h: int| h as i64), floors_of(rows));
    GeomV {
        col_x: Seq::new(cols.len(), |i: int| offset_of(cols, hs, i as nat) as i64),
        row_y: Seq::new(row_h.len(), |i: int| offset_of(row_h, vs, i as nat) as i64),
        row_h,
        table_w: sum(total_of(cols), gaps(hs, cols.len() as int)),
    }
}

/// The height of a table with separate borders: its rows and the gaps around
/// them.
pub open spec fn separate_height(m: StyleMap, g: GeomV, vp: Viewport) -> int {
    sum(total_of(g.row_h), gaps(spacing_in(m, vp).1, g.row_h.len() as int))
}

/// Put the laid-out cells of a table with separate borders in place; the rows and
/// the table's content height.
pub fn finish_separate(
    style: &ComputedStyle,
    rows: &Vec<RowRef>,
    c: &Cells,
    cols: &Vec<i64>,
    laid: Vec<LaidCell>,
    cx: i64,
    cy: i64,
    vp: Viewport,
) -> (r: (Vec<Fragment>, i64))
    requires
        c@.wf(cols@.len() as int, rows@.len() as int),
        laid_for(laid@, c.slots@),
    ensures
        ({
            let g = separate_geom(
                style@,
                cols@,
                c.slots@,
                rows_view(rows@),
                laid_view(laid@),
                vp,
            );
            &&& frags_view(r.0@) == finished_rows(
                rows_view(rows@),
                laid_view(laid@),
                g,
                cx as int,
                cy as int,
            )
            &&& r.1 == separate_height(style@, g, vp)
        }),
{
    let (hs, vs) = border_spacing(style, vp);
    let heights = laid_heights(&laid);
    let floors = row_floors(rows);
    let row_h = row_heights(&c.slots, &heights, &floors);
    let n: usize = row_h.len();
    let ghost lv = laid_view(laid@);
    proof {
        assert(heights@ =~= frag_heights(lv).map_values(|h: int| h as i64));
    }
    let g = Geom {
        col_x: spaced_offsets(cols, hs),
        row_y: spaced_offsets(&row_h, vs),
        table_w: plus(sum_all(cols), all_gaps(hs, cols.len())),
        row_h,
    };
    let height: i64 = plus(sum_all(&g.row_h), all_gaps(vs, n));
    proof {
        let want = separate_geom(style@, cols@, c.slots@, rows_view(rows@), lv, vp);
        assert(g.col_x@ =~= want.col_x);
        assert(g.row_y@ =~= want.row_y);
        assert(g@ == want);
        assert forall|i: int| 0 <= i < laid@.len() implies in_tracks(
            (#[trigger] laid@[i]).slot,
            g@,
        ) by {
            assert(c.slots@[i].col + c.slots@[i].colspan <= cols@.len());
            assert(c.slots@[i].row + c.slots@[i].rowspan <= rows@.len());
        }
    }
    (finalize(rows, laid, &g, cx, cy), height)
}

// --------------------------------------------------------------------------
// merged borders
// --------------------------------------------------------------------------

/// The columns of a table with merged borders: their tracks, the lines around
/// them, and the middles of those lines.
#[derive(Debug)]
pub struct Merged {
    pub tracks: Vec<i64>,
    pub lines: Vec<i64>,
    pub centers: Vec<i64>,
}

/// The mathematical reading of [`Merged`].
pub struct MergedV {
    pub tracks: Seq<i64>,
    pub lines: Seq<i64>,
    pub centers: Seq<i64>,
}

impl View for Merged {
    type V = MergedV;

    open spec fn view(&self) -> MergedV {
        MergedV { tracks: self.tracks@, lines: self.lines@, centers: self.centers@ }
    }
}

/// The tracks of a table with merged borders, of content width `cw`.
pub open spec fn merged_tracks(c: CellsV, ncols: nat, cw: int, table: Edges) -> Seq<i64> {
    let lines = vertical_lines(c.slots, c.borders, ncols, table);
    collapsed_tracks(
        first_row_tracks(c.slots, c.tracks, ncols, c.slots.len()),
        greatest(diff(cw, total_of(lines)), ONE as int),
    )
}

/// The columns of a table with merged borders.
#[verifier::opaque]
pub open spec fn merged_columns(c: CellsV, ncols: nat, cw: int, table: Edges) -> MergedV {
    let lines = vertical_lines(c.slots, c.borders, ncols, table);
    let tracks = merged_tracks(c, ncols, cw, table);
    MergedV {
        tracks,
        lines,
        centers: Seq::new(ncols + 1, |i: int| line_center(tracks, lines, i as nat) as i64),
    }
}

/// The columns of a table with merged borders.
pub fn columns_merged(c: &Cells, ncols: usize, nrows: usize, cw: i64, table: Edges) -> (r: Merged)
    requires
        c@.wf(ncols as int, nrows as int),
    ensures
        r@ == merged_columns(c@, ncols as nat, cw as int, table),
        r.tracks@.len() == ncols,
        r.lines@.len() == ncols + 1,
        r.centers@.len() == ncols + 1,
{
    proof {
        reveal(merged_columns);
    }
    let lines = vborders(&c.slots, &c.borders, ncols, table);
    let avail: i64 = max_of(minus(cw, sum_all(&lines)), ONE);
    let tracks = fixed_collapse_columns(&c.slots, &c.tracks, ncols, avail);
    let centers = line_centers(&tracks, &lines);
    proof {
        assert(centers@ =~= merged_columns(c@, ncols as nat, cw as int, table).centers);
    }
    Merged { tracks, lines, centers }
}

/// A cell's border box: from the middle of its first line to that of its last.
pub open spec fn merged_extent(centers: Seq<i64>, s: Slot) -> int {
    diff(centers[s.col + s.colspan] as int, centers[s.col as int] as int)
}

/// The width to lay a cell of merged borders out at: its content region and its
/// own borders.
pub open spec fn merged_width(centers: Seq<i64>, lines: Seq<i64>, s: Slot, own: int) -> int {
    let half = sum(
        scaled(lines[s.col as int] as int, 1, 2),
        scaled(lines[s.col + s.colspan] as int, 1, 2),
    );
    greatest(sum(diff(merged_extent(centers, s), half), own), 0)
}

/// The border box of a cell with merged borders, and the width to lay it out at,
/// `own` being the widths of its own left and right borders.
pub fn merged_cell(m: &Merged, s: Slot, own: i64) -> (r: (i64, i64))
    requires
        s.col + s.colspan < m.centers@.len(),
        m.lines@.len() == m.centers@.len(),
    ensures
        r.0 == merged_extent(m.centers@, s),
        r.1 == merged_width(m.centers@, m.lines@, s, own as int),
{
    let count: usize = m.centers.len();
    let end: usize = s.col + s.colspan;
    let extent: i64 = minus(m.centers[end], m.centers[s.col]);
    let half: i64 = plus(scale(m.lines[s.col], 1, 2), scale(m.lines[end], 1, 2));
    (extent, max_of(plus(minus(extent, half), own), 0))
}

/// The content heights of laid-out cells, without their borders.
pub open spec fn content_heights(laid: Seq<LaidV>, b: Seq<Edges>) -> Seq<i64> {
    Seq::new(
        laid.len(),
        |i: int|
            greatest(diff(laid[i].frag.height, clip(b[i].top + b[i].bottom)), 0) as i64,
    )
}

/// The distances between neighbouring middles.
pub open spec fn between(centers: Seq<i64>) -> Seq<i64> {
    Seq::new(
        (centers.len() - 1) as nat,
        |i: int| diff(centers[i + 1] as int, centers[i] as int) as i64,
    )
}

/// The row tracks of a table with merged borders whose cells are laid out.
pub open spec fn merged_rows(c: CellsV, rows: Seq<RowV>, laid: Seq<LaidV>) -> Seq<i64> {
    heights_of(c.slots, content_heights(laid, c.borders), floors_of(rows))
}

/// The tracks of a table with merged borders whose cells are laid out.
pub open spec fn merged_geom(
    c: CellsV,
    m: MergedV,
    rows: Seq<RowV>,
    laid: Seq<LaidV>,
    table: Edges,
) -> GeomV {
    let tracks = merged_rows(c, rows, laid);
    let lines = horizontal_lines(c.slots, c.borders, rows.len(), table);
    let ys = Seq::new(rows.len() + 1, |i: int| line_center(tracks, lines, i as nat) as i64);
    GeomV {
        col_x: m.centers.take(m.tracks.len() as int),
        row_y: ys.take(rows.len() as int),
        row_h: between(ys),
        table_w: sum(total_of(m.tracks), total_of(m.lines)),
    }
}

fn take_of(v: &Vec<i64>, n: usize) -> (r: Vec<i64>)
    requires
        n <= v@.len(),
    ensures
        r@ == v@.take(n as int),
{
    let mut out: Vec<i64> = Vec::new();
    let mut k: usize = 0;
    while k < n
        invariant
            k <= n <= v@.len(),
            out@ == v@.take(k as int),
        decreases n - k,
    {
        proof {
            assert(v@.take(k as int + 1) =~= v@.take(k as int).push(v@[k as int]));
        }
        out.push(v[k]);
        k += 1;
    }
    out
}

fn distances(v: &Vec<i64>) -> (r: Vec<i64>)
    requires
        v@.len() > 0,
    ensures
        r@ == between(v@),
{
    let n: usize = v.len();
    let mut out: Vec<i64> = Vec::new();
    let mut k: usize = 0;
    while k + 1 < n
        invariant
            n == v@.len(),
            k + 1 <= n,
            out@.len() == k,
            forall|i: int| 0 <= i < k ==> #[trigger] out@[i] == diff(v@[i + 1] as int, v@[i] as int),
        decreases n - k,
    {
        out.push(minus(v[k + 1], v[k]));
        k += 1;
    }
    proof {
        assert(out@ =~= between(v@));
    }
    out
}

/// Put the laid-out cells of a table with merged borders in place; the rows and
/// the table's content height.
pub fn finish_merged(
    rows: &Vec<RowRef>,
    c: &Cells,
    m: &Merged,
    laid: Vec<LaidCell>,
    table: Edges,
    cx: i64,
    cy: i64,
) -> (r: (Vec<Fragment>, i64))
    requires
        c@.wf(m.tracks@.len() as int, rows@.len() as int),
        m.centers@.len() == m.tracks@.len() + 1,
        laid_for(laid@, c.slots@),
    ensures
        ({
            let g = merged_geom(c@, m@, rows_view(rows@), laid_view(laid@), table);
            let lines = horizontal_lines(c.slots@, c.borders@, rows@.len(), table);
            &&& frags_view(r.0@) == finished_rows(
                rows_view(rows@),
                laid_view(laid@),
                g,
                cx as int,
                cy as int,
            )
            &&& r.1 == sum(
                total_of(merged_rows(c@, rows_view(rows@), laid_view(laid@))),
                total_of(lines),
            )
        }),
{
    let ghost rv = rows_view(rows@);
    let ghost lv = laid_view(laid@);
    let nrows: usize = rows.len();
    let lines = hborders(&c.slots, &c.borders, nrows, table);
    let mut heights: Vec<i64> = Vec::new();
    let mut k: usize = 0;
    while k < laid.len()
        invariant
            k <= laid@.len(),
            lv == laid_view(laid@),
            c.borders@.len() == laid@.len(),
            heights@.len() == k,
            forall|i: int|
                0 <= i < k ==> #[trigger] heights@[i] == content_heights(lv, c.borders@)[i],
        decreases laid@.len() - k,
    {
        proof {
            assert(lv[k as int] == laid@[k as int]@);
        }
        heights.push(max_of(minus(laid[k].frag.height, c.borders[k].vertical()), 0));
        k += 1;
    }
    proof {
        assert(heights@ =~= content_heights(lv, c.borders@));
    }
    let floors = row_floors(rows);
    let tracks = row_heights(&c.slots, &heights, &floors);
    let ys = line_centers(&tracks, &lines);
    let height: i64 = plus(sum_all(&tracks), sum_all(&lines));
    let g = Geom {
        col_x: take_of(&m.centers, m.tracks.len()),
        row_y: take_of(&ys, nrows),
        row_h: distances(&ys),
        table_w: plus(sum_all(&m.tracks), sum_all(&m.lines)),
    };
    proof {
        let want = merged_geom(c@, m@, rv, lv, table);
        let wys = Seq::new(
            rv.len() + 1,
            |i: int| line_center(tracks@, lines@, i as nat) as i64,
        );
        assert(ys@ =~= wys);
        assert(g@ == want);
        assert forall|i: int| 0 <= i < laid@.len() implies in_tracks(
            (#[trigger] laid@[i]).slot,
            g@,
        ) by {
            assert(c.slots@[i].col + c.slots@[i].colspan <= m.tracks@.len());
            assert(c.slots@[i].row + c.slots@[i].rowspan <= rows@.len());
        }
    }
    (finalize(rows, laid, &g, cx, cy), height)
}

// --------------------------------------------------------------------------
// the least width
// --------------------------------------------------------------------------

/// The widest of the first `k` cells that span several columns.
pub open spec fn widest_span(v: Seq<Slot>, w: Seq<i64>, k: nat) -> int
    decreases k,
{
    if k == 0 {
        0
    } else {
        let before = widest_span(v, w, (k - 1) as nat);
        if v[k - 1].colspan > 1 {
            greatest(before, w[k - 1] as int)
        } else {
            before
        }
    }
}

/// Each cell's least content width without its borders.
pub open spec fn inner_min(c: CellsV) -> Seq<i64> {
    Seq::new(
        c.slots.len(),
        |i: int|
            greatest(
                diff(c.min[i] as int, clip(c.borders[i].left + c.borders[i].right)),
                0,
            ) as i64,
    )
}

/// The least width of a table's content.
pub open spec fn least_width(m: StyleMap, c: CellsV, ncols: nat, table: Edges, vp: Viewport) -> int {
    if ncols == 0 {
        0
    } else if merges_borders(m) {
        sum(
            total_of(
                min_tracks(c.slots, c.tracks, inner_min(c), ncols, c.slots.len()).width,
            ),
            total_of(vertical_lines(c.slots, c.borders, ncols, table)),
        )
    } else {
        sum(
            greatest(
                total_of(widest(c.slots, c.min, ncols, c.slots.len())),
                widest_span(c.slots, c.min, c.slots.len()),
            ),
            gaps(spacing_in(m, vp).0, ncols as int),
        )
    }
}

/// The least width of a table: its columns at their least, no less than any cell
/// that spans several.
pub fn table_min_width(style: &ComputedStyle, c: &Cells, ncols: usize, nrows: usize, table: Edges, vp: Viewport) -> (r:
    i64)
    requires
        c@.wf(ncols as int, nrows as int),
    ensures
        r == least_width(style@, c@, ncols as nat, table, vp),
{
    if ncols == 0 {
        return 0;
    }
    if merged(style) {
        let mut inner: Vec<i64> = Vec::new();
        let mut k: usize = 0;
        while k < c.slots.len()
            invariant
                k <= c.slots@.len(),
                c.min@.len() == c.slots@.len(),
                c.borders@.len() == c.slots@.len(),
                inner@.len() == k,
                forall|i: int| 0 <= i < k ==> #[trigger] inner@[i] == inner_min(c@)[i],
            decreases c.slots@.len() - k,
        {
            inner.push(max_of(minus(c.min[k], c.borders[k].horizontal()), 0));
            k += 1;
        }
        proof {
            assert(inner@ =~= inner_min(c@));
        }
        let tracks = fixed_min_cp(&c.slots, &c.tracks, &inner, ncols);
        let lines = vborders(&c.slots, &c.borders, ncols, table);
        return plus(sum_all(&tracks), sum_all(&lines));
    }
    let (hs, _) = border_spacing(style, vp);
    let cols = min_columns(&c.slots, &c.min, ncols);
    let mut span: i64 = 0;
    let mut i: usize = 0;
    while i < c.slots.len()
        invariant
            i <= c.slots@.len(),
            c.min@.len() == c.slots@.len(),
            span == widest_span(c.slots@, c.min@, i as nat),
        decreases c.slots@.len() - i,
    {
        if c.slots[i].colspan > 1 {
            span = max_of(span, c.min[i]);
        }
        i += 1;
    }
    plus(max_of(sum_all(&cols), span), all_gaps(hs, ncols))
}

} // verus!
