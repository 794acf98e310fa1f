//! Table geometry: rows, column widths, row heights, and cell places.
//!
//! How wide a cell's content is and how tall it turns out at a given width come
//! from laying the cell out, so those enter as arguments.

use vstd::prelude::*;

use crate::layout::boxgen::{
    box_view, boxes_view, lemma_kind_children, BoxKind, BoxV, KindV, LayoutBox,
};
use crate::layout::fragment::{NodeId, RepeatKind};
use crate::layout::grid_slots::{attr_usize, span_in, Spans};
use crate::layout::length::{parse_px, px_of, Viewport, DEFAULT_FONT_SIZE};
use crate::layout::value::Display;
use crate::number::{greatest, max_of, plus, sum};
use crate::style::{prop, StyleMap};

verus! {

// --------------------------------------------------------------------------
// rows
// --------------------------------------------------------------------------

/// One table row: its cells, the floor of its height, and whether it repeats.
pub struct RowRef<'a> {
    pub node_id: NodeId,
    pub cells: Vec<&'a LayoutBox>,
    pub min_height: i64,
    pub repeat: Option<RepeatKind>,
}

/// The mathematical reading of a [`RowRef`].
pub struct RowV {
    pub id: int,
    pub cells: Seq<BoxV>,
    pub min_height: int,
    pub repeat: Option<RepeatKind>,
}

pub open spec fn refs_view(v: Seq<&LayoutBox>) -> Seq<BoxV> {
    v.map_values(|b: &LayoutBox| box_view(*b))
}

impl<'a> View for RowRef<'a> {
    type V = RowV;

    open spec fn view(&self) -> RowV {
        RowV {
            id: self.node_id.0 as int,
            cells: refs_view(self.cells@),
            min_height: self.min_height as int,
            repeat: self.repeat,
        }
    }
}

pub open spec fn rows_view(v: Seq<RowRef>) -> Seq<RowV> {
    v.map_values(|r: RowRef| r@)
}

/// The block children of a box that is a block container, else none.
pub open spec fn block_kids(b: BoxV) -> Seq<BoxV> {
    match b.kind {
        KindV::Block(v) => v,
        _ => Seq::empty(),
    }
}

/// The children of a row or a row group.
pub fn cells_of<'a>(row: &'a LayoutBox) -> (r: Vec<&'a LayoutBox>)
    ensures
        refs_view(r@) == block_kids(box_view(*row)),
{
    proof {
        lemma_kind_children(row.kind);
    }
    let mut out: Vec<&'a LayoutBox> = Vec::new();
    if let BoxKind::Block(cells) = &row.kind {
        let ghost want = boxes_view(cells@);
        let mut i: usize = 0;
        proof {
            assert(refs_view(out@) =~= want.take(0));
        }
        while i < cells.len()
            invariant
                i <= cells@.len(),
                want == boxes_view(cells@),
                refs_view(out@) == want.take(i as int),
            decreases cells@.len() - i,
        {
            proof {
                assert(want.take(i as int + 1) =~= want.take(i as int).push(want[i as int]));
                assert(refs_view(out@.push(&cells@[i as int])) =~= refs_view(out@).push(
                    want[i as int],
                ));
            }
            out.push(&cells[i]);
            i += 1;
        }
        proof {
            assert(want.take(i as int) =~= want);
        }
    } else {
        proof {
            assert(refs_view(out@) =~= Seq::empty());
        }
    }
    out
}

pub open spec fn repeat_of(d: Display) -> Option<RepeatKind> {
    match d {
        Display::TableHeaderGroup => Some(RepeatKind::Header),
        Display::TableFooterGroup => Some(RepeatKind::Footer),
        _ => None,
    }
}

/// Whether the rows of a group repeat on every page of their table.
pub fn group_repeat(d: Display) -> (r: Option<RepeatKind>)
    ensures
        r == repeat_of(d),
{
    match d {
        Display::TableHeaderGroup => Some(RepeatKind::Header),
        Display::TableFooterGroup => Some(RepeatKind::Footer),
        _ => None,
    }
}

/// The floor of a row's height: its own height, no less than zero.
pub open spec fn row_floor(m: StyleMap, vp: Viewport) -> int {
    match prop(m, "height"@) {
        Some(v) => match px_of(v, DEFAULT_FONT_SIZE as int, vp) {
            Some(h) => greatest(h, 0),
            None => 0,
        },
        None => 0,
    }
}

pub fn row_min_height(row: &LayoutBox, vp: Viewport) -> (r: i64)
    ensures
        r == row_floor(row.style@, vp),
{
    match row.style.get("height") {
        Some(v) => match parse_px(v, DEFAULT_FONT_SIZE, vp) {
            Some(h) => max_of(h, 0),
            None => 0,
        },
        None => 0,
    }
}

/// One row of the table.
pub open spec fn row_of(b: BoxV, repeat: Option<RepeatKind>, vp: Viewport) -> RowV {
    RowV {
        id: b.id,
        cells: block_kids(b),
        min_height: row_floor(b.style, vp),
        repeat,
    }
}

/// The rows of a group, all repeating alike.
pub open spec fn group_rows(g: BoxV, vp: Viewport) -> Seq<RowV> {
    block_kids(g).map_values(|b: BoxV| row_of(b, repeat_of(g.display), vp))
}

/// The rows of the first `k` children: rows as they are, groups row by row.
pub open spec fn rows_in(items: Seq<BoxV>, vp: Viewport, k: nat) -> Seq<RowV>
    decreases k,
{
    if k == 0 || k > items.len() {
        Seq::empty()
    } else {
        let before = rows_in(items, vp, (k - 1) as nat);
        let b = items[k - 1];
        if b.display == Display::TableRow {
            before.push(row_of(b, None, vp))
        } else {
            before + group_rows(b, vp)
        }
    }
}

fn row_ref<'a>(row: &'a LayoutBox, repeat: Option<RepeatKind>, vp: Viewport) -> (r: RowRef<'a>)
    ensures
        r@ == row_of(box_view(*row), repeat, vp),
{
    RowRef {
        node_id: row.node_id,
        cells: cells_of(row),
        min_height: row_min_height(row, vp),
        repeat,
    }
}

/// The rows of a table, in order.
pub fn collect_rows<'a>(items: &'a Vec<LayoutBox>, vp: Viewport) -> (r: Vec<RowRef<'a>>)
    ensures
        rows_view(r@) == rows_in(boxes_view(items@), vp, items@.len()),
{
    let ghost iv = boxes_view(items@);
    let mut out: Vec<RowRef<'a>> = Vec::new();
    let mut k: usize = 0;
    proof {
        assert(rows_view(out@) =~= Seq::empty());
    }
    while k < items.len()
        invariant
            k <= items@.len(),
            iv == boxes_view(items@),
            rows_view(out@) == rows_in(iv, vp, k as nat),
        decreases items@.len() - k,
    {
        let child = &items[k];
        proof {
            assert(iv[k as int] == box_view(*child));
        }
        if child.display == Display::TableRow {
            let r = row_ref(child, None, vp);
            proof {
                assert(rows_view(out@.push(r)) =~= rows_view(out@).push(r@));
            }
            out.push(r);
        } else {
            let repeat = group_repeat(child.display);
            let rows = cells_of(child);
            let ghost before = rows_view(out@);
            let ghost want = group_rows(iv[k as int], vp);
            let mut j: usize = 0;
            proof {
                assert(before + want.take(0) =~= before);
            }
            while j < rows.len()
                invariant
                    j <= rows@.len(),
                    repeat == repeat_of(iv[k as int].display),
                    refs_view(rows@) == block_kids(iv[k as int]),
                    want == group_rows(iv[k as int], vp),
                    rows_view(out@) == before + want.take(j as int),
                decreases rows@.len() - j,
            {
                let r = row_ref(rows[j], repeat, vp);
                proof {
                    assert(refs_view(rows@)[j as int] == box_view(*rows@[j as int]));
                    assert(want[j as int] == r@);
                    assert(want.take(j as int + 1) =~= want.take(j as int).push(r@));
                    assert(rows_view(out@.push(r)) =~= rows_view(out@).push(r@));
                    assert(before + want.take(j as int).push(r@) =~= (before + want.take(
                        j as int,
                    )).push(r@));
                }
                out.push(r);
                j += 1;
            }
            proof {
                assert(want.take(j as int) =~= want);
            }
        }
        k += 1;
    }
    out
}

/// The spans of a cell.
pub open spec fn spans_in(b: BoxV) -> Spans {
    Spans { cols: span_in(b.attrs, "colspan"@), rows: span_in(b.attrs, "rowspan"@) }
}

/// The spans of every cell, row by row.
pub fn row_spans(rows: &Vec<RowRef>) -> (r: Vec<Vec<Spans>>)
    ensures
        r@.len() == rows@.len(),
        forall|i: int|
            0 <= i < r@.len() ==> (#[trigger] r@[i])@ == rows@[i]@.cells.map_values(
                |b: BoxV| spans_in(b),
            ),
{
    let mut out: Vec<Vec<Spans>> = Vec::new();
    let mut i: usize = 0;
    while i < rows.len()
        invariant
            i <= rows@.len(),
            out@.len() == i,
            forall|x: int|
                0 <= x < i ==> (#[trigger] out@[x])@ == rows@[x]@.cells.map_values(
                    |b: BoxV| spans_in(b),
                ),
        decreases rows@.len() - i,
    {
        let row = &rows[i];
        let ghost want = row@.cells.map_values(|b: BoxV| spans_in(b));
        let mut spans: Vec<Spans> = Vec::new();
        let mut j: usize = 0;
        while j < row.cells.len()
            invariant
                j <= row.cells@.len(),
                want == row@.cells.map_values(|b: BoxV| spans_in(b)),
                spans@.len() == j,
                forall|x: int| 0 <= x < j ==> spans@[x] == want[x],
            decreases row.cells@.len() - j,
        {
            let cell = row.cells[j];
            let s = Spans {
                cols: attr_usize(&cell.attrs, "colspan"),
                rows: attr_usize(&cell.attrs, "rowspan"),
            };
            proof {
                assert(want[j as int] == s);
            }
            spans.push(s);
            j += 1;
        }
        proof {
            assert(spans@ =~= want);
        }
        out.push(spans);
        i += 1;
    }
    out
}

// --------------------------------------------------------------------------
// sums
// --------------------------------------------------------------------------

/// The sum of the `n` entries from `a` on.
pub open spec fn range_sum(v: Seq<i64>, a: int, n: nat) -> int
    decreases n,
{
    if n == 0 {
        0
    } else {
        sum(range_sum(v, a, (n - 1) as nat), v[a + n - 1] as int)
    }
}

pub open spec fn total_of(v: Seq<i64>) -> int {
    range_sum(v, 0, v.len())
}

/// The sum of the entries of a span.
pub fn spanned(v: &Vec<i64>, a: usize, n: usize) -> (r: i64)
    requires
        a + n <= v@.len(),
    ensures
        r == range_sum(v@, a as int, n as nat),
{
    let end: usize = v.len();
    let mut acc: i64 = 0;
    let mut k: usize = 0;
    while k < n
        invariant
            end == v@.len(),
            a + n <= end,
            k <= n,
            acc == range_sum(v@, a as int, k as nat),
        decreases n - k,
    {
        acc = plus(acc, v[a + k]);
        k += 1;
    }
    acc
}

pub fn sum_all(v: &Vec<i64>) -> (r: i64)
    ensures
        r == total_of(v@),
{
    spanned(v, 0, v.len())
}

pub fn filled(n: usize, x: i64) -> (r: Vec<i64>)
    ensures
        r@ == Seq::new(n as nat, |i: int| x),
{
    let mut v: Vec<i64> = Vec::new();
    let mut i: usize = 0;
    while i < n
        invariant
            i <= n,
            v@.len() == i,
            forall|j: int| 0 <= j < i ==> v@[j] == x,
        decreases n - i,
    {
        v.push(x);
        i += 1;
    }
    proof {
        assert(v@ =~= Seq::new(n as nat, |i: int| x));
    }
    v
}

pub open spec fn zeros(n: nat) -> Seq<i64> {
    Seq::new(n, |i: int| 0i64)
}

} // verus!
