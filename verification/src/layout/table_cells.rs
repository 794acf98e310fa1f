//! What a table knows of its cells before any of them is laid out.

use vstd::prelude::*;

use crate::image::ImageResolver;
use crate::layout::boxgen::{box_view, BoxV, LayoutBox};
use crate::layout::grid_slots::{
    build_grid, fits, grid_fits, grid_of, law_grid_is_sound, place_cells, spans_view, within, Slot,
    Spans,
};
use crate::layout::length::{Edges, Viewport};
use crate::layout::measure::{
    min_content, min_content_width, natural, natural_width, sources, Sources, TextWidth,
};
use crate::layout::table::{
    block_kids, refs_view, row_spans, rows_in, rows_view, spans_in, RowRef, RowV,
};
use crate::layout::table_layout::{Cells, CellsV};
use crate::layout::table_place::{rows_within, spans_divide};
use crate::layout::table_widths::{
    border_of, cell_border, declared_track, declared_width, explicit_cp, explicit_width,
};
use crate::layout::value::Display;

verus! {

/// The spans of all cells, row by row.
pub open spec fn all_spans(rows: Seq<RowV>) -> Seq<Seq<Spans>> {
    rows.map_values(|r: RowV| r.cells.map_values(|b: BoxV| spans_in(b)))
}

/// Whether the grid of a table can be counted.
pub open spec fn table_fits(rows: Seq<RowV>) -> bool {
    &&& rows.len() < i64::MAX && rows.len() < usize::MAX
    &&& grid_fits(all_spans(rows))
    &&& grid_of(all_spans(rows), rows.len()).1 < i64::MAX
    &&& grid_of(all_spans(rows), rows.len()).1 < usize::MAX
}

/// The slots of a table, a span past the last row ending there.
pub open spec fn slots_of(rows: Seq<RowV>) -> Seq<Slot> {
    grid_of(all_spans(rows), rows.len()).0.map_values(
        |s: Slot|
            Slot {
                rowspan: if s.rowspan <= rows.len() - s.row {
                    s.rowspan
                } else {
                    (rows.len() - s.row) as usize
                },
                ..s
            },
    )
}

/// The cell in a slot.
pub open spec fn cell_in(rows: Seq<RowV>, s: Slot) -> BoxV {
    rows[s.row as int].cells[s.cell as int]
}

/// What is known of the cells of a table.
#[verifier::opaque]
pub open spec fn cells_of_rows(rows: Seq<RowV>, env: Sources) -> CellsV {
    let v = slots_of(rows);
    CellsV {
        slots: v,
        declared: v.map_values(|s: Slot| declared_width(cell_in(rows, s).style, env.viewport)),
        tracks: v.map_values(|s: Slot| declared_track(cell_in(rows, s).style, env.viewport)),
        natural: v.map_values(|s: Slot| natural(cell_in(rows, s), env) as i64),
        min: v.map_values(|s: Slot| min_content(cell_in(rows, s), env) as i64),
        borders: v.map_values(|s: Slot| border_of(cell_in(rows, s).style, env.viewport)),
    }
}

/// Every slot belongs to a cell, and is as wide as that cell says.
pub open spec fn slots_name_cells(v: Seq<Slot>, rows: Seq<Seq<Spans>>) -> bool {
    forall|i: int|
        0 <= i < v.len() ==> {
            let s = #[trigger] v[i];
            s.row < rows.len() && s.cell < rows[s.row as int].len() && s.colspan
                == rows[s.row as int][s.cell as int].cols && s.rowspan
                == rows[s.row as int][s.cell as int].rows
        }
}

proof fn lemma_place_names(v: Seq<Slot>, rows: Seq<Seq<Spans>>, r: int, k: nat)
    requires
        0 <= r < rows.len(),
        rows.len() < usize::MAX,
        k <= rows[r].len() <= usize::MAX,
        slots_name_cells(v, rows),
    ensures
        slots_name_cells(place_cells(v, rows[r], r, k).0, rows),
    decreases k,
{
    if k > 0 {
        lemma_place_names(v, rows, r, (k - 1) as nat);
    }
}

proof fn lemma_grid_names(rows: Seq<Seq<Spans>>, k: nat)
    requires
        k <= rows.len(),
        rows.len() < usize::MAX,
        forall|r: int| 0 <= r < rows.len() ==> (#[trigger] rows[r]).len() <= usize::MAX,
    ensures
        slots_name_cells(grid_of(rows, k).0, rows),
    decreases k,
{
    if k > 0 {
        lemma_grid_names(rows, (k - 1) as nat);
        lemma_place_names(grid_of(rows, (k - 1) as nat).0, rows, k - 1, rows[k - 1].len());
    }
}

/// Of a table that can be counted, every slot lies in its grid and belongs to a
/// cell.
pub proof fn lemma_slots(rows: Seq<RowV>)
    requires
        table_fits(rows),
        forall|r: int| 0 <= r < rows.len() ==> (#[trigger] rows[r]).cells.len() <= usize::MAX,
    ensures
        within(slots_of(rows), grid_of(all_spans(rows), rows.len()).1),
        rows_within(slots_of(rows), rows.len() as int),
        spans_divide(slots_of(rows)),
        forall|i: int|
            0 <= i < slots_of(rows).len() ==> (#[trigger] slots_of(rows)[i]).row < rows.len()
                && slots_of(rows)[i].cell < rows[slots_of(rows)[i].row as int].cells.len(),
{
    let sp = all_spans(rows);
    let (g, n) = grid_of(sp, rows.len());
    law_grid_is_sound(sp);
    assert forall|r: int| 0 <= r < sp.len() implies (#[trigger] sp[r]).len() <= usize::MAX by {
        assert(sp[r].len() == rows[r].cells.len());
    }
    lemma_grid_names(sp, rows.len());
    let v = slots_of(rows);
    assert forall|i: int| 0 <= i < v.len() implies {
        let s = #[trigger] v[i];
        &&& s.col + s.colspan <= n
        &&& s.rowspan >= 1
        &&& s.row + s.rowspan <= rows.len()
        &&& 1 <= s.colspan <= i64::MAX
        &&& s.row < rows.len()
        &&& s.cell < rows[s.row as int].cells.len()
    } by {
        let s = g[i];
        assert(sp[s.row as int][s.cell as int].cols >= 1);
        assert(sp[s.row as int].len() == rows[s.row as int].cells.len());
    }
}

/// What is known of the cells of a table, and how many columns it has; `None`
/// where they cannot be counted.
pub fn prepare<R: ImageResolver>(rows: &Vec<RowRef>, text: &Vec<TextWidth>, images: &R, vp: Viewport) -> (r:
    Option<(Cells, usize)>)
    ensures
        match r {
            Some((c, n)) => {
                &&& table_fits(rows_view(rows@))
                &&& c@ == cells_of_rows(rows_view(rows@), sources(text@, *images, vp))
                &&& n == grid_of(all_spans(rows_view(rows@)), rows@.len()).1
                &&& c@.wf(n as int, rows@.len() as int)
                &&& forall|i: int|
                    0 <= i < c.slots@.len() ==> (#[trigger] c.slots@[i]).row < rows@.len()
                        && c.slots@[i].cell < rows@[c.slots@[i].row as int].cells@.len()
            },
            None => !table_fits(rows_view(rows@)),
        },
{
    proof {
        reveal(cells_of_rows);
    }
    let ghost rv = rows_view(rows@);
    let ghost env = sources(text@, *images, vp);
    let nrows: usize = rows.len();
    let spans = row_spans(rows);
    proof {
        assert(spans_view(spans@) =~= all_spans(rv));
    }
    if nrows as u64 >= i64::MAX as u64 || nrows == usize::MAX || !fits(&spans) {
        return None;
    }
    let (grid, ncols) = build_grid(&spans);
    if ncols as u64 >= i64::MAX as u64 || ncols == usize::MAX {
        return None;
    }
    proof {
        assert forall|r: int| 0 <= r < rv.len() implies (#[trigger] rv[r]).cells.len()
            <= usize::MAX by {
            assert(rv[r].cells.len() == rows@[r].cells@.len());
            lemma_vec_len(&rows@[r].cells);
        }
        lemma_slots(rv);
    }
    let ghost want = slots_of(rv);
    let mut slots: Vec<Slot> = Vec::new();
    let mut declared: Vec<Option<i64>> = Vec::new();
    let mut tracks: Vec<Option<i64>> = Vec::new();
    let mut wide: Vec<i64> = Vec::new();
    let mut min: Vec<i64> = Vec::new();
    let mut borders: Vec<Edges> = Vec::new();
    let ghost cv = cells_of_rows(rv, env);
    let mut k: usize = 0;
    while k < grid.len()
        invariant
            k <= grid@.len(),
            nrows == rows@.len(),
            rv == rows_view(rows@),
            env == sources(text@, *images, vp),
            want == slots_of(rv),
            cv == cells_of_rows(rv, env),
            grid@ == grid_of(all_spans(rv), rv.len()).0,
            rows_within(want, nrows as int),
            forall|i: int|
                0 <= i < want.len() ==> (#[trigger] want[i]).row < rv.len() && want[i].cell
                    < rv[want[i].row as int].cells.len(),
            slots@ == want.take(k as int),
            declared@ == cv.declared.take(k as int),
            tracks@ == cv.tracks.take(k as int),
            wide@ == cv.natural.take(k as int),
            min@ == cv.min.take(k as int),
            borders@ == cv.borders.take(k as int),
        decreases grid@.len() - k,
    {
        let g: Slot = grid[k];
        proof {
            reveal(cells_of_rows);
            assert(want[k as int].row == g.row && want[k as int].cell == g.cell);
        }
        let left: usize = nrows - g.row;
        let s = Slot {
            row: g.row,
            cell: g.cell,
            col: g.col,
            colspan: g.colspan,
            rowspan: if g.rowspan <= left {
                g.rowspan
            } else {
                left
            },
        };
        proof {
            assert(s == want[k as int]);
            assert(rv[s.row as int].cells == refs_view(rows@[s.row as int].cells@));
        }
        let cell: &LayoutBox = rows[s.row].cells[s.cell];
        proof {
            assert(cell_in(rv, s) == box_view(*cell));
            assert(want.take(k as int + 1) =~= want.take(k as int).push(want[k as int]));
            assert(cv.declared.take(k as int + 1) =~= cv.declared.take(k as int).push(
                cv.declared[k as int],
            ));
            assert(cv.tracks.take(k as int + 1) =~= cv.tracks.take(k as int).push(
                cv.tracks[k as int],
            ));
            assert(cv.natural.take(k as int + 1) =~= cv.natural.take(k as int).push(
                cv.natural[k as int],
            ));
            assert(cv.min.take(k as int + 1) =~= cv.min.take(k as int).push(cv.min[k as int]));
            assert(cv.borders.take(k as int + 1) =~= cv.borders.take(k as int).push(
                cv.borders[k as int],
            ));
        }
        slots.push(s);
        declared.push(explicit_width(&cell.style, vp));
        tracks.push(explicit_cp(&cell.style, vp));
        wide.push(natural_width(cell, text, images, vp));
        min.push(min_content_width(cell, text, images, vp));
        borders.push(cell_border(&cell.style, vp));
        k += 1;
    }
    let c = Cells { slots, declared, tracks, natural: wide, min, borders };
    proof {
        assert(c@.slots =~= cv.slots);
        assert(c@.declared =~= cv.declared);
        assert(c@.tracks =~= cv.tracks);
        assert(c@.natural =~= cv.natural);
        assert(c@.min =~= cv.min);
        assert(c@.borders =~= cv.borders);
        assert forall|i: int| 0 <= i < c.slots@.len() implies (#[trigger] c.slots@[i]).row
            < rows@.len() && c.slots@[i].cell < rows@[c.slots@[i].row as int].cells@.len() by {
            assert(want[i] == c.slots@[i]);
            assert(rv[want[i].row as int].cells.len() == rows@[want[i].row as int].cells@.len());
        }
    }
    Some((c, ncols))
}

proof fn lemma_vec_len(v: &Vec<&LayoutBox>)
    ensures
        v@.len() <= usize::MAX,
{
    vstd::std_specs::vec::axiom_spec_len(v);
}

/// A cell of a table is a smaller box than the table's children are.
pub proof fn lemma_cell_is_smaller(items: Seq<BoxV>, vp: Viewport, k: nat, r: int, c: int)
    requires
        k <= items.len(),
        0 <= r < rows_in(items, vp, k).len(),
        0 <= c < rows_in(items, vp, k)[r].cells.len(),
    ensures
        decreases_to!(items => rows_in(items, vp, k)[r].cells[c]),
    decreases k,
{
    let before = rows_in(items, vp, (k - 1) as nat);
    let b = items[k - 1];
    if r < before.len() {
        lemma_cell_is_smaller(items, vp, (k - 1) as nat, r, c);
    } else if b.display == Display::TableRow {
        assert(decreases_to!(items => b));
        assert(decreases_to!(b => block_kids(b)));
        assert(decreases_to!(block_kids(b) => block_kids(b)[c]));
    } else {
        let row = block_kids(b)[r - before.len()];
        assert(decreases_to!(items => b));
        assert(decreases_to!(b => block_kids(b)));
        assert(decreases_to!(block_kids(b) => row));
        assert(decreases_to!(row => block_kids(row)));
        assert(decreases_to!(block_kids(row) => block_kids(row)[c]));
    }
}

} // verus!
