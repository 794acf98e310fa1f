//! What holds of every layout.

use vstd::prelude::*;

use crate::layout::block::{
    border_width_of, cleared_y, content_width_of, drop_y, floats_bottom, isolates, origin_of,
    region, relative_shift, FloatRect, Frame, Margin,
};
use crate::layout::boxgen::{BoxV, ItemV, KindV};
use crate::layout::engine::{
    atom_width, box_width, down, finished_box, float_width_of, flow_region_of, forced_height,
    held_frame, hoists, holding_floats, inner_frame, lay_atomic, lay_box, lay_cells, lay_content,
    lay_float, lay_flow, lay_held, lay_in_flow, lay_items, lay_kid, lay_lines, lay_pieces,
    lay_placed, lay_positioned, lay_sized, lay_table, lay_tree, lead, out_of_flow, page_frame,
    places_at, shrinks, style_of, table_least, up, AnswerV, ColumnsV, Env, FlowArgs, FlowV, HeldV,
    Lay, St,
};
use crate::layout::fragment::Rect;
use crate::layout::grid_slots::{grid_of, Slot};
use crate::layout::length::DEFAULT_FONT_SIZE;
use crate::layout::measure::frame_of;
use crate::layout::paint::image_box;
use crate::layout::table::{range_sum, rows_in};
use crate::layout::table_cells::{
    all_spans, cell_in, cells_of_rows, lemma_cell_is_smaller, table_fits,
};
use crate::layout::table_layout::{
    merged_columns, merged_extent, merged_width, merges_borders, separate_columns,
};
use crate::layout::table_widths::border_of;
use crate::layout::value::{BoxStyleV, Float};
use crate::number::{clip, sum, ONE};
use crate::style::StyleMap;

verus! {

/// A box laid out at a given width has its corner where it was put.
pub proof fn law_boxes_stand_where_put(
    b: BoxV,
    s: BoxStyleV,
    x: i64,
    y: i64,
    w: i64,
    absorb: bool,
    force: bool,
    f: Frame,
    env: Env,
    st: St,
)
    ensures
        lay_sized(b, s, x, y, w, absorb, force, f, env, st) matches Lay::Done(g, _) ==> g.x == x
            && g.y == y,
{
    reveal(lay_sized);
    reveal(image_box);
    reveal(finished_box);
}

/// The galley starts at the origin.
pub proof fn law_galley_starts_at_origin(root: BoxV, w: i64, env: Env)
    ensures
        lay_tree(root, w, env) matches Lay::Done(g, _) ==> g.x == 0 && g.y == 0,
{
    let st = St { floats: Seq::empty(), used: 0 };
    let s = style_of(root.style, DEFAULT_FONT_SIZE, w, env.viewport);
    reveal(lay_box);
    reveal(lay_sized);
    reveal(image_box);
    law_boxes_stand_where_put(
        root,
        s,
        0,
        0,
        box_width(root, s, w, env),
        false,
        false,
        page_frame(w),
        env,
        st,
    );
}

/// The floats inside a box that keeps them to itself do not reach what follows
/// it.
pub proof fn law_floats_stay_inside(
    b: BoxV,
    s: BoxStyleV,
    x: i64,
    y: i64,
    w: i64,
    absorb: bool,
    force: bool,
    f: Frame,
    env: Env,
    st: St,
)
    requires
        force || isolates(b, s),
    ensures
        lay_sized(b, s, x, y, w, absorb, force, f, env, st) matches Lay::Done(_, after)
            ==> after.floats == st.floats,
{
    reveal(lay_sized);
}

/// A positioned box and a float take no room in normal flow: the next box starts
/// at the same place, with the same margins before it.
pub proof fn law_out_of_flow_takes_no_room(b: BoxV, w: FlowV, a: FlowArgs, f: Frame, env: Env, st: St)
    requires
        ({
            let s = style_of(b.style, a.fs, a.cw, env.viewport);
            out_of_flow(s) || s.float != Float::Neither
        }),
    ensures
        lay_kid(b, w, a, f, env, st) matches Lay::Done(n, _) ==> n.cursor == w.cursor && n.margin
            == w.margin && n.absorbed == w.absorbed && n.kids.len() == w.kids.len() + 1,
{
    reveal(lay_kid);
}

/// The free region of a row is at least one px wide.
pub proof fn law_region_is_never_empty(v: Seq<FloatRect>, cx: int, cw: int, y: int)
    ensures
        region(v, cx, cw, y).1 >= ONE,
{
    reveal(region);
}

/// A table box is never narrower than its content and its own frame.
pub proof fn law_tables_hold_their_content(b: BoxV, s: BoxStyleV, cb: i64, env: Env)
    requires
        b.kind is Table,
    ensures
        box_width(b, s, cb, env) >= sum(
            table_least(b.kind->Table_0, b.style, env.sources()),
            frame_of(s),
        ),
{
    reveal(box_width);
    reveal(border_width_of);
}

proof fn lemma_floats_bottom(v: Seq<FloatRect>, y: int, k: nat, i: int)
    requires
        0 <= i < k <= v.len(),
    ensures
        floats_bottom(v, y, k) >= v[i].bottom,
    decreases k,
{
    if i < k - 1 {
        lemma_floats_bottom(v, y, (k - 1) as nat, i);
    }
}

/// The galley reaches down to every float that no box inside it contains.
pub proof fn law_galley_contains_floats(root: BoxV, w: i64, env: Env, i: int)
    ensures
        lay_tree(root, w, env) matches Lay::Done(g, st) ==> 0 <= i < st.floats.len() ==> g.height
            >= st.floats[i].bottom,
{
    if let Lay::Done(g, st) = lay_tree(root, w, env) {
        if 0 <= i < st.floats.len() {
            lemma_floats_bottom(st.floats, 0, st.floats.len(), i);
        }
    }
}

// --------------------------------------------------------------------------
// answers
// --------------------------------------------------------------------------

/// An environment with more answers at the end.
pub open spec fn with_answers(env: Env, more: Seq<AnswerV>) -> Env {
    Env { answers: env.answers + more, ..env }
}

proof fn lemma_box(
    b: BoxV,
    x: i64,
    y: i64,
    cb: i64,
    fs: i64,
    absorb: bool,
    f: Frame,
    env: Env,
    st: St,
    more: Seq<AnswerV>,
)
    requires
        lay_box(b, x, y, cb, fs, absorb, f, env, st) is Done,
    ensures
        lay_box(b, x, y, cb, fs, absorb, f, with_answers(env, more), st) == lay_box(
            b,
            x,
            y,
            cb,
            fs,
            absorb,
            f,
            env,
            st,
        ),
    decreases b, 3int, 0nat,
{
    reveal(lay_box);
    reveal(lay_sized);
    reveal(box_width);
    let s = style_of(b.style, fs, cb, env.viewport);
    if image_box(b, s, x, y, cb, f, env.images, env.body_height) is None {
        lemma_sized(b, s, x, y, box_width(b, s, cb, env), absorb, false, f, env, st, more);
    }
}

proof fn lemma_sized(
    b: BoxV,
    s: BoxStyleV,
    x: i64,
    y: i64,
    w: i64,
    absorb: bool,
    force: bool,
    f: Frame,
    env: Env,
    st: St,
    more: Seq<AnswerV>,
)
    requires
        lay_sized(b, s, x, y, w, absorb, force, f, env, st) is Done,
    ensures
        lay_sized(b, s, x, y, w, absorb, force, f, with_answers(env, more), st) == lay_sized(
            b,
            s,
            x,
            y,
            w,
            absorb,
            force,
            f,
            env,
            st,
        ),
    decreases b, 2int, 0nat,
{
    reveal(lay_sized);
    reveal(lay_content);
    reveal(finished_box);
    if image_box(b, s, x, y, w, f, env.images, env.body_height) is None {
        let bw = s.border.widths_of();
        let cx = up(up(x, bw.left), s.padding.left);
        let cy = up(up(y, bw.top), s.padding.top);
        let cw = content_width_of(s, w as int) as i64;
        let bfc = force || isolates(b, s);
        let inside = if bfc {
            St { floats: Seq::empty(), used: st.used }
        } else {
            st
        };
        lemma_content(
            b,
            s,
            cx,
            cy,
            cw,
            absorb,
            bfc,
            inner_frame(s, f, cx, cy, cw),
            env,
            inside,
            more,
        );
    }
}

proof fn lemma_content(
    b: BoxV,
    s: BoxStyleV,
    cx: i64,
    cy: i64,
    cw: i64,
    absorb: bool,
    bfc: bool,
    f: Frame,
    env: Env,
    st: St,
    more: Seq<AnswerV>,
)
    requires
        lay_content(b, s, cx, cy, cw, absorb, bfc, f, env, st) is Done,
    ensures
        lay_content(b, s, cx, cy, cw, absorb, bfc, f, with_answers(env, more), st) == lay_content(
            b,
            s,
            cx,
            cy,
            cw,
            absorb,
            bfc,
            f,
            env,
            st,
        ),
    decreases b, 1int, 0nat,
{
    reveal(lay_content);
    reveal(lay_flow);
    reveal(lay_held);
    reveal(lay_lines);
    reveal(lay_items);
    reveal(lay_table);
    match b.kind {
        KindV::Block(v) => {
            let a = FlowArgs { cx, cy, cw, fs: s.font_size, align: s.text_align };
            lemma_flow(v, a, absorb, f, env, st, v.len(), more);
            if let Lay::Done(w, st1) = lay_flow(v, a, absorb, f, env, st, v.len()) {
                let h = down(w.cursor, cy);
                let g = held_frame(s, f, cw, holding_floats(bfc, h, st1.floats, cy));
                lemma_held(v, w.kids, a, g, env, st1, v.len(), more);
            }
        },
        KindV::Lines(v) => {
            lemma_lines(v, s, cx, cy, cw, f, env, st, more);
        },
        KindV::Flex(v) => {
            lemma_items(b.id, v, cx, cy, cw, s.font_size, f, env, st, more);
        },
        KindV::Grid(v) => {
            lemma_items(b.id, v, cx, cy, cw, s.font_size, f, env, st, more);
        },
        KindV::Table(v) => {
            lemma_table(b.style, v, cx, cy, cw, s.font_size, f, env, st, more);
        },
        KindV::Directive(_) => {},
    }
}

proof fn lemma_flow(
    v: Seq<BoxV>,
    a: FlowArgs,
    absorb: bool,
    f: Frame,
    env: Env,
    st: St,
    k: nat,
    more: Seq<AnswerV>,
)
    requires
        lay_flow(v, a, absorb, f, env, st, k) is Done,
    ensures
        lay_flow(v, a, absorb, f, with_answers(env, more), st, k) == lay_flow(
            v,
            a,
            absorb,
            f,
            env,
            st,
            k,
        ),
    decreases v, 0int, k,
{
    reveal(lay_flow);
    reveal(lay_kid);
    if 0 < k <= v.len() {
        lemma_flow(v, a, absorb, f, env, st, (k - 1) as nat, more);
        if let Lay::Done(w, st1) = lay_flow(v, a, absorb, f, env, st, (k - 1) as nat) {
            lemma_kid(v[k - 1], w, a, f, env, st1, more);
        }
    }
}

proof fn lemma_kid(b: BoxV, w: FlowV, a: FlowArgs, f: Frame, env: Env, st: St, more: Seq<AnswerV>)
    requires
        lay_kid(b, w, a, f, env, st) is Done,
    ensures
        lay_kid(b, w, a, f, with_answers(env, more), st) == lay_kid(b, w, a, f, env, st),
    decreases b, 5int, 0nat,
{
    reveal(lay_kid);
    reveal(lay_float);
    reveal(lay_in_flow);
    let s = style_of(b.style, a.fs, a.cw, env.viewport);
    if !out_of_flow(s) {
        if s.float != Float::Neither {
            lemma_float(b, s, a, up(w.cursor, w.margin.size() as i64), f, env, st, more);
        } else {
            lemma_in_flow(b, s, w, a, f, env, st, more);
        }
    }
}

proof fn lemma_float(
    b: BoxV,
    s: BoxStyleV,
    a: FlowArgs,
    y0: i64,
    f: Frame,
    env: Env,
    st: St,
    more: Seq<AnswerV>,
)
    requires
        lay_float(b, s, a, y0, f, env, st) is Done,
    ensures
        lay_float(b, s, a, y0, f, with_answers(env, more), st) == lay_float(
            b,
            s,
            a,
            y0,
            f,
            env,
            st,
        ),
    decreases b, 4int, 0nat,
{
    reveal(lay_float);
    reveal(lay_sized);
    reveal(lay_box);
    reveal(float_width_of);
    let w = float_width_of(b, s, a.cw, env);
    let room = up(w, clip(s.margin.left + s.margin.right) as i64);
    let y = drop_y(st.floats, a.cx as int, a.cw as int, room as int, y0 as int) as i64;
    let (rx, rw) = region(st.floats, a.cx as int, a.cw as int, y as int);
    let end = sum(rx, rw) as i64;
    let x = if s.float == Float::Right {
        down(end, room)
    } else {
        rx as i64
    };
    let (bx, by) = (up(x, s.margin.left), up(y, s.margin.top));
    if shrinks(b, s, a.cw) {
        lemma_sized(b, s, bx, by, w, false, false, f, env, st, more);
    } else {
        lemma_box(b, bx, by, a.cw, a.fs, false, f, env, st, more);
    }
}

proof fn lemma_in_flow(
    b: BoxV,
    s: BoxStyleV,
    w: FlowV,
    a: FlowArgs,
    f: Frame,
    env: Env,
    st: St,
    more: Seq<AnswerV>,
)
    requires
        lay_in_flow(b, s, w, a, f, env, st) is Done,
    ensures
        lay_in_flow(b, s, w, a, f, with_answers(env, more), st) == lay_in_flow(
            b,
            s,
            w,
            a,
            f,
            env,
            st,
        ),
    decreases b, 4int, 0nat,
{
    reveal(lay_in_flow);
    reveal(lay_box);
    let base = up(w.cursor, w.margin.size() as i64);
    let cleared = cleared_y(b.style, st.floats, base as int) as i64;
    let (cursor, pending) = if cleared > base {
        (cleared, Margin { pos: 0i64, neg: 0i64 })
    } else {
        (w.cursor, w.margin)
    };
    let top = if w.absorbed {
        pending
    } else {
        pending.with(lead(b, s, a.cw, env.viewport))
    };
    let flow_y = up(cursor, top.size() as i64);
    let (rx, rw) = flow_region_of(b, s, a, st.floats, flow_y);
    let (dx, dy) = relative_shift(s, a.cw as int);
    lemma_box(
        b,
        up(up(rx, s.margin.left), dx as i64),
        up(flow_y, dy as i64),
        rw,
        a.fs,
        hoists(b, s),
        f,
        env,
        st,
        more,
    );
}

proof fn lemma_held(
    v: Seq<BoxV>,
    kids: Seq<HeldV>,
    a: FlowArgs,
    f: Frame,
    env: Env,
    st: St,
    k: nat,
    more: Seq<AnswerV>,
)
    requires
        lay_held(v, kids, a, f, env, st, k) is Done,
    ensures
        lay_held(v, kids, a, f, with_answers(env, more), st, k) == lay_held(
            v,
            kids,
            a,
            f,
            env,
            st,
            k,
        ),
    decreases v, 0int, k,
{
    reveal(lay_held);
    reveal(lay_positioned);
    if 0 < k <= v.len() {
        lemma_held(v, kids, a, f, env, st, (k - 1) as nat, more);
        if let Lay::Done(before, st1) = lay_held(v, kids, a, f, env, st, (k - 1) as nat) {
            if let HeldV::Held(x, y) = kids[k - 1] {
                lemma_positioned(v[k - 1], x, y, a, f, env, st1, more);
            }
        }
    }
}

proof fn lemma_positioned(
    b: BoxV,
    x: i64,
    y: i64,
    a: FlowArgs,
    f: Frame,
    env: Env,
    st: St,
    more: Seq<AnswerV>,
)
    requires
        lay_positioned(b, x, y, a, f, env, st) is Done,
    ensures
        lay_positioned(b, x, y, a, f, with_answers(env, more), st) == lay_positioned(
            b,
            x,
            y,
            a,
            f,
            env,
            st,
        ),
    decreases b, 4int, 0nat,
{
    reveal(lay_positioned);
    reveal(lay_box);
    let s = style_of(b.style, a.fs, a.cw, env.viewport);
    let (bx, by) = origin_of(s, a.cw as int, f, x as int, y as int);
    lemma_box(b, bx as i64, by as i64, a.cw, a.fs, false, f, env, st, more);
}

proof fn lemma_lines(
    v: Seq<ItemV>,
    s: BoxStyleV,
    cx: i64,
    cy: i64,
    cw: i64,
    f: Frame,
    env: Env,
    st: St,
    more: Seq<AnswerV>,
)
    requires
        lay_lines(v, s, cx, cy, cw, f, env, st) is Done,
    ensures
        lay_lines(v, s, cx, cy, cw, f, with_answers(env, more), st) == lay_lines(
            v,
            s,
            cx,
            cy,
            cw,
            f,
            env,
            st,
        ),
    decreases v, 1int, 0nat,
{
    reveal(lay_lines);
    reveal(lay_pieces);
    lemma_pieces(v, s, cx, cy, cw, f, env, st, v.len(), more);
}

proof fn lemma_pieces(
    v: Seq<ItemV>,
    s: BoxStyleV,
    cx: i64,
    cy: i64,
    cw: i64,
    f: Frame,
    env: Env,
    st: St,
    k: nat,
    more: Seq<AnswerV>,
)
    requires
        lay_pieces(v, s, cx, cy, cw, f, env, st, k) is Done,
    ensures
        lay_pieces(v, s, cx, cy, cw, f, with_answers(env, more), st, k) == lay_pieces(
            v,
            s,
            cx,
            cy,
            cw,
            f,
            env,
            st,
            k,
        ),
    decreases v, 0int, k,
{
    reveal(lay_pieces);
    reveal(lay_atomic);
    if 0 < k <= v.len() {
        lemma_pieces(v, s, cx, cy, cw, f, env, st, (k - 1) as nat, more);
        if let Lay::Done(p, st1) = lay_pieces(v, s, cx, cy, cw, f, env, st, (k - 1) as nat) {
            if let ItemV::Atomic(b) = v[k - 1] {
                lemma_atomic(b, cw, s.font_size, f, env, st1, more);
            }
        }
    }
}

proof fn lemma_atomic(b: BoxV, cw: i64, fs: i64, f: Frame, env: Env, st: St, more: Seq<AnswerV>)
    requires
        lay_atomic(b, cw, fs, f, env, st) is Done,
    ensures
        lay_atomic(b, cw, fs, f, with_answers(env, more), st) == lay_atomic(b, cw, fs, f, env, st),
    decreases b, 4int, 0nat,
{
    reveal(lay_atomic);
    reveal(lay_sized);
    reveal(lay_box);
    reveal(atom_width);
    let s = style_of(b.style, fs, cw, env.viewport);
    if shrinks(b, s, cw) {
        lemma_sized(b, s, 0, 0, atom_width(b, s, cw, env), false, false, f, env, st, more);
    } else {
        lemma_box(b, 0, 0, cw, fs, false, f, env, st, more);
    }
}

proof fn lemma_items(
    id: int,
    v: Seq<BoxV>,
    cx: i64,
    cy: i64,
    cw: i64,
    fs: i64,
    f: Frame,
    env: Env,
    st: St,
    more: Seq<AnswerV>,
)
    requires
        lay_items(id, v, cx, cy, cw, fs, f, env, st) is Done,
    ensures
        lay_items(id, v, cx, cy, cw, fs, f, with_answers(env, more), st) == lay_items(
            id,
            v,
            cx,
            cy,
            cw,
            fs,
            f,
            env,
            st,
        ),
    decreases v, 1int, 0nat,
{
    reveal(lay_items);
    reveal(lay_placed);
    if v.len() > 0 {
        if let Some((places, height)) = places_at(env, st.used, v.len()) {
            lemma_placed(
                v,
                places,
                cx,
                cy,
                fs,
                f,
                env,
                St { floats: st.floats, used: st.used + 1 },
                v.len(),
                more,
            );
        }
    }
}

proof fn lemma_placed(
    v: Seq<BoxV>,
    places: Seq<Rect>,
    cx: i64,
    cy: i64,
    fs: i64,
    f: Frame,
    env: Env,
    st: St,
    k: nat,
    more: Seq<AnswerV>,
)
    requires
        lay_placed(v, places, cx, cy, fs, f, env, st, k) is Done,
    ensures
        lay_placed(v, places, cx, cy, fs, f, with_answers(env, more), st, k) == lay_placed(
            v,
            places,
            cx,
            cy,
            fs,
            f,
            env,
            st,
            k,
        ),
    decreases v, 0int, k,
{
    reveal(lay_placed);
    reveal(lay_sized);
    if 0 < k <= v.len() {
        lemma_placed(v, places, cx, cy, fs, f, env, st, (k - 1) as nat, more);
        if let Lay::Done(before, st1) = lay_placed(
            v,
            places,
            cx,
            cy,
            fs,
            f,
            env,
            st,
            (k - 1) as nat,
        ) {
            let p = places[k - 1];
            let s = forced_height(style_of(v[k - 1].style, fs, p.width, env.viewport), p.height);
            lemma_sized(v[k - 1], s, 0, 0, p.width, false, true, f, env, st1, more);
        }
    }
}

proof fn lemma_table(
    m: StyleMap,
    v: Seq<BoxV>,
    cx: i64,
    cy: i64,
    cw: i64,
    fs: i64,
    f: Frame,
    env: Env,
    st: St,
    more: Seq<AnswerV>,
)
    requires
        lay_table(m, v, cx, cy, cw, fs, f, env, st) is Done,
    ensures
        lay_table(m, v, cx, cy, cw, fs, f, with_answers(env, more), st) == lay_table(
            m,
            v,
            cx,
            cy,
            cw,
            fs,
            f,
            env,
            st,
        ),
    decreases v, 1int, 0nat,
{
    reveal(lay_table);
    reveal(lay_cells);
    let rows = rows_in(v, env.viewport, v.len());
    let n = grid_of(all_spans(rows), rows.len()).1 as nat;
    if table_fits(rows) && n != 0 {
        let c = cells_of_rows(rows, env.sources());
        let table = border_of(m, env.viewport);
        let cols = if merges_borders(m) {
            ColumnsV::Merged(merged_columns(c, n, cw as int, table))
        } else {
            ColumnsV::Separate(separate_columns(m, c, n, cw as int, env.viewport))
        };
        lemma_cells(v, c.slots, cols, fs, f, env, st, c.slots.len(), more);
    }
}

proof fn lemma_cells(
    v: Seq<BoxV>,
    slots: Seq<Slot>,
    cols: ColumnsV,
    fs: i64,
    f: Frame,
    env: Env,
    st: St,
    k: nat,
    more: Seq<AnswerV>,
)
    requires
        lay_cells(v, slots, cols, fs, f, env, st, k) is Done,
    ensures
        lay_cells(v, slots, cols, fs, f, with_answers(env, more), st, k) == lay_cells(
            v,
            slots,
            cols,
            fs,
            f,
            env,
            st,
            k,
        ),
    decreases v, 0int, k,
{
    reveal(lay_cells);
    reveal(lay_sized);
    let rows = rows_in(v, env.viewport, v.len());
    if 0 < k <= slots.len() {
        lemma_cells(v, slots, cols, fs, f, env, st, (k - 1) as nat, more);
        if let Lay::Done(before, st1) = lay_cells(
            v,
            slots,
            cols,
            fs,
            f,
            env,
            st,
            (k - 1) as nat,
        ) {
            let slot = slots[k - 1];
            if slot.row < rows.len() && slot.cell < rows[slot.row as int].cells.len() {
                lemma_cell_is_smaller(v, env.viewport, v.len(), slot.row as int, slot.cell as int);
                let b = cell_in(rows, slot);
                match cols {
                    ColumnsV::Separate(w) => {
                        let width = range_sum(w, slot.col as int, slot.colspan as nat) as i64;
                        let s = style_of(b.style, fs, width, env.viewport);
                        lemma_sized(b, s, 0, 0, width, false, true, f, env, st1, more);
                    },
                    ColumnsV::Merged(m) => {
                        let extent = merged_extent(m.centers, slot) as i64;
                        let s = style_of(b.style, fs, extent, env.viewport);
                        let own = clip(s.border.widths_of().left + s.border.widths_of().right);
                        let width = merged_width(m.centers, m.lines, slot, own) as i64;
                        lemma_sized(b, s, 0, 0, width, false, true, f, env, st1, more);
                    },
                }
            }
        }
    }
}

/// A layout that is done stays as it is however many answers are added.
pub proof fn law_more_answers_change_nothing(root: BoxV, w: i64, env: Env, more: Seq<AnswerV>)
    requires
        lay_tree(root, w, env) is Done,
    ensures
        lay_tree(root, w, with_answers(env, more)) == lay_tree(root, w, env),
{
    lemma_box(
        root,
        0,
        0,
        w,
        DEFAULT_FONT_SIZE,
        false,
        page_frame(w),
        env,
        St { floats: Seq::empty(), used: 0 },
        more,
    );
}

} // verus!
