//! What always holds of laying out: flow, floats, lines, items and tables.

use vstd::prelude::*;
use vstd::string::*;

use crate::layout::block::{
    FloatRect, Frame, Margin, border_width_of, cleared_y, content_height_of, content_width_of,
    definite_height, drop_y, floats_bottom, h_offset, has_auto_x_margins, is_cleared, isolates,
    next_bottom, region, relative_shift,
};
use crate::layout::blocklaws::{
    law_clear_drops_below, law_margins_go_through, small, small_edges, small_step, SMALL,
};
use crate::layout::boxgen::{BoxV, ItemV, KindV};
use crate::layout::engine::{
    AnswerV, ColumnsV, Env, FlowArgs, FlowV, HeldV, Lay, PiecesV, RequestV, St, atom_width,
    box_width, first_lead, flow_region_of, height_basis, held_frame, hoists, holding_floats,
    lay_atomic, lay_box, lay_cells, lay_content, lay_float, lay_flow, lay_held, lay_in_flow,
    lay_items, lay_kid, lay_lines, lay_pieces, lay_sized, lay_table, lead, out_of_flow, page_frame,
    places_at, style_of, table_rows,
};
use crate::layout::flowlaws::law_boxes_stand_where_put;
use crate::layout::fragment::{ContentV, FragV};
use crate::layout::grid_slots::{Slot, grid_of};
use crate::layout::inline::{atom_frags, run_for, text_frags, ParagraphV, PieceV};
use crate::layout::items::{image_width, item_size};
use crate::layout::length::{Edges, LengthPct, Viewport};
use crate::layout::measure::{is_replaced, min_content, natural, source_size};
use crate::layout::paint::image_box;
use crate::layout::table::{range_sum, rows_in, RowV};
use crate::layout::table_cells::{all_spans, cell_in, cells_of_rows, table_fits};
use crate::layout::table_layout::{
    CellsV, MergedV, merged_columns, merged_extent, merged_geom, merged_rows, merges_borders,
    separate_columns, separate_geom, separate_height,
};
use crate::layout::table_place::LaidV;
use crate::layout::value::BoxStyleV;
use crate::layout::valuelaws::{says, unset};
use crate::number::LIMIT;
use crate::layout::table_widths::border_of;
use crate::style::StyleMap;

verus! {

// --------------------------------------------------------------------------
// floats
// --------------------------------------------------------------------------

/// The next bottom below a row is the least of those that lie more than half a px below it.
pub proof fn law_next_bottom(v: Seq<FloatRect>, y: int, k: nat)
    requires
        k <= v.len(),
    ensures
        next_bottom(v, y, k) matches Some(b) ==> b > y + 500_000 && (exists|i: int|
            0 <= i < k && (#[trigger] v[i]).bottom == b) && forall|i: int|
            0 <= i < k && (#[trigger] v[i]).bottom > y + 500_000 ==> b <= v[i].bottom,
        next_bottom(v, y, k) is None ==> forall|i: int|
            0 <= i < k ==> (#[trigger] v[i]).bottom <= y + 500_000,
    decreases k,
{
    if k > 0 {
        law_next_bottom(v, y, (k - 1) as nat);
        if let Some(b) = next_bottom(v, y, k) {
            if v[k - 1].bottom == b {
                assert(v[k - 1].bottom == b);
            } else {
                let i = choose|i: int| 0 <= i < k - 1 && (#[trigger] v[i]).bottom == b;
                assert(v[i].bottom == b);
            }
        }
    }
}

/// A float stays in the row where it is met if that has room for it, and else goes down to
/// the bottom of a float until there is room, or none is left below.
pub proof fn law_floats_go_down(v: Seq<FloatRect>, cx: int, cw: int, w: int, y: int)
    requires
        y <= i64::MAX,
    ensures
        ({
            let r = drop_y(v, cx, cw, w, y);
            &&& r >= y
            &&& region(v, cx, cw, y).1 >= w ==> r == y
            &&& region(v, cx, cw, r).1 >= w - 500_000 || next_bottom(v, r, v.len()) is None
            &&& r == y || exists|i: int| 0 <= i < v.len() && (#[trigger] v[i]).bottom == r
        }),
    decreases i64::MAX - y,
{
    law_next_bottom(v, y, v.len());
    if region(v, cx, cw, y).1 < w - 500_000 {
        if let Some(b) = next_bottom(v, y, v.len()) {
            law_floats_go_down(v, cx, cw, w, b as int);
        }
    }
}

/// The bottom of floats is that of the lowest of them.
pub proof fn law_lowest_float(v: Seq<FloatRect>, y: int, k: nat)
    requires
        k <= v.len(),
    ensures
        floats_bottom(v, y, k) >= y,
        forall|i: int| 0 <= i < k ==> floats_bottom(v, y, k) >= (#[trigger] v[i]).bottom,
        floats_bottom(v, y, k) == y || exists|i: int|
            0 <= i < k && (#[trigger] v[i]).bottom == floats_bottom(v, y, k),
    decreases k,
{
    if k > 0 {
        law_lowest_float(v, y, (k - 1) as nat);
        if floats_bottom(v, y, k) != y {
            if floats_bottom(v, y, k) == v[k - 1].bottom {
                assert(v[k - 1].bottom == floats_bottom(v, y, k));
            } else {
                let i = choose|i: int|
                    0 <= i < k - 1 && (#[trigger] v[i]).bottom == floats_bottom(
                        v,
                        y,
                        (k - 1) as nat,
                    );
                assert(v[i].bottom == floats_bottom(v, y, k));
            }
        }
    }
}

/// A box that keeps its floats to itself is high enough for all of them, another only for its
/// content.
pub proof fn law_heights_hold_floats(h: i64, v: Seq<FloatRect>, cy: i64, i: int)
    requires
        small(cy as int) && small(h as int),
        forall|j: int| 0 <= j < v.len() ==> small((#[trigger] v[j]).bottom as int),
    ensures
        holding_floats(false, h, v, cy) == h,
        holding_floats(true, h, v, cy) >= h,
        0 <= i < v.len() ==> cy + holding_floats(true, h, v, cy) >= v[i].bottom,
        v.len() == 0 && h >= 0 ==> holding_floats(true, h, v, cy) == h,
{
    reveal(holding_floats);
    law_lowest_float(v, cy as int, v.len());
    if floats_bottom(v, cy as int, v.len()) != cy {
        let j = choose|j: int|
            0 <= j < v.len() && (#[trigger] v[j]).bottom == floats_bottom(v, cy as int, v.len());
        assert(small(v[j].bottom as int));
    }
}

// --------------------------------------------------------------------------
// heights and widths
// --------------------------------------------------------------------------

/// A height is definite where it is a length, or a percentage of a known one.
pub proof fn law_definite_heights(s: BoxStyleV, basis: int, h: i64)
    requires
        small_edges(s),
        0 <= h <= SMALL,
        s.box_sizing is ContentBox,
    ensures
        s.height == LengthPct::Px(h) ==> definite_height(s, basis) == h,
        s.height is Auto ==> definite_height(s, basis) == 0,
        s.height is Pct && basis <= 0 ==> definite_height(s, basis) == 0,
        s.height is Pct && basis > 0 ==> (s.height.length(basis) matches Some(x) ==> (0 <= x <= SMALL
            ==> definite_height(s, basis) == x)),
{
    reveal(definite_height);
}

/// Percentages of the height go by the containing block for an absolute box only.
pub proof fn law_height_bases(s: BoxStyleV, f: Frame)
    ensures
        s.position is Absolute ==> height_basis(s, f) == f.abs_h,
        !(s.position is Absolute) ==> height_basis(s, f) == 0,
{
    reveal(height_basis);
}

/// A positioned container whose height was open gives its children the one that it comes to.
pub proof fn law_held_frames(s: BoxStyleV, f: Frame, cw: i64, h: i64)
    requires
        small_edges(s),
        s.height is Auto && s.aspect_ratio is None && s.min_height == LengthPct::Px(0)
            && s.max_height is Auto,
        0 <= h <= SMALL,
    ensures
        !(s.position is Static) && f.abs_h <= 0 ==> held_frame(s, f, cw, h).abs_h == h,
        s.position is Static || f.abs_h > 0 ==> held_frame(s, f, cw, h) == f,
        held_frame(s, f, cw, h).abs_x == f.abs_x && held_frame(s, f, cw, h).abs_y == f.abs_y
            && held_frame(s, f, cw, h).abs_w == f.abs_w && held_frame(s, f, cw, h).root_w == f.root_w,
{
    reveal(held_frame);
    reveal(content_height_of);
}

/// A box is as wide as its style makes it; only a table may be wider.
pub proof fn law_used_widths(b: BoxV, s: BoxStyleV, cb: i64, env: Env)
    requires
        i64::MIN <= border_width_of(s, cb as int) <= i64::MAX,
    ensures
        !(b.kind is Table) ==> box_width(b, s, cb, env) == border_width_of(s, cb as int),
{
    reveal(box_width);
}

/// An unbreakable box of a line that has no width of its own is as wide as its content, but
/// no wider than the line unless its content cannot get narrower.
pub proof fn law_atom_widths(b: BoxV, s: BoxStyleV, cw: i64, env: Env)
    requires
        small_edges(s),
        s.min_width == LengthPct::Px(0),
        s.max_width is Auto,
        s.box_sizing is BorderBox,
        0 <= cw <= SMALL,
        0 <= natural(b, env.sources()) <= SMALL,
        0 <= min_content(b, env.sources()) <= SMALL,
    ensures
        natural(b, env.sources()) <= cw ==> atom_width(b, s, cw, env) == natural(b, env.sources()),
        natural(b, env.sources()) > cw && min_content(b, env.sources()) <= cw ==> atom_width(
            b,
            s,
            cw,
            env,
        ) == cw,
        cw < min_content(b, env.sources()) <= natural(b, env.sources()) ==> atom_width(b, s, cw, env)
            == min_content(b, env.sources()),
{
    reveal(atom_width);
}

/// The page is the outermost containing block: it starts at the origin, as wide as it is.
pub proof fn law_pages_contain(w: i64)
    ensures
        page_frame(w).abs_x == 0 && page_frame(w).abs_y == 0 && page_frame(w).abs_w == w && page_frame(
            w,
        ).root_w == w && page_frame(w).abs_h == 0 && page_frame(w).cb_h == 0,
{
}

// --------------------------------------------------------------------------
// flow
// --------------------------------------------------------------------------

/// The margin of a first child that goes through its parent adjoins that of the parent;
/// children out of flow are passed over.
pub proof fn law_adjoining_margins(b: BoxV, s: BoxStyleV, cb: i64, vp: Viewport, v: Seq<BoxV>)
    requires
        hoists(b, s),
        b.kind == KindV::Block(v),
    ensures
        v.len() == 0 ==> lead(b, s, cb, vp) == Margin::of(s.margin.top).with(
            Margin { pos: 0, neg: 0 },
        ),
        v.len() > 0 ==> {
            let cw = content_width_of(s, border_width_of(s, cb as int)) as i64;
            let k = style_of(v[0].style, s.font_size, cw, vp);
            &&& !out_of_flow(k) && k.float is Neither && !hoists(v[0], k) ==> lead(b, s, cb, vp)
                == Margin::of(s.margin.top).with(Margin::of(k.margin.top))
            &&& v.len() == 1 && (out_of_flow(k) || !(k.float is Neither)) ==> lead(b, s, cb, vp)
                == Margin::of(s.margin.top).with(Margin { pos: 0, neg: 0 })
        },
{
    reveal_with_fuel(lead, 3);
    reveal_with_fuel(first_lead, 4);
    if v.len() > 0 {
        let cw = content_width_of(s, border_width_of(s, cb as int)) as i64;
        let k = style_of(v[0].style, s.font_size, cw, vp);
        law_margins_go_through(v[0], k, cw, vp);
    }
}

/// A child is kept back where it is positioned, put aside where it floats, and else takes its
/// place in flow; its place in flow is below what came before it, the margins collapsed.
pub proof fn law_children_by_position(b: BoxV, w: FlowV, a: FlowArgs, f: Frame, env: Env, st: St)
    requires
        small_step(style_of(b.style, a.fs, a.cw, env.viewport), w, a),
    ensures
        ({
            let s = style_of(b.style, a.fs, a.cw, env.viewport);
            &&& s.position is Absolute || s.position is Fixed ==> (lay_kid(
                b,
                w,
                a,
                f,
                env,
                st,
            ) matches Lay::Done(n, _) && n.kids.len() == w.kids.len() + 1 && (
            n.kids.last() matches HeldV::Held(x, y) && x == a.cx + s.margin.left && y == w.cursor
                + w.margin.with(Margin::of(s.margin.top)).size()))
            &&& !(s.position is Absolute) && !(s.position is Fixed) && (s.float is Left
                || s.float is Right) ==> (lay_kid(b, w, a, f, env, st) matches Lay::Done(n, _)
                ==> n.kids.len() == w.kids.len() + 1 && (n.kids.last() matches HeldV::Placed(g)
                && lay_float(b, s, a, (w.cursor + w.margin.size()) as i64, f, env, st) matches Lay::Done(
                x,
                _,
            ) && x == g))
            &&& !(s.position is Absolute) && !(s.position is Fixed) && s.float is Neither
                ==> lay_kid(b, w, a, f, env, st) == lay_in_flow(b, s, w, a, f, env, st)
        }),
{
    reveal(lay_kid);
    reveal(lay_float);
    reveal(lay_in_flow);
}

proof fn lemma_box_at(
    b: BoxV,
    x: i64,
    y: i64,
    cb: i64,
    fs: i64,
    absorb: bool,
    f: Frame,
    env: Env,
    st: St,
)
    ensures
        lay_box(b, x, y, cb, fs, absorb, f, env, st) matches Lay::Done(g, _) ==> g.x == x && g.y == y,
{
    reveal(lay_box);
    reveal(lay_sized);
    reveal(image_box);
    let s = style_of(b.style, fs, cb, env.viewport);
    law_boxes_stand_where_put(b, s, x, y, box_width(b, s, cb, env), absorb, false, f, env, st);
}

/// A relative block is painted off its place by its insets, and what follows it stands as if
/// it were not.
pub proof fn law_relative_blocks(
    b: BoxV,
    s: BoxStyleV,
    w: FlowV,
    a: FlowArgs,
    f: Frame,
    env: Env,
    st: St,
)
    requires
        small_step(s, w, a),
        s.position is Relative,
        small(relative_shift(s, a.cw as int).0) && small(relative_shift(s, a.cw as int).1),
        !isolates(b, s),
        !is_replaced(b),
        !hoists(b, s),
        !w.absorbed,
        unset(b.style, "clear"@),
        a.align is Left,
        !has_auto_x_margins(b.style),
    ensures
        lay_in_flow(b, s, w, a, f, env, st) matches Lay::Done(n, _) ==> {
            let y = w.cursor + w.margin.with(Margin::of(s.margin.top)).size();
            let (dx, dy) = relative_shift(s, a.cw as int);
            &&& n.kids.last() matches HeldV::Placed(g)
            &&& g.x == a.cx + s.margin.left + dx
            &&& g.y == y + dy
            &&& small(g.height) && g.height != 0 ==> n.cursor == y + g.height
        },
{
    reveal(lay_in_flow);
    reveal(lay_box);
    reveal(flow_region_of);
    reveal(h_offset);
    law_clear_drops_below(b.style, st.floats, w.cursor + w.margin.size());
    law_margins_go_through(b, s, a.cw, env.viewport);
    let y = (w.cursor + w.margin.with(Margin::of(s.margin.top)).size()) as i64;
    let (dx, dy) = relative_shift(s, a.cw as int);
    let x = (a.cx + s.margin.left) as i64;
    lemma_box_at(b, (x + dx) as i64, (y + dy) as i64, a.cw, a.fs, false, f, env, st);
}

/// A box that keeps its floats to itself stands beside the floats of its row.
pub proof fn law_isolating_blocks_stand_beside_floats(
    b: BoxV,
    s: BoxStyleV,
    w: FlowV,
    a: FlowArgs,
    f: Frame,
    env: Env,
    st: St,
)
    requires
        small_step(s, w, a),
        s.position is Static,
        isolates(b, s),
        !w.absorbed,
        unset(b.style, "clear"@),
        a.align is Left,
        !has_auto_x_margins(b.style),
        small(
            region(
                st.floats,
                a.cx as int,
                a.cw as int,
                w.cursor + w.margin.with(Margin::of(s.margin.top)).size(),
            ).0,
        ),
    ensures
        lay_in_flow(b, s, w, a, f, env, st) matches Lay::Done(n, _) ==> {
            let y = w.cursor + w.margin.with(Margin::of(s.margin.top)).size();
            &&& n.kids.last() matches HeldV::Placed(g)
            &&& g.x == region(st.floats, a.cx as int, a.cw as int, y).0 + s.margin.left
            &&& g.y == y
        },
{
    reveal(lay_in_flow);
    reveal(lay_box);
    reveal(flow_region_of);
    reveal(relative_shift);
    reveal(h_offset);
    reveal(hoists);
    law_clear_drops_below(b.style, st.floats, w.cursor + w.margin.size());
    law_margins_go_through(b, s, a.cw, env.viewport);
    let y = (w.cursor + w.margin.with(Margin::of(s.margin.top)).size()) as i64;
    let r = region(st.floats, a.cx as int, a.cw as int, y as int);
    let x = (r.0 + s.margin.left) as i64;
    lemma_box_at(b, x, y, r.1 as i64, a.fs, false, f, env, st);
}

/// A block that clears floats starts below them.
pub proof fn law_clearing_blocks(
    b: BoxV,
    s: BoxStyleV,
    w: FlowV,
    a: FlowArgs,
    f: Frame,
    env: Env,
    st: St,
)
    requires
        small_step(s, w, a),
        s.position is Static,
        !w.absorbed,
        !hoists(b, s),
        s.margin.top >= 0,
        small(cleared_y(b.style, st.floats, w.cursor + w.margin.size())),
        cleared_y(b.style, st.floats, w.cursor + w.margin.size()) > w.cursor + w.margin.size(),
    ensures
        lay_in_flow(b, s, w, a, f, env, st) matches Lay::Done(n, _) ==> (
        n.kids.last() matches HeldV::Placed(g) && g.y == cleared_y(
            b.style,
            st.floats,
            w.cursor + w.margin.size(),
        ) + s.margin.top),
{
    reveal(lay_in_flow);
    reveal(lay_box);
    reveal(relative_shift);
    law_margins_go_through(b, s, a.cw, env.viewport);
    let c = cleared_y(b.style, st.floats, w.cursor + w.margin.size());
    let y = (c + s.margin.top) as i64;
    let (rx, rw) = flow_region_of(b, s, a, st.floats, y);
    let x = crate::layout::engine::up(crate::layout::engine::up(rx, s.margin.left), 0);
    lemma_box_at(b, x, y, rw, a.fs, false, f, env, st);
}

proof fn lemma_flow_count(v: Seq<BoxV>, a: FlowArgs, absorb: bool, f: Frame, env: Env, st: St, k: nat)
    requires
        k <= v.len(),
    ensures
        lay_flow(v, a, absorb, f, env, st, k) matches Lay::Done(w, _) ==> w.kids.len() == k,
    decreases k,
{
    reveal(lay_flow);
    reveal(lay_kid);
    if k > 0 {
        lemma_flow_count(v, a, absorb, f, env, st, (k - 1) as nat);
        if let Lay::Done(w, st1) = lay_flow(v, a, absorb, f, env, st, (k - 1) as nat) {
            lemma_kid_count(v[k - 1], w, a, f, env, st1);
        }
    }
}

proof fn lemma_kid_count(b: BoxV, w: FlowV, a: FlowArgs, f: Frame, env: Env, st: St)
    ensures
        lay_kid(b, w, a, f, env, st) matches Lay::Done(n, _) ==> n.kids.len() == w.kids.len() + 1,
{
    reveal(lay_kid);
    reveal(lay_in_flow);
}

proof fn lemma_held_count(
    v: Seq<BoxV>,
    kids: Seq<HeldV>,
    a: FlowArgs,
    f: Frame,
    env: Env,
    st: St,
    k: nat,
)
    requires
        k <= v.len(),
    ensures
        lay_held(v, kids, a, f, env, st, k) matches Lay::Done(out, _) ==> out.len() == k && forall|
            i: int,
        |
            0 <= i < k ==> (#[trigger] kids[i] matches HeldV::Placed(g) ==> out[i] == g),
    decreases k,
{
    reveal(lay_held);
    if k > 0 {
        lemma_held_count(v, kids, a, f, env, st, (k - 1) as nat);
    }
}

/// A block container has one fragment for each of its children, in their order, and those in
/// flow or floating stand where flow put them; it is as high as flow came down.
pub proof fn law_blocks_hold_their_children(
    b: BoxV,
    s: BoxStyleV,
    cx: i64,
    cy: i64,
    cw: i64,
    absorb: bool,
    bfc: bool,
    f: Frame,
    env: Env,
    st: St,
    v: Seq<BoxV>,
    i: int,
)
    requires
        b.kind == KindV::Block(v),
    ensures
        lay_content(b, s, cx, cy, cw, absorb, bfc, f, env, st) matches Lay::Done((frags, h), _) ==> {
            let a = FlowArgs { cx, cy, cw, fs: s.font_size, align: s.text_align };
            &&& frags.len() == v.len()
            &&& lay_flow(v, a, absorb, f, env, st, v.len()) matches Lay::Done(w, _) && (0 <= i
                < v.len() ==> (w.kids[i] matches HeldV::Placed(g) ==> frags[i] == g)) && (small(
                w.cursor as int,
            ) && small(cy as int) ==> h == w.cursor - cy)
        },
{
    reveal(lay_content);
    reveal(lay_flow);
    reveal(lay_held);
    let a = FlowArgs { cx, cy, cw, fs: s.font_size, align: s.text_align };
    lemma_flow_count(v, a, absorb, f, env, st, v.len());
    if let Lay::Done(w, st1) = lay_flow(v, a, absorb, f, env, st, v.len()) {
        let h = crate::layout::engine::down(w.cursor, cy);
        let g = held_frame(s, f, cw, holding_floats(bfc, h, st1.floats, cy));
        lemma_held_count(v, w.kids, a, g, env, st1, v.len());
        if 0 <= i < v.len() {
            assert(w.kids[i] matches HeldV::Placed(x) ==> true);
        }
    }
}

/// Flow starts at the top of its container with no margin before it, and takes the children
/// one by one.
pub proof fn law_flow_starts_at_the_top(
    v: Seq<BoxV>,
    a: FlowArgs,
    absorb: bool,
    f: Frame,
    env: Env,
    st: St,
)
    ensures
        lay_flow(v, a, absorb, f, env, st, 0) matches Lay::Done(w, st0) && w.cursor == a.cy
            && w.margin.size() == 0 && w.kids.len() == 0 && w.absorbed == absorb && st0 == st,
        v.len() > 0 ==> lay_flow(v, a, absorb, f, env, st, 1) == lay_kid(
            v[0],
            FlowV {
                cursor: a.cy,
                margin: Margin { pos: 0, neg: 0 },
                absorbed: absorb,
                kids: Seq::empty(),
            },
            a,
            f,
            env,
            st,
        ),
{
    reveal_with_fuel(lay_flow, 3);
    reveal(lay_kid);
}

/// Empty containers and directives have nothing in them and no height.
pub proof fn law_empty_boxes(
    b: BoxV,
    s: BoxStyleV,
    cx: i64,
    cy: i64,
    cw: i64,
    absorb: bool,
    bfc: bool,
    f: Frame,
    env: Env,
    st: St,
)
    requires
        b.kind is Directive || b.kind == KindV::Flex(Seq::empty()) || b.kind == KindV::Grid(
            Seq::empty(),
        ),
    ensures
        lay_content(b, s, cx, cy, cw, absorb, bfc, f, env, st) matches Lay::Done((frags, h), st1)
            && frags.len() == 0 && h == 0 && st1 == st,
{
    reveal(lay_content);
    reveal(lay_items);
}

// --------------------------------------------------------------------------
// lines and items
// --------------------------------------------------------------------------

/// The pieces of a line stand in the order of its items: a run for a text, a break for a
/// break, a box for a box, its corner inside its margins; a directive leaves a mark.
pub proof fn law_pieces_of_lines(
    v: Seq<ItemV>,
    s: BoxStyleV,
    cx: i64,
    cy: i64,
    cw: i64,
    f: Frame,
    env: Env,
    st: St,
    k: nat,
)
    requires
        0 < k <= v.len(),
    ensures
        lay_pieces(v, s, cx, cy, cw, f, env, st, k) matches Lay::Done(q, _) ==> (lay_pieces(
            v,
            s,
            cx,
            cy,
            cw,
            f,
            env,
            st,
            (k - 1) as nat,
        ) matches Lay::Done(p, _) && {
            &&& v[k - 1] is LineBreak ==> q.pieces == p.pieces.push(PieceV::Break) && q.atoms
                == p.atoms && q.marks == p.marks
            &&& v[k - 1] matches ItemV::Text { id, style, text } ==> (run_for(
                id,
                style,
                text,
                s.font_size,
                cw,
                env.fonts,
                env.viewport,
            ) matches Some(r) ==> q.pieces == p.pieces.push(PieceV::Run(r)) && q.atoms == p.atoms)
            &&& v[k - 1] matches ItemV::Directive { id, kind } ==> q.pieces == p.pieces && q.marks.len()
                == p.marks.len() + 1 && q.marks.last().content == ContentV::Directive(kind)
                && q.marks.last().x == cx && q.marks.last().y == cy
            &&& v[k - 1] matches ItemV::Atomic(b) ==> {
                let own = style_of(b.style, s.font_size, cw, env.viewport);
                &&& q.atoms.len() == p.atoms.len() + 1
                &&& small_edges(own) ==> q.atoms.last().x == own.margin.left && q.atoms.last().y
                    == own.margin.top
                &&& q.pieces.len() == p.pieces.len() + 1
                &&& q.pieces.last() matches PieceV::Atom(t) && (p.atoms.len() <= usize::MAX ==> t.id
                    == p.atoms.len())
            }
        }),
{
    reveal(lay_pieces);
    reveal(lay_atomic);
    if let Lay::Done(p, st1) = lay_pieces(v, s, cx, cy, cw, f, env, st, (k - 1) as nat) {
        if let ItemV::Atomic(b) = v[k - 1] {
            lemma_atomic_at(b, cw, s.font_size, f, env, st1);
        }
    }
}

proof fn lemma_atomic_at(b: BoxV, cw: i64, fs: i64, f: Frame, env: Env, st: St)
    ensures
        lay_atomic(b, cw, fs, f, env, st) matches Lay::Done(g, _) ==> g.x == 0 && g.y == 0,
{
    reveal(lay_atomic);
    reveal(lay_box);
    reveal(lay_sized);
    let own = style_of(b.style, fs, cw, env.viewport);
    law_boxes_stand_where_put(b, own, 0, 0, atom_width(b, own, cw, env), false, false, f, env, st);
    lemma_box_at(b, 0, 0, cw, fs, false, f, env, st);
}

/// A paragraph is as high as its lines come to, and holds their texts, then their boxes, then
/// the marks.
pub proof fn law_paragraphs_hold_their_lines(
    v: Seq<ItemV>,
    s: BoxStyleV,
    cx: i64,
    cy: i64,
    cw: i64,
    f: Frame,
    env: Env,
    st: St,
    p: PiecesV,
    st1: St,
    q: ParagraphV,
)
    requires
        lay_pieces(v, s, cx, cy, cw, f, env, st, v.len()) == Lay::Done(p, st1),
        0 <= st1.used < env.answers.len(),
        env.answers[st1.used] == AnswerV::Lines(q),
        small(q.height),
    ensures
        p.pieces.len() > 0 ==> (lay_lines(v, s, cx, cy, cw, f, env, st) matches Lay::Done(
            (frags, h),
            after,
        ) && h == q.height && frags == text_frags(q.lines, cx as int, cy as int, q.lines.len())
            + atom_frags(q.lines, p.atoms, cx as int, cy as int, q.lines.len()) + p.marks
            && after.used == st1.used + 1),
        p.pieces.len() == 0 ==> (lay_lines(v, s, cx, cy, cw, f, env, st) matches Lay::Done(
            (frags, h),
            after,
        ) && h == 0 && frags == p.marks && after.used == st1.used),
{
    reveal(lay_lines);
    reveal(lay_pieces);
}

/// The items of a container are asked for with its content width and the height of its
/// container; answered, it is as high as the answer says.
pub proof fn law_containers_ask_for_their_items(
    id: int,
    v: Seq<BoxV>,
    cx: i64,
    cy: i64,
    cw: i64,
    fs: i64,
    f: Frame,
    env: Env,
    st: St,
)
    requires
        v.len() > 0,
    ensures
        places_at(env, st.used, v.len()) is None ==> (lay_items(
            id,
            v,
            cx,
            cy,
            cw,
            fs,
            f,
            env,
            st,
        ) matches Lay::Need(RequestV::Items(q)) && q.width == cw && q.height == f.cb_h && q.font_size
            == fs && (0 <= id <= u32::MAX ==> q.id.0 == id)),
        places_at(env, st.used, v.len()) matches Some((places, height)) ==> (lay_items(
            id,
            v,
            cx,
            cy,
            cw,
            fs,
            f,
            env,
            st,
        ) matches Lay::Done((frags, h), _) ==> (small(height) ==> h == height)),
{
    reveal(lay_items);
}

/// An item measured by itself has the sizes that it is given, and else those that it comes to.
pub proof fn law_measured_items(
    b: BoxV,
    known_w: Option<i64>,
    known_h: Option<i64>,
    offer: Option<i64>,
    fs: i64,
    env: Env,
)
    ensures
        item_size(b, known_w, known_h, offer, fs, env) matches Lay::Done((w, h), _) ==> (
        known_w matches Some(x) ==> w == x) && (known_h matches Some(x) ==> h == x),
        b.image is None ==> image_width(b, fs, env) is None,
        is_replaced(b) ==> (style_of(b.style, fs, 0, env.viewport).width matches LengthPct::Px(x)
            ==> (small_edges(style_of(b.style, fs, 0, env.viewport)) && 0 <= x <= SMALL ==> image_width(
            b,
            fs,
            env,
        ) == Some(x + crate::layout::blocklaws::side_frame(style_of(b.style, fs, 0, env.viewport))))),
{
}

// --------------------------------------------------------------------------
// tables
// --------------------------------------------------------------------------

/// A cell of a table with separate borders is laid out as wide as its columns together, and
/// aligned as its style says.
pub proof fn law_cells_are_as_wide_as_their_columns(
    v: Seq<BoxV>,
    slots: Seq<Slot>,
    w: Seq<i64>,
    fs: i64,
    f: Frame,
    env: Env,
    st: St,
    k: nat,
)
    requires
        0 < k <= slots.len(),
        ({
            let rows = rows_in(v, env.viewport, v.len());
            let s = slots[k - 1];
            s.row < rows.len() && s.cell < rows[s.row as int].cells.len() && cell_in(
                rows,
                s,
            ).image is None
        }),
    ensures
        lay_cells(v, slots, ColumnsV::Separate(w), fs, f, env, st, k) matches Lay::Done(laid, _) ==> {
            let rows = rows_in(v, env.viewport, v.len());
            let s = slots[k - 1];
            let width = range_sum(w, s.col as int, s.colspan as nat);
            &&& laid.len() > 0 && laid.last().slot == s
            &&& -LIMIT <= width <= LIMIT ==> laid.last().frag.width == width && laid.last().valign
                == style_of(
                rows[s.row as int].cells[s.cell as int].style,
                fs,
                width as i64,
                env.viewport,
            ).vertical_align
            &&& laid.last().frag.x == 0 && laid.last().frag.y == 0
        },
{
    reveal(lay_cells);
    reveal(lay_sized);
    let cols = ColumnsV::Separate(w);
    if let Lay::Done(before, st1) = lay_cells(v, slots, cols, fs, f, env, st, (k - 1) as nat) {
        let rows = rows_in(v, env.viewport, v.len());
        let s = slots[k - 1];
        let b = cell_in(rows, s);
        let width = range_sum(w, s.col as int, s.colspan as nat) as i64;
        lemma_sized_width(b, style_of(b.style, fs, width, env.viewport), width, f, env, st1);
    }
}

proof fn lemma_sized_width(b: BoxV, s: BoxStyleV, w: i64, f: Frame, env: Env, st: St)
    requires
        b.image is None,
    ensures
        lay_sized(b, s, 0, 0, w, false, true, f, env, st) matches Lay::Done(g, _) ==> g.width == w
            && g.x == 0 && g.y == 0,
{
    reveal(lay_sized);
    reveal(image_box);
    reveal(crate::layout::engine::finished_box);
}

/// A table is as high as its rows and the gaps around them, or its tracks and the lines
/// between them.
pub proof fn law_table_heights(
    m: crate::style::StyleMap,
    c: CellsV,
    cols: ColumnsV,
    rows: Seq<RowV>,
    laid: Seq<LaidV>,
    table: crate::layout::length::Edges,
    cx: i64,
    cy: i64,
    vp: Viewport,
)
    ensures
        cols matches ColumnsV::Separate(w) ==> {
            let h = separate_height(m, separate_geom(m, w, c.slots, rows, laid, vp), vp);
            small(h) ==> table_rows(m, c, cols, rows, laid, table, cx, cy, vp).1 == h
        },
        cols is Merged ==> {
            let a = crate::layout::table::total_of(merged_rows(c, rows, laid));
            let b = crate::layout::table::total_of(
                crate::layout::table_place::horizontal_lines(c.slots, c.borders, rows.len(), table),
            );
            small(a) && small(b) ==> table_rows(m, c, cols, rows, laid, table, cx, cy, vp).1 == a + b
        },
{
    reveal(table_rows);
}

/// Boxes leave flow where they are absolute or fixed; relative and sticky ones stay.
pub proof fn law_positions_out_of_flow(s: BoxStyleV)
    ensures
        s.position.leaves_flow() == out_of_flow(s),
        s.position is Relative || s.position is Sticky || s.position is Static
            <==> !s.position.leaves_flow(),
{
}

/// A float is cleared on the side it stands on.
pub proof fn law_cleared_sides(f: FloatRect)
    ensures
        f.side is Left ==> is_cleared(f, true, false) && !is_cleared(f, false, true),
        f.side is Right ==> is_cleared(f, false, true) && !is_cleared(f, true, false),
        !is_cleared(f, false, false),
{
}

/// A cell between merged borders reaches from middle to middle of its lines, and is laid out
/// in what these leave of it.
pub proof fn law_merged_cells_reach_from_middle_to_middle(
    v: Seq<BoxV>,
    slots: Seq<Slot>,
    m: MergedV,
    fs: i64,
    f: Frame,
    env: Env,
    st: St,
    k: nat,
)
    requires
        0 < k <= slots.len(),
        ({
            let rows = rows_in(v, env.viewport, v.len());
            let s = slots[k - 1];
            s.row < rows.len() && s.cell < rows[s.row as int].cells.len()
        }),
    ensures
        lay_cells(v, slots, ColumnsV::Merged(m), fs, f, env, st, k) matches Lay::Done(laid, _) ==> {
            let s = slots[k - 1];
            &&& laid.len() > 0 && laid.last().slot == s
            &&& small(merged_extent(m.centers, s)) ==> laid.last().frag.width == merged_extent(
                m.centers,
                s,
            )
        },
{
    reveal(lay_cells);
    reveal(lay_sized);
}

/// An image without a width of its own is measured by its pixels, its frame added.
pub proof fn law_measured_images(b: BoxV, fs: i64, env: Env, name: Seq<char>)
    requires
        b.image == Some((name, true)),
        style_of(b.style, fs, 0, env.viewport).width is Auto,
        small_edges(style_of(b.style, fs, 0, env.viewport)),
    ensures
        source_size(env.images, name) matches Some(i) ==> (i.width <= 1_000_000 ==> image_width(
            b,
            fs,
            env,
        ) == Some(
            i.width * 1_000_000 + crate::layout::blocklaws::side_frame(
                style_of(b.style, fs, 0, env.viewport),
            ),
        )),
        source_size(env.images, name) is None ==> image_width(b, fs, env) is None,
{
}

/// Whether rows and their height are those of cells laid out in such columns.
pub open spec fn holds_cells(
    m: StyleMap,
    c: CellsV,
    cols: ColumnsV,
    rows: Seq<RowV>,
    edge: Edges,
    cx: i64,
    cy: i64,
    vp: Viewport,
    r: (Seq<FragV>, i64),
) -> bool {
    exists|laid: Seq<LaidV>| #[trigger] table_rows(m, c, cols, rows, laid, edge, cx, cy, vp) == r
}

/// A table merges its borders where its layout is fixed and they collapse, and else keeps
/// them apart; its cells are then put in its rows.
pub proof fn law_tables_by_their_borders(
    m: StyleMap,
    v: Seq<BoxV>,
    cx: i64,
    cy: i64,
    cw: i64,
    fs: i64,
    f: Frame,
    env: Env,
    st: St,
)
    requires
        table_fits(rows_in(v, env.viewport, v.len())),
        grid_of(
            all_spans(rows_in(v, env.viewport, v.len())),
            rows_in(v, env.viewport, v.len()).len(),
        ).1 > 0,
    ensures
        lay_table(m, v, cx, cy, cw, fs, f, env, st) matches Lay::Done(r, _) ==> {
            let rows = rows_in(v, env.viewport, v.len());
            let n = grid_of(all_spans(rows), rows.len()).1 as nat;
            let c = cells_of_rows(rows, env.sources());
            let edge = border_of(m, env.viewport);
            let cols = if says(m, "table-layout"@, "fixed"@) && says(
                m,
                "border-collapse"@,
                "collapse"@,
            ) {
                ColumnsV::Merged(merged_columns(c, n, cw as int, edge))
            } else {
                ColumnsV::Separate(separate_columns(m, c, n, cw as int, env.viewport))
            };
            holds_cells(m, c, cols, rows, edge, cx, cy, env.viewport, r)
        },
{
    reveal(lay_table);
    reveal(lay_cells);
    let rows = rows_in(v, env.viewport, v.len());
    let n = grid_of(all_spans(rows), rows.len()).1 as nat;
    let c = cells_of_rows(rows, env.sources());
    let edge = border_of(m, env.viewport);
    let cols = if merges_borders(m) {
        ColumnsV::Merged(merged_columns(c, n, cw as int, edge))
    } else {
        ColumnsV::Separate(separate_columns(m, c, n, cw as int, env.viewport))
    };
    if let Lay::Done(laid, st1) = lay_cells(v, c.slots, cols, fs, f, env, st, c.slots.len()) {
        if let Lay::Done(r, _) = lay_table(m, v, cx, cy, cw, fs, f, env, st) {
            assert(table_rows(m, c, cols, rows, laid, edge, cx, cy, env.viewport) == r);
            assert(holds_cells(m, c, cols, rows, edge, cx, cy, env.viewport, r));
        }
    }
}

/// A table that cannot be counted, or has no columns, holds nothing.
pub proof fn law_empty_tables(
    m: StyleMap,
    v: Seq<BoxV>,
    cx: i64,
    cy: i64,
    cw: i64,
    fs: i64,
    f: Frame,
    env: Env,
    st: St,
)
    requires
        v.len() == 0,
    ensures
        lay_table(m, v, cx, cy, cw, fs, f, env, st) matches Lay::Done((frags, h), st1) && frags.len()
            == 0 && h == 0 && st1 == st,
{
    reveal(lay_table);
}

/// The rows of a table stand in its content box: at its left, and as far below its top as
/// their tracks are.
pub proof fn law_table_rows_stand_in_the_content_box(
    m: StyleMap,
    c: CellsV,
    cols: ColumnsV,
    rows: Seq<RowV>,
    laid: Seq<LaidV>,
    edge: Edges,
    cx: i64,
    cy: i64,
    vp: Viewport,
    i: int,
)
    requires
        0 <= i < rows.len(),
        small(cx as int) && small(cy as int),
    ensures
        ({
            let g = match cols {
                ColumnsV::Merged(x) => merged_geom(c, x, rows, laid, edge),
                ColumnsV::Separate(w) => separate_geom(m, w, c.slots, rows, laid, vp),
            };
            let r = table_rows(m, c, cols, rows, laid, edge, cx, cy, vp).0;
            &&& r.len() == rows.len()
            &&& r[i].x == cx
            &&& small(g.row_y[i] as int) ==> r[i].y == cy + g.row_y[i]
            &&& r[i].width == g.table_w && r[i].height == g.row_h[i]
        }),
{
    reveal(table_rows);
}

} // verus!
