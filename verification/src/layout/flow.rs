//! Laying a box tree out: see [`crate::layout::engine`] for what is laid where.

use vstd::prelude::*;

use crate::image::{images_of, ImageResolver, NoImages};
use crate::layout::block::{
    anchor_bottom, block_h_offset, border_box_width, bottom_of_floats, clamp_width, clear_below,
    content_box_height, establishes_bfc, float_drop_y, flow_relative_offset, inline_region_from,
    join_margins, margin_of, margin_size, out_of_flow_origin, v_extra, FloatRect, Frame, Margin,
    HALF,
};
use crate::layout::boxgen::{
    box_view, boxes_view, item_view, items_view, lemma_kind_children, BoxKind, BoxV,
    InlineItem, ItemV, LayoutBox,
};
use crate::layout::engine::{
    answers_view, atom_width, does_hoist, env_of, finish_box, flow_region_of, forced_height,
    float_rect, float_width_of, frame_inside, held_frame, hold_floats, lay_atomic, lay_box,
    lay_cells, lay_content, lay_float, lay_flow, lay_held, lay_in_flow, lay_items, lay_kid,
    lay_lines, lay_pieces, lay_placed, lay_positioned, lay_sized, lay_table, lay_tree,
    leading_margin, lines_at, places_at, reanchored, resolve, shrinks, table_rows, used_width,
    Answer, ColumnsV, Env, FlowArgs, FlowV, HeldV, Host, ItemsRequest, Lay, ParagraphRequest,
    PiecesV, Request, Solved, St, State,
};
use crate::layout::fragment::{
    frags_view, lemma_frag_children, lemma_frags_push, FragV, Fragment, FragmentContent, Rect,
};
use crate::layout::inline::{
    lines_to_fragments, pieces_view, place_atoms, text_run, InlineAtom, ParagraphLayout, Piece,
};
use crate::layout::grid_slots::{within, Slot};
use crate::layout::length::{LengthPct, Viewport, DEFAULT_FONT_SIZE};
use crate::layout::measure::{frame_width, min_content_width, natural_width, TextWidth};
use crate::layout::paint::{replaced_image_box, ContentRect};
use crate::layout::table::{collect_rows, refs_view, rows_in, rows_view, spanned, RowRef};
use crate::layout::table_cells::{cell_in, lemma_cell_is_smaller, prepare};
use crate::layout::table_layout::{
    columns_merged, columns_separate, finish_merged, finish_separate, laid_for, merged,
    merged_cell, Cells, Merged,
};
use crate::layout::table_place::{laid_view, LaidCell, LaidV};
use crate::layout::table_widths::cell_border;
use crate::layout::transform::AngleTrig;
use crate::layout::value::{BoxSizing, BoxStyle, BoxStyleV, Float, Position};
use crate::number::{max_of, min_of, minus, plus};
use crate::text::registry::FontRegistry;

verus! {

pub open spec fn frag_lay(r: Result<Fragment, Request>, st: St) -> Lay<FragV> {
    match r {
        Ok(f) => Lay::Done(f@, st),
        Err(q) => Lay::Need(q@),
    }
}

pub open spec fn content_lay(r: Result<(Vec<Fragment>, i64), Request>, st: St) -> Lay<
    (Seq<FragV>, i64),
> {
    match r {
        Ok((v, h)) => Lay::Done((frags_view(v@), h), st),
        Err(q) => Lay::Need(q@),
    }
}

pub open spec fn frags_lay(r: Result<Vec<Fragment>, Request>, st: St) -> Lay<Seq<FragV>> {
    match r {
        Ok(v) => Lay::Done(frags_view(v@), st),
        Err(q) => Lay::Need(q@),
    }
}

/// A child of a block container: laid out, or out of flow and held back, with the
/// place it would have in flow.
#[derive(Debug)]
pub enum Held {
    Placed(Fragment),
    Held(i64, i64),
}

impl View for Held {
    type V = HeldV;

    open spec fn view(&self) -> HeldV {
        match *self {
            Held::Placed(f) => HeldV::Placed(f@),
            Held::Held(x, y) => HeldV::Held(x, y),
        }
    }
}

pub open spec fn held_view(v: Seq<Held>) -> Seq<HeldV> {
    v.map_values(|h: Held| h@)
}

/// Where block flow stands.
#[derive(Debug)]
pub struct FlowRun {
    pub cursor: i64,
    pub margin: Margin,
    pub absorbed: bool,
    pub kids: Vec<Held>,
}

impl View for FlowRun {
    type V = FlowV;

    open spec fn view(&self) -> FlowV {
        FlowV {
            cursor: self.cursor,
            margin: self.margin,
            absorbed: self.absorbed,
            kids: held_view(self.kids@),
        }
    }
}

fn push_held(w: &mut FlowRun, h: Held)
    ensures
        final(w)@ == (FlowV { kids: old(w)@.kids.push(h@), ..old(w)@ }),
        final(w).kids@.len() == old(w).kids@.len() + 1,
{
    proof {
        assert(held_view(w.kids@.push(h)) =~= held_view(w.kids@).push(h@));
    }
    w.kids.push(h);
}

/// Lay out a box with its border-box corner at `(x, y)`, its width resolved
/// against the containing block. A replaced image is sized instead.
pub fn layout_box<R: ImageResolver>(
    b: &LayoutBox,
    x: i64,
    y: i64,
    cb: i64,
    fs: i64,
    absorb: bool,
    f: Frame,
    h: &Host<R>,
    st: &mut State,
) -> (r: Result<Fragment, Request>)
    ensures
        frag_lay(r, final(st)@) == lay_box(
            box_view(*b),
            x,
            y,
            cb,
            fs,
            absorb,
            f,
            env_of(*h),
            old(st)@,
        ),
    decreases box_view(*b), 3int, 0nat,
{
    proof {
        reveal(lay_box);
        reveal(lay_sized);
    }
    let s = resolve(b, fs, cb, h.viewport);
    if let Some(g) = replaced_image_box(b, &s, x, y, cb, f, h.images, h.body_height) {
        return Ok(g);
    }
    let w: i64 = used_width(b, &s, cb, h);
    layout_box_sized(b, &s, x, y, w, absorb, false, f, h, st)
}

/// Lay out a box whose border-box width is decided.
pub fn layout_box_sized<R: ImageResolver>(
    b: &LayoutBox,
    s: &BoxStyle,
    x: i64,
    y: i64,
    w: i64,
    absorb: bool,
    force: bool,
    f: Frame,
    h: &Host<R>,
    st: &mut State,
) -> (r: Result<Fragment, Request>)
    ensures
        frag_lay(r, final(st)@) == lay_sized(
            box_view(*b),
            s@,
            x,
            y,
            w,
            absorb,
            force,
            f,
            env_of(*h),
            old(st)@,
        ),
    decreases box_view(*b), 2int, 0nat,
{
    proof {
        reveal(lay_sized);
        reveal(lay_content);
    }
    if let Some(g) = replaced_image_box(b, s, x, y, w, f, h.images, h.body_height) {
        return Ok(g);
    }
    let bw = s.border.widths();
    let cx: i64 = plus(plus(x, bw.left), s.padding.left);
    let cy: i64 = plus(plus(y, bw.top), s.padding.top);
    let cw: i64 = max_of(minus(w, frame_width(s)), 0);
    let bfc: bool = force || establishes_bfc(b, s);
    let inner = frame_inside(s, f, cx, cy, cw);
    let ghost start = st@;
    let mut outer: Vec<FloatRect> = Vec::new();
    if bfc {
        std::mem::swap(&mut outer, &mut st.floats);
        proof {
            assert(st@.floats =~= Seq::empty());
        }
    }
    let (kids, h0) = match layout_content(b, s, cx, cy, cw, absorb, bfc, inner, h, st) {
        Ok(x) => x,
        Err(q) => return Err(q),
    };
    let basis: i64 = if s.position == Position::Absolute {
        f.abs_h
    } else {
        0
    };
    let fill: i64 = content_box_height(s, basis, cw, hold_floats(bfc, h0, &st.floats, cy));
    let at = ContentRect { x: cx, y: cy, w: cw, h: fill };
    let g = match finish_box(b, s, at, x, y, w, kids, h) {
        Ok(g) => g,
        Err(a) => return Err(Request::Angle(a)),
    };
    if bfc {
        std::mem::swap(&mut outer, &mut st.floats);
    }
    Ok(g)
}

/// Lay out what a box contains: the fragments and their height.
#[verifier::rlimit(60)]
fn layout_content<R: ImageResolver>(
    b: &LayoutBox,
    s: &BoxStyle,
    cx: i64,
    cy: i64,
    cw: i64,
    absorb: bool,
    bfc: bool,
    f: Frame,
    h: &Host<R>,
    st: &mut State,
) -> (r: Result<(Vec<Fragment>, i64), Request>)
    ensures
        content_lay(r, final(st)@) == lay_content(
            box_view(*b),
            s@,
            cx,
            cy,
            cw,
            absorb,
            bfc,
            f,
            env_of(*h),
            old(st)@,
        ),
    decreases box_view(*b), 1int, 0nat,
{
    proof {
        reveal(held_frame);
        reveal(lay_content);
        reveal(lay_flow);
        reveal(lay_held);
        reveal(lay_lines);
        reveal(lay_items);
        reveal(lay_table);
    }
    proof {
        lemma_kind_children(b.kind);
    }
    match &b.kind {
        BoxKind::Block(v) => {
            let a = FlowArgs { cx, cy, cw, fs: s.font_size, align: s.text_align };
            let run = match layout_block_flow(v, a, absorb, f, h, st) {
                Ok(w) => w,
                Err(q) => return Err(q),
            };
            let height: i64 = minus(run.cursor, cy);
            let tall: i64 = hold_floats(bfc, height, &st.floats, cy);
            let g = if s.position != Position::Static && f.abs_h <= 0 {
                Frame {
                    abs_x: f.abs_x,
                    abs_y: f.abs_y,
                    abs_w: f.abs_w,
                    abs_h: content_box_height(s, 0, cw, tall),
                    cb_h: f.cb_h,
                    root_w: f.root_w,
                }
            } else {
                f
            };
            match layout_held(v, run.kids, a, g, h, st) {
                Ok(frags) => Ok((frags, height)),
                Err(q) => Err(q),
            }
        },
        BoxKind::Lines(v) => layout_lines(v, s, cx, cy, cw, f, h, st),
        BoxKind::Flex(v) => layout_items(b, v, cx, cy, cw, s.font_size, f, h, st),
        BoxKind::Grid(v) => layout_items(b, v, cx, cy, cw, s.font_size, f, h, st),
        BoxKind::Table(v) => layout_table(b, v, cx, cy, cw, s.font_size, f, h, st),
        BoxKind::Directive(_) => {
            let out: Vec<Fragment> = Vec::new();
            proof {
                assert(frags_view(out@) =~= Seq::empty());
            }
            Ok((out, 0))
        },
    }
}

pub open spec fn run_lay(r: Result<FlowRun, Request>, st: St) -> Lay<FlowV> {
    match r {
        Ok(w) => Lay::Done(w@, st),
        Err(q) => Lay::Need(q@),
    }
}

/// A step that needs an answer leaves all later ones needing it.
proof fn lemma_flow_stops(
    v: Seq<BoxV>,
    a: FlowArgs,
    absorb: bool,
    f: Frame,
    env: Env,
    st: St,
    k: nat,
    n: nat,
)
    requires
        0 < k <= n <= v.len(),
        lay_flow(v, a, absorb, f, env, st, k) is Need,
    ensures
        lay_flow(v, a, absorb, f, env, st, n) == lay_flow(v, a, absorb, f, env, st, k),
    decreases n,
{
    reveal(lay_flow);
    reveal(lay_kid);
    if n > k {
        lemma_flow_stops(v, a, absorb, f, env, st, k, (n - 1) as nat);
    }
}

/// Lay out the children of a block container in normal flow.
fn layout_block_flow<R: ImageResolver>(
    v: &Vec<LayoutBox>,
    a: FlowArgs,
    absorb: bool,
    f: Frame,
    h: &Host<R>,
    st: &mut State,
) -> (r: Result<FlowRun, Request>)
    ensures
        run_lay(r, final(st)@) == lay_flow(
            boxes_view(v@),
            a,
            absorb,
            f,
            env_of(*h),
            old(st)@,
            v@.len(),
        ),
        r matches Ok(w) ==> w.kids@.len() == v@.len(),
    decreases boxes_view(v@), 0int, 0nat,
{
    proof {
        reveal(lay_flow);
        reveal(lay_kid);
    }
    let ghost bv = boxes_view(v@);
    let ghost start = st@;
    let ghost env = env_of(*h);
    let mut w = FlowRun {
        cursor: a.cy,
        margin: Margin { pos: 0, neg: 0 },
        absorbed: absorb,
        kids: Vec::new(),
    };
    proof {
        assert(held_view(w.kids@) =~= Seq::empty());
    }
    let mut k: usize = 0;
    while k < v.len()
        invariant
            k <= v@.len(),
            bv == boxes_view(v@),
            env == env_of(*h),
            start == old(st)@,
            w.kids@.len() == k,
            lay_flow(bv, a, absorb, f, env, start, k as nat) == Lay::Done(w@, st@),
        decreases v@.len() - k,
    {
        proof {
            reveal(lay_flow);
            reveal(lay_kid);
            assert(bv[k as int] == box_view(v@[k as int]));
        }
        match layout_kid(&v[k], w, a, f, h, st) {
            Ok(next) => {
                w = next;
            },
            Err(q) => {
                proof {
                    lemma_flow_stops(bv, a, absorb, f, env, start, (k + 1) as nat, bv.len());
                }
                return Err(q);
            },
        }
        k += 1;
    }
    Ok(w)
}

/// Lay out the next child of block flow.
#[verifier::rlimit(60)]
fn layout_kid<R: ImageResolver>(
    b: &LayoutBox,
    w: FlowRun,
    a: FlowArgs,
    f: Frame,
    h: &Host<R>,
    st: &mut State,
) -> (r: Result<FlowRun, Request>)
    ensures
        run_lay(r, final(st)@) == lay_kid(box_view(*b), w@, a, f, env_of(*h), old(st)@),
        r matches Ok(n) ==> n.kids@.len() == w.kids@.len() + 1,
    decreases box_view(*b), 5int, 0nat,
{
    proof {
        reveal(lay_kid);
        reveal(lay_float);
        reveal(lay_in_flow);
    }
    let s = resolve(b, a.fs, a.cw, h.viewport);
    let mut w = w;
    if s.position.is_out_of_flow() {
        let x: i64 = plus(a.cx, s.margin.left);
        let y: i64 = plus(
            w.cursor,
            margin_size(join_margins(w.margin, margin_of(s.margin.top))),
        );
        push_held(&mut w, Held::Held(x, y));
        return Ok(w);
    }
    if s.float != Float::Neither {
        let y0: i64 = plus(w.cursor, margin_size(w.margin));
        return match place_float(b, &s, a, y0, f, h, st) {
            Ok(g) => {
                push_held(&mut w, Held::Placed(g));
                Ok(w)
            },
            Err(q) => Err(q),
        };
    }
    layout_in_flow_kid(b, &s, w, a, f, h, st)
}

/// Place a float: size it, drop it to where it fits, pack it to its edge, and note
/// its margin box for what follows.
fn place_float<R: ImageResolver>(
    b: &LayoutBox,
    s: &BoxStyle,
    a: FlowArgs,
    y0: i64,
    f: Frame,
    h: &Host<R>,
    st: &mut State,
) -> (r: Result<Fragment, Request>)
    ensures
        frag_lay(r, final(st)@) == lay_float(box_view(*b), s@, a, y0, f, env_of(*h), old(st)@),
    decreases box_view(*b), 4int, 0nat,
{
    proof {
        reveal(float_rect);
        reveal(lay_float);
        reveal(lay_sized);
        reveal(lay_box);
    }
    let shrink: bool = takes_content_width(b, s, a.cw);
    let w: i64 = float_width(b, s, a.cw, h);
    let room: i64 = plus(w, s.margin.horizontal());
    let y: i64 = float_drop_y(&st.floats, a.cx, a.cw, room, y0);
    let (rx, rw): (i64, i64) = inline_region_from(&st.floats, a.cx, a.cw, y);
    let end: i64 = plus(rx, rw);
    let x: i64 = if s.float == Float::Right {
        minus(end, room)
    } else {
        rx
    };
    let bx: i64 = plus(x, s.margin.left);
    let by: i64 = plus(y, s.margin.top);
    let laid = if shrink {
        layout_box_sized(b, s, bx, by, w, false, false, f, h, st)
    } else {
        layout_box(b, bx, by, a.cw, a.fs, false, f, h, st)
    };
    let g = match laid {
        Ok(g) => reanchor_right_float(g, s, end, w),
        Err(q) => return Err(q),
    };
    let rect = FloatRect {
        x0: minus(g.x, s.margin.left),
        x1: plus(plus(g.x, g.width), s.margin.right),
        top: y,
        bottom: plus(plus(plus(y, s.margin.top), g.height), s.margin.bottom),
        side: s.float,
    };
    st.floats.push(rect);
    Ok(g)
}

fn takes_content_width(b: &LayoutBox, s: &BoxStyle, cw: i64) -> (r: bool)
    ensures
        r == shrinks(box_view(*b), s@, cw),
{
    let replaced: bool = match &b.image {
        Some(i) => i.replaced,
        None => false,
    };
    !replaced && s.width.resolve(cw).is_none()
}

/// The border-box width of a float.
pub fn float_width<R: ImageResolver>(b: &LayoutBox, s: &BoxStyle, cw: i64, h: &Host<R>) -> (r: i64)
    ensures
        r == float_width_of(box_view(*b), s@, cw, env_of(*h)),
{
    proof {
        reveal(float_width_of);
    }
    if takes_content_width(b, s, cw) {
        min_of(natural_width(b, h.text, h.images, h.viewport), cw)
    } else {
        border_box_width(s, cw)
    }
}

/// Move a right float back to the right edge, where it came out narrower or wider
/// than the room kept for it.
pub fn reanchor_right_float(g: Fragment, s: &BoxStyle, end: i64, w: i64) -> (r: Fragment)
    ensures
        r@ == reanchored(g@, s@, end, w),
{
    proof {
        reveal(reanchored);
    }
    let off: i128 = g.width as i128 - w as i128;
    if s.float == Float::Right && (off > HALF as i128 || -off > HALF as i128) {
        let dx: i64 = minus(minus(minus(end, s.margin.right), g.width), g.x);
        g.translate(dx, 0)
    } else {
        g
    }
}

/// Lay out one child in normal flow.
fn layout_in_flow_kid<R: ImageResolver>(
    b: &LayoutBox,
    s: &BoxStyle,
    w: FlowRun,
    a: FlowArgs,
    f: Frame,
    h: &Host<R>,
    st: &mut State,
) -> (r: Result<FlowRun, Request>)
    ensures
        run_lay(r, final(st)@) == lay_in_flow(box_view(*b), s@, w@, a, f, env_of(*h), old(st)@),
        r matches Ok(n) ==> n.kids@.len() == w.kids@.len() + 1,
    decreases box_view(*b), 4int, 0nat,
{
    proof {
        reveal(lay_in_flow);
        reveal(lay_box);
    }
    let mut w = w;
    let base: i64 = plus(w.cursor, margin_size(w.margin));
    let cleared: i64 = clear_below(&b.style, &st.floats, base);
    let mut cursor: i64 = w.cursor;
    let mut pending: Margin = w.margin;
    if cleared > base {
        cursor = cleared;
        pending = Margin { pos: 0, neg: 0 };
    }
    let top: Margin = if w.absorbed {
        pending
    } else {
        join_margins(pending, leading_margin(b, s, a.cw, h.viewport))
    };
    let flow_y: i64 = plus(cursor, margin_size(top));
    let (rx, rw): (i64, i64) = flow_region(b, s, a, &st.floats, flow_y);
    let (dx, dy): (i64, i64) = flow_relative_offset(s, a.cw);
    let g = match layout_box(
        b,
        plus(plus(rx, s.margin.left), dx),
        plus(flow_y, dy),
        rw,
        a.fs,
        does_hoist(b, s),
        f,
        h,
        st,
    ) {
        Ok(g) => g,
        Err(q) => return Err(q),
    };
    let tall: i64 = g.height;
    let hx: i64 = block_h_offset(a.align, s, &b.style, g.width, rw);
    let g = if hx == 0 {
        g
    } else {
        g.translate(hx, 0)
    };
    push_held(&mut w, Held::Placed(g));
    w.absorbed = false;
    if tall == 0 {
        w.cursor = cursor;
        w.margin = join_margins(top, margin_of(s.margin.bottom));
    } else {
        w.cursor = plus(flow_y, tall);
        w.margin = margin_of(s.margin.bottom);
    }
    Ok(w)
}

/// Where a child in normal flow starts and how much room it has.
pub fn flow_region(b: &LayoutBox, s: &BoxStyle, a: FlowArgs, floats: &Vec<FloatRect>, y: i64) -> (r: (
    i64,
    i64,
))
    ensures
        r == flow_region_of(box_view(*b), s@, a, floats@, y),
{
    proof {
        reveal(flow_region_of);
    }
    let replaced: bool = match &b.image {
        Some(i) => i.replaced,
        None => false,
    };
    if establishes_bfc(b, s) || replaced {
        inline_region_from(floats, a.cx, a.cw, y)
    } else {
        (a.cx, a.cw)
    }
}

/// The fragments of the children of a block container: those held back are laid
/// out now.
fn layout_held<R: ImageResolver>(
    v: &Vec<LayoutBox>,
    kids: Vec<Held>,
    a: FlowArgs,
    f: Frame,
    h: &Host<R>,
    st: &mut State,
) -> (r: Result<Vec<Fragment>, Request>)
    requires
        kids@.len() == v@.len(),
    ensures
        frags_lay(r, final(st)@) == lay_held(
            boxes_view(v@),
            held_view(kids@),
            a,
            f,
            env_of(*h),
            old(st)@,
            v@.len(),
        ),
    decreases boxes_view(v@), 0int, 0nat,
{
    proof {
        reveal(lay_held);
        reveal(lay_positioned);
    }
    let ghost bv = boxes_view(v@);
    let ghost start = st@;
    let ghost env = env_of(*h);
    let ghost all = kids@;
    let ghost hv = held_view(kids@);
    let n: usize = v.len();
    let mut out: Vec<Fragment> = Vec::new();
    proof {
        assert(frags_view(out@) =~= Seq::empty());
    }
    let mut k: usize = 0;
    for kid in it: kids
        invariant
            it.seq() == all,
            all.len() == v@.len(),
            hv == held_view(all),
            k == it.index(),
            k <= all.len(),
            all.len() == n,
            bv == boxes_view(v@),
            env == env_of(*h),
            start == old(st)@,
            lay_held(bv, hv, a, f, env, start, k as nat) == Lay::Done(frags_view(out@), st@),
    {
        proof {
            reveal(lay_held);
            reveal(lay_positioned);
            assert(hv[k as int] == kid@);
            assert(bv[k as int] == box_view(v@[k as int]));
        }
        let g = match kid {
            Held::Placed(g) => g,
            Held::Held(x, y) => match layout_positioned(&v[k], x, y, a, f, h, st) {
                Ok(g) => g,
                Err(q) => {
                    proof {
                        lemma_held_stops(bv, hv, a, f, env, start, (k + 1) as nat, bv.len());
                    }
                    return Err(q);
                },
            },
        };
        proof {
            lemma_frags_push(out@, g);
        }
        out.push(g);
        k += 1;
    }
    Ok(out)
}

proof fn lemma_held_stops(
    v: Seq<BoxV>,
    kids: Seq<HeldV>,
    a: FlowArgs,
    f: Frame,
    env: Env,
    st: St,
    k: nat,
    n: nat,
)
    requires
        0 < k <= n <= v.len(),
        lay_held(v, kids, a, f, env, st, k) is Need,
    ensures
        lay_held(v, kids, a, f, env, st, n) == lay_held(v, kids, a, f, env, st, k),
    decreases n,
{
    reveal(lay_held);
    reveal(lay_positioned);
    if n > k {
        lemma_held_stops(v, kids, a, f, env, st, k, (n - 1) as nat);
    }
}

/// Lay out an out-of-flow box at its insets, or where it would stand in flow.
fn layout_positioned<R: ImageResolver>(
    b: &LayoutBox,
    x: i64,
    y: i64,
    a: FlowArgs,
    f: Frame,
    h: &Host<R>,
    st: &mut State,
) -> (r: Result<Fragment, Request>)
    ensures
        frag_lay(r, final(st)@) == lay_positioned(box_view(*b), x, y, a, f, env_of(*h), old(st)@),
    decreases box_view(*b), 4int, 0nat,
{
    proof {
        reveal(lay_positioned);
        reveal(lay_box);
    }
    let s = resolve(b, a.fs, a.cw, h.viewport);
    let (bx, by): (i64, i64) = out_of_flow_origin(&s, a.cw, f, x, y);
    match layout_box(b, bx, by, a.cw, a.fs, false, f, h, st) {
        Ok(g) => {
            let dy: i64 = anchor_bottom(&s, f, by, g.height);
            if dy == 0 {
                Ok(g)
            } else {
                Ok(g.translate(0, dy))
            }
        },
        Err(q) => Err(q),
    }
}

// --------------------------------------------------------------------------
// inline contexts
// --------------------------------------------------------------------------

/// The pieces of an inline context, with the boxes and markers among them.
#[derive(Debug)]
pub struct Pieces {
    pub pieces: Vec<Piece>,
    pub atoms: Vec<Fragment>,
    pub marks: Vec<Fragment>,
}

impl View for Pieces {
    type V = PiecesV;

    open spec fn view(&self) -> PiecesV {
        PiecesV {
            pieces: pieces_view(self.pieces@),
            atoms: frags_view(self.atoms@),
            marks: frags_view(self.marks@),
        }
    }
}

pub open spec fn pieces_lay(r: Result<Pieces, Request>, st: St) -> Lay<PiecesV> {
    match r {
        Ok(p) => Lay::Done(p@, st),
        Err(q) => Lay::Need(q@),
    }
}

fn push_piece(v: &mut Vec<Piece>, p: Piece)
    ensures
        pieces_view(final(v)@) == pieces_view(old(v)@).push(p@),
{
    proof {
        assert(pieces_view(v@.push(p)) =~= pieces_view(v@).push(p@));
    }
    v.push(p);
}

fn push_frag(v: &mut Vec<Fragment>, g: Fragment)
    ensures
        frags_view(final(v)@) == frags_view(old(v)@).push(g@),
{
    proof {
        lemma_frags_push(v@, g);
    }
    v.push(g);
}

proof fn lemma_pieces_stop(
    v: Seq<ItemV>,
    s: BoxStyleV,
    cx: i64,
    cy: i64,
    cw: i64,
    f: Frame,
    env: Env,
    st: St,
    k: nat,
    n: nat,
)
    requires
        0 < k <= n <= v.len(),
        lay_pieces(v, s, cx, cy, cw, f, env, st, k) is Need,
    ensures
        lay_pieces(v, s, cx, cy, cw, f, env, st, n) == lay_pieces(v, s, cx, cy, cw, f, env, st, k),
    decreases n,
{
    reveal(lay_pieces);
    reveal(lay_atomic);
    if n > k {
        lemma_pieces_stop(v, s, cx, cy, cw, f, env, st, k, (n - 1) as nat);
    }
}

/// Put an inline context into pieces: text into runs, boxes laid out at the origin
/// to be placed once their line is known, directives into markers.
fn build_inline_pieces<R: ImageResolver>(
    v: &Vec<InlineItem>,
    s: &BoxStyle,
    cx: i64,
    cy: i64,
    cw: i64,
    f: Frame,
    h: &Host<R>,
    st: &mut State,
) -> (r: Result<Pieces, Request>)
    ensures
        pieces_lay(r, final(st)@) == lay_pieces(
            items_view(v@),
            s@,
            cx,
            cy,
            cw,
            f,
            env_of(*h),
            old(st)@,
            v@.len(),
        ),
    decreases items_view(v@), 0int, 0nat,
{
    proof {
        reveal(lay_pieces);
        reveal(lay_atomic);
    }
    let ghost iv = items_view(v@);
    let ghost start = st@;
    let ghost env = env_of(*h);
    let mut p = Pieces { pieces: Vec::new(), atoms: Vec::new(), marks: Vec::new() };
    proof {
        assert(p@.pieces =~= Seq::empty());
        assert(p@.atoms =~= Seq::empty());
        assert(p@.marks =~= Seq::empty());
    }
    let mut k: usize = 0;
    while k < v.len()
        invariant
            k <= v@.len(),
            iv == items_view(v@),
            env == env_of(*h),
            start == old(st)@,
            lay_pieces(iv, s@, cx, cy, cw, f, env, start, k as nat) == Lay::Done(p@, st@),
        decreases v@.len() - k,
    {
        proof {
            reveal(lay_pieces);
            reveal(lay_atomic);
            assert(iv[k as int] == item_view(v@[k as int]));
        }
        match &v[k] {
            InlineItem::Text { node_id, style, text } => {
                if let Some(run) = text_run(
                    *node_id,
                    style,
                    text,
                    s.font_size,
                    cw,
                    h.fonts,
                    h.viewport,
                ) {
                    push_piece(&mut p.pieces, Piece::Run(run));
                }
            },
            InlineItem::LineBreak => {
                push_piece(&mut p.pieces, Piece::Break);
            },
            InlineItem::Directive { node_id, kind } => {
                let g = Fragment::new(*node_id, cx, cy, 0, 0, FragmentContent::Directive(*kind));
                push_frag(&mut p.marks, g);
            },
            InlineItem::Atomic(b) => {
                proof {
                    assert(iv[k as int] == ItemV::Atomic(box_view(*b)));
                    assert(decreases_to!(iv => iv[k as int]));
                    assert(decreases_to!(iv[k as int] => iv[k as int]->Atomic_0));
                }
                let g = match layout_atomic(b, cw, s.font_size, f, h, st) {
                    Ok(g) => g,
                    Err(q) => {
                        proof {
                            lemma_pieces_stop(
                                iv,
                                s@,
                                cx,
                                cy,
                                cw,
                                f,
                                env,
                                start,
                                (k + 1) as nat,
                                iv.len(),
                            );
                        }
                        return Err(q);
                    },
                };
                let own = resolve(b, s.font_size, cw, h.viewport);
                let atom = InlineAtom {
                    id: p.atoms.len(),
                    width: plus(plus(own.margin.left, g.width), own.margin.right),
                    height: plus(plus(own.margin.top, g.height), own.margin.bottom),
                    valign: own.vertical_align,
                    font_size: s.font_size,
                };
                push_piece(&mut p.pieces, Piece::Atom(atom));
                push_frag(&mut p.atoms, g.translate(own.margin.left, own.margin.top));
            },
        }
        k += 1;
    }
    Ok(p)
}

/// Lay out an unbreakable box of a line at the origin.
fn layout_atomic<R: ImageResolver>(
    b: &LayoutBox,
    cw: i64,
    fs: i64,
    f: Frame,
    h: &Host<R>,
    st: &mut State,
) -> (r: Result<Fragment, Request>)
    ensures
        frag_lay(r, final(st)@) == lay_atomic(box_view(*b), cw, fs, f, env_of(*h), old(st)@),
    decreases box_view(*b), 4int, 0nat,
{
    proof {
        reveal(atom_width);
        reveal(lay_atomic);
        reveal(lay_sized);
        reveal(lay_box);
    }
    let s = resolve(b, fs, cw, h.viewport);
    if takes_content_width(b, &s, cw) {
        let wide: i64 = natural_width(b, h.text, h.images, h.viewport);
        let slim: i64 = min_content_width(b, h.text, h.images, h.viewport);
        let w: i64 = clamp_width(min_of(wide, max_of(cw, slim)), &s, cw, frame_width(&s));
        layout_box_sized(b, &s, 0, 0, w, false, false, f, h, st)
    } else {
        layout_box(b, 0, 0, cw, fs, false, f, h, st)
    }
}

fn copy_floats(v: &Vec<FloatRect>) -> (r: Vec<FloatRect>)
    ensures
        r@ == v@,
{
    let mut out: Vec<FloatRect> = Vec::new();
    let mut i: usize = 0;
    while i < v.len()
        invariant
            i <= v@.len(),
            out@ == v@.take(i as int),
        decreases v@.len() - i,
    {
        out.push(v[i]);
        proof {
            assert(out@ =~= v@.take(i as int + 1));
        }
        i += 1;
    }
    proof {
        assert(v@.take(i as int) =~= v@);
    }
    out
}

/// The next answer, where it is a paragraph's.
fn next_lines<'a, R: ImageResolver>(h: &Host<'a, R>, used: usize) -> (r: Option<&'a ParagraphLayout>)
    ensures
        match r {
            Some(p) => lines_at(env_of(*h), used as int) == Some(p@) && used < usize::MAX,
            None => lines_at(env_of(*h), used as int) is None,
        },
{
    let n: usize = h.answers.len();
    if used < n {
        proof {
            assert(env_of(*h).answers[used as int] == h.answers@[used as int]@);
        }
        match &h.answers[used] {
            Answer::Lines(p) => Some(p),
            _ => None,
        }
    } else {
        None
    }
}

/// Lay out an inline context.
fn layout_lines<R: ImageResolver>(
    v: &Vec<InlineItem>,
    s: &BoxStyle,
    cx: i64,
    cy: i64,
    cw: i64,
    f: Frame,
    h: &Host<R>,
    st: &mut State,
) -> (r: Result<(Vec<Fragment>, i64), Request>)
    ensures
        content_lay(r, final(st)@) == lay_lines(
            items_view(v@),
            s@,
            cx,
            cy,
            cw,
            f,
            env_of(*h),
            old(st)@,
        ),
    decreases items_view(v@), 1int, 0nat,
{
    proof {
        reveal(lay_lines);
        reveal(lay_pieces);
    }
    let p = match build_inline_pieces(v, s, cx, cy, cw, f, h, st) {
        Ok(p) => p,
        Err(q) => return Err(q),
    };
    if p.pieces.len() == 0 {
        return Ok((p.marks, 0));
    }
    match next_lines(h, st.used) {
        Some(para) => {
            st.used = st.used + 1;
            let mut out = lines_to_fragments(para, cx, cy);
            let ghost texts = out@;
            let mut atoms = place_atoms(para, &p.atoms, cx, cy);
            let ghost placed = atoms@;
            let mut marks = p.marks;
            let ghost marked = marks@;
            out.append(&mut atoms);
            out.append(&mut marks);
            proof {
                assert(frags_view(out@) =~= frags_view(texts) + frags_view(placed) + frags_view(
                    marked,
                ));
            }
            Ok((out, para.height))
        },
        None => Err(
            Request::Paragraph(
                ParagraphRequest {
                    pieces: p.pieces,
                    align: s.text_align,
                    x: cx,
                    y: cy,
                    width: cw,
                    floats: copy_floats(&st.floats),
                    font_size: s.font_size,
                    line_height: s.line_height,
                },
            ),
        ),
    }
}

// --------------------------------------------------------------------------
// flex and grid items
// --------------------------------------------------------------------------

/// The next answer, where it places `n` items.
fn next_places<'a, R: ImageResolver>(h: &Host<'a, R>, used: usize, n: usize) -> (r: Option<
    &'a Solved,
>)
    ensures
        match r {
            Some(p) => places_at(env_of(*h), used as int, n as nat) == Some(
                (p.places@, p.height as int),
            ) && p.places@.len() == n && used < usize::MAX,
            None => places_at(env_of(*h), used as int, n as nat) is None,
        },
{
    let m: usize = h.answers.len();
    if used < m {
        proof {
            assert(env_of(*h).answers[used as int] == h.answers@[used as int]@);
        }
        match &h.answers[used] {
            Answer::Items(p) => if p.places.len() == n {
                Some(p)
            } else {
                None
            },
            _ => None,
        }
    } else {
        None
    }
}

/// Lay out the items of a flex or grid container.
fn layout_items<R: ImageResolver>(
    b: &LayoutBox,
    v: &Vec<LayoutBox>,
    cx: i64,
    cy: i64,
    cw: i64,
    fs: i64,
    f: Frame,
    h: &Host<R>,
    st: &mut State,
) -> (r: Result<(Vec<Fragment>, i64), Request>)
    ensures
        content_lay(r, final(st)@) == lay_items(
            box_view(*b).id,
            boxes_view(v@),
            cx,
            cy,
            cw,
            fs,
            f,
            env_of(*h),
            old(st)@,
        ),
    decreases boxes_view(v@), 1int, 0nat,
{
    proof {
        reveal(lay_items);
        reveal(lay_placed);
    }
    if v.len() == 0 {
        let out: Vec<Fragment> = Vec::new();
        proof {
            assert(frags_view(out@) =~= Seq::empty());
        }
        return Ok((out, 0));
    }
    match next_places(h, st.used, v.len()) {
        Some(solved) => {
            st.used = st.used + 1;
            match place_items(v, &solved.places, cx, cy, fs, f, h, st) {
                Ok(frags) => Ok((frags, solved.height)),
                Err(q) => Err(q),
            }
        },
        None => Err(
            Request::Items(
                ItemsRequest { id: b.node_id, font_size: fs, width: cw, height: f.cb_h },
            ),
        ),
    }
}

proof fn lemma_placed_stops(
    v: Seq<BoxV>,
    places: Seq<Rect>,
    cx: i64,
    cy: i64,
    fs: i64,
    f: Frame,
    env: Env,
    st: St,
    k: nat,
    n: nat,
)
    requires
        0 < k <= n <= v.len(),
        lay_placed(v, places, cx, cy, fs, f, env, st, k) is Need,
    ensures
        lay_placed(v, places, cx, cy, fs, f, env, st, n) == lay_placed(
            v,
            places,
            cx,
            cy,
            fs,
            f,
            env,
            st,
            k,
        ),
    decreases n,
{
    reveal(lay_placed);
    reveal(lay_sized);
    if n > k {
        lemma_placed_stops(v, places, cx, cy, fs, f, env, st, k, (n - 1) as nat);
    }
}

/// The style of an item whose border-box height has been decided.
fn force_height(s: BoxStyle, h: i64) -> (r: BoxStyle)
    ensures
        r@ == forced_height(s@, h),
{
    proof {
        reveal(forced_height);
    }
    if let LengthPct::Px(_) = s.height {
        return s;
    }
    let tall: i64 = max_of(minus(h, v_extra(&s)), 0);
    let mut s = s;
    s.height = LengthPct::Px(tall);
    s.box_sizing = BoxSizing::ContentBox;
    s
}

/// Lay out the items of a container at their places.
fn place_items<R: ImageResolver>(
    v: &Vec<LayoutBox>,
    places: &Vec<Rect>,
    cx: i64,
    cy: i64,
    fs: i64,
    f: Frame,
    h: &Host<R>,
    st: &mut State,
) -> (r: Result<Vec<Fragment>, Request>)
    requires
        places@.len() == v@.len(),
    ensures
        frags_lay(r, final(st)@) == lay_placed(
            boxes_view(v@),
            places@,
            cx,
            cy,
            fs,
            f,
            env_of(*h),
            old(st)@,
            v@.len(),
        ),
    decreases boxes_view(v@), 0int, 0nat,
{
    proof {
        reveal(lay_placed);
        reveal(lay_sized);
    }
    let ghost bv = boxes_view(v@);
    let ghost start = st@;
    let ghost env = env_of(*h);
    let mut out: Vec<Fragment> = Vec::new();
    proof {
        assert(frags_view(out@) =~= Seq::empty());
    }
    let mut k: usize = 0;
    while k < v.len()
        invariant
            k <= v@.len(),
            places@.len() == v@.len(),
            bv == boxes_view(v@),
            env == env_of(*h),
            start == old(st)@,
            lay_placed(bv, places@, cx, cy, fs, f, env, start, k as nat) == Lay::Done(
                frags_view(out@),
                st@,
            ),
        decreases v@.len() - k,
    {
        proof {
            reveal(lay_placed);
            reveal(lay_sized);
            assert(bv[k as int] == box_view(v@[k as int]));
        }
        let p: Rect = places[k];
        let s = force_height(resolve(&v[k], fs, p.width, h.viewport), p.height);
        match layout_box_sized(&v[k], &s, 0, 0, p.width, false, true, f, h, st) {
            Ok(g) => {
                push_frag(&mut out, g.translate(plus(cx, p.x), plus(cy, p.y)));
            },
            Err(q) => {
                proof {
                    lemma_placed_stops(
                        bv,
                        places@,
                        cx,
                        cy,
                        fs,
                        f,
                        env,
                        start,
                        (k + 1) as nat,
                        bv.len(),
                    );
                }
                return Err(q);
            },
        }
        k += 1;
    }
    Ok(out)
}

// --------------------------------------------------------------------------
// tables
// --------------------------------------------------------------------------

/// The columns of a table.
#[derive(Debug)]
pub enum Columns {
    Separate(Vec<i64>),
    Merged(Merged),
}

impl View for Columns {
    type V = ColumnsV;

    open spec fn view(&self) -> ColumnsV {
        match *self {
            Columns::Separate(v) => ColumnsV::Separate(v@),
            Columns::Merged(m) => ColumnsV::Merged(m@),
        }
    }
}

impl Columns {
    /// Whether there are `n` of them.
    pub open spec fn count(self, n: int) -> bool {
        match self {
            Columns::Separate(v) => v@.len() == n,
            Columns::Merged(m) => m.tracks@.len() == n && m.lines@.len() == n + 1
                && m.centers@.len() == n + 1,
        }
    }
}

pub open spec fn laid_lay(r: Result<Vec<LaidCell>, Request>, st: St) -> Lay<Seq<LaidV>> {
    match r {
        Ok(v) => Lay::Done(laid_view(v@), st),
        Err(q) => Lay::Need(q@),
    }
}

/// Lay out the rows of a table.
fn layout_table<R: ImageResolver>(
    b: &LayoutBox,
    v: &Vec<LayoutBox>,
    cx: i64,
    cy: i64,
    cw: i64,
    fs: i64,
    f: Frame,
    h: &Host<R>,
    st: &mut State,
) -> (r: Result<(Vec<Fragment>, i64), Request>)
    ensures
        content_lay(r, final(st)@) == lay_table(
            b.style@,
            boxes_view(v@),
            cx,
            cy,
            cw,
            fs,
            f,
            env_of(*h),
            old(st)@,
        ),
    decreases boxes_view(v@), 1int, 0nat,
{
    proof {
        reveal(table_rows);
        reveal(lay_table);
        reveal(lay_cells);
    }
    let rows = collect_rows(v, h.viewport);
    let (c, n) = match prepare(&rows, h.text, h.images, h.viewport) {
        Some((c, n)) => (c, n),
        None => {
            let out: Vec<Fragment> = Vec::new();
            proof {
                assert(frags_view(out@) =~= Seq::empty());
            }
            return Ok((out, 0));
        },
    };
    if n == 0 {
        let out: Vec<Fragment> = Vec::new();
        proof {
            assert(frags_view(out@) =~= Seq::empty());
        }
        return Ok((out, 0));
    }
    let table = cell_border(&b.style, h.viewport);
    let cols = if merged(&b.style) {
        Columns::Merged(columns_merged(&c, n, rows.len(), cw, table))
    } else {
        Columns::Separate(columns_separate(&b.style, &c, n, rows.len(), cw, h.viewport))
    };
    let laid = match layout_cells(v, &rows, &c, &cols, fs, f, h, st) {
        Ok(l) => l,
        Err(q) => return Err(q),
    };
    match &cols {
        Columns::Merged(m) => Ok(finish_merged(&rows, &c, m, laid, table, cx, cy)),
        Columns::Separate(w) => Ok(
            finish_separate(&b.style, &rows, &c, w, laid, cx, cy, h.viewport),
        ),
    }
}

proof fn lemma_cells_stop(
    v: Seq<BoxV>,
    slots: Seq<Slot>,
    cols: ColumnsV,
    fs: i64,
    f: Frame,
    env: Env,
    st: St,
    k: nat,
    n: nat,
)
    requires
        0 < k <= n <= slots.len(),
        lay_cells(v, slots, cols, fs, f, env, st, k) is Need,
    ensures
        lay_cells(v, slots, cols, fs, f, env, st, n) == lay_cells(
            v,
            slots,
            cols,
            fs,
            f,
            env,
            st,
            k,
        ),
    decreases n,
{
    reveal(lay_cells);
    reveal(lay_sized);
    if n > k {
        lemma_cells_stop(v, slots, cols, fs, f, env, st, k, (n - 1) as nat);
    }
}

/// Lay out the cells of a table, each at the origin.
fn layout_cells<R: ImageResolver>(
    v: &Vec<LayoutBox>,
    rows: &Vec<RowRef>,
    c: &Cells,
    cols: &Columns,
    fs: i64,
    f: Frame,
    h: &Host<R>,
    st: &mut State,
) -> (r: Result<Vec<LaidCell>, Request>)
    requires
        rows_view(rows@) == rows_in(boxes_view(v@), h.viewport, v@.len()),
        forall|i: int|
            0 <= i < c.slots@.len() ==> (#[trigger] c.slots@[i]).row < rows@.len()
                && c.slots@[i].cell < rows@[c.slots@[i].row as int].cells@.len(),
        exists|n: int| #[trigger] within(c.slots@, n) && cols.count(n),
    ensures
        laid_lay(r, final(st)@) == lay_cells(
            boxes_view(v@),
            c.slots@,
            cols@,
            fs,
            f,
            env_of(*h),
            old(st)@,
            c.slots@.len(),
        ),
        r matches Ok(l) ==> laid_for(l@, c.slots@),
    decreases boxes_view(v@), 0int, 0nat,
{
    proof {
        reveal(lay_cells);
        reveal(lay_sized);
    }
    let ghost bv = boxes_view(v@);
    let ghost rv = rows_view(rows@);
    let ghost start = st@;
    let ghost env = env_of(*h);
    let ghost n = choose|n: int| #[trigger] within(c.slots@, n) && cols.count(n);
    let mut out: Vec<LaidCell> = Vec::new();
    proof {
        assert(laid_view(out@) =~= Seq::empty());
    }
    let mut k: usize = 0;
    while k < c.slots.len()
        invariant
            k <= c.slots@.len(),
            bv == boxes_view(v@),
            rv == rows_view(rows@),
            rv == rows_in(bv, h.viewport, bv.len()),
            env == env_of(*h),
            start == old(st)@,
            within(c.slots@, n),
            cols.count(n),
            forall|i: int|
                0 <= i < c.slots@.len() ==> (#[trigger] c.slots@[i]).row < rows@.len()
                    && c.slots@[i].cell < rows@[c.slots@[i].row as int].cells@.len(),
            out@.len() == k,
            forall|i: int| 0 <= i < k ==> (#[trigger] out@[i]).slot == c.slots@[i],
            lay_cells(bv, c.slots@, cols@, fs, f, env, start, k as nat) == Lay::Done(
                laid_view(out@),
                st@,
            ),
        decreases c.slots@.len() - k,
    {
        let slot: Slot = c.slots[k];
        let cell: &LayoutBox = rows[slot.row].cells[slot.cell];
        proof {
            assert(c.slots@[k as int].col + c.slots@[k as int].colspan <= n);
            assert(rv[slot.row as int] == rows@[slot.row as int]@);
            assert(rv[slot.row as int].cells == refs_view(rows@[slot.row as int].cells@));
            assert(cell_in(rv, slot) == box_view(*cell));
            reveal(lay_cells);
            reveal(lay_sized);
            lemma_cell_is_smaller(bv, h.viewport, bv.len(), slot.row as int, slot.cell as int);
        }
        let laid = match cols {
            Columns::Separate(w) => {
                let width: i64 = spanned(w, slot.col, slot.colspan);
                let s = resolve(cell, fs, width, h.viewport);
                match layout_box_sized(cell, &s, 0, 0, width, false, true, f, h, st) {
                    Ok(g) => Ok(LaidCell { slot, frag: g, valign: s.vertical_align }),
                    Err(q) => Err(q),
                }
            },
            Columns::Merged(m) => {
                let (extent, _) = merged_cell(m, slot, 0);
                let s = resolve(cell, fs, extent, h.viewport);
                let (_, width) = merged_cell(m, slot, s.border.widths().horizontal());
                match layout_box_sized(cell, &s, 0, 0, width, false, true, f, h, st) {
                    Ok(mut g) => {
                        let ghost before = g;
                        g.width = extent;
                        proof {
                            lemma_frag_children(before);
                            lemma_frag_children(g);
                        }
                        Ok(LaidCell { slot, frag: g, valign: s.vertical_align })
                    },
                    Err(q) => Err(q),
                }
            },
        };
        match laid {
            Ok(l) => {
                proof {
                    assert(laid_view(out@.push(l)) =~= laid_view(out@).push(l@));
                }
                out.push(l);
            },
            Err(q) => {
                proof {
                    lemma_cells_stop(
                        bv,
                        c.slots@,
                        cols@,
                        fs,
                        f,
                        env,
                        start,
                        (k + 1) as nat,
                        c.slots@.len(),
                    );
                }
                return Err(q);
            },
        }
        k += 1;
    }
    Ok(out)
}

// --------------------------------------------------------------------------
// the galley
// --------------------------------------------------------------------------

/// Lay out a box tree on a page of that width, rooted at the origin, or say what
/// else has to be known. Images are sized by what the host resolves.
pub fn layout_tree_with_images<R: ImageResolver>(root: &LayoutBox, w: i64, h: &Host<R>) -> (r: Result<
    Fragment,
    Request,
>)
    ensures
        match r {
            Ok(g) => lay_tree(box_view(*root), w, env_of(*h)) matches Lay::Done(v, _) && v == g@,
            Err(q) => lay_tree(box_view(*root), w, env_of(*h)) == Lay::<FragV>::Need(q@),
        },
{
    let mut st = State { floats: Vec::new(), used: 0 };
    let f = Frame { abs_x: 0, abs_y: 0, abs_w: w, abs_h: 0, cb_h: 0, root_w: w };
    proof {
        assert(st@.floats =~= Seq::empty());
    }
    match layout_box(root, 0, 0, w, DEFAULT_FONT_SIZE, false, f, h, &mut st) {
        Ok(mut g) => {
            let ghost before = g;
            g.height = max_of(g.height, bottom_of_floats(&st.floats, 0));
            proof {
                lemma_frag_children(before);
                lemma_frag_children(g);
            }
            Ok(g)
        },
        Err(q) => Err(q),
    }
}

/// Lay out a box tree without images.
pub fn layout_tree(
    root: &LayoutBox,
    w: i64,
    text: &Vec<TextWidth>,
    trig: &Vec<AngleTrig>,
    fonts: &FontRegistry,
    viewport: Viewport,
    answers: &Vec<Answer>,
) -> (r: Result<Fragment, Request>)
    ensures
        ({
            let env = Env {
                text: text@,
                trig: trig@,
                images: images_of(NoImages),
                body_height: None,
                fonts: fonts@,
                viewport,
                answers: answers_view(answers@),
            };
            match r {
                Ok(g) => lay_tree(box_view(*root), w, env) matches Lay::Done(v, _) && v == g@,
                Err(q) => lay_tree(box_view(*root), w, env) == Lay::<FragV>::Need(q@),
            }
        }),
{
    let h = Host { text, trig, images: &NoImages, body_height: None, fonts, viewport, answers };
    layout_tree_with_images(root, w, &h)
}

} // verus!
