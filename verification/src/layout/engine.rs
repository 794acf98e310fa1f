//! The layout engine: a box tree becomes a galley of positioned fragments.
//!
//! Widths resolve top-down; heights and places accumulate as boxes stack, with
//! adjoining margins collapsed, floats packed to their edges and positioned boxes
//! put against their containing blocks.
//!
//! Three things come from outside: paragraphs broken into lines, the places of
//! flex and grid items, and the functions of a transform's angle. Layout is run
//! over what is known of them, and where the next one is missing it stops with a
//! [`Request`]; run again with the answer added, it comes one step further.

use vstd::prelude::*;

use crate::image::{images_of, ImageResolver, Images};
use crate::layout::block::{
    border_box_width, border_width_of, bottom_of_floats, bottom_shift, clamped_width, cleared_y,
    content_height_of, content_width_of, definite_content_height, definite_height, drop_y,
    establishes_bfc, floats_bottom, h_offset, isolates, join_margins, margin_of, origin_of, region,
    relative_shift, v_extra, v_frame, FloatRect, Frame, Margin, HALF,
};
use crate::layout::boxgen::{
    box_view, boxes_view, lemma_kind_children, BoxKind, BoxV, ItemV, KindV, LayoutBox,
};
use crate::layout::fragment::{
    frags_view, lemma_frag_children, moved, plain_frag, ContentV, FragV, Fragment, NodeId, Rect,
};
use crate::layout::inline::{
    atom_frags, pieces_view, run_for, text_frags, InlineAtom, ParagraphLayout, ParagraphV, Piece,
    PieceV,
};
use crate::layout::grid_slots::{grid_of, Slot};
use crate::layout::length::{Edges, LengthPct, Viewport, DEFAULT_FONT_SIZE};
use crate::layout::measure::{
    frame_of, frame_width, is_replaced, min_content, natural, sources, Sources, TextWidth,
};
use crate::layout::paint::{
    breaks_of, break_meta_of, content_for, content_kind, image_box, prepend_background_image,
    prepend_mask_image, with_images, ContentRect,
};
use crate::layout::table::{collect_rows, range_sum, rows_in, RowV};
use crate::layout::table_cells::{
    all_spans, cell_in, cells_of_rows, lemma_cell_is_smaller, prepare, table_fits,
};
use crate::layout::table_layout::{
    least_width, merged_columns, merged_extent, merged_geom, merged_rows, merged_width,
    merges_borders, separate_columns, separate_geom, separate_height, table_min_width, CellsV,
    Merged, MergedV,
};
use crate::layout::table_place::{finished_rows, horizontal_lines, LaidV};
use crate::layout::table::total_of;
use crate::layout::table_widths::{border_of, cell_border};
use crate::layout::transform::AngleTrig;
use crate::layout::value::{
    box_style_in, resolve_box_style, BoxSizing, BoxStyle, BoxStyleV, Float, Position, ResolveCtx,
};
use crate::number::{clip, diff, greatest, least, max_of, minus, plus, sum};
use crate::style::StyleMap;
use crate::text::registry::{FontRegistry, RegistryV};
use crate::text::Align;

verus! {

// --------------------------------------------------------------------------
// requests and answers
// --------------------------------------------------------------------------

/// A paragraph to break into lines: each line in the region that the floats leave
/// free beside it, and no lower than the strut of its block's own font.
#[derive(Debug)]
pub struct ParagraphRequest {
    pub pieces: Vec<Piece>,
    pub align: Align,
    pub x: i64,
    pub y: i64,
    pub width: i64,
    pub floats: Vec<FloatRect>,
    pub font_size: i64,
    pub line_height: Option<i64>,
}

/// The mathematical reading of a [`ParagraphRequest`].
pub struct ParagraphRequestV {
    pub pieces: Seq<PieceV>,
    pub align: Align,
    pub x: i64,
    pub y: i64,
    pub width: i64,
    pub floats: Seq<FloatRect>,
    pub font_size: i64,
    pub line_height: Option<i64>,
}

/// A flex or grid container whose items are to be placed: its content width, and
/// its content height where that is definite, else zero.
#[derive(Debug, Clone, Copy, PartialEq, Eq, Structural)]
pub struct ItemsRequest {
    pub id: NodeId,
    pub font_size: i64,
    pub width: i64,
    pub height: i64,
}

/// What layout needs to know to go on.
#[derive(Debug)]
pub enum Request {
    Paragraph(ParagraphRequest),
    Items(ItemsRequest),
    /// The functions of an angle, in millionths of a degree.
    Angle(i64),
}

/// The mathematical reading of a [`Request`].
pub enum RequestV {
    Paragraph(ParagraphRequestV),
    Items(ItemsRequest),
    Angle(i64),
}

impl View for ParagraphRequest {
    type V = ParagraphRequestV;

    open spec fn view(&self) -> ParagraphRequestV {
        ParagraphRequestV {
            pieces: pieces_view(self.pieces@),
            align: self.align,
            x: self.x,
            y: self.y,
            width: self.width,
            floats: self.floats@,
            font_size: self.font_size,
            line_height: self.line_height,
        }
    }
}

impl View for Request {
    type V = RequestV;

    open spec fn view(&self) -> RequestV {
        match *self {
            Request::Paragraph(p) => RequestV::Paragraph(p@),
            Request::Items(i) => RequestV::Items(i),
            Request::Angle(a) => RequestV::Angle(a),
        }
    }
}

/// The places of a container's items, relative to its content box, and the height
/// they take.
#[derive(Debug)]
pub struct Solved {
    pub places: Vec<Rect>,
    pub height: i64,
}

/// The answer to a paragraph or items request. Answers are taken in the order of
/// the requests.
#[derive(Debug)]
pub enum Answer {
    Lines(ParagraphLayout),
    Items(Solved),
}

/// The mathematical reading of an [`Answer`].
pub enum AnswerV {
    Lines(ParagraphV),
    Items { places: Seq<Rect>, height: int },
}

impl View for Answer {
    type V = AnswerV;

    open spec fn view(&self) -> AnswerV {
        match *self {
            Answer::Lines(p) => AnswerV::Lines(p@),
            Answer::Items(s) => AnswerV::Items { places: s.places@, height: s.height as int },
        }
    }
}

pub open spec fn answers_view(v: Seq<Answer>) -> Seq<AnswerV> {
    v.map_values(|a: Answer| a@)
}

/// What layout runs on.
pub struct Host<'a, R: ImageResolver> {
    pub text: &'a Vec<TextWidth>,
    pub trig: &'a Vec<AngleTrig>,
    pub images: &'a R,
    /// The page body's height, where it is known.
    pub body_height: Option<i64>,
    pub fonts: &'a FontRegistry,
    pub viewport: Viewport,
    pub answers: &'a Vec<Answer>,
}

/// The mathematical reading of a [`Host`].
pub struct Env {
    pub text: Seq<TextWidth>,
    pub trig: Seq<AngleTrig>,
    pub images: Images,
    pub body_height: Option<i64>,
    pub fonts: RegistryV,
    pub viewport: Viewport,
    pub answers: Seq<AnswerV>,
}

impl Env {
    pub open spec fn sources(self) -> Sources {
        Sources { text: self.text, images: self.images, viewport: self.viewport }
    }
}

pub open spec fn env_of<R: ImageResolver>(h: Host<R>) -> Env {
    Env {
        text: h.text@,
        trig: h.trig@,
        images: images_of(*h.images),
        body_height: h.body_height,
        fonts: h.fonts@,
        viewport: h.viewport,
        answers: answers_view(h.answers@),
    }
}

/// The floats of the current formatting context, and how many answers were taken.
#[derive(Debug)]
pub struct State {
    pub floats: Vec<FloatRect>,
    pub used: usize,
}

/// The mathematical reading of a [`State`].
pub struct St {
    pub floats: Seq<FloatRect>,
    pub used: int,
}

impl View for State {
    type V = St;

    open spec fn view(&self) -> St {
        St { floats: self.floats@, used: self.used as int }
    }
}

/// What a step of layout comes to: a result and the state after it, or a request.
pub enum Lay<T> {
    Done(T, St),
    Need(RequestV),
}

// --------------------------------------------------------------------------
// one box
// --------------------------------------------------------------------------

pub open spec fn up(a: i64, b: i64) -> i64 {
    sum(a as int, b as int) as i64
}

pub open spec fn down(a: i64, b: i64) -> i64 {
    diff(a as int, b as int) as i64
}

/// The style of a box in its containing block.
pub open spec fn style_of(m: StyleMap, fs: i64, cb: i64, vp: Viewport) -> BoxStyleV {
    box_style_in(m, ResolveCtx { parent_font_size: fs, cb_width: cb, viewport: vp })
}

pub fn resolve(b: &LayoutBox, fs: i64, cb: i64, vp: Viewport) -> (r: BoxStyle)
    ensures
        r@ == style_of(b.style@, fs, cb, vp),
{
    resolve_box_style(
        &b.style,
        ResolveCtx { parent_font_size: fs, cb_width: cb, viewport: vp },
    )
}

/// The least content width of a table.
#[verifier::opaque]
pub open spec fn table_least(items: Seq<BoxV>, m: StyleMap, env: Sources) -> int {
    let rows = rows_in(items, env.viewport, items.len());
    if !table_fits(rows) {
        0
    } else {
        least_width(
            m,
            cells_of_rows(rows, env),
            grid_of(all_spans(rows), rows.len()).1 as nat,
            border_of(m, env.viewport),
            env.viewport,
        )
    }
}

/// The border-box width of a box in its containing block; a table is never
/// narrower than its content.
#[verifier::opaque]
pub open spec fn box_width(b: BoxV, s: BoxStyleV, cb: i64, env: Env) -> i64 {
    let w = border_width_of(s, cb as int);
    match b.kind {
        KindV::Table(items) => greatest(
            w,
            sum(table_least(items, b.style, env.sources()), frame_of(s)),
        ) as i64,
        _ => w as i64,
    }
}

pub fn used_width<R: ImageResolver>(b: &LayoutBox, s: &BoxStyle, cb: i64, h: &Host<R>) -> (r: i64)
    ensures
        r == box_width(box_view(*b), s@, cb, env_of(*h)),
{
    proof {
        reveal(box_width);
        reveal(table_least);
    }
    proof {
        lemma_kind_children(b.kind);
    }
    let w: i64 = border_box_width(s, cb);
    match &b.kind {
        BoxKind::Table(items) => {
            let rows = collect_rows(items, h.viewport);
            let least: i64 = match prepare(&rows, h.text, h.images, h.viewport) {
                Some((c, n)) => table_min_width(
                    &b.style,
                    &c,
                    n,
                    rows.len(),
                    cell_border(&b.style, h.viewport),
                    h.viewport,
                ),
                None => 0,
            };
            max_of(w, plus(least, frame_width(s)))
        },
        _ => w,
    }
}

/// The frame of a box's children.
#[verifier::opaque]
pub open spec fn inner_frame(s: BoxStyleV, f: Frame, cx: i64, cy: i64, cw: i64) -> Frame {
    let cb_h = definite_height(s, f.cb_h as int) as i64;
    if s.position == Position::Static {
        Frame { cb_h, ..f }
    } else {
        Frame {
            abs_x: cx,
            abs_y: cy,
            abs_w: cw,
            abs_h: definite_height(s, f.abs_h as int) as i64,
            cb_h,
            root_w: f.root_w,
        }
    }
}

pub fn frame_inside(s: &BoxStyle, f: Frame, cx: i64, cy: i64, cw: i64) -> (r: Frame)
    ensures
        r == inner_frame(s@, f, cx, cy, cw),
{
    proof {
        reveal(inner_frame);
    }
    let cb_h: i64 = definite_content_height(s, f.cb_h);
    if s.position == Position::Static {
        Frame {
            abs_x: f.abs_x,
            abs_y: f.abs_y,
            abs_w: f.abs_w,
            abs_h: f.abs_h,
            cb_h,
            root_w: f.root_w,
        }
    } else {
        Frame {
            abs_x: cx,
            abs_y: cy,
            abs_w: cw,
            abs_h: definite_content_height(s, f.abs_h),
            cb_h,
            root_w: f.root_w,
        }
    }
}

/// What a percentage height goes by: the positioned ancestor's height for an
/// absolute box, nothing for a box in flow.
pub open spec fn height_basis(s: BoxStyleV, f: Frame) -> int {
    if s.position == Position::Absolute {
        f.abs_h as int
    } else {
        0
    }
}

/// A content height grown to hold the floats of its own formatting context.
#[verifier::opaque]
pub open spec fn holding_floats(bfc: bool, h: i64, floats: Seq<FloatRect>, cy: i64) -> i64 {
    if bfc {
        greatest(h as int, diff(floats_bottom(floats, cy as int, floats.len()), cy as int)) as i64
    } else {
        h
    }
}

pub fn hold_floats(bfc: bool, h: i64, floats: &Vec<FloatRect>, cy: i64) -> (r: i64)
    ensures
        r == holding_floats(bfc, h, floats@, cy),
{
    proof {
        reveal(holding_floats);
    }
    if bfc {
        max_of(h, minus(bottom_of_floats(floats, cy), cy))
    } else {
        h
    }
}

/// The fragment of a box whose children are laid out, its content box at
/// `(cx, cy)`, `cw` wide and `fill` high.
#[verifier::opaque]
pub open spec fn finished_box(
    b: BoxV,
    s: BoxStyleV,
    at: ContentRect,
    x: i64,
    y: i64,
    w: i64,
    kids: Seq<FragV>,
    env: Env,
) -> Result<FragV, i64> {
    let h = up(at.h, v_frame(s) as i64);
    match content_for(b, s, w as int, h as int, env.trig) {
        Err(a) => Err(a),
        Ok(content) => Ok(
            FragV {
                id: b.id as u32,
                x: x as int,
                y: y as int,
                width: w as int,
                height: h as int,
                content,
                break_meta: breaks_of(s),
                children: with_images(b, s, at, env.images, kids),
                z_index: s.z_index,
                is_positioned: s.position != Position::Static,
            },
        ),
    }
}

pub open spec fn frag_outcome(r: Result<Fragment, i64>) -> Result<FragV, i64> {
    match r {
        Ok(f) => Ok(f@),
        Err(a) => Err(a),
    }
}

pub fn finish_box<R: ImageResolver>(
    b: &LayoutBox,
    s: &BoxStyle,
    at: ContentRect,
    x: i64,
    y: i64,
    w: i64,
    kids: Vec<Fragment>,
    h: &Host<R>,
) -> (r: Result<Fragment, i64>)
    ensures
        frag_outcome(r) == finished_box(
            box_view(*b),
            s@,
            at,
            x,
            y,
            w,
            frags_view(kids@),
            env_of(*h),
        ),
{
    proof {
        reveal(finished_box);
    }
    let mut children = kids;
    let height: i64 = plus(at.h, v_extra(s));
    let content = match content_kind(b, s, w, height, h.trig) {
        Ok(c) => c,
        Err(a) => return Err(a),
    };
    prepend_mask_image(b, s, at, h.images, &mut children);
    prepend_background_image(b, at, h.images, &mut children);
    let f = Fragment {
        node_id: b.node_id,
        x,
        y,
        width: w,
        height,
        content,
        break_meta: break_meta_of(s),
        children,
        z_index: s.z_index,
        is_positioned: s.position != Position::Static,
    };
    proof {
        lemma_frag_children(f);
    }
    Ok(f)
}

// --------------------------------------------------------------------------
// block flow: margins
// --------------------------------------------------------------------------

pub open spec fn out_of_flow(s: BoxStyleV) -> bool {
    s.position == Position::Absolute || s.position == Position::Fixed
}

/// Whether the top margin of a box's first child collapses with its own: nothing
/// keeps the two apart.
#[verifier::opaque]
pub open spec fn hoists(b: BoxV, s: BoxStyleV) -> bool {
    &&& b.kind is Block
    &&& !is_replaced(b)
    &&& !isolates(b, s)
    &&& s.padding.top == 0
    &&& s.border.widths_of().top == 0
}

/// The margins that adjoin at the top of a box.
#[verifier::opaque]
pub open spec fn lead(b: BoxV, s: BoxStyleV, cb: i64, vp: Viewport) -> Margin
    decreases b, 1int, 0nat,
{
    let own = Margin::of(s.margin.top);
    if hoists(b, s) {
        match b.kind {
            KindV::Block(v) => own.with(
                first_lead(
                    v,
                    content_width_of(s, border_width_of(s, cb as int)) as i64,
                    s.font_size,
                    vp,
                    0,
                ),
            ),
            _ => own,
        }
    } else {
        own
    }
}

/// The margins that adjoin at the top of the first box in flow, from the `i`th
/// on.
pub open spec fn first_lead(v: Seq<BoxV>, cw: i64, fs: i64, vp: Viewport, i: nat) -> Margin
    decreases v, 0int, v.len() - i,
{
    if i >= v.len() {
        Margin { pos: 0, neg: 0 }
    } else {
        let s = style_of(v[i as int].style, fs, cw, vp);
        if out_of_flow(s) || s.float != Float::Neither {
            first_lead(v, cw, fs, vp, i + 1)
        } else {
            lead(v[i as int], s, cw, vp)
        }
    }
}

pub fn does_hoist(b: &LayoutBox, s: &BoxStyle) -> (r: bool)
    ensures
        r == hoists(box_view(*b), s@),
{
    proof {
        reveal(hoists);
    }
    let replaced: bool = match &b.image {
        Some(i) => i.replaced,
        None => false,
    };
    proof {
        lemma_kind_children(b.kind);
    }
    matches!(b.kind, BoxKind::Block(_)) && !replaced && !establishes_bfc(b, s) && s.padding.top == 0
        && s.border.widths().top == 0
}

pub fn leading_margin(b: &LayoutBox, s: &BoxStyle, cb: i64, vp: Viewport) -> (r: Margin)
    ensures
        r == lead(box_view(*b), s@, cb, vp),
    decreases b, 1int,
{
    proof {
        reveal(lead);
    }
    let own: Margin = margin_of(s.margin.top);
    if !does_hoist(b, s) {
        return own;
    }
    proof {
        lemma_kind_children(b.kind);
    }
    match &b.kind {
        BoxKind::Block(v) => {
            let w: i64 = max_of(minus(border_box_width(s, cb), frame_width(s)), 0);
            join_margins(own, leading_in(v, w, s.font_size, vp))
        },
        _ => own,
    }
}

fn leading_in(v: &Vec<LayoutBox>, cw: i64, fs: i64, vp: Viewport) -> (r: Margin)
    ensures
        r == first_lead(boxes_view(v@), cw, fs, vp, 0),
    decreases v, 0int,
{
    let ghost bv = boxes_view(v@);
    let mut i: usize = 0;
    while i < v.len()
        invariant
            i <= v@.len(),
            bv == boxes_view(v@),
            first_lead(bv, cw, fs, vp, 0) == first_lead(bv, cw, fs, vp, i as nat),
        decreases v@.len() - i,
    {
        let s = resolve(&v[i], fs, cw, vp);
        proof {
            reveal(lead);
            assert(bv[i as int] == box_view(v@[i as int]));
        }
        if !s.position.is_out_of_flow() && s.float == Float::Neither {
            return leading_margin(&v[i], &s, cw, vp);
        }
        i += 1;
    }
    Margin { pos: 0, neg: 0 }
}

// --------------------------------------------------------------------------
// layout
// --------------------------------------------------------------------------

/// The content box of a block container, the font size of its children and their
/// alignment.
#[derive(Debug, Clone, Copy, PartialEq, Eq, Structural)]
pub struct FlowArgs {
    pub cx: i64,
    pub cy: i64,
    pub cw: i64,
    pub fs: i64,
    pub align: Align,
}

/// A child of a block container: laid out, or out of flow and held back, with the
/// place it would have in flow.
pub enum HeldV {
    Placed(FragV),
    Held(i64, i64),
}

/// Where block flow stands: the next y, the margins that adjoin there, whether the
/// next box in flow is the first and its margin already counted, and the children
/// so far.
pub struct FlowV {
    pub cursor: i64,
    pub margin: Margin,
    pub absorbed: bool,
    pub kids: Seq<HeldV>,
}

/// The pieces of an inline context so far, with the boxes and markers among them.
pub struct PiecesV {
    pub pieces: Seq<PieceV>,
    pub atoms: Seq<FragV>,
    pub marks: Seq<FragV>,
}

/// The columns of a table.
pub enum ColumnsV {
    Separate(Seq<i64>),
    Merged(MergedV),
}

/// Whether a box takes its width from its content: it is no image and its width
/// is `auto`.
pub open spec fn shrinks(b: BoxV, s: BoxStyleV, cw: i64) -> bool {
    !is_replaced(b) && s.width.length(cw as int) is None
}

/// A float moved back to the right edge where it came out narrower or wider than
/// the room kept for it.
#[verifier::opaque]
pub open spec fn reanchored(f: FragV, s: BoxStyleV, end: i64, w: i64) -> FragV {
    if s.float == Float::Right && (f.width - w > HALF || w - f.width > HALF) {
        moved(
            f,
            diff(diff(diff(end as int, s.margin.right as int), f.width), f.x),
            0,
        )
    } else {
        f
    }
}

/// The margin box of a float that was laid out in the row at `y`.
#[verifier::opaque]
pub open spec fn float_rect(f: FragV, s: BoxStyleV, y: i64) -> FloatRect {
    FloatRect {
        x0: diff(f.x, s.margin.left as int) as i64,
        x1: sum(sum(f.x, f.width), s.margin.right as int) as i64,
        top: y,
        bottom: sum(sum(sum(y as int, s.margin.top as int), f.height), s.margin.bottom as int)
            as i64,
        side: s.float,
    }
}

/// The frame of the out-of-flow children of a block container `h` high: a
/// positioned container whose height was open until now has this one.
#[verifier::opaque]
pub open spec fn held_frame(s: BoxStyleV, f: Frame, cw: i64, h: i64) -> Frame {
    if s.position != Position::Static && f.abs_h <= 0 {
        Frame { abs_h: content_height_of(s, 0, cw as int, h as int) as i64, ..f }
    } else {
        f
    }
}

/// An item style whose height has been decided: a border box `h` high.
#[verifier::opaque]
pub open spec fn forced_height(s: BoxStyleV, h: i64) -> BoxStyleV {
    if s.height is Px {
        s
    } else {
        BoxStyleV {
            height: LengthPct::Px(greatest(diff(h as int, v_frame(s)), 0) as i64),
            box_sizing: BoxSizing::ContentBox,
            ..s
        }
    }
}

/// Lay a box out with its corner at `(x, y)` in a containing block `cb` wide.
#[verifier::opaque]
pub open spec fn lay_box(
    b: BoxV,
    x: i64,
    y: i64,
    cb: i64,
    fs: i64,
    absorb: bool,
    f: Frame,
    env: Env,
    st: St,
) -> Lay<FragV>
    decreases b, 3int, 0nat,
{
    let s = style_of(b.style, fs, cb, env.viewport);
    match image_box(b, s, x, y, cb, f, env.images, env.body_height) {
        Some(g) => Lay::Done(g, st),
        None => lay_sized(b, s, x, y, box_width(b, s, cb, env), absorb, false, f, env, st),
    }
}

/// Lay out a box whose border-box width is decided. Where `force` is set it keeps
/// its floats to itself whatever it is.
#[verifier::opaque]
pub open spec fn lay_sized(
    b: BoxV,
    s: BoxStyleV,
    x: i64,
    y: i64,
    w: i64,
    absorb: bool,
    force: bool,
    f: Frame,
    env: Env,
    st: St,
) -> Lay<FragV>
    decreases b, 2int, 0nat,
{
    match image_box(b, s, x, y, w, f, env.images, env.body_height) {
        Some(g) => Lay::Done(g, st),
        None => {
            let bw = s.border.widths_of();
            let cx = up(up(x, bw.left), s.padding.left);
            let cy = up(up(y, bw.top), s.padding.top);
            let cw = content_width_of(s, w as int) as i64;
            let bfc = force || isolates(b, s);
            let inside = if bfc {
                St { floats: Seq::empty(), used: st.used }
            } else {
                st
            };
            match lay_content(b, s, cx, cy, cw, absorb, bfc, inner_frame(s, f, cx, cy, cw), env, inside) {
                Lay::Need(q) => Lay::Need(q),
                Lay::Done((kids, h0), after) => {
                    let h = content_height_of(
                        s,
                        height_basis(s, f),
                        cw as int,
                        holding_floats(bfc, h0, after.floats, cy) as int,
                    ) as i64;
                    let at = ContentRect { x: cx, y: cy, w: cw, h };
                    match finished_box(b, s, at, x, y, w, kids, env) {
                        Err(a) => Lay::Need(RequestV::Angle(a)),
                        Ok(g) => Lay::Done(
                            g,
                            St {
                                floats: if bfc {
                                    st.floats
                                } else {
                                    after.floats
                                },
                                used: after.used,
                            },
                        ),
                    }
                },
            }
        },
    }
}

/// Lay out what a box contains: the fragments and their height.
#[verifier::opaque]
pub open spec fn lay_content(
    b: BoxV,
    s: BoxStyleV,
    cx: i64,
    cy: i64,
    cw: i64,
    absorb: bool,
    bfc: bool,
    f: Frame,
    env: Env,
    st: St,
) -> Lay<(Seq<FragV>, i64)>
    decreases b, 1int, 0nat,
{
    match b.kind {
        KindV::Block(v) => {
            let a = FlowArgs { cx, cy, cw, fs: s.font_size, align: s.text_align };
            match lay_flow(v, a, absorb, f, env, st, v.len()) {
                Lay::Need(q) => Lay::Need(q),
                Lay::Done(w, st1) => {
                    let h = down(w.cursor, cy);
                    let g = held_frame(s, f, cw, holding_floats(bfc, h, st1.floats, cy));
                    match lay_held(v, w.kids, a, g, env, st1, v.len()) {
                        Lay::Need(q) => Lay::Need(q),
                        Lay::Done(frags, st2) => Lay::Done((frags, h), st2),
                    }
                },
            }
        },
        KindV::Lines(v) => lay_lines(v, s, cx, cy, cw, f, env, st),
        KindV::Flex(v) => lay_items(b.id, v, cx, cy, cw, s.font_size, f, env, st),
        KindV::Grid(v) => lay_items(b.id, v, cx, cy, cw, s.font_size, f, env, st),
        KindV::Table(v) => lay_table(b.style, v, cx, cy, cw, s.font_size, f, env, st),
        KindV::Directive(_) => Lay::Done((Seq::empty(), 0), st),
    }
}

/// Block flow through the first `k` children.
#[verifier::opaque]
pub open spec fn lay_flow(
    v: Seq<BoxV>,
    a: FlowArgs,
    absorb: bool,
    f: Frame,
    env: Env,
    st: St,
    k: nat,
) -> Lay<FlowV>
    decreases v, 0int, k,
{
    if k == 0 || k > v.len() {
        Lay::Done(
            FlowV {
                cursor: a.cy,
                margin: Margin { pos: 0, neg: 0 },
                absorbed: absorb,
                kids: Seq::empty(),
            },
            st,
        )
    } else {
        match lay_flow(v, a, absorb, f, env, st, (k - 1) as nat) {
            Lay::Need(q) => Lay::Need(q),
            Lay::Done(w, st1) => lay_kid(v[k - 1], w, a, f, env, st1),
        }
    }
}

/// The next child of block flow.
#[verifier::opaque]
pub open spec fn lay_kid(b: BoxV, w: FlowV, a: FlowArgs, f: Frame, env: Env, st: St) -> Lay<FlowV>
    decreases b, 5int, 0nat,
{
    let s = style_of(b.style, a.fs, a.cw, env.viewport);
    if out_of_flow(s) {
        let held = HeldV::Held(
            up(a.cx, s.margin.left),
            up(w.cursor, w.margin.with(Margin::of(s.margin.top)).size() as i64),
        );
        Lay::Done(FlowV { kids: w.kids.push(held), ..w }, st)
    } else if s.float != Float::Neither {
        match lay_float(b, s, a, up(w.cursor, w.margin.size() as i64), f, env, st) {
            Lay::Need(q) => Lay::Need(q),
            Lay::Done(g, st1) => Lay::Done(
                FlowV { kids: w.kids.push(HeldV::Placed(g)), ..w },
                st1,
            ),
        }
    } else {
        lay_in_flow(b, s, w, a, f, env, st)
    }
}

/// A float met in the row at `y0`.
#[verifier::opaque]
pub open spec fn lay_float(
    b: BoxV,
    s: BoxStyleV,
    a: FlowArgs,
    y0: i64,
    f: Frame,
    env: Env,
    st: St,
) -> Lay<FragV>
    decreases b, 4int, 0nat,
{
    let w = float_width_of(b, s, a.cw, env);
    let room = up(w, clip(s.margin.left + s.margin.right) as i64);
    let y = drop_y(st.floats, a.cx as int, a.cw as int, room as int, y0 as int) as i64;
    let (rx, rw) = region(st.floats, a.cx as int, a.cw as int, y as int);
    let end = sum(rx, rw) as i64;
    let x = if s.float == Float::Right {
        down(end, room)
    } else {
        rx as i64
    };
    let (bx, by) = (up(x, s.margin.left), up(y, s.margin.top));
    let laid = if shrinks(b, s, a.cw) {
        lay_sized(b, s, bx, by, w, false, false, f, env, st)
    } else {
        lay_box(b, bx, by, a.cw, a.fs, false, f, env, st)
    };
    match laid {
        Lay::Need(q) => Lay::Need(q),
        Lay::Done(g0, st1) => {
            let g = reanchored(g0, s, end, w);
            Lay::Done(
                g,
                St { floats: st1.floats.push(float_rect(g, s, y)), used: st1.used },
            )
        },
    }
}

/// The border-box width of a float: shrunk to its content, else its own.
#[verifier::opaque]
pub open spec fn float_width_of(b: BoxV, s: BoxStyleV, cw: i64, env: Env) -> i64 {
    if shrinks(b, s, cw) {
        least(natural(b, env.sources()), cw as int) as i64
    } else {
        border_width_of(s, cw as int) as i64
    }
}

/// A child in normal flow.
#[verifier::opaque]
pub open spec fn lay_in_flow(
    b: BoxV,
    s: BoxStyleV,
    w: FlowV,
    a: FlowArgs,
    f: Frame,
    env: Env,
    st: St,
) -> Lay<FlowV>
    decreases b, 4int, 0nat,
{
    let base = up(w.cursor, w.margin.size() as i64);
    let cleared = cleared_y(b.style, st.floats, base as int) as i64;
    let (cursor, pending) = if cleared > base {
        (cleared, Margin { pos: 0i64, neg: 0i64 })
    } else {
        (w.cursor, w.margin)
    };
    let top = if w.absorbed {
        pending
    } else {
        pending.with(lead(b, s, a.cw, env.viewport))
    };
    let flow_y = up(cursor, top.size() as i64);
    let (rx, rw) = flow_region_of(b, s, a, st.floats, flow_y);
    let (dx, dy) = relative_shift(s, a.cw as int);
    match lay_box(
        b,
        up(up(rx, s.margin.left), dx as i64),
        up(flow_y, dy as i64),
        rw,
        a.fs,
        hoists(b, s),
        f,
        env,
        st,
    ) {
        Lay::Need(q) => Lay::Need(q),
        Lay::Done(g0, st1) => {
            let hx = h_offset(a.align, s, b.style, g0.width, rw as int);
            let g = if hx == 0 {
                g0
            } else {
                moved(g0, hx, 0)
            };
            let kids = w.kids.push(HeldV::Placed(g));
            if g0.height == 0 {
                Lay::Done(
                    FlowV {
                        cursor,
                        margin: top.with(Margin::of(s.margin.bottom)),
                        absorbed: false,
                        kids,
                    },
                    st1,
                )
            } else {
                Lay::Done(
                    FlowV {
                        cursor: up(flow_y, g0.height as i64),
                        margin: Margin::of(s.margin.bottom),
                        absorbed: false,
                        kids,
                    },
                    st1,
                )
            }
        },
    }
}

/// Where a child in normal flow starts and how much room it has: the whole width,
/// but beside the floats for a box that avoids them as a unit.
#[verifier::opaque]
pub open spec fn flow_region_of(
    b: BoxV,
    s: BoxStyleV,
    a: FlowArgs,
    floats: Seq<FloatRect>,
    y: i64,
) -> (i64, i64) {
    if isolates(b, s) || is_replaced(b) {
        let (x, w) = region(floats, a.cx as int, a.cw as int, y as int);
        (x as i64, w as i64)
    } else {
        (a.cx, a.cw)
    }
}

/// The fragments of the first `k` children, those held back laid out now.
#[verifier::opaque]
pub open spec fn lay_held(
    v: Seq<BoxV>,
    kids: Seq<HeldV>,
    a: FlowArgs,
    f: Frame,
    env: Env,
    st: St,
    k: nat,
) -> Lay<Seq<FragV>>
    decreases v, 0int, k,
{
    if k == 0 || k > v.len() {
        Lay::Done(Seq::empty(), st)
    } else {
        match lay_held(v, kids, a, f, env, st, (k - 1) as nat) {
            Lay::Need(q) => Lay::Need(q),
            Lay::Done(before, st1) => match kids[k - 1] {
                HeldV::Placed(g) => Lay::Done(before.push(g), st1),
                HeldV::Held(x, y) => match lay_positioned(v[k - 1], x, y, a, f, env, st1) {
                    Lay::Need(q) => Lay::Need(q),
                    Lay::Done(g, st2) => Lay::Done(before.push(g), st2),
                },
            },
        }
    }
}

/// An out-of-flow box whose place in flow would be `(x, y)`.
#[verifier::opaque]
pub open spec fn lay_positioned(b: BoxV, x: i64, y: i64, a: FlowArgs, f: Frame, env: Env, st: St) -> Lay<
    FragV,
>
    decreases b, 4int, 0nat,
{
    let s = style_of(b.style, a.fs, a.cw, env.viewport);
    let (bx, by) = origin_of(s, a.cw as int, f, x as int, y as int);
    match lay_box(b, bx as i64, by as i64, a.cw, a.fs, false, f, env, st) {
        Lay::Need(q) => Lay::Need(q),
        Lay::Done(g, st1) => {
            let dy = bottom_shift(s, f, by, g.height);
            Lay::Done(
                if dy == 0 {
                    g
                } else {
                    moved(g, 0, dy)
                },
                st1,
            )
        },
    }
}

/// An inline context: text and unbreakable boxes flow into lines.
#[verifier::opaque]
pub open spec fn lay_lines(
    v: Seq<ItemV>,
    s: BoxStyleV,
    cx: i64,
    cy: i64,
    cw: i64,
    f: Frame,
    env: Env,
    st: St,
) -> Lay<(Seq<FragV>, i64)>
    decreases v, 1int, 0nat,
{
    match lay_pieces(v, s, cx, cy, cw, f, env, st, v.len()) {
        Lay::Need(q) => Lay::Need(q),
        Lay::Done(p, st1) => if p.pieces.len() == 0 {
            Lay::Done((p.marks, 0), st1)
        } else {
            match lines_at(env, st1.used) {
                Some(para) => Lay::Done(
                    (
                        text_frags(para.lines, cx as int, cy as int, para.lines.len())
                            + atom_frags(
                            para.lines,
                            p.atoms,
                            cx as int,
                            cy as int,
                            para.lines.len(),
                        ) + p.marks,
                        para.height as i64,
                    ),
                    St { floats: st1.floats, used: st1.used + 1 },
                ),
                None => Lay::Need(
                    RequestV::Paragraph(
                        ParagraphRequestV {
                            pieces: p.pieces,
                            align: s.text_align,
                            x: cx,
                            y: cy,
                            width: cw,
                            floats: st1.floats,
                            font_size: s.font_size,
                            line_height: s.line_height,
                        },
                    ),
                ),
            }
        },
    }
}

/// The next answer, where it is a paragraph's.
pub open spec fn lines_at(env: Env, used: int) -> Option<ParagraphV> {
    if 0 <= used < env.answers.len() {
        match env.answers[used] {
            AnswerV::Lines(p) => Some(p),
            _ => None,
        }
    } else {
        None
    }
}

/// The next answer, where it places `n` items.
pub open spec fn places_at(env: Env, used: int, n: nat) -> Option<(Seq<Rect>, int)> {
    if 0 <= used < env.answers.len() {
        match env.answers[used] {
            AnswerV::Items { places, height } => if places.len() == n {
                Some((places, height))
            } else {
                None
            },
            _ => None,
        }
    } else {
        None
    }
}

/// A laid-out box as a piece of a line: its margins take room in the line.
pub open spec fn atom_of(id: nat, g: FragV, s: BoxStyleV, fs: i64) -> InlineAtom {
    InlineAtom {
        id: id as usize,
        width: sum(sum(s.margin.left as int, g.width), s.margin.right as int) as i64,
        height: sum(sum(s.margin.top as int, g.height), s.margin.bottom as int) as i64,
        valign: s.vertical_align,
        font_size: fs,
    }
}

/// The pieces of the first `k` inline items. Boxes stand at their place in a margin
/// box at the origin.
#[verifier::opaque]
pub open spec fn lay_pieces(
    v: Seq<ItemV>,
    s: BoxStyleV,
    cx: i64,
    cy: i64,
    cw: i64,
    f: Frame,
    env: Env,
    st: St,
    k: nat,
) -> Lay<PiecesV>
    decreases v, 0int, k,
{
    if k == 0 || k > v.len() {
        Lay::Done(
            PiecesV { pieces: Seq::empty(), atoms: Seq::empty(), marks: Seq::empty() },
            st,
        )
    } else {
        match lay_pieces(v, s, cx, cy, cw, f, env, st, (k - 1) as nat) {
            Lay::Need(q) => Lay::Need(q),
            Lay::Done(p, st1) => match v[k - 1] {
                ItemV::Text { id, style, text } => match run_for(
                    id,
                    style,
                    text,
                    s.font_size,
                    cw,
                    env.fonts,
                    env.viewport,
                ) {
                    Some(r) => Lay::Done(
                        PiecesV { pieces: p.pieces.push(PieceV::Run(r)), ..p },
                        st1,
                    ),
                    None => Lay::Done(p, st1),
                },
                ItemV::LineBreak => Lay::Done(
                    PiecesV { pieces: p.pieces.push(PieceV::Break), ..p },
                    st1,
                ),
                ItemV::Directive { id, kind } => Lay::Done(
                    PiecesV {
                        marks: p.marks.push(
                            plain_frag(
                                NodeId(id as u32),
                                cx as int,
                                cy as int,
                                0,
                                0,
                                ContentV::Directive(kind),
                            ),
                        ),
                        ..p
                    },
                    st1,
                ),
                ItemV::Atomic(b) => match lay_atomic(b, cw, s.font_size, f, env, st1) {
                    Lay::Need(q) => Lay::Need(q),
                    Lay::Done(g, st2) => {
                        let own = style_of(b.style, s.font_size, cw, env.viewport);
                        Lay::Done(
                            PiecesV {
                                pieces: p.pieces.push(
                                    PieceV::Atom(atom_of(p.atoms.len(), g, own, s.font_size)),
                                ),
                                atoms: p.atoms.push(
                                    moved(g, own.margin.left as int, own.margin.top as int),
                                ),
                                marks: p.marks,
                            },
                            st2,
                        )
                    },
                },
            },
        }
    }
}

/// An unbreakable box of a line, laid out at the origin. Without a width of its
/// own it is as wide as its content, no wider than the line unless its content
/// cannot get narrower.
#[verifier::opaque]
pub open spec fn lay_atomic(b: BoxV, cw: i64, fs: i64, f: Frame, env: Env, st: St) -> Lay<FragV>
    decreases b, 4int, 0nat,
{
    let s = style_of(b.style, fs, cw, env.viewport);
    if shrinks(b, s, cw) {
        lay_sized(b, s, 0, 0, atom_width(b, s, cw, env), false, false, f, env, st)
    } else {
        lay_box(b, 0, 0, cw, fs, false, f, env, st)
    }
}

/// The border-box width of an unbreakable box that shrinks to its content.
#[verifier::opaque]
pub open spec fn atom_width(b: BoxV, s: BoxStyleV, cw: i64, env: Env) -> i64 {
    let fit = least(
        natural(b, env.sources()),
        greatest(cw as int, min_content(b, env.sources())),
    );
    clamped_width(fit, s, cw as int, frame_of(s)) as i64
}

/// The items of a flex or grid container.
#[verifier::opaque]
pub open spec fn lay_items(
    id: int,
    v: Seq<BoxV>,
    cx: i64,
    cy: i64,
    cw: i64,
    fs: i64,
    f: Frame,
    env: Env,
    st: St,
) -> Lay<(Seq<FragV>, i64)>
    decreases v, 1int, 0nat,
{
    if v.len() == 0 {
        Lay::Done((Seq::empty(), 0), st)
    } else {
        match places_at(env, st.used, v.len()) {
            None => Lay::Need(
                RequestV::Items(
                    ItemsRequest { id: NodeId(id as u32), font_size: fs, width: cw, height: f.cb_h },
                ),
            ),
            Some((places, height)) => match lay_placed(
                v,
                places,
                cx,
                cy,
                fs,
                f,
                env,
                St { floats: st.floats, used: st.used + 1 },
                v.len(),
            ) {
                Lay::Need(q) => Lay::Need(q),
                Lay::Done(frags, st1) => Lay::Done((frags, height as i64), st1),
            },
        }
    }
}

/// The first `k` items of a container at their places.
#[verifier::opaque]
pub open spec fn lay_placed(
    v: Seq<BoxV>,
    places: Seq<Rect>,
    cx: i64,
    cy: i64,
    fs: i64,
    f: Frame,
    env: Env,
    st: St,
    k: nat,
) -> Lay<Seq<FragV>>
    decreases v, 0int, k,
{
    if k == 0 || k > v.len() {
        Lay::Done(Seq::empty(), st)
    } else {
        match lay_placed(v, places, cx, cy, fs, f, env, st, (k - 1) as nat) {
            Lay::Need(q) => Lay::Need(q),
            Lay::Done(before, st1) => {
                let p = places[k - 1];
                let s = forced_height(
                    style_of(v[k - 1].style, fs, p.width, env.viewport),
                    p.height,
                );
                match lay_sized(v[k - 1], s, 0, 0, p.width, false, true, f, env, st1) {
                    Lay::Need(q) => Lay::Need(q),
                    Lay::Done(g, st2) => Lay::Done(
                        before.push(moved(g, sum(cx as int, p.x as int), sum(cy as int, p.y as int))),
                        st2,
                    ),
                }
            },
        }
    }
}

/// The rows of a table.
#[verifier::opaque]
pub open spec fn lay_table(
    m: StyleMap,
    v: Seq<BoxV>,
    cx: i64,
    cy: i64,
    cw: i64,
    fs: i64,
    f: Frame,
    env: Env,
    st: St,
) -> Lay<(Seq<FragV>, i64)>
    decreases v, 1int, 0nat,
{
    let rows = rows_in(v, env.viewport, v.len());
    let n = grid_of(all_spans(rows), rows.len()).1 as nat;
    if !table_fits(rows) || n == 0 {
        Lay::Done((Seq::empty(), 0), st)
    } else {
        let c = cells_of_rows(rows, env.sources());
        let table = border_of(m, env.viewport);
        let cols = if merges_borders(m) {
            ColumnsV::Merged(merged_columns(c, n, cw as int, table))
        } else {
            ColumnsV::Separate(separate_columns(m, c, n, cw as int, env.viewport))
        };
        match lay_cells(v, c.slots, cols, fs, f, env, st, c.slots.len()) {
            Lay::Need(q) => Lay::Need(q),
            Lay::Done(laid, st1) => Lay::Done(
                table_rows(m, c, cols, rows, laid, table, cx, cy, env.viewport),
                st1,
            ),
        }
    }
}

/// The rows of a table whose cells are laid out, and their height.
#[verifier::opaque]
pub open spec fn table_rows(
    m: StyleMap,
    c: CellsV,
    cols: ColumnsV,
    rows: Seq<RowV>,
    laid: Seq<LaidV>,
    table: Edges,
    cx: i64,
    cy: i64,
    vp: Viewport,
) -> (Seq<FragV>, i64) {
    match cols {
        ColumnsV::Merged(g) => (
            finished_rows(rows, laid, merged_geom(c, g, rows, laid, table), cx as int, cy as int),
            sum(
                total_of(merged_rows(c, rows, laid)),
                total_of(horizontal_lines(c.slots, c.borders, rows.len(), table)),
            ) as i64,
        ),
        ColumnsV::Separate(w) => {
            let g = separate_geom(m, w, c.slots, rows, laid, vp);
            (
                finished_rows(rows, laid, g, cx as int, cy as int),
                separate_height(m, g, vp) as i64,
            )
        },
    }
}

/// The cells in the first `k` slots of a table, each laid out at the origin.
#[verifier::opaque]
pub open spec fn lay_cells(
    v: Seq<BoxV>,
    slots: Seq<Slot>,
    cols: ColumnsV,
    fs: i64,
    f: Frame,
    env: Env,
    st: St,
    k: nat,
) -> Lay<Seq<LaidV>>
    decreases v, 0int, k,
    via cells_are_smaller
{
    let rows = rows_in(v, env.viewport, v.len());
    if k == 0 || k > slots.len() {
        Lay::Done(Seq::empty(), st)
    } else {
        match lay_cells(v, slots, cols, fs, f, env, st, (k - 1) as nat) {
            Lay::Need(q) => Lay::Need(q),
            Lay::Done(before, st1) => {
                let slot = slots[k - 1];
                if slot.row < rows.len() && slot.cell < rows[slot.row as int].cells.len() {
                    let b = cell_in(rows, slot);
                    match cols {
                        ColumnsV::Separate(w) => {
                            let width = range_sum(w, slot.col as int, slot.colspan as nat) as i64;
                            let s = style_of(b.style, fs, width, env.viewport);
                            match lay_sized(b, s, 0, 0, width, false, true, f, env, st1) {
                                Lay::Need(q) => Lay::Need(q),
                                Lay::Done(g, st2) => Lay::Done(
                                    before.push(
                                        LaidV { slot, frag: g, valign: s.vertical_align },
                                    ),
                                    st2,
                                ),
                            }
                        },
                        ColumnsV::Merged(m) => {
                            let extent = merged_extent(m.centers, slot) as i64;
                            let s = style_of(b.style, fs, extent, env.viewport);
                            let own = clip(
                                s.border.widths_of().left + s.border.widths_of().right,
                            );
                            let width = merged_width(m.centers, m.lines, slot, own) as i64;
                            match lay_sized(b, s, 0, 0, width, false, true, f, env, st1) {
                                Lay::Need(q) => Lay::Need(q),
                                Lay::Done(g, st2) => Lay::Done(
                                    before.push(
                                        LaidV {
                                            slot,
                                            frag: FragV { width: extent as int, ..g },
                                            valign: s.vertical_align,
                                        },
                                    ),
                                    st2,
                                ),
                            }
                        },
                    }
                } else {
                    Lay::Done(before, st1)
                }
            },
        }
    }
}

#[via_fn]
proof fn cells_are_smaller(
    v: Seq<BoxV>,
    slots: Seq<Slot>,
    cols: ColumnsV,
    fs: i64,
    f: Frame,
    env: Env,
    st: St,
    k: nat,
) {
    if 0 < k <= slots.len() {
        let rows = rows_in(v, env.viewport, v.len());
        let slot = slots[k - 1];
        if slot.row < rows.len() && slot.cell < rows[slot.row as int].cells.len() {
            lemma_cell_is_smaller(v, env.viewport, v.len(), slot.row as int, slot.cell as int);
        }
    }
}

/// The frame of a page `w` wide.
pub open spec fn page_frame(w: i64) -> Frame {
    Frame { abs_x: 0, abs_y: 0, abs_w: w, abs_h: 0, cb_h: 0, root_w: w }
}

/// The galley of a box tree on a page `w` wide, as high as its content and its
/// lowest float.
pub open spec fn lay_tree(root: BoxV, w: i64, env: Env) -> Lay<FragV> {
    let st = St { floats: Seq::empty(), used: 0 };
    match lay_box(root, 0, 0, w, DEFAULT_FONT_SIZE, false, page_frame(w), env, st) {
        Lay::Need(q) => Lay::Need(q),
        Lay::Done(g, st1) => Lay::Done(
            FragV {
                height: greatest(g.height, floats_bottom(st1.floats, 0, st1.floats.len())),
                ..g
            },
            st1,
        ),
    }
}

} // verus!
