//! What always holds of the sizes and places of boxes.

use vstd::prelude::*;
use vstd::string::*;

use crate::layout::block::{
    bottom_shift, border_width_of, cleared_y, content_height_of, content_width_of, drop_y,
    has_auto_x_margins, h_offset, isolates, lowest, origin_of, region, region_edges,
    relative_shift, FloatRect, Frame, Margin,
};
use crate::layout::boxgen::BoxV;
use crate::layout::engine::{
    atom_of, finished_box, float_rect, float_width_of, flow_region_of, forced_height, hoists,
    inner_frame, lay_box, lay_content, lay_float, lay_in_flow, lay_lines, lay_pieces, lay_placed,
    lay_positioned, lay_sized, lead, reanchored, shrinks, style_of, Env, FlowArgs, FlowV, HeldV,
    Lay, RequestV, St,
};
use crate::layout::flowlaws::law_boxes_stand_where_put;
use crate::layout::fragment::{moved, FragV};
use crate::layout::length::{LengthPct, Viewport};
use crate::layout::measure::{is_replaced, natural};
use crate::layout::paint::{content_for, image_box};
use crate::layout::tablelaws::lemma_round_div;
use crate::layout::value::{BoxStyleV, Float};
use crate::layout::valuelaws::{lemma_trimmed_is, says, unset};
use crate::number::{round_div, LIMIT};
use crate::scan::words_in;
use crate::style::StyleMap;
use crate::text::Align;

verus! {

/// Lengths up to this can be added up by the dozen.
pub const SMALL: i64 = 10_000_000_000_000;

pub open spec fn small(x: int) -> bool {
    -SMALL <= x <= SMALL
}

/// Whether the margins, padding and borders of a style are lengths that can be added
/// up; padding is never below zero.
pub open spec fn small_edges(s: BoxStyleV) -> bool {
    &&& small(s.margin.top as int) && small(s.margin.bottom as int)
    &&& small(s.margin.left as int) && small(s.margin.right as int)
    &&& 0 <= s.padding.top <= SMALL && 0 <= s.padding.bottom <= SMALL
    &&& 0 <= s.padding.left <= SMALL && 0 <= s.padding.right <= SMALL
}

/// The padding and borders at the sides of a box.
pub open spec fn side_frame(s: BoxStyleV) -> int {
    s.padding.left + s.padding.right + s.border.left.width * 1_000_000 + s.border.right.width
        * 1_000_000
}

/// The padding and borders above and below the content of a box.
pub open spec fn end_frame(s: BoxStyleV) -> int {
    s.padding.top + s.padding.bottom + s.border.top.width * 1_000_000 + s.border.bottom.width
        * 1_000_000
}

// --------------------------------------------------------------------------
// lengths
// --------------------------------------------------------------------------

/// A length is its px, a percentage that part of what it goes by, a sum both; `auto` is
/// no length.
pub proof fn law_lengths(l: LengthPct, basis: int)
    requires
        0 <= basis <= LIMIT,
    ensures
        l is Auto ==> l.length(basis) is None,
        l matches LengthPct::Px(v) ==> l.length(basis) == Some(v as int),
        l matches LengthPct::Pct(p) ==> (0 <= p <= 100_000_000 ==> (l.length(basis) matches Some(v)
            && -100_000_000 <= 2 * (v * 100_000_000 - p * basis) <= 100_000_000)),
        l matches LengthPct::Calc { pct, px } ==> (small(px as int) && small(
            LengthPct::Pct(pct).length(basis)->0,
        ) ==> l.length(basis) == Some(LengthPct::Pct(pct).length(basis)->0 + px)),
{
    if let LengthPct::Pct(p) = l {
        if 0 <= p <= 100_000_000 {
            let x = p as int * basis;
            assert(0 <= x <= 100_000_000 * LIMIT) by (nonlinear_arith)
                requires
                    x == p as int * basis,
                    0 <= p <= 100_000_000,
                    0 <= basis <= LIMIT,
            ;
            lemma_round_div(x, 100_000_000);
        }
    }
}

// --------------------------------------------------------------------------
// widths and heights
// --------------------------------------------------------------------------

/// A box without a width of its own fills its containing block between its margins.
pub proof fn law_auto_width_fills(s: BoxStyleV, cb: int)
    requires
        small_edges(s),
        0 <= cb <= SMALL,
        s.width is Auto,
        s.max_width is Auto,
        s.min_width == LengthPct::Px(0),
        side_frame(s) <= cb - s.margin.left - s.margin.right,
    ensures
        s.margin.left + border_width_of(s, cb) + s.margin.right == cb,
{
    reveal(border_width_of);
}

/// A width is that of the content, to which padding and borders are added, or where the
/// style says so that of the border box.
pub proof fn law_declared_width(s: BoxStyleV, cb: int, w: i64)
    requires
        small_edges(s),
        s.width == LengthPct::Px(w),
        0 <= w <= SMALL,
        s.max_width is Auto,
        s.min_width == LengthPct::Px(0),
    ensures
        s.box_sizing is ContentBox ==> border_width_of(s, cb) == w + side_frame(s),
        s.box_sizing is BorderBox ==> border_width_of(s, cb) == w,
        s.box_sizing is ContentBox ==> content_width_of(s, border_width_of(s, cb)) == w,
        s.box_sizing is BorderBox && w >= side_frame(s) ==> content_width_of(
            s,
            border_width_of(s, cb),
        ) == w - side_frame(s),
{
    reveal(border_width_of);
}

/// A box is no narrower than its minimum, where that is no wider than its maximum, and
/// no wider than its maximum.
pub proof fn law_widths_are_held(s: BoxStyleV, cb: int, lo: i64, hi: i64)
    requires
        small_edges(s),
        s.min_width == LengthPct::Px(lo),
        s.max_width == LengthPct::Px(hi),
        0 <= lo <= hi <= SMALL,
    ensures
        ({
            let extra = if s.box_sizing is ContentBox {
                side_frame(s)
            } else {
                0
            };
            lo + extra <= border_width_of(s, cb) <= hi + extra
        }),
{
    reveal(border_width_of);
}

/// A box is as high as it declares, or else as its content, between its minimum and
/// its maximum; a declared height is that of the content, or of the border box.
pub proof fn law_heights(s: BoxStyleV, basis: int, content_w: int, content_h: int, h: i64)
    requires
        small_edges(s),
        0 <= content_h <= SMALL,
        0 <= h <= SMALL,
    ensures
        s.height == LengthPct::Px(h) && s.min_height == LengthPct::Px(0) && s.max_height is Auto
            && s.box_sizing is ContentBox ==> content_height_of(s, basis, content_w, content_h) == h,
        s.height == LengthPct::Px(h) && s.min_height == LengthPct::Px(0) && s.max_height is Auto
            && s.box_sizing is BorderBox && h >= end_frame(s) ==> content_height_of(
            s,
            basis,
            content_w,
            content_h,
        ) + end_frame(s) == h,
        s.height is Auto && s.aspect_ratio is None && s.min_height == LengthPct::Px(0)
            && s.max_height is Auto ==> content_height_of(s, basis, content_w, content_h)
            == content_h,
        s.height is Auto && s.aspect_ratio is None && s.min_height == LengthPct::Px(h)
            && s.max_height is Auto && s.box_sizing is ContentBox ==> content_height_of(
            s,
            basis,
            content_w,
            content_h,
        ) >= h,
        s.max_height == LengthPct::Px(h) && s.box_sizing is ContentBox ==> content_height_of(
            s,
            basis,
            content_w,
            content_h,
        ) <= h,
{
    reveal(content_height_of);
}

/// An aspect ratio gives a box without a height the height that goes with its width.
pub proof fn law_aspect_ratio(s: BoxStyleV, basis: int, content_w: int, content_h: int, w: i64, h: i64)
    requires
        small_edges(s),
        s.height is Auto,
        s.aspect_ratio == Some((w, h)),
        0 < w <= SMALL,
        0 < h <= w,
        s.min_height == LengthPct::Px(0),
        s.max_height is Auto,
        0 <= content_w <= SMALL,
    ensures
        -w <= 2 * (content_height_of(s, basis, content_w, content_h) * w - content_w * h) <= w,
{
    reveal(content_height_of);
    let x = content_w * h;
    assert(0 <= x) by (nonlinear_arith)
        requires
            x == content_w * h,
            0 <= content_w,
            0 < h,
    ;
    lemma_round_div(x, w as int);
    assert(0 <= round_div(x, w as int) <= LIMIT) by (nonlinear_arith)
        requires
            -w <= 2 * (round_div(x, w as int) * w - x) <= w,
            x == content_w * h,
            0 <= content_w <= SMALL,
            0 < h <= w,
            0 < w,
            SMALL + 1 <= LIMIT,
    ;
}

// --------------------------------------------------------------------------
// margins and centering
// --------------------------------------------------------------------------

/// Adjoining margins come to the largest of them and the most negative together.
pub proof fn law_margins_collapse(a: i64, b: i64)
    requires
        small(a as int),
        small(b as int),
    ensures
        Margin::of(a).size() == a,
        a >= 0 && b >= 0 ==> Margin::of(a).with(Margin::of(b)).size() == if a >= b {
            a
        } else {
            b
        },
        a < 0 && b < 0 ==> Margin::of(a).with(Margin::of(b)).size() == if a <= b {
            a
        } else {
            b
        },
        a >= 0 && b < 0 ==> Margin::of(a).with(Margin::of(b)).size() == a + b,
{
}

/// A block narrower than its container stands in its middle where its side margins are
/// `auto` or the container is centered, at its right where the container is aligned
/// right, and else at its left.
pub proof fn law_narrow_blocks_are_aligned(align: Align, s: BoxStyleV, m: StyleMap, w: int, cw: int)
    requires
        small_edges(s),
        0 <= w <= SMALL,
        0 <= cw <= SMALL,
        w <= cw,
        w < cw - s.margin.left - s.margin.right - 500_000,
    ensures
        ({
            let left = s.margin.left + h_offset(align, s, m, w, cw);
            &&& has_auto_x_margins(m) || align == Align::Center ==> 0 <= 2 * left - (cw - w) <= 1
            &&& !has_auto_x_margins(m) && align == Align::Right ==> left + w + s.margin.right == cw
            &&& !has_auto_x_margins(m) && align == Align::Left ==> left == s.margin.left
        }),
{
    reveal(h_offset);
    lemma_round_div(cw - w, 2);
}

/// Margins are `auto` on both sides where both longhands say so, or a word of the
/// shorthand does.
pub proof fn law_auto_margins(m: StyleMap)
    ensures
        says(m, "margin-left"@, "auto"@) && says(m, "margin-right"@, "auto"@) ==> has_auto_x_margins(m),
        m.contains_key("margin"@) && words_in(m["margin"@]).contains("auto"@) ==> has_auto_x_margins(
            m,
        ),
        unset(m, "margin"@) && (unset(m, "margin-left"@) || unset(m, "margin-right"@))
            ==> !has_auto_x_margins(m),
{
}

// --------------------------------------------------------------------------
// positioned boxes
// --------------------------------------------------------------------------

/// A positioned box stands at its `left` from the left edge of its containing block, and
/// at its `top` from the top edge, its margins added; without a `left` its `right` edge
/// stands at its `right` from the right edge; without insets it stands where it would in
/// flow. The containing block is the nearest positioned ancestor, or for a fixed box the
/// page.
pub proof fn law_positioned_boxes_stand_by_their_insets(
    s: BoxStyleV,
    cb: int,
    f: Frame,
    sx: int,
    sy: int,
)
    requires
        small_edges(s),
        small(sx) && small(sy),
        small(f.abs_x as int) && small(f.abs_y as int),
        0 <= f.abs_w <= SMALL && 0 <= f.abs_h <= SMALL && 0 <= f.root_w <= SMALL,
        small(border_width_of(s, if s.position is Fixed {
            if f.root_w >= cb {
                f.root_w as int
            } else {
                cb
            }
        } else {
            if f.abs_w >= cb {
                f.abs_w as int
            } else {
                cb
            }
        })),
    ensures
        ({
            let (x0, y0, w0, h0) = if s.position is Fixed {
                (0int, 0int, f.root_w as int, 0int)
            } else {
                (f.abs_x as int, f.abs_y as int, f.abs_w as int, f.abs_h as int)
            };
            let bbw = border_width_of(
                s,
                if w0 >= cb {
                    w0
                } else {
                    cb
                },
            );
            let o = origin_of(s, cb, f, sx, sy);
            &&& s.inset_left.length(w0) matches Some(l) ==> (small(l) ==> o.0 == x0 + l
                + s.margin.left)
            &&& s.inset_left.length(w0) is None ==> (s.inset_right.length(w0) matches Some(r) ==> (
            small(r) ==> o.0 - s.margin.left + bbw + r == x0 + w0))
            &&& s.inset_left.length(w0) is None && s.inset_right.length(w0) is None ==> o.0 == sx
                + s.margin.left
            &&& s.inset_top.length(h0) matches Some(t) ==> (small(t) ==> o.1 == y0 + t
                + s.margin.top)
            &&& s.inset_top.length(h0) is None ==> o.1 == sy + s.margin.top
        }),
{
    reveal(origin_of);
}

/// A positioned box without a `top` has its `bottom` margin edge at its `bottom` from the
/// bottom edge of its containing block, where the height of that is known; otherwise it
/// stays where it is.
pub proof fn law_bottom_insets_hold(s: BoxStyleV, f: Frame, y: int, h: int)
    requires
        small_edges(s),
        small(y),
        0 <= h <= SMALL,
        small(f.abs_y as int),
        0 <= f.abs_h <= SMALL,
        !(s.position is Fixed),
    ensures
        s.inset_top.length(f.abs_h as int) is None && f.abs_h > 0 ==> (s.inset_bottom.length(
            f.abs_h as int,
        ) matches Some(b) ==> (small(b) ==> y + bottom_shift(s, f, y, h) + h + s.margin.bottom + b
            == f.abs_y + f.abs_h)),
        s.inset_top.length(f.abs_h as int) is Some || s.inset_bottom.length(f.abs_h as int) is None
            || f.abs_h <= 0 ==> bottom_shift(s, f, y, h) == 0,
{
    reveal(bottom_shift);
}

/// A relative or sticky box is painted off its place by its insets: right and down by
/// `left` and `top`, else left and up by `right` and `bottom`. Others are not moved.
pub proof fn law_relative_boxes_are_moved(s: BoxStyleV, cb: int)
    ensures
        !(s.position is Relative) && !(s.position is Sticky) ==> relative_shift(s, cb) == (0int, 0int),
        s.position is Relative || s.position is Sticky ==> {
            &&& s.inset_left.length(cb) matches Some(l) ==> relative_shift(s, cb).0 == l
            &&& s.inset_top.length(cb) matches Some(t) ==> relative_shift(s, cb).1 == t
            &&& s.inset_left.length(cb) is None ==> (s.inset_right.length(cb) matches Some(r) ==> (
            small(r) ==> relative_shift(s, cb).0 == -r))
            &&& s.inset_top.length(cb) is None ==> (s.inset_bottom.length(cb) matches Some(b) ==> (
            small(b) ==> relative_shift(s, cb).1 == -b))
            &&& s.inset_left.length(cb) is None && s.inset_right.length(cb) is None
                ==> relative_shift(s, cb).0 == 0
            &&& s.inset_top.length(cb) is None && s.inset_bottom.length(cb) is None
                ==> relative_shift(s, cb).1 == 0
        },
{
    reveal(relative_shift);
}

/// The content box of a positioned box is the containing block of the positioned boxes
/// in it; a box that is not positioned leaves it as it was.
pub proof fn law_positioned_boxes_contain(s: BoxStyleV, f: Frame, cx: i64, cy: i64, cw: i64)
    ensures
        ({
            let g = inner_frame(s, f, cx, cy, cw);
            &&& s.position is Static ==> g.abs_x == f.abs_x && g.abs_y == f.abs_y && g.abs_w
                == f.abs_w && g.abs_h == f.abs_h
            &&& !(s.position is Static) ==> g.abs_x == cx && g.abs_y == cy && g.abs_w == cw
            &&& g.root_w == f.root_w
        }),
{
    reveal(inner_frame);
}

// --------------------------------------------------------------------------
// floats
// --------------------------------------------------------------------------

/// A box keeps its floats to itself where it floats, is out of flow, is a flex, grid or
/// table container, or cuts its overflow; a plain box does not.
pub proof fn law_isolating_boxes(b: BoxV, s: BoxStyleV)
    ensures
        s.float is Left || s.float is Right ==> isolates(b, s),
        s.position is Absolute || s.position is Fixed ==> isolates(b, s),
        b.kind is Flex || b.kind is Grid || b.kind is Table ==> isolates(b, s),
        says(b.style, "overflow"@, "hidden"@) || says(b.style, "overflow"@, "auto"@) || says(
            b.style,
            "overflow"@,
            "scroll"@,
        ) || says(b.style, "overflow"@, "clip"@) ==> isolates(b, s),
        says(b.style, "overflow-x"@, "hidden"@) || says(b.style, "overflow-y"@, "hidden"@)
            ==> isolates(b, s),
        s.float is Neither && (s.position is Static || s.position is Relative) && (b.kind is Block
            || b.kind is Lines) && unset(b.style, "overflow"@) && unset(b.style, "overflow-x"@)
            && unset(b.style, "overflow-y"@) ==> !isolates(b, s),
{
    reveal(isolates);
}

/// Whether a float reaches over the row at `y`, but for half a px.
pub open spec fn at_row(f: FloatRect, y: int) -> bool {
    f.top <= y + 500_000 && y + 500_000 <= f.bottom
}

proof fn lemma_edges(v: Seq<FloatRect>, cx: int, cw: int, y: int, k: nat)
    requires
        k <= v.len(),
        small(cx),
        0 <= cw <= SMALL,
    ensures
        ({
            let (l, r) = region_edges(v, cx, cw, y, k);
            &&& l >= cx && r <= cx + cw
            &&& forall|i: int|
                0 <= i < k && at_row(#[trigger] v[i], y) && v[i].side is Left ==> l >= v[i].x1
            &&& forall|i: int|
                0 <= i < k && at_row(#[trigger] v[i], y) && v[i].side is Right ==> r <= v[i].x0
            &&& l == cx || exists|i: int|
                0 <= i < k && at_row(#[trigger] v[i], y) && v[i].side is Left && l == v[i].x1
            &&& r == cx + cw || exists|i: int|
                0 <= i < k && at_row(#[trigger] v[i], y) && v[i].side is Right && r == v[i].x0
        }),
    decreases k,
{
    if k > 0 {
        lemma_edges(v, cx, cw, y, (k - 1) as nat);
        let (l0, r0) = region_edges(v, cx, cw, y, (k - 1) as nat);
        let (l, r) = region_edges(v, cx, cw, y, k);
        if l != cx {
            if l == l0 {
                let i = choose|i: int|
                    0 <= i < k - 1 && at_row(#[trigger] v[i], y) && v[i].side is Left && l0
                        == v[i].x1;
                assert(at_row(v[i], y));
            } else {
                assert(at_row(v[k - 1], y));
            }
        }
        if r != cx + cw {
            if r == r0 {
                let i = choose|i: int|
                    0 <= i < k - 1 && at_row(#[trigger] v[i], y) && v[i].side is Right && r0
                        == v[i].x0;
                assert(at_row(v[i], y));
            } else {
                assert(at_row(v[k - 1], y));
            }
        }
    }
}

/// A row starts behind every left float beside it and ends before every right one, and
/// reaches from edge to edge where no float stands beside it. Nothing else narrows it:
/// it starts at the edge or at a left float.
pub proof fn law_rows_run_beside_floats(v: Seq<FloatRect>, cx: int, cw: int, y: int)
    requires
        small(cx),
        1_000_000 <= cw <= SMALL,
        forall|i: int|
            0 <= i < v.len() ==> small((#[trigger] v[i]).x0 as int) && small(v[i].x1 as int),
    ensures
        ({
            let (x, w) = region(v, cx, cw, y);
            &&& x >= cx
            &&& forall|i: int|
                0 <= i < v.len() && at_row(#[trigger] v[i], y) && v[i].side is Left ==> x
                    >= v[i].x1
            &&& w > 1_000_000 ==> x + w <= cx + cw && forall|i: int|
                0 <= i < v.len() && at_row(#[trigger] v[i], y) && v[i].side is Right ==> x + w
                    <= v[i].x0
            &&& (forall|i: int| 0 <= i < v.len() ==> !at_row(#[trigger] v[i], y)) ==> x == cx && w
                == cw
            &&& x == cx || exists|i: int|
                0 <= i < v.len() && at_row(#[trigger] v[i], y) && v[i].side is Left && x == v[i].x1
        }),
{
    reveal(region);
    lemma_edges(v, cx, cw, y, v.len());
}

proof fn lemma_lowest_of(v: Seq<FloatRect>, l: bool, r: bool, y: int, k: nat)
    requires
        k <= v.len(),
    ensures
        lowest(v, l, r, y, k) >= y,
        l ==> forall|i: int|
            0 <= i < k && (#[trigger] v[i]).side is Left ==> lowest(v, l, r, y, k) >= v[i].bottom,
        r ==> forall|i: int|
            0 <= i < k && (#[trigger] v[i]).side is Right ==> lowest(v, l, r, y, k) >= v[i].bottom,
        (forall|i: int|
            0 <= i < k ==> !((#[trigger] v[i]).side is Left && l) && !(v[i].side is Right && r))
            ==> lowest(v, l, r, y, k) == y,
    decreases k,
{
    if k > 0 {
        lemma_lowest_of(v, l, r, y, (k - 1) as nat);
    }
}

/// A box that clears a side drops below every float on that side, one that clears both
/// below all, and one that clears none or only the other side stays.
pub proof fn law_clear_drops_below(m: StyleMap, v: Seq<FloatRect>, y: int)
    ensures
        cleared_y(m, v, y) >= y,
        says(m, "clear"@, "left"@) || says(m, "clear"@, "both"@) ==> forall|i: int|
            0 <= i < v.len() && (#[trigger] v[i]).side is Left ==> cleared_y(m, v, y)
                >= v[i].bottom,
        says(m, "clear"@, "right"@) || says(m, "clear"@, "both"@) ==> forall|i: int|
            0 <= i < v.len() && (#[trigger] v[i]).side is Right ==> cleared_y(m, v, y)
                >= v[i].bottom,
        says(m, "clear"@, "left"@) && (forall|i: int|
            0 <= i < v.len() ==> (#[trigger] v[i]).side is Right) ==> cleared_y(m, v, y) == y,
        says(m, "clear"@, "right"@) && (forall|i: int|
            0 <= i < v.len() ==> (#[trigger] v[i]).side is Left) ==> cleared_y(m, v, y) == y,
        says(m, "clear"@, "none"@) || unset(m, "clear"@) ==> cleared_y(m, v, y) == y,
{
    reveal(cleared_y);
    reveal_strlit("both");
    reveal_strlit("left");
    reveal_strlit("right");
    reveal_strlit("none");
    assert("both"@.len() == 4 && "left"@.len() == 4 && "right"@.len() == 5 && "none"@.len() == 4);
    assert("both"@[0] == 'b' && "left"@[0] == 'l' && "none"@[0] == 'n');
    lemma_trimmed_is("none"@);
    lemma_lowest_of(v, true, true, y, v.len());
    lemma_lowest_of(v, true, false, y, v.len());
    lemma_lowest_of(v, false, true, y, v.len());
    lemma_lowest_of(v, false, false, y, v.len());
}

/// A float is remembered as its margin box, on the side it floats to.
pub proof fn law_floats_are_remembered(f: FragV, s: BoxStyleV, y: i64)
    requires
        small_edges(s),
        small(f.x) && small(f.width) && small(f.height) && small(y as int),
    ensures
        ({
            let r = float_rect(f, s, y);
            &&& r.x0 == f.x - s.margin.left && r.x1 == f.x + f.width + s.margin.right
            &&& r.top == y && r.bottom == y + s.margin.top + f.height + s.margin.bottom
            &&& r.side == s.float
        }),
{
    reveal(float_rect);
}

/// A float without a width of its own is as wide as its content, and no wider than its
/// container.
pub proof fn law_floats_shrink(b: BoxV, s: BoxStyleV, cw: i64, env: Env)
    requires
        shrinks(b, s, cw),
        i64::MIN <= natural(b, env.sources()) <= i64::MAX,
    ensures
        float_width_of(b, s, cw, env) <= cw,
        natural(b, env.sources()) <= cw ==> float_width_of(b, s, cw, env) == natural(
            b,
            env.sources(),
        ),
{
    reveal(float_width_of);
}

/// A float that is laid out at the width kept for it stands at the edge it floats to of
/// the first row that has room for it, its margins kept free, and is remembered.
pub proof fn law_floats_stand_at_their_edge(
    b: BoxV,
    s: BoxStyleV,
    a: FlowArgs,
    y0: i64,
    f: Frame,
    env: Env,
    st: St,
)
    requires
        small_edges(s),
        small(y0 as int),
        small(float_width_of(b, s, a.cw, env) as int),
        ({
            let room = float_width_of(b, s, a.cw, env) + s.margin.left + s.margin.right;
            let y = drop_y(st.floats, a.cx as int, a.cw as int, room, y0 as int);
            small(y) && small(region(st.floats, a.cx as int, a.cw as int, y).0) && small(
                region(st.floats, a.cx as int, a.cw as int, y).1,
            )
        }),
    ensures
        lay_float(b, s, a, y0, f, env, st) matches Lay::Done(g, st1) ==> {
            let w = float_width_of(b, s, a.cw, env) as int;
            let room = w + s.margin.left + s.margin.right;
            let y = drop_y(st.floats, a.cx as int, a.cw as int, room, y0 as int);
            let (rx, rw) = region(st.floats, a.cx as int, a.cw as int, y);
            &&& g.y == y + s.margin.top
            &&& s.float is Left ==> g.x == rx + s.margin.left
            &&& s.float is Right && 0 <= g.width <= SMALL && (g.width == w || g.width - w > 500_000
                || w - g.width > 500_000) ==> g.x + g.width + s.margin.right == rx + rw
            &&& st1.floats.len() > 0
            &&& st1.floats.last() == float_rect(g, s, y as i64)
        },
{
    reveal(lay_float);
    reveal(lay_box);
    reveal(lay_sized);
    reveal(reanchored);
    let w = float_width_of(b, s, a.cw, env);
    let room = (w + s.margin.left + s.margin.right) as i64;
    let y = drop_y(st.floats, a.cx as int, a.cw as int, room as int, y0 as int) as i64;
    let (rx, rw) = region(st.floats, a.cx as int, a.cw as int, y as int);
    let end = (rx + rw) as i64;
    let x = if s.float == Float::Right {
        (end - room) as i64
    } else {
        rx as i64
    };
    law_boxes_stand_where_put(
        b,
        s,
        (x + s.margin.left) as i64,
        (y + s.margin.top) as i64,
        w,
        false,
        false,
        f,
        env,
        st,
    );
    lemma_box_stands(
        b,
        (x + s.margin.left) as i64,
        (y + s.margin.top) as i64,
        a.cw,
        a.fs,
        false,
        f,
        env,
        st,
    );
}

// --------------------------------------------------------------------------
// boxes
// --------------------------------------------------------------------------

/// A box is as wide as decided, and as high as its content and what frames it; it keeps
/// its number, its index and its break rules.
pub proof fn law_boxes_are_framed(
    b: BoxV,
    s: BoxStyleV,
    x: i64,
    y: i64,
    w: i64,
    absorb: bool,
    force: bool,
    f: Frame,
    env: Env,
    st: St,
)
    requires
        small_edges(s),
        image_box(b, s, x, y, w, f, env.images, env.body_height) is None,
    ensures
        lay_sized(b, s, x, y, w, absorb, force, f, env, st) matches Lay::Done(g, _) ==> {
            &&& g.width == w
            &&& g.id == b.id as u32
            &&& g.z_index == s.z_index
            &&& g.is_positioned == !(s.position is Static)
            &&& g.break_meta.break_before == s.break_before
            &&& g.break_meta.break_after == s.break_after
            &&& g.break_meta.break_inside_avoid == s.break_inside_avoid
            &&& g.break_meta.orphans == s.orphans
            &&& g.break_meta.widows == s.widows
            &&& s.height matches LengthPct::Px(h) ==> (0 <= h <= SMALL && s.min_height
                == LengthPct::Px(0) && s.max_height is Auto && s.box_sizing is ContentBox
                ==> g.height == h + end_frame(s))
            &&& s.height matches LengthPct::Px(h) ==> (end_frame(s) <= h <= SMALL && s.min_height
                == LengthPct::Px(0) && s.max_height is Auto && s.box_sizing is BorderBox
                ==> g.height == h)
        },
{
    reveal(lay_sized);
    reveal(finished_box);
    reveal(content_height_of);
}

/// What a box contains is laid out in its content box: inside its border and padding.
pub proof fn law_content_stands_inside_the_frame(
    b: BoxV,
    s: BoxStyleV,
    x: i64,
    y: i64,
    w: i64,
    absorb: bool,
    force: bool,
    f: Frame,
    env: Env,
    st: St,
)
    requires
        small_edges(s),
        small(x as int) && small(y as int),
        0 <= w <= SMALL,
        image_box(b, s, x, y, w, f, env.images, env.body_height) is None,
        force || isolates(b, s),
        side_frame(s) <= w,
        lay_sized(b, s, x, y, w, absorb, force, f, env, st) is Done,
    ensures
        ({
            let cx = (x + s.border.left.width * 1_000_000 + s.padding.left) as i64;
            let cy = (y + s.border.top.width * 1_000_000 + s.padding.top) as i64;
            let cw = (w - side_frame(s)) as i64;
            lay_content(
                b,
                s,
                cx,
                cy,
                cw,
                absorb,
                true,
                inner_frame(s, f, cx, cy, cw),
                env,
                St { floats: Seq::empty(), used: st.used },
            ) is Done
        }),
{
    reveal(lay_sized);
}

/// What a box paints: its own borders, its background unless a mask or a gradient takes
/// its place, its gradient and its shadow.
pub proof fn law_boxes_paint_their_style(b: BoxV, s: BoxStyleV, w: int, h: int)
    requires
        !(b.kind is Directive),
        s.transform is None,
    ensures
        content_for(b, s, w, h, Seq::empty()) matches Ok(c) && c is Box && c->Box_0.border == s.border
            && c->Box_0.gradient == s.background_gradient && c->Box_0.shadow == s.box_shadow
            && c->Box_0.transform is None && (b.mask is None && s.background_gradient is None
            ==> c->Box_0.background == s.background) && (b.mask is Some || s.background_gradient is Some
            ==> c->Box_0.background is None),
{
    reveal(content_for);
}

// --------------------------------------------------------------------------
// flow
// --------------------------------------------------------------------------

/// A first child's margin goes through the top of a plain block that nothing separates
/// from it, and through no other box.
pub proof fn law_margins_go_through(b: BoxV, s: BoxStyleV, cb: i64, vp: Viewport)
    ensures
        hoists(b, s) ==> b.kind is Block && s.padding.top == 0 && s.border.top.width == 0
            && !isolates(b, s),
        b.kind is Block && s.padding.top == 0 && s.border.top.width == 0 && !isolates(b, s)
            && !is_replaced(b) ==> hoists(b, s),
        !hoists(b, s) ==> lead(b, s, cb, vp) == Margin::of(s.margin.top),
{
    reveal(hoists);
    reveal(lead);
}

/// Whether the numbers of a step of flow can be added up.
pub open spec fn small_step(s: BoxStyleV, w: FlowV, a: FlowArgs) -> bool {
    &&& small_edges(s)
    &&& small(w.cursor as int)
    &&& small(w.margin.pos as int) && small(w.margin.neg as int)
    &&& w.margin.pos >= 0 && w.margin.neg <= 0
    &&& small(a.cx as int) && 0 <= a.cw <= SMALL
}

/// A block in flow starts below the box before it, the margins between them collapsed,
/// at the left of its container behind its margin; the next one starts below it.
pub proof fn law_blocks_stack(
    b: BoxV,
    s: BoxStyleV,
    w: FlowV,
    a: FlowArgs,
    f: Frame,
    env: Env,
    st: St,
)
    requires
        small_step(s, w, a),
        s.position is Static,
        !isolates(b, s),
        !is_replaced(b),
        !hoists(b, s),
        !w.absorbed,
        unset(b.style, "clear"@),
        a.align is Left,
        !has_auto_x_margins(b.style),
    ensures
        lay_in_flow(b, s, w, a, f, env, st) matches Lay::Done(n, _) ==> {
            let y = w.cursor + w.margin.with(Margin::of(s.margin.top)).size();
            &&& n.kids.len() == w.kids.len() + 1
            &&& n.kids.last() matches HeldV::Placed(g)
            &&& g.x == a.cx + s.margin.left
            &&& g.y == y
            &&& small(g.height) && g.height != 0 ==> n.cursor == y + g.height && n.margin
                == Margin::of(s.margin.bottom)
            &&& g.height == 0 ==> n.cursor == w.cursor && n.margin == w.margin.with(
                Margin::of(s.margin.top),
            ).with(Margin::of(s.margin.bottom))
            &&& !n.absorbed
        },
{
    reveal(lay_in_flow);
    reveal(lay_box);
    reveal(flow_region_of);
    reveal(relative_shift);
    reveal(h_offset);
    law_clear_drops_below(b.style, st.floats, w.cursor + w.margin.size());
    law_margins_go_through(b, s, a.cw, env.viewport);
    let y = (w.cursor + w.margin.with(Margin::of(s.margin.top)).size()) as i64;
    let x = (a.cx + s.margin.left) as i64;
    lemma_box_stands(b, x, y, a.cw, a.fs, false, f, env, st);
}

proof fn lemma_box_stands(
    b: BoxV,
    x: i64,
    y: i64,
    cb: i64,
    fs: i64,
    absorb: bool,
    f: Frame,
    env: Env,
    st: St,
)
    ensures
        lay_box(b, x, y, cb, fs, absorb, f, env, st) matches Lay::Done(g, _) ==> g.x == x && g.y == y,
{
    reveal(lay_box);
    reveal(lay_sized);
    reveal(image_box);
    reveal(finished_box);
    let s = style_of(b.style, fs, cb, env.viewport);
    law_boxes_stand_where_put(
        b,
        s,
        x,
        y,
        crate::layout::engine::box_width(b, s, cb, env),
        absorb,
        false,
        f,
        env,
        st,
    );
}

/// A positioned box is laid out where its insets put it.
pub proof fn law_positioned_boxes_are_put(
    b: BoxV,
    x: i64,
    y: i64,
    a: FlowArgs,
    f: Frame,
    env: Env,
    st: St,
)
    ensures
        lay_positioned(b, x, y, a, f, env, st) matches Lay::Done(g, _) ==> {
            let s = style_of(b.style, a.fs, a.cw, env.viewport);
            let o = origin_of(s, a.cw as int, f, x as int, y as int);
            i64::MIN <= o.0 <= i64::MAX && i64::MIN <= o.1 <= i64::MAX && -LIMIT <= o.0 <= LIMIT ==> {
                &&& g.x == o.0
                &&& bottom_shift(s, f, o.1, g.height) == 0 ==> g.y == o.1
                &&& small(o.1) && small(bottom_shift(s, f, o.1, g.height)) ==> g.y == o.1
                    + bottom_shift(s, f, o.1, g.height)
            }
        },
{
    reveal(lay_positioned);
    reveal(lay_box);
    let s = style_of(b.style, a.fs, a.cw, env.viewport);
    let o = origin_of(s, a.cw as int, f, x as int, y as int);
    lemma_box_stands(b, o.0 as i64, o.1 as i64, a.cw, a.fs, false, f, env, st);
}

/// An item of a flex or grid container stands at the place it was given in the content
/// box, and is as wide as given.
pub proof fn law_items_stand_at_their_places(
    v: Seq<BoxV>,
    places: Seq<crate::layout::fragment::Rect>,
    cx: i64,
    cy: i64,
    fs: i64,
    f: Frame,
    env: Env,
    st: St,
    k: nat,
)
    requires
        0 < k <= v.len(),
        places.len() == v.len(),
        small(cx as int) && small(cy as int),
        small(places[k - 1].x as int) && small(places[k - 1].y as int),
    ensures
        lay_placed(v, places, cx, cy, fs, f, env, st, k) matches Lay::Done(out, _) ==> out.len() > 0
            && out.last().x == cx + places[k - 1].x && out.last().y == cy + places[k - 1].y,
{
    reveal(lay_placed);
    reveal(lay_sized);
    if let Lay::Done(before, st1) = lay_placed(v, places, cx, cy, fs, f, env, st, (k - 1) as nat) {
        let p = places[k - 1];
        let s = forced_height(style_of(v[k - 1].style, fs, p.width, env.viewport), p.height);
        law_boxes_stand_where_put(v[k - 1], s, 0, 0, p.width, false, true, f, env, st1);
    }
}

/// An item is as high as it was made, unless it declares a height of its own.
pub proof fn law_items_are_as_high_as_given(s: BoxStyleV, h: i64)
    requires
        small_edges(s),
        end_frame(s) <= h <= SMALL,
    ensures
        s.height matches LengthPct::Px(x) ==> forced_height(s, h) == s,
        !(s.height is Px) ==> forced_height(s, h).height == LengthPct::Px((h - end_frame(s)) as i64)
            && forced_height(s, h).box_sizing is ContentBox,
{
    reveal(forced_height);
}

/// An unbreakable box takes its margins into its line.
pub proof fn law_atoms_take_their_margins(id: nat, g: FragV, s: BoxStyleV, fs: i64)
    requires
        small_edges(s),
        small(g.width) && small(g.height),
    ensures
        atom_of(id, g, s, fs).width == s.margin.left + g.width + s.margin.right,
        atom_of(id, g, s, fs).height == s.margin.top + g.height + s.margin.bottom,
        atom_of(id, g, s, fs).valign == s.vertical_align,
        atom_of(id, g, s, fs).font_size == fs,
{
}

/// A paragraph is asked for with its alignment, its line height, its font size and the
/// floats around it, in the content box that it is to fill.
pub proof fn law_paragraphs_are_asked_for(
    v: Seq<crate::layout::boxgen::ItemV>,
    s: BoxStyleV,
    cx: i64,
    cy: i64,
    cw: i64,
    f: Frame,
    env: Env,
    st: St,
)
    requires
        lay_pieces(v, s, cx, cy, cw, f, env, st, v.len()) is Done,
    ensures
        lay_lines(v, s, cx, cy, cw, f, env, st) matches Lay::Need(RequestV::Paragraph(q)) ==> {
            &&& q.align == s.text_align && q.font_size == s.font_size && q.line_height
                == s.line_height
            &&& q.x == cx && q.y == cy && q.width == cw
            &&& q.pieces == (lay_pieces(v, s, cx, cy, cw, f, env, st, v.len())->Done_0).pieces
            &&& q.floats == (lay_pieces(v, s, cx, cy, cw, f, env, st, v.len())->Done_1).floats
        },
{
    reveal(lay_lines);
}

// --------------------------------------------------------------------------
// limits
// --------------------------------------------------------------------------

/// A width may be a percentage of the containing block, and so may its limits; the maximum
/// wins over the minimum.
pub proof fn law_widths_by_the_container(s: BoxStyleV, cb: int, w: int, lo: int, hi: int)
    requires
        small_edges(s),
        s.width.length(cb) == Some(w),
        s.min_width.length(cb) == Some(lo),
        0 <= w <= SMALL,
        0 <= lo <= SMALL,
        0 <= hi <= SMALL,
    ensures
        ({
            let extra = if s.box_sizing is ContentBox {
                side_frame(s)
            } else {
                0
            };
            let r = border_width_of(s, cb);
            &&& s.max_width is Auto ==> r == (if w >= lo {
                w
            } else {
                lo
            }) + extra
            &&& s.max_width.length(cb) == Some(hi) ==> r <= hi + extra
            &&& s.max_width.length(cb) == Some(hi) && lo <= hi && w <= hi ==> r == (if w >= lo {
                w
            } else {
                lo
            }) + extra
            &&& s.max_width.length(cb) == Some(hi) && (w > hi || lo > hi) ==> r == hi + extra
        }),
{
    reveal(border_width_of);
}

/// Where its margins leave no room a box without a width has none but its frame, and no
/// content is narrower than nothing.
pub proof fn law_no_room(s: BoxStyleV, cb: int, bb: int)
    requires
        small_edges(s),
        0 <= cb <= SMALL,
        small(bb),
        s.max_width is Auto,
        s.min_width == LengthPct::Px(0),
    ensures
        s.width is Auto && cb <= s.margin.left + s.margin.right ==> border_width_of(s, cb)
            == if s.box_sizing is ContentBox {
            side_frame(s)
        } else {
            0
        },
        s.width is Auto && s.box_sizing is ContentBox && cb - s.margin.left - s.margin.right
            <= side_frame(s) ==> border_width_of(s, cb) == side_frame(s),
        content_width_of(s, bb) >= 0,
        bb <= side_frame(s) ==> content_width_of(s, bb) == 0,
        bb >= side_frame(s) ==> content_width_of(s, bb) + side_frame(s) == bb,
{
    reveal(border_width_of);
}

/// A height may be a percentage of a known one and is that of the content otherwise; it is
/// held between its limits, the maximum winning.
pub proof fn law_heights_by_the_container(
    s: BoxStyleV,
    basis: int,
    content_w: int,
    content_h: int,
    lo: i64,
    hi: i64,
)
    requires
        small_edges(s),
        s.box_sizing is ContentBox,
        s.aspect_ratio is None,
        s.height is Pct,
        0 <= content_h <= SMALL,
        0 <= lo <= SMALL,
        0 <= hi <= SMALL,
        s.min_height == LengthPct::Px(lo),
        s.max_height == LengthPct::Px(hi),
    ensures
        ({
            let h = if basis > 0 {
                s.height.length(basis)->0
            } else {
                content_h
            };
            let r = content_height_of(s, basis, content_w, content_h);
            &&& r <= hi
            &&& lo <= h <= hi ==> r == h
            &&& h < lo <= hi ==> r == lo
            &&& h > hi || lo > hi ==> r == hi
        }),
{
    reveal(content_height_of);
}

/// Heights of border boxes leave out the frame, in their limits too.
pub proof fn law_border_box_heights(s: BoxStyleV, basis: int, content_w: int, content_h: int, h: i64)
    requires
        small_edges(s),
        s.box_sizing is BorderBox,
        s.aspect_ratio is None,
        0 <= content_h <= SMALL,
        end_frame(s) <= h <= SMALL,
    ensures
        s.height is Auto && s.max_height == LengthPct::Px(h) ==> content_height_of(
            s,
            basis,
            content_w,
            content_h,
        ) + end_frame(s) <= h,
        s.height is Auto && s.max_height is Auto && s.min_height == LengthPct::Px(h)
            ==> content_height_of(s, basis, content_w, content_h) + end_frame(s) >= h,
        s.height is Auto && s.max_height is Auto && s.min_height == LengthPct::Px(h) && content_h
            + end_frame(s) >= h ==> content_height_of(s, basis, content_w, content_h) == content_h,
{
    reveal(content_height_of);
}

/// A box that fills its container is not moved in it, and neither is a fixed box by its
/// bottom, since a page has no known height.
pub proof fn law_filling_boxes_stay(align: Align, s: BoxStyleV, m: StyleMap, w: int, cw: int, f: Frame, y: int, h: int)
    requires
        small_edges(s),
        0 <= w <= SMALL,
        0 <= cw <= SMALL,
    ensures
        w >= cw - s.margin.left - s.margin.right && w >= 0 ==> h_offset(align, s, m, w, cw) == 0,
        s.position is Fixed ==> bottom_shift(s, f, y, h) == 0,
{
    reveal(h_offset);
    reveal(bottom_shift);
}

} // verus!
