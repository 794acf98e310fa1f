//! Block layout decisions: widths, heights, margins, floats, and the places of
//! positioned boxes.

use vstd::prelude::*;

use crate::layout::boxgen::{box_view, BoxKind, BoxV, LayoutBox};
use crate::layout::length::LengthPct;
use crate::layout::measure::{frame_of, frame_width};
use crate::layout::value::{
    is_set_to, keyword, set_to, BoxSizing, BoxStyle, BoxStyleV, Float, Position,
};
use crate::number::{
    clip, diff, greatest, least, max_of, min_of, minus, plus, scale, scaled, sum, LIMIT, ONE,
};
use crate::scan::{same, texts, trim, words, words_in};
use crate::style::{prop, ComputedStyle, StyleMap};
use crate::text::Align;

verus! {

/// Half a px: differences below it do not count.
pub const HALF: i64 = 500_000;

/// Where boxes stand while their ancestors are laid out.
#[derive(Debug, Clone, Copy, PartialEq, Eq, Structural)]
pub struct Frame {
    /// The content box of the nearest positioned ancestor.
    pub abs_x: i64,
    pub abs_y: i64,
    pub abs_w: i64,
    /// Its height where that is definite, else zero.
    pub abs_h: i64,
    /// The definite height of the parent's content box, else zero.
    pub cb_h: i64,
    /// The width of the page.
    pub root_w: i64,
}

/// A placed float: its margin box, and the edge it packs against.
#[derive(Debug, Clone, Copy, PartialEq, Eq, Structural)]
pub struct FloatRect {
    pub x0: i64,
    pub x1: i64,
    pub top: i64,
    pub bottom: i64,
    pub side: Float,
}

// --------------------------------------------------------------------------
// widths
// --------------------------------------------------------------------------

/// A declared size as a border-box size.
pub open spec fn as_border(v: int, sizing: BoxSizing, extra: int) -> int {
    match sizing {
        BoxSizing::BorderBox => v,
        BoxSizing::ContentBox => sum(v, extra),
    }
}

pub fn to_border(v: i64, sizing: BoxSizing, extra: i64) -> (r: i64)
    ensures
        r == as_border(v as int, sizing, extra as int),
{
    match sizing {
        BoxSizing::BorderBox => v,
        BoxSizing::ContentBox => plus(v, extra),
    }
}

/// A border-box width held between the minimum and the maximum.
pub open spec fn clamped_width(bb: int, s: BoxStyleV, cb: int, extra: int) -> int {
    let low = match s.min_width.length(cb) {
        Some(m) => greatest(bb, as_border(m, s.box_sizing, extra)),
        None => bb,
    };
    match s.max_width.length(cb) {
        Some(m) => least(low, as_border(m, s.box_sizing, extra)),
        None => low,
    }
}

pub fn clamp_width(bb: i64, s: &BoxStyle, cb: i64, extra: i64) -> (r: i64)
    ensures
        r == clamped_width(bb as int, s@, cb as int, extra as int),
{
    let low: i64 = match s.min_width.resolve(cb) {
        Some(m) => max_of(bb, to_border(m, s.box_sizing, extra)),
        None => bb,
    };
    match s.max_width.resolve(cb) {
        Some(m) => min_of(low, to_border(m, s.box_sizing, extra)),
        None => low,
    }
}

/// Top and bottom padding and borders.
pub open spec fn v_frame(s: BoxStyleV) -> int {
    sum(
        clip(s.padding.top + s.padding.bottom),
        clip(s.border.widths_of().top + s.border.widths_of().bottom),
    )
}

pub fn v_extra(s: &BoxStyle) -> (r: i64)
    ensures
        r == v_frame(s@),
{
    plus(s.padding.vertical(), s.border.widths().vertical())
}

/// The border-box width of a box in a containing block: its own, else what the
/// block leaves beside the margins.
#[verifier::opaque]
pub open spec fn border_width_of(s: BoxStyleV, cb: int) -> int {
    let avail = greatest(diff(cb, clip(s.margin.left + s.margin.right)), 0);
    let bb = match s.width.length(cb) {
        None => avail,
        Some(w) => as_border(w, s.box_sizing, frame_of(s)),
    };
    clamped_width(bb, s, cb, frame_of(s))
}

pub fn border_box_width(s: &BoxStyle, cb: i64) -> (r: i64)
    ensures
        r == border_width_of(s@, cb as int),
{
    proof {
        reveal(border_width_of);
    }
    let avail: i64 = max_of(minus(cb, s.margin.horizontal()), 0);
    let extra: i64 = frame_width(s);
    let bb: i64 = match s.width.resolve(cb) {
        None => avail,
        Some(w) => to_border(w, s.box_sizing, extra),
    };
    clamp_width(bb, s, cb, extra)
}

/// The content width of a border box.
pub open spec fn content_width_of(s: BoxStyleV, bbw: int) -> int {
    greatest(diff(bbw, frame_of(s)), 0)
}

// --------------------------------------------------------------------------
// heights
// --------------------------------------------------------------------------

/// A declared height as a content-box height.
pub open spec fn as_content(h: int, s: BoxStyleV) -> int {
    match s.box_sizing {
        BoxSizing::BorderBox => greatest(diff(h, v_frame(s)), 0),
        BoxSizing::ContentBox => h,
    }
}

fn to_content(h: i64, s: &BoxStyle) -> (r: i64)
    ensures
        r == as_content(h as int, s@),
{
    match s.box_sizing {
        BoxSizing::BorderBox => max_of(minus(h, v_extra(s)), 0),
        BoxSizing::ContentBox => h,
    }
}

/// The height that a box declares, where it is a length, or a percentage of a
/// known height.
pub open spec fn declared_height(s: BoxStyleV, basis: int) -> Option<int> {
    match s.height {
        LengthPct::Px(h) => Some(h as int),
        LengthPct::Auto => None,
        _ => if basis > 0 {
            s.height.length(basis)
        } else {
            None
        },
    }
}

fn explicit_height(s: &BoxStyle, basis: i64) -> (r: Option<i64>)
    ensures
        match r {
            Some(h) => declared_height(s@, basis as int) == Some(h as int),
            None => declared_height(s@, basis as int) is None,
        },
{
    match s.height {
        LengthPct::Px(h) => Some(h),
        LengthPct::Auto => None,
        _ => if basis > 0 {
            s.height.resolve(basis)
        } else {
            None
        },
    }
}

/// The definite content height of a box, zero where it depends on the content.
#[verifier::opaque]
pub open spec fn definite_height(s: BoxStyleV, basis: int) -> int {
    match declared_height(s, basis) {
        Some(h) => greatest(as_content(h, s), 0),
        None => 0,
    }
}

pub fn definite_content_height(s: &BoxStyle, basis: i64) -> (r: i64)
    ensures
        r == definite_height(s@, basis as int),
{
    proof {
        reveal(definite_height);
    }
    match explicit_height(s, basis) {
        Some(h) => max_of(to_content(h, s), 0),
        None => 0,
    }
}

/// The content height of a box: declared, by its aspect ratio, else that of its
/// content; then held between the minimum and the maximum, where those are
/// lengths.
#[verifier::opaque]
pub open spec fn content_height_of(s: BoxStyleV, basis: int, content_w: int, content_h: int) -> int {
    let h = match declared_height(s, basis) {
        Some(h) => as_content(h, s),
        None => match s.aspect_ratio {
            Some((w, h)) => if w > 0 {
                scaled(content_w, h as int, w as int)
            } else {
                content_h
            },
            None => content_h,
        },
    };
    let low = match s.min_height {
        LengthPct::Px(m) => greatest(h, as_content(m as int, s)),
        _ => h,
    };
    match s.max_height {
        LengthPct::Px(m) => least(low, as_content(m as int, s)),
        _ => low,
    }
}

pub fn content_box_height(s: &BoxStyle, basis: i64, content_w: i64, content_h: i64) -> (r: i64)
    ensures
        r == content_height_of(s@, basis as int, content_w as int, content_h as int),
{
    proof {
        reveal(content_height_of);
    }
    let h: i64 = match explicit_height(s, basis) {
        Some(h) => to_content(h, s),
        None => match s.aspect_ratio {
            Some((w, h)) => if w > 0 {
                scale(content_w, h, w)
            } else {
                content_h
            },
            None => content_h,
        },
    };
    let low: i64 = match s.min_height {
        LengthPct::Px(m) => max_of(h, to_content(m, s)),
        _ => h,
    };
    match s.max_height {
        LengthPct::Px(m) => min_of(low, to_content(m, s)),
        _ => low,
    }
}

// --------------------------------------------------------------------------
// margins
// --------------------------------------------------------------------------

/// A run of adjoining margins: the largest and the most negative.
#[derive(Debug, Clone, Copy, PartialEq, Eq, Structural)]
pub struct Margin {
    pub pos: i64,
    pub neg: i64,
}

impl Margin {
    pub open spec fn of(v: i64) -> Margin {
        if v >= 0 {
            Margin { pos: v, neg: 0 }
        } else {
            Margin { pos: 0, neg: v }
        }
    }

    /// The collapsed size of the run.
    pub open spec fn size(self) -> int {
        sum(self.pos as int, self.neg as int)
    }

    /// The run with another one adjoining it.
    pub open spec fn with(self, m: Margin) -> Margin {
        Margin {
            pos: greatest(self.pos as int, m.pos as int) as i64,
            neg: least(self.neg as int, m.neg as int) as i64,
        }
    }
}

pub fn margin_of(v: i64) -> (r: Margin)
    ensures
        r == Margin::of(v),
{
    if v >= 0 {
        Margin { pos: v, neg: 0 }
    } else {
        Margin { pos: 0, neg: v }
    }
}

pub fn margin_size(m: Margin) -> (r: i64)
    ensures
        r == m.size(),
{
    plus(m.pos, m.neg)
}

pub fn join_margins(a: Margin, b: Margin) -> (r: Margin)
    ensures
        r == a.with(b),
{
    Margin { pos: max_of(a.pos, b.pos), neg: min_of(a.neg, b.neg) }
}

/// Adjoining margins collapse alike in whatever order they come.
pub proof fn law_margins_collapse_in_any_order(a: Margin, b: Margin, c: Margin)
    ensures
        a.with(b) == b.with(a),
        a.with(b).with(c) == a.with(b.with(c)),
        a.with(a) == a,
{
}

/// Two margins that are not negative collapse to the larger one.
pub proof fn law_positive_margins_collapse_to_the_larger(a: i64, b: i64)
    requires
        0 <= a <= LIMIT,
        0 <= b <= LIMIT,
    ensures
        Margin::of(a).with(Margin::of(b)).size() == greatest(a as int, b as int),
{
}

/// Whether a box centers itself by `auto` margins on both sides.
pub open spec fn has_auto_x_margins(m: StyleMap) -> bool {
    ||| is_set_to(m, "margin-left"@, "auto"@) && is_set_to(m, "margin-right"@, "auto"@)
    ||| prop(m, "margin"@) is Some && words_in(prop(m, "margin"@)->0).contains("auto"@)
}

pub fn auto_x_margins(s: &ComputedStyle) -> (r: bool)
    ensures
        r == has_auto_x_margins(s@),
{
    if set_to(s, "margin-left", "auto") && set_to(s, "margin-right", "auto") {
        return true;
    }
    let v = match s.get("margin") {
        Some(v) => v,
        None => return false,
    };
    let w = words(v);
    let ghost ws = texts(w@);
    let mut i: usize = 0;
    while i < w.len()
        invariant
            i <= w@.len(),
            ws == texts(w@),
            ws == words_in(v@),
            prop(s@, "margin"@) == Some(v@),
            forall|j: int| 0 <= j < i ==> #[trigger] ws[j] != "auto"@,
        decreases w@.len() - i,
    {
        if same(w[i], "auto") {
            proof {
                assert(ws[i as int] == "auto"@);
            }
            return true;
        }
        i += 1;
    }
    false
}

/// How far a width-constrained block moves in its container: centered by `auto`
/// margins or a centered container, to the right in a right-aligned one.
#[verifier::opaque]
pub open spec fn h_offset(align: Align, s: BoxStyleV, m: StyleMap, w: int, cw: int) -> int {
    let avail = greatest(diff(cw, clip(s.margin.left + s.margin.right)), 0);
    if w >= avail - HALF {
        0
    } else if has_auto_x_margins(m) || align == Align::Center {
        diff(scaled(diff(cw, w), 1, 2), s.margin.left as int)
    } else if align == Align::Right {
        diff(diff(diff(cw, w), s.margin.right as int), s.margin.left as int)
    } else {
        0
    }
}

pub fn block_h_offset(align: Align, s: &BoxStyle, style: &ComputedStyle, w: i64, cw: i64) -> (r: i64)
    ensures
        r == h_offset(align, s@, style@, w as int, cw as int),
{
    proof {
        reveal(h_offset);
    }
    let avail: i64 = max_of(minus(cw, s.margin.horizontal()), 0);
    if w as i128 >= avail as i128 - HALF as i128 {
        0
    } else if auto_x_margins(style) || align == Align::Center {
        minus(scale(minus(cw, w), 1, 2), s.margin.left)
    } else if align == Align::Right {
        minus(minus(minus(cw, w), s.margin.right), s.margin.left)
    } else {
        0
    }
}

// --------------------------------------------------------------------------
// positioned boxes
// --------------------------------------------------------------------------

/// The containing block of a positioned box: the page for `fixed`, else the
/// nearest positioned ancestor. Origin, width, and height (zero where unknown).
pub open spec fn cb_of(p: Position, f: Frame) -> (int, int, int, int) {
    if p == Position::Fixed {
        (0, 0, f.root_w as int, 0)
    } else {
        (f.abs_x as int, f.abs_y as int, f.abs_w as int, f.abs_h as int)
    }
}

pub fn containing_block(p: Position, f: Frame) -> (r: (i64, i64, i64, i64))
    ensures
        (r.0 as int, r.1 as int, r.2 as int, r.3 as int) == cb_of(p, f),
{
    if p == Position::Fixed {
        (0, 0, f.root_w, 0)
    } else {
        (f.abs_x, f.abs_y, f.abs_w, f.abs_h)
    }
}

/// The border-box corner of an out-of-flow box before its height is known: by
/// its insets, where it would stand in flow without them.
#[verifier::opaque]
pub open spec fn origin_of(s: BoxStyleV, cb: int, f: Frame, sx: int, sy: int) -> (int, int) {
    let (cbx, cby, cbw, cbh) = cb_of(s.position, f);
    let bbw = border_width_of(s, greatest(cbw, cb));
    let x = match (s.inset_left.length(cbw), s.inset_right.length(cbw)) {
        (Some(l), _) => sum(cbx, l),
        (None, Some(r)) => diff(diff(sum(cbx, cbw), bbw), r),
        (None, None) => sx,
    };
    let y = match s.inset_top.length(cbh) {
        Some(t) => sum(cby, t),
        None => sy,
    };
    (sum(x, s.margin.left as int), sum(y, s.margin.top as int))
}

pub fn out_of_flow_origin(s: &BoxStyle, cb: i64, f: Frame, sx: i64, sy: i64) -> (r: (i64, i64))
    ensures
        (r.0 as int, r.1 as int) == origin_of(s@, cb as int, f, sx as int, sy as int),
{
    proof {
        reveal(origin_of);
    }
    let (cbx, cby, cbw, cbh) = containing_block(s.position, f);
    let bbw: i64 = border_box_width(s, max_of(cbw, cb));
    let x: i64 = match (s.inset_left.resolve(cbw), s.inset_right.resolve(cbw)) {
        (Some(l), _) => plus(cbx, l),
        (None, Some(r)) => minus(minus(plus(cbx, cbw), bbw), r),
        (None, None) => sx,
    };
    let y: i64 = match s.inset_top.resolve(cbh) {
        Some(t) => plus(cby, t),
        None => sy,
    };
    (plus(x, s.margin.left), plus(y, s.margin.top))
}

/// How far an out-of-flow box of height `h` at `y` moves down to stand by its
/// `bottom` inset: only without a `top`, in a block of known height.
#[verifier::opaque]
pub open spec fn bottom_shift(s: BoxStyleV, f: Frame, y: int, h: int) -> int {
    let (cbx, cby, cbw, cbh) = cb_of(s.position, f);
    match (s.inset_top.length(cbh), s.inset_bottom.length(cbh)) {
        (None, Some(b)) => if cbh > 0 {
            diff(diff(diff(diff(sum(cby, cbh), b), h), s.margin.bottom as int), y)
        } else {
            0
        },
        _ => 0,
    }
}

pub fn anchor_bottom(s: &BoxStyle, f: Frame, y: i64, h: i64) -> (r: i64)
    ensures
        r == bottom_shift(s@, f, y as int, h as int),
{
    proof {
        reveal(bottom_shift);
    }
    let (cbx, cby, cbw, cbh) = containing_block(s.position, f);
    match (s.inset_top.resolve(cbh), s.inset_bottom.resolve(cbh)) {
        (None, Some(b)) => if cbh > 0 {
            minus(minus(minus(minus(plus(cby, cbh), b), h), s.margin.bottom), y)
        } else {
            0
        },
        _ => 0,
    }
}

/// An inset on one axis: the near side, else the far one backwards.
pub open spec fn inset_shift(near: LengthPct, far: LengthPct, basis: int) -> int {
    match near.length(basis) {
        Some(v) => v,
        None => match far.length(basis) {
            Some(v) => clip(-v),
            None => 0,
        },
    }
}

fn shift_of(near: LengthPct, far: LengthPct, basis: i64) -> (r: i64)
    ensures
        r == inset_shift(near, far, basis as int),
{
    match near.resolve(basis) {
        Some(v) => v,
        None => match far.resolve(basis) {
            Some(v) => minus(0, v),
            None => 0,
        },
    }
}

/// How far a `relative` or `sticky` box is painted from its place in flow.
#[verifier::opaque]
pub open spec fn relative_shift(s: BoxStyleV, cb: int) -> (int, int) {
    if s.position is Relative || s.position is Sticky {
        (
            inset_shift(s.inset_left, s.inset_right, cb),
            inset_shift(s.inset_top, s.inset_bottom, cb),
        )
    } else {
        (0, 0)
    }
}

pub fn flow_relative_offset(s: &BoxStyle, cb: i64) -> (r: (i64, i64))
    ensures
        (r.0 as int, r.1 as int) == relative_shift(s@, cb as int),
{
    proof {
        reveal(relative_shift);
    }
    if matches!(s.position, Position::Relative | Position::Sticky) {
        (
            shift_of(s.inset_left, s.inset_right, cb),
            shift_of(s.inset_top, s.inset_bottom, cb),
        )
    } else {
        (0, 0)
    }
}

// --------------------------------------------------------------------------
// floats
// --------------------------------------------------------------------------

/// Whether a property cuts the overflow.
pub open spec fn cuts(m: StyleMap, p: Seq<char>) -> bool {
    is_set_to(m, p, "hidden"@) || is_set_to(m, p, "auto"@) || is_set_to(m, p, "scroll"@)
        || is_set_to(m, p, "clip"@)
}

fn cuts_overflow(s: &ComputedStyle, p: &str) -> (r: bool)
    ensures
        r == cuts(s@, p@),
{
    set_to(s, p, "hidden") || set_to(s, p, "auto") || set_to(s, p, "scroll") || set_to(s, p, "clip")
}

/// Whether a box keeps its floats to itself and away from those outside.
#[verifier::opaque]
pub open spec fn isolates(b: BoxV, s: BoxStyleV) -> bool {
    ||| s.float != Float::Neither
    ||| s.position is Absolute || s.position is Fixed
    ||| b.kind is Flex || b.kind is Grid || b.kind is Table
    ||| cuts(b.style, "overflow"@) || cuts(b.style, "overflow-x"@) || cuts(b.style, "overflow-y"@)
}

pub fn establishes_bfc(b: &LayoutBox, s: &BoxStyle) -> (r: bool)
    ensures
        r == isolates(box_view(*b), s@),
{
    proof {
        reveal(isolates);
    }
    if s.float != Float::Neither || s.position.is_out_of_flow() {
        return true;
    }
    if matches!(b.kind, BoxKind::Flex(_) | BoxKind::Grid(_) | BoxKind::Table(_)) {
        return true;
    }
    cuts_overflow(&b.style, "overflow") || cuts_overflow(&b.style, "overflow-x") || cuts_overflow(
        &b.style,
        "overflow-y",
    )
}

/// Whether a float stands beside the row at `y`.
pub open spec fn beside(f: FloatRect, y: int) -> bool {
    y + HALF >= f.top && y <= f.bottom - HALF
}

fn is_beside(f: FloatRect, y: i64) -> (r: bool)
    ensures
        r == beside(f, y as int),
{
    y as i128 + HALF as i128 >= f.top as i128 && y as i128 <= f.bottom as i128 - HALF as i128
}

/// The edges of the free region of a row after the first `k` floats.
pub open spec fn region_edges(v: Seq<FloatRect>, cx: int, cw: int, y: int, k: nat) -> (int, int)
    decreases k,
{
    if k == 0 || k > v.len() {
        (cx, sum(cx, cw))
    } else {
        let (l, r) = region_edges(v, cx, cw, y, (k - 1) as nat);
        let f = v[k - 1];
        if !beside(f, y) {
            (l, r)
        } else if f.side == Float::Left {
            (greatest(l, f.x1 as int), r)
        } else if f.side == Float::Right {
            (l, least(r, f.x0 as int))
        } else {
            (l, r)
        }
    }
}

/// The free region of the row at `y`: where it starts and how wide it is, at
/// least one px.
#[verifier::opaque]
pub open spec fn region(v: Seq<FloatRect>, cx: int, cw: int, y: int) -> (int, int) {
    let (l, r) = region_edges(v, cx, cw, y, v.len());
    (l, greatest(diff(r, l), ONE as int))
}

/// The region that floats leave free in the row at `y` of a content box: left
/// floats push its start, right floats pull its end.
pub fn inline_region_from(v: &Vec<FloatRect>, cx: i64, cw: i64, y: i64) -> (r: (i64, i64))
    ensures
        (r.0 as int, r.1 as int) == region(v@, cx as int, cw as int, y as int),
{
    proof {
        reveal(region);
    }
    let mut left: i64 = cx;
    let mut right: i64 = plus(cx, cw);
    let mut k: usize = 0;
    while k < v.len()
        invariant
            k <= v@.len(),
            (left as int, right as int) == region_edges(
                v@,
                cx as int,
                cw as int,
                y as int,
                k as nat,
            ),
        decreases v@.len() - k,
    {
        let f: FloatRect = v[k];
        if is_beside(f, y) {
            narrow_region(f, &mut left, &mut right);
        }
        k += 1;
    }
    (left, max_of(minus(right, left), ONE))
}

fn narrow_region(f: FloatRect, left: &mut i64, right: &mut i64)
    ensures
        (*final(left) as int, *final(right) as int) == if f.side == Float::Left {
            (greatest(*old(left) as int, f.x1 as int), *old(right) as int)
        } else if f.side == Float::Right {
            (*old(left) as int, least(*old(right) as int, f.x0 as int))
        } else {
            (*old(left) as int, *old(right) as int)
        },
{
    if f.side == Float::Left {
        *left = max_of(*left, f.x1);
    } else if f.side == Float::Right {
        *right = min_of(*right, f.x0);
    }
}

/// The lowest bottom among the first `k` floats of the cleared sides, no higher
/// than `y`.
pub open spec fn lowest(v: Seq<FloatRect>, left: bool, right: bool, y: int, k: nat) -> int
    decreases k,
{
    if k == 0 || k > v.len() {
        y
    } else {
        let before = lowest(v, left, right, y, (k - 1) as nat);
        let f = v[k - 1];
        if (f.side == Float::Left && left) || (f.side == Float::Right && right) {
            greatest(before, f.bottom as int)
        } else {
            before
        }
    }
}

/// The sides that `clear` names.
pub open spec fn clear_sides(m: StyleMap) -> (bool, bool) {
    let t = keyword(m, "clear"@, "none"@);
    if t == "both"@ {
        (true, true)
    } else if t == "left"@ {
        (true, false)
    } else if t == "right"@ {
        (false, true)
    } else {
        (false, false)
    }
}

/// Where a box with `clear` drops to.
#[verifier::opaque]
pub open spec fn cleared_y(m: StyleMap, v: Seq<FloatRect>, y: int) -> int {
    let (l, r) = clear_sides(m);
    lowest(v, l, r, y, v.len())
}

/// Whether a float stands on one of the sides that are cleared.
pub open spec fn is_cleared(f: FloatRect, left: bool, right: bool) -> bool {
    (f.side == Float::Left && left) || (f.side == Float::Right && right)
}

pub fn float_on_cleared_side(f: FloatRect, left: bool, right: bool) -> (r: bool)
    ensures
        r == is_cleared(f, left, right),
        r == ((f.side == Float::Left && left) || (f.side == Float::Right && right)),
{
    (f.side == Float::Left && left) || (f.side == Float::Right && right)
}

fn lowest_bottom(v: &Vec<FloatRect>, left: bool, right: bool, y: i64) -> (r: i64)
    ensures
        r == lowest(v@, left, right, y as int, v@.len()),
{
    let mut best: i64 = y;
    let mut k: usize = 0;
    while k < v.len()
        invariant
            k <= v@.len(),
            best == lowest(v@, left, right, y as int, k as nat),
        decreases v@.len() - k,
    {
        if float_on_cleared_side(v[k], left, right) {
            best = max_of(best, v[k].bottom);
        }
        k += 1;
    }
    best
}

/// The y that a box with `clear` drops to: the lowest bottom of the floats on the
/// cleared sides.
pub fn clear_below(style: &ComputedStyle, v: &Vec<FloatRect>, y: i64) -> (r: i64)
    ensures
        r == cleared_y(style@, v@, y as int),
{
    proof {
        reveal(cleared_y);
    }
    let t = match style.get("clear") {
        Some(t) => trim(t),
        None => trim("none"),
    };
    if same(t, "both") {
        lowest_bottom(v, true, true, y)
    } else if same(t, "left") {
        lowest_bottom(v, true, false, y)
    } else if same(t, "right") {
        lowest_bottom(v, false, true, y)
    } else {
        lowest_bottom(v, false, false, y)
    }
}

/// The lowest edge of any float, no higher than `y`.
pub open spec fn floats_bottom(v: Seq<FloatRect>, y: int, k: nat) -> int
    decreases k,
{
    if k == 0 || k > v.len() {
        y
    } else {
        greatest(floats_bottom(v, y, (k - 1) as nat), v[k - 1].bottom as int)
    }
}

pub fn bottom_of_floats(v: &Vec<FloatRect>, y: i64) -> (r: i64)
    ensures
        r == floats_bottom(v@, y as int, v@.len()),
{
    let mut best: i64 = y;
    let mut k: usize = 0;
    while k < v.len()
        invariant
            k <= v@.len(),
            best == floats_bottom(v@, y as int, k as nat),
        decreases v@.len() - k,
    {
        best = max_of(best, v[k].bottom);
        k += 1;
    }
    best
}

/// The nearest bottom among the first `k` floats that lies below the row at `y`.
pub open spec fn next_bottom(v: Seq<FloatRect>, y: int, k: nat) -> Option<i64>
    decreases k,
{
    if k == 0 || k > v.len() {
        None
    } else {
        let before = next_bottom(v, y, (k - 1) as nat);
        let f = v[k - 1];
        if f.bottom > y + HALF && (before matches Some(b) ==> f.bottom < b) {
            Some(f.bottom)
        } else {
            before
        }
    }
}

proof fn lemma_next_is_below(v: Seq<FloatRect>, y: int, k: nat)
    ensures
        next_bottom(v, y, k) matches Some(b) ==> b > y + HALF,
    decreases k,
{
    if k > 0 && k <= v.len() {
        lemma_next_is_below(v, y, (k - 1) as nat);
    }
}

/// The first y at or below `y` where a float of width `w` fits beside the others:
/// a row too full is left for the next float's bottom.
pub open spec fn drop_y(v: Seq<FloatRect>, cx: int, cw: int, w: int, y: int) -> int
    decreases i64::MAX - y,
    when y <= i64::MAX
    via drop_y_ends
{
    if region(v, cx, cw, y).1 >= w - HALF {
        y
    } else {
        match next_bottom(v, y, v.len()) {
            Some(b) => drop_y(v, cx, cw, w, b as int),
            None => y,
        }
    }
}

#[via_fn]
proof fn drop_y_ends(v: Seq<FloatRect>, cx: int, cw: int, w: int, y: int) {
    lemma_next_is_below(v, y, v.len());
}

pub fn float_drop_y(v: &Vec<FloatRect>, cx: i64, cw: i64, w: i64, y0: i64) -> (r: i64)
    ensures
        r == drop_y(v@, cx as int, cw as int, w as int, y0 as int),
{
    let mut y: i64 = y0;
    loop
        invariant
            drop_y(v@, cx as int, cw as int, w as int, y as int) == drop_y(
                v@,
                cx as int,
                cw as int,
                w as int,
                y0 as int,
            ),
        decreases i64::MAX - y,
    {
        let (start, avail): (i64, i64) = inline_region_from(v, cx, cw, y);
        if avail as i128 >= w as i128 - HALF as i128 {
            return y;
        }
        proof {
            lemma_next_is_below(v@, y as int, v@.len());
        }
        match bottom_below(v, y) {
            Some(b) => {
                y = b;
            },
            None => {
                return y;
            },
        }
    }
}

fn bottom_below(v: &Vec<FloatRect>, y: i64) -> (r: Option<i64>)
    ensures
        r == next_bottom(v@, y as int, v@.len()),
{
    let mut best: Option<i64> = None;
    let mut k: usize = 0;
    while k < v.len()
        invariant
            k <= v@.len(),
            best == next_bottom(v@, y as int, k as nat),
        decreases v@.len() - k,
    {
        let b: i64 = v[k].bottom;
        let nearer: bool = match best {
            Some(x) => b < x,
            None => true,
        };
        if b as i128 > y as i128 + HALF as i128 && nearer {
            best = Some(b);
        }
        k += 1;
    }
    best
}

/// A float never starts above the row it was met on.
pub proof fn law_floats_only_drop(v: Seq<FloatRect>, cx: int, cw: int, w: int, y: int)
    requires
        y <= i64::MAX,
    ensures
        drop_y(v, cx, cw, w, y) >= y,
    decreases i64::MAX - y,
{
    reveal(region);
    if region(v, cx, cw, y).1 < w - HALF {
        lemma_next_is_below(v, y, v.len());
        if let Some(b) = next_bottom(v, y, v.len()) {
            law_floats_only_drop(v, cx, cw, w, b as int);
        }
    }
}

/// A float stands where it fits, or below every other float.
pub proof fn law_floats_fit_or_clear(v: Seq<FloatRect>, cx: int, cw: int, w: int, y: int)
    requires
        y <= i64::MAX,
    ensures
        ({
            let d = drop_y(v, cx, cw, w, y);
            region(v, cx, cw, d).1 >= w - HALF || forall|i: int|
                0 <= i < v.len() ==> (#[trigger] v[i]).bottom <= d + HALF
        }),
    decreases i64::MAX - y,
{
    reveal(region);
    if region(v, cx, cw, y).1 < w - HALF {
        lemma_next_is_below(v, y, v.len());
        match next_bottom(v, y, v.len()) {
            Some(b) => {
                law_floats_fit_or_clear(v, cx, cw, w, b as int);
            },
            None => {
                assert forall|i: int| 0 <= i < v.len() implies (#[trigger] v[i]).bottom <= y
                    + HALF by {
                    lemma_none_below(v, y, v.len(), i);
                }
            },
        }
    }
}

proof fn lemma_none_below(v: Seq<FloatRect>, y: int, k: nat, i: int)
    requires
        next_bottom(v, y, k) is None,
        k <= v.len(),
        0 <= i < k,
    ensures
        v[i].bottom <= y + HALF,
    decreases k,
{
    if i < k - 1 {
        lemma_none_below(v, y, (k - 1) as nat, i);
    }
}

/// A cleared box stands below every float of the sides it clears.
pub proof fn law_cleared_is_below_floats(m: StyleMap, v: Seq<FloatRect>, y: int, i: int)
    requires
        0 <= i < v.len(),
        (v[i].side == Float::Left && clear_sides(m).0) || (v[i].side == Float::Right && clear_sides(
            m,
        ).1),
    ensures
        cleared_y(m, v, y) >= v[i].bottom,
        cleared_y(m, v, y) >= y,
{
    reveal(cleared_y);
    let (l, r) = clear_sides(m);
    lemma_lowest(v, l, r, y, v.len(), i);
}

proof fn lemma_lowest(v: Seq<FloatRect>, l: bool, r: bool, y: int, k: nat, i: int)
    requires
        0 <= i < k <= v.len(),
        (v[i].side == Float::Left && l) || (v[i].side == Float::Right && r),
    ensures
        lowest(v, l, r, y, k) >= v[i].bottom,
        lowest(v, l, r, y, k) >= y,
    decreases k,
{
    if i < k - 1 {
        lemma_lowest(v, l, r, y, (k - 1) as nat, i);
    } else {
        lemma_lowest_floor(v, l, r, y, (k - 1) as nat);
    }
}

proof fn lemma_lowest_floor(v: Seq<FloatRect>, l: bool, r: bool, y: int, k: nat)
    ensures
        lowest(v, l, r, y, k) >= y,
    decreases k,
{
    if k > 0 && k <= v.len() {
        lemma_lowest_floor(v, l, r, y, (k - 1) as nat);
    }
}

} // verus!
