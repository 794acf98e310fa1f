//! Intrinsic widths: how wide a box is on one line, and how narrow it can get.
//!
//! How wide text is comes from shaping it, so the text widths of the inline
//! contexts enter as a table by box id.

use vstd::prelude::*;

use crate::image::{images_of, intrinsic_of, probe, ImageResolver, Images, Intrinsic};
use crate::layout::boxgen::{
    box_view, boxes_view, item_view, items_view, lemma_kind_children, BoxKind, BoxV, InlineItem,
    ItemV, KindV, LayoutBox,
};
use crate::layout::flex::{flex_direction, flex_direction_in, gap_axis, axis_gap, FlexDirection};
use crate::layout::imgsize::pixels;
use crate::layout::length::{LengthPct, Viewport, DEFAULT_FONT_SIZE};
use crate::layout::value::{box_style_in, resolve_box_style, BoxStyle, BoxStyleV, ResolveCtx};
use crate::number::{clip, greatest, max_of, plus, scale, scaled, sum, LIMIT, ONE};
use crate::style::StyleMap;

verus! {

/// The widths of the text of one inline context: on one line, and of its widest
/// unbreakable piece.
#[derive(Debug, Clone, Copy, PartialEq, Eq, Structural)]
pub struct TextWidth {
    pub id: u32,
    pub natural: i64,
    pub min: i64,
}

/// The entry for a box; nothing for a box without one.
pub open spec fn text_width(t: Seq<TextWidth>, id: int) -> TextWidth
    decreases t.len(),
{
    if t.len() == 0 {
        TextWidth { id: id as u32, natural: 0, min: 0 }
    } else if t[0].id == id {
        t[0]
    } else {
        text_width(t.skip(1), id)
    }
}

fn text_of_box(t: &Vec<TextWidth>, id: u32) -> (r: TextWidth)
    ensures
        r == text_width(t@, id as int),
{
    let mut i: usize = 0;
    proof {
        assert(t@.skip(0) =~= t@);
    }
    while i < t.len()
        invariant
            i <= t@.len(),
            text_width(t@, id as int) == text_width(t@.skip(i as int), id as int),
        decreases t@.len() - i,
    {
        proof {
            assert(t@.skip(i as int)[0] == t@[i as int]);
            assert(t@.skip(i as int).skip(1) =~= t@.skip(i as int + 1));
        }
        if t[i].id == id {
            return t[i];
        }
        i += 1;
    }
    TextWidth { id, natural: 0, min: 0 }
}

/// What widths go by: the text widths, the images, and the viewport.
pub struct Sources {
    pub text: Seq<TextWidth>,
    pub images: Images,
    pub viewport: Viewport,
}

/// The intrinsic size of an image, where it resolves and reads.
pub open spec fn source_size(images: Images, name: Seq<char>) -> Option<Intrinsic> {
    match images(name) {
        Some(b) => intrinsic_of(b),
        None => None,
    }
}

/// The size of an image of that name.
pub fn probe_source<R: ImageResolver>(images: &R, name: &str) -> (r: Option<Intrinsic>)
    ensures
        r == source_size(images_of(*images), name@),
{
    match images.resolve(name) {
        Some(b) => probe(b),
        None => None,
    }
}

/// `v` rounded up to whole px.
pub open spec fn ceil_px(v: int) -> int {
    clip(-((-v) / (ONE as int)) * ONE)
}

fn round_up(v: i64) -> (r: i64)
    ensures
        r == ceil_px(v as int),
{
    let n: i128 = -(v as i128);
    let q: i128 = if n >= 0 {
        n / 1_000_000
    } else {
        let m: i128 = v as i128;
        let d: i128 = (m + 999_999) / 1_000_000;
        proof {
            assert(-(m as int) == (-(d as int)) * 1_000_000 + (d * 1_000_000 - m));
            assert(0 <= d * 1_000_000 - m < 1_000_000);
            vstd::arithmetic::div_mod::lemma_fundamental_div_mod_converse(
                -(m as int),
                1_000_000,
                -(d as int),
                d * 1_000_000 - m,
            );
        }
        -d
    };
    let up: i64 = (-q) as i64;
    scale(up, ONE, 1)
}

pub open spec fn measure_ctx(vp: Viewport) -> ResolveCtx {
    ResolveCtx { parent_font_size: DEFAULT_FONT_SIZE, cb_width: 0, viewport: vp }
}

/// Padding and border, left and right.
pub open spec fn frame_of(s: BoxStyleV) -> int {
    sum(
        clip(s.padding.left + s.padding.right),
        clip(s.border.widths_of().left + s.border.widths_of().right),
    )
}

pub fn frame_width(s: &BoxStyle) -> (r: i64)
    ensures
        r == frame_of(s@),
{
    plus(s.padding.horizontal(), s.border.widths().horizontal())
}

/// The horizontal margins of a flex item, as far as they are positive.
pub open spec fn item_margin(m: StyleMap, vp: Viewport) -> int {
    let s = box_style_in(m, measure_ctx(vp));
    sum(greatest(s.margin.left as int, 0), greatest(s.margin.right as int, 0))
}

fn item_hmargin(b: &LayoutBox, vp: Viewport) -> (r: i64)
    ensures
        r == item_margin(b.style@, vp),
{
    let s = resolve_box_style(
        &b.style,
        ResolveCtx { parent_font_size: DEFAULT_FONT_SIZE, cb_width: 0, viewport: vp },
    );
    plus(max_of(s.margin.left, 0), max_of(s.margin.right, 0))
}

/// The intrinsic width of a replaced image, where its bytes are known.
pub open spec fn replaced_width(b: BoxV, env: Sources) -> Option<int> {
    match b.image {
        Some((name, replaced)) => if replaced {
            match source_size(env.images, name) {
                Some(i) => Some(pixels(i.width)),
                None => None,
            }
        } else {
            None
        },
        None => None,
    }
}

/// The gap between flex items side by side.
pub open spec fn row_gap(m: StyleMap, vp: Viewport) -> int {
    axis_gap(m, "column-gap"@, vp) as int
}

pub open spec fn lays_in_row(m: StyleMap) -> bool {
    flex_direction_in(m) is Row || flex_direction_in(m) is RowReverse
}

// --------------------------------------------------------------------------
// on one line
// --------------------------------------------------------------------------

/// The width of a box on one line.
pub open spec fn natural(b: BoxV, env: Sources) -> int
    decreases b, 1int, 0nat,
{
    let s = box_style_in(b.style, measure_ctx(env.viewport));
    match s.width {
        LengthPct::Px(w) => sum(w as int, frame_of(s)),
        _ => match replaced_width(b, env) {
            Some(w) => sum(w, frame_of(s)),
            None => sum(natural_content(b, env), frame_of(s)),
        },
    }
}

/// The width of a box's content on one line.
pub open spec fn natural_content(b: BoxV, env: Sources) -> int
    decreases b, 0int, 0nat,
{
    match b.kind {
        KindV::Lines(v) => sum(
            ceil_px(text_width(env.text, b.id).natural as int),
            atoms_natural(v, env, v.len()),
        ),
        KindV::Flex(v) => if lays_in_row(b.style) {
            sum(
                row_natural(v, env, v.len()),
                scaled(
                    row_gap(b.style, env.viewport),
                    if v.len() > 0 {
                        v.len() - 1
                    } else {
                        0
                    },
                    1,
                ),
            )
        } else {
            widest_natural(v, env, v.len())
        },
        KindV::Block(v) => widest_natural(v, env, v.len()),
        KindV::Grid(v) => widest_natural(v, env, v.len()),
        KindV::Table(v) => widest_natural(v, env, v.len()),
        KindV::Directive(_) => 0,
    }
}

/// The widest of the first `k` boxes.
pub open spec fn widest_natural(v: Seq<BoxV>, env: Sources, k: nat) -> int
    decreases v, 0int, k,
{
    if k == 0 || k > v.len() {
        0
    } else {
        greatest(widest_natural(v, env, (k - 1) as nat), natural(v[k - 1], env))
    }
}

/// The first `k` boxes and their margins side by side.
pub open spec fn row_natural(v: Seq<BoxV>, env: Sources, k: nat) -> int
    decreases v, 0int, k,
{
    if k == 0 || k > v.len() {
        0
    } else {
        sum(
            row_natural(v, env, (k - 1) as nat),
            sum(natural(v[k - 1], env), item_margin(v[k - 1].style, env.viewport)),
        )
    }
}

/// The atomic boxes among the first `k` items side by side.
pub open spec fn atoms_natural(v: Seq<ItemV>, env: Sources, k: nat) -> int
    decreases v, 0int, k,
{
    if k == 0 || k > v.len() {
        0
    } else {
        let before = atoms_natural(v, env, (k - 1) as nat);
        match v[k - 1] {
            ItemV::Atomic(b) => sum(before, natural(b, env)),
            _ => before,
        }
    }
}

fn replaced_px<R: ImageResolver>(b: &LayoutBox, images: &R) -> (r: Option<i64>)
    ensures
        match r {
            Some(w) => replaced_width(
                box_view(*b),
                (Sources {
                    text: Seq::empty(),
                    images: images_of(*images),
                    viewport: Viewport { width: 0, height: 0 },
                }),
            ) == Some(w as int),
            None => replaced_width(
                box_view(*b),
                (Sources {
                    text: Seq::empty(),
                    images: images_of(*images),
                    viewport: Viewport { width: 0, height: 0 },
                }),
            ) is None,
        },
{
    match &b.image {
        Some(src) => if src.replaced {
            match probe_source(images, src.name.as_str()) {
                Some(i) => {
                    let w: i64 = scale(i.width as i64, ONE, 1);
                    proof {
                        assert(scaled(i.width as int, ONE as int, 1) == pixels(i.width));
                    }
                    Some(w)
                },
                None => None,
            }
        } else {
            None
        },
        None => None,
    }
}

/// The sources as the contracts speak of them.
pub open spec fn sources<R: ImageResolver>(text: Seq<TextWidth>, images: R, vp: Viewport) -> Sources {
    Sources { text, images: images_of(images), viewport: vp }
}

/// The width of a box on one line, its padding and borders counted.
pub fn natural_width<R: ImageResolver>(b: &LayoutBox, text: &Vec<TextWidth>, images: &R, vp: Viewport) -> (r:
    i64)
    ensures
        r == natural(box_view(*b), sources(text@, *images, vp)),
    decreases b, 1int,
{
    let s = resolve_box_style(
        &b.style,
        ResolveCtx { parent_font_size: DEFAULT_FONT_SIZE, cb_width: 0, viewport: vp },
    );
    let frame: i64 = frame_width(&s);
    if let LengthPct::Px(w) = s.width {
        return plus(w, frame);
    }
    if let Some(w) = replaced_px(b, images) {
        return plus(w, frame);
    }
    let ghost env = sources(text@, *images, vp);
    proof {
        lemma_kind_children(b.kind);
    }
    let inner: i64 = match &b.kind {
        BoxKind::Lines(items) => {
            let t: TextWidth = text_of_box(text, b.node_id.0);
            plus(round_up(t.natural), natural_atoms(items, text, images, vp))
        },
        BoxKind::Flex(k) => {
            let d = flex_direction(&b.style);
            if matches!(d, FlexDirection::Row | FlexDirection::RowReverse) {
                let gap: i64 = gap_axis(&b.style, "column-gap", vp);
                let n: usize = k.len();
                let gaps: i64 = if n > 0 {
                    gap_times(gap, n - 1)
                } else {
                    gap_times(gap, 0)
                };
                plus(natural_row(k, text, images, vp), gaps)
            } else {
                natural_widest(k, text, images, vp)
            }
        },
        BoxKind::Block(k) => natural_widest(k, text, images, vp),
        BoxKind::Grid(k) => natural_widest(k, text, images, vp),
        BoxKind::Table(k) => natural_widest(k, text, images, vp),
        BoxKind::Directive(_) => 0,
    };
    plus(inner, frame)
}

/// `n` gaps.
fn gap_times(gap: i64, n: usize) -> (r: i64)
    ensures
        r == scaled(gap as int, n as int, 1),
{
    let ghost m: int = 0x8000_0000_0000_0000;
    proof {
        assert(-m * (2 * m) <= gap * n <= m * (2 * m)) by (nonlinear_arith)
            requires
                -m <= gap <= m,
                0 <= n <= 2 * m,
                m > 0,
        ;
        assert(m * (2 * m) == 0x8000_0000_0000_0000_0000_0000_0000_0000) by (nonlinear_arith)
            requires
                m == 0x8000_0000_0000_0000,
        ;
        assert(gap * n <= (m - 1) * (2 * m - 1)) by (nonlinear_arith)
            requires
                gap <= m - 1,
                0 <= n <= 2 * m - 1,
                m > 1,
        ;
        assert((m - 1) * (2 * m - 1) < 0x8000_0000_0000_0000_0000_0000_0000_0000)
            by (nonlinear_arith)
            requires
                m == 0x8000_0000_0000_0000,
        ;
    }
    let p: i128 = gap as i128 * n as i128;
    if p > LIMIT as i128 {
        LIMIT
    } else if p < -(LIMIT as i128) {
        -LIMIT
    } else {
        p as i64
    }
}

fn natural_widest<R: ImageResolver>(v: &Vec<LayoutBox>, text: &Vec<TextWidth>, images: &R, vp: Viewport) -> (r:
    i64)
    ensures
        r == widest_natural(boxes_view(v@), sources(text@, *images, vp), v@.len()),
    decreases v, 0int,
{
    let ghost bv = boxes_view(v@);
    let ghost env = sources(text@, *images, vp);
    let mut best: i64 = 0;
    let mut k: usize = 0;
    while k < v.len()
        invariant
            k <= v@.len(),
            bv == boxes_view(v@),
            env == sources(text@, *images, vp),
            best == widest_natural(bv, env, k as nat),
        decreases v@.len() - k,
    {
        proof {
            assert(bv[k as int] == box_view(v@[k as int]));
        }
        best = max_of(best, natural_width(&v[k], text, images, vp));
        k += 1;
    }
    best
}

fn natural_row<R: ImageResolver>(v: &Vec<LayoutBox>, text: &Vec<TextWidth>, images: &R, vp: Viewport) -> (r:
    i64)
    ensures
        r == row_natural(boxes_view(v@), sources(text@, *images, vp), v@.len()),
    decreases v, 0int,
{
    let ghost bv = boxes_view(v@);
    let ghost env = sources(text@, *images, vp);
    let mut total: i64 = 0;
    let mut k: usize = 0;
    while k < v.len()
        invariant
            k <= v@.len(),
            bv == boxes_view(v@),
            env == sources(text@, *images, vp),
            total == row_natural(bv, env, k as nat),
        decreases v@.len() - k,
    {
        proof {
            assert(bv[k as int] == box_view(v@[k as int]));
        }
        total = plus(
            total,
            plus(natural_width(&v[k], text, images, vp), item_hmargin(&v[k], vp)),
        );
        k += 1;
    }
    total
}

fn natural_atoms<R: ImageResolver>(v: &Vec<InlineItem>, text: &Vec<TextWidth>, images: &R, vp: Viewport) -> (r:
    i64)
    ensures
        r == atoms_natural(items_view(v@), sources(text@, *images, vp), v@.len()),
    decreases v, 0int,
{
    let ghost iv = items_view(v@);
    let ghost env = sources(text@, *images, vp);
    let mut total: i64 = 0;
    let mut k: usize = 0;
    while k < v.len()
        invariant
            k <= v@.len(),
            iv == items_view(v@),
            env == sources(text@, *images, vp),
            total == atoms_natural(iv, env, k as nat),
        decreases v@.len() - k,
    {
        proof {
            assert(iv[k as int] == item_view(v@[k as int]));
        }
        if let InlineItem::Atomic(b) = &v[k] {
            total = plus(total, natural_width(b, text, images, vp));
        }
        k += 1;
    }
    total
}

// --------------------------------------------------------------------------
// as narrow as it gets
// --------------------------------------------------------------------------

pub open spec fn is_replaced(b: BoxV) -> bool {
    b.image matches Some((name, replaced)) && replaced
}

/// The least width of a box without overflow.
pub open spec fn min_content(b: BoxV, env: Sources) -> int
    decreases b, 1int, 0nat,
{
    let s = box_style_in(b.style, measure_ctx(env.viewport));
    match s.width {
        LengthPct::Px(w) => sum(w as int, frame_of(s)),
        _ => if is_replaced(b) {
            natural(b, env)
        } else {
            sum(min_inner(b, env), frame_of(s))
        },
    }
}

pub open spec fn min_inner(b: BoxV, env: Sources) -> int
    decreases b, 0int, 0nat,
{
    match b.kind {
        KindV::Lines(v) => greatest(
            text_width(env.text, b.id).min as int,
            atoms_min(v, env, v.len()),
        ),
        KindV::Flex(v) => widest_min(v, env, v.len()),
        KindV::Block(v) => widest_min(v, env, v.len()),
        KindV::Grid(v) => widest_min(v, env, v.len()),
        KindV::Table(v) => widest_min(v, env, v.len()),
        KindV::Directive(_) => 0,
    }
}

pub open spec fn widest_min(v: Seq<BoxV>, env: Sources, k: nat) -> int
    decreases v, 0int, k,
{
    if k == 0 || k > v.len() {
        0
    } else {
        greatest(widest_min(v, env, (k - 1) as nat), min_content(v[k - 1], env))
    }
}

pub open spec fn atoms_min(v: Seq<ItemV>, env: Sources, k: nat) -> int
    decreases v, 0int, k,
{
    if k == 0 || k > v.len() {
        0
    } else {
        let before = atoms_min(v, env, (k - 1) as nat);
        match v[k - 1] {
            ItemV::Atomic(b) => greatest(before, min_content(b, env)),
            _ => before,
        }
    }
}

/// The least width of a box without overflow: text broken at every chance, images
/// and declared widths kept.
pub fn min_content_width<R: ImageResolver>(b: &LayoutBox, text: &Vec<TextWidth>, images: &R, vp: Viewport) -> (r:
    i64)
    ensures
        r == min_content(box_view(*b), sources(text@, *images, vp)),
    decreases b, 1int,
{
    let s = resolve_box_style(
        &b.style,
        ResolveCtx { parent_font_size: DEFAULT_FONT_SIZE, cb_width: 0, viewport: vp },
    );
    let frame: i64 = frame_width(&s);
    if let LengthPct::Px(w) = s.width {
        return plus(w, frame);
    }
    let replaced: bool = match &b.image {
        Some(i) => i.replaced,
        None => false,
    };
    if replaced {
        return natural_width(b, text, images, vp);
    }
    proof {
        lemma_kind_children(b.kind);
    }
    let inner: i64 = match &b.kind {
        BoxKind::Lines(items) => {
            let t: TextWidth = text_of_box(text, b.node_id.0);
            max_of(t.min, min_atoms(items, text, images, vp))
        },
        BoxKind::Flex(k) => min_widest(k, text, images, vp),
        BoxKind::Block(k) => min_widest(k, text, images, vp),
        BoxKind::Grid(k) => min_widest(k, text, images, vp),
        BoxKind::Table(k) => min_widest(k, text, images, vp),
        BoxKind::Directive(_) => 0,
    };
    plus(inner, frame)
}

fn min_widest<R: ImageResolver>(v: &Vec<LayoutBox>, text: &Vec<TextWidth>, images: &R, vp: Viewport) -> (r:
    i64)
    ensures
        r == widest_min(boxes_view(v@), sources(text@, *images, vp), v@.len()),
    decreases v, 0int,
{
    let ghost bv = boxes_view(v@);
    let ghost env = sources(text@, *images, vp);
    let mut best: i64 = 0;
    let mut k: usize = 0;
    while k < v.len()
        invariant
            k <= v@.len(),
            bv == boxes_view(v@),
            env == sources(text@, *images, vp),
            best == widest_min(bv, env, k as nat),
        decreases v@.len() - k,
    {
        proof {
            assert(bv[k as int] == box_view(v@[k as int]));
        }
        best = max_of(best, min_content_width(&v[k], text, images, vp));
        k += 1;
    }
    best
}

fn min_atoms<R: ImageResolver>(v: &Vec<InlineItem>, text: &Vec<TextWidth>, images: &R, vp: Viewport) -> (r:
    i64)
    ensures
        r == atoms_min(items_view(v@), sources(text@, *images, vp), v@.len()),
    decreases v, 0int,
{
    let ghost iv = items_view(v@);
    let ghost env = sources(text@, *images, vp);
    let mut best: i64 = 0;
    let mut k: usize = 0;
    while k < v.len()
        invariant
            k <= v@.len(),
            iv == items_view(v@),
            env == sources(text@, *images, vp),
            best == atoms_min(iv, env, k as nat),
        decreases v@.len() - k,
    {
        proof {
            assert(iv[k as int] == item_view(v@[k as int]));
        }
        if let InlineItem::Atomic(b) = &v[k] {
            best = max_of(best, min_content_width(b, text, images, vp));
        }
        k += 1;
    }
    best
}

} // verus!
