//! What a laid-out box paints: its own fill and frame, its images, and what
//! pagination may do with it.

use vstd::prelude::*;

use crate::image::{images_of, ImageResolver, Images};
use crate::layout::block::Frame;
use crate::layout::boxgen::{box_view, BoxKind, BoxV, KindV, LayoutBox};
use crate::layout::color::Rgba;
use crate::layout::fragment::{
    frag_view, BoxPaint, BreakMeta, ContentV, FragV, Fragment, FragmentContent, 
    frags_view, plain_frag, ImagePlacement, LinearGradient, NodeId, PaintV, PlacementV, Transform2D,
};
use crate::layout::imgsize::{
    capped, natural_size, placement_for, placement_of, size_replaced, SizeCtx,
};
use crate::layout::length::LengthPct;
use crate::layout::measure::{probe_source, source_size};
use crate::layout::transform::{linear_fold, trigs_at, trigs_of, AngleTrig};
use crate::layout::value::{BoxStyle, BoxStyleV, Position};
use crate::number::{greatest, least, max_of, min_of, scale, scaled};

verus! {

/// The break rules of a box.
pub open spec fn breaks_of(s: BoxStyleV) -> BreakMeta {
    BreakMeta {
        break_before: s.break_before,
        break_after: s.break_after,
        break_inside_avoid: s.break_inside_avoid,
        orphans: s.orphans,
        widows: s.widows,
        repeatable: None,
    }
}

pub fn break_meta_of(s: &BoxStyle) -> (r: BreakMeta)
    ensures
        r == breaks_of(s@),
{
    BreakMeta {
        break_before: s.break_before,
        break_after: s.break_after,
        break_inside_avoid: s.break_inside_avoid,
        orphans: s.orphans,
        widows: s.widows,
        repeatable: None,
    }
}

/// A corner radius in px: a percentage goes by the shorter side, and no corner is
/// rounder than half of it.
pub open spec fn radius_of(r: LengthPct, w: int, h: int) -> int {
    let side = least(w, h);
    let px = match r.length(side) {
        Some(v) => v,
        None => 0,
    };
    least(greatest(px, 0), greatest(scaled(side, 1, 2), 0))
}

pub fn resolve_radius(r: LengthPct, w: i64, h: i64) -> (out: i64)
    ensures
        out == radius_of(r, w as int, h as int),
{
    let side: i64 = min_of(w, h);
    let px: i64 = match r.resolve(side) {
        Some(v) => v,
        None => 0,
    };
    min_of(max_of(px, 0), max_of(scale(side, 1, 2), 0))
}

/// Every corner radius lies between nothing and half the shorter side.
pub proof fn law_radius_fits(r: LengthPct, w: int, h: int)
    ensures
        0 <= radius_of(r, w, h),
        0 <= least(w, h) <= crate::number::LIMIT ==> radius_of(r, w, h) <= (least(w, h) + 1) / 2,
{
}

pub open spec fn or_zero(o: Option<int>) -> i64 {
    match o {
        Some(v) => v as i64,
        None => 0,
    }
}

fn px_or_zero(v: LengthPct, basis: i64) -> (r: i64)
    ensures
        r == or_zero(v.length(basis as int)),
{
    match v.resolve(basis) {
        Some(x) => x,
        None => 0,
    }
}

/// The transform of a box of that size, or the first angle whose functions the
/// table lacks.
pub open spec fn placed_transform(s: BoxStyleV, w: int, h: int, trig: Seq<AngleTrig>) -> Result<
    Option<Transform2D>,
    i64,
> {
    match s.transform {
        None => Ok(None),
        Some(t) => match trigs_at(t.steps, trig, t.steps.len()) {
            Err(a) => Err(a),
            Ok(x) => Ok(
                Some(
                    Transform2D {
                        linear: linear_fold(t.steps, x, t.steps.len()),
                        e: or_zero(t.tx.length(w)),
                        f: or_zero(t.ty.length(h)),
                        origin_x: or_zero(s.transform_origin.0.length(w)),
                        origin_y: or_zero(s.transform_origin.1.length(h)),
                    },
                ),
            ),
        },
    }
}

fn resolve_transform(s: &BoxStyle, w: i64, h: i64, trig: &Vec<AngleTrig>) -> (r: Result<
    Option<Transform2D>,
    i64,
>)
    ensures
        r == placed_transform(s@, w as int, h as int, trig@),
{
    match &s.transform {
        None => Ok(None),
        Some(t) => match trigs_of(t, trig) {
            Err(a) => Err(a),
            Ok(x) => Ok(
                Some(
                    Transform2D {
                        linear: t.linear(&x),
                        e: px_or_zero(t.tx, w),
                        f: px_or_zero(t.ty, h),
                        origin_x: px_or_zero(s.transform_origin.0, w),
                        origin_y: px_or_zero(s.transform_origin.1, h),
                    },
                ),
            ),
        },
    }
}

/// What a box itself paints. A masked box shows its fill through the mask only,
/// and a gradient covers the plain fill.
#[verifier::opaque]
pub open spec fn content_for(b: BoxV, s: BoxStyleV, w: int, h: int, trig: Seq<AngleTrig>) -> Result<
    ContentV,
    i64,
> {
    match b.kind {
        KindV::Directive(k) => Ok(ContentV::Directive(k)),
        _ => match placed_transform(s, w, h, trig) {
            Err(a) => Err(a),
            Ok(transform) => Ok(
                ContentV::Box(
                    PaintV {
                        background: if b.mask is None && s.background_gradient is None {
                            s.background
                        } else {
                            None
                        },
                        border: s.border,
                        border_radius: radius_of(s.border_radius, w, h) as i64,
                        shadow: s.box_shadow,
                        gradient: s.background_gradient,
                        transform,
                    },
                ),
            ),
        },
    }
}

pub open spec fn content_result(r: Result<FragmentContent, i64>) -> Result<ContentV, i64> {
    match r {
        Ok(c) => Ok(c@),
        Err(a) => Err(a),
    }
}

pub fn content_kind(b: &LayoutBox, s: &BoxStyle, w: i64, h: i64, trig: &Vec<AngleTrig>) -> (r: Result<
    FragmentContent,
    i64,
>)
    ensures
        content_result(r) == content_for(box_view(*b), s@, w as int, h as int, trig@),
{
    proof {
        reveal(content_for);
    }
    if let BoxKind::Directive(k) = &b.kind {
        return Ok(FragmentContent::Directive(*k));
    }
    let transform: Option<Transform2D> = match resolve_transform(s, w, h, trig) {
        Ok(t) => t,
        Err(a) => return Err(a),
    };
    let gradient: Option<LinearGradient> = match &s.background_gradient {
        Some(g) => Some(g.clone()),
        None => None,
    };
    let background: Option<Rgba> = if b.mask.is_none() && s.background_gradient.is_none() {
        s.background
    } else {
        None
    };
    Ok(
        FragmentContent::Box(
            BoxPaint {
                background,
                border: s.border,
                border_radius: resolve_radius(s.border_radius, w, h),
                shadow: s.box_shadow,
                gradient,
                transform,
            },
        ),
    )
}

/// The color that shows through a mask: the fill, else the text color.
pub open spec fn tint_of(s: BoxStyleV) -> Rgba {
    match s.background {
        Some(c) => c,
        None => s.color,
    }
}

pub fn mask_tint(s: &BoxStyle) -> (r: Rgba)
    ensures
        r == tint_of(s@),
{
    match s.background {
        Some(c) => c,
        None => s.color,
    }
}

// --------------------------------------------------------------------------
// images
// --------------------------------------------------------------------------

/// The tinted image of a box's mask, where it resolves.
pub open spec fn mask_placement(b: BoxV, s: BoxStyleV, images: Images) -> Option<PlacementV> {
    match b.mask {
        None => None,
        Some(name) => match source_size(images, name) {
            None => None,
            Some(i) => Some(PlacementV { tint: Some(tint_of(s)), ..placement_for(name, i) }),
        },
    }
}

/// The image of a box's background, where it resolves.
pub open spec fn background_for(b: BoxV, images: Images) -> Option<PlacementV> {
    match b.image {
        Some((name, replaced)) => if replaced {
            None
        } else {
            match source_size(images, name) {
                None => None,
                Some(i) => Some(placement_for(name, i)),
            }
        },
        None => None,
    }
}

/// Where a box's content stands.
#[derive(Debug, Clone, Copy, PartialEq, Eq, Structural)]
pub struct ContentRect {
    pub x: i64,
    pub y: i64,
    pub w: i64,
    pub h: i64,
}

/// An image that fills a content rectangle, before the other children.
pub open spec fn image_first(id: u32, p: Option<PlacementV>, r: ContentRect, kids: Seq<FragV>) -> Seq<
    FragV,
> {
    match p {
        None => kids,
        Some(p) => seq![
            plain_frag(
                NodeId(id),
                r.x as int,
                r.y as int,
                r.w as int,
                r.h as int,
                ContentV::Image(p),
            ),
        ] + kids,
    }
}

/// The children of a box behind which its background is painted, and on it its
/// mask.
pub open spec fn with_images(b: BoxV, s: BoxStyleV, r: ContentRect, images: Images, kids: Seq<FragV>) -> Seq<
    FragV,
> {
    image_first(
        b.id as u32,
        background_for(b, images),
        r,
        image_first(b.id as u32, mask_placement(b, s, images), r, kids),
    )
}

/// Put the tinted mask image of a box first among its children.
pub fn prepend_mask_image<R: ImageResolver>(
    b: &LayoutBox,
    s: &BoxStyle,
    r: ContentRect,
    images: &R,
    kids: &mut Vec<Fragment>,
)
    ensures
        frags_view(final(kids)@) == image_first(
            b.node_id.0,
            mask_placement(box_view(*b), s@, images_of(*images)),
            r,
            frags_view(old(kids)@),
        ),
{
    let name = match &b.mask {
        Some(n) => n,
        None => return,
    };
    let i = match probe_source(images, name.as_str()) {
        Some(i) => i,
        None => return,
    };
    let mut p = placement_of(name.clone(), i);
    p.tint = Some(mask_tint(s));
    insert_image(b.node_id, r, p, kids);
}

/// Put the background image of a box first among its children.
pub fn prepend_background_image<R: ImageResolver>(
    b: &LayoutBox,
    r: ContentRect,
    images: &R,
    kids: &mut Vec<Fragment>,
)
    ensures
        frags_view(final(kids)@) == image_first(
            b.node_id.0,
            background_for(box_view(*b), images_of(*images)),
            r,
            frags_view(old(kids)@),
        ),
{
    if let Some(p) = background_placement(b, images) {
        insert_image(b.node_id, r, p, kids);
    }
}

/// The placement of a box's background image.
pub fn background_placement<R: ImageResolver>(b: &LayoutBox, images: &R) -> (r: Option<
    ImagePlacement,
>)
    ensures
        match r {
            Some(p) => background_for(box_view(*b), images_of(*images)) == Some(p@),
            None => background_for(box_view(*b), images_of(*images)) is None,
        },
{
    let src = match &b.image {
        Some(src) => src,
        None => return None,
    };
    if src.replaced {
        return None;
    }
    match probe_source(images, src.name.as_str()) {
        Some(i) => Some(placement_of(src.name.clone(), i)),
        None => None,
    }
}

fn insert_image(
    id: NodeId,
    r: ContentRect,
    p: ImagePlacement,
    kids: &mut Vec<Fragment>,
)
    ensures
        frags_view(final(kids)@) == image_first(
            id.0,
            Some(p@),
            r,
            frags_view(old(kids)@),
        ),
{
    let ghost before = frags_view(kids@);
    let f = Fragment::new(id, r.x, r.y, r.w, r.h, FragmentContent::Image(p));
    kids.insert(0, f);
    proof {
        assert(frags_view(kids@) =~= seq![frag_view(f)] + before);
    }
}

/// What an image is sized by. A positioned image goes by the height of its
/// positioned ancestor, another by its parent's.
pub open spec fn size_ctx_of(s: BoxStyleV, cb: i64, f: Frame, body: Option<i64>) -> SizeCtx {
    let h = if s.position != Position::Static {
        f.abs_h
    } else {
        f.cb_h
    };
    SizeCtx {
        width: s.width,
        height: s.height,
        cb_width: cb,
        cb_height: if h > 0 {
            Some(h)
        } else {
            None
        },
        body_height: body,
    }
}

pub fn size_ctx(s: &BoxStyle, cb: i64, f: Frame, body: Option<i64>) -> (r: SizeCtx)
    ensures
        r == size_ctx_of(s@, cb, f, body),
{
    let h: i64 = if s.position != Position::Static {
        f.abs_h
    } else {
        f.cb_h
    };
    SizeCtx {
        width: s.width,
        height: s.height,
        cb_width: cb,
        cb_height: if h > 0 {
            Some(h)
        } else {
            None
        },
        body_height: body,
    }
}

/// The fragment of a replaced image; `None` for any other box, and for an image
/// that does not resolve.
#[verifier::opaque]
pub open spec fn image_box(
    b: BoxV,
    s: BoxStyleV,
    x: i64,
    y: i64,
    cb: i64,
    f: Frame,
    images: Images,
    body: Option<i64>,
) -> Option<FragV> {
    match b.image {
        None => None,
        Some((name, replaced)) => if !replaced {
            None
        } else {
            match source_size(images, name) {
                None => None,
                Some(i) => {
                    let ctx = size_ctx_of(s, cb, f, body);
                    let (w0, h0) = natural_size(i, ctx);
                    let (w, h) = capped(w0, h0, ctx);
                    Some(
                        FragV {
                            id: b.id as u32,
                            x: x as int,
                            y: y as int,
                            width: w,
                            height: h,
                            content: ContentV::Image(placement_for(name, i)),
                            break_meta: breaks_of(s),
                            children: Seq::empty(),
                            z_index: s.z_index,
                            is_positioned: s.position != Position::Static,
                        },
                    )
                },
            }
        },
    }
}

pub fn replaced_image_box<R: ImageResolver>(
    b: &LayoutBox,
    s: &BoxStyle,
    x: i64,
    y: i64,
    cb: i64,
    f: Frame,
    images: &R,
    body: Option<i64>,
) -> (r: Option<Fragment>)
    ensures
        match r {
            Some(g) => image_box(box_view(*b), s@, x, y, cb, f, images_of(*images), body) == Some(g@),
            None => image_box(box_view(*b), s@, x, y, cb, f, images_of(*images), body) is None,
        },
{
    proof {
        reveal(image_box);
    }
    let src = match &b.image {
        Some(src) => src,
        None => return None,
    };
    if !src.replaced {
        return None;
    }
    let i = match probe_source(images, src.name.as_str()) {
        Some(i) => i,
        None => return None,
    };
    let sized = size_replaced(src.name.clone(), i, &size_ctx(s, cb, f, body));
    let g = Fragment {
        node_id: b.node_id,
        x,
        y,
        width: sized.width,
        height: sized.height,
        content: FragmentContent::Image(sized.placement),
        break_meta: break_meta_of(s),
        children: Vec::new(),
        z_index: s.z_index,
        is_positioned: s.position != Position::Static,
    };
    proof {
        assert(g@.children =~= Seq::empty());
    }
    Some(g)
}

} // verus!
