//! Sizing a replaced image: from its intrinsic pixels to a box that fits the page
//! in its own proportions.
//!
//! An image is no wider than its containing block and no taller than six tenths
//! of the page body: since images are not split over pages, the second cap keeps a
//! tall one on a single page.

use vstd::prelude::*;

use crate::image::Intrinsic;
use crate::layout::fragment::{ImagePlacement, PlacementV};
use crate::layout::length::LengthPct;
use crate::number::{clip, round_div, scale, scaled, LIMIT, ONE};

verus! {

/// A sized image: its painted size, and the placement to emit.
#[derive(Debug)]
pub struct SizedImage {
    pub width: i64,
    pub height: i64,
    pub placement: ImagePlacement,
}

/// What sizing goes by beside the intrinsic size.
#[derive(Debug, Clone, Copy, PartialEq, Eq, Structural)]
pub struct SizeCtx {
    /// The style's own width and height.
    pub width: LengthPct,
    pub height: LengthPct,
    /// The containing block's width.
    pub cb_width: i64,
    /// The containing block's height, where it is definite.
    pub cb_height: Option<i64>,
    /// The page body's height, where it is known.
    pub body_height: Option<i64>,
}

/// The placement of an image of that name and size.
pub open spec fn placement_for(name: Seq<char>, i: Intrinsic) -> PlacementV {
    PlacementV {
        name,
        intrinsic_w: i.width,
        intrinsic_h: i.height,
        has_alpha: i.has_alpha,
        tint: None,
    }
}

/// The placement that an image of intrinsic size emits.
pub fn placement_of(name: String, intrinsic: Intrinsic) -> (r: ImagePlacement)
    ensures
        r@ == placement_for(name@, intrinsic),
{
    ImagePlacement {
        name,
        intrinsic_w: intrinsic.width,
        intrinsic_h: intrinsic.height,
        has_alpha: intrinsic.has_alpha,
        tint: None,
    }
}

/// A side against a basis that may be unknown; `auto` and a percentage of the
/// unknown have no length.
pub open spec fn side_length(v: LengthPct, basis: Option<i64>) -> Option<int> {
    match v {
        LengthPct::Px(px) => Some(px as int),
        LengthPct::Auto => None,
        _ => match basis {
            Some(b) => v.length(b as int),
            None => None,
        },
    }
}

pub fn resolve_dim(v: LengthPct, basis: Option<i64>) -> (r: Option<i64>)
    ensures
        match r {
            Some(x) => side_length(v, basis) == Some(x as int),
            None => side_length(v, basis) is None,
        },
{
    match v {
        LengthPct::Px(px) => Some(px),
        LengthPct::Auto => None,
        _ => match basis {
            Some(b) => v.resolve(b),
            None => None,
        },
    }
}

/// The other side of an image one side of which is `given`.
pub open spec fn in_proportion(given: int, base: int, other: int) -> int {
    if base > 0 {
        scaled(given, other, base)
    } else {
        given
    }
}

pub fn scale_other(given: i64, base: i64, other: i64) -> (r: i64)
    ensures
        r == in_proportion(given as int, base as int, other as int),
{
    if base > 0 {
        scale(given, other, base)
    } else {
        given
    }
}

/// The intrinsic sides in px.
pub open spec fn pixels(n: u32) -> int {
    clip(n * ONE)
}

/// The size before the caps: the style's own, a missing side in proportion.
pub open spec fn natural_size(i: Intrinsic, ctx: SizeCtx) -> (int, int) {
    let (iw, ih) = (pixels(i.width), pixels(i.height));
    match (side_length(ctx.width, Some(ctx.cb_width)), side_length(ctx.height, ctx.cb_height)) {
        (Some(w), Some(h)) => (w, h),
        (Some(w), None) => (w, in_proportion(w, iw, ih)),
        (None, Some(h)) => (in_proportion(h, ih, iw), h),
        (None, None) => (iw, ih),
    }
}

fn base_size(i: Intrinsic, ctx: &SizeCtx) -> (r: (i64, i64))
    ensures
        (r.0 as int, r.1 as int) == natural_size(i, *ctx),
{
    let iw: i64 = scale(i.width as i64, ONE, 1);
    let ih: i64 = scale(i.height as i64, ONE, 1);
    proof {
        assert(scaled(i.width as int, ONE as int, 1) == pixels(i.width));
        assert(scaled(i.height as int, ONE as int, 1) == pixels(i.height));
    }
    match (resolve_dim(ctx.width, Some(ctx.cb_width)), resolve_dim(ctx.height, ctx.cb_height)) {
        (Some(w), Some(h)) => (w, h),
        (Some(w), None) => (w, scale_other(w, iw, ih)),
        (None, Some(h)) => (scale_other(h, ih, iw), h),
        (None, None) => (iw, ih),
    }
}

/// A factor of at most one.
#[derive(Debug, Clone, Copy, PartialEq, Eq, Structural)]
pub struct Fit {
    pub num: i64,
    pub den: i64,
}

/// What fits `value` under `cap`; a cap of zero or less caps nothing.
pub open spec fn fit_of(value: int, cap: int) -> Fit {
    if cap > 0 && value > cap {
        Fit { num: cap as i64, den: value as i64 }
    } else {
        Fit { num: 1, den: 1 }
    }
}

pub fn axis_scale(value: i64, cap: i64) -> (r: Fit)
    ensures
        r == fit_of(value as int, cap as int),
{
    if cap > 0 && value > cap {
        Fit { num: cap, den: value }
    } else {
        Fit { num: 1, den: 1 }
    }
}

/// The smaller of two factors.
pub open spec fn tighter(a: Fit, b: Fit) -> Fit {
    if a.num * b.den <= b.num * a.den {
        a
    } else {
        b
    }
}

/// The factor that fits both sides under their caps.
pub open spec fn fit_both(w: int, h: int, max_w: int, max_h: Option<int>) -> Fit {
    match max_h {
        Some(m) => tighter(fit_of(w, max_w), fit_of(h, m)),
        None => fit_of(w, max_w),
    }
}

fn fit_scale(w: i64, h: i64, max_w: i64, max_h: Option<i64>) -> (r: Fit)
    ensures
        r == fit_both(
            w as int,
            h as int,
            max_w as int,
            match max_h {
                Some(m) => Some(m as int),
                None => None,
            },
        ),
        r.den > 0,
{
    let a: Fit = axis_scale(w, max_w);
    match max_h {
        Some(m) => {
            let b: Fit = axis_scale(h, m);
            proof {
                let l: int = 0x8000_0000_0000_0000;
                assert(0 <= a.num * b.den <= l * l && 0 <= b.num * a.den <= l * l)
                    by (nonlinear_arith)
                    requires
                        0 <= a.num <= l,
                        0 <= b.num <= l,
                        0 <= a.den <= l,
                        0 <= b.den <= l,
                ;
                assert(l * l == 0x4000_0000_0000_0000_0000_0000_0000_0000) by (nonlinear_arith)
                    requires
                        l == 0x8000_0000_0000_0000,
                ;
            }
            if a.num as i128 * b.den as i128 <= b.num as i128 * a.den as i128 {
                a
            } else {
                b
            }
        },
        None => a,
    }
}

/// The most height an image may have.
pub open spec fn height_cap(ctx: SizeCtx) -> Option<int> {
    match ctx.body_height {
        Some(b) => Some(scaled(b as int, 6, 10)),
        None => None,
    }
}

/// A size under the caps, in the same proportions.
pub open spec fn capped(w: int, h: int, ctx: SizeCtx) -> (int, int) {
    let f = fit_both(w, h, ctx.cb_width as int, height_cap(ctx));
    (scaled(w, f.num as int, f.den as int), scaled(h, f.num as int, f.den as int))
}

pub fn apply_caps(w: i64, h: i64, ctx: &SizeCtx) -> (r: (i64, i64))
    ensures
        (r.0 as int, r.1 as int) == capped(w as int, h as int, *ctx),
{
    let max_h: Option<i64> = match ctx.body_height {
        Some(b) => Some(scale(b, 6, 10)),
        None => None,
    };
    let f: Fit = fit_scale(w, h, ctx.cb_width, max_h);
    (scale(w, f.num, f.den), scale(h, f.num, f.den))
}

/// Size a replaced image from its intrinsic pixels, its style and the caps.
pub fn size_replaced(name: String, intrinsic: Intrinsic, ctx: &SizeCtx) -> (r: SizedImage)
    ensures
        ({
            let (w, h) = natural_size(intrinsic, *ctx);
            (r.width as int, r.height as int) == capped(w, h, *ctx)
        }),
        r.placement@ == placement_for(name@, intrinsic),
{
    let (w, h) = base_size(intrinsic, ctx);
    let (width, height) = apply_caps(w, h, ctx);
    SizedImage { width, height, placement: placement_of(name, intrinsic) }
}

/// `a * b / c` rounded is no more than a bound that it does not exceed unrounded.
proof fn lemma_rounds_under(a: int, b: int, c: int, bound: int)
    requires
        c > 0,
        a * b >= 0,
        a * b <= bound * c,
    ensures
        round_div(a * b, c) <= bound,
{
    let n = a * b;
    let q = n / c;
    let r = n % c;
    assert(n == q * c + r && 0 <= r < c) by (nonlinear_arith)
        requires
            q == n / c,
            r == n % c,
            c > 0,
    ;
    assert(q <= bound) by (nonlinear_arith)
        requires
            q * c + r <= bound * c,
            r >= 0,
            c > 0,
    ;
    if 2 * r >= c {
        assert(q < bound) by (nonlinear_arith)
            requires
                q * c + r <= bound * c,
                r > 0,
                c > 0,
        ;
    }
}

/// An image under the caps is no wider than its containing block and no taller
/// than six tenths of the page body.
pub proof fn law_images_fit(w: int, h: int, ctx: SizeCtx)
    requires
        0 <= w <= LIMIT,
        0 <= h <= LIMIT,
    ensures
        ctx.cb_width > 0 ==> capped(w, h, ctx).0 <= ctx.cb_width,
        height_cap(ctx) matches Some(m) ==> m > 0 ==> capped(w, h, ctx).1 <= m,
{
    let mw = ctx.cb_width as int;
    let a = fit_of(w, mw);
    let f = fit_both(w, h, mw, height_cap(ctx));
    assert(w * f.num >= 0 && h * f.num >= 0) by (nonlinear_arith)
        requires
            w >= 0,
            h >= 0,
            f.num >= 0,
    ;
    assert(f.num * a.den <= a.num * f.den);
    if mw > 0 {
        assert(w * a.num <= mw * a.den) by (nonlinear_arith)
            requires
                (a.num == mw && a.den == w) || (a.num == 1 && a.den == 1 && w <= mw),
        ;
        lemma_factor(w, a.num as int, a.den as int, f.num as int, f.den as int, mw);
        lemma_rounds_under(w, f.num as int, f.den as int, mw);
    }
    if let Some(m) = height_cap(ctx) {
        if m > 0 {
            let b = fit_of(h, m);
            assert(f.num * b.den <= b.num * f.den);
            assert(h * b.num <= m * b.den) by (nonlinear_arith)
                requires
                    (b.num == m && b.den == h) || (b.num == 1 && b.den == 1 && h <= m),
            ;
            lemma_factor(h, b.num as int, b.den as int, f.num as int, f.den as int, m);
            lemma_rounds_under(h, f.num as int, f.den as int, m);
        }
    }
}

/// A smaller factor keeps a length under a bound that a larger one keeps it
/// under.
proof fn lemma_factor(x: int, n1: int, d1: int, n2: int, d2: int, bound: int)
    requires
        x >= 0,
        d1 > 0,
        d2 > 0,
        n2 * d1 <= n1 * d2,
        x * n1 <= bound * d1,
    ensures
        x * n2 <= bound * d2,
{
    assert(x * (n2 * d1) <= x * (n1 * d2)) by (nonlinear_arith)
        requires
            x >= 0,
            n2 * d1 <= n1 * d2,
    ;
    assert((x * n1) * d2 <= (bound * d1) * d2) by (nonlinear_arith)
        requires
            d2 > 0,
            x * n1 <= bound * d1,
    ;
    assert(x * (n2 * d1) == (x * n2) * d1) by (nonlinear_arith);
    assert(x * (n1 * d2) == (x * n1) * d2) by (nonlinear_arith);
    assert((bound * d1) * d2 == (bound * d2) * d1) by (nonlinear_arith);
    assert(x * n2 <= bound * d2) by (nonlinear_arith)
        requires
            (x * n2) * d1 <= (bound * d2) * d1,
            d1 > 0,
    ;
}

} // verus!
