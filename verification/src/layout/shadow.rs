//! `box-shadow`.

use vstd::prelude::*;

use crate::layout::color::{color_of, parse_color, Rgba};
use crate::layout::fragment::BoxShadow;
use crate::layout::length::{parse_px, px_of, Viewport};
use crate::layout::tokens::{comma_layers, css_value_tokens, top_level_comma_split, value_tokens};
use crate::layout::transform::{is_none_keyword, says_none};
use crate::number::{round_div, whole, ONE};
use crate::scan::{lower, same, same_ignoring_case, texts, trim, trimmed};
use crate::style::{prop, ComputedStyle, StyleMap};

verus! {

/// The pieces of one shadow layer: the `inset` keyword, the lengths in source
/// order, and the color.
pub struct ShadowParts {
    pub inset: bool,
    pub lengths: Vec<i64>,
    pub color: Option<Rgba>,
}

/// The mathematical reading of [`ShadowParts`].
pub struct ShadowPartsV {
    pub inset: bool,
    pub lengths: Seq<i64>,
    pub color: Option<Rgba>,
}

impl View for ShadowParts {
    type V = ShadowPartsV;

    open spec fn view(&self) -> ShadowPartsV {
        ShadowPartsV { inset: self.inset, lengths: self.lengths@, color: self.color }
    }
}

/// The pieces after one more token; an unknown token is ignored.
pub open spec fn shadow_step(p: ShadowPartsV, tok: Seq<char>, fs: int, vp: Viewport) -> ShadowPartsV {
    if lower(tok) == lower("inset"@) {
        ShadowPartsV { inset: true, ..p }
    } else if tok == "0"@ {
        ShadowPartsV { lengths: p.lengths.push(0), ..p }
    } else {
        match px_of(tok, fs, vp) {
            Some(px) => ShadowPartsV { lengths: p.lengths.push(px as i64), ..p },
            None => match color_of(tok) {
                Some(c) => ShadowPartsV { color: Some(c), ..p },
                None => p,
            },
        }
    }
}

/// The pieces of the first `k` tokens.
pub open spec fn shadow_fold(toks: Seq<Seq<char>>, fs: int, vp: Viewport, k: nat) -> ShadowPartsV
    decreases k,
{
    if k == 0 {
        ShadowPartsV { inset: false, lengths: Seq::empty(), color: None }
    } else {
        shadow_step(shadow_fold(toks, fs, vp, (k - 1) as nat), toks[k - 1], fs, vp)
    }
}

/// The pieces of one layer.
pub open spec fn shadow_parts(layer: Seq<char>, fs: int, vp: Viewport) -> ShadowPartsV {
    let toks = value_tokens(layer);
    shadow_fold(toks, fs, vp, toks.len())
}

pub fn classify_shadow_token(tok: &str, font_size: i64, vp: Viewport, parts: &mut ShadowParts)
    ensures
        final(parts)@ == shadow_step(old(parts)@, tok@, font_size as int, vp),
{
    if same_ignoring_case(tok, "inset") {
        parts.inset = true;
    } else if same(tok, "0") {
        parts.lengths.push(0);
    } else if let Some(px) = parse_px(tok, font_size, vp) {
        parts.lengths.push(px);
    } else if let Some(c) = parse_color(tok) {
        parts.color = Some(c);
    }
}

pub fn parse_shadow_parts(layer: &str, font_size: i64, vp: Viewport) -> (r: ShadowParts)
    ensures
        r@ == shadow_parts(layer@, font_size as int, vp),
{
    let mut parts = ShadowParts { inset: false, lengths: Vec::new(), color: None };
    let toks = css_value_tokens(layer);
    let ghost ts = texts(toks@);
    let mut k: usize = 0;
    while k < toks.len()
        invariant
            k <= toks@.len(),
            ts == texts(toks@),
            parts@ == shadow_fold(ts, font_size as int, vp, k as nat),
        decreases toks@.len() - k,
    {
        classify_shadow_token(toks[k], font_size, vp, &mut parts);
        k += 1;
    }
    parts
}

/// `v` as whole px within a signed 32-bit number.
pub open spec fn px32(v: i64) -> i32 {
    let r = round_div(v as int, ONE as int);
    if r > i32::MAX {
        i32::MAX
    } else if r < i32::MIN {
        i32::MIN
    } else {
        r as i32
    }
}

fn to_px32(v: i64) -> (r: i32)
    ensures
        r == px32(v),
{
    let w: i64 = whole(v);
    if w > 0x7fff_ffff {
        i32::MAX
    } else if w < -0x8000_0000 {
        i32::MIN
    } else {
        w as i32
    }
}

/// The length at `i`, or zero.
pub open spec fn length_at(l: Seq<i64>, i: int) -> i64 {
    if i < l.len() {
        l[i]
    } else {
        0
    }
}

/// The shadow of a layer's pieces; both offsets are needed.
pub open spec fn shadow_of_parts(p: ShadowPartsV, current: Rgba) -> Option<BoxShadow> {
    if p.lengths.len() < 2 {
        None
    } else {
        let blur = px32(length_at(p.lengths, 2));
        Some(
            BoxShadow {
                offset_x: px32(p.lengths[0]),
                offset_y: px32(p.lengths[1]),
                blur: if blur < 0 {
                    0
                } else {
                    blur as u32
                },
                spread: px32(length_at(p.lengths, 3)),
                color: match p.color {
                    Some(c) => c,
                    None => current,
                },
                inset: p.inset,
            },
        )
    }
}

/// The box's text color, which a shadow without a color takes.
pub open spec fn current_color(m: StyleMap) -> Rgba {
    match prop(m, "color"@) {
        Some(v) => match color_of(v) {
            Some(c) => c,
            None => Rgba::black(),
        },
        None => Rgba::black(),
    }
}

pub fn color_or_black(s: &ComputedStyle) -> (r: Rgba)
    ensures
        r == current_color(s@),
{
    match s.get("color") {
        Some(v) => match parse_color(v) {
            Some(c) => c,
            None => Rgba::black(),
        },
        None => Rgba::black(),
    }
}

/// The first `box-shadow` layer of a style.
pub open spec fn shadow_in(m: StyleMap, fs: int, vp: Viewport) -> Option<BoxShadow> {
    match prop(m, "box-shadow"@) {
        Some(v) => {
            let t = trimmed(v);
            let layers = comma_layers(t);
            if says_none(t) || layers.len() == 0 {
                None
            } else {
                shadow_of_parts(shadow_parts(layers[0], fs, vp), current_color(m))
            }
        },
        None => None,
    }
}

fn length_or_zero(l: &Vec<i64>, i: usize) -> (r: i64)
    ensures
        r == length_at(l@, i as int),
{
    if i < l.len() {
        l[i]
    } else {
        0
    }
}

/// The first (topmost) shadow layer: `[inset]? <x> <y> <blur>? <spread>?
/// <color>?`, the color in any place and `currentColor` by default.
pub fn box_shadow_of(s: &ComputedStyle, font_size: i64, vp: Viewport) -> (r: Option<BoxShadow>)
    ensures
        r == shadow_in(s@, font_size as int, vp),
{
    let value = match s.get("box-shadow") {
        Some(v) => trim(v),
        None => return None,
    };
    if is_none_keyword(value) {
        return None;
    }
    let layers = top_level_comma_split(value);
    if layers.len() == 0 {
        return None;
    }
    let parts = parse_shadow_parts(layers[0], font_size, vp);
    if parts.lengths.len() < 2 {
        return None;
    }
    let blur: i32 = to_px32(length_or_zero(&parts.lengths, 2));
    Some(
        BoxShadow {
            offset_x: to_px32(parts.lengths[0]),
            offset_y: to_px32(parts.lengths[1]),
            blur: if blur < 0 {
                0
            } else {
                blur as u32
            },
            spread: to_px32(length_or_zero(&parts.lengths, 3)),
            color: match parts.color {
                Some(c) => c,
                None => color_or_black(s),
            },
            inset: parts.inset,
        },
    )
}

} // verus!
