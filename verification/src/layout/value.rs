//! Typed style resolution: the cascade keeps property values as text, and layout
//! works on the [`BoxStyle`] resolved from them.

use vstd::prelude::*;
use vstd::string::*;

use crate::layout::color::{color_of, parse_color, Rgba};
use crate::layout::fragment::{BoxShadow, GradientV, LinearGradient};
use crate::layout::edges::{
    border_radius_in, border_radius_of, borders_in, edges_in, resolve_borders, resolve_edges,
    BorderEdges,
};
use crate::layout::gradient::{gradient_in, linear_gradient_of};
use crate::layout::length::{
    length_pct, parse_length_pct, parse_px, parse_raw, px_of, raw_length, raw_to_px, Edges,
    LengthPct, Viewport, HUNDRED,
};
use crate::layout::shadow::{box_shadow_of, color_or_black, current_color, shadow_in};
use crate::layout::tokens::{css_value_tokens, value_tokens};
use crate::layout::transform::{transform_in, transform_of, RawTransform, TransformV};
use crate::number::{
    int_of, natural_of, parse_int, parse_natural, parse_value, scale, scaled, value_of, whole, ONE,
};
use crate::scan::{
    chars_of, contains, lower, occurs, owned_texts, same, same_ignoring_case, split, split_at,
    starts, starts_with, texts, trim, trimmed, words, words_in,
};
use crate::style::{prop, prop_or, ComputedStyle, StyleMap};
use crate::text::{Align, WhiteSpace};

verus! {

// --------------------------------------------------------------------------
// keyword types
// --------------------------------------------------------------------------

/// CSS `display`.
#[derive(Debug, Clone, Copy, PartialEq, Eq, Structural)]
pub enum Display {
    Block,
    Inline,
    InlineBlock,
    Flex,
    Grid,
    /// `none`: the box and its subtree are not generated.
    Hidden,
    Table,
    TableRow,
    TableCell,
    TableHeaderGroup,
    TableFooterGroup,
    ListItem,
}

/// CSS `box-sizing`.
#[derive(Debug, Clone, Copy, PartialEq, Eq, Structural)]
pub enum BoxSizing {
    ContentBox,
    BorderBox,
}

/// CSS `vertical-align`, for inline boxes and table cells.
#[derive(Debug, Clone, Copy, PartialEq, Eq, Structural)]
pub enum VAlign {
    Baseline,
    Sub,
    Super,
    Middle,
    Top,
    Bottom,
}

/// A CSS fragmentation rule.
#[derive(Debug, Clone, Copy, PartialEq, Eq, Structural)]
pub enum BreakRule {
    Auto,
    Avoid,
    Page,
}

/// CSS `position`. `Sticky` lays out as `Relative`: a page does not scroll.
#[derive(Debug, Clone, Copy, PartialEq, Eq, Structural)]
pub enum Position {
    Static,
    Relative,
    Absolute,
    Fixed,
    Sticky,
}

impl Position {
    /// Whether a box so positioned takes no room in flow.
    pub open spec fn leaves_flow(self) -> bool {
        self is Absolute || self is Fixed
    }

    /// Whether the box is taken out of normal flow (`absolute` or `fixed`).
    pub fn is_out_of_flow(self) -> (r: bool)
        ensures
            r == self.leaves_flow(),
            r == (self is Absolute || self is Fixed),
    {
        matches!(self, Position::Absolute | Position::Fixed)
    }
}

/// CSS `float`.
#[derive(Debug, Clone, Copy, PartialEq, Eq, Structural)]
pub enum Float {
    /// `none`.
    Neither,
    Left,
    Right,
}

/// The trimmed value of `p`, or `d`.
pub open spec fn keyword(m: StyleMap, p: Seq<char>, d: Seq<char>) -> Seq<char> {
    trimmed(prop_or(m, p, d))
}

fn keyword_of<'a>(s: &'a ComputedStyle, p: &str, d: &'a str) -> (r: &'a str)
    ensures
        r@ == keyword(s@, p@, d@),
{
    match s.get(p) {
        Some(v) => trim(v),
        None => trim(d),
    }
}

/// Whether the property `p` is set to `v`, but for spaces around it.
pub open spec fn is_set_to(m: StyleMap, p: Seq<char>, v: Seq<char>) -> bool {
    prop(m, p) is Some && trimmed(prop(m, p)->0) == v
}

pub fn set_to(s: &ComputedStyle, p: &str, v: &str) -> (r: bool)
    ensures
        r == is_set_to(s@, p@, v@),
{
    match s.get(p) {
        Some(t) => same(trim(t), v),
        None => false,
    }
}

/// The `display` of a style.
pub open spec fn display_in(m: StyleMap) -> Display {
    let t = keyword(m, "display"@, "block"@);
    if t == "inline"@ {
        Display::Inline
    } else if t == "inline-block"@ {
        Display::InlineBlock
    } else if t == "flex"@ || t == "inline-flex"@ {
        Display::Flex
    } else if t == "grid"@ || t == "inline-grid"@ {
        Display::Grid
    } else if t == "none"@ {
        Display::Hidden
    } else if t == "table"@ {
        Display::Table
    } else if t == "table-row"@ {
        Display::TableRow
    } else if t == "table-cell"@ {
        Display::TableCell
    } else if t == "table-header-group"@ {
        Display::TableHeaderGroup
    } else if t == "table-footer-group"@ {
        Display::TableFooterGroup
    } else if t == "list-item"@ {
        Display::ListItem
    } else {
        Display::Block
    }
}

/// The `display` keyword, needed before any width is known.
pub fn display_of(s: &ComputedStyle) -> (r: Display)
    ensures
        r == display_in(s@),
{
    let t = keyword_of(s, "display", "block");
    if same(t, "inline") {
        Display::Inline
    } else if same(t, "inline-block") {
        Display::InlineBlock
    } else if same(t, "flex") || same(t, "inline-flex") {
        Display::Flex
    } else if same(t, "grid") || same(t, "inline-grid") {
        Display::Grid
    } else if same(t, "none") {
        Display::Hidden
    } else if same(t, "table") {
        Display::Table
    } else if same(t, "table-row") {
        Display::TableRow
    } else if same(t, "table-cell") {
        Display::TableCell
    } else if same(t, "table-header-group") {
        Display::TableHeaderGroup
    } else if same(t, "table-footer-group") {
        Display::TableFooterGroup
    } else if same(t, "list-item") {
        Display::ListItem
    } else {
        Display::Block
    }
}

/// The `position` of a style.
pub open spec fn position_in(m: StyleMap) -> Position {
    let t = keyword(m, "position"@, "static"@);
    if t == "relative"@ {
        Position::Relative
    } else if t == "absolute"@ {
        Position::Absolute
    } else if t == "fixed"@ {
        Position::Fixed
    } else if t == "sticky"@ {
        Position::Sticky
    } else {
        Position::Static
    }
}

/// The `position` scheme (`static` by default).
pub fn position_of(s: &ComputedStyle) -> (r: Position)
    ensures
        r == position_in(s@),
{
    let t = keyword_of(s, "position", "static");
    if same(t, "relative") {
        Position::Relative
    } else if same(t, "absolute") {
        Position::Absolute
    } else if same(t, "fixed") {
        Position::Fixed
    } else if same(t, "sticky") {
        Position::Sticky
    } else {
        Position::Static
    }
}

/// The `float` of a style.
pub open spec fn float_in(m: StyleMap) -> Float {
    let t = keyword(m, "float"@, "none"@);
    if t == "left"@ {
        Float::Left
    } else if t == "right"@ {
        Float::Right
    } else {
        Float::Neither
    }
}

/// The `float` of a box (`left`, `right`, else `none`).
pub fn float_of(s: &ComputedStyle) -> (r: Float)
    ensures
        r == float_in(s@),
{
    let t = keyword_of(s, "float", "none");
    if same(t, "left") {
        Float::Left
    } else if same(t, "right") {
        Float::Right
    } else {
        Float::Neither
    }
}

pub open spec fn align_in(m: StyleMap) -> Align {
    let t = keyword(m, "text-align"@, "left"@);
    if t == "right"@ {
        Align::Right
    } else if t == "center"@ {
        Align::Center
    } else if t == "justify"@ {
        Align::Justify
    } else {
        Align::Left
    }
}

pub fn align_of(s: &ComputedStyle) -> (r: Align)
    ensures
        r == align_in(s@),
{
    let t = keyword_of(s, "text-align", "left");
    if same(t, "right") {
        Align::Right
    } else if same(t, "center") {
        Align::Center
    } else if same(t, "justify") {
        Align::Justify
    } else {
        Align::Left
    }
}

pub open spec fn white_space_in(m: StyleMap) -> WhiteSpace {
    let t = keyword(m, "white-space"@, "normal"@);
    if t == "pre"@ {
        WhiteSpace::Pre
    } else if t == "nowrap"@ {
        WhiteSpace::NoWrap
    } else {
        WhiteSpace::Normal
    }
}

pub fn white_space_of(s: &ComputedStyle) -> (r: WhiteSpace)
    ensures
        r == white_space_in(s@),
{
    let t = keyword_of(s, "white-space", "normal");
    if same(t, "pre") {
        WhiteSpace::Pre
    } else if same(t, "nowrap") {
        WhiteSpace::NoWrap
    } else {
        WhiteSpace::Normal
    }
}

pub open spec fn vertical_align_in(m: StyleMap) -> VAlign {
    let t = keyword(m, "vertical-align"@, "baseline"@);
    if t == "sub"@ {
        VAlign::Sub
    } else if t == "super"@ {
        VAlign::Super
    } else if t == "middle"@ {
        VAlign::Middle
    } else if t == "top"@ {
        VAlign::Top
    } else if t == "bottom"@ {
        VAlign::Bottom
    } else {
        VAlign::Baseline
    }
}

pub fn vertical_align_of(s: &ComputedStyle) -> (r: VAlign)
    ensures
        r == vertical_align_in(s@),
{
    let t = keyword_of(s, "vertical-align", "baseline");
    if same(t, "sub") {
        VAlign::Sub
    } else if same(t, "super") {
        VAlign::Super
    } else if same(t, "middle") {
        VAlign::Middle
    } else if same(t, "top") {
        VAlign::Top
    } else if same(t, "bottom") {
        VAlign::Bottom
    } else {
        VAlign::Baseline
    }
}

pub open spec fn break_rule_in(m: StyleMap, p: Seq<char>) -> BreakRule {
    let t = keyword(m, p, "auto"@);
    if t == "avoid"@ {
        BreakRule::Avoid
    } else if t == "page"@ || t == "column"@ {
        BreakRule::Page
    } else {
        BreakRule::Auto
    }
}

pub fn break_rule_of(s: &ComputedStyle, p: &str) -> (r: BreakRule)
    ensures
        r == break_rule_in(s@, p@),
{
    let t = keyword_of(s, p, "auto");
    if same(t, "avoid") {
        BreakRule::Avoid
    } else if same(t, "page") || same(t, "column") {
        BreakRule::Page
    } else {
        BreakRule::Auto
    }
}

pub open spec fn box_sizing_in(m: StyleMap) -> BoxSizing {
    if is_set_to(m, "box-sizing"@, "border-box"@) {
        BoxSizing::BorderBox
    } else {
        BoxSizing::ContentBox
    }
}

pub fn box_sizing_of(s: &ComputedStyle) -> (r: BoxSizing)
    ensures
        r == box_sizing_in(s@),
{
    if set_to(s, "box-sizing", "border-box") {
        BoxSizing::BorderBox
    } else {
        BoxSizing::ContentBox
    }
}

// --------------------------------------------------------------------------
// integers
// --------------------------------------------------------------------------

/// A small whole number, or a default.
pub open spec fn int_in(m: StyleMap, p: Seq<char>, d: u8) -> u8 {
    match prop(m, p) {
        Some(v) => match natural_of(trimmed(v)) {
            Some(n) if n <= 255 => n as u8,
            _ => d,
        },
        None => d,
    }
}

pub fn int_prop(s: &ComputedStyle, p: &str, default: u8) -> (r: u8)
    ensures
        r == int_in(s@, p@, default),
{
    match s.get(p) {
        Some(v) => match parse_natural(trim(v), 255) {
            Some(n) => n as u8,
            None => default,
        },
        None => default,
    }
}

/// The `z-index`; `auto` and unreadable values have none.
pub open spec fn z_index_in(m: StyleMap) -> Option<i32> {
    match prop(m, "z-index"@) {
        Some(v) => match int_of(trimmed(v)) {
            Some(n) if i32::MIN <= n <= i32::MAX => Some(n as i32),
            _ => None,
        },
        None => None,
    }
}

pub fn z_index_of(s: &ComputedStyle) -> (r: Option<i32>)
    ensures
        r == z_index_in(s@),
{
    match s.get("z-index") {
        Some(v) => match parse_int(trim(v), -0x8000_0000, 0x7fff_ffff) {
            Some(n) => Some(n as i32),
            None => None,
        },
        None => None,
    }
}

/// The weight: a keyword, a number, or 400.
pub open spec fn font_weight_in(m: StyleMap) -> u16 {
    let t = keyword(m, "font-weight"@, "normal"@);
    if t == "normal"@ {
        400
    } else if t == "bold"@ {
        700
    } else {
        match natural_of(t) {
            Some(n) if n <= 65535 => n as u16,
            _ => 400,
        }
    }
}

pub fn font_weight(s: &ComputedStyle) -> (r: u16)
    ensures
        r == font_weight_in(s@),
{
    let t = keyword_of(s, "font-weight", "normal");
    if same(t, "normal") {
        400
    } else if same(t, "bold") {
        700
    } else {
        match parse_natural(t, 65535) {
            Some(n) => n as u16,
            None => 400,
        }
    }
}

// --------------------------------------------------------------------------
// font families
// --------------------------------------------------------------------------

pub open spec fn is_quote(c: char) -> bool {
    c == '"' || c == '\''
}

pub open spec fn unquote_front(s: Seq<char>) -> Seq<char>
    decreases s.len(),
{
    if s.len() > 0 && is_quote(s[0]) {
        unquote_front(s.skip(1))
    } else {
        s
    }
}

pub open spec fn unquote_back(s: Seq<char>) -> Seq<char>
    decreases s.len(),
{
    if s.len() > 0 && is_quote(s.last()) {
        unquote_back(s.drop_last())
    } else {
        s
    }
}

/// `s` without the quotes at either end.
pub open spec fn unquoted(s: Seq<char>) -> Seq<char> {
    unquote_back(unquote_front(s))
}

/// Strip the quotes at either end.
pub fn trim_quotes<'a>(s: &'a str) -> (r: &'a str)
    ensures
        r@ == unquoted(s@),
{
    let x = chars_of(s);
    let mut a: usize = 0;
    proof {
        assert(s@.skip(0) =~= s@);
    }
    while a < x.len() && (x[a] == '"' || x[a] == '\'')
        invariant
            x@ == s@,
            a <= x@.len(),
            unquote_front(s@) == unquote_front(s@.skip(a as int)),
        decreases x@.len() - a,
    {
        proof {
            assert(s@.skip(a as int)[0] == s@[a as int]);
            assert(s@.skip(a as int).skip(1) =~= s@.skip(a as int + 1));
        }
        a += 1;
    }
    proof {
        if a < x.len() {
            assert(s@.skip(a as int)[0] == s@[a as int]);
        }
        assert(unquote_front(s@) == s@.skip(a as int));
    }
    let mut b: usize = x.len();
    proof {
        assert(s@.subrange(a as int, b as int) =~= s@.skip(a as int));
    }
    while b > a && (x[b - 1] == '"' || x[b - 1] == '\'')
        invariant
            x@ == s@,
            a <= b <= x@.len(),
            unquoted(s@) == unquote_back(s@.subrange(a as int, b as int)),
        decreases b,
    {
        proof {
            let t = s@.subrange(a as int, b as int);
            assert(t.last() == s@[b - 1]);
            assert(t.drop_last() =~= s@.subrange(a as int, b - 1));
        }
        b -= 1;
    }
    proof {
        if b > a {
            assert(s@.subrange(a as int, b as int).last() == s@[b - 1]);
        }
    }
    s.substring_char(a, b)
}

/// The family names of a comma-separated list, unquoted, empty ones left out.
pub open spec fn family_names(p: Seq<Seq<char>>) -> Seq<Seq<char>>
    decreases p.len(),
{
    if p.len() == 0 {
        Seq::empty()
    } else {
        let n = unquoted(trimmed(p.last()));
        if n.len() == 0 {
            family_names(p.drop_last())
        } else {
            family_names(p.drop_last()).push(n)
        }
    }
}

pub open spec fn font_families_in(m: StyleMap) -> Seq<Seq<char>> {
    match prop(m, "font-family"@) {
        Some(v) => family_names(split_at(v, ',', ',')),
        None => Seq::empty(),
    }
}

pub fn font_families(s: &ComputedStyle) -> (r: Vec<String>)
    ensures
        owned_texts(r@) == font_families_in(s@),
{
    let mut out: Vec<String> = Vec::new();
    proof {
        assert(owned_texts(out@) =~= Seq::empty());
    }
    let v = match s.get("font-family") {
        Some(v) => v,
        None => return out,
    };
    let parts = split(v, ',', ',');
    let ghost ps = texts(parts@);
    let mut i: usize = 0;
    proof {
        assert(ps.take(0) =~= Seq::empty());
    }
    while i < parts.len()
        invariant
            i <= parts@.len(),
            ps == texts(parts@),
            owned_texts(out@) == family_names(ps.take(i as int)),
        decreases parts@.len() - i,
    {
        let name = trim_quotes(trim(parts[i]));
        proof {
            let t = ps.take(i as int + 1);
            assert(t.drop_last() =~= ps.take(i as int));
            assert(t.last() == parts@[i as int]@);
        }
        if !name.is_empty() {
            let owned: String = name.to_owned();
            proof {
                assert(owned_texts(out@.push(owned)) =~= owned_texts(out@).push(name@));
            }
            out.push(owned);
        }
        i += 1;
    }
    proof {
        assert(ps.take(i as int) =~= ps);
    }
    out
}

// --------------------------------------------------------------------------
// background color
// --------------------------------------------------------------------------

/// The first color among the tokens that are neither an image nor a gradient.
pub open spec fn first_color(t: Seq<Seq<char>>) -> Option<Rgba>
    decreases t.len(),
{
    if t.len() == 0 {
        None
    } else if !starts(t[0], "url("@) && !occurs(t[0], "gradient("@) && color_of(t[0]) is Some {
        color_of(t[0])
    } else {
        first_color(t.skip(1))
    }
}

/// The background color of a style: the longhand, else one in the shorthand.
pub open spec fn background_in(m: StyleMap) -> Option<Rgba> {
    let long = match prop(m, "background-color"@) {
        Some(v) => color_of(v),
        None => None,
    };
    match long {
        Some(c) => Some(c),
        None => match prop(m, "background"@) {
            Some(v) => first_color(value_tokens(v)),
            None => None,
        },
    }
}

pub fn background_shorthand_color(value: &str) -> (r: Option<Rgba>)
    ensures
        r == first_color(value_tokens(value@)),
{
    let toks = css_value_tokens(value);
    let ghost ts = texts(toks@);
    let mut i: usize = 0;
    proof {
        assert(ts.skip(0) =~= ts);
    }
    while i < toks.len()
        invariant
            i <= toks@.len(),
            ts == texts(toks@),
            ts == value_tokens(value@),
            first_color(ts) == first_color(ts.skip(i as int)),
        decreases toks@.len() - i,
    {
        proof {
            assert(ts.skip(i as int)[0] == toks@[i as int]@);
            assert(ts.skip(i as int).skip(1) =~= ts.skip(i as int + 1));
        }
        if !starts_with(toks[i], "url(") && !contains(toks[i], "gradient(") {
            if let Some(c) = parse_color(toks[i]) {
                return Some(c);
            }
        }
        i += 1;
    }
    None
}

pub fn background_of(s: &ComputedStyle) -> (r: Option<Rgba>)
    ensures
        r == background_in(s@),
{
    if let Some(v) = s.get("background-color") {
        if let Some(c) = parse_color(v) {
            return Some(c);
        }
    }
    match s.get("background") {
        Some(v) => background_shorthand_color(v),
        None => None,
    }
}

// --------------------------------------------------------------------------
// lengths of a style
// --------------------------------------------------------------------------

/// The length that the property `p` names, else `d`.
pub open spec fn length_in(m: StyleMap, p: Seq<char>, fs: int, d: LengthPct, vp: Viewport) -> LengthPct {
    match prop(m, p) {
        Some(v) => match length_pct(v, fs, vp) {
            Some(l) => l,
            None => d,
        },
        None => d,
    }
}

pub fn length_prop(s: &ComputedStyle, p: &str, font_size: i64, default: LengthPct, vp: Viewport) -> (r:
    LengthPct)
    ensures
        r == length_in(s@, p@, font_size as int, default, vp),
{
    match s.get(p) {
        Some(v) => match parse_length_pct(v, font_size, vp) {
            Some(l) => l,
            None => default,
        },
        None => default,
    }
}

/// The line height in px: a multiple of the font size, or a length; `normal` has
/// none.
pub open spec fn line_height_in(m: StyleMap, fs: int, vp: Viewport) -> Option<i64> {
    match prop(m, "line-height"@) {
        Some(v) => {
            let t = trimmed(v);
            if lower(t) == lower("normal"@) {
                None
            } else {
                match value_of(t) {
                    Some(n) => Some(scaled(n, fs, ONE as int) as i64),
                    None => match px_of(t, fs, vp) {
                        Some(x) => Some(x as i64),
                        None => None,
                    },
                }
            }
        },
        None => None,
    }
}

pub fn line_height(s: &ComputedStyle, font_size: i64, vp: Viewport) -> (r: Option<i64>)
    ensures
        r == line_height_in(s@, font_size as int, vp),
{
    let v = match s.get("line-height") {
        Some(v) => trim(v),
        None => return None,
    };
    if same_ignoring_case(v, "normal") {
        return None;
    }
    match parse_value(v) {
        Some(n) => Some(scale(n, font_size, ONE)),
        None => parse_px(v, font_size, vp),
    }
}

pub open spec fn letter_spacing_in(m: StyleMap, fs: int, vp: Viewport) -> i64 {
    match prop(m, "letter-spacing"@) {
        Some(v) => match px_of(v, fs, vp) {
            Some(x) => x as i64,
            None => 0,
        },
        None => 0,
    }
}

fn letter_spacing_of(s: &ComputedStyle, font_size: i64, vp: Viewport) -> (r: i64)
    ensures
        r == letter_spacing_in(s@, font_size as int, vp),
{
    match s.get("letter-spacing") {
        Some(v) => match parse_px(v, font_size, vp) {
            Some(x) => x,
            None => 0,
        },
        None => 0,
    }
}

/// `aspect-ratio` as width to height: one number or two around a slash, all
/// positive.
pub open spec fn aspect_ratio_in(m: StyleMap) -> Option<(i64, i64)> {
    match prop(m, "aspect-ratio"@) {
        Some(v) => {
            let p = split_at(v, '/', '/');
            let h = if p.len() == 1 {
                Some(ONE as int)
            } else if p.len() == 2 {
                value_of(trimmed(p[1]))
            } else {
                None
            };
            match (value_of(trimmed(p[0])), h) {
                (Some(w), Some(h)) if w > 0 && h > 0 => Some((w as i64, h as i64)),
                _ => None,
            }
        },
        None => None,
    }
}

pub fn aspect_ratio_of(s: &ComputedStyle) -> (r: Option<(i64, i64)>)
    ensures
        r == aspect_ratio_in(s@),
{
    let v = match s.get("aspect-ratio") {
        Some(v) => v,
        None => return None,
    };
    let p = split(v, '/', '/');
    proof {
        assert(texts(p@).len() == p@.len());
    }
    let h: Option<i64> = if p.len() == 1 {
        Some(ONE)
    } else if p.len() == 2 {
        parse_value(trim(p[1]))
    } else {
        None
    };
    match (parse_value(trim(p[0])), h) {
        (Some(w), Some(h)) => if w > 0 && h > 0 {
            Some((w, h))
        } else {
            None
        },
        _ => None,
    }
}

/// The place that one `transform-origin` word names on an axis.
pub open spec fn origin_word(w: Seq<char>, fs: int, vp: Viewport) -> LengthPct {
    if w == "left"@ || w == "top"@ {
        LengthPct::Pct(0)
    } else if w == "center"@ {
        LengthPct::Pct((HUNDRED / 2) as i64)
    } else if w == "right"@ || w == "bottom"@ {
        LengthPct::Pct(HUNDRED)
    } else {
        match length_pct(w, fs, vp) {
            Some(l) => l,
            None => LengthPct::Pct((HUNDRED / 2) as i64),
        }
    }
}

/// The point that `transform-origin` names: the middle by default, and the two
/// words in either order where one of them names an axis.
pub open spec fn transform_origin_in(m: StyleMap, fs: int, vp: Viewport) -> (LengthPct, LengthPct) {
    let mid = LengthPct::Pct((HUNDRED / 2) as i64);
    let w = match prop(m, "transform-origin"@) {
        Some(v) => words_in(v),
        None => Seq::empty(),
    };
    if w.len() == 0 {
        (mid, mid)
    } else if w.len() == 1 {
        if w[0] == "top"@ || w[0] == "bottom"@ {
            (mid, origin_word(w[0], fs, vp))
        } else {
            (origin_word(w[0], fs, vp), mid)
        }
    } else if w[0] == "top"@ || w[0] == "bottom"@ || w[1] == "left"@ || w[1] == "right"@ {
        (origin_word(w[1], fs, vp), origin_word(w[0], fs, vp))
    } else {
        (origin_word(w[0], fs, vp), origin_word(w[1], fs, vp))
    }
}

fn origin_of(w: &str, font_size: i64, vp: Viewport) -> (r: LengthPct)
    ensures
        r == origin_word(w@, font_size as int, vp),
{
    if same(w, "left") || same(w, "top") {
        LengthPct::Pct(0)
    } else if same(w, "center") {
        LengthPct::Pct(HUNDRED / 2)
    } else if same(w, "right") || same(w, "bottom") {
        LengthPct::Pct(HUNDRED)
    } else {
        match parse_length_pct(w, font_size, vp) {
            Some(l) => l,
            None => LengthPct::Pct(HUNDRED / 2),
        }
    }
}

pub fn transform_origin_of(s: &ComputedStyle, font_size: i64, vp: Viewport) -> (r: (
    LengthPct,
    LengthPct,
))
    ensures
        r == transform_origin_in(s@, font_size as int, vp),
{
    let mid = LengthPct::Pct(HUNDRED / 2);
    let w = match s.get("transform-origin") {
        Some(v) => words(v),
        None => return (mid, mid),
    };
    proof {
        assert(texts(w@).len() == w@.len());
    }
    if w.len() == 0 {
        (mid, mid)
    } else if w.len() == 1 {
        if same(w[0], "top") || same(w[0], "bottom") {
            (mid, origin_of(w[0], font_size, vp))
        } else {
            (origin_of(w[0], font_size, vp), mid)
        }
    } else if same(w[0], "top") || same(w[0], "bottom") || same(w[1], "left") || same(
        w[1],
        "right",
    ) {
        (origin_of(w[1], font_size, vp), origin_of(w[0], font_size, vp))
    } else {
        (origin_of(w[0], font_size, vp), origin_of(w[1], font_size, vp))
    }
}

// --------------------------------------------------------------------------
// the resolved style
// --------------------------------------------------------------------------

/// What font-relative, percentage and viewport values are resolved against.
#[derive(Debug, Clone, Copy, PartialEq, Eq, Structural)]
pub struct ResolveCtx {
    pub parent_font_size: i64,
    pub cb_width: i64,
    pub viewport: Viewport,
}

/// The typed style that a box is laid out by.
#[derive(Debug)]
pub struct BoxStyle {
    pub display: Display,
    pub position: Position,
    pub inset_top: LengthPct,
    pub inset_right: LengthPct,
    pub inset_bottom: LengthPct,
    pub inset_left: LengthPct,
    /// Paint order within the stacking context; `None` is `auto`.
    pub z_index: Option<i32>,
    pub float: Float,
    pub margin: Edges,
    pub padding: Edges,
    pub border: BorderEdges,
    pub width: LengthPct,
    pub height: LengthPct,
    pub min_width: LengthPct,
    pub max_width: LengthPct,
    pub min_height: LengthPct,
    pub max_height: LengthPct,
    /// Width to height, where `aspect-ratio` gives one.
    pub aspect_ratio: Option<(i64, i64)>,
    pub border_radius: LengthPct,
    pub box_sizing: BoxSizing,
    pub font_families: Vec<String>,
    pub font_size: i64,
    pub font_weight: u16,
    pub italic: bool,
    pub color: Rgba,
    pub line_height: Option<i64>,
    pub text_align: Align,
    pub white_space: WhiteSpace,
    pub letter_spacing: i64,
    pub vertical_align: VAlign,
    pub break_before: BreakRule,
    pub break_after: BreakRule,
    pub break_inside_avoid: bool,
    pub orphans: u8,
    pub widows: u8,
    pub background: Option<Rgba>,
    pub box_shadow: Option<BoxShadow>,
    pub background_gradient: Option<LinearGradient>,
    pub transform: Option<RawTransform>,
    pub transform_origin: (LengthPct, LengthPct),
}

/// The mathematical reading of a [`BoxStyle`].
pub struct BoxStyleV {
    pub display: Display,
    pub position: Position,
    pub inset_top: LengthPct,
    pub inset_right: LengthPct,
    pub inset_bottom: LengthPct,
    pub inset_left: LengthPct,
    pub z_index: Option<i32>,
    pub float: Float,
    pub margin: Edges,
    pub padding: Edges,
    pub border: BorderEdges,
    pub width: LengthPct,
    pub height: LengthPct,
    pub min_width: LengthPct,
    pub max_width: LengthPct,
    pub min_height: LengthPct,
    pub max_height: LengthPct,
    pub aspect_ratio: Option<(i64, i64)>,
    pub border_radius: LengthPct,
    pub box_sizing: BoxSizing,
    pub font_families: Seq<Seq<char>>,
    pub font_size: i64,
    pub font_weight: u16,
    pub italic: bool,
    pub color: Rgba,
    pub line_height: Option<i64>,
    pub text_align: Align,
    pub white_space: WhiteSpace,
    pub letter_spacing: i64,
    pub vertical_align: VAlign,
    pub break_before: BreakRule,
    pub break_after: BreakRule,
    pub break_inside_avoid: bool,
    pub orphans: u8,
    pub widows: u8,
    pub background: Option<Rgba>,
    pub box_shadow: Option<BoxShadow>,
    pub background_gradient: Option<GradientV>,
    pub transform: Option<TransformV>,
    pub transform_origin: (LengthPct, LengthPct),
}

impl View for BoxStyle {
    type V = BoxStyleV;

    open spec fn view(&self) -> BoxStyleV {
        BoxStyleV {
            display: self.display,
            position: self.position,
            inset_top: self.inset_top,
            inset_right: self.inset_right,
            inset_bottom: self.inset_bottom,
            inset_left: self.inset_left,
            z_index: self.z_index,
            float: self.float,
            margin: self.margin,
            padding: self.padding,
            border: self.border,
            width: self.width,
            height: self.height,
            min_width: self.min_width,
            max_width: self.max_width,
            min_height: self.min_height,
            max_height: self.max_height,
            aspect_ratio: self.aspect_ratio,
            border_radius: self.border_radius,
            box_sizing: self.box_sizing,
            font_families: owned_texts(self.font_families@),
            font_size: self.font_size,
            font_weight: self.font_weight,
            italic: self.italic,
            color: self.color,
            line_height: self.line_height,
            text_align: self.text_align,
            white_space: self.white_space,
            letter_spacing: self.letter_spacing,
            vertical_align: self.vertical_align,
            break_before: self.break_before,
            break_after: self.break_after,
            break_inside_avoid: self.break_inside_avoid,
            orphans: self.orphans,
            widows: self.widows,
            background: self.background,
            box_shadow: self.box_shadow,
            background_gradient: match self.background_gradient {
                Some(g) => Some(g@),
                None => None,
            },
            transform: match self.transform {
                Some(t) => Some(t@),
                None => None,
            },
            transform_origin: self.transform_origin,
        }
    }
}

/// The font size of a style under a parent's.
pub open spec fn font_size_in(m: StyleMap, parent: i64, vp: Viewport) -> i64 {
    match prop(m, "font-size"@) {
        Some(v) => match raw_length(v, vp) {
            Some(raw) => raw.px(parent as int, parent as int) as i64,
            None => parent,
        },
        None => parent,
    }
}

pub fn resolve_font_size(s: &ComputedStyle, parent: i64, vp: Viewport) -> (r: i64)
    ensures
        r == font_size_in(s@, parent, vp),
{
    match s.get("font-size") {
        Some(v) => match parse_raw(v, vp) {
            Some(raw) => raw_to_px(raw, parent, parent),
            None => parent,
        },
        None => parent,
    }
}

/// The metrics of a style whose font size is `fs`.
pub open spec fn metrics_in(m: StyleMap, fs: i64, cb: i64, vp: Viewport) -> BoxStyleV {
    BoxStyleV {
        display: display_in(m),
        position: position_in(m),
        float: float_in(m),
        inset_top: length_in(m, "top"@, fs as int, LengthPct::Auto, vp),
        inset_right: length_in(m, "right"@, fs as int, LengthPct::Auto, vp),
        inset_bottom: length_in(m, "bottom"@, fs as int, LengthPct::Auto, vp),
        inset_left: length_in(m, "left"@, fs as int, LengthPct::Auto, vp),
        z_index: z_index_in(m),
        margin: edges_in(m, "margin"@, fs as int, cb as int, vp),
        padding: edges_in(m, "padding"@, fs as int, cb as int, vp),
        border: borders_in(m, fs as int, vp),
        width: length_in(m, "width"@, fs as int, LengthPct::Auto, vp),
        height: length_in(m, "height"@, fs as int, LengthPct::Auto, vp),
        min_width: length_in(m, "min-width"@, fs as int, LengthPct::Px(0), vp),
        max_width: length_in(m, "max-width"@, fs as int, LengthPct::Auto, vp),
        min_height: length_in(m, "min-height"@, fs as int, LengthPct::Px(0), vp),
        max_height: length_in(m, "max-height"@, fs as int, LengthPct::Auto, vp),
        aspect_ratio: aspect_ratio_in(m),
        border_radius: border_radius_in(m, fs as int, vp),
        box_sizing: box_sizing_in(m),
        font_families: font_families_in(m),
        font_size: fs,
        font_weight: font_weight_in(m),
        italic: is_set_to(m, "font-style"@, "italic"@) || is_set_to(
            m,
            "font-style"@,
            "oblique"@,
        ),
        color: current_color(m),
        line_height: line_height_in(m, fs as int, vp),
        text_align: align_in(m),
        white_space: white_space_in(m),
        letter_spacing: letter_spacing_in(m, fs as int, vp),
        vertical_align: vertical_align_in(m),
        break_before: break_rule_in(m, "break-before"@),
        break_after: break_rule_in(m, "break-after"@),
        break_inside_avoid: is_set_to(m, "break-inside"@, "avoid"@),
        orphans: int_in(m, "orphans"@, 2),
        widows: int_in(m, "widows"@, 2),
        background: background_in(m),
        box_shadow: shadow_in(m, fs as int, vp),
        background_gradient: gradient_in(m),
        transform: transform_in(m, fs as int, vp),
        transform_origin: transform_origin_in(m, fs as int, vp),
    }
}

pub fn resolve_box_metrics(s: &ComputedStyle, fs: i64, ctx: ResolveCtx) -> (r: BoxStyle)
    ensures
        r@ == metrics_in(s@, fs, ctx.cb_width, ctx.viewport),
{
    let vp = ctx.viewport;
    let cb: i64 = ctx.cb_width;
    BoxStyle {
        display: display_of(s),
        position: position_of(s),
        float: float_of(s),
        inset_top: length_prop(s, "top", fs, LengthPct::Auto, vp),
        inset_right: length_prop(s, "right", fs, LengthPct::Auto, vp),
        inset_bottom: length_prop(s, "bottom", fs, LengthPct::Auto, vp),
        inset_left: length_prop(s, "left", fs, LengthPct::Auto, vp),
        z_index: z_index_of(s),
        margin: resolve_edges(s, "margin", fs, cb, vp),
        padding: resolve_edges(s, "padding", fs, cb, vp),
        border: resolve_borders(s, fs, vp),
        width: length_prop(s, "width", fs, LengthPct::Auto, vp),
        height: length_prop(s, "height", fs, LengthPct::Auto, vp),
        min_width: length_prop(s, "min-width", fs, LengthPct::Px(0), vp),
        max_width: length_prop(s, "max-width", fs, LengthPct::Auto, vp),
        min_height: length_prop(s, "min-height", fs, LengthPct::Px(0), vp),
        max_height: length_prop(s, "max-height", fs, LengthPct::Auto, vp),
        aspect_ratio: aspect_ratio_of(s),
        border_radius: border_radius_of(s, fs, vp),
        box_sizing: box_sizing_of(s),
        font_families: font_families(s),
        font_size: fs,
        font_weight: font_weight(s),
        italic: set_to(s, "font-style", "italic") || set_to(s, "font-style", "oblique"),
        color: color_or_black(s),
        line_height: line_height(s, fs, vp),
        text_align: align_of(s),
        white_space: white_space_of(s),
        letter_spacing: letter_spacing_of(s, fs, vp),
        vertical_align: vertical_align_of(s),
        break_before: break_rule_of(s, "break-before"),
        break_after: break_rule_of(s, "break-after"),
        break_inside_avoid: set_to(s, "break-inside", "avoid"),
        orphans: int_prop(s, "orphans", 2),
        widows: int_prop(s, "widows", 2),
        background: background_of(s),
        box_shadow: box_shadow_of(s, fs, vp),
        background_gradient: linear_gradient_of(s),
        transform: transform_of(s, fs, vp),
        transform_origin: transform_origin_of(s, fs, vp),
    }
}

/// The typed style of a property map in a context.
#[verifier::opaque]
pub open spec fn box_style_in(m: StyleMap, ctx: ResolveCtx) -> BoxStyleV {
    metrics_in(m, font_size_in(m, ctx.parent_font_size, ctx.viewport), ctx.cb_width, ctx.viewport)
}

/// Resolve a [`ComputedStyle`] into the typed [`BoxStyle`] that layout uses.
pub fn resolve_box_style(s: &ComputedStyle, ctx: ResolveCtx) -> (r: BoxStyle)
    ensures
        r@ == box_style_in(s@, ctx),
{
    proof {
        reveal(box_style_in);
    }
    let fs: i64 = resolve_font_size(s, ctx.parent_font_size, ctx.viewport);
    resolve_box_metrics(s, fs, ctx)
}

} // verus!
