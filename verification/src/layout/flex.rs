//! Flex and grid styles: what a container and its items ask of the solver that
//! owns the flexbox and grid algorithms.

use vstd::prelude::*;

use crate::layout::length::{parse_px, px_of, Edges, LengthPct, Viewport, DEFAULT_FONT_SIZE};
use crate::layout::value::{
    box_style_in, keyword, resolve_box_style, BoxStyle, BoxStyleV, ResolveCtx,
};
use crate::number::{number_of, parse_number, parse_value, value_of, ONE};
use crate::scan::{
    before_suffix, same, strip_suffix, text_of, texts, trim, trimmed, words, words_in,
};
use crate::style::{prop, prop_or, ComputedStyle, StyleMap};

verus! {

// --------------------------------------------------------------------------
// keywords
// --------------------------------------------------------------------------

#[derive(Debug, Clone, Copy, PartialEq, Eq, Structural)]
pub enum FlexDirection {
    Row,
    RowReverse,
    Column,
    ColumnReverse,
}

#[derive(Debug, Clone, Copy, PartialEq, Eq, Structural)]
pub enum FlexWrap {
    NoWrap,
    Wrap,
    WrapReverse,
}

#[derive(Debug, Clone, Copy, PartialEq, Eq, Structural)]
pub enum JustifyContent {
    FlexStart,
    FlexEnd,
    Center,
    SpaceBetween,
    SpaceAround,
    SpaceEvenly,
}

#[derive(Debug, Clone, Copy, PartialEq, Eq, Structural)]
pub enum AlignItems {
    Start,
    End,
    FlexStart,
    FlexEnd,
    Center,
    Baseline,
    Stretch,
}

/// A size that the solver takes: `auto`, px, or a percentage (in millionths of a
/// percent).
#[derive(Debug, Clone, Copy, PartialEq, Eq, Structural)]
pub enum Dimension {
    Auto,
    Length(i64),
    Percent(i64),
}

/// The trimmed value of `p`, or `d`.
fn keyword_or<'a>(s: &'a ComputedStyle, p: &str, d: &'a str) -> (r: &'a str)
    ensures
        r@ == keyword(s@, p@, d@),
{
    match s.get(p) {
        Some(v) => trim(v),
        None => trim(d),
    }
}

pub open spec fn flex_direction_in(m: StyleMap) -> FlexDirection {
    let t = keyword(m, "flex-direction"@, "row"@);
    if t == "row-reverse"@ {
        FlexDirection::RowReverse
    } else if t == "column"@ {
        FlexDirection::Column
    } else if t == "column-reverse"@ {
        FlexDirection::ColumnReverse
    } else {
        FlexDirection::Row
    }
}

pub fn flex_direction(s: &ComputedStyle) -> (r: FlexDirection)
    ensures
        r == flex_direction_in(s@),
{
    let t = keyword_or(s, "flex-direction", "row");
    if same(t, "row-reverse") {
        FlexDirection::RowReverse
    } else if same(t, "column") {
        FlexDirection::Column
    } else if same(t, "column-reverse") {
        FlexDirection::ColumnReverse
    } else {
        FlexDirection::Row
    }
}

pub open spec fn flex_wrap_in(m: StyleMap) -> FlexWrap {
    let t = keyword(m, "flex-wrap"@, "nowrap"@);
    if t == "wrap"@ {
        FlexWrap::Wrap
    } else if t == "wrap-reverse"@ {
        FlexWrap::WrapReverse
    } else {
        FlexWrap::NoWrap
    }
}

pub fn flex_wrap(s: &ComputedStyle) -> (r: FlexWrap)
    ensures
        r == flex_wrap_in(s@),
{
    let t = keyword_or(s, "flex-wrap", "nowrap");
    if same(t, "wrap") {
        FlexWrap::Wrap
    } else if same(t, "wrap-reverse") {
        FlexWrap::WrapReverse
    } else {
        FlexWrap::NoWrap
    }
}

/// The distribution that a keyword names.
pub open spec fn justified(v: Seq<char>) -> JustifyContent {
    let t = trimmed(v);
    if t == "flex-end"@ || t == "end"@ {
        JustifyContent::FlexEnd
    } else if t == "center"@ {
        JustifyContent::Center
    } else if t == "space-between"@ {
        JustifyContent::SpaceBetween
    } else if t == "space-around"@ {
        JustifyContent::SpaceAround
    } else if t == "space-evenly"@ {
        JustifyContent::SpaceEvenly
    } else {
        JustifyContent::FlexStart
    }
}

pub fn justify_content_value(v: &str) -> (r: JustifyContent)
    ensures
        r == justified(v@),
{
    let t = trim(v);
    if same(t, "flex-end") || same(t, "end") {
        JustifyContent::FlexEnd
    } else if same(t, "center") {
        JustifyContent::Center
    } else if same(t, "space-between") {
        JustifyContent::SpaceBetween
    } else if same(t, "space-around") {
        JustifyContent::SpaceAround
    } else if same(t, "space-evenly") {
        JustifyContent::SpaceEvenly
    } else {
        JustifyContent::FlexStart
    }
}

/// A flex container's `justify-content`, `flex-start` by default.
pub fn justify_content(s: &ComputedStyle) -> (r: Option<JustifyContent>)
    ensures
        r == Some(justified(prop_or(s@, "justify-content"@, "flex-start"@))),
{
    Some(
        match s.get("justify-content") {
            Some(v) => justify_content_value(v),
            None => justify_content_value("flex-start"),
        },
    )
}

/// A grid's `justify-content`: unset, it is left to the solver, whose default
/// stretches the tracks.
pub open spec fn grid_justify_in(m: StyleMap) -> Option<JustifyContent> {
    match prop(m, "justify-content"@) {
        Some(v) => Some(justified(v)),
        None => None,
    }
}

pub fn justify_content_grid(s: &ComputedStyle) -> (r: Option<JustifyContent>)
    ensures
        r == grid_justify_in(s@),
{
    match s.get("justify-content") {
        Some(v) => Some(justify_content_value(v)),
        None => None,
    }
}

pub open spec fn align_items_in(m: StyleMap) -> AlignItems {
    let t = keyword(m, "align-items"@, "stretch"@);
    if t == "flex-start"@ || t == "start"@ {
        AlignItems::FlexStart
    } else if t == "flex-end"@ || t == "end"@ {
        AlignItems::FlexEnd
    } else if t == "center"@ {
        AlignItems::Center
    } else if t == "baseline"@ {
        AlignItems::Baseline
    } else {
        AlignItems::Stretch
    }
}

pub fn align_items(s: &ComputedStyle) -> (r: Option<AlignItems>)
    ensures
        r == Some(align_items_in(s@)),
{
    let t = keyword_or(s, "align-items", "stretch");
    Some(
        if same(t, "flex-start") || same(t, "start") {
            AlignItems::FlexStart
        } else if same(t, "flex-end") || same(t, "end") {
            AlignItems::FlexEnd
        } else if same(t, "center") {
            AlignItems::Center
        } else if same(t, "baseline") {
            AlignItems::Baseline
        } else {
            AlignItems::Stretch
        },
    )
}

/// An inline-axis alignment keyword of a grid.
pub open spec fn inline_aligned(t: Seq<char>) -> AlignItems {
    if t == "start"@ || t == "flex-start"@ || t == "left"@ {
        AlignItems::Start
    } else if t == "end"@ || t == "flex-end"@ || t == "right"@ {
        AlignItems::End
    } else if t == "center"@ {
        AlignItems::Center
    } else {
        AlignItems::Stretch
    }
}

fn inline_alignment(t: &str) -> (r: AlignItems)
    ensures
        r == inline_aligned(t@),
{
    if same(t, "start") || same(t, "flex-start") || same(t, "left") {
        AlignItems::Start
    } else if same(t, "end") || same(t, "flex-end") || same(t, "right") {
        AlignItems::End
    } else if same(t, "center") {
        AlignItems::Center
    } else {
        AlignItems::Stretch
    }
}

/// How a grid aligns its items on the inline axis, `stretch` by default.
pub fn justify_items(s: &ComputedStyle) -> (r: Option<AlignItems>)
    ensures
        r == Some(inline_aligned(keyword(s@, "justify-items"@, "stretch"@))),
{
    Some(inline_alignment(keyword_or(s, "justify-items", "stretch")))
}

/// A grid item's own inline alignment; `auto` leaves it to the container.
pub open spec fn justify_self_in(m: StyleMap) -> Option<AlignItems> {
    let t = keyword(m, "justify-self"@, "auto"@);
    if t == "auto"@ {
        None
    } else {
        Some(inline_aligned(t))
    }
}

pub fn justify_self(s: &ComputedStyle) -> (r: Option<AlignItems>)
    ensures
        r == justify_self_in(s@),
{
    let t = keyword_or(s, "justify-self", "auto");
    if same(t, "auto") {
        None
    } else {
        Some(inline_alignment(t))
    }
}

/// An item's own cross-axis alignment; `auto` leaves it to the container.
pub open spec fn align_self_in(m: StyleMap) -> Option<AlignItems> {
    let t = keyword(m, "align-self"@, "auto"@);
    if t == "auto"@ {
        None
    } else if t == "flex-start"@ || t == "start"@ {
        Some(AlignItems::FlexStart)
    } else if t == "flex-end"@ || t == "end"@ {
        Some(AlignItems::FlexEnd)
    } else if t == "center"@ {
        Some(AlignItems::Center)
    } else if t == "baseline"@ {
        Some(AlignItems::Baseline)
    } else {
        Some(AlignItems::Stretch)
    }
}

pub fn align_self(s: &ComputedStyle) -> (r: Option<AlignItems>)
    ensures
        r == align_self_in(s@),
{
    let t = keyword_or(s, "align-self", "auto");
    if same(t, "auto") {
        None
    } else if same(t, "flex-start") || same(t, "start") {
        Some(AlignItems::FlexStart)
    } else if same(t, "flex-end") || same(t, "end") {
        Some(AlignItems::FlexEnd)
    } else if same(t, "center") {
        Some(AlignItems::Center)
    } else if same(t, "baseline") {
        Some(AlignItems::Baseline)
    } else {
        Some(AlignItems::Stretch)
    }
}

// --------------------------------------------------------------------------
// sizes
// --------------------------------------------------------------------------

/// A length as the solver takes it; of a mixed one the percentage.
pub open spec fn dimension(l: LengthPct) -> Dimension {
    match l {
        LengthPct::Px(v) => Dimension::Length(v),
        LengthPct::Pct(p) => Dimension::Percent(p),
        LengthPct::Calc { pct, px } => Dimension::Percent(pct),
        LengthPct::Auto => Dimension::Auto,
    }
}

pub fn dim(l: LengthPct) -> (r: Dimension)
    ensures
        r == dimension(l),
{
    match l {
        LengthPct::Px(v) => Dimension::Length(v),
        LengthPct::Pct(p) => Dimension::Percent(p),
        LengthPct::Calc { pct, px } => Dimension::Percent(pct),
        LengthPct::Auto => Dimension::Auto,
    }
}

/// A gap in px, zero by default.
pub open spec fn gap_of(v: Option<Seq<char>>, vp: Viewport) -> i64 {
    match v {
        Some(t) => match px_of(t, DEFAULT_FONT_SIZE as int, vp) {
            Some(x) => x as i64,
            None => 0,
        },
        None => 0,
    }
}

fn gap_px(v: Option<&str>, vp: Viewport) -> (r: i64)
    ensures
        r == gap_of(text_of(v), vp),
{
    match v {
        Some(t) => match parse_px(t, DEFAULT_FONT_SIZE, vp) {
            Some(x) => x,
            None => 0,
        },
        None => 0,
    }
}

/// The gap of a flex container, on both axes.
pub fn gap_len(s: &ComputedStyle, vp: Viewport) -> (r: i64)
    ensures
        r == gap_of(prop(s@, "gap"@), vp),
{
    gap_px(s.get("gap"), vp)
}

/// The gap on one axis of a grid: its own property, else `gap`.
pub open spec fn axis_gap(m: StyleMap, axis: Seq<char>, vp: Viewport) -> i64 {
    match prop(m, axis) {
        Some(v) => gap_of(Some(v), vp),
        None => gap_of(prop(m, "gap"@), vp),
    }
}

pub fn gap_axis(s: &ComputedStyle, axis: &str, vp: Viewport) -> (r: i64)
    ensures
        r == axis_gap(s@, axis@, vp),
{
    match s.get(axis) {
        Some(v) => gap_px(Some(v), vp),
        None => gap_px(s.get("gap"), vp),
    }
}

/// Four sides as the solver takes them.
#[derive(Debug, Clone, Copy, PartialEq, Eq, Structural)]
pub struct Sides {
    pub left: Dimension,
    pub right: Dimension,
    pub top: Dimension,
    pub bottom: Dimension,
}

pub open spec fn insets(bs: BoxStyleV) -> Sides {
    Sides {
        left: dimension(bs.inset_left),
        right: dimension(bs.inset_right),
        top: dimension(bs.inset_top),
        bottom: dimension(bs.inset_bottom),
    }
}

/// The insets of an out-of-flow item; `auto` keeps it where it stands.
pub fn item_inset(bs: &BoxStyle) -> (r: Sides)
    ensures
        r == insets(bs@),
{
    Sides {
        left: dim(bs.inset_left),
        right: dim(bs.inset_right),
        top: dim(bs.inset_top),
        bottom: dim(bs.inset_bottom),
    }
}

/// The insets of an absolute item: with neither horizontal inset it stands at the
/// start.
pub open spec fn anchored_insets(bs: BoxStyleV) -> Sides {
    if bs.inset_left is Auto && bs.inset_right is Auto {
        Sides { left: Dimension::Length(0), ..insets(bs) }
    } else {
        insets(bs)
    }
}

pub fn abs_item_inset(bs: &BoxStyle) -> (r: Sides)
    ensures
        r == anchored_insets(bs@),
{
    let mut inset = item_inset(bs);
    if matches!(bs.inset_left, LengthPct::Auto) && matches!(bs.inset_right, LengthPct::Auto) {
        inset.left = Dimension::Length(0);
    }
    inset
}

// --------------------------------------------------------------------------
// the flex shorthand
// --------------------------------------------------------------------------

/// The numeric value of `p`, or `d`.
pub open spec fn number_in(m: StyleMap, p: Seq<char>, d: i64) -> i64 {
    match prop(m, p) {
        Some(v) => match value_of(trimmed(v)) {
            Some(n) => n as i64,
            None => d,
        },
        None => d,
    }
}

pub fn num(s: &ComputedStyle, p: &str, default: i64) -> (r: i64)
    ensures
        r == number_in(s@, p@, default),
{
    match s.get(p) {
        Some(v) => match parse_value(trim(v)) {
            Some(n) => n,
            None => default,
        },
        None => default,
    }
}

/// The numbers among the first `k` words.
pub open spec fn numbers_in(w: Seq<Seq<char>>, k: nat) -> Seq<i64>
    decreases k,
{
    if k == 0 || k > w.len() {
        Seq::empty()
    } else {
        let before = numbers_in(w, (k - 1) as nat);
        match value_of(w[k - 1]) {
            Some(v) => before.push(v as i64),
            None => before,
        }
    }
}

pub open spec fn nth_or_one(v: Seq<i64>, i: int) -> i64 {
    if i < v.len() {
        v[i]
    } else {
        ONE
    }
}

/// The grow and shrink factors of the `flex` shorthand.
pub open spec fn grow_shrink_in(m: StyleMap) -> (i64, i64) {
    match prop(m, "flex"@) {
        None => (0, ONE),
        Some(v) => {
            let t = trimmed(v);
            if t == "none"@ {
                (0, 0)
            } else if t == "auto"@ {
                (ONE, ONE)
            } else if t == "initial"@ {
                (0, ONE)
            } else {
                let w = words_in(t);
                let n = numbers_in(w, w.len());
                (nth_or_one(n, 0), nth_or_one(n, 1))
            }
        },
    }
}

/// The grow and shrink factors that `flex` implies: the leading numbers, one by
/// default.
pub fn flex_grow_shrink(s: &ComputedStyle) -> (r: (i64, i64))
    ensures
        r == grow_shrink_in(s@),
{
    let v = match s.get("flex") {
        Some(v) => trim(v),
        None => return (0, ONE),
    };
    if same(v, "none") {
        return (0, 0);
    }
    if same(v, "auto") {
        return (ONE, ONE);
    }
    if same(v, "initial") {
        return (0, ONE);
    }
    let w = words(v);
    let ghost ws = texts(w@);
    let mut nums: Vec<i64> = Vec::new();
    let mut k: usize = 0;
    while k < w.len()
        invariant
            k <= w@.len(),
            ws == texts(w@),
            nums@ == numbers_in(ws, k as nat),
        decreases w@.len() - k,
    {
        if let Some(x) = parse_value(w[k]) {
            nums.push(x);
        }
        k += 1;
    }
    let grow: i64 = if nums.len() > 0 {
        nums[0]
    } else {
        ONE
    };
    let shrink: i64 = if nums.len() > 1 {
        nums[1]
    } else {
        ONE
    };
    (grow, shrink)
}

/// The size that one basis token names; `auto` and unreadable ones name none.
pub open spec fn basis_of(t: Seq<char>, fs: int, vp: Viewport) -> Option<Dimension> {
    if t == "content"@ {
        Some(Dimension::Auto)
    } else {
        match px_of(t, fs, vp) {
            Some(x) => Some(Dimension::Length(x as i64)),
            None => match before_suffix(t, "%"@) {
                Some(n) => match value_of(trimmed(n)) {
                    Some(p) => Some(Dimension::Percent(p as i64)),
                    None => None,
                },
                None => None,
            },
        }
    }
}

pub fn parse_basis(b: &str, font_size: i64, vp: Viewport) -> (r: Option<Dimension>)
    ensures
        r == basis_of(b@, font_size as int, vp),
{
    if same(b, "content") {
        return Some(Dimension::Auto);
    }
    if let Some(px) = parse_px(b, font_size, vp) {
        return Some(Dimension::Length(px));
    }
    match strip_suffix(b, "%") {
        Some(n) => match parse_value(trim(n)) {
            Some(p) => Some(Dimension::Percent(p)),
            None => None,
        },
        None => None,
    }
}

/// What a token of the `flex` shorthand says of the basis.
#[derive(Debug, Clone, Copy, PartialEq, Eq, Structural)]
pub enum TokenBasis {
    /// A grow or shrink factor, or nothing readable.
    Skip,
    /// `auto`: the basis is the item's width.
    DeferToWidth,
    Basis(Dimension),
}

pub open spec fn token_says(t: Seq<char>, fs: int, vp: Viewport) -> TokenBasis {
    if t == "auto"@ {
        TokenBasis::DeferToWidth
    } else if number_of(t) is Some {
        TokenBasis::Skip
    } else {
        match basis_of(t, fs, vp) {
            Some(d) => TokenBasis::Basis(d),
            None => TokenBasis::Skip,
        }
    }
}

pub fn token_basis(tok: &str, font_size: i64, vp: Viewport) -> (r: TokenBasis)
    ensures
        r == token_says(tok@, font_size as int, vp),
{
    if same(tok, "auto") {
        return TokenBasis::DeferToWidth;
    }
    if parse_number(tok).is_some() {
        return TokenBasis::Skip;
    }
    match parse_basis(tok, font_size, vp) {
        Some(d) => TokenBasis::Basis(d),
        None => TokenBasis::Skip,
    }
}

/// What the first token that speaks of the basis says; zero where none does.
pub open spec fn first_basis(w: Seq<Seq<char>>, fs: int, vp: Viewport) -> Option<Dimension>
    decreases w.len(),
{
    if w.len() == 0 {
        Some(Dimension::Length(0))
    } else {
        match token_says(w[0], fs, vp) {
            TokenBasis::DeferToWidth => None,
            TokenBasis::Skip => first_basis(w.skip(1), fs, vp),
            TokenBasis::Basis(d) => Some(d),
        }
    }
}

/// The basis in the `flex` shorthand; numbers alone imply zero.
pub open spec fn shorthand_basis(m: StyleMap, fs: int, vp: Viewport) -> Option<Dimension> {
    match prop(m, "flex"@) {
        Some(v) => {
            let t = trimmed(v);
            let w = words_in(t);
            if t == "none"@ || t == "initial"@ {
                Some(Dimension::Auto)
            } else if w.len() == 0 {
                None
            } else {
                first_basis(w, fs, vp)
            }
        },
        None => None,
    }
}

pub fn flex_shorthand_basis(s: &ComputedStyle, font_size: i64, vp: Viewport) -> (r: Option<Dimension>)
    ensures
        r == shorthand_basis(s@, font_size as int, vp),
{
    let v = match s.get("flex") {
        Some(v) => trim(v),
        None => return None,
    };
    if same(v, "none") || same(v, "initial") {
        return Some(Dimension::Auto);
    }
    let w = words(v);
    let ghost ws = texts(w@);
    if w.len() == 0 {
        return None;
    }
    let mut k: usize = 0;
    proof {
        assert(ws.skip(0) =~= ws);
    }
    while k < w.len()
        invariant
            k <= w@.len(),
            ws == texts(w@),
            ws == words_in(v@),
            ws.len() > 0,
            prop(s@, "flex"@) is Some,
            v@ == trimmed(prop(s@, "flex"@)->0),
            v@ != "none"@ && v@ != "initial"@,
            first_basis(ws, font_size as int, vp) == first_basis(
                ws.skip(k as int),
                font_size as int,
                vp,
            ),
        decreases w@.len() - k,
    {
        proof {
            assert(ws.skip(k as int)[0] == w@[k as int]@);
            assert(ws.skip(k as int).skip(1) =~= ws.skip(k as int + 1));
        }
        match token_basis(w[k], font_size, vp) {
            TokenBasis::DeferToWidth => {
                return None;
            },
            TokenBasis::Skip => {},
            TokenBasis::Basis(d) => {
                return Some(d);
            },
        }
        k += 1;
    }
    Some(Dimension::Length(0))
}

/// An item's basis: `flex-basis`, else the shorthand's, else its width.
pub open spec fn item_basis_in(m: StyleMap, width: LengthPct, fs: int, vp: Viewport) -> Dimension {
    let t = keyword(m, "flex-basis"@, "auto"@);
    if t == "auto"@ {
        match shorthand_basis(m, fs, vp) {
            Some(d) => d,
            None => dimension(width),
        }
    } else {
        match basis_of(t, fs, vp) {
            Some(d) => d,
            None => dimension(width),
        }
    }
}

pub fn item_basis(s: &ComputedStyle, width: LengthPct, font_size: i64, vp: Viewport) -> (r: Dimension)
    ensures
        r == item_basis_in(s@, width, font_size as int, vp),
{
    let t = keyword_or(s, "flex-basis", "auto");
    if same(t, "auto") {
        match flex_shorthand_basis(s, font_size, vp) {
            Some(d) => d,
            None => dim(width),
        }
    } else {
        match parse_basis(t, font_size, vp) {
            Some(d) => d,
            None => dim(width),
        }
    }
}

// --------------------------------------------------------------------------
// container and item styles
// --------------------------------------------------------------------------

/// What a flex container asks of the solver.
#[derive(Debug, Clone, Copy, PartialEq, Eq, Structural)]
pub struct FlexContainer {
    pub direction: FlexDirection,
    pub wrap: FlexWrap,
    pub justify_content: Option<JustifyContent>,
    pub align_items: Option<AlignItems>,
    pub gap: i64,
    pub width: Dimension,
    pub height: Dimension,
    pub min_width: Dimension,
    pub min_height: Dimension,
    pub max_width: Dimension,
    pub max_height: Dimension,
}

/// The style of a flex container of content width `cw`; an `auto` height becomes
/// a definite one that was handed down.
pub open spec fn container_in(m: StyleMap, cw: i64, fs: i64, cb_h: i64, vp: Viewport) -> FlexContainer {
    let bs = box_style_in(
        m,
        ResolveCtx { parent_font_size: fs, cb_width: cw, viewport: vp },
    );
    FlexContainer {
        direction: flex_direction_in(m),
        wrap: flex_wrap_in(m),
        justify_content: Some(justified(prop_or(m, "justify-content"@, "flex-start"@))),
        align_items: Some(align_items_in(m)),
        gap: gap_of(prop(m, "gap"@), vp),
        width: Dimension::Length(cw),
        height: if bs.height is Auto && cb_h > 0 {
            Dimension::Length(cb_h)
        } else {
            dimension(bs.height)
        },
        min_width: dimension(bs.min_width),
        min_height: dimension(bs.min_height),
        max_width: dimension(bs.max_width),
        max_height: dimension(bs.max_height),
    }
}

pub fn container_style(style: &ComputedStyle, cw: i64, fs: i64, cb_h: i64, vp: Viewport) -> (r:
    FlexContainer)
    ensures
        r == container_in(style@, cw, fs, cb_h, vp),
{
    let bs = resolve_box_style(
        style,
        ResolveCtx { parent_font_size: fs, cb_width: cw, viewport: vp },
    );
    let height: Dimension = if matches!(bs.height, LengthPct::Auto) && cb_h > 0 {
        Dimension::Length(cb_h)
    } else {
        dim(bs.height)
    };
    FlexContainer {
        direction: flex_direction(style),
        wrap: flex_wrap(style),
        justify_content: justify_content(style),
        align_items: align_items(style),
        gap: gap_len(style, vp),
        width: Dimension::Length(cw),
        height,
        min_width: dim(bs.min_width),
        min_height: dim(bs.min_height),
        max_width: dim(bs.max_width),
        max_height: dim(bs.max_height),
    }
}

/// What a flex or grid item asks of the solver.
#[derive(Debug, Clone, Copy, PartialEq, Eq, Structural)]
pub struct ItemStyle {
    /// Out of flow: placed by its insets.
    pub absolute: bool,
    pub inset: Sides,
    pub grow: i64,
    pub shrink: i64,
    pub basis: Dimension,
    pub align_self: Option<AlignItems>,
    pub margin: Edges,
    pub width: Dimension,
    pub height: Dimension,
    pub min_width: Dimension,
    pub min_height: Dimension,
    pub max_width: Dimension,
    pub max_height: Dimension,
}

pub open spec fn no_insets() -> Sides {
    Sides {
        left: Dimension::Auto,
        right: Dimension::Auto,
        top: Dimension::Auto,
        bottom: Dimension::Auto,
    }
}

/// The style of an item: an out-of-flow one keeps its size and insets, another
/// flexes from its basis.
pub open spec fn item_in(m: StyleMap, fs: i64, vp: Viewport) -> ItemStyle {
    let bs = box_style_in(m, ResolveCtx { parent_font_size: fs, cb_width: 0, viewport: vp });
    if bs.position is Absolute || bs.position is Fixed {
        ItemStyle {
            absolute: true,
            inset: anchored_insets(bs),
            grow: 0,
            shrink: ONE,
            basis: Dimension::Auto,
            align_self: None,
            margin: bs.margin,
            width: dimension(bs.width),
            height: dimension(bs.height),
            min_width: Dimension::Auto,
            min_height: Dimension::Auto,
            max_width: Dimension::Auto,
            max_height: Dimension::Auto,
        }
    } else {
        ItemStyle {
            absolute: false,
            inset: no_insets(),
            grow: number_in(m, "flex-grow"@, grow_shrink_in(m).0),
            shrink: number_in(m, "flex-shrink"@, grow_shrink_in(m).1),
            basis: item_basis_in(m, bs.width, fs as int, vp),
            align_self: align_self_in(m),
            margin: bs.margin,
            width: Dimension::Auto,
            height: dimension(bs.height),
            min_width: dimension(bs.min_width),
            min_height: dimension(bs.min_height),
            max_width: dimension(bs.max_width),
            max_height: dimension(bs.max_height),
        }
    }
}

pub fn item_style(style: &ComputedStyle, fs: i64, vp: Viewport) -> (r: ItemStyle)
    ensures
        r == item_in(style@, fs, vp),
{
    let bs = resolve_box_style(
        style,
        ResolveCtx { parent_font_size: fs, cb_width: 0, viewport: vp },
    );
    if bs.position.is_out_of_flow() {
        return ItemStyle {
            absolute: true,
            inset: abs_item_inset(&bs),
            grow: 0,
            shrink: ONE,
            basis: Dimension::Auto,
            align_self: None,
            margin: bs.margin,
            width: dim(bs.width),
            height: dim(bs.height),
            min_width: Dimension::Auto,
            min_height: Dimension::Auto,
            max_width: Dimension::Auto,
            max_height: Dimension::Auto,
        };
    }
    let (grow, shrink) = flex_grow_shrink(style);
    ItemStyle {
        absolute: false,
        inset: Sides {
            left: Dimension::Auto,
            right: Dimension::Auto,
            top: Dimension::Auto,
            bottom: Dimension::Auto,
        },
        grow: num(style, "flex-grow", grow),
        shrink: num(style, "flex-shrink", shrink),
        basis: item_basis(style, bs.width, fs, vp),
        align_self: align_self(style),
        margin: bs.margin,
        width: Dimension::Auto,
        height: dim(bs.height),
        min_width: dim(bs.min_width),
        min_height: dim(bs.min_height),
        max_width: dim(bs.max_width),
        max_height: dim(bs.max_height),
    }
}

} // verus!
