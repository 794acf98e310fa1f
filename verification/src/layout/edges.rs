//! Margins, padding and borders: shorthands and longhands.

use vstd::prelude::*;
use vstd::string::*;

use crate::layout::color::{color_of, parse_color, Rgba};
use crate::layout::length::{length_pct, parse_length_pct, parse_px, px_of, Edges, LengthPct, Viewport};
use crate::number::{round_div, whole, ONE};
use crate::scan::{same, split, split_at, texts, trim, trimmed, words, words_in};
use crate::style::{prop, ComputedStyle, StyleMap};

verus! {

/// One border side: its width in whole px, and its color.
#[derive(Debug, Clone, Copy, PartialEq, Eq, Structural)]
pub struct BorderSide {
    pub width: u16,
    pub color: Option<Rgba>,
}

impl Default for BorderSide {
    fn default() -> (r: BorderSide)
        ensures
            r == (BorderSide { width: 0, color: None }),
    {
        BorderSide { width: 0, color: None }
    }
}

/// The four border sides.
#[derive(Debug, Clone, Copy, PartialEq, Eq, Structural)]
pub struct BorderEdges {
    pub top: BorderSide,
    pub right: BorderSide,
    pub bottom: BorderSide,
    pub left: BorderSide,
}

impl Default for BorderEdges {
    fn default() -> (r: BorderEdges)
        ensures
            r.top == (BorderSide { width: 0, color: None }),
            r.right == r.top && r.bottom == r.top && r.left == r.top,
    {
        let s = BorderSide { width: 0, color: None };
        BorderEdges { top: s, right: s, bottom: s, left: s }
    }
}

impl BorderEdges {
    /// Whether the border paints something.
    pub open spec fn paints(self) -> bool {
        self.top.width > 0 || self.right.width > 0 || self.bottom.width > 0 || self.left.width > 0
    }

    /// Whether any side has a width, so that the border paints something.
    pub fn any_visible(&self) -> (r: bool)
        ensures
            r == self.paints(),
            r == (self.top.width > 0 || self.right.width > 0 || self.bottom.width > 0
                || self.left.width > 0),
    {
        self.top.width > 0 || self.right.width > 0 || self.bottom.width > 0 || self.left.width > 0
    }

    /// The border widths as plain edges.
    pub open spec fn widths_of(self) -> Edges {
        Edges {
            top: (self.top.width * ONE) as i64,
            right: (self.right.width * ONE) as i64,
            bottom: (self.bottom.width * ONE) as i64,
            left: (self.left.width * ONE) as i64,
        }
    }

    /// Border widths as plain px [`Edges`].
    pub fn widths(&self) -> (r: Edges)
        ensures
            r == self.widths_of(),
    {
        Edges {
            top: self.top.width as i64 * ONE,
            right: self.right.width as i64 * ONE,
            bottom: self.bottom.width as i64 * ONE,
            left: self.left.width as i64 * ONE,
        }
    }
}

// --------------------------------------------------------------------------
// margin and padding
// --------------------------------------------------------------------------

/// One edge value in px; `auto` and unreadable values are zero.
pub open spec fn edge_of(tok: Seq<char>, fs: int, basis: int, vp: Viewport) -> i64 {
    match length_pct(tok, fs, vp) {
        Some(l) => match l.length(basis) {
            Some(v) => v as i64,
            None => 0,
        },
        None => 0,
    }
}

pub fn edge_px(token: &str, font_size: i64, basis: i64, vp: Viewport) -> (r: i64)
    ensures
        r == edge_of(token@, font_size as int, basis as int, vp),
{
    match parse_length_pct(token, font_size, vp) {
        Some(l) => match l.resolve(basis) {
            Some(v) => v,
            None => 0,
        },
        None => 0,
    }
}

/// One to four values spread over the edges; any other number gives none.
pub open spec fn spread_edges(v: Seq<i64>) -> Edges {
    if v.len() == 1 {
        Edges::all(v[0])
    } else if v.len() == 2 {
        Edges { top: v[0], right: v[1], bottom: v[0], left: v[1] }
    } else if v.len() == 3 {
        Edges { top: v[0], right: v[1], bottom: v[2], left: v[1] }
    } else if v.len() == 4 {
        Edges { top: v[0], right: v[1], bottom: v[2], left: v[3] }
    } else {
        Edges::all(0)
    }
}

pub fn edges_from_slice(v: &Vec<i64>) -> (r: Edges)
    ensures
        r == spread_edges(v@),
{
    match v.len() {
        1 => Edges::all(v[0]),
        2 => Edges { top: v[0], right: v[1], bottom: v[0], left: v[1] },
        3 => Edges { top: v[0], right: v[1], bottom: v[2], left: v[1] },
        4 => Edges { top: v[0], right: v[1], bottom: v[2], left: v[3] },
        _ => Edges::all(0),
    }
}

/// The values of a shorthand's words.
pub open spec fn edge_values(w: Seq<Seq<char>>, fs: int, basis: int, vp: Viewport) -> Seq<i64> {
    Seq::new(w.len(), |i: int| edge_of(w[i], fs, basis, vp))
}

pub fn parse_edge_shorthand(v: &str, font_size: i64, basis: i64, vp: Viewport) -> (r: Edges)
    ensures
        r == spread_edges(edge_values(words_in(v@), font_size as int, basis as int, vp)),
{
    let w = words(v);
    let ghost ws = texts(w@);
    let mut vals: Vec<i64> = Vec::new();
    let mut i: usize = 0;
    while i < w.len()
        invariant
            i <= w@.len(),
            ws == texts(w@),
            vals@.len() == i,
            forall|j: int|
                0 <= j < i ==> #[trigger] vals@[j] == edge_of(
                    ws[j],
                    font_size as int,
                    basis as int,
                    vp,
                ),
        decreases w@.len() - i,
    {
        vals.push(edge_px(w[i], font_size, basis, vp));
        i += 1;
    }
    proof {
        assert(vals@ =~= edge_values(ws, font_size as int, basis as int, vp));
    }
    edges_from_slice(&vals)
}

/// The longhand `p`, or `d` where it is unset.
pub open spec fn side_of(m: StyleMap, p: Seq<char>, d: i64, fs: int, basis: int, vp: Viewport) -> i64 {
    match prop(m, p) {
        Some(v) => edge_of(v, fs, basis, vp),
        None => d,
    }
}

fn side_or(s: &ComputedStyle, prefix: &str, side: &str, d: i64, font_size: i64, basis: i64, vp: Viewport) -> (r:
    i64)
    ensures
        r == side_of(s@, prefix@ + side@, d, font_size as int, basis as int, vp),
{
    let key = String::from_str(prefix).concat(side);
    match s.get(key.as_str()) {
        Some(v) => edge_px(v, font_size, basis, vp),
        None => d,
    }
}

/// The edges of `margin` or `padding`: the shorthand, then the flow-relative
/// longhands, then the physical ones.
pub open spec fn edges_in(m: StyleMap, p: Seq<char>, fs: int, basis: int, vp: Viewport) -> Edges {
    let e = match prop(m, p) {
        Some(v) => spread_edges(edge_values(words_in(v), fs, basis, vp)),
        None => Edges::all(0),
    };
    let top = side_of(m, p + "-block-start"@, e.top, fs, basis, vp);
    let right = side_of(m, p + "-inline-end"@, e.right, fs, basis, vp);
    let bottom = side_of(m, p + "-block-end"@, e.bottom, fs, basis, vp);
    let left = side_of(m, p + "-inline-start"@, e.left, fs, basis, vp);
    Edges {
        top: side_of(m, p + "-top"@, top, fs, basis, vp),
        right: side_of(m, p + "-right"@, right, fs, basis, vp),
        bottom: side_of(m, p + "-bottom"@, bottom, fs, basis, vp),
        left: side_of(m, p + "-left"@, left, fs, basis, vp),
    }
}

/// Resolve `margin` or `padding`. The flow-relative longhands go by
/// left-to-right, top-to-bottom text.
pub fn resolve_edges(s: &ComputedStyle, prefix: &str, font_size: i64, basis: i64, vp: Viewport) -> (r:
    Edges)
    ensures
        r == edges_in(s@, prefix@, font_size as int, basis as int, vp),
{
    let e: Edges = match s.get(prefix) {
        Some(v) => parse_edge_shorthand(v, font_size, basis, vp),
        None => Edges::all(0),
    };
    let top: i64 = side_or(s, prefix, "-block-start", e.top, font_size, basis, vp);
    let right: i64 = side_or(s, prefix, "-inline-end", e.right, font_size, basis, vp);
    let bottom: i64 = side_or(s, prefix, "-block-end", e.bottom, font_size, basis, vp);
    let left: i64 = side_or(s, prefix, "-inline-start", e.left, font_size, basis, vp);
    Edges {
        top: side_or(s, prefix, "-top", top, font_size, basis, vp),
        right: side_or(s, prefix, "-right", right, font_size, basis, vp),
        bottom: side_or(s, prefix, "-bottom", bottom, font_size, basis, vp),
        left: side_or(s, prefix, "-left", left, font_size, basis, vp),
    }
}

// --------------------------------------------------------------------------
// border radius
// --------------------------------------------------------------------------

/// The first piece that is not blank.
pub open spec fn first_nonblank(p: Seq<Seq<char>>) -> Option<Seq<char>>
    decreases p.len(),
{
    if p.len() == 0 {
        None
    } else if trimmed(p[0]).len() > 0 {
        Some(trimmed(p[0]))
    } else {
        first_nonblank(p.skip(1))
    }
}

/// The first radius of `border-radius`, zero where there is none.
pub open spec fn border_radius_in(m: StyleMap, fs: int, vp: Viewport) -> LengthPct {
    match prop(m, "border-radius"@) {
        Some(v) => match first_nonblank(split_at(v, '/', ' ')) {
            Some(t) => match length_pct(t, fs, vp) {
                Some(l) => l,
                None => LengthPct::Px(0),
            },
            None => LengthPct::Px(0),
        },
        None => LengthPct::Px(0),
    }
}

/// `border-radius`: elliptical and per-corner values fall to the first radius.
pub fn border_radius_of(s: &ComputedStyle, font_size: i64, vp: Viewport) -> (r: LengthPct)
    ensures
        r == border_radius_in(s@, font_size as int, vp),
{
    let v = match s.get("border-radius") {
        Some(v) => v,
        None => return LengthPct::Px(0),
    };
    let parts = split(v, '/', ' ');
    let ghost ps = texts(parts@);
    let mut i: usize = 0;
    proof {
        assert(ps.skip(0) =~= ps);
    }
    while i < parts.len()
        invariant
            i <= parts@.len(),
            ps == texts(parts@),
            prop(s@, "border-radius"@) == Some(v@),
            ps == split_at(v@, '/', ' '),
            first_nonblank(ps) == first_nonblank(ps.skip(i as int)),
        decreases parts@.len() - i,
    {
        let t = trim(parts[i]);
        proof {
            assert(ps.skip(i as int)[0] == parts@[i as int]@);
            assert(ps.skip(i as int).skip(1) =~= ps.skip(i as int + 1));
        }
        if !t.is_empty() {
            return match parse_length_pct(t, font_size, vp) {
                Some(l) => l,
                None => LengthPct::Px(0),
            };
        }
        i += 1;
    }
    LengthPct::Px(0)
}

// --------------------------------------------------------------------------
// borders
// --------------------------------------------------------------------------

/// `v` as whole px within an unsigned 16-bit number.
pub open spec fn px16(v: int) -> u16 {
    let r = round_div(v, ONE as int);
    if r < 0 {
        0
    } else if r > 65535 {
        65535
    } else {
        r as u16
    }
}

/// A border width: a keyword or a length.
pub open spec fn border_width(tok: Seq<char>, fs: int, vp: Viewport) -> Option<u16> {
    if tok == "thin"@ {
        Some(1)
    } else if tok == "medium"@ {
        Some(3)
    } else if tok == "thick"@ {
        Some(5)
    } else if tok == "none"@ {
        Some(0)
    } else {
        match px_of(tok, fs, vp) {
            Some(v) => Some(px16(v)),
            None => None,
        }
    }
}

pub fn border_width_token(token: &str, font_size: i64, vp: Viewport) -> (r: Option<u16>)
    ensures
        r == border_width(token@, font_size as int, vp),
{
    if same(token, "thin") {
        Some(1)
    } else if same(token, "medium") {
        Some(3)
    } else if same(token, "thick") {
        Some(5)
    } else if same(token, "none") {
        Some(0)
    } else {
        match parse_px(token, font_size, vp) {
            Some(v) => {
                let w: i64 = whole(v);
                Some(
                    if w < 0 {
                        0
                    } else if w > 65535 {
                        65535
                    } else {
                        w as u16
                    },
                )
            },
            None => None,
        }
    }
}

/// A border side after one more shorthand token.
pub open spec fn border_step(b: BorderSide, tok: Seq<char>, fs: int, vp: Viewport) -> BorderSide {
    match border_width(tok, fs, vp) {
        Some(w) => BorderSide { width: w, ..b },
        None => match color_of(tok) {
            Some(c) => BorderSide { color: Some(c), ..b },
            None => b,
        },
    }
}

/// A border side after the first `k` shorthand tokens.
pub open spec fn border_fold(toks: Seq<Seq<char>>, fs: int, vp: Viewport, k: nat) -> BorderSide
    decreases k,
{
    if k == 0 {
        BorderSide { width: 0, color: None }
    } else {
        border_step(border_fold(toks, fs, vp, (k - 1) as nat), toks[k - 1], fs, vp)
    }
}

/// The side that a border shorthand writes.
pub open spec fn border_shorthand(v: Seq<char>, fs: int, vp: Viewport) -> BorderSide {
    let w = words_in(v);
    border_fold(w, fs, vp, w.len())
}

pub fn parse_border_shorthand(v: &str, font_size: i64, vp: Viewport) -> (r: BorderSide)
    ensures
        r == border_shorthand(v@, font_size as int, vp),
{
    let w = words(v);
    let ghost ws = texts(w@);
    let mut side = BorderSide { width: 0, color: None };
    let mut k: usize = 0;
    while k < w.len()
        invariant
            k <= w@.len(),
            ws == texts(w@),
            side == border_fold(ws, font_size as int, vp, k as nat),
        decreases w@.len() - k,
    {
        if let Some(x) = border_width_token(w[k], font_size, vp) {
            side.width = x;
        } else if let Some(c) = parse_color(w[k]) {
            side.color = Some(c);
        }
        k += 1;
    }
    side
}

/// The color that the property `p` names, else `d`.
pub open spec fn color_in(m: StyleMap, p: Seq<char>, d: Option<Rgba>) -> Option<Rgba> {
    match prop(m, p) {
        Some(v) => match color_of(v) {
            Some(c) => Some(c),
            None => d,
        },
        None => d,
    }
}

/// The border width that the property `p` names, else `d`.
pub open spec fn width_in(m: StyleMap, p: Seq<char>, d: u16, fs: int, vp: Viewport) -> u16 {
    match prop(m, p) {
        Some(v) => match border_width(v, fs, vp) {
            Some(w) => w,
            None => d,
        },
        None => d,
    }
}

/// A side after the longhands: those of all sides first, then its own.
pub open spec fn border_longhands(b: BorderSide, m: StyleMap, name: Seq<char>, fs: int, vp: Viewport) -> BorderSide {
    BorderSide {
        width: width_in(
            m,
            "border-"@ + name + "-width"@,
            width_in(m, "border-width"@, b.width, fs, vp),
            fs,
            vp,
        ),
        color: color_in(
            m,
            "border-"@ + name + "-color"@,
            color_in(m, "border-color"@, b.color),
        ),
    }
}

fn color_prop(s: &ComputedStyle, p: &str, d: Option<Rgba>) -> (r: Option<Rgba>)
    ensures
        r == color_in(s@, p@, d),
{
    match s.get(p) {
        Some(v) => match parse_color(v) {
            Some(c) => Some(c),
            None => d,
        },
        None => d,
    }
}

fn width_prop(s: &ComputedStyle, p: &str, d: u16, font_size: i64, vp: Viewport) -> (r: u16)
    ensures
        r == width_in(s@, p@, d, font_size as int, vp),
{
    match s.get(p) {
        Some(v) => match border_width_token(v, font_size, vp) {
            Some(w) => w,
            None => d,
        },
        None => d,
    }
}

pub fn apply_border_longhands(b: &mut BorderSide, s: &ComputedStyle, name: &str, font_size: i64, vp: Viewport)
    ensures
        *final(b) == border_longhands(*old(b), s@, name@, font_size as int, vp),
{
    b.color = color_prop(s, "border-color", b.color);
    b.width = width_prop(s, "border-width", b.width, font_size, vp);
    let side = String::from_str("border-").concat(name);
    let width_key = side.clone().concat("-width");
    let color_key = side.concat("-color");
    b.width = width_prop(s, width_key.as_str(), b.width, font_size, vp);
    b.color = color_prop(s, color_key.as_str(), b.color);
}

/// One border side of a style: the side's own shorthand, else `border`, then the
/// longhands.
pub open spec fn border_side_in(m: StyleMap, name: Seq<char>, fs: int, vp: Viewport) -> BorderSide {
    let base = match prop(m, "border-"@ + name) {
        Some(v) => border_shorthand(v, fs, vp),
        None => match prop(m, "border"@) {
            Some(v) => border_shorthand(v, fs, vp),
            None => BorderSide { width: 0, color: None },
        },
    };
    border_longhands(base, m, name, fs, vp)
}

pub fn resolve_border_side(s: &ComputedStyle, name: &str, font_size: i64, vp: Viewport) -> (r: BorderSide)
    ensures
        r == border_side_in(s@, name@, font_size as int, vp),
{
    let key = String::from_str("border-").concat(name);
    let mut b = match s.get(key.as_str()) {
        Some(v) => parse_border_shorthand(v, font_size, vp),
        None => match s.get("border") {
            Some(v) => parse_border_shorthand(v, font_size, vp),
            None => BorderSide { width: 0, color: None },
        },
    };
    apply_border_longhands(&mut b, s, name, font_size, vp);
    b
}

/// The four border sides of a style.
pub open spec fn borders_in(m: StyleMap, fs: int, vp: Viewport) -> BorderEdges {
    BorderEdges {
        top: border_side_in(m, "top"@, fs, vp),
        right: border_side_in(m, "right"@, fs, vp),
        bottom: border_side_in(m, "bottom"@, fs, vp),
        left: border_side_in(m, "left"@, fs, vp),
    }
}

pub fn resolve_borders(s: &ComputedStyle, font_size: i64, vp: Viewport) -> (r: BorderEdges)
    ensures
        r == borders_in(s@, font_size as int, vp),
{
    BorderEdges {
        top: resolve_border_side(s, "top", font_size, vp),
        right: resolve_border_side(s, "right", font_size, vp),
        bottom: resolve_border_side(s, "bottom", font_size, vp),
        left: resolve_border_side(s, "left", font_size, vp),
    }
}

} // verus!
