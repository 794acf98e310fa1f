//! What the sizes, fonts, colors, shadows, transforms and gradients of a style come to.

use vstd::prelude::*;
use vstd::string::*;

use crate::layout::color::{color_of, Rgba};
use crate::layout::gradient::{
    direction, gradient_in, gradient_of_layers, next_known, pinned, pinned_all, prev_known,
    side_angle, spread, stop_of, stop_pos, stops_of,
};
use crate::layout::length::{length_pct, px_of, raw_length, LengthPct, RawLength, Viewport};
use crate::layout::shadow::{px32, shadow_fold, shadow_of_parts, ShadowPartsV};
use crate::layout::tokens::{comma_layers, comma_pieces, nonblank, value_tokens};
use crate::layout::transform::{
    AngleTrig, FnCall, Linear, LinearStep, TransformV, Trig, angle_arg, angle_of, apply_call,
    calls_in, fold_calls, identity, len_arg, linear_fold, num_arg, product, skip_seps, step_linear,
    trig_at, trigs_at,
};
use crate::layout::value::{
    aspect_ratio_in, box_style_in, family_names, first_color, font_families_in, origin_word,
    transform_origin_in, unquote_back, unquote_front, unquoted, ResolveCtx,
};
use crate::layout::valuelaws::{lemma_fields, lemma_trimmed_is, says, unset};
use crate::number::{clip, dot, value_of, LIMIT};
use crate::readlaws::{
    is_closed, law_parentheses_match, law_prefixes_and_suffixes, law_rounding, law_splitting,
};
use crate::scan::{
    before_suffix, index_of, is_ascii_space, lemma_run_is, lower, occurs, split_at, starts,
    trimmed, words_in,
};
use crate::style::StyleMap;
use crate::layout::edges::border_radius_in;

verus! {

// --------------------------------------------------------------------------
// sizes and fonts
// --------------------------------------------------------------------------

/// Each size and inset is the length that its own property writes, at the font size of the
/// box; unset, a minimum is zero and the others are `auto`.
pub proof fn law_sizes_are_read(m: StyleMap, ctx: ResolveCtx)
    ensures
        ({
            let s = box_style_in(m, ctx);
            let (fs, vp) = (s.font_size as int, ctx.viewport);
            &&& m.contains_key("width"@) && length_pct(m["width"@], fs, vp) is Some ==> Some(s.width) == length_pct(m["width"@], fs, vp)
            &&& unset(m, "width"@) ==> s.width == LengthPct::Auto
            &&& m.contains_key("height"@) && length_pct(m["height"@], fs, vp) is Some ==> Some(s.height) == length_pct(m["height"@], fs, vp)
            &&& unset(m, "height"@) ==> s.height == LengthPct::Auto
            &&& m.contains_key("min-width"@) && length_pct(m["min-width"@], fs, vp) is Some ==> Some(s.min_width) == length_pct(m["min-width"@], fs, vp)
            &&& unset(m, "min-width"@) ==> s.min_width == LengthPct::Px(0)
            &&& m.contains_key("max-width"@) && length_pct(m["max-width"@], fs, vp) is Some ==> Some(s.max_width) == length_pct(m["max-width"@], fs, vp)
            &&& unset(m, "max-width"@) ==> s.max_width == LengthPct::Auto
            &&& m.contains_key("min-height"@) && length_pct(m["min-height"@], fs, vp) is Some ==> Some(s.min_height) == length_pct(m["min-height"@], fs, vp)
            &&& unset(m, "min-height"@) ==> s.min_height == LengthPct::Px(0)
            &&& m.contains_key("max-height"@) && length_pct(m["max-height"@], fs, vp) is Some ==> Some(s.max_height) == length_pct(m["max-height"@], fs, vp)
            &&& unset(m, "max-height"@) ==> s.max_height == LengthPct::Auto
            &&& m.contains_key("top"@) && length_pct(m["top"@], fs, vp) is Some ==> Some(s.inset_top) == length_pct(m["top"@], fs, vp)
            &&& unset(m, "top"@) ==> s.inset_top == LengthPct::Auto
            &&& m.contains_key("right"@) && length_pct(m["right"@], fs, vp) is Some ==> Some(s.inset_right) == length_pct(m["right"@], fs, vp)
            &&& unset(m, "right"@) ==> s.inset_right == LengthPct::Auto
            &&& m.contains_key("bottom"@) && length_pct(m["bottom"@], fs, vp) is Some ==> Some(s.inset_bottom) == length_pct(m["bottom"@], fs, vp)
            &&& unset(m, "bottom"@) ==> s.inset_bottom == LengthPct::Auto
            &&& m.contains_key("left"@) && length_pct(m["left"@], fs, vp) is Some ==> Some(s.inset_left) == length_pct(m["left"@], fs, vp)
            &&& unset(m, "left"@) ==> s.inset_left == LengthPct::Auto
        }),
{
    lemma_fields(m, ctx);
}

/// A font size is its length; in `em` and percentages it goes by the parent's, in `rem` by
/// 16 px; unset or unreadable it is the parent's.
pub proof fn law_font_size(m: StyleMap, ctx: ResolveCtx)
    requires
        0 <= ctx.parent_font_size <= 1_000_000_000,
    ensures
        unset(m, "font-size"@) ==> box_style_in(m, ctx).font_size == ctx.parent_font_size,
        m.contains_key("font-size"@) ==> {
            let fs = box_style_in(m, ctx).font_size as int;
            match raw_length(m["font-size"@], ctx.viewport) {
                None => fs == ctx.parent_font_size,
                Some(RawLength::Abs(v)) => fs == v,
                Some(RawLength::Em(v)) => -1_000_000_000 <= v <= 1_000_000_000 ==> -1_000_000 <= 2 * (
                fs * 1_000_000 - v * ctx.parent_font_size) <= 1_000_000,
                Some(RawLength::Pct(p)) => -1_000_000_000 <= p <= 1_000_000_000 ==> -100_000_000 <= 2
                    * (fs * 100_000_000 - p * ctx.parent_font_size) <= 100_000_000,
                Some(RawLength::Rem(v)) => -1_000_000_000 <= v <= 1_000_000_000 ==> fs == 16 * v,
            }
        },
{
    lemma_fields(m, ctx);
    if m.contains_key("font-size"@) {
        let p = ctx.parent_font_size as int;
        match raw_length(m["font-size"@], ctx.viewport) {
            Some(RawLength::Em(v)) => {
                if -1_000_000_000 <= v <= 1_000_000_000 {
                    lemma_small_product(v as int, p);
                    law_rounding(v * p, 1_000_000);
                }
            },
            Some(RawLength::Pct(v)) => {
                if -1_000_000_000 <= v <= 1_000_000_000 {
                    lemma_small_product(v as int, p);
                    law_rounding(v * p, 100_000_000);
                }
            },
            Some(RawLength::Rem(v)) => {
                law_rounding(v * 16_000_000, 1_000_000);
            },
            _ => {},
        }
    }
}

proof fn lemma_small_product(v: int, p: int)
    requires
        -1_000_000_000 <= v <= 1_000_000_000,
        0 <= p <= 1_000_000_000,
    ensures
        -1_000_000_000_000_000_000 <= v * p <= 1_000_000_000_000_000_000,
{
    assert(-1_000_000_000_000_000_000 <= v * p <= 1_000_000_000_000_000_000) by (nonlinear_arith)
        requires
            -1_000_000_000 <= v <= 1_000_000_000,
            0 <= p <= 1_000_000_000,
    ;
}

/// A line height is so many font sizes where it is a bare number, else its length;
/// `normal` and an unset one leave it to the font.
pub proof fn law_line_height(m: StyleMap, ctx: ResolveCtx)
    requires
        0 <= box_style_in(m, ctx).font_size <= 1_000_000_000,
    ensures
        unset(m, "line-height"@) || says(m, "line-height"@, "normal"@) ==> box_style_in(
            m,
            ctx,
        ).line_height is None,
        m.contains_key("line-height"@) && lower(trimmed(m["line-height"@])) != lower("normal"@) ==> {
            let s = box_style_in(m, ctx);
            let t = trimmed(m["line-height"@]);
            &&& value_of(t) matches Some(n) ==> (-1_000_000_000 <= n <= 1_000_000_000 ==> (
            s.line_height matches Some(x) && -1_000_000 <= 2 * (x * 1_000_000 - n * s.font_size)
                <= 1_000_000))
            &&& value_of(t) is None ==> (px_of(t, s.font_size as int, ctx.viewport) matches Some(x)
                ==> (-LIMIT <= x <= LIMIT ==> s.line_height == Some(x as i64)))
            &&& value_of(t) is None && px_of(t, s.font_size as int, ctx.viewport) is None
                ==> s.line_height is None
        },
{
    lemma_fields(m, ctx);
    if m.contains_key("line-height"@) {
        if let Some(n) = value_of(trimmed(m["line-height"@])) {
            let fs = box_style_in(m, ctx).font_size as int;
            if -1_000_000_000 <= n <= 1_000_000_000 {
                lemma_small_product(n, fs);
                law_rounding(n * fs, 1_000_000);
            }
        }
    }
}

/// Letters are spaced by the length that says so, and not where none does.
pub proof fn law_letter_spacing(m: StyleMap, ctx: ResolveCtx)
    ensures
        unset(m, "letter-spacing"@) ==> box_style_in(m, ctx).letter_spacing == 0,
        m.contains_key("letter-spacing"@) ==> {
            let s = box_style_in(m, ctx);
            match px_of(m["letter-spacing"@], s.font_size as int, ctx.viewport) {
                Some(x) => -LIMIT <= x <= LIMIT ==> s.letter_spacing == x,
                None => s.letter_spacing == 0,
            }
        },
{
    lemma_fields(m, ctx);
}

proof fn lemma_aspect_field(m: StyleMap, ctx: ResolveCtx)
    ensures
        box_style_in(m, ctx).aspect_ratio == aspect_ratio_in(m),
{
    lemma_fields(m, ctx);
}

proof fn lemma_family_field(m: StyleMap, ctx: ResolveCtx)
    ensures
        box_style_in(m, ctx).font_families == font_families_in(m),
{
    lemma_fields(m, ctx);
}

proof fn lemma_origin_field(m: StyleMap, ctx: ResolveCtx)
    ensures
        box_style_in(m, ctx).transform_origin == transform_origin_in(
            m,
            box_style_in(m, ctx).font_size as int,
            ctx.viewport,
        ),
{
    lemma_fields(m, ctx);
}

proof fn lemma_aspect_ratios(m: StyleMap, a: Seq<char>, b: Seq<char>)
    requires
        !a.contains('/'),
        !b.contains('/'),
    ensures
        unset(m, "aspect-ratio"@) ==> aspect_ratio_in(m) is None,
        m.contains_key("aspect-ratio"@) && m["aspect-ratio"@] == a ==> match value_of(trimmed(a)) {
            Some(w) => if w > 0 {
                aspect_ratio_in(m) == Some((w as i64, 1_000_000i64))
            } else {
                aspect_ratio_in(m) is None
            },
            None => aspect_ratio_in(m) is None,
        },
        m.contains_key("aspect-ratio"@) && m["aspect-ratio"@] == a + seq!['/'] + b ==> match (
            value_of(trimmed(a)),
            value_of(trimmed(b)),
        ) {
            (Some(w), Some(h)) => if w > 0 && h > 0 {
                aspect_ratio_in(m) == Some((w as i64, h as i64))
            } else {
                aspect_ratio_in(m) is None
            },
            _ => aspect_ratio_in(m) is None,
        },
{
    law_splitting(a, '/', b, '/', '/');
    law_splitting(b, '/', a, '/', '/');
    assert(seq![a] + seq![b] =~= seq![a, b]);
}

/// An aspect ratio is a width to a height, the height one where it is not written; both
/// are positive or there is no ratio.
pub proof fn law_aspect_ratios(m: StyleMap, ctx: ResolveCtx, a: Seq<char>, b: Seq<char>)
    requires
        !a.contains('/'),
        !b.contains('/'),
    ensures
        unset(m, "aspect-ratio"@) ==> box_style_in(m, ctx).aspect_ratio is None,
        m.contains_key("aspect-ratio"@) && m["aspect-ratio"@] == a ==> match value_of(trimmed(a)) {
            Some(w) => if w > 0 {
                box_style_in(m, ctx).aspect_ratio == Some((w as i64, 1_000_000i64))
            } else {
                box_style_in(m, ctx).aspect_ratio is None
            },
            None => box_style_in(m, ctx).aspect_ratio is None,
        },
        m.contains_key("aspect-ratio"@) && m["aspect-ratio"@] == a + seq!['/'] + b ==> match (
            value_of(trimmed(a)),
            value_of(trimmed(b)),
        ) {
            (Some(w), Some(h)) => if w > 0 && h > 0 {
                box_style_in(m, ctx).aspect_ratio == Some((w as i64, h as i64))
            } else {
                box_style_in(m, ctx).aspect_ratio is None
            },
            _ => box_style_in(m, ctx).aspect_ratio is None,
        },
{
    lemma_aspect_field(m, ctx);
    lemma_aspect_ratios(m, a, b);
}

/// The color of the text is the one named, else black; that of the background the one of
/// `background-color`, else the first in `background` that is no image or gradient.
pub proof fn law_colors_of_a_box(m: StyleMap, ctx: ResolveCtx)
    ensures
        ({
            let s = box_style_in(m, ctx);
            &&& m.contains_key("color"@) && color_of(m["color"@]) is Some ==> Some(s.color) == color_of(
                m["color"@],
            )
            &&& unset(m, "color"@) ==> s.color == (Rgba { r: 0, g: 0, b: 0, a: 255 })
            &&& m.contains_key("background-color"@) && color_of(m["background-color"@]) is Some
                ==> s.background == color_of(m["background-color"@])
            &&& unset(m, "background-color"@) && unset(m, "background"@) ==> s.background is None
        }),
{
    lemma_fields(m, ctx);
}

proof fn lemma_first_color(t: Seq<Seq<char>>, i: int)
    requires
        0 <= i < t.len(),
        color_of(t[i]) is Some,
        !starts(t[i], "url("@),
        !occurs(t[i], "gradient("@),
        forall|j: int| 0 <= j < i ==> color_of(#[trigger] t[j]) is None,
    ensures
        first_color(t) == color_of(t[i]),
    decreases t.len(),
{
    if i > 0 {
        assert(color_of(t[0]) is None);
        assert(t.skip(1)[i - 1] == t[i]);
        assert forall|j: int| 0 <= j < i - 1 implies color_of(#[trigger] t.skip(1)[j]) is None by {
            assert(t.skip(1)[j] == t[j + 1]);
        }
        lemma_first_color(t.skip(1), i - 1);
    }
}

/// The first color among the words of `background` is its color.
pub proof fn law_background_shorthand(m: StyleMap, ctx: ResolveCtx, i: int)
    requires
        unset(m, "background-color"@),
        m.contains_key("background"@),
        0 <= i < value_tokens(m["background"@]).len(),
        ({
            let t = value_tokens(m["background"@]);
            &&& color_of(t[i]) is Some
            &&& !starts(t[i], "url("@)
            &&& !occurs(t[i], "gradient("@)
            &&& forall|j: int| 0 <= j < i ==> color_of(#[trigger] t[j]) is None
        }),
    ensures
        box_style_in(m, ctx).background == color_of(value_tokens(m["background"@])[i]),
{
    lemma_fields(m, ctx);
    lemma_first_color(value_tokens(m["background"@]), i);
}

/// Whether a text has no quote at either end.
pub open spec fn bare(s: Seq<char>) -> bool {
    s.len() > 0 && s[0] != '"' && s[0] != '\'' && s.last() != '"' && s.last() != '\''
}

/// The families of a style are the names of its list, in its order, without the quotes
/// around them.
pub proof fn law_font_families(m: StyleMap, ctx: ResolveCtx, a: Seq<char>, q: char)
    requires
        bare(a),
        q == '"' || q == '\'',
    ensures
        unset(m, "font-family"@) ==> box_style_in(m, ctx).font_families.len() == 0,
        unquoted(a) == a,
        unquoted(seq![q] + a + seq![q]) == a,
        m.contains_key("font-family"@) ==> box_style_in(m, ctx).font_families == family_names(
            split_at(m["font-family"@], ',', ','),
        ),
{
    lemma_family_field(m, ctx);
    assert(unquote_front(a) == a);
    assert(unquote_back(a) == a);
    let x = seq![q] + a + seq![q];
    assert(x.skip(1) =~= a + seq![q]);
    assert((a + seq![q])[0] == a[0]);
    assert(unquote_front(a + seq![q]) == a + seq![q]);
    assert(unquote_front(x) == a + seq![q]);
    assert((a + seq![q]).drop_last() =~= a);
    assert(unquote_back(a + seq![q]) == a);
}

/// Each piece of a list adds its name behind those before it; a blank one adds none.
pub proof fn law_family_lists(p: Seq<Seq<char>>, t: Seq<char>)
    ensures
        family_names(Seq::empty()).len() == 0,
        unquoted(trimmed(t)).len() > 0 ==> family_names(p.push(t)) == family_names(p).push(
            unquoted(trimmed(t)),
        ),
        unquoted(trimmed(t)).len() == 0 ==> family_names(p.push(t)) == family_names(p),
{
    assert(p.push(t).drop_last() =~= p);
}

/// A transform turns about the middle where nothing is said, about the left or the top at
/// nothing, about the right or the bottom at all of the way, by one word for each axis;
/// the words for the axes may change places.
pub proof fn law_transform_origin(m: StyleMap, ctx: ResolveCtx, w: Seq<Seq<char>>)
    requires
        m.contains_key("transform-origin"@) ==> words_in(m["transform-origin"@]) == w,
    ensures
        ({
            let o = box_style_in(m, ctx).transform_origin;
            let (low, mid, high) = (
                LengthPct::Pct(0),
                LengthPct::Pct(50_000_000),
                LengthPct::Pct(100_000_000),
            );
            let set = m.contains_key("transform-origin"@);
            &&& !set ==> o == (mid, mid)
            &&& set && w == seq!["left"@, "top"@] ==> o == (low, low)
            &&& set && w == seq!["top"@, "left"@] ==> o == (low, low)
            &&& set && w == seq!["right"@, "bottom"@] ==> o == (high, high)
            &&& set && w == seq!["right"@, "top"@] ==> o == (high, low)
            &&& set && w == seq!["bottom"@, "left"@] ==> o == (low, high)
            &&& set && w == seq!["left"@] ==> o == (low, mid)
            &&& set && w == seq!["right"@] ==> o == (high, mid)
            &&& set && w == seq!["top"@] ==> o == (mid, low)
            &&& set && w == seq!["bottom"@] ==> o == (mid, high)
            &&& set && w == seq!["center"@] ==> o == (mid, mid)
        }),
{
    lemma_origin_field(m, ctx);
    lemma_origin_words(box_style_in(m, ctx).font_size as int, ctx.viewport);
    assert(seq!["left"@, "top"@][0] == "left"@ && seq!["left"@, "top"@][1] == "top"@);
    assert(seq!["top"@, "left"@][0] == "top"@ && seq!["top"@, "left"@][1] == "left"@);
    assert(seq!["right"@, "bottom"@][0] == "right"@ && seq!["right"@, "bottom"@][1] == "bottom"@);
    assert(seq!["right"@, "top"@][0] == "right"@ && seq!["right"@, "top"@][1] == "top"@);
    assert(seq!["bottom"@, "left"@][0] == "bottom"@ && seq!["bottom"@, "left"@][1] == "left"@);
}

proof fn lemma_origin_words(fs: int, vp: Viewport)
    ensures
        origin_word("left"@, fs, vp) == LengthPct::Pct(0),
        origin_word("top"@, fs, vp) == LengthPct::Pct(0),
        origin_word("center"@, fs, vp) == LengthPct::Pct(50_000_000),
        origin_word("right"@, fs, vp) == LengthPct::Pct(100_000_000),
        origin_word("bottom"@, fs, vp) == LengthPct::Pct(100_000_000),
        "left"@ != "top"@ && "left"@ != "bottom"@ && "left"@ != "right"@,
        "top"@ != "right"@ && "bottom"@ != "right"@ && "center"@ != "top"@ && "center"@ != "bottom"@,
{
    reveal_strlit("left");
    reveal_strlit("top");
    reveal_strlit("center");
    reveal_strlit("right");
    reveal_strlit("bottom");
    assert("left"@.len() == 4);
    assert("top"@.len() == 3);
    assert("center"@.len() == 6);
    assert("right"@.len() == 5);
    assert("bottom"@.len() == 6);
    assert("center"@[0] == 'c');
    assert("bottom"@[0] == 'b');
}

/// Two lengths as an origin are kept in their order.
pub proof fn law_transform_origin_lengths(m: StyleMap, ctx: ResolveCtx, a: Seq<char>, b: Seq<char>)
    requires
        m.contains_key("transform-origin"@),
        words_in(m["transform-origin"@]) == seq![a, b],
        length_pct(a, box_style_in(m, ctx).font_size as int, ctx.viewport) is Some,
        length_pct(b, box_style_in(m, ctx).font_size as int, ctx.viewport) is Some,
        a != "left"@ && a != "top"@ && a != "center"@ && a != "right"@ && a != "bottom"@,
        b != "left"@ && b != "top"@ && b != "center"@ && b != "right"@ && b != "bottom"@,
    ensures
        Some(box_style_in(m, ctx).transform_origin.0) == length_pct(
            a,
            box_style_in(m, ctx).font_size as int,
            ctx.viewport,
        ),
        Some(box_style_in(m, ctx).transform_origin.1) == length_pct(
            b,
            box_style_in(m, ctx).font_size as int,
            ctx.viewport,
        ),
{
    lemma_origin_field(m, ctx);
    assert(seq![a, b][0] == a && seq![a, b][1] == b);
}

// --------------------------------------------------------------------------
// shadows
// --------------------------------------------------------------------------

proof fn lemma_px32(v: i64)
    requires
        -2_000_000_000_000_000 <= v <= 2_000_000_000_000_000,
    ensures
        -1_000_000 <= 2 * (px32(v) * 1_000_000 - v) <= 1_000_000,
{
    law_rounding(v as int, 1_000_000);
}

/// A shadow is its offsets to the right and down, then its blur and its spread, to whole
/// px; what is left out is nothing, and its color that of the text. Without two offsets
/// there is none.
pub proof fn law_shadow_parts(p: ShadowPartsV, current: Rgba)
    requires
        forall|i: int|
            0 <= i < p.lengths.len() ==> -2_000_000_000_000_000 <= #[trigger] p.lengths[i]
                <= 2_000_000_000_000_000,
    ensures
        p.lengths.len() < 2 ==> shadow_of_parts(p, current) is None,
        p.lengths.len() >= 2 ==> (shadow_of_parts(p, current) matches Some(b) && {
            &&& -1_000_000 <= 2 * (b.offset_x * 1_000_000 - p.lengths[0]) <= 1_000_000
            &&& -1_000_000 <= 2 * (b.offset_y * 1_000_000 - p.lengths[1]) <= 1_000_000
            &&& p.lengths.len() < 3 ==> b.blur == 0
            &&& p.lengths.len() >= 3 && p.lengths[2] >= 0 ==> -1_000_000 <= 2 * (b.blur * 1_000_000
                - p.lengths[2]) <= 1_000_000
            &&& p.lengths.len() < 4 ==> b.spread == 0
            &&& p.lengths.len() >= 4 ==> -1_000_000 <= 2 * (b.spread * 1_000_000 - p.lengths[3])
                <= 1_000_000
            &&& b.inset == p.inset
            &&& p.color is Some ==> Some(b.color) == p.color
            &&& p.color is None ==> b.color == current
        }),
{
    if p.lengths.len() >= 2 {
        lemma_px32(p.lengths[0]);
        lemma_px32(p.lengths[1]);
        lemma_px32(0);
        if p.lengths.len() >= 3 {
            lemma_px32(p.lengths[2]);
        }
        if p.lengths.len() >= 4 {
            lemma_px32(p.lengths[3]);
        }
    }
}

/// Each word of a shadow adds one thing: a length behind those before it, a color, or that
/// it lies inside.
pub proof fn law_shadow_words(toks: Seq<Seq<char>>, t: Seq<char>, fs: int, vp: Viewport)
    ensures
        ({
            let p = shadow_fold(toks, fs, vp, toks.len());
            let q = shadow_fold(toks.push(t), fs, vp, toks.len() + 1);
            &&& lower(t) == lower("inset"@) ==> q.inset && q.lengths == p.lengths && q.color == p.color
            &&& lower(t) != lower("inset"@) ==> {
                &&& q.inset == p.inset
                &&& t == "0"@ ==> q.lengths == p.lengths.push(0) && q.color == p.color
                &&& t != "0"@ ==> (px_of(t, fs, vp) matches Some(x) ==> (-LIMIT <= x <= LIMIT
                    ==> q.lengths == p.lengths.push(x as i64) && q.color == p.color))
                &&& t != "0"@ && px_of(t, fs, vp) is None && color_of(t) is Some ==> q.lengths
                    == p.lengths && q.color == color_of(t)
                &&& t != "0"@ && px_of(t, fs, vp) is None && color_of(t) is None ==> q == p
            }
        }),
        shadow_fold(toks, fs, vp, 0).lengths.len() == 0 && shadow_fold(
            toks,
            fs,
            vp,
            0,
        ).color is None && !shadow_fold(toks, fs, vp, 0).inset,
{
    lemma_shadow_prefix(toks, t, fs, vp, toks.len());
    assert(toks.push(t)[toks.len() as int] == t);
}

proof fn lemma_shadow_prefix(toks: Seq<Seq<char>>, t: Seq<char>, fs: int, vp: Viewport, k: nat)
    requires
        k <= toks.len(),
    ensures
        shadow_fold(toks.push(t), fs, vp, k) == shadow_fold(toks, fs, vp, k),
    decreases k,
{
    if k > 0 {
        lemma_shadow_prefix(toks, t, fs, vp, (k - 1) as nat);
        assert(toks.push(t)[k - 1] == toks[k - 1]);
    }
}

/// A box has the shadow of the first layer of its style, and none where it says none.
pub proof fn law_first_shadow(m: StyleMap, ctx: ResolveCtx)
    ensures
        ({
            let s = box_style_in(m, ctx);
            let layers = comma_layers(trimmed(m["box-shadow"@]));
            &&& unset(m, "box-shadow"@) || says(m, "box-shadow"@, "none"@) ==> s.box_shadow is None
            &&& m.contains_key("box-shadow"@) && trimmed(m["box-shadow"@]).len() > 0 && lower(
                trimmed(m["box-shadow"@]),
            ) != lower("none"@) && layers.len() > 0 ==> s.box_shadow == shadow_of_parts(
                shadow_fold(
                    value_tokens(layers[0]),
                    s.font_size as int,
                    ctx.viewport,
                    value_tokens(layers[0]).len(),
                ),
                s.color,
            )
        }),
{
    lemma_fields(m, ctx);
}

/// Of the layers of a value the blank ones are left out and the others trimmed, in their
/// order.
pub proof fn law_blank_layers_are_left_out(p: Seq<Seq<char>>, a: Seq<char>)
    ensures
        nonblank(Seq::empty()).len() == 0,
        trimmed(a).len() == 0 ==> nonblank(seq![a] + p) == nonblank(p),
        trimmed(a).len() > 0 ==> nonblank(seq![a] + p) == seq![trimmed(a)] + nonblank(p),
        comma_layers(a) == nonblank(comma_pieces(a)),
{
    assert((seq![a] + p).skip(1) =~= p);
}

// --------------------------------------------------------------------------
// transforms
// --------------------------------------------------------------------------

/// Angles are degrees, or gradians, turns and radians of which 400, one and twice pi make
/// 360 degrees; a bare number is degrees.
pub proof fn law_angles(w: Seq<char>, v: int)
    requires
        value_of(trimmed(w)) == Some(v),
        -1_000_000_000_000 <= v <= 1_000_000_000_000,
        w.len() > 0,
        !crate::scan::is_space(w[0]),
        crate::number::is_digit(w.last()),
    ensures
        angle_of(w + "deg"@) == Some(v),
        angle_of(w + "turn"@) == Some(360 * v),
        angle_of(w + "grad"@) matches Some(x) && -400 <= 2 * (400 * x - 360 * v) <= 400,
        angle_of(w + "rad"@) matches Some(x) && -1_000_000_000 <= 2 * (1_000_000_000 * x
            - 57_295_779_513 * v) <= 1_000_000_000,
        angle_of(w) == Some(v),
{
    reveal_strlit("deg");
    reveal_strlit("turn");
    reveal_strlit("grad");
    reveal_strlit("rad");
    assert("deg"@.len() == 3 && "deg"@[2] == 'g' && "deg"@[0] == 'd');
    assert("turn"@.len() == 4 && "turn"@[3] == 'n' && "turn"@[0] == 't');
    assert("grad"@.len() == 4 && "grad"@[3] == 'd' && "grad"@[0] == 'g');
    assert("rad"@.len() == 3 && "rad"@[2] == 'd' && "rad"@[0] == 'r');
    lemma_suffix(w, "deg"@);
    lemma_suffix(w, "turn"@);
    lemma_suffix(w, "grad"@);
    lemma_suffix(w, "rad"@);
    lemma_not_suffix(w + "turn"@, "deg"@);
    lemma_not_suffix(w + "turn"@, "grad"@);
    lemma_not_suffix(w + "grad"@, "deg"@);
    lemma_not_suffix(w + "rad"@, "deg"@);
    lemma_not_suffix(w + "rad"@, "turn"@);
    lemma_not_suffix(w, "deg"@);
    lemma_not_suffix(w, "grad"@);
    lemma_not_suffix(w, "turn"@);
    lemma_not_suffix(w, "rad"@);
    if crate::scan::ends(w + "rad"@, "grad"@) {
        let t = w + "rad"@;
        assert(t.subrange(t.len() - 4, t.len() as int)[0] == t[t.len() - 4]);
        assert(t[t.len() - 4] == w.last());
    }
    lemma_trimmed_is(w);
    law_rounding(v * 1, 1);
    law_rounding(v * 360, 1);
    law_rounding(v * 9, 10);
    law_rounding(v * 57_295_779_513, 1_000_000_000);
}

proof fn lemma_suffix(w: Seq<char>, u: Seq<char>)
    requires
        w.len() > 0,
        !crate::scan::is_space(w[0]),
        u.len() > 0,
        !crate::scan::is_space(u.last()),
    ensures
        trimmed(w + u) == w + u,
        before_suffix(w + u, u) == Some(w),
        (w + u).last() == u.last(),
{
    lemma_trimmed_is(w + u);
    law_prefixes_and_suffixes(w + u, u, w);
}

proof fn lemma_not_suffix(s: Seq<char>, u: Seq<char>)
    requires
        s.len() > 0,
        u.len() > 0,
        s.last() != u.last(),
    ensures
        before_suffix(s, u) is None,
{
    if crate::scan::ends(s, u) {
        assert(s.subrange(s.len() - u.len(), s.len() as int)[u.len() - 1] == s.last());
    }
}

/// The functions of a transform: a translation gives the way on its axes, a scaling and a
/// matrix their factors, a rotation and a skew their angle; each factor stands behind
/// those before it. What is no such function changes nothing.
pub proof fn law_transform_functions(t: TransformV, args: Seq<Seq<char>>, fs: int, vp: Viewport)
    ensures
        apply_call(t, ("translatex"@, args), fs, vp) matches Some(u) && u.tx == len_arg(
            args,
            0,
            fs,
            vp,
        ) && u.ty == t.ty && u.steps == t.steps,
        apply_call(t, ("translatey"@, args), fs, vp) matches Some(u) && u.ty == len_arg(
            args,
            0,
            fs,
            vp,
        ) && u.tx == t.tx && u.steps == t.steps,
        apply_call(t, ("translate"@, args), fs, vp) matches Some(u) && u.tx == len_arg(
            args,
            0,
            fs,
            vp,
        ) && u.ty == len_arg(args, 1, fs, vp) && u.steps == t.steps,
        apply_call(t, ("scale"@, args), fs, vp) matches Some(u) && u.tx == t.tx && u.ty == t.ty
            && u.steps == t.steps.push(
            LinearStep::Matrix(
                Linear {
                    a: num_arg(args, 0, 1_000_000),
                    b: 0,
                    c: 0,
                    d: num_arg(args, 1, num_arg(args, 0, 1_000_000)),
                },
            ),
        ),
        apply_call(t, ("scalex"@, args), fs, vp) matches Some(u) && u.tx == t.tx && u.ty == t.ty
            && u.steps == t.steps.push(
            LinearStep::Matrix(Linear { a: num_arg(args, 0, 1_000_000), b: 0, c: 0, d: 1_000_000 }),
        ),
        apply_call(t, ("scaley"@, args), fs, vp) matches Some(u) && u.tx == t.tx && u.ty == t.ty
            && u.steps == t.steps.push(
            LinearStep::Matrix(Linear { a: 1_000_000, b: 0, c: 0, d: num_arg(args, 0, 1_000_000) }),
        ),
        apply_call(t, ("rotate"@, args), fs, vp) matches Some(u) && u.tx == t.tx && u.ty == t.ty
            && u.steps == t.steps.push(LinearStep::Rotate(angle_arg(args))),
        apply_call(t, ("skewx"@, args), fs, vp) matches Some(u) && u.tx == t.tx && u.ty == t.ty
            && u.steps == t.steps.push(LinearStep::SkewX(angle_arg(args))),
        apply_call(t, ("skewy"@, args), fs, vp) matches Some(u) && u.tx == t.tx && u.ty == t.ty
            && u.steps == t.steps.push(LinearStep::SkewY(angle_arg(args))),
        args.len() == 6 && (forall|i: int|
            0 <= i < 6 ==> value_of(trimmed(#[trigger] args[i])) is Some) ==> (apply_call(
            t,
            ("matrix"@, args),
            fs,
            vp,
        ) matches Some(u) && u.steps == t.steps.push(
            LinearStep::Matrix(
                Linear {
                    a: num_arg(args, 0, 0),
                    b: num_arg(args, 1, 0),
                    c: num_arg(args, 2, 0),
                    d: num_arg(args, 3, 0),
                },
            ),
        ) && u.tx == LengthPct::Px(num_arg(args, 4, 0)) && u.ty == LengthPct::Px(
            num_arg(args, 5, 0),
        )),
        args.len() != 6 ==> apply_call(t, ("matrix"@, args), fs, vp) is None,
{
    reveal_strlit("translatex");
    reveal_strlit("translatey");
    reveal_strlit("translate");
    reveal_strlit("translate3d");
    reveal_strlit("scale");
    reveal_strlit("scale3d");
    reveal_strlit("scalex");
    reveal_strlit("scaley");
    reveal_strlit("rotate");
    reveal_strlit("rotatez");
    reveal_strlit("skewx");
    reveal_strlit("skewy");
    reveal_strlit("matrix");
    assert("translatex"@.len() == 10);
    assert("translatey"@.len() == 10);
    assert("translate"@.len() == 9);
    assert("translate3d"@.len() == 11);
    assert("scale"@.len() == 5);
    assert("scale3d"@.len() == 7);
    assert("scalex"@.len() == 6);
    assert("scaley"@.len() == 6);
    assert("rotate"@.len() == 6);
    assert("rotatez"@.len() == 7);
    assert("skewx"@.len() == 5);
    assert("skewy"@.len() == 5);
    assert("matrix"@.len() == 6);
    assert("translatex"@[9] == 'x');
    assert("translatey"@[9] == 'y');
    assert("scale"@[1] == 'c');
    assert("skewx"@[1] == 'k');
    assert("skewy"@[1] == 'k');
    assert("scale3d"@[0] == 's');
    assert("rotatez"@[0] == 'r');
    assert("scalex"@[5] == 'x');
    assert("scaley"@[5] == 'y');
    assert("scalex"@[0] == 's');
    assert("rotate"@[0] == 'r');
    assert("matrix"@[0] == 'm');
    assert("scaley"@[0] == 's');
    assert("skewx"@[4] == 'x');
    assert("skewy"@[4] == 'y');
}

/// The other names of translations, scalings and rotations mean the same.
pub proof fn law_transform_names(t: TransformV, args: Seq<Seq<char>>, fs: int, vp: Viewport)
    ensures
        apply_call(t, ("translate3d"@, args), fs, vp) == apply_call(t, ("translate"@, args), fs, vp),
        apply_call(t, ("scale3d"@, args), fs, vp) == apply_call(t, ("scale"@, args), fs, vp),
        apply_call(t, ("rotatez"@, args), fs, vp) == apply_call(t, ("rotate"@, args), fs, vp),
{
    reveal_strlit("translatex");
    reveal_strlit("translatey");
    reveal_strlit("translate");
    reveal_strlit("translate3d");
    reveal_strlit("scale");
    reveal_strlit("scale3d");
    reveal_strlit("scalex");
    reveal_strlit("scaley");
    reveal_strlit("rotate");
    reveal_strlit("rotatez");
    reveal_strlit("skewx");
    reveal_strlit("skewy");
    reveal_strlit("matrix");
    assert("translatex"@.len() == 10);
    assert("translatey"@.len() == 10);
    assert("translate"@.len() == 9);
    assert("translate3d"@.len() == 11);
    assert("scale"@.len() == 5);
    assert("scale3d"@.len() == 7);
    assert("scalex"@.len() == 6);
    assert("scaley"@.len() == 6);
    assert("rotate"@.len() == 6);
    assert("rotatez"@.len() == 7);
    assert("skewx"@.len() == 5);
    assert("skewy"@.len() == 5);
    assert("matrix"@.len() == 6);
    assert("translatex"@[9] == 'x');
    assert("translatey"@[9] == 'y');
    assert("scale"@[1] == 'c');
    assert("skewx"@[1] == 'k');
    assert("skewy"@[1] == 'k');
    assert("scale3d"@[0] == 's');
    assert("rotatez"@[0] == 'r');
    assert("scalex"@[5] == 'x');
    assert("scaley"@[5] == 'y');
    assert("scalex"@[0] == 's');
    assert("rotate"@[0] == 'r');
    assert("matrix"@[0] == 'm');
    assert("scaley"@[0] == 's');
    assert("skewx"@[4] == 'x');
    assert("skewy"@[4] == 'y');
}

/// An argument that is a number, a length or an angle is just that; one left out is the
/// default.
pub proof fn law_transform_arguments(args: Seq<Seq<char>>, i: int, d: i64, fs: int, vp: Viewport)
    requires
        0 <= i,
    ensures
        i >= args.len() ==> num_arg(args, i, d) == d && len_arg(args, i, fs, vp) == LengthPct::Px(0),
        i < args.len() ==> {
            &&& value_of(trimmed(args[i])) matches Some(v) ==> (-LIMIT <= v <= LIMIT ==> num_arg(
                args,
                i,
                d,
            ) == v)
            &&& value_of(trimmed(args[i])) is None ==> num_arg(args, i, d) == d
            &&& trimmed(args[i]).len() > 0 && trimmed(args[i]) != "0"@ && length_pct(
                trimmed(args[i]),
                fs,
                vp,
            ) is Some ==> Some(len_arg(args, i, fs, vp)) == length_pct(trimmed(args[i]), fs, vp)
            &&& trimmed(args[i]) == "0"@ ==> len_arg(args, i, fs, vp) == LengthPct::Px(0)
        },
        args.len() == 0 ==> angle_arg(args) == 0,
        args.len() > 0 ==> (angle_of(args[0]) matches Some(v) ==> (-LIMIT <= v <= LIMIT ==> angle_arg(
            args,
        ) == v)),
{
}

/// The functions of a transform are applied in their order, from the first; a style that
/// names none has none.
pub proof fn law_transforms_in_order(m: StyleMap, ctx: ResolveCtx, calls: Seq<FnCall>, c: FnCall)
    ensures
        unset(m, "transform"@) || says(m, "transform"@, "none"@) ==> box_style_in(
            m,
            ctx,
        ).transform is None,
        ({
            let (fs, vp) = (box_style_in(m, ctx).font_size as int, ctx.viewport);
            let before = fold_calls(calls, fs, vp, calls.len());
            let after = fold_calls(calls.push(c), fs, vp, calls.len() + 1);
            &&& apply_call(before.0, c, fs, vp) matches Some(u) ==> after == (u, true)
            &&& apply_call(before.0, c, fs, vp) is None ==> after == before
            &&& fold_calls(calls, fs, vp, 0) == (
                TransformV { steps: Seq::empty(), tx: LengthPct::Px(0), ty: LengthPct::Px(0) },
                false,
            )
            &&& m.contains_key("transform"@) && calls == calls_in(trimmed(m["transform"@]))
                && trimmed(m["transform"@]).len() > 0 && lower(trimmed(m["transform"@])) != lower(
                "none"@,
            ) ==> box_style_in(m, ctx).transform == if before.1 {
                Some(before.0)
            } else {
                None
            }
        }),
{
    lemma_fields(m, ctx);
    let (fs, vp) = (box_style_in(m, ctx).font_size as int, ctx.viewport);
    lemma_calls_prefix(calls, c, fs, vp, calls.len());
    assert(calls.push(c)[calls.len() as int] == c);
}

proof fn lemma_calls_prefix(calls: Seq<FnCall>, c: FnCall, fs: int, vp: Viewport, k: nat)
    requires
        k <= calls.len(),
    ensures
        fold_calls(calls.push(c), fs, vp, k) == fold_calls(calls, fs, vp, k),
    decreases k,
{
    if k > 0 {
        lemma_calls_prefix(calls, c, fs, vp, (k - 1) as nat);
        assert(calls.push(c)[k - 1] == calls[k - 1]);
    }
}

/// Whether the numbers of a map are small enough to be multiplied and added.
pub open spec fn tame(m: Linear) -> bool {
    &&& -1_000_000_000_000 <= m.a <= 1_000_000_000_000
    &&& -1_000_000_000_000 <= m.b <= 1_000_000_000_000
    &&& -1_000_000_000_000 <= m.c <= 1_000_000_000_000
    &&& -1_000_000_000_000 <= m.d <= 1_000_000_000_000
}

/// The map that changes nothing changes nothing before or behind another.
pub proof fn law_identity(m: Linear)
    requires
        tame(m),
    ensures
        product(identity(), m) == m,
        product(m, identity()) == m,
{
    lemma_dot_one(m.a as int, m.c as int);
    lemma_dot_one(m.b as int, m.d as int);
    lemma_dot_one(m.c as int, m.a as int);
    lemma_dot_one(m.d as int, m.b as int);
    lemma_dot_one(m.a as int, m.b as int);
    lemma_dot_one(m.b as int, m.a as int);
    lemma_dot_one(m.c as int, m.d as int);
    lemma_dot_one(m.d as int, m.c as int);
}

proof fn lemma_dot_one(x: int, z: int)
    requires
        -1_000_000_000_000 <= x <= 1_000_000_000_000,
        -1_000_000_000_000 <= z <= 1_000_000_000_000,
    ensures
        dot(1_000_000, x, 0, z) == x,
        dot(x, 1_000_000, z, 0) == x,
        dot(0, z, 1_000_000, x) == x,
        dot(z, 0, x, 1_000_000) == x,
{
    assert(clip(1_000_000) == 1_000_000 && clip(0) == 0 && clip(x) == x && clip(z) == z);
    assert(clip(1_000_000) * clip(x) == x * 1_000_000) by (nonlinear_arith)
        requires
            clip(1_000_000) == 1_000_000,
            clip(x) == x,
    ;
    assert(clip(0) * clip(z) == 0) by (nonlinear_arith)
        requires
            clip(0) == 0,
    ;
    law_rounding(x * 1_000_000, 1_000_000);
}

/// Whether a number is `x * y + z * w` to the nearest, in millionths.
pub open spec fn is_dot(r: i64, x: i64, y: i64, z: i64, w: i64) -> bool {
    -1_000_000 <= 2 * (r * 1_000_000 - (x * y + z * w)) <= 1_000_000
}

proof fn lemma_dot(x: i64, y: i64, z: i64, w: i64)
    requires
        -10_000_000_000 <= x <= 10_000_000_000,
        -10_000_000_000 <= y <= 10_000_000_000,
        -10_000_000_000 <= z <= 10_000_000_000,
        -10_000_000_000 <= w <= 10_000_000_000,
    ensures
        is_dot(dot(x as int, y as int, z as int, w as int) as i64, x, y, z, w),
{
    let t = x * y + z * w;
    assert(-200_000_000_000_000_000_000 <= t <= 200_000_000_000_000_000_000) by (nonlinear_arith)
        requires
            t == x * y + z * w,
            -10_000_000_000 <= x <= 10_000_000_000,
            -10_000_000_000 <= y <= 10_000_000_000,
            -10_000_000_000 <= z <= 10_000_000_000,
            -10_000_000_000 <= w <= 10_000_000_000,
    ;
    law_rounding(t, 1_000_000);
}

/// Two maps in a row are their matrix product, row by column.
pub proof fn law_maps_multiply(m: Linear, n: Linear)
    requires
        -10_000_000_000 <= m.a <= 10_000_000_000 && -10_000_000_000 <= n.a <= 10_000_000_000,
        -10_000_000_000 <= m.b <= 10_000_000_000 && -10_000_000_000 <= n.b <= 10_000_000_000,
        -10_000_000_000 <= m.c <= 10_000_000_000 && -10_000_000_000 <= n.c <= 10_000_000_000,
        -10_000_000_000 <= m.d <= 10_000_000_000 && -10_000_000_000 <= n.d <= 10_000_000_000,
    ensures
        is_dot(product(m, n).a, m.a, n.a, m.c, n.b),
        is_dot(product(m, n).b, m.b, n.a, m.d, n.b),
        is_dot(product(m, n).c, m.a, n.c, m.c, n.d),
        is_dot(product(m, n).d, m.b, n.c, m.d, n.d),
{
    lemma_dot(m.a, n.a, m.c, n.b);
    lemma_dot(m.b, n.a, m.d, n.b);
    lemma_dot(m.a, n.c, m.c, n.d);
    lemma_dot(m.b, n.c, m.d, n.d);
}

/// A turn takes the first axis by its cosine and sine and the second across it; a skew
/// leaves one axis and leans the other by its tangent.
pub proof fn law_turns_and_skews(t: Trig, angle: i64)
    requires
        -LIMIT <= t.sin <= LIMIT,
    ensures
        ({
            let r = step_linear(LinearStep::Rotate(angle), t);
            r.a == t.cos && r.b == t.sin && r.c == -t.sin && r.d == t.cos
        }),
        ({
            let r = step_linear(LinearStep::SkewX(angle), t);
            r.a == 1_000_000 && r.b == 0 && r.c == t.tan && r.d == 1_000_000
        }),
        ({
            let r = step_linear(LinearStep::SkewY(angle), t);
            r.a == 1_000_000 && r.b == t.tan && r.c == 0 && r.d == 1_000_000
        }),
{
}

// --------------------------------------------------------------------------
// gradients
// --------------------------------------------------------------------------

/// A gradient runs towards the side or corner that it names, clockwise from the top in
/// degrees.
pub proof fn law_gradient_sides()
    ensures
        side_angle(seq!["top"@]) == Some(0int),
        side_angle(seq!["right"@]) == Some(90_000_000int),
        side_angle(seq!["bottom"@]) == Some(180_000_000int),
        side_angle(seq!["left"@]) == Some(270_000_000int),
        side_angle(seq!["top"@, "right"@]) == Some(45_000_000int),
        side_angle(seq!["right"@, "top"@]) == Some(45_000_000int),
        side_angle(seq!["bottom"@, "right"@]) == Some(135_000_000int),
        side_angle(seq!["right"@, "bottom"@]) == Some(135_000_000int),
        side_angle(seq!["bottom"@, "left"@]) == Some(225_000_000int),
        side_angle(seq!["left"@, "bottom"@]) == Some(225_000_000int),
        side_angle(seq!["top"@, "left"@]) == Some(315_000_000int),
        side_angle(seq!["left"@, "top"@]) == Some(315_000_000int),
{
    reveal_strlit("left");
    reveal_strlit("top");
    reveal_strlit("right");
    reveal_strlit("bottom");
    assert("left"@.len() == 4);
    assert("top"@.len() == 3);
    assert("right"@.len() == 5);
    assert("bottom"@.len() == 6);
    assert(seq!["top"@][0] == "top"@ && seq!["right"@][0] == "right"@ && seq!["bottom"@][0]
        == "bottom"@ && seq!["left"@][0] == "left"@);
    assert(seq!["top"@, "right"@][0] == "top"@ && seq!["top"@, "right"@][1] == "right"@);
    assert(seq!["right"@, "top"@][0] == "right"@ && seq!["right"@, "top"@][1] == "top"@);
    assert(seq!["bottom"@, "right"@][0] == "bottom"@ && seq!["bottom"@, "right"@][1] == "right"@);
    assert(seq!["right"@, "bottom"@][0] == "right"@ && seq!["right"@, "bottom"@][1] == "bottom"@);
    assert(seq!["bottom"@, "left"@][0] == "bottom"@ && seq!["bottom"@, "left"@][1] == "left"@);
    assert(seq!["left"@, "bottom"@][0] == "left"@ && seq!["left"@, "bottom"@][1] == "bottom"@);
    assert(seq!["top"@, "left"@][0] == "top"@ && seq!["top"@, "left"@][1] == "left"@);
    assert(seq!["left"@, "top"@][0] == "left"@ && seq!["left"@, "top"@][1] == "top"@);
}

/// A direction is an angle in degrees, or `to` and a side.
pub proof fn law_gradient_directions(w: Seq<char>, v: int)
    ensures
        w.len() > 0 && !crate::scan::is_space(w[0]) && value_of(trimmed(w)) == Some(v) ==> direction(
            w + "deg"@,
        ) == Some(v),
        w.len() > 0 && !crate::scan::is_space(w.last()) && w.last() != 'g' ==> direction(
            "to "@ + w,
        ) == side_angle(words_in(w)),
{
    reveal_strlit("deg");
    reveal_strlit("to ");
    assert("deg"@.len() == 3 && "deg"@[2] == 'g');
    assert("to "@.len() == 3 && "to "@[0] == 't');
    if w.len() > 0 && !crate::scan::is_space(w[0]) {
        lemma_suffix(w, "deg"@);
    }
    if w.len() > 0 && !crate::scan::is_space(w.last()) && w.last() != 'g' {
        let s = "to "@ + w;
        assert(s[0] == 't' && s.last() == w.last());
        lemma_trimmed_is(s);
        lemma_not_suffix(s, "deg"@);
        law_prefixes_and_suffixes(s, "to "@, w);
    }
}

/// A gradient has the angle of its first layer, or runs down where that is a stop; its
/// other layers are its stops, two at least, in their order and with their colors.
pub proof fn law_gradient_layers(l: Seq<Seq<char>>)
    ensures
        gradient_of_layers(l) matches Some(g) ==> {
            &&& g.stops.len() >= 2
            &&& direction(l[0]) matches Some(a) ==> g.angle == a && g.stops.len() == l.len() - 1
            &&& direction(l[0]) is None ==> g.angle == 180_000_000 && g.stops.len() == l.len()
            &&& forall|i: int|
                0 <= i < g.stops.len() ==> {
                    let t = if direction(l[0]) is Some {
                        l[i + 1]
                    } else {
                        l[i]
                    };
                    (#[trigger] g.stops[i]).color == (stop_of(t)->0).0
                }
        },
        l.len() < 2 ==> gradient_of_layers(l) is None,
{
    if l.len() > 0 {
        let toks = if direction(l[0]) is Some {
            l.skip(1)
        } else {
            l
        };
        assert(forall|i: int|
            0 <= i < toks.len() ==> #[trigger] toks[i] == if direction(l[0]) is Some {
                l[i + 1]
            } else {
                l[i]
            });
        if let Some(g) = gradient_of_layers(l) {
            let s = stops_of(toks)->0;
            assert(g.stops == s);
            assert(s.len() == toks.len());
            assert forall|i: int| 0 <= i < g.stops.len() implies {
                let t = if direction(l[0]) is Some {
                    l[i + 1]
                } else {
                    l[i]
                };
                (#[trigger] g.stops[i]).color == (stop_of(t)->0).0
            } by {
                assert(stop_of(toks[i]) is Some);
                assert(s[i].color == (stop_of(toks[i])->0).0);
            }
        }
    }
}

/// A stop is a color and perhaps a place, its percentage as a part of the whole, within
/// nothing and all of it.
pub proof fn law_stop_places(t: Seq<char>, v: int)
    requires
        value_of(trimmed(t)) == Some(v),
    ensures
        0 <= v <= 100_000_000 ==> (stop_pos(t + "%"@) matches Some(p) && -100 <= 2 * (p * 100 - v)
            <= 100),
        v < 0 ==> stop_pos(t + "%"@) == Some(0i64),
        v > 100_000_000 ==> stop_pos(t + "%"@) == Some(1_000_000i64),
{
    law_prefixes_and_suffixes(t + "%"@, "%"@, t);
    law_rounding(v, 100);
}

/// A stop with a place stands there; the first without one stands at the start and the last
/// at the end.
pub proof fn law_placed_stops(toks: Seq<Seq<char>>, i: int)
    requires
        0 <= i < toks.len(),
        toks.len() >= 2,
        stops_of(toks) is Some,
    ensures
        (stop_of(toks[i])->0).1 matches Some(p) ==> (stops_of(toks)->0)[i].pos == p,
        (stop_of(toks[i])->0).1 is None && i == 0 ==> (stops_of(toks)->0)[i].pos == 0,
        (stop_of(toks[i])->0).1 is None && i == toks.len() - 1 ==> (stops_of(toks)->0)[i].pos
            == 1_000_000,
{
    assert(pinned_all(toks)[i] == pinned(toks, i));
    assert(stop_of(toks[i]) is Some);
}

proof fn lemma_prev(p: Seq<Option<i64>>, i: int, a: int)
    requires
        0 <= a <= i < p.len(),
        p[a] is Some,
        forall|j: int| a < j <= i ==> (#[trigger] p[j]) is None,
    ensures
        prev_known(p, i) == a,
    decreases i - a,
{
    if i > a {
        assert(p[i] is None);
        lemma_prev(p, i - 1, a);
    }
}

proof fn lemma_next(p: Seq<Option<i64>>, i: int, b: int)
    requires
        0 <= i <= b < p.len(),
        p[b] is Some,
        forall|j: int| i <= j < b ==> (#[trigger] p[j]) is None,
    ensures
        next_known(p, i) == b,
    decreases b - i,
{
    if i < b {
        assert(p[i] is None);
        lemma_next(p, i + 1, b);
    }
}

/// Stops without a place stand at equal distances between the two placed ones around them.
pub proof fn law_stops_spread_evenly(p: Seq<Option<i64>>, a: int, i: int, b: int)
    requires
        0 <= a < i < b < p.len(),
        p[a] is Some,
        p[b] is Some,
        forall|j: int| a < j < b ==> (#[trigger] p[j]) is None,
    ensures
        -(b - a) <= 2 * ((spread(p, i) - p[a]->0) * (b - a) - (p[b]->0 - p[a]->0) * (i - a)) <= b - a,
{
    lemma_prev(p, i, a);
    lemma_next(p, i, b);
    assert(p[i] is None);
    law_rounding((p[b]->0 - p[a]->0) * (i - a), b - a);
}

/// The calls of a transform are its names with what their parentheses hold, cut at commas,
/// one behind the other; blanks and commas before a name count for nothing.
pub proof fn law_transform_calls(n: Seq<char>, a: Seq<char>, rest: Seq<char>)
    requires
        n.len() > 0,
        !n.contains('('),
        !is_ascii_space(n[0]) && n[0] != ',',
        trimmed(n).len() > 0,
        !a.contains(')'),
    ensures
        calls_in(n + seq!['('] + a + seq![')'] + rest) == seq![
            (lower(trimmed(n)), nonblank(split_at(a, ',', ','))),
        ] + calls_in(rest),
        calls_in(seq![' '] + rest) == calls_in(rest),
        calls_in(seq![','] + rest) == calls_in(rest),
        calls_in(Seq::empty()).len() == 0,
{
    let s = n + seq!['('] + a + seq![')'] + rest;
    assert(s[0] == n[0]);
    assert(skip_seps(s) == s);
    assert forall|j: int| 0 <= j < n.len() implies s[j] != '(' by {
        assert(s[j] == n[j]);
        assert(n.contains(n[j]));
    }
    assert(s[n.len() as int] == '(');
    lemma_run_is(s, '(', '(', n.len() as int);
    assert(s.take(n.len() as int) =~= n);
    let t = s.skip(n.len() as int + 1);
    assert(t =~= a + seq![')'] + rest);
    assert forall|j: int| 0 <= j < a.len() implies t[j] != ')' by {
        assert(t[j] == a[j]);
        assert(a.contains(a[j]));
    }
    assert(t[a.len() as int] == ')');
    lemma_run_is(t, ')', ')', a.len() as int);
    assert(t.take(a.len() as int) =~= a);
    assert(t.skip(a.len() as int + 1) =~= rest);
    assert(lower(trimmed(n)).len() == trimmed(n).len());
    lemma_seps(seq![' '] + rest, rest);
    lemma_seps(seq![','] + rest, rest);
}

proof fn lemma_seps(s: Seq<char>, rest: Seq<char>)
    requires
        s == seq![' '] + rest || s == seq![','] + rest,
    ensures
        calls_in(s) == calls_in(rest),
{
    assert(s.skip(1) =~= rest);
    assert(skip_seps(s) == skip_seps(rest));
    lemma_skip_len(rest);
}

proof fn lemma_skip_len(s: Seq<char>)
    ensures
        skip_seps(s).len() <= s.len(),
    decreases s.len(),
{
    if s.len() > 0 {
        lemma_skip_len(s.skip(1));
    }
}

/// The factors of a transform are multiplied in their order; without one nothing changes.
pub proof fn law_factors_multiply(s: Seq<LinearStep>, t: Seq<Trig>)
    ensures
        linear_fold(s, t, 0) == (Linear { a: 1_000_000, b: 0, c: 0, d: 1_000_000 }),
        s.len() == 1 && t.len() == 1 && tame(step_linear(s[0], t[0])) ==> linear_fold(s, t, 1)
            == step_linear(s[0], t[0]),
        s.len() == 2 && t.len() == 2 && tame(step_linear(s[0], t[0])) ==> linear_fold(s, t, 2)
            == product(step_linear(s[0], t[0]), step_linear(s[1], t[1])),
{
    reveal_with_fuel(linear_fold, 4);
    if s.len() >= 1 && t.len() >= 1 && tame(step_linear(s[0], t[0])) {
        law_identity(step_linear(s[0], t[0]));
    }
}

/// The functions of an angle are those that the table has first for it.
pub proof fn law_angle_tables(t: Seq<AngleTrig>, i: int)
    requires
        0 <= i < t.len(),
        forall|j: int| 0 <= j < i ==> (#[trigger] t[j]).angle != t[i].angle,
    ensures
        trig_at(t, t[i].angle) == Some(t[i].trig),
    decreases t.len(),
{
    if i > 0 {
        assert(t[0].angle != t[i].angle);
        assert(t.skip(1)[i - 1] == t[i]);
        assert forall|j: int| 0 <= j < i - 1 implies (#[trigger] t.skip(1)[j]).angle != t[i].angle by {
            assert(t.skip(1)[j] == t[j + 1]);
        }
        law_angle_tables(t.skip(1), i - 1);
    }
}

/// Each factor that turns or skews is looked up by its own angle; the first that the table
/// lacks is told.
pub proof fn law_factors_are_looked_up(s: Seq<LinearStep>, t: Seq<AngleTrig>, k: nat, a: i64)
    requires
        0 < k <= s.len(),
        s[k - 1] == LinearStep::Rotate(a) || s[k - 1] == LinearStep::SkewX(a) || s[k - 1]
            == LinearStep::SkewY(a),
    ensures
        trigs_at(s, t, (k - 1) as nat) matches Ok(before) ==> (trig_at(t, a) matches Some(x)
            ==> trigs_at(s, t, k) == Ok::<Seq<Trig>, i64>(before.push(x))),
        trigs_at(s, t, (k - 1) as nat) is Ok && trig_at(t, a) is None ==> trigs_at(s, t, k) == Err::<
            Seq<Trig>,
            i64,
        >(a),
        trigs_at(s, t, (k - 1) as nat) matches Err(b) ==> trigs_at(s, t, k) == Err::<Seq<Trig>, i64>(b),
{
}

/// A gradient stands in the image of the background, or in its shorthand where that is unset,
/// and reaches to the parenthesis that closes it.
pub proof fn law_gradient_text(m: StyleMap, a: Seq<char>, w: Seq<char>, b: Seq<char>)
    requires
        is_closed(w, 0),
        ({
            let s = a + "linear-gradient("@ + (w + seq![')'] + b);
            &&& trimmed(s) == s
            &&& index_of(s, "linear-gradient("@) == Some(a.len() as int)
            &&& (m.contains_key("background-image"@) && m["background-image"@] == s) || (unset(
                m,
                "background-image"@,
            ) && m.contains_key("background"@) && m["background"@] == s)
        }),
    ensures
        gradient_in(m) == gradient_of_layers(comma_layers(w)),
{
    let t = w + seq![')'] + b;
    let s = a + "linear-gradient("@ + t;
    assert(s.skip((a.len() + "linear-gradient("@.len()) as int) =~= t);
    law_parentheses_match(w, b);
}

/// A style without a background has no gradient.
pub proof fn law_no_gradient(m: StyleMap)
    ensures
        unset(m, "background-image"@) && unset(m, "background"@) ==> gradient_in(m) is None,
{
}

/// A corner radius is the first length of its property; without one there is none.
pub proof fn law_corner_radius(m: StyleMap, ctx: ResolveCtx, t: Seq<char>)
    requires
        !t.contains('/') && !t.contains(' '),
        trimmed(t).len() > 0,
    ensures
        unset(m, "border-radius"@) ==> box_style_in(m, ctx).border_radius == LengthPct::Px(0),
        m.contains_key("border-radius"@) && m["border-radius"@] == t ==> (length_pct(
            trimmed(t),
            box_style_in(m, ctx).font_size as int,
            ctx.viewport,
        ) matches Some(l) ==> box_style_in(m, ctx).border_radius == l),
{
    lemma_radius_field(m, ctx);
    law_splitting(t, '/', t, '/', ' ');
}

proof fn lemma_radius_field(m: StyleMap, ctx: ResolveCtx)
    ensures
        box_style_in(m, ctx).border_radius == border_radius_in(
            m,
            box_style_in(m, ctx).font_size as int,
            ctx.viewport,
        ),
{
    lemma_fields(m, ctx);
}

/// A size or inset that cannot be read counts as unset, and so do colors.
pub proof fn law_unreadable_values(m: StyleMap, ctx: ResolveCtx)
    ensures
        ({
            let s = box_style_in(m, ctx);
            let (fs, vp) = (s.font_size as int, ctx.viewport);
            &&& m.contains_key("width"@) && length_pct(m["width"@], fs, vp) is None ==> s.width == LengthPct::Auto
            &&& m.contains_key("height"@) && length_pct(m["height"@], fs, vp) is None ==> s.height == LengthPct::Auto
            &&& m.contains_key("min-width"@) && length_pct(m["min-width"@], fs, vp) is None ==> s.min_width == LengthPct::Px(0)
            &&& m.contains_key("max-width"@) && length_pct(m["max-width"@], fs, vp) is None ==> s.max_width == LengthPct::Auto
            &&& m.contains_key("min-height"@) && length_pct(m["min-height"@], fs, vp) is None ==> s.min_height == LengthPct::Px(0)
            &&& m.contains_key("max-height"@) && length_pct(m["max-height"@], fs, vp) is None ==> s.max_height == LengthPct::Auto
            &&& m.contains_key("top"@) && length_pct(m["top"@], fs, vp) is None ==> s.inset_top == LengthPct::Auto
            &&& m.contains_key("right"@) && length_pct(m["right"@], fs, vp) is None ==> s.inset_right == LengthPct::Auto
            &&& m.contains_key("bottom"@) && length_pct(m["bottom"@], fs, vp) is None ==> s.inset_bottom == LengthPct::Auto
            &&& m.contains_key("left"@) && length_pct(m["left"@], fs, vp) is None ==> s.inset_left == LengthPct::Auto
            &&& m.contains_key("color"@) && color_of(m["color"@]) is None ==> s.color == (Rgba {
                r: 0,
                g: 0,
                b: 0,
                a: 255,
            })
            &&& m.contains_key("background-color"@) && color_of(m["background-color"@]) is None && unset(
                m,
                "background"@,
            ) ==> s.background is None
        }),
{
    lemma_fields(m, ctx);
}

} // verus!
