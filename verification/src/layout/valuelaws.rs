//! What the typed style of a box says of the words of its style.

use vstd::prelude::*;
use vstd::string::*;

use crate::layout::edges::{border_radius_in, borders_in, edges_in};
use crate::layout::gradient::gradient_in;
use crate::layout::length::LengthPct;
use crate::layout::shadow::{current_color, shadow_in};
use crate::layout::transform::transform_in;
use crate::layout::value::{
    align_in, aspect_ratio_in, background_in, box_sizing_in, box_style_in, break_rule_in,
    display_in, float_in, font_families_in, font_size_in, font_weight_in, int_in, is_set_to,
    length_in, letter_spacing_in, line_height_in, position_in, transform_origin_in,
    vertical_align_in, white_space_in, z_index_in, BoxSizing, BreakRule, Display, Float,
    Position, ResolveCtx, VAlign,
};
use crate::number::{int_of, natural_of};
use crate::scan::{is_space, trim_back, trim_front, trimmed};
use crate::style::StyleMap;
use crate::text::{Align, WhiteSpace};

verus! {

/// Whether a style sets `p` to the word `w`, but for spaces around it.
pub open spec fn says(m: StyleMap, p: Seq<char>, w: Seq<char>) -> bool {
    m.contains_key(p) && trimmed(m[p]) == w
}

pub open spec fn unset(m: StyleMap, p: Seq<char>) -> bool {
    !m.contains_key(p)
}

/// A text without spaces at its ends is its own trimmed form.
pub proof fn lemma_trimmed_is(s: Seq<char>)
    requires
        s.len() > 0,
        !is_space(s[0]),
        !is_space(s.last()),
    ensures
        trimmed(s) == s,
{
    assert(trim_front(s) == s);
    assert(trim_back(s) == s);
}

// --------------------------------------------------------------------------
// keywords
// --------------------------------------------------------------------------

/// The fields of a typed style, one by one.
pub proof fn lemma_fields(m: StyleMap, ctx: ResolveCtx)
    ensures
        ({
            let s = box_style_in(m, ctx);
            let fs = font_size_in(m, ctx.parent_font_size, ctx.viewport);
            let (cb, vp) = (ctx.cb_width as int, ctx.viewport);
            &&& s.font_size == fs
            &&& s.display == display_in(m)
            &&& s.position == position_in(m)
            &&& s.float == float_in(m)
            &&& s.text_align == align_in(m)
            &&& s.white_space == white_space_in(m)
            &&& s.vertical_align == vertical_align_in(m)
            &&& s.break_before == break_rule_in(m, "break-before"@)
            &&& s.break_after == break_rule_in(m, "break-after"@)
            &&& s.break_inside_avoid == is_set_to(m, "break-inside"@, "avoid"@)
            &&& s.box_sizing == box_sizing_in(m)
            &&& s.italic == (is_set_to(m, "font-style"@, "italic"@) || is_set_to(
                m,
                "font-style"@,
                "oblique"@,
            ))
            &&& s.font_weight == font_weight_in(m)
            &&& s.font_families == font_families_in(m)
            &&& s.orphans == int_in(m, "orphans"@, 2)
            &&& s.widows == int_in(m, "widows"@, 2)
            &&& s.z_index == z_index_in(m)
            &&& s.inset_top == length_in(m, "top"@, fs as int, LengthPct::Auto, vp)
            &&& s.inset_right == length_in(m, "right"@, fs as int, LengthPct::Auto, vp)
            &&& s.inset_bottom == length_in(m, "bottom"@, fs as int, LengthPct::Auto, vp)
            &&& s.inset_left == length_in(m, "left"@, fs as int, LengthPct::Auto, vp)
            &&& s.width == length_in(m, "width"@, fs as int, LengthPct::Auto, vp)
            &&& s.height == length_in(m, "height"@, fs as int, LengthPct::Auto, vp)
            &&& s.min_width == length_in(m, "min-width"@, fs as int, LengthPct::Px(0), vp)
            &&& s.max_width == length_in(m, "max-width"@, fs as int, LengthPct::Auto, vp)
            &&& s.min_height == length_in(m, "min-height"@, fs as int, LengthPct::Px(0), vp)
            &&& s.max_height == length_in(m, "max-height"@, fs as int, LengthPct::Auto, vp)
            &&& s.margin == edges_in(m, "margin"@, fs as int, cb, vp)
            &&& s.padding == edges_in(m, "padding"@, fs as int, cb, vp)
            &&& s.border == borders_in(m, fs as int, vp)
            &&& s.border_radius == border_radius_in(m, fs as int, vp)
            &&& s.aspect_ratio == aspect_ratio_in(m)
            &&& s.color == current_color(m)
            &&& s.line_height == line_height_in(m, fs as int, vp)
            &&& s.letter_spacing == letter_spacing_in(m, fs as int, vp)
            &&& s.background == background_in(m)
            &&& s.box_shadow == shadow_in(m, fs as int, vp)
            &&& s.background_gradient == gradient_in(m)
            &&& s.transform == transform_in(m, fs as int, vp)
            &&& s.transform_origin == transform_origin_in(m, fs as int, vp)
        }),
{
    reveal(box_style_in);
}

proof fn lemma_display(m: StyleMap)
    ensures
        says(m, "display"@, "block"@) ==> display_in(m) == Display::Block,
        says(m, "display"@, "inline"@) ==> display_in(m) == Display::Inline,
        says(m, "display"@, "inline-block"@) ==> display_in(m) == Display::InlineBlock,
        says(m, "display"@, "flex"@) ==> display_in(m) == Display::Flex,
        says(m, "display"@, "inline-flex"@) ==> display_in(m) == Display::Flex,
        says(m, "display"@, "grid"@) ==> display_in(m) == Display::Grid,
        says(m, "display"@, "inline-grid"@) ==> display_in(m) == Display::Grid,
        says(m, "display"@, "none"@) ==> display_in(m) == Display::Hidden,
        says(m, "display"@, "table"@) ==> display_in(m) == Display::Table,
        says(m, "display"@, "table-row"@) ==> display_in(m) == Display::TableRow,
        says(m, "display"@, "table-cell"@) ==> display_in(m) == Display::TableCell,
        says(m, "display"@, "table-header-group"@) ==> display_in(m) == Display::TableHeaderGroup,
        says(m, "display"@, "table-footer-group"@) ==> display_in(m) == Display::TableFooterGroup,
        says(m, "display"@, "list-item"@) ==> display_in(m) == Display::ListItem,
        unset(m, "display"@) ==> display_in(m) == Display::Block,
{
    reveal_strlit("block");
    reveal_strlit("inline");
    reveal_strlit("inline-block");
    reveal_strlit("flex");
    reveal_strlit("inline-flex");
    reveal_strlit("grid");
    reveal_strlit("inline-grid");
    reveal_strlit("none");
    reveal_strlit("table");
    reveal_strlit("table-row");
    reveal_strlit("table-cell");
    reveal_strlit("table-header-group");
    reveal_strlit("table-footer-group");
    reveal_strlit("list-item");
    assert("block"@.len() == 5);
    assert("inline"@.len() == 6);
    assert("inline-block"@.len() == 12);
    assert("flex"@.len() == 4);
    assert("inline-flex"@.len() == 11);
    assert("grid"@.len() == 4);
    assert("inline-grid"@.len() == 11);
    assert("none"@.len() == 4);
    assert("table"@.len() == 5);
    assert("table-row"@.len() == 9);
    assert("table-cell"@.len() == 10);
    assert("table-header-group"@.len() == 18);
    assert("table-footer-group"@.len() == 18);
    assert("list-item"@.len() == 9);
    assert("block"@[0] == 'b');
    assert("table"@[0] == 't');
    assert("flex"@[0] == 'f');
    assert("grid"@[0] == 'g');
    assert("none"@[0] == 'n');
    assert("inline-flex"@[7] == 'f');
    assert("inline-grid"@[7] == 'g');
    assert("table-row"@[0] == 't');
    assert("list-item"@[0] == 'l');
    assert("table-header-group"@[6] == 'h');
    assert("table-footer-group"@[6] == 'f');
    lemma_trimmed_is("block"@);
}

/// Each `display` keyword generates the kind of box it names, and a style without one a block.
pub proof fn law_display(m: StyleMap, ctx: ResolveCtx)
    ensures
        says(m, "display"@, "block"@) ==> box_style_in(m, ctx).display == Display::Block,
        says(m, "display"@, "inline"@) ==> box_style_in(m, ctx).display == Display::Inline,
        says(m, "display"@, "inline-block"@) ==> box_style_in(m, ctx).display == Display::InlineBlock,
        says(m, "display"@, "flex"@) ==> box_style_in(m, ctx).display == Display::Flex,
        says(m, "display"@, "inline-flex"@) ==> box_style_in(m, ctx).display == Display::Flex,
        says(m, "display"@, "grid"@) ==> box_style_in(m, ctx).display == Display::Grid,
        says(m, "display"@, "inline-grid"@) ==> box_style_in(m, ctx).display == Display::Grid,
        says(m, "display"@, "none"@) ==> box_style_in(m, ctx).display == Display::Hidden,
        says(m, "display"@, "table"@) ==> box_style_in(m, ctx).display == Display::Table,
        says(m, "display"@, "table-row"@) ==> box_style_in(m, ctx).display == Display::TableRow,
        says(m, "display"@, "table-cell"@) ==> box_style_in(m, ctx).display == Display::TableCell,
        says(m, "display"@, "table-header-group"@) ==> box_style_in(m, ctx).display == Display::TableHeaderGroup,
        says(m, "display"@, "table-footer-group"@) ==> box_style_in(m, ctx).display == Display::TableFooterGroup,
        says(m, "display"@, "list-item"@) ==> box_style_in(m, ctx).display == Display::ListItem,
        unset(m, "display"@) ==> box_style_in(m, ctx).display == Display::Block,
{
    lemma_fields(m, ctx);
    lemma_display(m);
}

proof fn lemma_position(m: StyleMap)
    ensures
        says(m, "position"@, "relative"@) ==> position_in(m) == Position::Relative,
        says(m, "position"@, "absolute"@) ==> position_in(m) == Position::Absolute,
        says(m, "position"@, "fixed"@) ==> position_in(m) == Position::Fixed,
        says(m, "position"@, "sticky"@) ==> position_in(m) == Position::Sticky,
        unset(m, "position"@) ==> position_in(m) == Position::Static,
        !says(m, "position"@, "relative"@) && !says(m, "position"@, "absolute"@) && !says(m, "position"@, "fixed"@) && !says(m, "position"@, "sticky"@) ==> position_in(m) == Position::Static,
{
    reveal_strlit("relative");
    reveal_strlit("absolute");
    reveal_strlit("fixed");
    reveal_strlit("sticky");
    reveal_strlit("static");
    assert("relative"@.len() == 8);
    assert("absolute"@.len() == 8);
    assert("fixed"@.len() == 5);
    assert("sticky"@.len() == 6);
    assert("static"@.len() == 6);
    assert("relative"@[0] == 'r');
    assert("absolute"@[0] == 'a');
    assert("sticky"@[2] == 'i');
    assert("static"@[2] == 'a');
    lemma_trimmed_is("static"@);
}

/// A box is positioned as its style says, and in flow where it says nothing.
pub proof fn law_position(m: StyleMap, ctx: ResolveCtx)
    ensures
        says(m, "position"@, "relative"@) ==> box_style_in(m, ctx).position == Position::Relative,
        says(m, "position"@, "absolute"@) ==> box_style_in(m, ctx).position == Position::Absolute,
        says(m, "position"@, "fixed"@) ==> box_style_in(m, ctx).position == Position::Fixed,
        says(m, "position"@, "sticky"@) ==> box_style_in(m, ctx).position == Position::Sticky,
        unset(m, "position"@) ==> box_style_in(m, ctx).position == Position::Static,
        !says(m, "position"@, "relative"@) && !says(m, "position"@, "absolute"@) && !says(m, "position"@, "fixed"@) && !says(m, "position"@, "sticky"@) ==> box_style_in(m, ctx).position == Position::Static,
{
    lemma_fields(m, ctx);
    lemma_position(m);
}

proof fn lemma_float(m: StyleMap)
    ensures
        says(m, "float"@, "left"@) ==> float_in(m) == Float::Left,
        says(m, "float"@, "right"@) ==> float_in(m) == Float::Right,
        unset(m, "float"@) ==> float_in(m) == Float::Neither,
        !says(m, "float"@, "left"@) && !says(m, "float"@, "right"@) ==> float_in(m) == Float::Neither,
{
    reveal_strlit("left");
    reveal_strlit("right");
    reveal_strlit("none");
    assert("left"@.len() == 4);
    assert("right"@.len() == 5);
    assert("none"@.len() == 4);
    assert("left"@[0] == 'l');
    assert("none"@[0] == 'n');
    lemma_trimmed_is("none"@);
}

/// A box floats to the side it names, and to none where it names none.
pub proof fn law_float(m: StyleMap, ctx: ResolveCtx)
    ensures
        says(m, "float"@, "left"@) ==> box_style_in(m, ctx).float == Float::Left,
        says(m, "float"@, "right"@) ==> box_style_in(m, ctx).float == Float::Right,
        unset(m, "float"@) ==> box_style_in(m, ctx).float == Float::Neither,
        !says(m, "float"@, "left"@) && !says(m, "float"@, "right"@) ==> box_style_in(m, ctx).float == Float::Neither,
{
    lemma_fields(m, ctx);
    lemma_float(m);
}

proof fn lemma_text_align(m: StyleMap)
    ensures
        says(m, "text-align"@, "right"@) ==> align_in(m) == Align::Right,
        says(m, "text-align"@, "center"@) ==> align_in(m) == Align::Center,
        says(m, "text-align"@, "justify"@) ==> align_in(m) == Align::Justify,
        unset(m, "text-align"@) ==> align_in(m) == Align::Left,
        !says(m, "text-align"@, "right"@) && !says(m, "text-align"@, "center"@) && !says(m, "text-align"@, "justify"@) ==> align_in(m) == Align::Left,
{
    reveal_strlit("right");
    reveal_strlit("center");
    reveal_strlit("justify");
    reveal_strlit("left");
    assert("right"@.len() == 5);
    assert("center"@.len() == 6);
    assert("justify"@.len() == 7);
    assert("left"@.len() == 4);
    lemma_trimmed_is("left"@);
}

/// Text is aligned as its style says, to the left where it says nothing.
pub proof fn law_text_align(m: StyleMap, ctx: ResolveCtx)
    ensures
        says(m, "text-align"@, "right"@) ==> box_style_in(m, ctx).text_align == Align::Right,
        says(m, "text-align"@, "center"@) ==> box_style_in(m, ctx).text_align == Align::Center,
        says(m, "text-align"@, "justify"@) ==> box_style_in(m, ctx).text_align == Align::Justify,
        unset(m, "text-align"@) ==> box_style_in(m, ctx).text_align == Align::Left,
        !says(m, "text-align"@, "right"@) && !says(m, "text-align"@, "center"@) && !says(m, "text-align"@, "justify"@) ==> box_style_in(m, ctx).text_align == Align::Left,
{
    lemma_fields(m, ctx);
    lemma_text_align(m);
}

proof fn lemma_white_space(m: StyleMap)
    ensures
        says(m, "white-space"@, "pre"@) ==> white_space_in(m) == WhiteSpace::Pre,
        says(m, "white-space"@, "nowrap"@) ==> white_space_in(m) == WhiteSpace::NoWrap,
        unset(m, "white-space"@) ==> white_space_in(m) == WhiteSpace::Normal,
        !says(m, "white-space"@, "pre"@) && !says(m, "white-space"@, "nowrap"@) ==> white_space_in(m) == WhiteSpace::Normal,
{
    reveal_strlit("pre");
    reveal_strlit("nowrap");
    reveal_strlit("normal");
    assert("pre"@.len() == 3);
    assert("nowrap"@.len() == 6);
    assert("normal"@.len() == 6);
    assert("nowrap"@[2] == 'w');
    assert("normal"@[2] == 'r');
    lemma_trimmed_is("normal"@);
}

/// Only `pre` and `nowrap` change how white space is treated.
pub proof fn law_white_space(m: StyleMap, ctx: ResolveCtx)
    ensures
        says(m, "white-space"@, "pre"@) ==> box_style_in(m, ctx).white_space == WhiteSpace::Pre,
        says(m, "white-space"@, "nowrap"@) ==> box_style_in(m, ctx).white_space == WhiteSpace::NoWrap,
        unset(m, "white-space"@) ==> box_style_in(m, ctx).white_space == WhiteSpace::Normal,
        !says(m, "white-space"@, "pre"@) && !says(m, "white-space"@, "nowrap"@) ==> box_style_in(m, ctx).white_space == WhiteSpace::Normal,
{
    lemma_fields(m, ctx);
    lemma_white_space(m);
}

proof fn lemma_vertical_align(m: StyleMap)
    ensures
        says(m, "vertical-align"@, "sub"@) ==> vertical_align_in(m) == VAlign::Sub,
        says(m, "vertical-align"@, "super"@) ==> vertical_align_in(m) == VAlign::Super,
        says(m, "vertical-align"@, "middle"@) ==> vertical_align_in(m) == VAlign::Middle,
        says(m, "vertical-align"@, "top"@) ==> vertical_align_in(m) == VAlign::Top,
        says(m, "vertical-align"@, "bottom"@) ==> vertical_align_in(m) == VAlign::Bottom,
        unset(m, "vertical-align"@) ==> vertical_align_in(m) == VAlign::Baseline,
        !says(m, "vertical-align"@, "sub"@) && !says(m, "vertical-align"@, "super"@) && !says(m, "vertical-align"@, "middle"@) && !says(m, "vertical-align"@, "top"@) && !says(m, "vertical-align"@, "bottom"@) ==> vertical_align_in(m) == VAlign::Baseline,
{
    reveal_strlit("sub");
    reveal_strlit("super");
    reveal_strlit("middle");
    reveal_strlit("top");
    reveal_strlit("bottom");
    reveal_strlit("baseline");
    assert("sub"@.len() == 3);
    assert("super"@.len() == 5);
    assert("middle"@.len() == 6);
    assert("top"@.len() == 3);
    assert("bottom"@.len() == 6);
    assert("baseline"@.len() == 8);
    assert("sub"@[0] == 's');
    assert("top"@[0] == 't');
    assert("middle"@[0] == 'm');
    assert("bottom"@[0] == 'b');
    lemma_trimmed_is("baseline"@);
}

/// A box or a run stands in its line or cell as its style says, on the baseline otherwise.
pub proof fn law_vertical_align(m: StyleMap, ctx: ResolveCtx)
    ensures
        says(m, "vertical-align"@, "sub"@) ==> box_style_in(m, ctx).vertical_align == VAlign::Sub,
        says(m, "vertical-align"@, "super"@) ==> box_style_in(m, ctx).vertical_align == VAlign::Super,
        says(m, "vertical-align"@, "middle"@) ==> box_style_in(m, ctx).vertical_align == VAlign::Middle,
        says(m, "vertical-align"@, "top"@) ==> box_style_in(m, ctx).vertical_align == VAlign::Top,
        says(m, "vertical-align"@, "bottom"@) ==> box_style_in(m, ctx).vertical_align == VAlign::Bottom,
        unset(m, "vertical-align"@) ==> box_style_in(m, ctx).vertical_align == VAlign::Baseline,
        !says(m, "vertical-align"@, "sub"@) && !says(m, "vertical-align"@, "super"@) && !says(m, "vertical-align"@, "middle"@) && !says(m, "vertical-align"@, "top"@) && !says(m, "vertical-align"@, "bottom"@) ==> box_style_in(m, ctx).vertical_align == VAlign::Baseline,
{
    lemma_fields(m, ctx);
    lemma_vertical_align(m);
}

proof fn lemma_break_before(m: StyleMap)
    ensures
        says(m, "break-before"@, "avoid"@) ==> break_rule_in(m, "break-before"@) == BreakRule::Avoid,
        says(m, "break-before"@, "page"@) ==> break_rule_in(m, "break-before"@) == BreakRule::Page,
        says(m, "break-before"@, "column"@) ==> break_rule_in(m, "break-before"@) == BreakRule::Page,
        unset(m, "break-before"@) ==> break_rule_in(m, "break-before"@) == BreakRule::Auto,
        !says(m, "break-before"@, "avoid"@) && !says(m, "break-before"@, "page"@) && !says(m, "break-before"@, "column"@) ==> break_rule_in(m, "break-before"@) == BreakRule::Auto,
{
    reveal_strlit("avoid");
    reveal_strlit("page");
    reveal_strlit("column");
    reveal_strlit("auto");
    assert("avoid"@.len() == 5);
    assert("page"@.len() == 4);
    assert("column"@.len() == 6);
    assert("auto"@.len() == 4);
    assert("page"@[0] == 'p');
    assert("auto"@[0] == 'a');
    lemma_trimmed_is("auto"@);
}

/// `break-before` forces a page for `page` and `column`, and avoids one for `avoid`.
pub proof fn law_break_before(m: StyleMap, ctx: ResolveCtx)
    ensures
        says(m, "break-before"@, "avoid"@) ==> box_style_in(m, ctx).break_before == BreakRule::Avoid,
        says(m, "break-before"@, "page"@) ==> box_style_in(m, ctx).break_before == BreakRule::Page,
        says(m, "break-before"@, "column"@) ==> box_style_in(m, ctx).break_before == BreakRule::Page,
        unset(m, "break-before"@) ==> box_style_in(m, ctx).break_before == BreakRule::Auto,
        !says(m, "break-before"@, "avoid"@) && !says(m, "break-before"@, "page"@) && !says(m, "break-before"@, "column"@) ==> box_style_in(m, ctx).break_before == BreakRule::Auto,
{
    lemma_fields(m, ctx);
    lemma_break_before(m);
}

proof fn lemma_break_after(m: StyleMap)
    ensures
        says(m, "break-after"@, "avoid"@) ==> break_rule_in(m, "break-after"@) == BreakRule::Avoid,
        says(m, "break-after"@, "page"@) ==> break_rule_in(m, "break-after"@) == BreakRule::Page,
        says(m, "break-after"@, "column"@) ==> break_rule_in(m, "break-after"@) == BreakRule::Page,
        unset(m, "break-after"@) ==> break_rule_in(m, "break-after"@) == BreakRule::Auto,
        !says(m, "break-after"@, "avoid"@) && !says(m, "break-after"@, "page"@) && !says(m, "break-after"@, "column"@) ==> break_rule_in(m, "break-after"@) == BreakRule::Auto,
{
    reveal_strlit("avoid");
    reveal_strlit("page");
    reveal_strlit("column");
    reveal_strlit("auto");
    assert("avoid"@.len() == 5);
    assert("page"@.len() == 4);
    assert("column"@.len() == 6);
    assert("auto"@.len() == 4);
    assert("page"@[0] == 'p');
    assert("auto"@[0] == 'a');
    lemma_trimmed_is("auto"@);
}

/// `break-after` forces a page for `page` and `column`, and avoids one for `avoid`.
pub proof fn law_break_after(m: StyleMap, ctx: ResolveCtx)
    ensures
        says(m, "break-after"@, "avoid"@) ==> box_style_in(m, ctx).break_after == BreakRule::Avoid,
        says(m, "break-after"@, "page"@) ==> box_style_in(m, ctx).break_after == BreakRule::Page,
        says(m, "break-after"@, "column"@) ==> box_style_in(m, ctx).break_after == BreakRule::Page,
        unset(m, "break-after"@) ==> box_style_in(m, ctx).break_after == BreakRule::Auto,
        !says(m, "break-after"@, "avoid"@) && !says(m, "break-after"@, "page"@) && !says(m, "break-after"@, "column"@) ==> box_style_in(m, ctx).break_after == BreakRule::Auto,
{
    lemma_fields(m, ctx);
    lemma_break_after(m);
}

/// Only `break-inside: avoid` keeps a box whole.
pub proof fn law_break_inside(m: StyleMap, ctx: ResolveCtx)
    ensures
        says(m, "break-inside"@, "avoid"@) ==> box_style_in(m, ctx).break_inside_avoid == true,
        !says(m, "break-inside"@, "avoid"@) ==> box_style_in(m, ctx).break_inside_avoid == false,
{
    lemma_fields(m, ctx);
    reveal_strlit("avoid");
    assert("avoid"@.len() == 5);
}

proof fn lemma_box_sizing(m: StyleMap)
    ensures
        says(m, "box-sizing"@, "border-box"@) ==> box_sizing_in(m) == BoxSizing::BorderBox,
        !says(m, "box-sizing"@, "border-box"@) ==> box_sizing_in(m) == BoxSizing::ContentBox,
{
    reveal_strlit("border-box");
    assert("border-box"@.len() == 10);
}

/// Sizes are those of the border box only where the style says so.
pub proof fn law_box_sizing(m: StyleMap, ctx: ResolveCtx)
    ensures
        says(m, "box-sizing"@, "border-box"@) ==> box_style_in(m, ctx).box_sizing == BoxSizing::BorderBox,
        !says(m, "box-sizing"@, "border-box"@) ==> box_style_in(m, ctx).box_sizing == BoxSizing::ContentBox,
{
    lemma_fields(m, ctx);
    lemma_box_sizing(m);
}

/// Text is slanted where it is italic or oblique, and nowhere else.
pub proof fn law_font_style(m: StyleMap, ctx: ResolveCtx)
    ensures
        says(m, "font-style"@, "italic"@) ==> box_style_in(m, ctx).italic == true,
        says(m, "font-style"@, "oblique"@) ==> box_style_in(m, ctx).italic == true,
        !says(m, "font-style"@, "italic"@) && !says(m, "font-style"@, "oblique"@) ==> box_style_in(m, ctx).italic == false,
{
    lemma_fields(m, ctx);
    reveal_strlit("italic");
    reveal_strlit("oblique");
    assert("italic"@.len() == 6);
    assert("oblique"@.len() == 7);
}

/// Bold text has the weight 700 and normal text 400, as has text without a weight; a
/// number is its own weight. So bold text is heavier than normal text.
pub proof fn law_font_weight(m: StyleMap, ctx: ResolveCtx)
    ensures
        says(m, "font-weight"@, "bold"@) ==> box_style_in(m, ctx).font_weight == 700,
        says(m, "font-weight"@, "normal"@) ==> box_style_in(m, ctx).font_weight == 400,
        unset(m, "font-weight"@) ==> box_style_in(m, ctx).font_weight == 400,
        m.contains_key("font-weight"@) ==> (natural_of(trimmed(m["font-weight"@])) matches Some(n)
            ==> (n <= 65535 ==> box_style_in(m, ctx).font_weight == n)),
{
    lemma_fields(m, ctx);
    reveal_strlit("bold");
    reveal_strlit("normal");
    lemma_trimmed_is("normal"@);
    assert(natural_of("bold"@) is None) by {
        assert(crate::number::signed("bold"@).1 == "bold"@);
        assert(!crate::number::is_digit("bold"@[0]));
    }
    assert(natural_of("normal"@) is None) by {
        assert(crate::number::signed("normal"@).1 == "normal"@);
        assert(!crate::number::is_digit("normal"@[0]));
    }
}

/// `orphans`, `widows` and `z-index` are the whole numbers they are set to; without
/// one, two lines stay together and there is no index.
pub proof fn law_whole_numbers(m: StyleMap, ctx: ResolveCtx)
    ensures
        unset(m, "orphans"@) ==> box_style_in(m, ctx).orphans == 2,
        unset(m, "widows"@) ==> box_style_in(m, ctx).widows == 2,
        unset(m, "z-index"@) ==> box_style_in(m, ctx).z_index is None,
        m.contains_key("orphans"@) ==> (natural_of(trimmed(m["orphans"@])) matches Some(n) ==> (n <= 255
            ==> box_style_in(m, ctx).orphans == n)),
        m.contains_key("widows"@) ==> (natural_of(trimmed(m["widows"@])) matches Some(n) ==> (n <= 255
            ==> box_style_in(m, ctx).widows == n)),
        m.contains_key("z-index"@) ==> (int_of(trimmed(m["z-index"@])) matches Some(n) ==> (i32::MIN
            <= n <= i32::MAX ==> box_style_in(m, ctx).z_index == Some(n as i32))),
{
    lemma_fields(m, ctx);
}

/// A whole number that cannot be read, or is too large, counts as unset.
pub proof fn law_unreadable_whole_numbers(m: StyleMap, ctx: ResolveCtx)
    ensures
        m.contains_key("orphans"@) && natural_of(trimmed(m["orphans"@])) is None ==> box_style_in(
            m,
            ctx,
        ).orphans == 2,
        m.contains_key("widows"@) && natural_of(trimmed(m["widows"@])) is None ==> box_style_in(
            m,
            ctx,
        ).widows == 2,
        m.contains_key("z-index"@) && int_of(trimmed(m["z-index"@])) is None ==> box_style_in(
            m,
            ctx,
        ).z_index is None,
{
    lemma_fields(m, ctx);
}

} // verus!
