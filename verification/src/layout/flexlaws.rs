//! What flex and grid containers and their items ask of the solver, by the words of
//! their styles.

use vstd::prelude::*;
use vstd::string::*;

use crate::layout::flex::{
    AlignItems, Dimension, FlexDirection, FlexWrap, JustifyContent, align_self_in, axis_gap,
    container_in, first_basis, grid_justify_in, inline_aligned, item_in, justify_self_in,
    numbers_in,
};
use crate::layout::grid::{axis_template, template};
use crate::layout::grid_areas::{grid_container_in, AreaMapV};
use crate::layout::length::{DEFAULT_FONT_SIZE, LengthPct, Viewport, px_of};
use crate::layout::value::{box_style_in, keyword, Position, ResolveCtx};
use crate::layout::valuelaws::{lemma_trimmed_is, says, unset};
use crate::number::{value_of, ONE};
use crate::scan::{starts, trimmed, words_in};
use crate::style::StyleMap;

verus! {

/// Items run along the axis that `flex-direction` names, along the row where it names none.
pub proof fn law_flex_direction(m: StyleMap, cw: i64, fs: i64, cb_h: i64, vp: Viewport)
    ensures
        says(m, "flex-direction"@, "row"@) ==> container_in(m, cw, fs, cb_h, vp).direction == FlexDirection::Row,
        says(m, "flex-direction"@, "row-reverse"@) ==> container_in(m, cw, fs, cb_h, vp).direction == FlexDirection::RowReverse,
        says(m, "flex-direction"@, "column"@) ==> container_in(m, cw, fs, cb_h, vp).direction == FlexDirection::Column,
        says(m, "flex-direction"@, "column-reverse"@) ==> container_in(m, cw, fs, cb_h, vp).direction == FlexDirection::ColumnReverse,
        unset(m, "flex-direction"@) ==> container_in(m, cw, fs, cb_h, vp).direction == FlexDirection::Row,
        !says(m, "flex-direction"@, "row"@) && !says(m, "flex-direction"@, "row-reverse"@) && !says(m, "flex-direction"@, "column"@) && !says(m, "flex-direction"@, "column-reverse"@) && !unset(m, "flex-direction"@) ==> container_in(m, cw, fs, cb_h, vp).direction == FlexDirection::Row,
{
    reveal_strlit("row");
    reveal_strlit("row-reverse");
    reveal_strlit("column");
    reveal_strlit("column-reverse");
    assert("row"@.len() == 3);
    assert("row-reverse"@.len() == 11);
    assert("column"@.len() == 6);
    assert("column-reverse"@.len() == 14);
    lemma_trimmed_is("row"@);
}

/// A container wraps its items where it says `wrap`, from the other side where it says `wrap-reverse`, and not at all otherwise.
pub proof fn law_flex_wrap(m: StyleMap, cw: i64, fs: i64, cb_h: i64, vp: Viewport)
    ensures
        says(m, "flex-wrap"@, "wrap"@) ==> container_in(m, cw, fs, cb_h, vp).wrap == FlexWrap::Wrap,
        says(m, "flex-wrap"@, "wrap-reverse"@) ==> container_in(m, cw, fs, cb_h, vp).wrap == FlexWrap::WrapReverse,
        says(m, "flex-wrap"@, "nowrap"@) ==> container_in(m, cw, fs, cb_h, vp).wrap == FlexWrap::NoWrap,
        unset(m, "flex-wrap"@) ==> container_in(m, cw, fs, cb_h, vp).wrap == FlexWrap::NoWrap,
        !says(m, "flex-wrap"@, "wrap"@) && !says(m, "flex-wrap"@, "wrap-reverse"@) && !says(m, "flex-wrap"@, "nowrap"@) && !unset(m, "flex-wrap"@) ==> container_in(m, cw, fs, cb_h, vp).wrap == FlexWrap::NoWrap,
{
    reveal_strlit("wrap");
    reveal_strlit("wrap-reverse");
    reveal_strlit("nowrap");
    assert("wrap"@.len() == 4);
    assert("wrap-reverse"@.len() == 12);
    assert("nowrap"@.len() == 6);
    lemma_trimmed_is("nowrap"@);
}

/// Items are distributed along the main axis as `justify-content` says, from its start by default.
pub proof fn law_justify_content(m: StyleMap, cw: i64, fs: i64, cb_h: i64, vp: Viewport)
    ensures
        says(m, "justify-content"@, "flex-start"@) ==> container_in(m, cw, fs, cb_h, vp).justify_content == Some(JustifyContent::FlexStart),
        says(m, "justify-content"@, "start"@) ==> container_in(m, cw, fs, cb_h, vp).justify_content == Some(JustifyContent::FlexStart),
        says(m, "justify-content"@, "flex-end"@) ==> container_in(m, cw, fs, cb_h, vp).justify_content == Some(JustifyContent::FlexEnd),
        says(m, "justify-content"@, "end"@) ==> container_in(m, cw, fs, cb_h, vp).justify_content == Some(JustifyContent::FlexEnd),
        says(m, "justify-content"@, "center"@) ==> container_in(m, cw, fs, cb_h, vp).justify_content == Some(JustifyContent::Center),
        says(m, "justify-content"@, "space-between"@) ==> container_in(m, cw, fs, cb_h, vp).justify_content == Some(JustifyContent::SpaceBetween),
        says(m, "justify-content"@, "space-around"@) ==> container_in(m, cw, fs, cb_h, vp).justify_content == Some(JustifyContent::SpaceAround),
        says(m, "justify-content"@, "space-evenly"@) ==> container_in(m, cw, fs, cb_h, vp).justify_content == Some(JustifyContent::SpaceEvenly),
        unset(m, "justify-content"@) ==> container_in(m, cw, fs, cb_h, vp).justify_content == Some(JustifyContent::FlexStart),
        !says(m, "justify-content"@, "flex-start"@) && !says(m, "justify-content"@, "start"@) && !says(m, "justify-content"@, "flex-end"@) && !says(m, "justify-content"@, "end"@) && !says(m, "justify-content"@, "center"@) && !says(m, "justify-content"@, "space-between"@) && !says(m, "justify-content"@, "space-around"@) && !says(m, "justify-content"@, "space-evenly"@) && !unset(m, "justify-content"@) ==> container_in(m, cw, fs, cb_h, vp).justify_content == Some(JustifyContent::FlexStart),
{
    reveal_strlit("flex-start");
    reveal_strlit("start");
    reveal_strlit("flex-end");
    reveal_strlit("end");
    reveal_strlit("center");
    reveal_strlit("space-between");
    reveal_strlit("space-around");
    reveal_strlit("space-evenly");
    assert("flex-start"@.len() == 10);
    assert("start"@.len() == 5);
    assert("flex-end"@.len() == 8);
    assert("end"@.len() == 3);
    assert("center"@.len() == 6);
    assert("space-between"@.len() == 13);
    assert("space-around"@.len() == 12);
    assert("space-evenly"@.len() == 12);
    assert("space-around"@[6] == 'a');
    assert("space-evenly"@[6] == 'e');
    lemma_trimmed_is("flex-start"@);
}

/// Tracks are distributed as `justify-content` says; without it the solver stretches them.
pub proof fn law_grid_justify_content(m: StyleMap)
    ensures
        says(m, "justify-content"@, "flex-start"@) ==> grid_justify_in(m) == Some(JustifyContent::FlexStart),
        says(m, "justify-content"@, "start"@) ==> grid_justify_in(m) == Some(JustifyContent::FlexStart),
        says(m, "justify-content"@, "flex-end"@) ==> grid_justify_in(m) == Some(JustifyContent::FlexEnd),
        says(m, "justify-content"@, "end"@) ==> grid_justify_in(m) == Some(JustifyContent::FlexEnd),
        says(m, "justify-content"@, "center"@) ==> grid_justify_in(m) == Some(JustifyContent::Center),
        says(m, "justify-content"@, "space-between"@) ==> grid_justify_in(m) == Some(JustifyContent::SpaceBetween),
        says(m, "justify-content"@, "space-around"@) ==> grid_justify_in(m) == Some(JustifyContent::SpaceAround),
        says(m, "justify-content"@, "space-evenly"@) ==> grid_justify_in(m) == Some(JustifyContent::SpaceEvenly),
        unset(m, "justify-content"@) ==> grid_justify_in(m) is None,
        !says(m, "justify-content"@, "flex-start"@) && !says(m, "justify-content"@, "start"@) && !says(m, "justify-content"@, "flex-end"@) && !says(m, "justify-content"@, "end"@) && !says(m, "justify-content"@, "center"@) && !says(m, "justify-content"@, "space-between"@) && !says(m, "justify-content"@, "space-around"@) && !says(m, "justify-content"@, "space-evenly"@) && !unset(m, "justify-content"@) ==> grid_justify_in(m) == Some(JustifyContent::FlexStart),
{
    reveal_strlit("flex-start");
    reveal_strlit("start");
    reveal_strlit("flex-end");
    reveal_strlit("end");
    reveal_strlit("center");
    reveal_strlit("space-between");
    reveal_strlit("space-around");
    reveal_strlit("space-evenly");
    assert("flex-start"@.len() == 10);
    assert("start"@.len() == 5);
    assert("flex-end"@.len() == 8);
    assert("end"@.len() == 3);
    assert("center"@.len() == 6);
    assert("space-between"@.len() == 13);
    assert("space-around"@.len() == 12);
    assert("space-evenly"@.len() == 12);
    assert("space-around"@[6] == 'a');
    assert("space-evenly"@[6] == 'e');
    lemma_trimmed_is("flex-start"@);
}

/// Items stand on the cross axis as `align-items` says, stretched by default.
pub proof fn law_align_items(m: StyleMap, cw: i64, fs: i64, cb_h: i64, vp: Viewport)
    ensures
        says(m, "align-items"@, "flex-start"@) ==> container_in(m, cw, fs, cb_h, vp).align_items == Some(AlignItems::FlexStart),
        says(m, "align-items"@, "start"@) ==> container_in(m, cw, fs, cb_h, vp).align_items == Some(AlignItems::FlexStart),
        says(m, "align-items"@, "flex-end"@) ==> container_in(m, cw, fs, cb_h, vp).align_items == Some(AlignItems::FlexEnd),
        says(m, "align-items"@, "end"@) ==> container_in(m, cw, fs, cb_h, vp).align_items == Some(AlignItems::FlexEnd),
        says(m, "align-items"@, "center"@) ==> container_in(m, cw, fs, cb_h, vp).align_items == Some(AlignItems::Center),
        says(m, "align-items"@, "baseline"@) ==> container_in(m, cw, fs, cb_h, vp).align_items == Some(AlignItems::Baseline),
        says(m, "align-items"@, "stretch"@) ==> container_in(m, cw, fs, cb_h, vp).align_items == Some(AlignItems::Stretch),
        unset(m, "align-items"@) ==> container_in(m, cw, fs, cb_h, vp).align_items == Some(AlignItems::Stretch),
        !says(m, "align-items"@, "flex-start"@) && !says(m, "align-items"@, "start"@) && !says(m, "align-items"@, "flex-end"@) && !says(m, "align-items"@, "end"@) && !says(m, "align-items"@, "center"@) && !says(m, "align-items"@, "baseline"@) && !says(m, "align-items"@, "stretch"@) && !unset(m, "align-items"@) ==> container_in(m, cw, fs, cb_h, vp).align_items == Some(AlignItems::Stretch),
{
    reveal_strlit("flex-start");
    reveal_strlit("start");
    reveal_strlit("flex-end");
    reveal_strlit("end");
    reveal_strlit("center");
    reveal_strlit("baseline");
    reveal_strlit("stretch");
    assert("flex-start"@.len() == 10);
    assert("start"@.len() == 5);
    assert("flex-end"@.len() == 8);
    assert("end"@.len() == 3);
    assert("center"@.len() == 6);
    assert("baseline"@.len() == 8);
    assert("stretch"@.len() == 7);
    assert("flex-end"@[0] == 'f');
    assert("baseline"@[0] == 'b');
    lemma_trimmed_is("stretch"@);
}

/// An item's own `align-self` holds; `auto` leaves it to the container.
pub proof fn law_align_self(m: StyleMap)
    ensures
        says(m, "align-self"@, "flex-start"@) ==> align_self_in(m) == Some(AlignItems::FlexStart),
        says(m, "align-self"@, "start"@) ==> align_self_in(m) == Some(AlignItems::FlexStart),
        says(m, "align-self"@, "flex-end"@) ==> align_self_in(m) == Some(AlignItems::FlexEnd),
        says(m, "align-self"@, "end"@) ==> align_self_in(m) == Some(AlignItems::FlexEnd),
        says(m, "align-self"@, "center"@) ==> align_self_in(m) == Some(AlignItems::Center),
        says(m, "align-self"@, "baseline"@) ==> align_self_in(m) == Some(AlignItems::Baseline),
        says(m, "align-self"@, "stretch"@) ==> align_self_in(m) == Some(AlignItems::Stretch),
        unset(m, "align-self"@) ==> align_self_in(m) is None,
        !says(m, "align-self"@, "flex-start"@) && !says(m, "align-self"@, "start"@) && !says(m, "align-self"@, "flex-end"@) && !says(m, "align-self"@, "end"@) && !says(m, "align-self"@, "center"@) && !says(m, "align-self"@, "baseline"@) && !says(m, "align-self"@, "stretch"@) && !says(m, "align-self"@, "auto"@) && !unset(m, "align-self"@) ==> align_self_in(m) == Some(AlignItems::Stretch),
{
    reveal_strlit("flex-start");
    reveal_strlit("start");
    reveal_strlit("flex-end");
    reveal_strlit("end");
    reveal_strlit("center");
    reveal_strlit("baseline");
    reveal_strlit("stretch");
    reveal_strlit("auto");
    assert("flex-start"@.len() == 10);
    assert("start"@.len() == 5);
    assert("flex-end"@.len() == 8);
    assert("end"@.len() == 3);
    assert("center"@.len() == 6);
    assert("baseline"@.len() == 8);
    assert("stretch"@.len() == 7);
    assert("auto"@.len() == 4);
    assert("flex-end"@[0] == 'f');
    assert("baseline"@[0] == 'b');
    lemma_trimmed_is("auto"@);
}

/// A grid item's own `justify-self` holds; `auto` leaves it to the container.
pub proof fn law_justify_self(m: StyleMap)
    ensures
        says(m, "justify-self"@, "start"@) ==> justify_self_in(m) == Some(AlignItems::Start),
        says(m, "justify-self"@, "flex-start"@) ==> justify_self_in(m) == Some(AlignItems::Start),
        says(m, "justify-self"@, "left"@) ==> justify_self_in(m) == Some(AlignItems::Start),
        says(m, "justify-self"@, "end"@) ==> justify_self_in(m) == Some(AlignItems::End),
        says(m, "justify-self"@, "flex-end"@) ==> justify_self_in(m) == Some(AlignItems::End),
        says(m, "justify-self"@, "right"@) ==> justify_self_in(m) == Some(AlignItems::End),
        says(m, "justify-self"@, "center"@) ==> justify_self_in(m) == Some(AlignItems::Center),
        says(m, "justify-self"@, "stretch"@) ==> justify_self_in(m) == Some(AlignItems::Stretch),
        unset(m, "justify-self"@) ==> justify_self_in(m) is None,
        !says(m, "justify-self"@, "start"@) && !says(m, "justify-self"@, "flex-start"@) && !says(m, "justify-self"@, "left"@) && !says(m, "justify-self"@, "end"@) && !says(m, "justify-self"@, "flex-end"@) && !says(m, "justify-self"@, "right"@) && !says(m, "justify-self"@, "center"@) && !says(m, "justify-self"@, "stretch"@) && !says(m, "justify-self"@, "auto"@) && !unset(m, "justify-self"@) ==> justify_self_in(m) == Some(AlignItems::Stretch),
{
    reveal_strlit("start");
    reveal_strlit("flex-start");
    reveal_strlit("left");
    reveal_strlit("end");
    reveal_strlit("flex-end");
    reveal_strlit("right");
    reveal_strlit("center");
    reveal_strlit("stretch");
    reveal_strlit("auto");
    assert("start"@.len() == 5);
    assert("flex-start"@.len() == 10);
    assert("left"@.len() == 4);
    assert("end"@.len() == 3);
    assert("flex-end"@.len() == 8);
    assert("right"@.len() == 5);
    assert("center"@.len() == 6);
    assert("stretch"@.len() == 7);
    assert("auto"@.len() == 4);
    assert("start"@[0] == 's');
    assert("right"@[0] == 'r');
    assert("left"@[0] == 'l');
    assert("auto"@[0] == 'a');
    lemma_trimmed_is("auto"@);
}

/// Grid items stand on the inline axis as `justify-items` says, stretched by default.
pub proof fn law_justify_items(m: StyleMap)
    ensures
        says(m, "justify-items"@, "start"@) ==> inline_aligned(keyword(m, "justify-items"@, "stretch"@)) == AlignItems::Start,
        says(m, "justify-items"@, "flex-start"@) ==> inline_aligned(keyword(m, "justify-items"@, "stretch"@)) == AlignItems::Start,
        says(m, "justify-items"@, "left"@) ==> inline_aligned(keyword(m, "justify-items"@, "stretch"@)) == AlignItems::Start,
        says(m, "justify-items"@, "end"@) ==> inline_aligned(keyword(m, "justify-items"@, "stretch"@)) == AlignItems::End,
        says(m, "justify-items"@, "flex-end"@) ==> inline_aligned(keyword(m, "justify-items"@, "stretch"@)) == AlignItems::End,
        says(m, "justify-items"@, "right"@) ==> inline_aligned(keyword(m, "justify-items"@, "stretch"@)) == AlignItems::End,
        says(m, "justify-items"@, "center"@) ==> inline_aligned(keyword(m, "justify-items"@, "stretch"@)) == AlignItems::Center,
        says(m, "justify-items"@, "stretch"@) ==> inline_aligned(keyword(m, "justify-items"@, "stretch"@)) == AlignItems::Stretch,
        unset(m, "justify-items"@) ==> inline_aligned(keyword(m, "justify-items"@, "stretch"@)) == AlignItems::Stretch,
        !says(m, "justify-items"@, "start"@) && !says(m, "justify-items"@, "flex-start"@) && !says(m, "justify-items"@, "left"@) && !says(m, "justify-items"@, "end"@) && !says(m, "justify-items"@, "flex-end"@) && !says(m, "justify-items"@, "right"@) && !says(m, "justify-items"@, "center"@) && !says(m, "justify-items"@, "stretch"@) && !unset(m, "justify-items"@) ==> inline_aligned(keyword(m, "justify-items"@, "stretch"@)) == AlignItems::Stretch,
{
    reveal_strlit("start");
    reveal_strlit("flex-start");
    reveal_strlit("left");
    reveal_strlit("end");
    reveal_strlit("flex-end");
    reveal_strlit("right");
    reveal_strlit("center");
    reveal_strlit("stretch");
    assert("start"@.len() == 5);
    assert("flex-start"@.len() == 10);
    assert("left"@.len() == 4);
    assert("end"@.len() == 3);
    assert("flex-end"@.len() == 8);
    assert("right"@.len() == 5);
    assert("center"@.len() == 6);
    assert("stretch"@.len() == 7);
    assert("start"@[0] == 's');
    assert("right"@[0] == 'r');
    lemma_trimmed_is("stretch"@);
}
/// A flex container is as wide as its content box. It has the height it declares, or
/// else the one handed down, and the least and greatest sizes it declares.
pub proof fn law_flex_container_sizes(m: StyleMap, cw: i64, fs: i64, cb_h: i64, vp: Viewport)
    ensures
        ({
            let c = container_in(m, cw, fs, cb_h, vp);
            let s = box_style_in(
                m,
                ResolveCtx { parent_font_size: fs, cb_width: cw, viewport: vp },
            );
            &&& c.width == Dimension::Length(cw)
            &&& s.height matches LengthPct::Px(h) ==> c.height == Dimension::Length(h)
            &&& s.height matches LengthPct::Pct(p) ==> c.height == Dimension::Percent(p)
            &&& s.height is Auto && cb_h > 0 ==> c.height == Dimension::Length(cb_h)
            &&& s.height is Auto && cb_h <= 0 ==> c.height == Dimension::Auto
            &&& s.min_width matches LengthPct::Px(x) ==> c.min_width == Dimension::Length(x)
            &&& s.max_width matches LengthPct::Px(x) ==> c.max_width == Dimension::Length(x)
            &&& s.min_height matches LengthPct::Px(x) ==> c.min_height == Dimension::Length(x)
            &&& s.max_height matches LengthPct::Px(x) ==> c.max_height == Dimension::Length(x)
            &&& s.max_width is Auto ==> c.max_width == Dimension::Auto
            &&& s.max_height is Auto ==> c.max_height == Dimension::Auto
        }),
{
}

/// The gap between items is the length that `gap` names, none without one. On an axis
/// of a grid its own property comes first.
pub proof fn law_gaps(m: StyleMap, cw: i64, fs: i64, cb_h: i64, areas: AreaMapV, vp: Viewport)
    ensures
        unset(m, "gap"@) ==> container_in(m, cw, fs, cb_h, vp).gap == 0,
        m.contains_key("gap"@) ==> (px_of(m["gap"@], DEFAULT_FONT_SIZE as int, vp) matches Some(x)
            ==> container_in(m, cw, fs, cb_h, vp).gap == x as i64),
        m.contains_key("column-gap"@) ==> (px_of(
            m["column-gap"@],
            DEFAULT_FONT_SIZE as int,
            vp,
        ) matches Some(x) ==> grid_container_in(m, cw, areas, vp).column_gap == x as i64),
        m.contains_key("row-gap"@) ==> (px_of(
            m["row-gap"@],
            DEFAULT_FONT_SIZE as int,
            vp,
        ) matches Some(x) ==> grid_container_in(m, cw, areas, vp).row_gap == x as i64),
        unset(m, "column-gap"@) ==> grid_container_in(m, cw, areas, vp).column_gap
            == container_in(m, cw, fs, cb_h, vp).gap,
        unset(m, "row-gap"@) ==> grid_container_in(m, cw, areas, vp).row_gap == container_in(
            m,
            cw,
            fs,
            cb_h,
            vp,
        ).gap,
{
}

/// A grid is as wide as its content box, and its items and tracks are aligned as those
/// of the properties on each axis.
pub proof fn law_grid_container(m: StyleMap, cw: i64, fs: i64, cb_h: i64, areas: AreaMapV, vp: Viewport)
    ensures
        ({
            let g = grid_container_in(m, cw, areas, vp);
            &&& g.width == cw
            &&& g.justify_content == grid_justify_in(m)
            &&& g.align_items == container_in(m, cw, fs, cb_h, vp).align_items
            &&& g.justify_items == Some(inline_aligned(keyword(m, "justify-items"@, "stretch"@)))
            &&& axis_template(m, "grid-template-columns"@, true, vp).len() > 0 ==> g.columns
                == axis_template(m, "grid-template-columns"@, true, vp)
            &&& axis_template(m, "grid-template-rows"@, false, vp).len() > 0 ==> g.rows
                == axis_template(m, "grid-template-rows"@, false, vp)
        }),
{
}

/// Only an absolute or fixed item leaves the flow of its container. It keeps its own
/// insets and size and neither grows nor takes an alignment; every item keeps its
/// margins and its height.
pub proof fn law_items_in_and_out_of_flow(m: StyleMap, fs: i64, vp: Viewport)
    ensures
        ({
            let i = item_in(m, fs, vp);
            let s = box_style_in(
                m,
                ResolveCtx { parent_font_size: fs, cb_width: 0, viewport: vp },
            );
            &&& i.absolute == (s.position == Position::Absolute || s.position == Position::Fixed)
            &&& i.margin == s.margin
            &&& s.height matches LengthPct::Px(h) ==> i.height == Dimension::Length(h)
            &&& s.height is Auto ==> i.height == Dimension::Auto
            &&& i.absolute ==> i.grow == 0
            &&& i.absolute ==> (s.inset_left matches LengthPct::Px(x) ==> i.inset.left
                == Dimension::Length(x))
            &&& i.absolute ==> (s.inset_right matches LengthPct::Px(x) ==> i.inset.right
                == Dimension::Length(x))
            &&& i.absolute ==> (s.inset_top matches LengthPct::Px(x) ==> i.inset.top
                == Dimension::Length(x))
            &&& i.absolute ==> (s.inset_bottom matches LengthPct::Px(x) ==> i.inset.bottom
                == Dimension::Length(x))
            &&& i.absolute && s.inset_left is Auto && s.inset_right is Auto ==> i.inset.left
                == Dimension::Length(0)
            &&& i.absolute ==> (s.width matches LengthPct::Px(x) ==> i.width == Dimension::Length(
                x,
            ))
            &&& !i.absolute ==> i.width == Dimension::Auto && i.align_self == align_self_in(m)
            &&& !i.absolute ==> (s.min_width matches LengthPct::Px(x) ==> i.min_width
                == Dimension::Length(x))
            &&& !i.absolute ==> (s.max_width matches LengthPct::Px(x) ==> i.max_width
                == Dimension::Length(x))
            &&& !i.absolute ==> (s.min_height matches LengthPct::Px(x) ==> i.min_height
                == Dimension::Length(x))
            &&& !i.absolute ==> (s.max_height matches LengthPct::Px(x) ==> i.max_height
                == Dimension::Length(x))
        }),
{
}

/// An item in flow grows and shrinks by its own properties, which come before the
/// `flex` shorthand; without any it shrinks and does not grow.
pub proof fn law_items_flex(m: StyleMap, fs: i64, vp: Viewport)
    requires
        !item_in(m, fs, vp).absolute,
    ensures
        unset(m, "flex"@) && unset(m, "flex-grow"@) ==> item_in(m, fs, vp).grow == 0,
        unset(m, "flex"@) && unset(m, "flex-shrink"@) ==> item_in(m, fs, vp).shrink == ONE,
        m.contains_key("flex-grow"@) ==> (value_of(trimmed(m["flex-grow"@])) matches Some(n)
            ==> item_in(m, fs, vp).grow == n as i64),
        m.contains_key("flex-shrink"@) ==> (value_of(trimmed(m["flex-shrink"@])) matches Some(n)
            ==> item_in(m, fs, vp).shrink == n as i64),
        says(m, "flex"@, "none"@) && unset(m, "flex-grow"@) ==> item_in(m, fs, vp).grow == 0,
        says(m, "flex"@, "none"@) && unset(m, "flex-shrink"@) ==> item_in(m, fs, vp).shrink == 0,
        says(m, "flex"@, "auto"@) && unset(m, "flex-grow"@) ==> item_in(m, fs, vp).grow == ONE,
        says(m, "flex"@, "auto"@) && unset(m, "flex-shrink"@) ==> item_in(m, fs, vp).shrink == ONE,
        says(m, "flex"@, "initial"@) && unset(m, "flex-grow"@) ==> item_in(m, fs, vp).grow == 0,
        says(m, "flex"@, "initial"@) && unset(m, "flex-shrink"@) ==> item_in(m, fs, vp).shrink
            == ONE,
{
    reveal_strlit("none");
    reveal_strlit("auto");
    reveal_strlit("initial");
    assert("none"@.len() == 4);
    assert("auto"@.len() == 4);
    assert("initial"@.len() == 7);
    assert("none"@[0] == 'n');
    assert("auto"@[0] == 'a');
}

/// The numbers of a `flex` shorthand are the factors by which an item grows and, the
/// second, shrinks; a number alone has the item start from nothing.
pub proof fn law_flex_numbers(m: StyleMap, fs: i64, vp: Viewport, a: Seq<char>)
    requires
        !item_in(m, fs, vp).absolute,
        m.contains_key("flex"@),
        !says(m, "flex"@, "none"@),
        !says(m, "flex"@, "auto"@),
        !says(m, "flex"@, "initial"@),
        unset(m, "flex-grow"@),
        unset(m, "flex-shrink"@),
        unset(m, "flex-basis"@),
        words_in(trimmed(m["flex"@])) == seq![a],
        value_of(a) is Some,
    ensures
        item_in(m, fs, vp).grow == value_of(a)->0 as i64,
        item_in(m, fs, vp).shrink == ONE,
        a != "auto"@ ==> item_in(m, fs, vp).basis == Dimension::Length(0),
{
    let w = seq![a];
    assert(numbers_in(w, 0) == Seq::<i64>::empty());
    assert(w[0] == a);
    assert(numbers_in(w, 1) =~= seq![value_of(a)->0 as i64]);
    reveal_strlit("auto");
    assert("auto"@.len() == 4);
    lemma_trimmed_is("auto"@);
    assert(w.skip(1) =~= Seq::<Seq<char>>::empty());
    assert(first_basis(w.skip(1), fs as int, vp) == Some(Dimension::Length(0)));
}

/// An item starts from its `flex-basis`, else from its width.
pub proof fn law_flex_basis(m: StyleMap, fs: i64, vp: Viewport)
    requires
        !item_in(m, fs, vp).absolute,
    ensures
        ({
            let i = item_in(m, fs, vp);
            let s = box_style_in(
                m,
                ResolveCtx { parent_font_size: fs, cb_width: 0, viewport: vp },
            );
            &&& says(m, "flex-basis"@, "content"@) ==> i.basis == Dimension::Auto
            &&& m.contains_key("flex-basis"@) && trimmed(m["flex-basis"@]) != "auto"@ && trimmed(
                m["flex-basis"@],
            ) != "content"@ ==> (px_of(trimmed(m["flex-basis"@]), fs as int, vp) matches Some(x)
                ==> i.basis == Dimension::Length(x as i64))
            &&& unset(m, "flex-basis"@) && unset(m, "flex"@) ==> (s.width matches LengthPct::Px(w)
                ==> i.basis == Dimension::Length(w))
            &&& unset(m, "flex-basis"@) && unset(m, "flex"@) ==> (s.width matches LengthPct::Pct(p)
                ==> i.basis == Dimension::Percent(p))
            &&& unset(m, "flex-basis"@) && unset(m, "flex"@) && s.width is Auto ==> i.basis
                == Dimension::Auto
            &&& unset(m, "flex-basis"@) && says(m, "flex"@, "none"@) ==> i.basis == Dimension::Auto
        }),
{
    reveal_strlit("auto");
    reveal_strlit("content");
    reveal_strlit("none");
    assert("auto"@.len() == 4);
    assert("content"@.len() == 7);
    lemma_trimmed_is("auto"@);
}

/// A gap that cannot be read, or that nothing says, is none.
pub proof fn law_unreadable_gaps(m: StyleMap, axis: Seq<char>, vp: Viewport)
    ensures
        unset(m, axis) && unset(m, "gap"@) ==> axis_gap(m, axis, vp) == 0,
        m.contains_key(axis) && px_of(m[axis], DEFAULT_FONT_SIZE as int, vp) is None ==> axis_gap(
            m,
            axis,
            vp,
        ) == 0,
{
}

} // verus!
