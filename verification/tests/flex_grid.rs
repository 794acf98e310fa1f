use turbo_html2pdf::layout::boxtree::build_box_tree;
use turbo_html2pdf::layout::boxgen::LayoutBox;
use turbo_html2pdf::image::NoImages;
use turbo_html2pdf::layout::flex::{
    abs_item_inset, align_self, container_style, dim, flex_grow_shrink, item_basis, item_inset,
    item_style, justify_content, justify_content_grid, justify_content_value, justify_items,
    AlignItems, Dimension, FlexDirection, JustifyContent,
};
use turbo_html2pdf::layout::grid::{
    grid_tracks, max_track, min_track, quoted_rows, strip_quoted, track_of, MaxTrack, MinTrack,
    Track,
};
use turbo_html2pdf::layout::grid_areas::{
    areas_of, grid_areas, grid_container_style, grid_item_style, grid_line, grid_placement,
    GridLine, GridPlacement,
};
use turbo_html2pdf::layout::length::{LengthPct, Viewport};
use turbo_html2pdf::layout::measure::{min_content_width, natural_width, TextWidth};
use turbo_html2pdf::layout::value::{resolve_box_style, BoxStyle, ResolveCtx};
use turbo_html2pdf::node::{Attr, TKind, Tag};
use turbo_html2pdf::style::{ComputedStyle, StyledElement, StyledNode};

const PX: i64 = 1_000_000;
const PERCENT: i64 = 1_000_000;

fn vp() -> Viewport {
    Viewport::default()
}

fn cs(pairs: &[(&str, &str)]) -> ComputedStyle {
    ComputedStyle::from_pairs(pairs.iter().map(|(k, v)| (k.to_string(), v.to_string())).collect())
}

fn bs_in(pairs: &[(&str, &str)], cb_width: i64) -> BoxStyle {
    resolve_box_style(
        &cs(pairs),
        ResolveCtx { parent_font_size: 16 * PX, cb_width: cb_width * PX, viewport: vp() },
    )
}

fn bs_of(pairs: &[(&str, &str)]) -> BoxStyle {
    bs_in(pairs, 200)
}

fn el(tag: &str, pairs: &[(&str, &str)], children: Vec<StyledNode>) -> StyledNode {
    StyledNode::Element(StyledElement {
        tag: Tag::Html(tag.to_string()),
        attrs: vec![],
        style: cs(pairs),
        children,
    })
}

fn text_item(t: &str) -> StyledNode {
    el("div", &[], vec![StyledNode::Text(t.to_string())])
}

/// Eight px to a character for every inline context up to id 20.
fn widths(tree: &LayoutBox) -> Vec<TextWidth> {
    let fonts = one_font();
    let mut out = Vec::new();
    for job in turbo_html2pdf::layout::inline::text_jobs(tree, &fonts, vp()) {
        let n: usize = job.runs.iter().map(|r| r.text.chars().count()).sum();
        let w = n as i64 * 8 * PX;
        out.push(TextWidth { id: job.id, natural: w, min: w });
    }
    out
}

fn one_font() -> turbo_html2pdf::text::registry::FontRegistry {
    let mut fonts = turbo_html2pdf::text::registry::FontRegistry::default();
    fonts.add(turbo_html2pdf::text::font::FontFace::new(
        "Roboto".to_string(),
        400,
        false,
        vec![(32, 126)],
        0,
    ));
    fonts
}

#[test]
fn abs_item_inset_anchors_fully_auto_horizontal_axis_to_start() {
    let none = bs_of(&[("position", "absolute")]);
    assert_eq!(abs_item_inset(&none).left, Dimension::Length(0));
    assert_eq!(abs_item_inset(&none).top, Dimension::Auto);
    let right = bs_of(&[("position", "absolute"), ("right", "4px")]);
    assert_eq!(abs_item_inset(&right).left, Dimension::Auto);
    assert_eq!(abs_item_inset(&right).right, Dimension::Length(4 * PX));
}

#[test]
fn dim_and_edge_approximate_calc_by_its_percentage() {
    assert_eq!(
        dim(LengthPct::Calc { pct: 50 * PERCENT, px: -20 * PX }),
        Dimension::Percent(50 * PERCENT)
    );
    let bs = bs_in(&[("left", "calc(25% + 8px)")], 400);
    assert_eq!(bs.inset_left, LengthPct::Calc { pct: 25 * PERCENT, px: 8 * PX });
    assert_eq!(item_inset(&bs).left, Dimension::Percent(25 * PERCENT));
}

#[test]
fn grid_line_parses_span_index_and_pair() {
    assert_eq!(grid_line(None), None);
    assert_eq!(grid_line(Some("auto")), None);
    assert_eq!(grid_line(Some("  ")), None);
    assert_eq!(
        grid_line(Some("span 6")),
        Some(GridLine { start: GridPlacement::Span(6), end: GridPlacement::Auto })
    );
    assert_eq!(
        grid_line(Some("2")),
        Some(GridLine { start: GridPlacement::Line(2), end: GridPlacement::Auto })
    );
    assert_eq!(
        grid_line(Some("3 / span 2")),
        Some(GridLine { start: GridPlacement::Line(3), end: GridPlacement::Span(2) })
    );
    assert_eq!(grid_placement("wat"), GridPlacement::Auto);
}

#[test]
fn align_self_maps_every_keyword() {
    assert_eq!(align_self(&cs(&[])), None);
    assert_eq!(align_self(&cs(&[("align-self", "auto")])), None);
    assert_eq!(align_self(&cs(&[("align-self", "center")])), Some(AlignItems::Center));
    assert_eq!(align_self(&cs(&[("align-self", "flex-start")])), Some(AlignItems::FlexStart));
    assert_eq!(align_self(&cs(&[("align-self", "end")])), Some(AlignItems::FlexEnd));
    assert_eq!(align_self(&cs(&[("align-self", "baseline")])), Some(AlignItems::Baseline));
    assert_eq!(align_self(&cs(&[("align-self", "stretch")])), Some(AlignItems::Stretch));
}

#[test]
fn justify_content_grid_is_none_when_unset() {
    assert_eq!(justify_content_grid(&cs(&[])), None);
    assert_eq!(
        justify_content_grid(&cs(&[("justify-content", "center")])),
        Some(JustifyContent::Center)
    );
}

#[test]
fn justify_content_value_maps_every_keyword() {
    assert_eq!(justify_content_value("flex-end"), JustifyContent::FlexEnd);
    assert_eq!(justify_content_value("end"), JustifyContent::FlexEnd);
    assert_eq!(justify_content_value("center"), JustifyContent::Center);
    assert_eq!(justify_content_value("space-between"), JustifyContent::SpaceBetween);
    assert_eq!(justify_content_value("space-around"), JustifyContent::SpaceAround);
    assert_eq!(justify_content_value("space-evenly"), JustifyContent::SpaceEvenly);
    assert_eq!(justify_content_value("flex-start"), JustifyContent::FlexStart);
    assert_eq!(justify_content(&cs(&[])), Some(JustifyContent::FlexStart));
}

#[test]
fn justify_items_maps_grid_inline_alignment() {
    assert_eq!(justify_items(&cs(&[])), Some(AlignItems::Stretch));
    assert_eq!(justify_items(&cs(&[("justify-items", "stretch")])), Some(AlignItems::Stretch));
    assert_eq!(justify_items(&cs(&[("justify-items", "center")])), Some(AlignItems::Center));
    assert_eq!(justify_items(&cs(&[("justify-items", "start")])), Some(AlignItems::Start));
    assert_eq!(justify_items(&cs(&[("justify-items", "end")])), Some(AlignItems::End));
}

#[test]
fn flex_shorthand_grow_shrink() {
    assert_eq!(flex_grow_shrink(&cs(&[])), (0, PX));
    assert_eq!(flex_grow_shrink(&cs(&[("flex", "none")])), (0, 0));
    assert_eq!(flex_grow_shrink(&cs(&[("flex", "auto")])), (PX, PX));
    assert_eq!(flex_grow_shrink(&cs(&[("flex", "initial")])), (0, PX));
    assert_eq!(flex_grow_shrink(&cs(&[("flex", "1")])), (PX, PX));
    assert_eq!(flex_grow_shrink(&cs(&[("flex", "2 3")])), (2 * PX, 3 * PX));
    assert_eq!(flex_grow_shrink(&cs(&[("flex", "1 1 0%")])), (PX, PX));
}

#[test]
fn item_basis_percent_and_width_fallback() {
    let s = cs(&[("flex-basis", "50%")]);
    let bs = bs_of(&[("flex-basis", "50%")]);
    assert_eq!(item_basis(&s, bs.width, 16 * PX, vp()), Dimension::Percent(50 * PERCENT));
    let s = cs(&[("flex-basis", "min-content"), ("width", "77px")]);
    let bs = bs_of(&[("flex-basis", "min-content"), ("width", "77px")]);
    assert_eq!(item_basis(&s, bs.width, 16 * PX, vp()), Dimension::Length(77 * PX));
}

#[test]
fn item_inset_percentage_edge() {
    let bs = bs_of(&[("top", "25%"), ("left", "10%")]);
    let inset = item_inset(&bs);
    assert_eq!(inset.top, Dimension::Percent(25 * PERCENT));
    assert_eq!(inset.left, Dimension::Percent(10 * PERCENT));
}

#[test]
fn track_of_maps_content_keywords() {
    assert_eq!(track_of("min-content", vp()), Track::MinContent);
    assert_eq!(track_of("max-content", vp()), Track::MaxContent);
    assert_eq!(track_of("auto", vp()), Track::Auto);
    assert_eq!(track_of("120px", vp()), Track::Length(120 * PX));
}

#[test]
fn flex_natural_row_and_column() {
    let row = build_box_tree(&vec![el(
        "div",
        &[("display", "flex")],
        vec![text_item("aa"), text_item("bbbb")],
    )]);
    let col = build_box_tree(&vec![el(
        "div",
        &[("display", "flex"), ("flex-direction", "column")],
        vec![text_item("aa"), text_item("bbbb")],
    )]);
    let rw = natural_width(&row, &widths(&row), &NoImages, vp());
    let cw = natural_width(&col, &widths(&col), &NoImages, vp());
    assert!(rw >= cw);
    assert!(rw >= 0 && cw >= 0);
    assert_eq!((rw, cw), (48 * PX, 32 * PX));
}

#[test]
fn inline_block_atomic_measured_in_line() {
    let tree = build_box_tree(&vec![el(
        "span",
        &[("display", "inline")],
        vec![el(
            "span",
            &[("display", "inline-block")],
            vec![StyledNode::Text("Settings".to_string())],
        )],
    )]);
    let nat = natural_width(&tree, &widths(&tree), &NoImages, vp());
    let min = min_content_width(&tree, &widths(&tree), &NoImages, vp());
    assert!(nat > 20 * PX, "atomic line natural width should be its content, got {nat}");
    assert!(min > 20 * PX, "atomic line min-content should be its content, got {min}");
}

#[test]
fn min_content_replaced_image_and_directive() {
    let img = StyledNode::Element(StyledElement {
        tag: Tag::Html("img".to_string()),
        attrs: vec![Attr { name: "src".to_string(), value: "x.png".to_string() }],
        style: cs(&[]),
        children: vec![],
    });
    let root = build_box_tree(&vec![el("div", &[("display", "flex")], vec![img])]);
    assert!(min_content_width(&root, &vec![], &NoImages, vp()) >= 0);
    let directive = StyledNode::Element(StyledElement {
        tag: Tag::Directive(TKind::Anchor),
        attrs: vec![],
        style: cs(&[]),
        children: vec![],
    });
    let root = build_box_tree(&vec![el("div", &[("display", "flex")], vec![directive])]);
    assert_eq!(min_content_width(&root, &vec![], &NoImages, vp()), 0);
}

#[test]
fn track_parsers_percent_and_auto_branches() {
    assert_eq!(track_of("50%", vp()), Track::Percent(50 * PERCENT));
    assert_eq!(min_track("50%", vp()), MinTrack::Percent(50 * PERCENT));
    assert_eq!(min_track("1fr", vp()), MinTrack::Auto);
    assert_eq!(max_track("50%", vp()), MaxTrack::Percent(50 * PERCENT));
    assert_eq!(max_track("auto", vp()), MaxTrack::Auto);
    assert_eq!(
        track_of("minmax(50%, 1fr)", vp()),
        Track::MinMax(MinTrack::Percent(50 * PERCENT), MaxTrack::Fr(PX))
    );
}

#[test]
fn grid_area_quoting_helpers() {
    let map = grid_areas("'a .' 'a b'");
    assert!(map.contains_key("a"));
    assert!(map.contains_key("b"));
    assert!(!map.contains_key("."));
    assert!(quoted_rows("'unterminated").is_empty());
    assert_eq!(strip_quoted("10px 'a b' 1fr").trim(), "10px  1fr".trim());
}

#[test]
fn repeated_tracks_are_written_out() {
    assert_eq!(
        grid_tracks(Some("repeat(2, 1fr) 10px"), vp()),
        vec![Track::Fr(PX), Track::Fr(PX), Track::Length(10 * PX)]
    );
    assert!(grid_tracks(None, vp()).is_empty());
}

#[test]
fn named_areas_place_their_items() {
    let grid = cs(&[("grid-template-areas", "'a a' 'b c'")]);
    let areas = areas_of(&grid);
    let container = grid_container_style(&grid, 300 * PX, &areas, vp());
    assert_eq!((container.columns.len(), container.rows.len()), (2, 2));
    let item = grid_item_style(&cs(&[("grid-area", "c")]), 16 * PX, &areas, vp());
    assert_eq!(item.row.unwrap().start, GridPlacement::Line(2));
    assert_eq!(item.column.unwrap().start, GridPlacement::Line(2));
    assert_eq!(item.column.unwrap().end, GridPlacement::Line(3));
}

#[test]
fn containers_inherit_a_definite_height() {
    let s = cs(&[("flex-direction", "column"), ("gap", "5px")]);
    let c = container_style(&s, 200 * PX, 16 * PX, 80 * PX, vp());
    assert_eq!(c.direction, FlexDirection::Column);
    assert_eq!(c.height, Dimension::Length(80 * PX));
    assert_eq!(c.gap, 5 * PX);
    let auto = container_style(&s, 200 * PX, 16 * PX, 0, vp());
    assert_eq!(auto.height, Dimension::Auto);
}

#[test]
fn out_of_flow_items_keep_their_insets() {
    let s = item_style(&cs(&[("position", "absolute"), ("top", "3px")]), 16 * PX, vp());
    assert!(s.absolute);
    assert_eq!(s.inset.top, Dimension::Length(3 * PX));
    let flexed = item_style(&cs(&[("flex", "1")]), 16 * PX, vp());
    assert!(!flexed.absolute);
    assert_eq!((flexed.grow, flexed.shrink), (PX, PX));
}

#[test]
fn a_repeat_of_nothing_is_nothing() {
    assert!(grid_tracks(Some("repeat(18446744073709551615, )"), vp()).is_empty());
    assert_eq!(grid_tracks(Some("repeat(18446744073709551616, )"), vp()).len(), 1);
}
