use turbo_html2pdf::layout::boxgen::{is_br, BoxKind, InlineItem};
use turbo_html2pdf::layout::boxtree::build_box_tree;
use turbo_html2pdf::layout::color::{parse_cmyk, parse_color, parse_print_color, Rgba};
use turbo_html2pdf::layout::edges::{resolve_border_side, resolve_borders};
use turbo_html2pdf::layout::fragment::{BoxShadow, LinearGradient};
use turbo_html2pdf::layout::gradient::linear_gradient_of;
use turbo_html2pdf::layout::imgsize::{resolve_dim, size_replaced, SizeCtx};
use turbo_html2pdf::image::Intrinsic;
use turbo_html2pdf::layout::length::{parse_length_pct, parse_px, LengthPct, Viewport};
use turbo_html2pdf::layout::shadow::box_shadow_of;
use turbo_html2pdf::layout::transform::{
    transform_of, trigs_of, AngleTrig, Linear, LinearStep, RawTransform, Trig,
};
use turbo_html2pdf::layout::independence::is_ctx_independent;
use turbo_html2pdf::layout::value::{resolve_box_style, BoxSizing, ResolveCtx};
use turbo_html2pdf::node::Tag;
use turbo_html2pdf::style::{ComputedStyle, StyledElement, StyledNode};

const PX: i64 = 1_000_000;
const PERCENT: i64 = 1_000_000;

fn vp() -> Viewport {
    Viewport::default()
}

fn cs(pairs: &[(&str, &str)]) -> ComputedStyle {
    ComputedStyle::from_pairs(pairs.iter().map(|(k, v)| (k.to_string(), v.to_string())).collect())
}

fn shadow(value: &str) -> Option<BoxShadow> {
    box_shadow_of(&cs(&[("box-shadow", value), ("color", "#123456")]), 16 * PX, vp())
}

#[test]
fn parses_offsets_blur_spread_and_color() {
    let sh = shadow("2px 4px 8px 1px rgba(0,0,0,0.5)").expect("shadow");
    assert_eq!((sh.offset_x, sh.offset_y), (2, 4));
    assert_eq!((sh.blur, sh.spread), (8, 1));
    assert_eq!((sh.color.r, sh.color.a), (0, 128));
    assert!(!sh.inset);
}

#[test]
fn color_defaults_to_currentcolor_and_zero_is_a_valid_length() {
    let sh = shadow("0 0 4px").expect("shadow");
    assert_eq!((sh.offset_x, sh.offset_y, sh.blur), (0, 0, 4));
    assert_eq!((sh.color.r, sh.color.g, sh.color.b), (0x12, 0x34, 0x56));
}

#[test]
fn inset_keyword_and_leading_color_both_parse() {
    let sh = shadow("inset #f00 3px 3px").expect("shadow");
    assert!(sh.inset);
    assert_eq!((sh.offset_x, sh.offset_y, sh.color.r), (3, 3, 255));
}

#[test]
fn first_layer_wins_and_none_or_partial_yields_none() {
    assert_eq!(shadow("1px 1px red, 9px 9px blue").unwrap().offset_x, 1);
    assert!(shadow("none").is_none());
    assert!(shadow("2px").is_none());
}

fn grad(value: &str) -> Option<LinearGradient> {
    linear_gradient_of(&cs(&[("background-image", value)]))
}

#[test]
fn angle_direction_and_two_stops() {
    let g = grad("linear-gradient(90deg, #ff0000, #0000ff)").expect("gradient");
    assert_eq!(g.angle_deg, 90 * PX);
    assert_eq!(g.stops.len(), 2);
    assert_eq!((g.stops[0].color.r, g.stops[0].pos), (255, 0));
    assert_eq!((g.stops[1].color.b, g.stops[1].pos), (255, PX));
}

#[test]
fn to_side_keywords_map_to_angles_and_default_is_to_bottom() {
    assert_eq!(grad("linear-gradient(to right, red, blue)").unwrap().angle_deg, 90 * PX);
    assert_eq!(grad("linear-gradient(to top, red, blue)").unwrap().angle_deg, 0);
    let g = grad("linear-gradient(red, blue)").unwrap();
    assert_eq!(g.angle_deg, 180 * PX);
    assert_eq!(g.stops.len(), 2);
}

#[test]
fn explicit_percent_stops_and_even_spread_of_the_middle() {
    let g = grad("linear-gradient(180deg, #000, #888, #fff)").unwrap();
    assert_eq!(g.stops.iter().map(|s| s.pos).collect::<Vec<_>>(), vec![0, PX / 2, PX]);
    let g = grad("linear-gradient(#000, #888 25%, #fff)").unwrap();
    assert_eq!(g.stops[1].pos, PX / 4);
}

#[test]
fn nested_rgb_commas_dont_split_stops_and_non_linear_is_none() {
    let g = grad("linear-gradient(to right, rgb(1, 2, 3), rgba(4, 5, 6, 0.5))").unwrap();
    assert_eq!(g.stops.len(), 2);
    assert_eq!(g.stops[1].color.a, 128);
    assert!(grad("radial-gradient(red, blue)").is_none());
    assert!(grad("#ffffff").is_none());
}

#[test]
fn every_side_and_corner_direction_maps_to_its_angle() {
    let angle =
        |dir: &str| grad(&format!("linear-gradient({dir}, red, blue)")).unwrap().angle_deg;
    assert_eq!(angle("to bottom"), 180 * PX);
    assert_eq!(angle("to left"), 270 * PX);
    assert_eq!(angle("to top right"), 45 * PX);
    assert_eq!(angle("to bottom right"), 135 * PX);
    assert_eq!(angle("to bottom left"), 225 * PX);
    assert_eq!(angle("to top left"), 315 * PX);
}

#[test]
fn unknown_direction_keyword_is_not_a_direction() {
    assert!(grad("linear-gradient(to nowhere, red, blue)").is_none());
}

#[test]
fn unbalanced_parens_yield_no_gradient() {
    assert!(grad("linear-gradient(red, blue").is_none());
}

#[test]
fn border_width_longhand_overrides_shorthand_width() {
    let s = cs(&[("border", "1px solid #000"), ("border-width", "4px")]);
    let side = resolve_border_side(&s, "top", 16 * PX, vp());
    assert_eq!(side.width, 4);
}

fn xf(value: &str) -> Option<RawTransform> {
    transform_of(&cs(&[("transform", value)]), 16 * PX, vp())
}

fn fixed(v: f64) -> i64 {
    (v * 1e6).round() as i64
}

/// The linear part of a transform, its angles evaluated here.
fn linear(t: &RawTransform) -> [f64; 4] {
    let mut table: Vec<AngleTrig> = Vec::new();
    for step in &t.steps {
        let angle = match step {
            LinearStep::Matrix(_) => continue,
            LinearStep::Rotate(a) | LinearStep::SkewX(a) | LinearStep::SkewY(a) => *a,
        };
        let r = (angle as f64 / 1e6).to_radians();
        table.push(AngleTrig {
            angle,
            trig: Trig { sin: fixed(r.sin()), cos: fixed(r.cos()), tan: fixed(r.tan()) },
        });
    }
    let trigs = trigs_of(t, &table).expect("all angles known");
    let m: Linear = t.linear(&trigs);
    [m.a as f64 / 1e6, m.b as f64 / 1e6, m.c as f64 / 1e6, m.d as f64 / 1e6]
}

#[test]
fn translate_keeps_length_percentage_offsets() {
    let t = xf("translate(20px, 30px)").expect("xf");
    assert_eq!(linear(&t), [1.0, 0.0, 0.0, 1.0]);
    assert_eq!(t.tx, LengthPct::Px(20 * PX));
    assert_eq!(t.ty, LengthPct::Px(30 * PX));
    let t = xf("translateY(-50%)").unwrap();
    assert_eq!(t.ty, LengthPct::Pct(-50 * PERCENT));
    assert_eq!(t.tx, LengthPct::Px(0));
}

#[test]
fn rotate_builds_a_rotation_matrix() {
    let t = xf("rotate(90deg)").unwrap();
    let m = linear(&t);
    assert!(m[0].abs() < 1e-3 && (m[1] - 1.0).abs() < 1e-3);
    assert!((m[2] + 1.0).abs() < 1e-3 && m[3].abs() < 1e-3);
}

#[test]
fn scale_and_combined_translate_scale() {
    assert_eq!(linear(&xf("scale(2)").unwrap()), [2.0, 0.0, 0.0, 2.0]);
    assert_eq!(linear(&xf("scale(2, 3)").unwrap()), [2.0, 0.0, 0.0, 3.0]);
    let t = xf("translate3d(-50%,-50%,0) scale(10)").unwrap();
    assert_eq!(linear(&t), [10.0, 0.0, 0.0, 10.0]);
    assert_eq!((t.tx, t.ty), (LengthPct::Pct(-50 * PERCENT), LengthPct::Pct(-50 * PERCENT)));
}

#[test]
fn matrix_and_none() {
    let t = xf("matrix(1, 0, 0, 1, 12, 34)").unwrap();
    assert_eq!(linear(&t), [1.0, 0.0, 0.0, 1.0]);
    assert_eq!((t.tx, t.ty), (LengthPct::Px(12 * PX), LengthPct::Px(34 * PX)));
    assert!(xf("none").is_none());
    assert!(xf("").is_none());
}

#[test]
fn skew_functions_shear_the_linear_part() {
    let t = xf("skewX(45deg)").unwrap();
    assert!((linear(&t)[2] - 1.0).abs() < 1e-3, "tan45 in c: {t:?}");
    let t = xf("skewY(45deg)").unwrap();
    assert!((linear(&t)[1] - 1.0).abs() < 1e-3, "tan45 in b: {t:?}");
}

#[test]
fn angle_units_radians_and_bare_number() {
    let t = xf("rotate(3.14159265rad)").unwrap();
    assert!((linear(&t)[0] + 1.0).abs() < 1e-2, "cos(pi): {t:?}");
    let t = xf("rotate(180)").unwrap();
    assert!((linear(&t)[0] + 1.0).abs() < 1e-2, "180 == 180deg: {t:?}");
}

#[test]
fn unknown_function_contributes_nothing() {
    assert!(xf("perspective(500px)").is_none());
    assert!(xf("rotate(10deg) perspective(1px)").is_some());
}

#[test]
fn zero_translate_arg_and_trailing_token() {
    let t = xf("translate(0, 12px)").unwrap();
    assert_eq!(t.tx, LengthPct::Px(0));
    assert_eq!(t.ty, LengthPct::Px(12 * PX));
    let t = xf("rotate(90deg) trailing").unwrap();
    assert!((linear(&t)[1] - 1.0).abs() < 1e-3, "rotate still applied: {t:?}");
}

#[test]
fn an_angle_missing_from_the_table_is_named() {
    let t = xf("rotate(30deg)").unwrap();
    assert_eq!(trigs_of(&t, &vec![]).unwrap_err(), 30 * PX);
}

#[test]
fn resolve_dim_handles_px_percent_calc_and_auto() {
    assert_eq!(resolve_dim(LengthPct::Px(40 * PX), None), Some(40 * PX));
    assert_eq!(resolve_dim(LengthPct::Pct(50 * PERCENT), Some(200 * PX)), Some(100 * PX));
    let calc = LengthPct::Calc { pct: 50 * PERCENT, px: 10 * PX };
    assert_eq!(resolve_dim(calc, Some(200 * PX)), Some(110 * PX));
    assert_eq!(resolve_dim(calc, None), None);
    assert_eq!(resolve_dim(LengthPct::Auto, Some(200 * PX)), None);
}

fn bare(tag: &str) -> StyledElement {
    StyledElement {
        tag: Tag::Html(tag.to_string()),
        attrs: vec![],
        style: ComputedStyle::default(),
        children: vec![],
    }
}

fn html_el(tag: &str, children: Vec<StyledNode>) -> StyledNode {
    StyledNode::Element(StyledElement {
        tag: Tag::Html(tag.to_string()),
        attrs: vec![],
        style: ComputedStyle::default(),
        children,
    })
}

#[test]
fn is_br_matches_only_the_br_tag() {
    assert!(is_br(&bare("br")));
    assert!(!is_br(&bare("span")));
}

#[test]
fn br_becomes_an_inline_line_break() {
    let tree = build_box_tree(&vec![html_el(
        "div",
        vec![
            StyledNode::Text("a".to_string()),
            html_el("br", vec![]),
            StyledNode::Text("b".to_string()),
        ],
    )]);
    let BoxKind::Block(kids) = &tree.kind else {
        panic!("root is a block");
    };
    let BoxKind::Lines(items) = &kids[0].kind else {
        panic!("div establishes an inline (lines) context");
    };
    assert!(
        items.iter().any(|i| matches!(i, InlineItem::LineBreak)),
        "the <br> produced a LineBreak item"
    );
}

#[test]
fn box_ids_are_all_different() {
    let tree = build_box_tree(&vec![
        html_el("div", vec![html_el("p", vec![]), StyledNode::Text("a".to_string())]),
        html_el("div", vec![]),
    ]);
    let mut ids = vec![tree.node_id.0];
    let mut todo = vec![&tree];
    while let Some(b) = todo.pop() {
        if let BoxKind::Block(kids) = &b.kind {
            for k in kids {
                assert!(!ids.contains(&k.node_id.0));
                ids.push(k.node_id.0);
                todo.push(k);
            }
        }
    }
    assert_eq!(tree.node_id.0, 0);
}

#[test]
fn lengths_in_every_unit() {
    let px = |s: &str| parse_px(s, 10 * PX, vp());
    assert_eq!(px("12px"), Some(12 * PX));
    assert_eq!(px("1.5em"), Some(15 * PX));
    assert_eq!(px("72pt"), Some(96 * PX));
    assert_eq!(px("1in"), Some(96 * PX));
    assert_eq!(px("50vw"), Some(640 * PX));
    assert_eq!(px("nonsense"), None);
    assert_eq!(
        parse_length_pct("calc(50% - 10px)", 10 * PX, vp()),
        Some(LengthPct::Calc { pct: 50 * PERCENT, px: -10 * PX })
    );
}

#[test]
fn colors_in_every_notation() {
    assert_eq!(parse_color("#123456"), Some(Rgba::new(0x12, 0x34, 0x56, 255)));
    assert_eq!(parse_color("#f00"), Some(Rgba::new(255, 0, 0, 255)));
    assert_eq!(parse_color("rgb(1, 2, 3)"), Some(Rgba::new(1, 2, 3, 255)));
    assert_eq!(parse_color("wat"), None);
    assert_eq!(parse_cmyk("cmyk(0, 0, 0, 1)"), Some(Rgba::new(0, 0, 0, 255)));
}

#[test]
fn images_keep_their_proportions_under_the_caps() {
    let i = Intrinsic { width: 400, height: 200, has_alpha: false };
    let ctx = SizeCtx {
        width: LengthPct::Auto,
        height: LengthPct::Auto,
        cb_width: 100 * PX,
        cb_height: None,
        body_height: None,
    };
    let s = size_replaced("a".to_string(), i, &ctx);
    assert_eq!((s.width, s.height), (100 * PX, 50 * PX));
    let tall = SizeCtx { cb_width: 1000 * PX, body_height: Some(100 * PX), ..ctx };
    let s = size_replaced("a".to_string(), i, &tall);
    assert_eq!((s.width, s.height), (120 * PX, 60 * PX));
}

#[test]
fn styles_without_relative_units_resolve_alike() {
    let s = cs(&[("font-size", "12px"), ("width", "40px"), ("box-sizing", "border-box")]);
    assert!(is_ctx_independent(&s, vp()));
    let a = resolve_box_style(
        &s,
        ResolveCtx { parent_font_size: 16 * PX, cb_width: 100 * PX, viewport: vp() },
    );
    let b = resolve_box_style(
        &s,
        ResolveCtx { parent_font_size: 9 * PX, cb_width: 700 * PX, viewport: vp() },
    );
    assert_eq!((a.width, a.font_size), (b.width, b.font_size));
    assert_eq!(a.box_sizing, BoxSizing::BorderBox);
    assert!(!is_ctx_independent(&cs(&[("font-size", "12px"), ("width", "40%")]), vp()));
}

#[test]
fn print_colors_fall_back_to_screen_colors() {
    assert_eq!(parse_print_color("cmyk(0, 0, 0, 0)"), Some(Rgba::new(255, 255, 255, 255)));
    assert_eq!(parse_print_color("#010203"), Some(Rgba::new(1, 2, 3, 255)));
    assert_eq!(parse_print_color("wat"), None);
}

#[test]
fn borders_without_width_are_not_visible() {
    let none = resolve_borders(&cs(&[]), 16 * PX, vp());
    assert!(!none.any_visible());
    let one = resolve_borders(&cs(&[("border-left", "2px solid red")]), 16 * PX, vp());
    assert!(one.any_visible());
    assert_eq!(one.widths().left, 2 * PX);
}

#[test]
fn gradient_stops_stay_between_their_ends() {
    let g = grad("linear-gradient(#000 -20%, #888 150%, #fff)").unwrap();
    for s in &g.stops {
        assert!((0..=PX).contains(&s.pos), "stop at {}", s.pos);
    }
}

#[test]
fn a_hex_color_is_of_hex_digits_alone() {
    assert!(parse_color("#+f+f+f").is_none());
    assert!(parse_color("#\u{e9}1").is_none());
    assert!(parse_color("#ff00+1").is_none());
    assert_eq!(parse_color("#0fA"), Some(Rgba::new(0, 255, 170, 255)));
}
