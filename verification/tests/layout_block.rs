use turbo_html2pdf::image::NoImages;
use turbo_html2pdf::layout::block::inline_region_from;
use turbo_html2pdf::layout::boxgen::{BoxKind, LayoutBox};
use turbo_html2pdf::layout::boxtree::build_box_tree;
use turbo_html2pdf::layout::color::Rgba;
use turbo_html2pdf::layout::edges::BorderEdges;
use turbo_html2pdf::layout::engine::{
    Answer, Host, ItemsRequest, ParagraphRequest, Request, Solved,
};
use turbo_html2pdf::layout::flow::{layout_tree, layout_tree_with_images};
use turbo_html2pdf::layout::fragment::FragmentContent as Content;
use turbo_html2pdf::layout::fragment::{BreakMeta, NodeId, PositionedGlyph, Rect};
use turbo_html2pdf::layout::inline::{
    text_jobs, GlyphRun, LineBox, ParagraphLayout, Piece, PlacedAtom,
};
use turbo_html2pdf::layout::items::{find_box, measure_item};
use turbo_html2pdf::layout::length::Viewport;
use turbo_html2pdf::layout::measure::TextWidth;
use turbo_html2pdf::layout::transform::{AngleTrig, Trig};
use turbo_html2pdf::layout::value::BreakRule;
use turbo_html2pdf::node::{TKind, Tag};
use turbo_html2pdf::style::{ComputedStyle, StyledElement, StyledNode};
use turbo_html2pdf::text::font::FontFace;
use turbo_html2pdf::text::registry::FontRegistry;

const PX: i64 = 1_000_000;
/// Every character of the test face is this wide, every line this high.
const ADVANCE: i64 = 8 * PX;
const LINE: i64 = 16 * PX;

/// A laid-out fragment in px.
struct Fragment {
    x: f32,
    y: f32,
    width: f32,
    height: f32,
    content: FragmentContent,
    break_meta: BreakMeta,
    children: Vec<Fragment>,
}

enum FragmentContent {
    Box { background: Option<Rgba>, border: BorderEdges, border_radius: f32 },
    TextLine { glyphs: usize },
    Image,
    Directive(TKind),
}

fn px(v: i64) -> f32 {
    (v as f64 / 1e6) as f32
}

fn in_px(f: &turbo_html2pdf::layout::fragment::Fragment) -> Fragment {
    Fragment {
        x: px(f.x),
        y: px(f.y),
        width: px(f.width),
        height: px(f.height),
        content: match &f.content {
            Content::Box(p) => FragmentContent::Box {
                background: p.background,
                border: p.border,
                border_radius: px(p.border_radius),
            },
            Content::TextLine(t) => FragmentContent::TextLine { glyphs: t.glyphs.len() },
            Content::Image(_) => FragmentContent::Image,
            Content::Directive(k) => FragmentContent::Directive(*k),
        },
        break_meta: f.break_meta,
        children: f.children.iter().map(in_px).collect(),
    }
}

fn registry() -> FontRegistry {
    let mut fonts = FontRegistry::default();
    fonts.add(FontFace::new("Roboto".to_string(), 400, false, vec![(32, 126)], 0));
    fonts
}

/// The widths of every inline context in the test face.
fn text_widths(root: &LayoutBox, fonts: &FontRegistry) -> Vec<TextWidth> {
    text_jobs(root, fonts, Viewport::default())
        .iter()
        .map(|job| {
            let text: String = job.runs.iter().map(|r| r.text.as_str()).collect();
            let longest = text.split_whitespace().map(|w| w.chars().count()).max().unwrap_or(0);
            TextWidth {
                id: job.id,
                natural: text.chars().count() as i64 * ADVANCE,
                min: longest as i64 * ADVANCE,
            }
        })
        .collect()
}

/// One unbreakable token of a paragraph.
enum Token {
    Word(NodeId, usize),
    Atom(usize, i64, i64),
    Break,
}

fn tokens(p: &ParagraphRequest) -> Vec<Token> {
    let mut out = Vec::new();
    for piece in &p.pieces {
        match piece {
            Piece::Run(r) => {
                for w in r.text.split_inclusive(' ') {
                    out.push(Token::Word(r.node_id, w.chars().count()));
                }
            }
            Piece::Atom(a) => out.push(Token::Atom(a.id, a.width, a.height)),
            Piece::Break => out.push(Token::Break),
        }
    }
    out
}

/// Break a paragraph into lines of the test face, each beside the floats.
fn break_lines(p: &ParagraphRequest) -> ParagraphLayout {
    let mut lines: Vec<LineBox> = Vec::new();
    let mut top = 0;
    let toks = tokens(p);
    let mut i = 0;
    while i < toks.len() {
        let (rx, rw) = inline_region_from(&p.floats, p.x, p.width, p.y + top);
        let mut line = LineBox {
            indent: rx - p.x,
            top,
            width: 0,
            height: LINE,
            runs: Vec::new(),
            atoms: Vec::new(),
        };
        let mut used = 0;
        while i < toks.len() {
            let w = match &toks[i] {
                Token::Word(_, n) => *n as i64 * ADVANCE,
                Token::Atom(_, w, _) => *w,
                Token::Break => 0,
            };
            if used > 0 && used + w > rw {
                break;
            }
            match &toks[i] {
                Token::Word(id, n) => line.runs.push(GlyphRun {
                    node_id: *id,
                    glyphs: (0..*n)
                        .map(|k| PositionedGlyph {
                            glyph_id: 1,
                            x: used + k as i64 * ADVANCE,
                            y: 0,
                        })
                        .collect(),
                    face: 0,
                    font_size: p.font_size,
                    color: Rgba::black(),
                }),
                Token::Atom(id, _, h) => {
                    line.atoms.push(PlacedAtom { id: *id, x: used, y: 0 });
                    line.height = line.height.max(*h);
                }
                Token::Break => {
                    i += 1;
                    break;
                }
            }
            used += w;
            i += 1;
        }
        line.width = used;
        top += line.height;
        lines.push(line);
    }
    ParagraphLayout { lines, height: top }
}

/// Run layout until nothing more is asked for.
fn drive<T>(
    root: &LayoutBox,
    text: &Vec<TextWidth>,
    fonts: &FontRegistry,
    step: &dyn Fn(&Vec<Answer>, &Vec<AngleTrig>) -> Result<T, Request>,
) -> T {
    let mut answers = Vec::new();
    let mut trig = Vec::new();
    loop {
        match step(&answers, &trig) {
            Ok(t) => return t,
            Err(Request::Paragraph(p)) => answers.push(Answer::Lines(break_lines(&p))),
            Err(Request::Items(i)) => answers.push(Answer::Items(in_a_row(root, text, fonts, &i))),
            Err(Request::Angle(a)) => {
                let r = (a as f64 / 1e6).to_radians();
                let fixed = |v: f64| (v * 1e6).round() as i64;
                trig.push(AngleTrig {
                    angle: a,
                    trig: Trig { sin: fixed(r.sin()), cos: fixed(r.cos()), tan: fixed(r.tan()) },
                });
            }
        }
    }
}

/// Place items side by side, as high as the highest.
fn in_a_row(
    root: &LayoutBox,
    text: &Vec<TextWidth>,
    fonts: &FontRegistry,
    q: &ItemsRequest,
) -> Solved {
    let container = find_box(root, q.id.0).expect("container");
    let items = match &container.kind {
        BoxKind::Flex(v) | BoxKind::Grid(v) => v,
        _ => panic!("a flex or grid container"),
    };
    let mut places = Vec::new();
    let (mut x, mut height) = (0, 0);
    for item in items {
        let (w, h) = drive(root, text, fonts, &|answers, trig| {
            let host = Host {
                text,
                trig,
                images: &NoImages,
                body_height: None,
                fonts,
                viewport: Viewport::default(),
                answers,
            };
            measure_item(item, None, None, Some(q.width), q.font_size, &host)
        });
        places.push(Rect { x, y: 0, width: w, height: h });
        x += w;
        height = height.max(h);
    }
    Solved { places, height: height.max(q.height) }
}

fn lay_with(root: &LayoutBox, cb_width: f32, fonts: &FontRegistry) -> Fragment {
    let text = text_widths(root, fonts);
    let galley = drive(root, &text, fonts, &|answers, trig| {
        layout_tree(
            root,
            (cb_width as f64 * 1e6) as i64,
            &text,
            trig,
            fonts,
            Viewport::default(),
            answers,
        )
    });
    in_px(&galley)
}

fn cs(pairs: &[(&str, &str)]) -> ComputedStyle {
    ComputedStyle::from_pairs(pairs.iter().map(|(k, v)| (k.to_string(), v.to_string())).collect())
}

fn el(tag: &str, pairs: &[(&str, &str)], children: Vec<StyledNode>) -> StyledNode {
    StyledNode::Element(StyledElement {
        tag: Tag::Html(tag.to_string()),
        attrs: vec![],
        style: cs(pairs),
        children,
    })
}

fn dir(kind: TKind, children: Vec<StyledNode>) -> StyledNode {
    StyledNode::Element(StyledElement {
        tag: Tag::Directive(kind),
        attrs: vec![],
        style: cs(&[]),
        children,
    })
}

fn txt(s: &str) -> StyledNode {
    StyledNode::Text(s.to_string())
}

fn lay(nodes: Vec<StyledNode>, cb_width: f32) -> Fragment {
    let root = build_box_tree(&nodes);
    lay_with(&root, cb_width, &registry())
}

fn collect<'a>(f: &'a Fragment, out: &mut Vec<&'a Fragment>) {
    out.push(f);
    for c in &f.children {
        collect(c, out);
    }
}

fn all(f: &Fragment) -> Vec<&Fragment> {
    let mut v = Vec::new();
    collect(f, &mut v);
    v
}

fn text_lines(f: &Fragment) -> usize {
    all(f)
        .iter()
        .filter(|g| matches!(g.content, FragmentContent::TextLine { .. }))
        .count()
}

fn gap(prev: &Fragment, next: &Fragment) -> f32 {
    next.y - (prev.y + prev.height)
}

#[test]
fn auto_width_fills_and_padding_offsets_content() {
    let root = lay(vec![el("div", &[("padding", "10px")], vec![txt("hi")])], 500.0);
    assert_eq!(root.width, 500.0);
    let div = &root.children[0];
    assert_eq!(div.width, 500.0);
    let line = &div.children[0];
    assert_eq!((line.x, line.y), (10.0, 10.0));
    assert!(matches!(line.content, FragmentContent::TextLine { .. }));
}

#[test]
fn content_box_width_adds_padding() {
    let root = lay(
        vec![el(
            "div",
            &[("width", "100px"), ("padding", "10px")],
            vec![],
        )],
        500.0,
    );
    assert_eq!(root.children[0].width, 120.0);
}

#[test]
fn border_box_width_includes_padding() {
    let root = lay(
        vec![el(
            "div",
            &[
                ("width", "100px"),
                ("padding", "10px"),
                ("box-sizing", "border-box"),
            ],
            vec![],
        )],
        500.0,
    );
    assert_eq!(root.children[0].width, 100.0);
}

#[test]
fn min_and_max_width_clamp() {
    let small = lay(
        vec![el(
            "div",
            &[("width", "50px"), ("min-width", "80px")],
            vec![],
        )],
        500.0,
    );
    assert_eq!(small.children[0].width, 80.0);
    let big = lay(
        vec![el(
            "div",
            &[("width", "200px"), ("max-width", "120px")],
            vec![],
        )],
        500.0,
    );
    assert_eq!(big.children[0].width, 120.0);
}

#[test]
fn explicit_height_is_honored() {
    let root = lay(vec![el("div", &[("height", "200px")], vec![])], 500.0);
    assert_eq!(root.children[0].height, 200.0);
}

#[test]
fn border_box_min_height_includes_padding_and_border() {
    let root = lay(
        vec![el(
            "div",
            &[
                ("min-height", "40px"),
                ("padding", "10px"),
                ("border", "1px solid black"),
                ("box-sizing", "border-box"),
            ],
            vec![],
        )],
        500.0,
    );
    assert!(
        (root.children[0].height - 40.0).abs() < 1.0,
        "border-box min-height 40 -> 40px tall, got {}",
        root.children[0].height
    );
    let cbox = lay(
        vec![el(
            "div",
            &[
                ("min-height", "40px"),
                ("padding", "10px"),
                ("border", "1px solid black"),
            ],
            vec![],
        )],
        500.0,
    );
    assert!(
        (cbox.children[0].height - 62.0).abs() < 1.0,
        "content-box min-height 40 -> 62px tall, got {}",
        cbox.children[0].height
    );
}

#[test]
fn background_and_border_become_box_content() {
    let root = lay(
        vec![el(
            "div",
            &[("background-color", "red"), ("border", "2px solid blue")],
            vec![],
        )],
        500.0,
    );
    match &root.children[0].content {
        FragmentContent::Box {
            background, border, ..
        } => {
            assert!(background.is_some());
            assert_eq!(border.top.width, 2);
        }
        _ => panic!("expected box"),
    }
}

#[test]
fn sibling_margins_collapse_to_max() {
    let root = lay(
        vec![
            el("p", &[("margin", "20px")], vec![txt("a")]),
            el("p", &[("margin", "20px")], vec![txt("b")]),
        ],
        500.0,
    );
    assert_eq!(gap(&root.children[0], &root.children[1]), 20.0);
}

#[test]
fn empty_block_collapses_through() {
    let root = lay(
        vec![
            el("p", &[("margin", "20px")], vec![txt("a")]),
            el("div", &[("margin", "30px")], vec![]),
            el("p", &[("margin", "10px")], vec![txt("b")]),
        ],
        500.0,
    );
    assert_eq!(root.children[1].height, 0.0);
    assert_eq!(gap(&root.children[0], &root.children[2]), 30.0);
}

#[test]
fn flex_and_table_fall_back_to_block_flow() {
    let flex = lay(
        vec![el(
            "div",
            &[("display", "flex")],
            vec![el("div", &[], vec![txt("a")])],
        )],
        500.0,
    );
    assert!(text_lines(&flex) >= 1);
    let table = lay(
        vec![el(
            "table",
            &[("display", "table")],
            vec![el(
                "tr",
                &[("display", "table-row")],
                vec![el("td", &[("display", "table-cell")], vec![txt("c")])],
            )],
        )],
        500.0,
    );
    assert!(text_lines(&table) >= 1);
}

#[test]
fn block_directive_is_zero_size_marker() {
    let root = lay(vec![dir(TKind::RunningHeader, vec![])], 500.0);
    let d = &root.children[0];
    assert_eq!(d.height, 0.0);
    assert!(matches!(
        d.content,
        FragmentContent::Directive(TKind::RunningHeader)
    ));
}

#[test]
fn lines_handle_text_directive_and_atomic() {
    let root = lay(
        vec![el(
            "p",
            &[],
            vec![
                txt("a"),
                dir(TKind::Footnote, vec![txt("note")]),
                el("span", &[("display", "inline-block")], vec![txt("b")]),
            ],
        )],
        500.0,
    );
    let frags = all(&root);
    assert!(frags
        .iter()
        .any(|f| matches!(f.content, FragmentContent::TextLine { .. })));
    assert!(frags
        .iter()
        .any(|f| matches!(f.content, FragmentContent::Directive(TKind::Footnote))));
}

/// The `Box` fragments carrying a background (the coloured probe boxes), in
/// document order.
fn bg_boxes(root: &Fragment) -> Vec<&Fragment> {
    all(root)
        .into_iter()
        .filter(|f| {
            matches!(
                &f.content,
                FragmentContent::Box {
                    background: Some(_),
                    ..
                }
            )
        })
        .collect()
}

/// An `inline-block` probe: distinct background, optional explicit size + text.
fn ib(pairs: &[(&str, &str)], text: &str) -> StyledNode {
    let mut p = vec![("display", "inline-block")];
    p.extend_from_slice(pairs);
    let kids = if text.is_empty() {
        vec![]
    } else {
        vec![txt(text)]
    };
    el("span", &p, kids)
}

#[test]
fn inline_blocks_flow_horizontally() {
    let root = lay(
        vec![el(
            "div",
            &[],
            vec![
                ib(
                    &[
                        ("width", "60px"),
                        ("height", "20px"),
                        ("background-color", "#ff0000"),
                    ],
                    "",
                ),
                ib(
                    &[
                        ("width", "60px"),
                        ("height", "20px"),
                        ("background-color", "#00ff00"),
                    ],
                    "",
                ),
            ],
        )],
        500.0,
    );
    let bx = bg_boxes(&root);
    assert_eq!(bx.len(), 2);
    assert_eq!(bx[0].y, bx[1].y, "same row");
    assert!(
        (bx[1].x - bx[0].x - 60.0).abs() < 1.0,
        "packed side by side"
    );
}

#[test]
fn inline_block_auto_width_honors_min_width() {
    let root = lay(
        vec![el(
            "div",
            &[],
            vec![ib(
                &[("min-width", "100px"), ("background-color", "#123456")],
                "x",
            )],
        )],
        500.0,
    );
    let bx = bg_boxes(&root);
    assert_eq!(bx.len(), 1);
    assert!(
        bx[0].width >= 100.0,
        "auto-width inline-block should honor min-width, got {}",
        bx[0].width
    );
}

#[test]
fn inline_blocks_wrap_when_row_full() {
    let mk = |c: &str| {
        ib(
            &[
                ("width", "80px"),
                ("height", "20px"),
                ("background-color", c),
            ],
            "",
        )
    };
    let root = lay(
        vec![el(
            "div",
            &[],
            vec![mk("#ff0000"), mk("#00ff00"), mk("#0000ff")],
        )],
        200.0,
    );
    let bx = bg_boxes(&root);
    assert_eq!(bx.len(), 3);
    assert_eq!(bx[0].y, bx[1].y, "first two on row 1");
    assert!(bx[2].y > bx[0].y, "third wraps to row 2");
    assert!(
        (bx[2].x - bx[0].x).abs() < 1.0,
        "third back at the row start"
    );
}

#[test]
fn auto_width_inline_block_shrinks_to_content() {
    let root = lay(
        vec![el(
            "div",
            &[],
            vec![
                ib(&[("background-color", "#ff0000")], "hi"),
                ib(&[("background-color", "#00ff00")], "yo"),
            ],
        )],
        500.0,
    );
    let bx = bg_boxes(&root);
    assert_eq!(bx.len(), 2);
    assert!(
        bx[0].width < 200.0,
        "shrinks to content, not the full 500px line (got {})",
        bx[0].width
    );
    assert_eq!(bx[0].y, bx[1].y, "same row");
    assert!(
        bx[1].x > bx[0].x + 1.0,
        "second sits to the right of the first"
    );
}

/// A floated probe box: distinct background + explicit size.
fn fl(side: &str, w: &str, c: &str) -> StyledNode {
    el(
        "div",
        &[
            ("float", side),
            ("width", w),
            ("height", "30px"),
            ("background-color", c),
        ],
        vec![],
    )
}

#[test]
fn left_floats_pack_side_by_side() {
    let root = lay(
        vec![el(
            "div",
            &[],
            vec![fl("left", "60px", "#ff0000"), fl("left", "60px", "#00ff00")],
        )],
        500.0,
    );
    let bx = bg_boxes(&root);
    assert_eq!(bx.len(), 2);
    assert_eq!(bx[0].y, bx[1].y, "same row");
    assert!((bx[0].x - 0.0).abs() < 1.0, "first at the left edge");
    assert!((bx[1].x - 60.0).abs() < 1.0, "second packed right after it");
}

#[test]
fn left_and_right_floats_go_to_opposite_edges() {
    let root = lay(
        vec![el(
            "div",
            &[],
            vec![
                fl("left", "80px", "#ff0000"),
                fl("right", "80px", "#00ff00"),
            ],
        )],
        500.0,
    );
    let bx = bg_boxes(&root);
    assert!((bx[0].x - 0.0).abs() < 1.0, "left float at x=0");
    assert!(
        (bx[1].x - (500.0 - 80.0)).abs() < 1.0,
        "right float at the right edge (got {})",
        bx[1].x
    );
    assert_eq!(bx[0].y, bx[1].y, "same band row");
}

#[test]
fn in_flow_content_flows_beside_floats() {
    let root = lay(
        vec![el(
            "div",
            &[],
            vec![
                fl("left", "80px", "#ff0000"),
                el("p", &[], vec![txt("after")]),
            ],
        )],
        500.0,
    );
    let floatbox = &bg_boxes(&root)[0];
    let line = all(&root)
        .into_iter()
        .find(|f| matches!(f.content, FragmentContent::TextLine { .. }))
        .expect("paragraph line");
    assert!(
        line.x >= floatbox.x + floatbox.width - 1.0,
        "in-flow text sits to the right of the float (float right {}, text x {})",
        floatbox.x + floatbox.width,
        line.x
    );
    assert!(
        line.y < floatbox.y + floatbox.height - 0.5,
        "in-flow text is beside the float, not cleared below it (float bottom {}, text y {})",
        floatbox.y + floatbox.height,
        line.y
    );
}

#[test]
fn empty_registry_renders_no_text_lines() {
    let root = build_box_tree(&vec![el("p", &[], vec![txt("hi")])]);
    let frag = lay_with(&root, 500.0, &FontRegistry::default());
    assert_eq!(text_lines(&frag), 0);
}

#[test]
fn break_properties_propagate_to_meta() {
    let root = lay(
        vec![el(
            "div",
            &[
                ("break-before", "page"),
                ("break-inside", "avoid"),
                ("orphans", "3"),
            ],
            vec![],
        )],
        500.0,
    );
    let m = &root.children[0].break_meta;
    assert_eq!(m.break_before, BreakRule::Page);
    assert!(m.break_inside_avoid);
    assert_eq!(m.orphans, 3);
}

#[test]
fn visibility_hidden_and_opacity_zero_drop_the_box() {
    let vis = lay(
        vec![el(
            "div",
            &[("visibility", "hidden"), ("background-color", "#ff0000")],
            vec![txt("x")],
        )],
        200.0,
    );
    assert!(bg_boxes(&vis).is_empty(), "visibility:hidden box dropped");
    let op = lay(
        vec![el(
            "div",
            &[("opacity", "0"), ("background-color", "#00ff00")],
            vec![txt("y")],
        )],
        200.0,
    );
    assert!(bg_boxes(&op).is_empty(), "opacity:0 box dropped");
    let visible = lay(
        vec![el("div", &[("background-color", "#0000ff")], vec![])],
        200.0,
    );
    assert_eq!(bg_boxes(&visible).len(), 1);
}

#[test]
fn text_align_center_and_margin_auto_center_width_constrained_blocks() {
    let centered = lay(
        vec![el(
            "div",
            &[("text-align", "center")],
            vec![el(
                "div",
                &[("width", "100px"), ("background-color", "#ff0000")],
                vec![],
            )],
        )],
        500.0,
    );
    let inner = &bg_boxes(&centered)[0];
    assert!(
        (inner.x - 200.0).abs() < 1.0,
        "100px block centered in 500 (got x={})",
        inner.x
    );
    let mauto = lay(
        vec![el(
            "div",
            &[
                ("width", "100px"),
                ("margin", "0 auto"),
                ("background-color", "#00ff00"),
            ],
            vec![],
        )],
        500.0,
    );
    assert!(
        (bg_boxes(&mauto)[0].x - 200.0).abs() < 1.0,
        "margin:auto centers"
    );
}

#[test]
fn inline_block_flows_within_the_line_next_to_text() {
    let root = lay(
        vec![el(
            "div",
            &[],
            vec![
                txt("Search: "),
                ib(
                    &[
                        ("width", "40px"),
                        ("height", "16px"),
                        ("background-color", "#ff0000"),
                    ],
                    "",
                ),
            ],
        )],
        500.0,
    );
    let atom = &bg_boxes(&root)[0];
    let line = all(&root)
        .into_iter()
        .find(|f| matches!(f.content, FragmentContent::TextLine { .. }))
        .expect("text line");
    assert!(atom.x > 20.0, "atom sits after the text (got x={})", atom.x);
    assert!(
        (atom.y - line.y).abs() < 20.0,
        "atom on the same line as the text (atom y={}, line y={})",
        atom.y,
        line.y
    );
}

/// The `border-radius` (px) of a box fragment, or `None` for a non-box.
fn box_radius(f: &Fragment) -> Option<f32> {
    match &f.content {
        FragmentContent::Box { border_radius, .. } => Some(*border_radius),
        _ => None,
    }
}

#[test]
fn absolute_right_inset_anchors_to_right_edge() {
    let root = lay(
        vec![el(
            "div",
            &[
                ("position", "relative"),
                ("width", "300px"),
                ("height", "100px"),
            ],
            vec![el(
                "div",
                &[
                    ("position", "absolute"),
                    ("right", "10px"),
                    ("width", "50px"),
                    ("height", "20px"),
                    ("background-color", "#ff0000"),
                ],
                vec![],
            )],
        )],
        500.0,
    );
    let inner = &bg_boxes(&root)[0];
    assert!((inner.x - 240.0).abs() < 1.0, "got x={}", inner.x);
}

#[test]
fn percent_height_positioned_box_resolves_against_definite_ancestor() {
    let root = lay(
        vec![el(
            "div",
            &[
                ("position", "relative"),
                ("width", "300px"),
                ("height", "200px"),
            ],
            vec![el(
                "div",
                &[
                    ("position", "absolute"),
                    ("top", "0"),
                    ("left", "0"),
                    ("width", "100px"),
                    ("height", "50%"),
                    ("box-sizing", "border-box"),
                    ("padding", "10px"),
                    ("background-color", "#00ff00"),
                ],
                vec![],
            )],
        )],
        500.0,
    );
    let inner = &bg_boxes(&root)[0];
    assert!((inner.width - 100.0).abs() < 1.0, "got w={}", inner.width);
}

#[test]
fn max_height_clamps_taller_content() {
    let root = lay(
        vec![el(
            "div",
            &[("max-height", "10px"), ("background-color", "#ff0000")],
            vec![el("div", &[("height", "100px")], vec![])],
        )],
        500.0,
    );
    let outer = &bg_boxes(&root)[0];
    assert!((outer.height - 10.0).abs() < 0.5, "got h={}", outer.height);
}

#[test]
fn shrink_float_with_inline_block_measures_content() {
    let root = lay(
        vec![el(
            "div",
            &[],
            vec![
                el(
                    "div",
                    &[("float", "left"), ("background-color", "#ff0000")],
                    vec![
                        txt("Hi"),
                        ib(
                            &[
                                ("width", "20px"),
                                ("height", "10px"),
                                ("background-color", "#00ff00"),
                            ],
                            "",
                        ),
                    ],
                ),
                el("p", &[], vec![txt("after the float")]),
            ],
        )],
        500.0,
    );
    let floatbox = &bg_boxes(&root)[0];
    assert!(
        floatbox.width > 0.0 && floatbox.width < 400.0,
        "shrink-to-fit float width {}",
        floatbox.width
    );
}

#[test]
fn floats_narrow_region_and_clear_drops_below() {
    let root = lay(
        vec![el(
            "div",
            &[],
            vec![
                fl("left", "80px", "#ff0000"),
                fl("right", "80px", "#00ff00"),
                el(
                    "p",
                    &[],
                    vec![txt("text flows between the two floats in the narrow band")],
                ),
                el(
                    "div",
                    &[("clear", "left"), ("background-color", "#0000ff")],
                    vec![txt("cl")],
                ),
                el(
                    "div",
                    &[("clear", "right"), ("background-color", "#ff00ff")],
                    vec![txt("cr")],
                ),
                el(
                    "div",
                    &[("clear", "both"), ("background-color", "#00ffff")],
                    vec![txt("cb")],
                ),
            ],
        )],
        300.0,
    );
    let line = all(&root)
        .into_iter()
        .find(|f| matches!(f.content, FragmentContent::TextLine { .. }))
        .expect("paragraph line");
    assert!(
        line.x >= 80.0 - 1.0,
        "text right of left float, x={}",
        line.x
    );
    let cleared = &bg_boxes(&root)[2];
    assert!(
        cleared.y >= 30.0 - 0.5,
        "clear:left dropped below float, y={}",
        cleared.y
    );
}

#[test]
fn floats_drop_below_when_row_full() {
    let root = lay(
        vec![el(
            "div",
            &[],
            vec![
                fl("left", "120px", "#ff0000"),
                fl("left", "120px", "#00ff00"),
                fl("left", "120px", "#0000ff"),
            ],
        )],
        300.0,
    );
    let bx = bg_boxes(&root);
    assert_eq!(bx.len(), 3);
    assert!(
        bx[0].y.abs() < 0.5 && bx[1].y.abs() < 0.5,
        "first two on row 1"
    );
    assert!((bx[2].y - 30.0).abs() < 0.5, "third dropped, y={}", bx[2].y);
}

#[test]
fn oversized_float_stays_put_no_finite_drop() {
    let root = lay(
        vec![el(
            "div",
            &[],
            vec![el(
                "div",
                &[
                    ("float", "left"),
                    ("width", "400px"),
                    ("height", "20px"),
                    ("background-color", "#ff0000"),
                ],
                vec![],
            )],
        )],
        200.0,
    );
    let bx = &bg_boxes(&root)[0];
    assert!(bx.y.abs() < 0.5, "oversized float stays at y0, y={}", bx.y);
    assert!((bx.width - 400.0).abs() < 1.0, "width={}", bx.width);
}

#[test]
fn text_align_right_pushes_block_child_to_right() {
    let root = lay(
        vec![el(
            "div",
            &[("text-align", "right")],
            vec![el(
                "div",
                &[("width", "100px"), ("background-color", "#ff0000")],
                vec![],
            )],
        )],
        500.0,
    );
    let inner = &bg_boxes(&root)[0];
    assert!(
        (inner.x - 400.0).abs() < 1.0,
        "100px block right-aligned in 500, got x={}",
        inner.x
    );
}

#[test]
fn right_float_table_reanchors_to_right_edge() {
    let root = lay(
        vec![el(
            "div",
            &[],
            vec![el(
                "table",
                &[
                    ("float", "right"),
                    ("display", "table"),
                    ("width", "20px"),
                    ("background-color", "#ff0000"),
                ],
                vec![el(
                    "tr",
                    &[("display", "table-row")],
                    vec![el(
                        "td",
                        &[("display", "table-cell")],
                        vec![txt("this is wide table content")],
                    )],
                )],
            )],
        )],
        400.0,
    );
    let t = &bg_boxes(&root)[0];
    assert!(
        t.width > 20.0,
        "table grew to its content, width={}",
        t.width
    );
    assert!(
        (t.x + t.width - 400.0).abs() < 2.0,
        "right edge pinned to container right, right={}",
        t.x + t.width
    );
}

#[test]
fn mask_image_without_resolver_skips_tint() {
    let root = lay(
        vec![el(
            "div",
            &[
                ("mask-image", "url(icon.svg)"),
                ("width", "20px"),
                ("height", "20px"),
                ("background-color", "#ff0000"),
            ],
            vec![],
        )],
        200.0,
    );
    let div = &root.children[0];
    assert!((div.height - 20.0).abs() < 0.5, "h={}", div.height);
    assert!(div.children.is_empty(), "no mask tint fragment inserted");
}

#[test]
fn percent_border_radius_resolves_against_box() {
    let root = lay(
        vec![el(
            "div",
            &[
                ("width", "40px"),
                ("height", "40px"),
                ("border-radius", "50%"),
                ("background-color", "#ff0000"),
            ],
            vec![],
        )],
        200.0,
    );
    let r = box_radius(&root.children[0]).expect("box");
    assert!((r - 20.0).abs() < 0.5, "50% of 40 → 20, got {}", r);
}

#[test]
fn tall_float_forces_clear_block_to_drop_below() {
    let root = lay(
        vec![el(
            "div",
            &[],
            vec![
                el(
                    "div",
                    &[
                        ("float", "left"),
                        ("width", "60px"),
                        ("height", "100px"),
                        ("background-color", "#ff0000"),
                    ],
                    vec![],
                ),
                el(
                    "div",
                    &[("clear", "left"), ("background-color", "#0000ff")],
                    vec![txt("after")],
                ),
            ],
        )],
        300.0,
    );
    let cleared = all(&root)
        .into_iter()
        .filter(|f| matches!(f.content, FragmentContent::Box { .. }))
        .find(|f| f.y >= 100.0);
    assert!(
        cleared.is_some(),
        "clear:left block should drop below the 100px float"
    );
}

#[test]
fn right_float_narrows_line_region_from_the_right() {
    let root = lay(
        vec![el(
            "div",
            &[],
            vec![
                el(
                    "div",
                    &[
                        ("float", "right"),
                        ("width", "120px"),
                        ("height", "80px"),
                        ("background-color", "#00ff00"),
                    ],
                    vec![],
                ),
                el("p", &[], vec![txt("x")]),
            ],
        )],
        300.0,
    );
    let line = all(&root)
        .into_iter()
        .find(|f| matches!(f.content, FragmentContent::TextLine { .. }))
        .expect("paragraph line");
    assert!(
        line.width <= 180.5,
        "right float should narrow the line, got {}",
        line.width
    );
}

#[test]
fn border_radius_auto_resolves_to_zero() {
    let root = lay(
        vec![el(
            "div",
            &[
                ("width", "40px"),
                ("height", "40px"),
                ("border-radius", "auto"),
                ("background-color", "#ff0000"),
            ],
            vec![],
        )],
        200.0,
    );
    let r = box_radius(&root.children[0]).expect("box");
    assert_eq!(r, 0.0, "border-radius:auto → 0");
}

/// The bg overlay is the first child of the `relative` card whose `background`
/// paints — i.e. the second card child (index 1). Return its fragment.
fn overlay_of(root: &Fragment) -> &Fragment {
    &root.children[0].children[1]
}

#[test]
fn absolute_percent_height_child_uses_relative_parent_content_height() {
    let root = lay(
        vec![el(
            "div",
            &[("position", "relative")],
            vec![
                el("div", &[("height", "300px")], vec![]),
                el(
                    "div",
                    &[
                        ("position", "absolute"),
                        ("height", "50%"),
                        ("bottom", "0"),
                        ("background-color", "#f00"),
                    ],
                    vec![],
                ),
            ],
        )],
        400.0,
    );
    let overlay = overlay_of(&root);
    assert!(
        (overlay.height - 150.0).abs() < 1.0,
        "50% of 300, got {}",
        overlay.height
    );
    assert!(
        (overlay.y - 150.0).abs() < 1.0,
        "bottom:0 anchors to card bottom (y=150), got {}",
        overlay.y
    );
}

#[test]
fn absolute_flex_overlay_fills_its_band_at_card_bottom() {
    let root = lay(
        vec![el(
            "div",
            &[("position", "relative")],
            vec![
                el("div", &[("height", "300px")], vec![]),
                el(
                    "div",
                    &[
                        ("position", "absolute"),
                        ("display", "flex"),
                        ("height", "33.33333%"),
                        ("bottom", "0"),
                        ("background-color", "#f00"),
                    ],
                    vec![el("div", &[], vec![txt("Fast Sprints?")])],
                ),
            ],
        )],
        400.0,
    );
    let overlay = overlay_of(&root);
    assert!(
        (overlay.height - 100.0).abs() < 1.0,
        "33.33% of 300, got {}",
        overlay.height
    );
    assert!(
        (overlay.y - 200.0).abs() < 1.0,
        "sits at card bottom (y=200), got {}",
        overlay.y
    );
}

#[test]
fn deferred_absolute_with_top_inset_anchors_from_the_top() {
    let root = lay(
        vec![el(
            "div",
            &[("position", "relative")],
            vec![
                el("div", &[("height", "300px")], vec![]),
                el(
                    "div",
                    &[
                        ("position", "absolute"),
                        ("top", "40px"),
                        ("background-color", "#0f0"),
                    ],
                    vec![el("div", &[("height", "20px")], vec![])],
                ),
            ],
        )],
        400.0,
    );
    let overlay = overlay_of(&root);
    assert!(
        (overlay.y - 40.0).abs() < 1.0,
        "top:40px anchors from the top, got {}",
        overlay.y
    );
}

#[test]
fn deferred_absolute_without_vertical_inset_keeps_static_y() {
    let root = lay(
        vec![el(
            "div",
            &[("position", "relative")],
            vec![
                el("div", &[("height", "80px")], vec![]),
                el(
                    "div",
                    &[
                        ("position", "absolute"),
                        ("left", "0"),
                        ("background-color", "#00f"),
                    ],
                    vec![el("div", &[("height", "10px")], vec![])],
                ),
            ],
        )],
        400.0,
    );
    let overlay = overlay_of(&root);
    assert!(
        (overlay.y - 80.0).abs() < 1.0,
        "no top/bottom → static y (after the 80px block), got {}",
        overlay.y
    );
}

#[test]
fn in_flow_percent_height_stays_content_derived() {
    let root = lay(
        vec![el(
            "div",
            &[("height", "50%")],
            vec![el("div", &[("height", "30px")], vec![])],
        )],
        400.0,
    );
    assert!(
        (root.children[0].height - 30.0).abs() < 1.0,
        "in-flow 50% → content height (30), got {}",
        root.children[0].height
    );
}

#[test]
fn aspect_ratio_sizes_auto_height_from_width() {
    let root = lay(
        vec![el(
            "div",
            &[
                ("width", "200px"),
                ("aspect-ratio", "1"),
                ("min-height", "40px"),
            ],
            vec![],
        )],
        400.0,
    );
    assert!(
        (root.children[0].height - 200.0).abs() < 1.0,
        "square 200, got {}",
        root.children[0].height
    );
}

#[test]
fn aspect_ratio_ignored_when_height_is_explicit() {
    let root = lay(
        vec![el(
            "div",
            &[
                ("width", "200px"),
                ("height", "60px"),
                ("aspect-ratio", "1"),
            ],
            vec![],
        )],
        400.0,
    );
    assert!(
        (root.children[0].height - 60.0).abs() < 1.0,
        "explicit 60, got {}",
        root.children[0].height
    );
}

#[test]
fn absolute_calc_percent_minus_px_top_positions_inside_parent() {
    let root = lay(
        vec![el(
            "div",
            &[("position", "relative"), ("height", "200px")],
            vec![el(
                "div",
                &[
                    ("position", "absolute"),
                    ("top", "calc(50% - 10px)"),
                    ("height", "20px"),
                    ("background-color", "#f00"),
                ],
                vec![],
            )],
        )],
        400.0,
    );
    let overlay = &root.children[0].children[0];
    assert!(
        (overlay.y - 90.0).abs() < 1.0,
        "calc(50% - 10px) of 200 = 90, got {}",
        overlay.y
    );
}

#[test]
fn margin_inline_start_maps_to_left_offset() {
    let root = lay(
        vec![el(
            "div",
            &[
                ("margin-inline-start", "20px"),
                ("width", "50px"),
                ("height", "10px"),
            ],
            vec![],
        )],
        400.0,
    );
    assert!(
        (root.children[0].x - 20.0).abs() < 0.5,
        "margin-inline-start:20px -> x=20, got {}",
        root.children[0].x
    );
}

#[test]
fn negative_margins_pull_siblings_together() {
    let root = lay(
        vec![
            el("div", &[("height", "20px"), ("margin-bottom", "30px")], vec![]),
            el("div", &[("height", "20px"), ("margin-top", "-10px")], vec![]),
        ],
        500.0,
    );
    assert_eq!(gap(&root.children[0], &root.children[1]), 20.0);
}

#[test]
fn a_first_child_margin_moves_its_parent() {
    let root = lay(
        vec![
            el("div", &[("height", "10px")], vec![]),
            el(
                "div",
                &[("margin-top", "5px")],
                vec![el("div", &[("height", "10px"), ("margin-top", "30px")], vec![])],
            ),
        ],
        500.0,
    );
    assert_eq!(root.children[1].y, 40.0);
    assert_eq!(root.children[1].children[0].y, 40.0);
    let kept = lay(
        vec![el(
            "div",
            &[("padding-top", "1px")],
            vec![el("div", &[("height", "10px"), ("margin-top", "30px")], vec![])],
        )],
        500.0,
    );
    assert_eq!(kept.children[0].y, 0.0);
    assert_eq!(kept.children[0].children[0].y, 31.0);
}

#[test]
fn float_margins_keep_their_distance() {
    let root = lay(
        vec![el(
            "div",
            &[],
            vec![
                el(
                    "div",
                    &[
                        ("float", "left"),
                        ("width", "50px"),
                        ("height", "20px"),
                        ("margin", "5px 10px"),
                        ("background-color", "#f00"),
                    ],
                    vec![],
                ),
                fl("left", "60px", "#00ff00"),
            ],
        )],
        500.0,
    );
    let bx = bg_boxes(&root);
    assert_eq!((bx[0].x, bx[0].y), (10.0, 5.0));
    assert_eq!((bx[1].x, bx[1].y), (70.0, 0.0));
}

#[test]
fn relative_boxes_keep_their_place_in_flow() {
    let root = lay(
        vec![
            el(
                "div",
                &[("position", "relative"), ("top", "7px"), ("left", "3px"), ("height", "20px")],
                vec![],
            ),
            el("div", &[("height", "20px")], vec![]),
        ],
        500.0,
    );
    assert_eq!((root.children[0].x, root.children[0].y), (3.0, 7.0));
    assert_eq!(root.children[1].y, 20.0);
}

#[test]
fn tables_place_their_cells_in_a_grid() {
    let cell = |w: &str| {
        el("td", &[("display", "table-cell"), ("width", w), ("height", "20px")], vec![])
    };
    let row = |a: &str, b: &str| {
        el("tr", &[("display", "table-row")], vec![cell(a), cell(b)])
    };
    let root = lay(
        vec![el(
            "table",
            &[("display", "table"), ("border-spacing", "0px")],
            vec![row("40px", "60px"), row("40px", "60px")],
        )],
        500.0,
    );
    let table = &root.children[0];
    assert_eq!(table.children.len(), 2);
    let second = &table.children[1];
    assert_eq!((second.children[0].x, second.children[0].y), (0.0, 20.0));
    assert_eq!(second.children[1].x, 40.0);
    assert_eq!(table.height, 40.0);
}

#[test]
fn rotated_boxes_ask_for_their_angle() {
    let root = build_box_tree(&vec![el(
        "div",
        &[("transform", "rotate(90deg)"), ("height", "10px")],
        vec![],
    )]);
    let fonts = registry();
    let q = layout_tree(&root, 100 * PX, &vec![], &vec![], &fonts, Viewport::default(), &vec![])
        .unwrap_err();
    assert!(matches!(q, Request::Angle(a) if a == 90 * PX));
    assert_eq!(lay_with(&root, 100.0, &fonts).children[0].height, 10.0);
}

/// The inline images of a document with that one.
fn with_gif<T>(f: impl Fn(&turbo_html2pdf::data_uri::DataUriImages) -> T, uri: &str) -> T {
    let nodes = turbo_html2pdf::markup::parse_html(&format!("<body><img src=\"{uri}\"></body>"))
        .expect("parse");
    f(&turbo_html2pdf::data_uri::collect_data_uri_images(&nodes))
}

#[test]
fn an_image_is_as_large_as_its_pixels() {
    let uri = "data:image/gif;base64,R0lGODlheAA8APAAAA==";
    let root = build_box_tree(&vec![StyledNode::Element(StyledElement {
        tag: Tag::Html("img".to_string()),
        attrs: vec![turbo_html2pdf::node::Attr {
            name: "src".to_string(),
            value: uri.to_string(),
        }],
        style: cs(&[("display", "block")]),
        children: vec![],
    })]);
    let fonts = registry();
    let galley = with_gif(
        |images| {
            drive(&root, &vec![], &fonts, &|answers, trig| {
                let host = Host {
                    text: &vec![],
                    trig,
                    images,
                    body_height: None,
                    fonts: &fonts,
                    viewport: Viewport::default(),
                    answers,
                };
                layout_tree_with_images(&root, 500 * PX, &host)
            })
        },
        uri,
    );
    let galley = in_px(&galley);
    let image = all(&galley)
        .into_iter()
        .find(|f| matches!(f.content, FragmentContent::Image))
        .expect("image");
    assert_eq!((image.width, image.height), (120.0, 60.0));
}

/// A tagged element.
fn tagged(cid: &str, pairs: &[(&str, &str)], children: Vec<StyledNode>) -> StyledNode {
    StyledNode::Element(StyledElement {
        tag: Tag::Html("div".to_string()),
        attrs: vec![turbo_html2pdf::node::Attr {
            name: "data-cid".to_string(),
            value: cid.to_string(),
        }],
        style: cs(pairs),
        children,
    })
}

#[test]
fn tagged_boxes_are_reported_once_where_they_stand() {
    let styled = vec![
        el("div", &[("height", "10px")], vec![]),
        tagged(
            "a",
            &[
                ("box-sizing", "border-box"),
                ("width", "200px"),
                ("height", "80px"),
                ("margin", "10px 0 0 30px"),
                ("padding", "5px"),
                ("border", "2px solid #000"),
            ],
            vec![],
        ),
        tagged(
            "s",
            &[
                ("width", "100px"),
                ("height", "40px"),
                ("transform", "scale(2)"),
                ("transform-origin", "top left"),
            ],
            vec![],
        ),
    ];
    let root = build_box_tree(&styled);
    let fonts = registry();
    let boxes = drive(&root, &vec![], &fonts, &|answers, trig| {
        let host = Host {
            text: &vec![],
            trig,
            images: &NoImages,
            body_height: None,
            fonts: &fonts,
            viewport: Viewport::default(),
            answers,
        };
        turbo_html2pdf::page_html::layout_boxes(&styled, 600 * PX, &host)
    });
    assert_eq!(boxes.len(), 2);
    assert_eq!(boxes[0].cid, "a");
    assert_eq!(boxes[0].rect, Rect { x: 30 * PX, y: 20 * PX, width: 200 * PX, height: 80 * PX });
    assert_eq!(boxes[1].rect, Rect { x: 0, y: 100 * PX, width: 200 * PX, height: 80 * PX });
}

#[test]
fn a_styled_page_is_laid_out_with_and_without_images() {
    let styled = vec![el("div", &[("height", "10px")], vec![])];
    let fonts = registry();
    let (text, trig, answers) = (vec![], vec![], vec![]);
    let plain = turbo_html2pdf::page_html::layout_html(
        &styled,
        100 * PX,
        &text,
        &trig,
        &fonts,
        Viewport::default(),
        &answers,
    )
    .expect("galley");
    let host = Host {
        text: &text,
        trig: &trig,
        images: &NoImages,
        body_height: None,
        fonts: &fonts,
        viewport: Viewport::default(),
        answers: &answers,
    };
    let same = turbo_html2pdf::page_html::layout_html_with_images(&styled, 100 * PX, &host)
        .expect("galley");
    assert_eq!((plain.x, plain.y, plain.height), (0, 0, 10 * PX));
    assert_eq!(same.height, plain.height);
}

#[test]
fn answers_to_spare_change_nothing() {
    let root = build_box_tree(&vec![el("p", &[], vec![txt("hi")])]);
    let fonts = registry();
    let text = text_widths(&root, &fonts);
    let lay = |answers: &Vec<Answer>| {
        layout_tree(&root, 500 * PX, &text, &vec![], &fonts, Viewport::default(), answers)
    };
    let Err(Request::Paragraph(p)) = lay(&vec![]) else {
        panic!("a paragraph to break");
    };
    assert_eq!((p.x, p.y, p.width), (0, 0, 500 * PX));
    let one = lay(&vec![Answer::Lines(break_lines(&p))]).expect("galley");
    let two = lay(&vec![Answer::Lines(break_lines(&p)), Answer::Lines(break_lines(&p))])
        .expect("galley");
    assert_eq!(format!("{one:?}"), format!("{two:?}"));
}

#[test]
fn an_answer_of_the_wrong_kind_is_not_taken() {
    let root = build_box_tree(&vec![el("p", &[], vec![txt("hi")])]);
    let fonts = registry();
    let wrong = vec![Answer::Items(Solved { places: vec![], height: 0 })];
    let r = layout_tree(&root, 500 * PX, &vec![], &vec![], &fonts, Viewport::default(), &wrong);
    assert!(matches!(r, Err(Request::Paragraph(_))));
}

#[test]
fn a_hidden_element_leaves_no_trace() {
    let with = lay(
        vec![
            el("div", &[("height", "10px")], vec![]),
            el("div", &[("display", "none"), ("height", "50px")], vec![]),
            el("div", &[("height", "10px")], vec![]),
        ],
        100.0,
    );
    assert_eq!(with.children.len(), 2);
    assert_eq!(with.children[1].y, 10.0);
}

#[test]
fn floats_inside_a_clipped_box_stay_there() {
    let root = lay(
        vec![
            el("div", &[("overflow", "hidden")], vec![fl("left", "60px", "#ff0000")]),
            el("div", &[("overflow", "hidden"), ("height", "5px")], vec![]),
        ],
        200.0,
    );
    assert_eq!(root.children[0].height, 30.0);
    assert_eq!((root.children[1].x, root.children[1].y), (0.0, 30.0));
}

#[test]
fn the_galley_reaches_down_to_its_floats() {
    let root = lay(vec![fl("left", "60px", "#ff0000")], 200.0);
    assert_eq!(root.height, 30.0);
}

#[test]
fn a_covered_row_keeps_one_px() {
    let wall = turbo_html2pdf::layout::block::FloatRect {
        x0: 0,
        x1: 500 * PX,
        top: 0,
        bottom: 100 * PX,
        side: turbo_html2pdf::layout::value::Float::Left,
    };
    assert_eq!(inline_region_from(&vec![wall], 0, 200 * PX, 50 * PX), (500 * PX, PX));
    assert_eq!(inline_region_from(&vec![wall], 0, 200 * PX, 100 * PX), (0, 200 * PX));
}

#[test]
fn an_inline_block_takes_its_margins_into_the_line() {
    let root = lay(
        vec![el(
            "div",
            &[],
            vec![
                ib(
                    &[
                        ("width", "20px"),
                        ("height", "10px"),
                        ("margin", "3px 4px 5px 6px"),
                        ("background-color", "#ff0000"),
                    ],
                    "",
                ),
                ib(
                    &[("width", "20px"), ("height", "40px"), ("background-color", "#00ff00")],
                    "",
                ),
            ],
        )],
        200.0,
    );
    let boxes = bg_boxes(&root);
    let at: Vec<(f32, f32, f32, f32)> =
        boxes.iter().map(|b| (b.x, b.y, b.width, b.height)).collect();
    assert_eq!(at, vec![(6.0, 3.0, 20.0, 10.0), (30.0, 0.0, 20.0, 40.0)]);
}

#[test]
fn an_inline_block_tells_its_line_how_it_stands() {
    let nodes = vec![el(
        "div",
        &[("font-size", "20px")],
        vec![ib(
            &[
                ("width", "20px"),
                ("height", "10px"),
                ("margin", "3px 4px 5px 6px"),
                ("vertical-align", "super"),
            ],
            "",
        )],
    )];
    let root = build_box_tree(&nodes);
    let fonts = registry();
    let text = text_widths(&root, &fonts);
    let r = layout_tree(
        &root,
        200 * PX,
        &text,
        &vec![],
        &fonts,
        Viewport::default(),
        &vec![],
    );
    let Err(Request::Paragraph(p)) = r else { panic!("a paragraph is asked for") };
    match &p.pieces[0] {
        Piece::Atom(a) => {
            assert_eq!((a.width, a.height, a.font_size), (30 * PX, 18 * PX, 20 * PX));
            assert_eq!(a.valign, turbo_html2pdf::layout::value::VAlign::Super);
        }
        _ => panic!("an unbreakable box"),
    }
}

#[test]
fn hidden_elements_leave_no_trace_inside_others() {
    let tree = |hide: bool| {
        let mut kids = vec![txt("a")];
        if hide {
            kids.push(el("p", &[("display", "none")], vec![txt("b")]));
        }
        kids.push(el("p", &[], vec![txt("c")]));
        build_box_tree(&vec![el("div", &[], vec![el("section", &[], kids)])])
    };
    assert_eq!(format!("{:?}", tree(true)), format!("{:?}", tree(false)));
}
