//! Whole pages: the text as it stands, styled by hand as its sheet says.

use turbo_html2pdf::data_uri::DataUriImages;
use turbo_html2pdf::html_layout::CidBox;
use turbo_html2pdf::layout::boxtree::build_box_tree;
use turbo_html2pdf::layout::engine::{Answer, Host, Request};
use turbo_html2pdf::layout::fragment::{Fragment, FragmentContent};
use turbo_html2pdf::layout::inline::{text_jobs, LineBox, ParagraphLayout, Piece, PlacedAtom};
use turbo_html2pdf::layout::length::Viewport;
use turbo_html2pdf::layout::measure::TextWidth;
use turbo_html2pdf::layout::transform::{AngleTrig, Trig};
use turbo_html2pdf::node::{Element, FlowNode, Tag};
use turbo_html2pdf::page_html::{layout_boxes, layout_html_with_images, read_page};
use turbo_html2pdf::style::{ComputedStyle, StyledElement, StyledNode};
use turbo_html2pdf::text::registry::FontRegistry;

const PX: i64 = 1_000_000;

type Sheet = dyn Fn(&Element) -> Vec<(&'static str, &'static str)>;

fn attr<'a>(e: &'a Element, name: &str) -> Option<&'a str> {
    e.attrs.iter().find(|a| a.name == name).map(|a| a.value.as_str())
}

fn is(e: &Element, tag: &str) -> bool {
    matches!(&e.tag, Tag::Html(n) if n == tag)
}

fn styled(nodes: Vec<FlowNode>, sheet: &Sheet) -> Vec<StyledNode> {
    nodes
        .into_iter()
        .map(|n| match n {
            FlowNode::Text(t) => StyledNode::Text(t),
            FlowNode::Element(e) => {
                let mut pairs = if is(&e, "span") || is(&e, "img") {
                    vec![("display", "inline")]
                } else {
                    vec![("display", "block")]
                };
                pairs.extend(sheet(&e));
                let pairs = pairs.iter().map(|(k, v)| (k.to_string(), v.to_string())).collect();
                StyledNode::Element(StyledElement {
                    tag: e.tag,
                    attrs: e.attrs,
                    style: ComputedStyle::from_pairs(pairs),
                    children: styled(e.children, sheet),
                })
            }
        })
        .collect()
}

/// Lines of a font without text: boxes side by side, a new line where one does not
/// fit.
fn lines(pieces: &[Piece], width: i64) -> ParagraphLayout {
    let mut lines: Vec<LineBox> = Vec::new();
    let line = |top: i64| LineBox {
        indent: 0,
        top,
        width: 0,
        height: 0,
        runs: vec![],
        atoms: vec![],
    };
    let mut now = line(0);
    for piece in pieces {
        if let Piece::Atom(a) = piece {
            if now.width > 0 && now.width + a.width > width {
                let top = now.top + now.height;
                lines.push(now);
                now = line(top);
            }
            now.atoms.push(PlacedAtom { id: a.id, x: now.width, y: 0 });
            now.width += a.width;
            now.height = now.height.max(a.height);
        }
    }
    let height = now.top + now.height;
    lines.push(now);
    ParagraphLayout { lines, height }
}

/// Run a step of layout on a page until nothing more is asked for.
fn drive<T>(
    html: &str,
    viewport: Viewport,
    sheet: &Sheet,
    step: &dyn Fn(&Vec<StyledNode>, &Host<DataUriImages>) -> Result<T, Request>,
) -> T {
    let page = read_page(html, "").expect("page");
    let nodes = styled(page.nodes, sheet);
    let fonts = FontRegistry::default();
    let text: Vec<TextWidth> = text_jobs(&build_box_tree(&nodes), &fonts, viewport)
        .iter()
        .map(|job| TextWidth { id: job.id, natural: 0, min: 0 })
        .collect();
    let (mut answers, mut trig): (Vec<Answer>, Vec<AngleTrig>) = (vec![], vec![]);
    loop {
        let host = Host {
            text: &text,
            trig: &trig,
            images: &page.images,
            body_height: Some(viewport.height),
            fonts: &fonts,
            viewport,
            answers: &answers,
        };
        let asked = match step(&nodes, &host) {
            Ok(done) => return done,
            Err(q) => q,
        };
        match asked {
            Request::Paragraph(p) => answers.push(Answer::Lines(lines(&p.pieces, p.width))),
            Request::Angle(a) => {
                trig.push(AngleTrig { angle: a, trig: Trig { sin: 0, cos: PX, tan: 0 } })
            }
            Request::Items(_) => panic!("neither flex nor grid"),
        }
    }
}

fn boxes_of(html: &str, width: i64, height: i64, sheet: &Sheet) -> Vec<CidBox> {
    let viewport = Viewport { width: width * PX, height: height * PX };
    drive(html, viewport, sheet, &|nodes, host| layout_boxes(nodes, width * PX, host))
}

fn px(v: i64) -> f64 {
    v as f64 / 1e6
}

#[test]
fn box_sizing_inherit_chains_from_the_html_root() {
    let html = r#"<html><body><div class="row"><span class="c">a</span><span class="c">b</span></div></body></html>"#;
    let viewport = Viewport { width: 600 * PX, height: 800 * PX };
    let sheet: &Sheet = &|e| match attr(e, "class") {
        Some("row") => vec![("box-sizing", "border-box"), ("width", "600px")],
        Some("c") => vec![
            ("box-sizing", "border-box"),
            ("display", "inline-block"),
            ("width", "50%"),
            ("padding", "0 10px"),
            ("background-color", "#f00"),
        ],
        _ => vec![],
    };
    let root: Fragment = drive(html, viewport, sheet, &|nodes, host| {
        layout_html_with_images(nodes, 600 * PX, host)
    });
    let mut boxes = Vec::new();
    let mut stack = vec![&root];
    while let Some(f) = stack.pop() {
        if matches!(&f.content, FragmentContent::Box(p) if p.background.is_some()) {
            boxes.push((px(f.width), px(f.y)));
        }
        stack.extend(f.children.iter());
    }
    assert_eq!(boxes.len(), 2, "two card boxes");
    for (w, _) in &boxes {
        assert!((*w - 300.0).abs() < 1.0, "50% card is border-box (300px), got {w}");
    }
    assert!(
        (boxes[0].1 - boxes[1].1).abs() < 1.0,
        "both cards share a row (border-box let them fit)"
    );
}

#[test]
fn layout_boxes_reports_placed_data_cid_geometry() {
    let html = r#"<html><body><style>
            body { margin: 0 }
            #a { box-sizing: border-box; width: 200px; height: 80px;
                 margin: 10px 0 0 30px; padding: 5px; border: 2px solid #000 }
        </style><div id="a" data-cid="a">hi</div></body></html>"#;
    let boxes = boxes_of(html, 600, 800, &|e| match attr(e, "id") {
        Some("a") => vec![
            ("box-sizing", "border-box"),
            ("width", "200px"),
            ("height", "80px"),
            ("margin", "10px 0 0 30px"),
            ("padding", "5px"),
            ("border", "2px solid #000"),
        ],
        _ => vec![],
    });
    assert_eq!(boxes.len(), 1, "one tagged box");
    let b = &boxes[0];
    assert_eq!(b.cid, "a");
    assert!((px(b.rect.x) - 30.0).abs() < 0.5, "x == margin-left, got {}", px(b.rect.x));
    assert!((px(b.rect.y) - 10.0).abs() < 0.5, "y == margin-top, got {}", px(b.rect.y));
    assert!((px(b.rect.width) - 200.0).abs() < 0.5, "border-box width == 200");
    assert!((px(b.rect.height) - 80.0).abs() < 0.5, "border-box height == 80");
}

#[test]
fn layout_boxes_sizes_a_data_uri_image_by_intrinsic_aspect() {
    let html = r#"<html><body><style>
            body { margin: 0 }
            #frame { width: 200px }
            #pic { display: block; width: 100%; height: auto }
        </style><div id="frame"><img id="pic" data-cid="pic"
            src="data:image/png;base64,iVBORw0KGgoAAAANSUhEUgAAAAgAAAAGCAIAAABxZ0isAAAAEUlEQVR4nGMI6DmBFTEMpAQA/aBOwe19mXAAAAAASUVORK5CYII="></div></body></html>"#;
    let boxes = boxes_of(html, 600, 800, &|e| match attr(e, "id") {
        Some("frame") => vec![("width", "200px")],
        Some("pic") => vec![("display", "block"), ("width", "100%"), ("height", "auto")],
        _ => vec![],
    });
    let pic = boxes.iter().find(|b| b.cid == "pic").expect("pic box");
    assert!((px(pic.rect.width) - 200.0).abs() < 0.5, "100% width, got {}", px(pic.rect.width));
    assert!(
        (px(pic.rect.height) - 150.0).abs() < 0.5,
        "intrinsic-aspect height 150, got {}",
        px(pic.rect.height)
    );
}

#[test]
fn layout_boxes_reports_transformed_bounding_box() {
    let html = r#"<html><body><style>
            body { margin: 0 }
            #s { width: 100px; height: 40px; transform: scale(2);
                 transform-origin: top left; background: #ccc }
        </style><div id="s" data-cid="s">s</div></body></html>"#;
    let boxes = boxes_of(html, 600, 800, &|e| match attr(e, "id") {
        Some("s") => vec![
            ("width", "100px"),
            ("height", "40px"),
            ("transform", "scale(2)"),
            ("transform-origin", "top left"),
            ("background-color", "#ccc"),
        ],
        _ => vec![],
    });
    let s = boxes.iter().find(|b| b.cid == "s").expect("s box");
    assert!(px(s.rect.x).abs() < 0.5 && px(s.rect.y).abs() < 0.5, "origin at (0,0)");
    assert!(
        (px(s.rect.width) - 200.0).abs() < 0.5 && (px(s.rect.height) - 80.0).abs() < 0.5,
        "scaled to 200x80, got {}x{}",
        px(s.rect.width),
        px(s.rect.height)
    );
}

#[test]
fn layout_boxes_ignores_untagged_and_inline_flattened() {
    let plain = boxes_of("<body><div>x</div></body>", 400, 400, &|_| vec![]);
    assert!(plain.is_empty(), "no tagged boxes");
    let inline =
        boxes_of(r#"<body><span data-cid="s">x</span></body>"#, 400, 400, &|_| vec![]);
    assert!(inline.is_empty(), "inline span's data-cid is flattened away");
}

#[test]
fn inline_block_data_cid_is_reported() {
    let html = r#"<html><body><div><span
            style="display:inline-block;width:20px;height:10px" data-cid="ib">x</span></div></body></html>"#;
    let boxes = boxes_of(html, 400, 400, &|e| match attr(e, "style") {
        Some(_) => vec![("display", "inline-block"), ("width", "20px"), ("height", "10px")],
        None => vec![],
    });
    assert!(
        boxes.iter().any(|b| b.cid == "ib"),
        "inline-block atom's data-cid is reported"
    );
}

#[test]
fn non_data_img_src_is_not_collected() {
    let html = r#"<html><body><img src="http://example.com/a.png"></body></html>"#;
    let boxes = boxes_of(html, 400, 400, &|_| vec![]);
    assert!(boxes.is_empty(), "no tagged boxes, non-data img ignored");
}
