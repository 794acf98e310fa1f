use turbo_html2pdf::cascade::{build_cascade, UA_CSS};
use turbo_html2pdf::emit::{content_stream, is_artifact_band, Paint};
use turbo_html2pdf::error::{Diagnostics, ErrorCode, LintCode, RenderError, Span};
use turbo_html2pdf::layout::edges::{BorderEdges, BorderSide};
use turbo_html2pdf::layout::fragment::{
    BoxPaint, Fragment, FragmentContent, NodeId,
};
use turbo_html2pdf::layout::length::Edges;
use turbo_html2pdf::node::TKind;
use turbo_html2pdf::paginate::{paginate, paginate_with_geometry, PageGeometry, PageKind};
use turbo_html2pdf::render::{
    band_extent, page_contexts, place_band, reserve_bands, PageContext, Region,
};

const PX: i64 = 1_000_000;

fn side() -> BorderSide {
    BorderSide { width: 0, color: None }
}

fn fragment(id: u32, y: i64, h: i64) -> Fragment {
    let border = BorderEdges { top: side(), right: side(), bottom: side(), left: side() };
    let paint = BoxPaint {
        background: None,
        border,
        border_radius: 0,
        shadow: None,
        gradient: None,
        transform: None,
    };
    Fragment::new(NodeId(id), 0, y * PX, 10 * PX, h * PX, FragmentContent::Box(paint))
}

fn geometry() -> PageGeometry {
    PageGeometry {
        width: 600 * PX,
        height: 800 * PX,
        margin: Edges { top: 50 * PX, right: 40 * PX, bottom: 60 * PX, left: 30 * PX },
        header_extent: 0,
        footer_extent: 0,
    }
}

#[test]
fn pages_come_in_order_and_trailing_blanks_go() {
    let bodies =
        vec![vec![fragment(1, 0, 10)], vec![fragment(2, 0, 10)], vec![fragment(3, 5, 10)], vec![]];
    let pages = paginate_with_geometry(bodies, geometry());
    assert_eq!(pages.len(), 3);
    assert_eq!(pages[0].kind, PageKind::First);
    assert_eq!(pages[1].kind, PageKind::Left);
    assert_eq!(pages[2].kind, PageKind::Right);
    assert_eq!(pages[2].number, 3);
    assert_eq!((pages[2].body[0].x, pages[2].body[0].y), (30 * PX, 55 * PX));
}

#[test]
fn an_empty_document_still_has_a_page() {
    let pages = paginate_with_geometry(vec![vec![]], geometry());
    assert_eq!(pages.len(), 1);
    assert!(pages[0].body.is_empty());
}

#[test]
fn a_geometry_that_does_not_resolve_is_handed_on() {
    let e = RenderError {
        code: ErrorCode::Render,
        message: "no such size".to_string(),
        span: Span::default(),
    };
    let r = paginate(vec![], Err(e));
    assert_eq!(r.err().expect("error").message, "no such size");
    assert_eq!(paginate(vec![vec![]], Ok(geometry())).ok().expect("pages").len(), 1);
}

#[test]
fn bands_lower_the_body() {
    let header = fragment(1, 0, 20);
    let footer = fragment(2, 0, 500);
    let g = reserve_bands(geometry(), Some(&header), Some(&footer));
    assert_eq!(g.header_extent, 20 * PX);
    assert_eq!(g.footer_extent, 60 * PX);
    assert_eq!(g.body_height(), (800 - 110 - 80) * PX);
    assert_eq!(g.content_width(), 530 * PX);
    assert_eq!(g.body_origin(), (30 * PX, 70 * PX));
    assert_eq!(band_extent(&header, 5 * PX), 5 * PX);
}

#[test]
fn page_contexts_know_first_and_last() {
    let c = PageContext::new(1, 3);
    assert!(c.is_first && !c.is_last);
    let c = PageContext::new(3, 3);
    assert!(!c.is_first && c.is_last);
    let pages = paginate_with_geometry(
        vec![vec![fragment(1, 0, 10)], vec![fragment(2, 0, 10)]],
        geometry(),
    );
    let contexts = page_contexts(&pages);
    assert_eq!(contexts, vec![PageContext::new(1, 2), PageContext::new(2, 2)]);
}

#[test]
fn regions_are_put_in_their_bands_and_cut() {
    let g = PageGeometry { header_extent: 20 * PX, footer_extent: 30 * PX, ..geometry() };
    let mut pages = paginate_with_geometry(vec![vec![]], g);
    let mut diags = Diagnostics::default();
    let mut galley = fragment(0, 0, 15);
    galley.children = vec![fragment(1, 0, 15)];
    place_band(&mut pages[0], Region::Header, galley, &mut diags);
    assert_eq!((pages[0].header[0].x, pages[0].header[0].y), (30 * PX, 50 * PX));
    assert!(diags.lints.is_empty());
    let mut tall = fragment(0, 0, 90);
    tall.children = vec![fragment(1, 0, 30), fragment(2, 30, 30)];
    place_band(&mut pages[0], Region::Footer, tall, &mut diags);
    assert_eq!(pages[0].footer.len(), 1);
    assert_eq!(pages[0].footer[0].y, (800 - 60 - 30) * PX);
    assert_eq!(diags.lints.len(), 1);
    assert_eq!(diags.lints[0].code, LintCode::RegionOverflow);
    assert_eq!(
        diags.lints[0].message,
        "running region content taller than its band was clipped"
    );
}

#[test]
fn painting_goes_from_back_to_front() {
    let mut pages = paginate_with_geometry(vec![vec![fragment(1, 0, 10)]], geometry());
    pages[0].body[0].children = vec![
        fragment(2, 0, 5),
        Fragment::new(NodeId(3), 0, 0, 0, 0, FragmentContent::Directive(TKind::Anchor)),
    ];
    pages[0].header = vec![fragment(4, 0, 5)];
    pages[0].footnotes = vec![fragment(5, 0, 5)];
    let steps: Vec<u32> = content_stream(&pages[0], true)
        .iter()
        .map(|s| match s {
            Paint::Watermark => 0,
            Paint::Own(f) => f.node_id.0,
        })
        .collect();
    assert_eq!(steps, vec![0, 1, 2, 4, 5]);
    assert_eq!(content_stream(&pages[0], false).len(), 4);
}

#[test]
fn headers_and_footers_are_furniture() {
    assert!(!is_artifact_band(0) && is_artifact_band(1));
    assert!(is_artifact_band(2) && !is_artifact_band(3));
}

#[test]
fn cascades_layer_their_rules() {
    let c = build_cascade(vec!["ua"], vec!["a", "b"], vec!["n"], 7);
    let seen: Vec<(u8, usize, &str)> =
        c.rules.iter().map(|r| (r.level, r.order, r.rule)).collect();
    assert_eq!(seen, vec![(0, 0, "ua"), (1, 1, "a"), (1, 2, "b"), (3, 3, "n")]);
    assert_eq!(c.tokens, 7);
    assert!(UA_CSS.contains("h1 { font-weight: bold; font-size: 2em }"));
}
