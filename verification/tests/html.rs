use turbo_html2pdf::data_uri::{
    base64_decode, base64_feed, collect_data_uri_images, decode_data_uri,
};
use turbo_html2pdf::error::ErrorCode;
use turbo_html2pdf::html_layout::{block_children, collect_style_css, strip_non_visual};
use turbo_html2pdf::image::{probe, ImageResolver};
use turbo_html2pdf::layout::boxgen::BoxKind;
use turbo_html2pdf::markup::{can_parse, parse_html, parse_html_with_roots};
use turbo_html2pdf::node::{FlowNode, TKind, Tag};
use turbo_html2pdf::page_html::read_page;

#[test]
fn parse_html_keeps_body_and_skips_jinja() {
    let nodes = parse_html("<body><p>a {{ x }} b</p></body>").expect("parse");
    assert!(!nodes.is_empty());
    let css = collect_style_css(&parse_html("<body><style>.a{color:red}</style></body>").unwrap());
    assert!(css.contains(".a{color:red}"));
}

#[test]
fn collect_style_css_empty_without_styles() {
    let nodes = parse_html("<body><div>plain</div></body>").expect("parse");
    assert_eq!(collect_style_css(&nodes), "");
}

#[test]
fn base64_and_data_uri_decode_a_png_header() {
    let uri = "data:image/png;base64,iVBORw0KGgoAAAANSUhEUgAAAAgAAAAG\
               CAIAAABxZ0isAAAAEUlEQVR4nGMI6DmBFTEMpAQA/aBOwe19mXAAAAAASUVORK5CYII=";
    let bytes = decode_data_uri(uri).expect("data uri decodes");
    let intrinsic = probe(&bytes).expect("png intrinsic");
    assert_eq!((intrinsic.width, intrinsic.height), (8, 6));
    assert!(decode_data_uri("data:text/plain,hello").is_none());
}

#[test]
fn base64_decode_handles_plus_slash_and_rejects_invalid() {
    assert_eq!(base64_decode("Tnk+").unwrap(), b"Ny>");
    assert_eq!(base64_decode("Tm8=").unwrap(), b"No");
    assert!(base64_decode("!!!!").is_none());
}

#[test]
fn block_children_of_a_directive_box_is_empty() {
    assert!(block_children(&BoxKind::Directive(TKind::Footnote)).is_empty());
}

#[test]
fn text_survives_parsing_as_it_is() {
    let nodes = parse_html("<body><p>a {{ x }} b</p></body>").expect("parse");
    match &nodes[0] {
        FlowNode::Element(e) => {
            assert!(matches!(&e.tag, Tag::Html(n) if n == "p"));
            assert!(matches!(&e.children[0], FlowNode::Text(t) if t == "a {{ x }} b"));
        }
        FlowNode::Text(_) => panic!("an element"),
    }
}

#[test]
fn directives_become_typed_nodes() {
    let nodes = parse_html("<body><t:footnote>n</t:footnote></body>").expect("parse");
    match &nodes[0] {
        FlowNode::Element(e) => assert!(matches!(&e.tag, Tag::Directive(TKind::Footnote))),
        FlowNode::Text(_) => panic!("an element"),
    }
}

#[test]
fn unknown_directives_are_errors() {
    let e = parse_html("<body><t:nonsense>n</t:nonsense></body>").err().expect("error");
    assert_eq!(e.code, ErrorCode::UnknownElement);
}

#[test]
fn roots_carry_their_attributes() {
    let (nodes, roots) =
        parse_html_with_roots("<html lang=\"en\"><body class=\"c\"><p>x</p></body></html>")
            .expect("parse");
    assert_eq!(nodes.len(), 1);
    assert_eq!(roots.len(), 2);
    assert_eq!(roots[0].attrs[0].name, "lang");
    assert_eq!(roots[1].attrs[0].value, "c");
}

#[test]
fn stripping_drops_scripts_and_keeps_the_rest() {
    let nodes =
        parse_html("<body><script>x</script><p>y</p><style>z</style></body>").expect("parse");
    assert_eq!(nodes.len(), 3);
    let kept = strip_non_visual(nodes);
    assert_eq!(kept.len(), 1);
}

#[test]
fn a_page_is_read_with_its_style_and_images() {
    let html = "<body><style>a{}</style><img src=\"data:image/png;base64,Tm8=\">\
                <img src=\"http://example.com/a.png\"></body>";
    let p = read_page(html, "b{}").ok().expect("page");
    assert_eq!(p.css, "a{}\nb{}");
    assert_eq!(p.nodes.len(), 2);
    assert_eq!(p.images.resolve("data:image/png;base64,Tm8="), Some(&b"No"[..]));
    assert!(p.images.resolve("http://example.com/a.png").is_none());
}

#[test]
fn a_page_with_an_unknown_directive_is_not_read() {
    let e = read_page("<body><t:nonsense></t:nonsense></body>", "").err().expect("error");
    assert_eq!(e.code, ErrorCode::UnknownElement);
}

#[test]
fn only_data_images_are_collected() {
    let nodes = parse_html("<body><img src=\"http://example.com/a.png\"></body>").expect("parse");
    let images = collect_data_uri_images(&nodes);
    assert!(images.get("http://example.com/a.png").is_none());
}

#[test]
fn base64_gives_back_what_was_encoded() {
    assert_eq!(base64_decode("aGVsbG8gd29ybGQ=").unwrap(), b"hello world");
    assert_eq!(base64_decode("aGVs bG8g\nd29ybGQ=").unwrap(), b"hello world");
    assert_eq!(base64_decode("").unwrap(), b"");
}

#[test]
fn a_refused_character_leaves_what_was_read() {
    let (mut acc, mut bits, mut out) = (5u32, 4u32, vec![9u8]);
    for (c, taken) in [('!', false), ('=', true), (' ', true)] {
        assert_eq!(base64_feed(c, &mut acc, &mut bits, &mut out), taken);
        assert_eq!((acc, bits, out.as_slice()), (5, 4, &[9u8][..]));
    }
    assert!(base64_feed('B', &mut acc, &mut bits, &mut out));
    assert_eq!((acc, bits, out), (5 * 64 + 1, 2, vec![9u8, 80]));
    let (mut acc, mut bits, mut out) = (0xffff_fff5u32, 4u32, vec![]);
    assert!(base64_feed('B', &mut acc, &mut bits, &mut out));
    assert_eq!((bits, out), (2, vec![80u8]));
}

#[test]
fn texts_of_usual_length_can_be_parsed() {
    assert!(can_parse(""));
    assert!(can_parse("<p>x</p>"));
}
