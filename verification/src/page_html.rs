//! From final HTML to a galley: reading a page, and laying out its styled tree.
//!
//! In between stands the selector engine, which styles the nodes by the style
//! sheet that reading the page returns.

use vstd::prelude::*;

use crate::data_uri::{collect_data_uri_images, with_images, DataUriImages};
use crate::error::{ErrorCode, RenderError};
use crate::html_layout::{
    cid_boxes_view, collect_style_css, found_among, found_in, strip_non_visual, style_text,
    tagged_boxes, visible, with_cids, CidBox, CidMap, Found,
};
use crate::image::{images_of, ImageResolver, NoImages};
use crate::layout::boxtree::{build_box_tree, gen_tree};
use crate::layout::engine::{answers_view, env_of, lay_tree, Answer, Env, Host, Lay, Request};
use crate::layout::flow::{layout_tree, layout_tree_with_images};
use crate::layout::fragment::{FragV, Fragment};
use crate::layout::length::Viewport;
use crate::layout::measure::TextWidth;
use crate::layout::transform::AngleTrig;
use crate::markup::{
    body_nodes, document_of, elements_view, forest_known, parsable, parse_html_with_roots,
    resolved, root_elements, shell, DomElementV,
};
use crate::node::{nodes_view, Element, FlowNode, NodeV};
use crate::style::{styled_views, StyledNode};
use crate::text::registry::FontRegistry;

verus! {

/// A page as read: its visible nodes, the roots that selectors match against, its
/// style sheet, and its inline images.
pub struct PageParts {
    pub nodes: Vec<FlowNode>,
    pub roots: Vec<Element>,
    pub css: String,
    pub images: DataUriImages,
}

/// The flow of a document before anything is stripped.
pub open spec fn flow_nodes(html: Seq<char>) -> Seq<NodeV> {
    let body = body_nodes(document_of(html));
    resolved(body, body.len())
}

/// The style sheet of a page with more of it at the end.
pub open spec fn page_css(html: Seq<char>, extra: Seq<char>) -> Seq<char> {
    let v = flow_nodes(html);
    style_text(v, v.len()) + extra
}

/// Read a page: `extra_css` comes after the page's own style sheet, so that it wins
/// ties. Template syntax is page content here.
pub fn read_page(html: &str, extra_css: &str) -> (r: Result<PageParts, RenderError>)
    requires
        parsable(html@),
    ensures
        match r {
            Ok(p) => {
                let v = flow_nodes(html@);
                &&& forest_known(body_nodes(document_of(html@)))
                &&& nodes_view(p.nodes@) == visible(v, v.len())
                &&& elements_view(p.roots@) == root_elements(document_of(html@)).map_values(
                    |e: DomElementV| shell(e),
                )
                &&& p.css@ == style_text(v, v.len()) + extra_css@
                &&& p.css@ == page_css(html@, extra_css@)
                &&& p.images@ == with_images(Map::empty(), v, v.len())
            },
            Err(e) => !forest_known(body_nodes(document_of(html@))) && e.code
                == ErrorCode::UnknownElement,
        },
{
    match parse_html_with_roots(html) {
        Ok((nodes, roots)) => {
            let mut css = collect_style_css(&nodes);
            css.append(extra_css);
            let images = collect_data_uri_images(&nodes);
            Ok(PageParts { nodes: strip_non_visual(nodes), roots, css, images })
        },
        Err(e) => Err(e),
    }
}

/// Lay out a styled page without images.
pub fn layout_html(
    styled: &Vec<StyledNode>,
    w: i64,
    text: &Vec<TextWidth>,
    trig: &Vec<AngleTrig>,
    fonts: &FontRegistry,
    viewport: Viewport,
    answers: &Vec<Answer>,
) -> (r: Result<Fragment, Request>)
    requires
        gen_tree(styled_views(styled@)).1 <= u32::MAX,
    ensures
        ({
            let env = Env {
                text: text@,
                trig: trig@,
                images: images_of(NoImages),
                body_height: None,
                fonts: fonts@,
                viewport,
                answers: answers_view(answers@),
            };
            let galley = lay_tree(gen_tree(styled_views(styled@)).0, w, env);
            match r {
                Ok(g) => galley matches Lay::Done(v, _) && v == g@,
                Err(q) => galley == Lay::<FragV>::Need(q@),
            }
        }),
{
    let tree = build_box_tree(styled);
    layout_tree(&tree, w, text, trig, fonts, viewport, answers)
}

/// Lay out a styled page whose images the host resolves.
pub fn layout_html_with_images<R: ImageResolver>(styled: &Vec<StyledNode>, w: i64, h: &Host<R>) -> (r:
    Result<Fragment, Request>)
    requires
        gen_tree(styled_views(styled@)).1 <= u32::MAX,
    ensures
        ({
            let galley = lay_tree(gen_tree(styled_views(styled@)).0, w, env_of(*h));
            match r {
                Ok(g) => galley matches Lay::Done(v, _) && v == g@,
                Err(q) => galley == Lay::<FragV>::Need(q@),
            }
        }),
{
    let tree = build_box_tree(styled);
    layout_tree_with_images(&tree, w, h)
}

/// The rectangles of the tagged boxes of a styled page.
pub fn layout_boxes<R: ImageResolver>(styled: &Vec<StyledNode>, w: i64, h: &Host<R>) -> (r: Result<
    Vec<CidBox>,
    Request,
>)
    requires
        gen_tree(styled_views(styled@)).1 <= u32::MAX,
    ensures
        ({
            let tree = gen_tree(styled_views(styled@)).0;
            let galley = lay_tree(tree, w, env_of(*h));
            match r {
                Ok(v) => galley matches Lay::Done(g, _) && cid_boxes_view(v@) == found_in(
                    Found { seen: Seq::empty(), out: Seq::empty() },
                    g,
                    with_cids(Map::empty(), tree),
                ).out,
                Err(q) => galley == Lay::<FragV>::Need(q@),
            }
        }),
{
    let tree = build_box_tree(styled);
    match layout_tree_with_images(&tree, w, h) {
        Ok(galley) => Ok(tagged_boxes(&tree, &galley)),
        Err(q) => Err(q),
    }
}

// --------------------------------------------------------------------------
// tags
// --------------------------------------------------------------------------

/// Whether what was found so far is one rectangle for each of the ids seen, all
/// different and all tagged.
pub open spec fn found_once(w: Found, cids: CidMap) -> bool {
    &&& w.seen.no_duplicates()
    &&& w.out.len() == w.seen.len()
    &&& forall|i: int|
        0 <= i < w.seen.len() ==> cids.contains_key(#[trigger] w.seen[i]) && w.out[i].0
            == cids[w.seen[i]]
}

/// Each tagged id is reported at most once, under its own tag.
pub proof fn law_tags_are_found_once(w: Found, f: FragV, cids: CidMap)
    requires
        found_once(w, cids),
    ensures
        found_once(found_in(w, f, cids), cids),
    decreases f, 1int, 0nat,
{
    let own = if cids.contains_key(f.id) && !w.seen.contains(f.id) {
        Found {
            seen: w.seen.push(f.id),
            out: w.out.push((cids[f.id], crate::html_layout::painted_rect(f))),
        }
    } else {
        w
    };
    assert(found_once(own, cids));
    lemma_found_among(own, f.children, cids, f.children.len());
}

proof fn lemma_found_among(w: Found, v: Seq<FragV>, cids: CidMap, k: nat)
    requires
        found_once(w, cids),
        k <= v.len(),
    ensures
        found_once(found_among(w, v, cids, k), cids),
    decreases v, 0int, k,
{
    if k > 0 {
        lemma_found_among(w, v, cids, (k - 1) as nat);
        law_tags_are_found_once(found_among(w, v, cids, (k - 1) as nat), v[k - 1], cids);
    }
}

} // verus!
