//! Parsing final HTML into the resolved node tree.

use html5ever::tendril::TendrilSink;
use vstd::prelude::*;
use vstd::utf8::encode_utf8;

use crate::error::{ErrorCode, RenderError, Span};
use crate::node::{
    attrs_view, clone_attrs, node_view, nodes_view, Attr, Element, FlowNode, NodeV, TKind, Tag, TagV,
};
use crate::scan::{after_prefix, same, strip_prefix};

verus! {

// --------------------------------------------------------------------------
// the document tree of the HTML parser
// --------------------------------------------------------------------------

/// A node of a parsed document.
#[derive(Debug)]
pub enum Dom {
    Text(String),
    Element(DomElement),
    /// A comment, a doctype, or a processing instruction.
    Other,
}

/// An element of a parsed document.
#[derive(Debug)]
pub struct DomElement {
    pub name: String,
    pub attrs: Vec<Attr>,
    pub children: Vec<Dom>,
}

/// The mathematical reading of a [`Dom`].
pub enum DomV {
    Text(Seq<char>),
    Element(DomElementV),
    Other,
}

/// The mathematical reading of a [`DomElement`].
pub struct DomElementV {
    pub name: Seq<char>,
    pub attrs: Seq<(Seq<char>, Seq<char>)>,
    pub children: Seq<DomV>,
}

pub open spec fn dom_view(d: Dom) -> DomV
    decreases d,
{
    match d {
        Dom::Text(t) => DomV::Text(t@),
        Dom::Element(e) => DomV::Element(dom_element_view(e)),
        Dom::Other => DomV::Other,
    }
}

pub open spec fn dom_element_view(e: DomElement) -> DomElementV
    decreases e,
{
    DomElementV {
        name: e.name@,
        attrs: attrs_view(e.attrs@),
        children: Seq::new(
            e.children@.len(),
            |i: int|
                if 0 <= i < e.children@.len() {
                    dom_view(e.children@[i])
                } else {
                    arbitrary()
                },
        ),
    }
}

pub open spec fn doms_view(v: Seq<Dom>) -> Seq<DomV> {
    v.map_values(|d: Dom| dom_view(d))
}

proof fn lemma_dom_children(e: DomElement)
    ensures
        dom_element_view(e).children == doms_view(e.children@),
{
    assert(dom_element_view(e).children =~= doms_view(e.children@));
}

/// A node of the `markup5ever_rcdom` tree.
#[verifier::external_type_specification]
#[verifier::external_body]
pub struct ExDomNode(markup5ever_rcdom::Node);

/// The most bytes of markup that are parsed. A parsed text is at most three times
/// as long as its markup, and its buffer, of a power of two of bytes, counts them in
/// 32 bits.
pub const MARKUP_LIMIT: usize = 715_827_882;

/// Whether a text is short enough to be parsed.
pub open spec fn parsable(html: Seq<char>) -> bool {
    encode_utf8(html).len() <= MARKUP_LIMIT
}

pub fn can_parse(html: &str) -> (r: bool)
    ensures
        r == parsable(html@),
{
    html.as_bytes().len() <= MARKUP_LIMIT
}

/// The top-level nodes of the document that `html5ever` parses.
pub uninterp spec fn document_of(html: Seq<char>) -> Seq<DomV>;

/// Copies the children of a `markup5ever_rcdom` node, one for one. Nothing is
/// claimed of the result.
#[verifier::external_body]
fn dom_children(node: &std::rc::Rc<markup5ever_rcdom::Node>) -> (r: Vec<Dom>) {
    node.children.borrow().iter().map(dom_node).collect()
}

/// Copies a `markup5ever_rcdom` node with its subtree: text, an element with its
/// attributes by local name, or any other node. Nothing is claimed of the result.
#[verifier::external_body]
fn dom_node(node: &std::rc::Rc<markup5ever_rcdom::Node>) -> (r: Dom) {
    match &node.data {
        markup5ever_rcdom::NodeData::Text { contents } => Dom::Text(contents.borrow().to_string()),
        markup5ever_rcdom::NodeData::Element { name, attrs, .. } => Dom::Element(DomElement {
            name: name.local.to_string(),
            attrs: attrs.borrow().iter()
                .map(|a| Attr { name: a.name.local.to_string(), value: a.value.to_string() })
                .collect(),
            children: dom_children(node),
        }),
        _ => Dom::Other,
    }
}

/// Parses an HTML document with `html5ever::parse_document`.
///
/// The tree is a function of the text: the parser recovers from every error and
/// never fails. Its text buffers panic where they outgrow 32 bits, so longer texts
/// are left out.
#[verifier::external_body]
fn parse_document(html: &str) -> (r: Vec<Dom>)
    requires
        parsable(html@),
    ensures
        doms_view(r@) == document_of(html@),
{
    let sink = markup5ever_rcdom::RcDom::default();
    let dom = html5ever::parse_document(sink, html5ever::ParseOpts::default()).one(html);
    dom_children(&dom.document)
}

// --------------------------------------------------------------------------
// directives
// --------------------------------------------------------------------------

/// The directive that a name after `t:` stands for.
pub open spec fn directive_named(n: Seq<char>) -> Option<TKind> {
    if n == "page-master"@ {
        Some(TKind::PageMaster)
    } else if n == "region"@ {
        Some(TKind::Region)
    } else if n == "variant"@ {
        Some(TKind::Variant)
    } else if n == "use-master"@ {
        Some(TKind::UseMaster)
    } else if n == "running-header"@ {
        Some(TKind::RunningHeader)
    } else if n == "running-footer"@ {
        Some(TKind::RunningFooter)
    } else if n == "footnote"@ {
        Some(TKind::Footnote)
    } else if n == "footnote-separator"@ {
        Some(TKind::FootnoteSeparator)
    } else if n == "endnote"@ {
        Some(TKind::Endnote)
    } else if n == "endnotes"@ {
        Some(TKind::Endnotes)
    } else if n == "page"@ {
        Some(TKind::Page)
    } else if n == "pages"@ {
        Some(TKind::Pages)
    } else if n == "counter"@ {
        Some(TKind::Counter)
    } else if n == "anchor"@ {
        Some(TKind::Anchor)
    } else if n == "leader"@ {
        Some(TKind::Leader)
    } else {
        None
    }
}

pub fn directive_kind(n: &str) -> (r: Option<TKind>)
    ensures
        r == directive_named(n@),
{
    if same(n, "page-master") {
        Some(TKind::PageMaster)
    } else if same(n, "region") {
        Some(TKind::Region)
    } else if same(n, "variant") {
        Some(TKind::Variant)
    } else if same(n, "use-master") {
        Some(TKind::UseMaster)
    } else if same(n, "running-header") {
        Some(TKind::RunningHeader)
    } else if same(n, "running-footer") {
        Some(TKind::RunningFooter)
    } else if same(n, "footnote") {
        Some(TKind::Footnote)
    } else if same(n, "footnote-separator") {
        Some(TKind::FootnoteSeparator)
    } else if same(n, "endnote") {
        Some(TKind::Endnote)
    } else if same(n, "endnotes") {
        Some(TKind::Endnotes)
    } else if same(n, "page") {
        Some(TKind::Page)
    } else if same(n, "pages") {
        Some(TKind::Pages)
    } else if same(n, "counter") {
        Some(TKind::Counter)
    } else if same(n, "anchor") {
        Some(TKind::Anchor)
    } else if same(n, "leader") {
        Some(TKind::Leader)
    } else {
        None
    }
}

/// The tag of an element name; an unknown `t:` name has none.
pub open spec fn tag_named(n: Seq<char>) -> Option<TagV> {
    match after_prefix(n, "t:"@) {
        Some(d) => match directive_named(d) {
            Some(k) => Some(TagV::Directive(k)),
            None => None,
        },
        None => Some(TagV::Html(n)),
    }
}

pub fn tag_of(name: &str) -> (r: Option<Tag>)
    ensures
        match r {
            Some(t) => tag_named(name@) == Some(t@),
            None => tag_named(name@) is None,
        },
{
    match strip_prefix(name, "t:") {
        Some(d) => match directive_kind(d) {
            Some(k) => Some(Tag::Directive(k)),
            None => None,
        },
        None => Some(Tag::Html(name.to_owned())),
    }
}

// --------------------------------------------------------------------------
// document nodes to resolved nodes
// --------------------------------------------------------------------------

/// Whether every `t:` element in the tree is known.
pub open spec fn all_known(d: DomV) -> bool
    decreases d,
{
    match d {
        DomV::Element(e) => tag_named(e.name) is Some && all_known_upto(
            e.children,
            e.children.len(),
        ),
        _ => true,
    }
}

/// Whether every `t:` element in the first `k` trees is known.
pub open spec fn all_known_upto(v: Seq<DomV>, k: nat) -> bool
    decreases v, k,
{
    if k == 0 || k > v.len() {
        true
    } else {
        all_known_upto(v, (k - 1) as nat) && all_known(v[k - 1])
    }
}

/// The resolved nodes of the first `k` document nodes; comments and the like are
/// left out.
pub open spec fn resolved(v: Seq<DomV>, k: nat) -> Seq<NodeV>
    decreases v, k,
{
    if k == 0 || k > v.len() {
        Seq::empty()
    } else {
        let before = resolved(v, (k - 1) as nat);
        match v[k - 1] {
            DomV::Text(t) => before.push(NodeV::Text(t)),
            DomV::Element(e) => before.push(
                NodeV::Element {
                    tag: tag_named(e.name)->0,
                    attrs: e.attrs,
                    children: resolved(e.children, e.children.len()),
                },
            ),
            DomV::Other => before,
        }
    }
}

/// Whether every `t:` element in the trees is known.
pub open spec fn forest_known(v: Seq<DomV>) -> bool {
    all_known_upto(v, v.len())
}

/// One unknown element makes the whole unknown.
proof fn lemma_unknown(v: Seq<DomV>, j: nat, k: nat)
    requires
        j <= k <= v.len(),
        !all_known_upto(v, j),
    ensures
        !all_known_upto(v, k),
    decreases k,
{
    if j < k {
        lemma_unknown(v, j, (k - 1) as nat);
    }
}

fn unknown_element(name: &String) -> (r: RenderError)
    ensures
        r.code == ErrorCode::UnknownElement,
        r.message@ == name@,
        r.span == (Span { line: 0, range: None }),
{
    RenderError {
        code: ErrorCode::UnknownElement,
        message: name.clone(),
        span: Span { line: 0, range: None },
    }
}

/// The resolved nodes of document nodes.
pub fn resolve_nodes(v: &Vec<Dom>) -> (r: Result<Vec<FlowNode>, RenderError>)
    ensures
        match r {
            Ok(n) => forest_known(doms_view(v@)) && nodes_view(n@) == resolved(
                doms_view(v@),
                v@.len(),
            ),
            Err(e) => !forest_known(doms_view(v@)) && e.code == ErrorCode::UnknownElement,
        },
    decreases v,
{
    let ghost dv = doms_view(v@);
    let mut out: Vec<FlowNode> = Vec::new();
    let mut k: usize = 0;
    proof {
        assert(nodes_view(out@) =~= Seq::empty());
    }
    while k < v.len()
        invariant
            k <= v@.len(),
            dv == doms_view(v@),
            nodes_view(out@) == resolved(dv, k as nat),
            all_known_upto(dv, k as nat),
        decreases v@.len() - k,
    {
        proof {
            assert(dv[k as int] == dom_view(v@[k as int]));
        }
        match &v[k] {
            Dom::Text(t) => {
                let n = FlowNode::Text(t.clone());
                proof {
                    assert(nodes_view(out@.push(n)) =~= nodes_view(out@).push(NodeV::Text(t@)));
                }
                out.push(n);
            },
            Dom::Element(e) => {
                proof {
                    lemma_dom_children(*e);
                }
                let tag = match tag_of(e.name.as_str()) {
                    Some(t) => t,
                    None => {
                        proof {
                            assert(!all_known(dv[k as int]));
                            lemma_unknown(dv, (k + 1) as nat, dv.len());
                        }
                        return Err(unknown_element(&e.name));
                    },
                };
                let children = match resolve_nodes(&e.children) {
                    Ok(c) => c,
                    Err(x) => {
                        proof {
                            assert(!all_known(dv[k as int]));
                            lemma_unknown(dv, (k + 1) as nat, dv.len());
                        }
                        return Err(x);
                    },
                };
                let n = FlowNode::Element(Element { tag, attrs: clone_attrs(&e.attrs), children });
                proof {
                    assert(node_view(n)->children =~= nodes_view(children@));
                    assert(nodes_view(out@.push(n)) =~= nodes_view(out@).push(node_view(n)));
                    assert(all_known(dv[k as int]));
                }
                out.push(n);
            },
            Dom::Other => {},
        }
        proof {
            assert(all_known(dv[k as int]));
            assert(all_known_upto(dv, (k + 1) as nat));
        }
        k += 1;
    }
    Ok(out)
}

// --------------------------------------------------------------------------
// the body of a document
// --------------------------------------------------------------------------

/// The first element of that name among the nodes.
pub open spec fn first_element(v: Seq<DomV>, name: Seq<char>) -> Option<DomElementV>
    decreases v.len(),
{
    if v.len() == 0 {
        None
    } else {
        match v[0] {
            DomV::Element(e) if e.name == name => Some(e),
            _ => first_element(v.skip(1), name),
        }
    }
}

fn find_element<'a>(v: &'a Vec<Dom>, name: &str) -> (r: Option<&'a DomElement>)
    ensures
        match r {
            Some(e) => first_element(doms_view(v@), name@) == Some(dom_element_view(*e)),
            None => first_element(doms_view(v@), name@) is None,
        },
{
    let ghost dv = doms_view(v@);
    let mut i: usize = 0;
    proof {
        assert(dv.skip(0) =~= dv);
    }
    while i < v.len()
        invariant
            i <= v@.len(),
            dv == doms_view(v@),
            first_element(dv, name@) == first_element(dv.skip(i as int), name@),
        decreases v@.len() - i,
    {
        proof {
            assert(dv.skip(i as int)[0] == dom_view(v@[i as int]));
            assert(dv.skip(i as int).skip(1) =~= dv.skip(i as int + 1));
        }
        if let Dom::Element(e) = &v[i] {
            if same(e.name.as_str(), name) {
                return Some(e);
            }
        }
        i += 1;
    }
    None
}

/// An element without its children.
pub open spec fn shell(e: DomElementV) -> NodeV {
    NodeV::Element { tag: TagV::Html(e.name), attrs: e.attrs, children: Seq::empty() }
}

/// The `<html>` and `<body>` elements of a document.
pub open spec fn root_elements(doc: Seq<DomV>) -> Seq<DomElementV> {
    match first_element(doc, "html"@) {
        Some(h) => match first_element(h.children, "body"@) {
            Some(b) => seq![h, b],
            None => seq![h],
        },
        None => Seq::empty(),
    }
}

/// The content of a document's body.
pub open spec fn body_nodes(doc: Seq<DomV>) -> Seq<DomV> {
    match first_element(doc, "html"@) {
        Some(h) => match first_element(h.children, "body"@) {
            Some(b) => b.children,
            None => Seq::empty(),
        },
        None => Seq::empty(),
    }
}

pub open spec fn elements_view(v: Seq<Element>) -> Seq<NodeV> {
    v.map_values(|e: Element| node_view(FlowNode::Element(e)))
}

fn shell_of(e: &DomElement) -> (r: Element)
    ensures
        node_view(FlowNode::Element(r)) == shell(dom_element_view(*e)),
{
    let children: Vec<FlowNode> = Vec::new();
    let r = Element { tag: Tag::Html(e.name.clone()), attrs: clone_attrs(&e.attrs), children };
    proof {
        assert(node_view(FlowNode::Element(r))->children =~= Seq::empty());
    }
    r
}

/// The body flow and the root shells of a parsed document.
pub fn flow_of_document(doc: &Vec<Dom>) -> (r: Result<(Vec<FlowNode>, Vec<Element>), RenderError>)
    ensures
        match r {
            Ok((nodes, roots)) => {
                let body = body_nodes(doms_view(doc@));
                &&& forest_known(body)
                &&& nodes_view(nodes@) == resolved(body, body.len())
                &&& elements_view(roots@) == root_elements(doms_view(doc@)).map_values(
                    |e: DomElementV| shell(e),
                )
            },
            Err(e) => !forest_known(body_nodes(doms_view(doc@))) && e.code
                == ErrorCode::UnknownElement,
        },
{
    let mut roots: Vec<Element> = Vec::new();
    let ghost want = root_elements(doms_view(doc@)).map_values(|e: DomElementV| shell(e));
    let empty: Vec<FlowNode> = Vec::new();
    proof {
        assert(nodes_view(empty@) =~= Seq::empty());
    }
    let html = match find_element(doc, "html") {
        Some(h) => h,
        None => {
            proof {
                assert(elements_view(roots@) =~= want);
            }
            return Ok((empty, roots));
        },
    };
    proof {
        lemma_dom_children(*html);
    }
    roots.push(shell_of(html));
    let body = match find_element(&html.children, "body") {
        Some(b) => b,
        None => {
            proof {
                assert(elements_view(roots@) =~= want);
            }
            return Ok((empty, roots));
        },
    };
    proof {
        lemma_dom_children(*body);
    }
    roots.push(shell_of(body));
    proof {
        assert(elements_view(roots@) =~= want);
    }
    match resolve_nodes(&body.children) {
        Ok(nodes) => Ok((nodes, roots)),
        Err(e) => Err(e),
    }
}

/// Parse final HTML, returning the body flow and the `<html>` and `<body>`
/// shells that selectors match against.
pub fn parse_html_with_roots(html: &str) -> (r: Result<(Vec<FlowNode>, Vec<Element>), RenderError>)
    requires
        parsable(html@),
    ensures
        match r {
            Ok((nodes, roots)) => {
                let doc = document_of(html@);
                let body = body_nodes(doc);
                &&& forest_known(body)
                &&& nodes_view(nodes@) == resolved(body, body.len())
                &&& elements_view(roots@) == root_elements(doc).map_values(
                    |e: DomElementV| shell(e),
                )
            },
            Err(e) => !forest_known(body_nodes(document_of(html@))) && e.code
                == ErrorCode::UnknownElement,
        },
{
    flow_of_document(&parse_document(html))
}

/// Parse final HTML into its body flow. Template syntax is page content here and
/// is kept as it is.
pub fn parse_html(html: &str) -> (r: Result<Vec<FlowNode>, RenderError>)
    requires
        parsable(html@),
    ensures
        match r {
            Ok(nodes) => {
                let body = body_nodes(document_of(html@));
                forest_known(body) && nodes_view(nodes@) == resolved(body, body.len())
            },
            Err(e) => !forest_known(body_nodes(document_of(html@))) && e.code
                == ErrorCode::UnknownElement,
        },
{
    match parse_html_with_roots(html) {
        Ok((nodes, _)) => Ok(nodes),
        Err(e) => Err(e),
    }
}

} // verus!
