//! The resolved node tree: HTML elements, text, and paged-media directives.

use vstd::prelude::*;

verus! {

/// A paged-media directive (`<t:...>`).
#[derive(Debug, Clone, Copy, PartialEq, Eq, Structural)]
pub enum TKind {
    PageMaster,
    Region,
    Variant,
    UseMaster,
    RunningHeader,
    RunningFooter,
    Footnote,
    FootnoteSeparator,
    Endnote,
    Endnotes,
    Page,
    Pages,
    Counter,
    Anchor,
    Leader,
}

/// An element's tag: an HTML name or a directive.
#[derive(Debug)]
pub enum Tag {
    Html(String),
    Directive(TKind),
}

/// The mathematical reading of a [`Tag`].
pub enum TagV {
    Html(Seq<char>),
    Directive(TKind),
}

impl View for Tag {
    type V = TagV;

    open spec fn view(&self) -> TagV {
        match *self {
            Tag::Html(n) => TagV::Html(n@),
            Tag::Directive(k) => TagV::Directive(k),
        }
    }
}

/// One attribute of an element.
#[derive(Debug)]
pub struct Attr {
    pub name: String,
    pub value: String,
}

impl View for Attr {
    type V = (Seq<char>, Seq<char>);

    open spec fn view(&self) -> (Seq<char>, Seq<char>) {
        (self.name@, self.value@)
    }
}

impl Clone for Attr {
    fn clone(&self) -> (r: Attr)
        ensures
            r@ == self@,
    {
        Attr { name: self.name.clone(), value: self.value.clone() }
    }
}

/// The attributes as name/value pairs, in source order.
pub open spec fn attrs_view(a: Seq<Attr>) -> Seq<(Seq<char>, Seq<char>)> {
    a.map_values(|x: Attr| x@)
}

pub fn clone_attrs(a: &Vec<Attr>) -> (r: Vec<Attr>)
    ensures
        attrs_view(r@) == attrs_view(a@),
{
    let mut out: Vec<Attr> = Vec::new();
    let mut i: usize = 0;
    while i < a.len()
        invariant
            i <= a@.len(),
            out@.len() == i,
            forall|j: int| 0 <= j < i ==> (#[trigger] out@[j])@ == a@[j]@,
        decreases a@.len() - i,
    {
        out.push(a[i].clone());
        i += 1;
    }
    proof {
        assert(attrs_view(out@) =~= attrs_view(a@));
    }
    out
}

/// An element of the node tree.
#[derive(Debug)]
pub struct Element {
    pub tag: Tag,
    pub attrs: Vec<Attr>,
    pub children: Vec<FlowNode>,
}

/// A node of the resolved tree.
#[derive(Debug)]
pub enum FlowNode {
    Text(String),
    Element(Element),
}

/// The mathematical reading of a [`FlowNode`].
pub enum NodeV {
    Text(Seq<char>),
    Element { tag: TagV, attrs: Seq<(Seq<char>, Seq<char>)>, children: Seq<NodeV> },
}

pub open spec fn node_view(n: FlowNode) -> NodeV
    decreases n,
{
    match n {
        FlowNode::Text(t) => NodeV::Text(t@),
        FlowNode::Element(e) => NodeV::Element {
            tag: e.tag@,
            attrs: attrs_view(e.attrs@),
            children: Seq::new(
                e.children@.len(),
                |i: int|
                    if 0 <= i < e.children@.len() {
                        node_view(e.children@[i])
                    } else {
                        arbitrary()
                    },
            ),
        },
    }
}

impl View for FlowNode {
    type V = NodeV;

    open spec fn view(&self) -> NodeV {
        node_view(*self)
    }
}

pub open spec fn nodes_view(v: Seq<FlowNode>) -> Seq<NodeV> {
    v.map_values(|n: FlowNode| node_view(n))
}

} // verus!
