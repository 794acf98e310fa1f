//! Reading a final HTML document: its style text, its inline images, and the
//! geometry of the boxes that it tags.

use std::collections::HashMap;

use vstd::prelude::*;
use vstd::string::*;

use crate::layout::boxgen::{
    attr_of, attr_value, box_view, boxes_view, item_view, items_view, kind_view,
    lemma_kind_children, BoxKind, BoxV, InlineItem, ItemV, KindV, LayoutBox,
};
use crate::layout::fragment::{
    frag_view, frags_view, lemma_frag_children, ContentV, FragV, Fragment, FragmentContent,
    Rect, Transform2D,
};
use crate::node::{attrs_view, node_view, nodes_view, Element, FlowNode, NodeV, Tag, TagV};
use crate::number::{clip, dot, dot_of, greatest, least, max_of, min_of, minus, plus};
use crate::scan::{contains, lower, same, to_lower};

verus! {

broadcast use vstd::std_specs::hash::group_hash_axioms;

// --------------------------------------------------------------------------
// visible content
// --------------------------------------------------------------------------

/// Elements whose text is not page content.
pub open spec fn non_visual(name: Seq<char>) -> bool {
    let n = lower(name);
    n == "style"@ || n == "script"@ || n == "head"@ || n == "title"@ || n == "meta"@ || n
        == "link"@ || n == "noscript"@ || n == "template"@
}

pub fn is_non_visual(name: &str) -> (r: bool)
    ensures
        r == non_visual(name@),
{
    let low = to_lower(name);
    let n = low.as_str();
    same(n, "style") || same(n, "script") || same(n, "head") || same(n, "title") || same(n, "meta")
        || same(n, "link") || same(n, "noscript") || same(n, "template")
}

/// Whether a tag is dropped from the flow.
pub open spec fn dropped(t: TagV) -> bool {
    t matches TagV::Html(n) && non_visual(n)
}

/// The first `k` nodes without the subtrees that are not page content.
pub open spec fn visible(v: Seq<NodeV>, k: nat) -> Seq<NodeV>
    decreases v, k,
{
    if k == 0 || k > v.len() {
        Seq::empty()
    } else {
        let before = visible(v, (k - 1) as nat);
        match v[k - 1] {
            NodeV::Text(t) => before.push(NodeV::Text(t)),
            NodeV::Element { tag, attrs, children } => if dropped(tag) {
                before
            } else {
                before.push(
                    NodeV::Element { tag, attrs, children: visible(children, children.len()) },
                )
            },
        }
    }
}

proof fn lemma_node_children(e: Element)
    ensures
        node_view(FlowNode::Element(e)) == (NodeV::Element {
            tag: e.tag@,
            attrs: attrs_view(e.attrs@),
            children: nodes_view(e.children@),
        }),
{
    assert(node_view(FlowNode::Element(e))->children =~= nodes_view(e.children@));
}

fn drops(tag: &Tag) -> (r: bool)
    ensures
        r == dropped(tag@),
{
    match tag {
        Tag::Html(n) => is_non_visual(n.as_str()),
        Tag::Directive(_) => false,
    }
}

/// Drop the subtrees that are not page content (`<style>`, `<script>`, ...).
pub fn strip_non_visual(nodes: Vec<FlowNode>) -> (r: Vec<FlowNode>)
    ensures
        nodes_view(r@) == visible(nodes_view(nodes@), nodes@.len()),
    decreases nodes,
{
    let ghost all = nodes@;
    let ghost nv = nodes_view(all);
    let mut out: Vec<FlowNode> = Vec::new();
    proof {
        assert(nodes_view(out@) =~= Seq::empty());
    }
    for node in it: nodes
        invariant
            it.seq() == all,
            all == nodes@,
            nv == nodes_view(all),
            nodes_view(out@) == visible(nv, it.index() as nat),
    {
        proof {
            assert(nv[it.index()] == node_view(all[it.index()]));
        }
        match node {
            FlowNode::Text(t) => {
                let n = FlowNode::Text(t);
                proof {
                    assert(nodes_view(out@.push(n)) =~= nodes_view(out@).push(node_view(n)));
                }
                out.push(n);
            },
            FlowNode::Element(e) => {
                proof {
                    lemma_node_children(e);
                }
                let Element { tag, attrs, children } = e;
                if !drops(&tag) {
                    let kept = Element { tag, attrs, children: strip_non_visual(children) };
                    proof {
                        lemma_node_children(kept);
                    }
                    let n = FlowNode::Element(kept);
                    proof {
                        assert(nodes_view(out@.push(n)) =~= nodes_view(out@).push(node_view(n)));
                    }
                    out.push(n);
                }
            },
        }
    }
    out
}

/// Whether no element of the first `k` trees is dropped content.
pub open spec fn all_visual(v: Seq<NodeV>, k: nat) -> bool
    decreases v, k,
{
    if k == 0 || k > v.len() {
        true
    } else {
        all_visual(v, (k - 1) as nat) && match v[k - 1] {
            NodeV::Text(_) => true,
            NodeV::Element { tag, attrs, children } => !dropped(tag) && all_visual(
                children,
                children.len(),
            ),
        }
    }
}

proof fn lemma_visual_push(v: Seq<NodeV>, x: NodeV, k: nat)
    requires
        k <= v.len(),
    ensures
        all_visual(v.push(x), k) == all_visual(v, k),
    decreases k,
{
    if k > 0 {
        lemma_visual_push(v, x, (k - 1) as nat);
        assert(v.push(x)[k - 1] == v[k - 1]);
    }
}

/// Nothing that is not page content is left after stripping, at any depth.
pub proof fn law_stripped_is_visual(v: Seq<NodeV>, k: nat)
    requires
        k <= v.len(),
    ensures
        all_visual(visible(v, k), visible(v, k).len()),
    decreases v, k,
{
    if k > 0 {
        law_stripped_is_visual(v, (k - 1) as nat);
        let before = visible(v, (k - 1) as nat);
        match v[k - 1] {
            NodeV::Text(t) => {
                lemma_visual_push(before, NodeV::Text(t), before.len());
                assert(before.push(NodeV::Text(t))[before.len() as int] == NodeV::Text(t));
            },
            NodeV::Element { tag, attrs, children } => {
                if !dropped(tag) {
                    law_stripped_is_visual(children, children.len());
                    let x = NodeV::Element {
                        tag,
                        attrs,
                        children: visible(children, children.len()),
                    };
                    lemma_visual_push(before, x, before.len());
                    assert(before.push(x)[before.len() as int] == x);
                }
            },
        }
    }
}

// --------------------------------------------------------------------------
// style text
// --------------------------------------------------------------------------

/// The texts of the first `k` nodes that are text, each ended by a newline.
pub open spec fn own_text(v: Seq<NodeV>, k: nat) -> Seq<char>
    decreases k,
{
    if k == 0 || k > v.len() {
        Seq::empty()
    } else {
        let before = own_text(v, (k - 1) as nat);
        match v[k - 1] {
            NodeV::Text(t) => (before + t).push('\n'),
            _ => before,
        }
    }
}

/// The text of every `<style>` in the first `k` trees, in document order.
pub open spec fn style_text(v: Seq<NodeV>, k: nat) -> Seq<char>
    decreases v, k,
{
    if k == 0 || k > v.len() {
        Seq::empty()
    } else {
        let before = style_text(v, (k - 1) as nat);
        match v[k - 1] {
            NodeV::Text(_) => before,
            NodeV::Element { tag, attrs, children } => {
                let own = if tag == TagV::Html("style"@) {
                    own_text(children, children.len())
                } else {
                    Seq::empty()
                };
                before + own + style_text(children, children.len())
            },
        }
    }
}

fn append_own_text(v: &Vec<FlowNode>, css: &mut String)
    ensures
        final(css)@ == old(css)@ + own_text(nodes_view(v@), v@.len()),
{
    let ghost nv = nodes_view(v@);
    let ghost start = css@;
    let mut k: usize = 0;
    proof {
        assert(start + Seq::<char>::empty() =~= start);
    }
    while k < v.len()
        invariant
            k <= v@.len(),
            nv == nodes_view(v@),
            css@ == start + own_text(nv, k as nat),
        decreases v@.len() - k,
    {
        proof {
            assert(nv[k as int] == node_view(v@[k as int]));
        }
        if let FlowNode::Text(t) = &v[k] {
            proof {
                let o = own_text(nv, k as nat);
                assert((start + o + t@).push('\n') =~= start + (o + t@).push('\n'));
            }
            css.append(t.as_str());
            css.push('\n');
        }
        k += 1;
    }
}

fn collect_style_into(v: &Vec<FlowNode>, css: &mut String)
    ensures
        final(css)@ == old(css)@ + style_text(nodes_view(v@), v@.len()),
    decreases v,
{
    let ghost nv = nodes_view(v@);
    let ghost start = css@;
    let mut k: usize = 0;
    proof {
        assert(start + Seq::<char>::empty() =~= start);
    }
    while k < v.len()
        invariant
            k <= v@.len(),
            nv == nodes_view(v@),
            css@ == start + style_text(nv, k as nat),
        decreases v@.len() - k,
    {
        proof {
            assert(nv[k as int] == node_view(v@[k as int]));
        }
        if let FlowNode::Element(e) = &v[k] {
            proof {
                lemma_node_children(*e);
            }
            let ghost before = css@;
            let is_style: bool = match &e.tag {
                Tag::Html(n) => same(n.as_str(), "style"),
                Tag::Directive(_) => false,
            };
            if is_style {
                append_own_text(&e.children, css);
            }
            let ghost own = if is_style {
                own_text(nodes_view(e.children@), e.children@.len())
            } else {
                Seq::empty()
            };
            proof {
                assert(css@ =~= before + own);
            }
            collect_style_into(&e.children, css);
            proof {
                let b = style_text(nv, k as nat);
                let c = style_text(nodes_view(e.children@), e.children@.len());
                assert((start + b) + own + c =~= start + (b + own + c));
            }
        }
        k += 1;
    }
}

/// The text of every `<style>` element in document order: the page's own style
/// sheet.
pub fn collect_style_css(nodes: &Vec<FlowNode>) -> (r: String)
    ensures
        r@ == style_text(nodes_view(nodes@), nodes@.len()),
{
    let mut css = String::new();
    collect_style_into(nodes, &mut css);
    proof {
        assert(css@ =~= style_text(nodes_view(nodes@), nodes@.len()));
    }
    css
}

// --------------------------------------------------------------------------
// tagged boxes
// --------------------------------------------------------------------------

/// The `data-cid` tags of a document, by node id.
pub type CidMap = Map<u32, Seq<char>>;

/// The map with the tags of a box and everything in it added.
pub open spec fn with_cids(m: CidMap, b: BoxV) -> CidMap
    decreases b, 1int, 0nat,
{
    let own = match attr_of(b.attrs, "data-cid"@) {
        Some(c) => m.insert(b.id as u32, c),
        None => m,
    };
    match b.kind {
        KindV::Lines(items) => with_item_cids(own, items, items.len()),
        KindV::Block(v) => with_box_cids(own, v, v.len()),
        KindV::Flex(v) => with_box_cids(own, v, v.len()),
        KindV::Grid(v) => with_box_cids(own, v, v.len()),
        KindV::Table(v) => with_box_cids(own, v, v.len()),
        KindV::Directive(_) => own,
    }
}

pub open spec fn with_box_cids(m: CidMap, v: Seq<BoxV>, k: nat) -> CidMap
    decreases v, 0int, k,
{
    if k == 0 || k > v.len() {
        m
    } else {
        with_cids(with_box_cids(m, v, (k - 1) as nat), v[k - 1])
    }
}

pub open spec fn with_item_cids(m: CidMap, v: Seq<ItemV>, k: nat) -> CidMap
    decreases v, 0int, k,
{
    if k == 0 || k > v.len() {
        m
    } else {
        let before = with_item_cids(m, v, (k - 1) as nat);
        match v[k - 1] {
            ItemV::Atomic(b) => with_cids(before, b),
            _ => before,
        }
    }
}

/// The tags held by a hash map.
pub open spec fn cids_view(m: Map<u32, String>) -> CidMap {
    Map::new(|k: u32| m.contains_key(k), |k: u32| m[k]@)
}

/// The block-level children of a box; none for lines and directives.
pub open spec fn children_of(k: KindV) -> Seq<BoxV> {
    match k {
        KindV::Block(v) => v,
        KindV::Flex(v) => v,
        KindV::Grid(v) => v,
        KindV::Table(v) => v,
        _ => Seq::empty(),
    }
}

pub fn block_children(kind: &BoxKind) -> (r: &[LayoutBox])
    ensures
        boxes_view(r@) == children_of(kind_view(*kind)),
{
    proof {
        lemma_kind_children(*kind);
    }
    match kind {
        BoxKind::Block(k) => k.as_slice(),
        BoxKind::Flex(k) => k.as_slice(),
        BoxKind::Grid(k) => k.as_slice(),
        BoxKind::Table(k) => k.as_slice(),
        _ => {
            let empty: &[LayoutBox] = &[];
            proof {
                assert(boxes_view(empty@) =~= Seq::empty());
            }
            empty
        },
    }
}

fn collect_box_cids(v: &Vec<LayoutBox>, out: &mut HashMap<u32, String>)
    ensures
        cids_view(final(out)@) == with_box_cids(cids_view(old(out)@), boxes_view(v@), v@.len()),
    decreases v, 0int,
{
    let ghost bv = boxes_view(v@);
    let ghost start = cids_view(out@);
    let mut k: usize = 0;
    while k < v.len()
        invariant
            k <= v@.len(),
            bv == boxes_view(v@),
            cids_view(out@) == with_box_cids(start, bv, k as nat),
        decreases v@.len() - k,
    {
        proof {
            assert(bv[k as int] == box_view(v@[k as int]));
        }
        collect_cids(&v[k], out);
        k += 1;
    }
}

/// Recurse into the atomic boxes of a run of inline items.
fn collect_line_atoms(v: &Vec<InlineItem>, out: &mut HashMap<u32, String>)
    ensures
        cids_view(final(out)@) == with_item_cids(cids_view(old(out)@), items_view(v@), v@.len()),
    decreases v, 0int,
{
    let ghost iv = items_view(v@);
    let ghost start = cids_view(out@);
    let mut k: usize = 0;
    while k < v.len()
        invariant
            k <= v@.len(),
            iv == items_view(v@),
            cids_view(out@) == with_item_cids(start, iv, k as nat),
        decreases v@.len() - k,
    {
        proof {
            assert(iv[k as int] == item_view(v@[k as int]));
        }
        if let InlineItem::Atomic(b) = &v[k] {
            collect_cids(b, out);
        }
        k += 1;
    }
}

/// Record the `data-cid` of a box and of everything in it, by node id.
pub fn collect_cids(b: &LayoutBox, out: &mut HashMap<u32, String>)
    ensures
        cids_view(final(out)@) == with_cids(cids_view(old(out)@), box_view(*b)),
    decreases b, 1int,
{
    if let Some(c) = attr_value(&b.attrs, "data-cid") {
        let ghost before = out@;
        let owned = c.to_owned();
        out.insert(b.node_id.0, owned);
        proof {
            assert(cids_view(out@) =~= cids_view(before).insert(b.node_id.0, c@));
        }
    }
    proof {
        lemma_kind_children(b.kind);
    }
    match &b.kind {
        BoxKind::Lines(items) => collect_line_atoms(items, out),
        BoxKind::Block(k) => collect_box_cids(k, out),
        BoxKind::Flex(k) => collect_box_cids(k, out),
        BoxKind::Grid(k) => collect_box_cids(k, out),
        BoxKind::Table(k) => collect_box_cids(k, out),
        BoxKind::Directive(_) => {},
    }
}

// --------------------------------------------------------------------------
// transformed rectangles
// --------------------------------------------------------------------------

/// Where a transform takes the point `(px, py)` of its box, on the x axis.
pub open spec fn image_x(t: Transform2D, px: int, py: int) -> int {
    let u = clip(px - t.origin_x);
    let v = clip(py - t.origin_y);
    clip(clip(dot(t.linear.a as int, u, t.linear.c as int, v) + t.e) + t.origin_x)
}

/// Where a transform takes the point `(px, py)` of its box, on the y axis.
pub open spec fn image_y(t: Transform2D, px: int, py: int) -> int {
    let u = clip(px - t.origin_x);
    let v = clip(py - t.origin_y);
    clip(clip(dot(t.linear.b as int, u, t.linear.d as int, v) + t.f) + t.origin_y)
}

pub open spec fn least4(a: int, b: int, c: int, d: int) -> int {
    least(least(a, b), least(c, d))
}

pub open spec fn greatest4(a: int, b: int, c: int, d: int) -> int {
    greatest(greatest(a, b), greatest(c, d))
}

/// The transform of a fragment, where it is a box that has one.
pub open spec fn transform_of_frag(c: ContentV) -> Option<Transform2D> {
    match c {
        ContentV::Box(p) => p.transform,
        _ => None,
    }
}

/// The smallest upright rectangle around a box's four transformed corners.
pub open spec fn bounds(x: int, y: int, w: int, h: int, t: Transform2D) -> Rect {
    let x0 = least4(image_x(t, 0, 0), image_x(t, w, 0), image_x(t, 0, h), image_x(t, w, h));
    let x1 = greatest4(image_x(t, 0, 0), image_x(t, w, 0), image_x(t, 0, h), image_x(t, w, h));
    let y0 = least4(image_y(t, 0, 0), image_y(t, w, 0), image_y(t, 0, h), image_y(t, w, h));
    let y1 = greatest4(image_y(t, 0, 0), image_y(t, w, 0), image_y(t, 0, h), image_y(t, w, h));
    Rect {
        x: clip(x + x0) as i64,
        y: clip(y + y0) as i64,
        width: clip(x1 - x0) as i64,
        height: clip(y1 - y0) as i64,
    }
}

/// The rectangle of a fragment as painted.
pub open spec fn painted_rect(f: FragV) -> Rect {
    match transform_of_frag(f.content) {
        Some(t) => bounds(f.x, f.y, f.width, f.height, t),
        None => Rect {
            x: f.x as i64,
            y: f.y as i64,
            width: f.width as i64,
            height: f.height as i64,
        },
    }
}

fn map_x(t: &Transform2D, px: i64, py: i64) -> (r: i64)
    ensures
        r == image_x(*t, px as int, py as int),
{
    let u: i64 = minus(px, t.origin_x);
    let v: i64 = minus(py, t.origin_y);
    plus(plus(dot_of(t.linear.a, u, t.linear.c, v), t.e), t.origin_x)
}

fn map_y(t: &Transform2D, px: i64, py: i64) -> (r: i64)
    ensures
        r == image_y(*t, px as int, py as int),
{
    let u: i64 = minus(px, t.origin_x);
    let v: i64 = minus(py, t.origin_y);
    plus(plus(dot_of(t.linear.b, u, t.linear.d, v), t.f), t.origin_y)
}

/// A fragment's rectangle after its transform: the upright rectangle around the
/// four transformed corners, and the plain one without a transform.
pub fn transformed_rect(f: &Fragment) -> (r: Rect)
    ensures
        r == painted_rect(f@),
{
    let t: Transform2D = match &f.content {
        FragmentContent::Box(p) => match p.transform {
            Some(t) => t,
            None => return Rect { x: f.x, y: f.y, width: f.width, height: f.height },
        },
        _ => return Rect { x: f.x, y: f.y, width: f.width, height: f.height },
    };
    let (w, h): (i64, i64) = (f.width, f.height);
    let (a, b): (i64, i64) = (map_x(&t, 0, 0), map_x(&t, w, 0));
    let (c, d): (i64, i64) = (map_x(&t, 0, h), map_x(&t, w, h));
    let (p, q): (i64, i64) = (map_y(&t, 0, 0), map_y(&t, w, 0));
    let (m, n): (i64, i64) = (map_y(&t, 0, h), map_y(&t, w, h));
    let x0: i64 = min_of(min_of(a, b), min_of(c, d));
    let x1: i64 = max_of(max_of(a, b), max_of(c, d));
    let y0: i64 = min_of(min_of(p, q), min_of(m, n));
    let y1: i64 = max_of(max_of(p, q), max_of(m, n));
    Rect { x: plus(f.x, x0), y: plus(f.y, y0), width: minus(x1, x0), height: minus(y1, y0) }
}

// --------------------------------------------------------------------------
// the rectangles of tagged boxes
// --------------------------------------------------------------------------

/// A laid-out box with the tag of its source element.
#[derive(Debug)]
pub struct CidBox {
    pub cid: String,
    pub rect: Rect,
}

/// The tagged rectangles found so far, and the ids they belong to.
pub struct Found {
    pub seen: Seq<u32>,
    pub out: Seq<(Seq<char>, Rect)>,
}

pub open spec fn cid_boxes_view(v: Seq<CidBox>) -> Seq<(Seq<char>, Rect)> {
    v.map_values(|b: CidBox| (b.cid@, b.rect))
}

/// What a fragment adds, then what its children add in order: each tagged id
/// counts once, for the first fragment that carries it.
pub open spec fn found_in(w: Found, f: FragV, cids: CidMap) -> Found
    decreases f, 1int, 0nat,
{
    let own = if cids.contains_key(f.id) && !w.seen.contains(f.id) {
        Found {
            seen: w.seen.push(f.id),
            out: w.out.push((cids[f.id], painted_rect(f))),
        }
    } else {
        w
    };
    found_among(own, f.children, cids, f.children.len())
}

pub open spec fn found_among(w: Found, v: Seq<FragV>, cids: CidMap, k: nat) -> Found
    decreases v, 0int, k,
{
    if k == 0 || k > v.len() {
        w
    } else {
        found_in(found_among(w, v, cids, (k - 1) as nat), v[k - 1], cids)
    }
}

fn has_id(v: &Vec<u32>, id: u32) -> (r: bool)
    ensures
        r == v@.contains(id),
{
    let mut i: usize = 0;
    while i < v.len()
        invariant
            i <= v@.len(),
            forall|j: int| 0 <= j < i ==> v@[j] != id,
        decreases v@.len() - i,
    {
        if v[i] == id {
            return true;
        }
        i += 1;
    }
    false
}

/// Walk the galley in paint order, taking the first fragment of each tagged id:
/// the outermost one, since a parent comes before its children.
pub fn collect_boxes(
    f: &Fragment,
    cids: &HashMap<u32, String>,
    seen: &mut Vec<u32>,
    out: &mut Vec<CidBox>,
)
    ensures
        found_in(
            Found { seen: old(seen)@, out: cid_boxes_view(old(out)@) },
            f@,
            cids_view(cids@),
        ) == (Found { seen: final(seen)@, out: cid_boxes_view(final(out)@) }),
    decreases f,
{
    let ghost cm = cids_view(cids@);
    let id: u32 = f.node_id.0;
    if let Some(cid) = cids.get(&id) {
        if !has_id(seen, id) {
            seen.push(id);
            let b = CidBox { cid: cid.clone(), rect: transformed_rect(f) };
            proof {
                assert(cid_boxes_view(out@.push(b)) =~= cid_boxes_view(out@).push(
                    (cid@, painted_rect(f@)),
                ));
            }
            out.push(b);
        }
    }
    let ghost start = Found { seen: seen@, out: cid_boxes_view(out@) };
    let ghost kids = f@.children;
    proof {
        lemma_frag_children(*f);
    }
    let mut k: usize = 0;
    while k < f.children.len()
        invariant
            k <= f.children@.len(),
            kids == frags_view(f.children@),
            cm == cids_view(cids@),
            found_among(start, kids, cm, k as nat) == (Found {
                seen: seen@,
                out: cid_boxes_view(out@),
            }),
        decreases f.children@.len() - k,
    {
        proof {
            assert(kids[k as int] == frag_view(f.children@[k as int]));
        }
        collect_boxes(&f.children[k], cids, seen, out);
        k += 1;
    }
}

/// The rectangles of the tagged boxes of a laid-out document: `tree` gives the
/// tags, `galley` the places.
pub fn tagged_boxes(tree: &LayoutBox, galley: &Fragment) -> (r: Vec<CidBox>)
    ensures
        cid_boxes_view(r@) == found_in(
            Found { seen: Seq::empty(), out: Seq::empty() },
            galley@,
            with_cids(Map::empty(), box_view(*tree)),
        ).out,
{
    let mut cids: HashMap<u32, String> = HashMap::new();
    proof {
        assert(cids_view(cids@) =~= Map::empty());
    }
    collect_cids(tree, &mut cids);
    let mut seen: Vec<u32> = Vec::new();
    let mut out: Vec<CidBox> = Vec::new();
    proof {
        assert(cid_boxes_view(out@) =~= Seq::empty());
        assert(seen@ =~= Seq::empty());
    }
    collect_boxes(galley, &cids, &mut seen, &mut out);
    out
}

} // verus!
