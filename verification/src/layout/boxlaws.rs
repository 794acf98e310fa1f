//! What holds of every generated box tree.

use vstd::multiset::Multiset;
use vstd::prelude::*;

use crate::layout::boxgen::{button_label, hidden, BoxV, ItemV, KindV};
use crate::layout::boxtree::{
    anonymous, flow_kind, flushed, gen_box, gen_element, gen_kids, gen_kind, gen_level, gen_levels,
    gen_tree, has_block, inlined, is_blank_run, wrap_fold, wrapped, LevelV, Wrap,
};
use crate::node::TagV;
use crate::style::{
    element_view, lemma_element_children, styled_view, styled_views, ElementV, StyleMap,
    StyledNode, StyledV,
};

verus! {

// --------------------------------------------------------------------------
// how many ids a tree takes
// --------------------------------------------------------------------------

/// The number of nodes in a styled tree.
pub open spec fn node_count(n: StyledV) -> nat
    decreases n, 1int, 0nat,
{
    match n {
        StyledV::Text(_) => 1,
        StyledV::Element(e) => element_count(e),
    }
}

pub open spec fn element_count(e: ElementV) -> nat
    decreases e, 1int, 0nat,
{
    1 + total_count(e.children, e.children.len())
}

/// The number of nodes in the first `k` trees.
pub open spec fn total_count(ch: Seq<StyledV>, k: nat) -> nat
    decreases ch, 0int, k,
{
    if k == 0 || k > ch.len() {
        0
    } else {
        total_count(ch, (k - 1) as nat) + node_count(ch[k - 1])
    }
}

proof fn lemma_bound_box(e: ElementV, next: int)
    ensures
        gen_box(e, next).1 <= next + 3 * element_count(e) - 1,
    decreases e, 2int, 0nat,
{
    if e.tag is Html {
        lemma_bound_kind(e, next + 1);
    }
}

proof fn lemma_bound_kind(e: ElementV, next: int)
    ensures
        gen_kind(e, next).1 <= next + 3 * total_count(e.children, e.children.len()) + 1,
    decreases e, 1int, 0nat,
{
    if button_label(e) is None {
        let n = e.children.len();
        lemma_bound_kids(e.children, next, n);
        lemma_bound_levels(e.children, e.style, next, n);
        let (levels, m) = gen_levels(e.children, e.style, next, n);
        lemma_bound_flow(levels, e.style, m);
    }
}

proof fn lemma_bound_kids(ch: Seq<StyledV>, next: int, k: nat)
    requires
        k <= ch.len(),
    ensures
        gen_kids(ch, next, k).1 <= next + 3 * total_count(ch, k),
    decreases ch, 0int, k,
{
    if k > 0 {
        lemma_bound_kids(ch, next, (k - 1) as nat);
        let n = gen_kids(ch, next, (k - 1) as nat).1;
        assert(total_count(ch, k) == total_count(ch, (k - 1) as nat) + node_count(ch[k - 1]));
        if let StyledV::Element(e) = ch[k - 1] {
            lemma_bound_box(e, n);
            assert(node_count(ch[k - 1]) == element_count(e));
        }
    }
}

proof fn lemma_bound_levels(ch: Seq<StyledV>, parent: StyleMap, next: int, k: nat)
    requires
        k <= ch.len(),
    ensures
        gen_levels(ch, parent, next, k).1 + gen_levels(ch, parent, next, k).0.len() <= next + 3
            * total_count(ch, k),
    decreases ch, 0int, k,
{
    if k > 0 {
        lemma_bound_levels(ch, parent, next, (k - 1) as nat);
        lemma_bound_level(ch[k - 1], parent, gen_levels(ch, parent, next, (k - 1) as nat).1);
    }
}

proof fn lemma_bound_level(n: StyledV, parent: StyleMap, next: int)
    ensures
        gen_level(n, parent, next).1 <= next + 3 * node_count(n) - 1,
    decreases n, 4int, 0nat,
{
    if let StyledV::Element(e) = n {
        lemma_bound_element(e, next);
    }
}

proof fn lemma_bound_element(e: ElementV, next: int)
    ensures
        gen_element(e, next).1 <= next + 3 * element_count(e) - 1,
    decreases e, 3int, 0nat,
{
    lemma_bound_box(e, next);
    lemma_bound_levels(e.children, e.style, next, e.children.len());
}

proof fn lemma_bound_wrap(l: Seq<LevelV>, parent: StyleMap, next: int, k: nat)
    ensures
        ({
            let w = wrap_fold(l, parent, next, k);
            w.next + (if is_blank_run(w.run) {
                0int
            } else {
                1
            }) <= next + k
        }),
    decreases k,
{
    if k > 0 {
        lemma_bound_wrap(l, parent, next, (k - 1) as nat);
    }
}

proof fn lemma_bound_flow(l: Seq<LevelV>, parent: StyleMap, next: int)
    ensures
        flow_kind(l, parent, next).1 <= next + l.len(),
{
    lemma_bound_wrap(l, parent, next, l.len());
}

/// A tree takes at most three ids a node, and one for its root.
pub proof fn law_ids_bounded(nodes: Seq<StyledV>)
    ensures
        gen_tree(nodes).1 <= 3 * total_count(nodes, nodes.len()) + 1,
{
    let style = Map::<Seq<char>, Seq<char>>::empty();
    lemma_bound_levels(nodes, style, 1, nodes.len());
    let (levels, n) = gen_levels(nodes, style, 1, nodes.len());
    lemma_bound_flow(levels, style, n);
}

/// The number of nodes, held at `2^32`.
fn count_nodes(v: &Vec<StyledNode>) -> (r: u64)
    ensures
        r == if total_count(styled_views(v@), v@.len()) <= 0x1_0000_0000 {
            total_count(styled_views(v@), v@.len())
        } else {
            0x1_0000_0000
        },
    decreases v,
{
    let ghost ch = styled_views(v@);
    let mut total: u64 = 0;
    let mut k: usize = 0;
    while k < v.len()
        invariant
            k <= v@.len(),
            ch == styled_views(v@),
            total == if total_count(ch, k as nat) <= 0x1_0000_0000 {
                total_count(ch, k as nat)
            } else {
                0x1_0000_0000
            },
        decreases v@.len() - k,
    {
        proof {
            assert(ch[k as int] == styled_view(v@[k as int]));
            assert(total_count(ch, (k + 1) as nat) == total_count(ch, k as nat) + node_count(
                ch[k as int],
            ));
        }
        let inner: u64 = match &v[k] {
            StyledNode::Text(_) => 0,
            StyledNode::Element(e) => {
                proof {
                    lemma_element_children(*e);
                    assert(node_count(ch[k as int]) == element_count(element_view(*e)));
                }
                count_nodes(&e.children)
            },
        };
        total = total + inner + 1;
        if total > 0x1_0000_0000 {
            total = 0x1_0000_0000;
        }
        k += 1;
    }
    total
}

/// Whether a flow is small enough for its boxes to be numbered: three ids a node
/// and one more stay within 32 bits.
pub fn fits_ids(styled: &Vec<StyledNode>) -> (r: bool)
    ensures
        r == (3 * total_count(styled_views(styled@), styled@.len()) + 1 <= u32::MAX),
        r ==> gen_tree(styled_views(styled@)).1 <= u32::MAX,
{
    proof {
        law_ids_bounded(styled_views(styled@));
    }
    count_nodes(styled) * 3 + 1 <= 0xffff_ffff
}

// --------------------------------------------------------------------------
// ids are distinct
// --------------------------------------------------------------------------

/// The ids of a box and everything in it.
pub open spec fn box_ids(b: BoxV) -> Multiset<int>
    decreases b, 1int, 0nat,
{
    Multiset::singleton(b.id).add(kind_ids(b.kind))
}

pub open spec fn kind_ids(k: KindV) -> Multiset<int>
    decreases k, 1int, 0nat,
{
    match k {
        KindV::Block(v) => boxes_ids(v, v.len()),
        KindV::Lines(v) => items_ids(v, v.len()),
        KindV::Flex(v) => boxes_ids(v, v.len()),
        KindV::Grid(v) => boxes_ids(v, v.len()),
        KindV::Table(v) => boxes_ids(v, v.len()),
        KindV::Directive(_) => Multiset::empty(),
    }
}

pub open spec fn boxes_ids(v: Seq<BoxV>, k: nat) -> Multiset<int>
    decreases v, 0int, k,
{
    if k == 0 || k > v.len() {
        Multiset::empty()
    } else {
        boxes_ids(v, (k - 1) as nat).add(box_ids(v[k - 1]))
    }
}

pub open spec fn items_ids(v: Seq<ItemV>, k: nat) -> Multiset<int>
    decreases v, 0int, k,
{
    if k == 0 || k > v.len() {
        Multiset::empty()
    } else {
        items_ids(v, (k - 1) as nat).add(item_ids(v[k - 1]))
    }
}

pub open spec fn item_ids(i: ItemV) -> Multiset<int>
    decreases i, 1int, 0nat,
{
    match i {
        ItemV::Text { id, style, text } => Multiset::singleton(id),
        ItemV::Atomic(b) => box_ids(b),
        ItemV::LineBreak => Multiset::empty(),
        ItemV::Directive { id, kind } => Multiset::singleton(id),
    }
}

/// Every id occurs at most once, and only those from `lo` up to `hi` do.
pub open spec fn distinct_within(m: Multiset<int>, lo: int, hi: int) -> bool {
    forall|i: int| #[trigger] m.count(i) <= (if lo <= i < hi {
        1nat
    } else {
        0nat
    })
}

proof fn lemma_join(a: Multiset<int>, b: Multiset<int>, lo: int, mid: int, hi: int)
    requires
        distinct_within(a, lo, mid),
        distinct_within(b, mid, hi),
        lo <= mid <= hi,
    ensures
        distinct_within(a.add(b), lo, hi),
{
    assert forall|i: int| #[trigger] a.add(b).count(i) <= (if lo <= i < hi {
        1nat
    } else {
        0nat
    }) by {
        assert(a.add(b).count(i) == a.count(i) + b.count(i));
        assert(a.count(i) <= (if lo <= i < mid {
            1nat
        } else {
            0nat
        }));
        assert(b.count(i) <= (if mid <= i < hi {
            1nat
        } else {
            0nat
        }));
    }
}

proof fn lemma_prefix_boxes(v: Seq<BoxV>, x: BoxV, k: nat)
    requires
        k <= v.len(),
    ensures
        boxes_ids(v.push(x), k) == boxes_ids(v, k),
    decreases k,
{
    if k > 0 {
        lemma_prefix_boxes(v, x, (k - 1) as nat);
        assert(v.push(x)[k - 1] == v[k - 1]);
    }
}

proof fn lemma_push_boxes(v: Seq<BoxV>, x: BoxV)
    ensures
        boxes_ids(v.push(x), v.push(x).len()) == boxes_ids(v, v.len()).add(box_ids(x)),
{
    lemma_prefix_boxes(v, x, v.len());
    assert(v.push(x)[v.len() as int] == x);
}

proof fn lemma_prefix_items(a: Seq<ItemV>, b: Seq<ItemV>, k: nat)
    requires
        k <= b.len(),
    ensures
        items_ids(a + b, a.len() + k) == items_ids(a, a.len()).add(items_ids(b, k)),
    decreases k,
{
    if k > 0 {
        lemma_prefix_items(a, b, (k - 1) as nat);
        assert((a + b)[a.len() + k - 1] == b[k - 1]);
        let n = (a.len() + k) as nat;
        assert(items_ids(a + b, n) == items_ids(a + b, (n - 1) as nat).add(item_ids(b[k - 1])));
        assert(items_ids(a, a.len()).add(items_ids(b, (k - 1) as nat)).add(item_ids(b[k - 1]))
            =~= items_ids(a, a.len()).add(items_ids(b, k)));
    } else {
        lemma_only_prefix(a, b, a.len());
        assert(items_ids(a, a.len()).add(Multiset::empty()) =~= items_ids(a, a.len()));
    }
}

proof fn lemma_only_prefix(a: Seq<ItemV>, b: Seq<ItemV>, k: nat)
    requires
        k <= a.len(),
    ensures
        items_ids(a + b, k) == items_ids(a, k),
    decreases k,
{
    if k > 0 {
        lemma_only_prefix(a, b, (k - 1) as nat);
        assert((a + b)[k - 1] == a[k - 1]);
    }
}

proof fn lemma_concat_items(a: Seq<ItemV>, b: Seq<ItemV>)
    ensures
        items_ids(a + b, (a + b).len()) == items_ids(a, a.len()).add(items_ids(b, b.len())),
{
    lemma_prefix_items(a, b, b.len());
}

proof fn lemma_one_item(x: ItemV)
    ensures
        items_ids(seq![x], 1) == item_ids(x),
{
    assert(items_ids(seq![x], 0) == Multiset::<int>::empty());
    assert(Multiset::<int>::empty().add(item_ids(x)) =~= item_ids(x));
}

pub open spec fn level_ids(l: LevelV) -> Multiset<int> {
    match l {
        LevelV::Block(b) => box_ids(b),
        LevelV::Inline(v) => items_ids(v, v.len()),
    }
}

pub open spec fn levels_ids(l: Seq<LevelV>, k: nat) -> Multiset<int>
    decreases k,
{
    if k == 0 || k > l.len() {
        Multiset::empty()
    } else {
        levels_ids(l, (k - 1) as nat).add(level_ids(l[k - 1]))
    }
}

proof fn lemma_prefix_levels(l: Seq<LevelV>, x: LevelV, k: nat)
    requires
        k <= l.len(),
    ensures
        levels_ids(l.push(x), k) == levels_ids(l, k),
    decreases k,
{
    if k > 0 {
        lemma_prefix_levels(l, x, (k - 1) as nat);
        assert(l.push(x)[k - 1] == l[k - 1]);
    }
}

/// Inlining loses and adds no id.
proof fn lemma_inlined_ids(l: Seq<LevelV>)
    ensures
        items_ids(inlined(l), inlined(l).len()) == levels_ids(l, l.len()),
    decreases l.len(),
{
    if l.len() > 0 {
        let t = l.drop_last();
        lemma_inlined_ids(t);
        assert(t.push(l.last()) =~= l);
        lemma_prefix_levels(t, l.last(), t.len());
        match l.last() {
            LevelV::Inline(items) => {
                lemma_concat_items(inlined(t), items);
            },
            LevelV::Block(b) => {
                let x = ItemV::Atomic(b);
                assert(inlined(t).push(x) =~= inlined(t) + seq![x]);
                lemma_concat_items(inlined(t), seq![x]);
                lemma_one_item(x);
            },
        }
    }
}

/// Ids of the wrapped boxes and of the open run are those of the levels, but for
/// the ids of the anonymous blocks.
proof fn lemma_wrap_ids(l: Seq<LevelV>, parent: StyleMap, lo: int, next: int, k: nat)
    requires
        distinct_within(levels_ids(l, k), lo, next),
        lo <= next,
        k <= l.len(),
    ensures
        ({
            let w = wrap_fold(l, parent, next, k);
            &&& w.next >= next
            &&& forall|i: int| #[trigger]
                boxes_ids(w.out, w.out.len()).add(items_ids(w.run, w.run.len())).count(i) <= (
                if lo <= i < next {
                    levels_ids(l, k).count(i)
                } else if next <= i < w.next {
                    1nat
                } else {
                    0nat
                })
        }),
    decreases k,
{
    if k > 0 {
        let p = (k - 1) as nat;
        let below = levels_ids(l, p);
        let here = level_ids(l[k - 1]);
        assert(levels_ids(l, k) == below.add(here));
        assert forall|i: int| #[trigger] below.count(i) <= (if lo <= i < next {
            1nat
        } else {
            0nat
        }) by {
            assert(levels_ids(l, k).count(i) == below.count(i) + here.count(i));
        }
        lemma_wrap_ids(l, parent, lo, next, p);
        let w = wrap_fold(l, parent, next, p);
        let u = wrap_fold(l, parent, next, k);
        let old_ids = boxes_ids(w.out, w.out.len()).add(items_ids(w.run, w.run.len()));
        match l[k - 1] {
            LevelV::Inline(items) => {
                lemma_concat_items(w.run, items);
            },
            LevelV::Block(b) => {
                let f = flushed(w, parent);
                lemma_flush_ids(w, parent);
                lemma_push_boxes(f.out, b);
                assert(items_ids(u.run, u.run.len()) == Multiset::<int>::empty());
            },
        }
        assert forall|i: int| #[trigger]
            boxes_ids(u.out, u.out.len()).add(items_ids(u.run, u.run.len())).count(i) <= (if lo
            <= i < next {
            levels_ids(l, k).count(i)
        } else if next <= i < u.next {
            1nat
        } else {
            0nat
        }) by {
            assert(levels_ids(l, k).count(i) == below.count(i) + here.count(i));
            assert(levels_ids(l, k).count(i) <= (if lo <= i < next {
                1nat
            } else {
                0nat
            }));
            assert(old_ids.count(i) <= (if lo <= i < next {
                below.count(i)
            } else if next <= i < w.next {
                1nat
            } else {
                0nat
            }));
            assert(old_ids.count(i) == boxes_ids(w.out, w.out.len()).count(i) + items_ids(
                w.run,
                w.run.len(),
            ).count(i));
        }
    } else {
        assert(boxes_ids(Seq::<BoxV>::empty(), 0).add(items_ids(Seq::<ItemV>::empty(), 0))
            =~= Multiset::empty());
    }
}

/// Closing a run keeps its ids or drops them, and may take one more id.
proof fn lemma_flush_ids(w: Wrap, parent: StyleMap)
    ensures
        ({
            let f = flushed(w, parent);
            &&& f.next == w.next || f.next == w.next + 1
            &&& f.run == Seq::<ItemV>::empty()
            &&& forall|i: int| #[trigger]
                boxes_ids(f.out, f.out.len()).count(i) <= boxes_ids(w.out, w.out.len()).count(i)
                    + items_ids(w.run, w.run.len()).count(i) + (if w.next <= i < f.next {
                    1nat
                } else {
                    0nat
                })
        }),
{
    if !is_blank_run(w.run) {
        let a = anonymous(w.run, parent, w.next);
        lemma_push_boxes(w.out, a);
        assert(kind_ids(a.kind) == items_ids(w.run, w.run.len()));
    }
}

proof fn lemma_flow_ids(l: Seq<LevelV>, parent: StyleMap, lo: int, next: int)
    requires
        distinct_within(levels_ids(l, l.len()), lo, next),
        lo <= next,
    ensures
        distinct_within(kind_ids(flow_kind(l, parent, next).0), lo, flow_kind(l, parent, next).1),
        flow_kind(l, parent, next).1 >= next,
{
    if has_block(l) {
        lemma_wrap_ids(l, parent, lo, next, l.len());
        let w = wrap_fold(l, parent, next, l.len());
        let f = flushed(w, parent);
        lemma_flush_ids(w, parent);
        let old_ids = boxes_ids(w.out, w.out.len()).add(items_ids(w.run, w.run.len()));
        assert forall|i: int| #[trigger] boxes_ids(f.out, f.out.len()).count(i) <= (if lo <= i
            < f.next {
            1nat
        } else {
            0nat
        }) by {
            assert(old_ids.count(i) <= (if lo <= i < next {
                levels_ids(l, l.len()).count(i)
            } else if next <= i < w.next {
                1nat
            } else {
                0nat
            }));
            assert(old_ids.count(i) == boxes_ids(w.out, w.out.len()).count(i) + items_ids(
                w.run,
                w.run.len(),
            ).count(i));
            assert(levels_ids(l, l.len()).count(i) <= (if lo <= i < next {
                1nat
            } else {
                0nat
            }));
        }
    } else {
        lemma_inlined_ids(l);
    }
}

proof fn lemma_ids_box(e: ElementV, next: int)
    ensures
        distinct_within(box_ids(gen_box(e, next).0), next, gen_box(e, next).1),
        gen_box(e, next).1 >= next + 1,
    decreases e, 2int, 0nat,
{
    let (b, n) = gen_box(e, next);
    assert(distinct_within(Multiset::singleton(next), next, next + 1));
    if e.tag is Html {
        lemma_ids_kind(e, next + 1);
        lemma_join(Multiset::singleton(next), kind_ids(b.kind), next, next + 1, n);
    } else {
        lemma_join(Multiset::singleton(next), Multiset::empty(), next, next + 1, next + 1);
    }
}

proof fn lemma_ids_kind(e: ElementV, next: int)
    ensures
        distinct_within(kind_ids(gen_kind(e, next).0), next, gen_kind(e, next).1),
        gen_kind(e, next).1 >= next,
    decreases e, 1int, 0nat,
{
    match button_label(e) {
        Some(label) => {
            lemma_one_item(ItemV::Text { id: next, style: e.style, text: label });
        },
        None => {
            let n = e.children.len();
            lemma_ids_kids(e.children, next, n);
            lemma_ids_levels(e.children, e.style, next, n);
            let (levels, m) = gen_levels(e.children, e.style, next, n);
            lemma_flow_ids(levels, e.style, next, m);
        },
    }
}

proof fn lemma_ids_kids(ch: Seq<StyledV>, next: int, k: nat)
    requires
        k <= ch.len(),
    ensures
        ({
            let (v, n) = gen_kids(ch, next, k);
            distinct_within(boxes_ids(v, v.len()), next, n) && n >= next
        }),
    decreases ch, 0int, k,
{
    if k > 0 {
        lemma_ids_kids(ch, next, (k - 1) as nat);
        let (v, n) = gen_kids(ch, next, (k - 1) as nat);
        if let StyledV::Element(e) = ch[k - 1] {
            lemma_ids_box(e, n);
            let (b, m) = gen_box(e, n);
            lemma_push_boxes(v, b);
            lemma_join(boxes_ids(v, v.len()), box_ids(b), next, n, m);
        }
    }
}

proof fn lemma_ids_levels(ch: Seq<StyledV>, parent: StyleMap, next: int, k: nat)
    requires
        k <= ch.len(),
    ensures
        ({
            let (v, n) = gen_levels(ch, parent, next, k);
            distinct_within(levels_ids(v, v.len()), next, n) && n >= next
        }),
    decreases ch, 0int, k,
{
    if k > 0 {
        lemma_ids_levels(ch, parent, next, (k - 1) as nat);
        let (v, n) = gen_levels(ch, parent, next, (k - 1) as nat);
        lemma_ids_level(ch[k - 1], parent, n);
        let (l, m) = gen_level(ch[k - 1], parent, n);
        match l {
            Some(l) => {
                lemma_prefix_levels(v, l, v.len());
                lemma_join(levels_ids(v, v.len()), level_ids(l), next, n, m);
            },
            None => {
                lemma_join(levels_ids(v, v.len()), Multiset::empty(), next, n, m);
                assert(levels_ids(v, v.len()).add(Multiset::empty()) =~= levels_ids(v, v.len()));
            },
        }
    }
}

proof fn lemma_ids_level(n: StyledV, parent: StyleMap, next: int)
    ensures
        ({
            let (l, m) = gen_level(n, parent, next);
            m >= next && (l matches Some(l) ==> distinct_within(level_ids(l), next, m))
        }),
    decreases n, 4int, 0nat,
{
    match n {
        StyledV::Text(t) => {
            lemma_one_item(ItemV::Text { id: next, style: parent, text: t });
        },
        StyledV::Element(e) => {
            lemma_ids_element(e, next);
        },
    }
}

proof fn lemma_ids_element(e: ElementV, next: int)
    ensures
        ({
            let (l, m) = gen_element(e, next);
            m >= next && (l matches Some(l) ==> distinct_within(level_ids(l), next, m))
        }),
    decreases e, 3int, 0nat,
{
    lemma_ids_box(e, next);
    lemma_ids_levels(e.children, e.style, next, e.children.len());
    let (levels, n) = gen_levels(e.children, e.style, next, e.children.len());
    lemma_inlined_ids(levels);
    lemma_one_item(ItemV::Atomic(gen_box(e, next).0));
    lemma_one_item(ItemV::LineBreak);
    if let TagV::Directive(k) = e.tag {
        lemma_one_item(ItemV::Directive { id: next, kind: k });
    }
}

/// No two boxes or items of a generated tree have the same id, so that each leads
/// back to one node.
pub proof fn law_ids_distinct(nodes: Seq<StyledV>)
    ensures
        distinct_within(box_ids(gen_tree(nodes).0), 0, gen_tree(nodes).1),
{
    let style = Map::<Seq<char>, Seq<char>>::empty();
    lemma_ids_levels(nodes, style, 1, nodes.len());
    let (levels, n) = gen_levels(nodes, style, 1, nodes.len());
    lemma_flow_ids(levels, style, 1, n);
    let (kind, m) = flow_kind(levels, style, n);
    assert(distinct_within(Multiset::singleton(0int), 0, 1));
    lemma_join(Multiset::singleton(0int), kind_ids(kind), 0, 1, m);
}

// --------------------------------------------------------------------------
// hidden elements
// --------------------------------------------------------------------------

proof fn lemma_same_prefix(
    a: Seq<StyledV>,
    b: Seq<StyledV>,
    parent: StyleMap,
    next: int,
    k: nat,
)
    requires
        k <= a.len(),
        k <= b.len(),
        forall|i: int| 0 <= i < k ==> #[trigger] a[i] == b[i],
    ensures
        gen_levels(a, parent, next, k) == gen_levels(b, parent, next, k),
    decreases k,
{
    if k > 0 {
        lemma_same_prefix(a, b, parent, next, (k - 1) as nat);
        assert(a[k - 1] == b[k - 1]);
    }
}

proof fn lemma_hidden_level(e: ElementV, parent: StyleMap, n: int)
    requires
        e.tag is Html,
        hidden(e.style),
    ensures
        gen_level(StyledV::Element(e), parent, n) == (None::<LevelV>, n),
{
    assert(gen_element(e, n) == (None::<LevelV>, n));
}

proof fn lemma_hidden(
    a: Seq<StyledV>,
    e: ElementV,
    b: Seq<StyledV>,
    parent: StyleMap,
    next: int,
    j: nat,
)
    requires
        e.tag is Html,
        hidden(e.style),
        j <= b.len(),
    ensures
        gen_levels(a + seq![StyledV::Element(e)] + b, parent, next, a.len() + 1 + j) == gen_levels(
            a + b,
            parent,
            next,
            a.len() + j,
        ),
    decreases j,
{
    let with = a + seq![StyledV::Element(e)] + b;
    let without = a + b;
    if j == 0 {
        assert forall|i: int| 0 <= i < a.len() implies #[trigger] with[i] == without[i] by {}
        lemma_same_prefix(with, without, parent, next, a.len());
        assert(with[a.len() as int] == StyledV::Element(e));
        let n = gen_levels(with, parent, next, a.len()).1;
        lemma_hidden_level(e, parent, n);
        let k: nat = a.len() + 1;
        assert(gen_levels(with, parent, next, k) == gen_levels(with, parent, next, (k - 1) as nat));
    } else {
        lemma_hidden(a, e, b, parent, next, (j - 1) as nat);
        let k: nat = a.len() + 1 + j;
        let l: nat = a.len() + j;
        assert(gen_levels(with, parent, next, (k - 1) as nat) == gen_levels(
            without,
            parent,
            next,
            (l - 1) as nat,
        ));
        assert(with[(a.len() + j) as int] == b[j - 1]);
        assert(without[(a.len() + j - 1) as int] == b[j - 1]);
    }
}

/// A hidden element generates nothing: the box tree is as if it were not there.
pub proof fn law_hidden_generates_nothing(a: Seq<StyledV>, e: ElementV, b: Seq<StyledV>)
    requires
        e.tag is Html,
        hidden(e.style),
    ensures
        gen_tree(a + seq![StyledV::Element(e)] + b) == gen_tree(a + b),
{
    let style = Map::<Seq<char>, Seq<char>>::empty();
    lemma_hidden(a, e, b, style, 1, b.len());
    assert((a + seq![StyledV::Element(e)] + b).len() == a.len() + 1 + b.len());
}

/// The first `k` trees without the hidden elements in them, at any depth.
pub open spec fn shown(v: Seq<StyledV>, k: nat) -> Seq<StyledV>
    decreases v, k,
{
    if k == 0 || k > v.len() {
        Seq::empty()
    } else {
        let before = shown(v, (k - 1) as nat);
        match v[k - 1] {
            StyledV::Text(_) => before.push(v[k - 1]),
            StyledV::Element(e) => if e.tag is Html && hidden(e.style) {
                before
            } else {
                before.push(
                    StyledV::Element(
                        ElementV { children: shown(e.children, e.children.len()), ..e },
                    ),
                )
            },
        }
    }
}

/// An element without the hidden elements in it.
pub open spec fn shown_element(e: ElementV) -> ElementV {
    ElementV { children: shown(e.children, e.children.len()), ..e }
}

proof fn lemma_same_kids(a: Seq<StyledV>, b: Seq<StyledV>, next: int, k: nat)
    requires
        k <= a.len(),
        k <= b.len(),
        forall|i: int| 0 <= i < k ==> #[trigger] a[i] == b[i],
    ensures
        gen_kids(a, next, k) == gen_kids(b, next, k),
    decreases k,
{
    if k > 0 {
        lemma_same_kids(a, b, next, (k - 1) as nat);
        assert(a[k - 1] == b[k - 1]);
    }
}

proof fn lemma_shown_box(e: ElementV, next: int)
    ensures
        gen_box(shown_element(e), next) == gen_box(e, next),
    decreases e, 2int, 0nat,
{
    if e.tag is Html {
        lemma_shown_kind(e, next + 1);
    }
}

proof fn lemma_shown_kind(e: ElementV, next: int)
    ensures
        gen_kind(shown_element(e), next) == gen_kind(e, next),
    decreases e, 1int, 0nat,
{
    assert(button_label(shown_element(e)) == button_label(e));
    lemma_shown_kids(e.children, next, e.children.len());
    lemma_shown_levels(e.children, e.style, next, e.children.len());
}

proof fn lemma_shown_kids(v: Seq<StyledV>, next: int, k: nat)
    requires
        k <= v.len(),
    ensures
        gen_kids(shown(v, k), next, shown(v, k).len()) == gen_kids(v, next, k),
    decreases v, 0int, k,
{
    if k > 0 {
        lemma_shown_kids(v, next, (k - 1) as nat);
        let before = shown(v, (k - 1) as nat);
        let now = shown(v, k);
        if now.len() > before.len() {
            lemma_same_kids(now, before, next, before.len());
            let n = gen_kids(v, next, (k - 1) as nat).1;
            if let StyledV::Element(e) = v[k - 1] {
                lemma_shown_box(e, n);
                assert(now.last() == StyledV::Element(shown_element(e)));
            }
        }
    }
}

proof fn lemma_shown_levels(v: Seq<StyledV>, parent: StyleMap, next: int, k: nat)
    requires
        k <= v.len(),
    ensures
        gen_levels(shown(v, k), parent, next, shown(v, k).len()) == gen_levels(v, parent, next, k),
    decreases v, 0int, k,
{
    if k > 0 {
        lemma_shown_levels(v, parent, next, (k - 1) as nat);
        let before = shown(v, (k - 1) as nat);
        let now = shown(v, k);
        let n = gen_levels(v, parent, next, (k - 1) as nat).1;
        if let StyledV::Element(e) = v[k - 1] {
            if e.tag is Html && hidden(e.style) {
                lemma_hidden_level(e, parent, n);
                assert(now == before);
                assert(gen_level(v[k - 1], parent, n) == (None::<LevelV>, n));
            } else {
                lemma_same_prefix(now, before, parent, next, before.len());
                lemma_shown_level(e, n);
                let x = StyledV::Element(shown_element(e));
                assert(now == before.push(x));
                assert(now[now.len() - 1] == x);
                assert(gen_level(x, parent, n) == gen_level(v[k - 1], parent, n));
            }
        } else {
            lemma_same_prefix(now, before, parent, next, before.len());
            assert(now == before.push(v[k - 1]));
            assert(now[now.len() - 1] == v[k - 1]);
        }
    }
}

proof fn lemma_shown_level(e: ElementV, next: int)
    ensures
        gen_element(shown_element(e), next) == gen_element(e, next),
    decreases e, 3int, 0nat,
{
    lemma_shown_box(e, next);
    lemma_shown_levels(e.children, e.style, next, e.children.len());
}

/// Hidden elements generate nothing at any depth: the box tree is as if none of them
/// were there.
pub proof fn law_hidden_generates_nothing_anywhere(nodes: Seq<StyledV>)
    ensures
        gen_tree(nodes) == gen_tree(shown(nodes, nodes.len())),
{
    let style = Map::<Seq<char>, Seq<char>>::empty();
    lemma_shown_levels(nodes, style, 1, nodes.len());
}

} // verus!
