//! Building the box tree of a styled flow.
//!
//! Every box and every inline item but a line break takes a fresh id. A box takes
//! its id before its descendants; an anonymous block takes its own once all the
//! content of its container has been classified.

use vstd::prelude::*;

use crate::layout::boxgen::{
    box_view, boxes_view, button_label, hidden, image_in, image_of, inline_directive,
    input_button_text, is_br, is_directive, is_hidden, is_inline_directive, is_tag, item_view,
    items_view, kind_view, lemma_kind_children, mask_image, mask_url, BoxKind, BoxV, InlineItem,
    ItemV, KindV, LayoutBox,
};
use crate::layout::fragment::NodeId;
use crate::layout::value::{display_in, display_of, Display};
use crate::node::{attrs_view, clone_attrs, Attr, TKind, Tag, TagV};
use crate::scan::{trim, trimmed};
use crate::style::{
    lemma_element_children, styled_view, styled_views, ComputedStyle, ElementV, StyleMap,
    StyledElement, StyledNode, StyledV,
};

verus! {

/// A block-level box or a run of inline items, before anonymous wrapping.
pub enum Level {
    Block(LayoutBox),
    Inline(Vec<InlineItem>),
}

/// The mathematical reading of a [`Level`].
pub enum LevelV {
    Block(BoxV),
    Inline(Seq<ItemV>),
}

impl View for Level {
    type V = LevelV;

    open spec fn view(&self) -> LevelV {
        match *self {
            Level::Block(b) => LevelV::Block(box_view(b)),
            Level::Inline(v) => LevelV::Inline(items_view(v@)),
        }
    }
}

pub open spec fn levels_view(v: Seq<Level>) -> Seq<LevelV> {
    v.map_values(|l: Level| l@)
}

// --------------------------------------------------------------------------
// the generated tree
// --------------------------------------------------------------------------

/// What is generated for an element as a block box, and the next free id.
pub open spec fn gen_box(e: ElementV, next: int) -> (BoxV, int)
    decreases e, 2int, 0int,
{
    match e.tag {
        TagV::Directive(k) => (
            BoxV {
                id: next,
                style: e.style,
                attrs: e.attrs,
                display: Display::Block,
                kind: KindV::Directive(k),
                image: None,
                mask: None,
            },
            next + 1,
        ),
        TagV::Html(_) => {
            let (kind, n) = gen_kind(e, next + 1);
            (
                BoxV {
                    id: next,
                    style: e.style,
                    attrs: e.attrs,
                    display: display_in(e.style),
                    kind,
                    image: image_in(e),
                    mask: mask_url(e.style),
                },
                n,
            )
        },
    }
}

/// The contents of an element's box.
pub open spec fn gen_kind(e: ElementV, next: int) -> (KindV, int)
    decreases e, 1int, 0int,
{
    match button_label(e) {
        Some(label) => (
            KindV::Lines(seq![ItemV::Text { id: next, style: e.style, text: label }]),
            next + 1,
        ),
        None => {
            let d = display_in(e.style);
            if d == Display::Flex || d == Display::Grid || d == Display::Table {
                let (kids, n) = gen_kids(e.children, next, e.children.len());
                if d == Display::Flex {
                    (KindV::Flex(kids), n)
                } else if d == Display::Grid {
                    (KindV::Grid(kids), n)
                } else {
                    (KindV::Table(kids), n)
                }
            } else {
                let (levels, n) = gen_levels(e.children, e.style, next, e.children.len());
                flow_kind(levels, e.style, n)
            }
        },
    }
}

/// The first `k` children as block-level boxes; text and hidden elements are
/// left out.
pub open spec fn gen_kids(ch: Seq<StyledV>, next: int, k: nat) -> (Seq<BoxV>, int)
    decreases ch, 0int, k,
{
    if k == 0 || k > ch.len() {
        (Seq::empty(), next)
    } else {
        let (kids, n) = gen_kids(ch, next, (k - 1) as nat);
        match ch[k - 1] {
            StyledV::Text(_) => (kids, n),
            StyledV::Element(e) => if !(e.tag is Directive) && hidden(e.style) {
                (kids, n)
            } else {
                let (b, m) = gen_box(e, n);
                (kids.push(b), m)
            },
        }
    }
}

/// The levels of the first `k` children.
pub open spec fn gen_levels(ch: Seq<StyledV>, parent: StyleMap, next: int, k: nat) -> (
    Seq<LevelV>,
    int,
)
    decreases ch, 0int, k,
{
    if k == 0 || k > ch.len() {
        (Seq::empty(), next)
    } else {
        let (levels, n) = gen_levels(ch, parent, next, (k - 1) as nat);
        let (l, m) = gen_level(ch[k - 1], parent, n);
        match l {
            Some(l) => (levels.push(l), m),
            None => (levels, m),
        }
    }
}

/// The level of one node; a hidden element has none.
pub open spec fn gen_level(n: StyledV, parent: StyleMap, next: int) -> (Option<LevelV>, int)
    decreases n, 4int, 0int,
{
    match n {
        StyledV::Text(t) => (
            Some(LevelV::Inline(seq![ItemV::Text { id: next, style: parent, text: t }])),
            next + 1,
        ),
        StyledV::Element(e) => gen_element(e, next),
    }
}

/// The level of an element.
pub open spec fn gen_element(e: ElementV, next: int) -> (Option<LevelV>, int)
    decreases e, 3int, 0int,
{
    match e.tag {
        TagV::Directive(k) => if is_inline_directive(k) {
            (Some(LevelV::Inline(seq![ItemV::Directive { id: next, kind: k }])), next + 1)
        } else {
            let (b, n) = gen_box(e, next);
            (Some(LevelV::Block(b)), n)
        },
        TagV::Html(_) => if hidden(e.style) {
            (None, next)
        } else if is_tag(e, "br"@) {
            (Some(LevelV::Inline(seq![ItemV::LineBreak])), next)
        } else if display_in(e.style) == Display::Inline {
            let (levels, n) = gen_levels(e.children, e.style, next, e.children.len());
            (Some(LevelV::Inline(inlined(levels))), n)
        } else {
            let (b, n) = gen_box(e, next);
            if display_in(e.style) == Display::InlineBlock {
                (Some(LevelV::Inline(seq![ItemV::Atomic(b)])), n)
            } else {
                (Some(LevelV::Block(b)), n)
            }
        },
    }
}

/// The levels as inline items; a block becomes an atomic inline.
pub open spec fn inlined(l: Seq<LevelV>) -> Seq<ItemV>
    decreases l.len(),
{
    if l.len() == 0 {
        Seq::empty()
    } else {
        match l.last() {
            LevelV::Inline(items) => inlined(l.drop_last()) + items,
            LevelV::Block(b) => inlined(l.drop_last()).push(ItemV::Atomic(b)),
        }
    }
}

/// Whether an item is text of spaces only.
pub open spec fn is_blank(i: ItemV) -> bool {
    i matches ItemV::Text { id, style, text } && trimmed(text).len() == 0
}

/// Whether a run paints nothing.
pub open spec fn is_blank_run(r: Seq<ItemV>) -> bool {
    forall|i: int| 0 <= i < r.len() ==> is_blank(#[trigger] r[i])
}

/// The anonymous block around a run of inline items.
pub open spec fn anonymous(run: Seq<ItemV>, parent: StyleMap, id: int) -> BoxV {
    BoxV {
        id,
        style: parent,
        attrs: Seq::empty(),
        display: Display::Block,
        kind: KindV::Lines(run),
        image: None,
        mask: None,
    }
}

/// Wrapping in progress: the boxes so far, the open run, and the next free id.
pub struct Wrap {
    pub out: Seq<BoxV>,
    pub run: Seq<ItemV>,
    pub next: int,
}

/// Close the open run: a blank one is dropped, another becomes an anonymous
/// block.
pub open spec fn flushed(w: Wrap, parent: StyleMap) -> Wrap {
    if is_blank_run(w.run) {
        Wrap { out: w.out, run: Seq::empty(), next: w.next }
    } else {
        Wrap {
            out: w.out.push(anonymous(w.run, parent, w.next)),
            run: Seq::empty(),
            next: w.next + 1,
        }
    }
}

/// The wrapping of the first `k` levels.
pub open spec fn wrap_fold(l: Seq<LevelV>, parent: StyleMap, next: int, k: nat) -> Wrap
    decreases k,
{
    if k == 0 {
        Wrap { out: Seq::empty(), run: Seq::empty(), next }
    } else {
        let w = wrap_fold(l, parent, next, (k - 1) as nat);
        match l[k - 1] {
            LevelV::Inline(items) => Wrap { run: w.run + items, ..w },
            LevelV::Block(b) => {
                let f = flushed(w, parent);
                Wrap { out: f.out.push(b), ..f }
            },
        }
    }
}

/// The levels with each inline run wrapped in an anonymous block.
pub open spec fn wrapped(l: Seq<LevelV>, parent: StyleMap, next: int) -> Wrap {
    flushed(wrap_fold(l, parent, next, l.len()), parent)
}

pub open spec fn has_block(l: Seq<LevelV>) -> bool {
    exists|i: int| 0 <= i < l.len() && (#[trigger] l[i]) is Block
}

/// The formatting context of a flow: a block context where any level is
/// block-level, else an inline one.
pub open spec fn flow_kind(l: Seq<LevelV>, parent: StyleMap, next: int) -> (KindV, int) {
    if has_block(l) {
        let w = wrapped(l, parent, next);
        (KindV::Block(w.out), w.next)
    } else {
        (KindV::Lines(inlined(l)), next)
    }
}

/// The box tree of a document flow: an anonymous root of id zero.
pub open spec fn gen_tree(nodes: Seq<StyledV>) -> (BoxV, int) {
    let style = Map::<Seq<char>, Seq<char>>::empty();
    let (levels, n) = gen_levels(nodes, style, 1, nodes.len());
    let (kind, m) = flow_kind(levels, style, n);
    (
        BoxV {
            id: 0,
            style,
            attrs: Seq::empty(),
            display: Display::Block,
            kind,
            image: None,
            mask: None,
        },
        m,
    )
}

// --------------------------------------------------------------------------
// ids only grow
// --------------------------------------------------------------------------

proof fn lemma_grow_box(e: ElementV, next: int)
    ensures
        gen_box(e, next).1 >= next + 1,
    decreases e, 2int, 0int,
{
    if e.tag is Html {
        lemma_grow_kind(e, next + 1);
    }
}

proof fn lemma_grow_kind(e: ElementV, next: int)
    ensures
        gen_kind(e, next).1 >= next,
    decreases e, 1int, 0int,
{
    if button_label(e) is None {
        let d = display_in(e.style);
        if d == Display::Flex || d == Display::Grid || d == Display::Table {
            lemma_grow_kids(e.children, next, e.children.len());
        } else {
            lemma_grow_levels(e.children, e.style, next, e.children.len());
            let (levels, n) = gen_levels(e.children, e.style, next, e.children.len());
            lemma_grow_flow(levels, e.style, n);
        }
    }
}

proof fn lemma_grow_kids(ch: Seq<StyledV>, next: int, k: nat)
    ensures
        gen_kids(ch, next, k).1 >= next,
    decreases ch, 0int, k,
{
    if k > 0 && k <= ch.len() {
        lemma_grow_kids(ch, next, (k - 1) as nat);
        let n = gen_kids(ch, next, (k - 1) as nat).1;
        match ch[k - 1] {
            StyledV::Text(_) => {},
            StyledV::Element(e) => {
                lemma_grow_box(e, n);
            },
        }
    }
}

proof fn lemma_grow_levels(ch: Seq<StyledV>, parent: StyleMap, next: int, k: nat)
    ensures
        gen_levels(ch, parent, next, k).1 >= next,
    decreases ch, 0int, k,
{
    if k > 0 && k <= ch.len() {
        lemma_grow_levels(ch, parent, next, (k - 1) as nat);
        lemma_grow_level(ch[k - 1], parent, gen_levels(ch, parent, next, (k - 1) as nat).1);
    }
}

proof fn lemma_grow_level(n: StyledV, parent: StyleMap, next: int)
    ensures
        gen_level(n, parent, next).1 >= next,
    decreases n, 4int, 0int,
{
    if let StyledV::Element(e) = n {
        lemma_grow_element(e, next);
    }
}

proof fn lemma_grow_element(e: ElementV, next: int)
    ensures
        gen_element(e, next).1 >= next,
    decreases e, 3int, 0int,
{
    lemma_grow_box(e, next);
    lemma_grow_levels(e.children, e.style, next, e.children.len());
}

proof fn lemma_grow_wrap(l: Seq<LevelV>, parent: StyleMap, next: int, j: nat, k: nat)
    requires
        j <= k,
    ensures
        wrap_fold(l, parent, next, j).next <= wrap_fold(l, parent, next, k).next,
        next <= wrap_fold(l, parent, next, k).next,
    decreases k,
{
    if k > 0 {
        if j < k {
            lemma_grow_wrap(l, parent, next, j, (k - 1) as nat);
        } else {
            lemma_grow_wrap(l, parent, next, (k - 1) as nat, (k - 1) as nat);
        }
    }
}

proof fn lemma_grow_flow(l: Seq<LevelV>, parent: StyleMap, next: int)
    ensures
        flow_kind(l, parent, next).1 >= next,
{
    lemma_grow_wrap(l, parent, next, 0, l.len());
}

/// The ids after more children are no lower.
proof fn lemma_levels_prefix(ch: Seq<StyledV>, parent: StyleMap, next: int, j: nat, k: nat)
    requires
        j <= k <= ch.len(),
    ensures
        gen_levels(ch, parent, next, j).1 <= gen_levels(ch, parent, next, k).1,
    decreases k,
{
    if j < k {
        lemma_levels_prefix(ch, parent, next, j, (k - 1) as nat);
        lemma_grow_level(ch[k - 1], parent, gen_levels(ch, parent, next, (k - 1) as nat).1);
    }
}

proof fn lemma_kids_prefix(ch: Seq<StyledV>, next: int, j: nat, k: nat)
    requires
        j <= k <= ch.len(),
    ensures
        gen_kids(ch, next, j).1 <= gen_kids(ch, next, k).1,
    decreases k,
{
    if j < k {
        lemma_kids_prefix(ch, next, j, (k - 1) as nat);
        let n = gen_kids(ch, next, (k - 1) as nat).1;
        match ch[k - 1] {
            StyledV::Text(_) => {},
            StyledV::Element(e) => {
                lemma_grow_box(e, n);
            },
        }
    }
}

// --------------------------------------------------------------------------
// generation
// --------------------------------------------------------------------------

/// A source of fresh ids.
pub struct Ids {
    pub next: u32,
}

impl Ids {
    pub fn fresh(&mut self) -> (r: NodeId)
        requires
            old(self).next < u32::MAX,
        ensures
            r == NodeId(old(self).next),
            final(self).next == old(self).next + 1,
    {
        let id = NodeId(self.next);
        self.next = self.next + 1;
        id
    }
}

pub fn text_item(text: &str, style: &ComputedStyle, ids: &mut Ids) -> (r: InlineItem)
    requires
        old(ids).next < u32::MAX,
    ensures
        item_view(r) == (ItemV::Text { id: old(ids).next as int, style: style@, text: text@ }),
        final(ids).next == old(ids).next + 1,
{
    InlineItem::Text { node_id: ids.fresh(), style: style.clone(), text: text.to_owned() }
}

proof fn lemma_items_push(v: Seq<InlineItem>, x: InlineItem)
    ensures
        items_view(v.push(x)) == items_view(v).push(item_view(x)),
{
    assert(items_view(v.push(x)) =~= items_view(v).push(item_view(x)));
}

proof fn lemma_boxes_push(v: Seq<LayoutBox>, x: LayoutBox)
    ensures
        boxes_view(v.push(x)) == boxes_view(v).push(box_view(x)),
{
    assert(boxes_view(v.push(x)) =~= boxes_view(v).push(box_view(x)));
}

fn one_item(x: InlineItem) -> (r: Vec<InlineItem>)
    ensures
        items_view(r@) == seq![item_view(x)],
{
    let mut v: Vec<InlineItem> = Vec::new();
    v.push(x);
    proof {
        assert(items_view(v@) =~= seq![item_view(x)]);
    }
    v
}

pub fn is_blank_text(item: &InlineItem) -> (r: bool)
    ensures
        r == is_blank(item_view(*item)),
{
    match item {
        InlineItem::Text { node_id, style, text } => trim(text.as_str()).is_empty(),
        _ => false,
    }
}

pub fn run_is_blank(run: &Vec<InlineItem>) -> (r: bool)
    ensures
        r == is_blank_run(items_view(run@)),
{
    let ghost v = items_view(run@);
    let mut i: usize = 0;
    while i < run.len()
        invariant
            i <= run@.len(),
            v == items_view(run@),
            forall|j: int| 0 <= j < i ==> is_blank(#[trigger] v[j]),
        decreases run@.len() - i,
    {
        if !is_blank_text(&run[i]) {
            proof {
                assert(!is_blank(v[i as int]));
            }
            return false;
        }
        i += 1;
    }
    true
}

pub fn anon_lines_box(items: Vec<InlineItem>, parent: &ComputedStyle, ids: &mut Ids) -> (r:
    LayoutBox)
    requires
        old(ids).next < u32::MAX,
    ensures
        box_view(r) == anonymous(items_view(items@), parent@, old(ids).next as int),
        final(ids).next == old(ids).next + 1,
{
    let attrs: Vec<Attr> = Vec::new();
    let kind = BoxKind::Lines(items);
    proof {
        lemma_kind_children(kind);
        assert(attrs_view(attrs@) =~= Seq::empty());
    }
    LayoutBox {
        node_id: ids.fresh(),
        style: parent.clone(),
        attrs,
        display: Display::Block,
        kind,
        image: None,
        mask: None,
    }
}

/// Close the open run, taking it.
fn flush_run(run: Vec<InlineItem>, parent: &ComputedStyle, ids: &mut Ids, out: &mut Vec<LayoutBox>)
    requires
        flushed(
            Wrap { out: boxes_view(old(out)@), run: items_view(run@), next: old(ids).next as int },
            parent@,
        ).next <= u32::MAX,
    ensures
        flushed(
            Wrap { out: boxes_view(old(out)@), run: items_view(run@), next: old(ids).next as int },
            parent@,
        ) == (Wrap {
            out: boxes_view(final(out)@),
            run: Seq::empty(),
            next: final(ids).next as int,
        }),
{
    if !run_is_blank(&run) {
        let b = anon_lines_box(run, parent, ids);
        proof {
            lemma_boxes_push(out@, b);
        }
        out.push(b);
    }
}

/// Append `b` to `a`.
fn extend_items(a: &mut Vec<InlineItem>, b: Vec<InlineItem>)
    ensures
        items_view(final(a)@) == items_view(old(a)@) + items_view(b@),
{
    let mut b = b;
    let ghost b0 = b@;
    a.append(&mut b);
    proof {
        assert(items_view(a@) =~= items_view(old(a)@) + items_view(b0));
    }
}

/// Wrap each inline run between block-level boxes in an anonymous block.
pub fn wrap_runs(levels: Vec<Level>, parent: &ComputedStyle, ids: &mut Ids) -> (r: Vec<LayoutBox>)
    requires
        wrapped(levels_view(levels@), parent@, old(ids).next as int).next <= u32::MAX,
    ensures
        wrapped(levels_view(levels@), parent@, old(ids).next as int) == (Wrap {
            out: boxes_view(r@),
            run: Seq::empty(),
            next: final(ids).next as int,
        }),
{
    let ghost lv = levels_view(levels@);
    let ghost start = ids.next as int;
    let ghost n = levels@.len();
    let ghost all = levels@;
    let mut out: Vec<LayoutBox> = Vec::new();
    let mut run: Vec<InlineItem> = Vec::new();
    proof {
        assert(boxes_view(out@) =~= Seq::empty());
        assert(items_view(run@) =~= Seq::empty());
    }
    for level in it: levels
        invariant
            all.len() == n,
            it.seq() == all,
            lv == levels_view(all),
            wrapped(lv, parent@, start).next <= u32::MAX,
            wrap_fold(lv, parent@, start, it.index() as nat) == (Wrap {
                out: boxes_view(out@),
                run: items_view(run@),
                next: ids.next as int,
            }),
    {
        proof {
            let k = it.index();
            lemma_grow_wrap(lv, parent@, start, (k + 1) as nat, n);
            assert(lv[k] == all[k]@);
        }
        match level {
            Level::Inline(items) => {
                extend_items(&mut run, items);
            },
            Level::Block(b) => {
                let taken = run;
                run = Vec::new();
                proof {
                    assert(items_view(run@) =~= Seq::empty());
                }
                flush_run(taken, parent, ids, &mut out);
                proof {
                    lemma_boxes_push(out@, b);
                }
                out.push(b);
            },
        }
    }
    flush_run(run, parent, ids, &mut out);
    out
}

/// The levels as inline items; a block becomes an atomic inline.
pub fn inline_items_of(levels: Vec<Level>) -> (r: Vec<InlineItem>)
    ensures
        items_view(r@) == inlined(levels_view(levels@)),
{
    let ghost all = levels@;
    let ghost lv = levels_view(all);
    let mut out: Vec<InlineItem> = Vec::new();
    proof {
        assert(items_view(out@) =~= Seq::empty());
        assert(lv.take(0) =~= Seq::empty());
    }
    for level in it: levels
        invariant
            it.seq() == all,
            lv == levels_view(all),
            items_view(out@) == inlined(lv.take(it.index())),
    {
        proof {
            let k = it.index();
            let t = lv.take(k + 1);
            assert(t.drop_last() =~= lv.take(k));
            assert(t.last() == all[k]@);
        }
        match level {
            Level::Inline(items) => {
                extend_items(&mut out, items);
            },
            Level::Block(b) => {
                let x = InlineItem::Atomic(b);
                proof {
                    lemma_items_push(out@, x);
                }
                out.push(x);
            },
        }
    }
    proof {
        assert(lv.take(lv.len() as int) =~= lv);
    }
    out
}

fn any_block(levels: &Vec<Level>) -> (r: bool)
    ensures
        r == has_block(levels_view(levels@)),
{
    let ghost lv = levels_view(levels@);
    let mut i: usize = 0;
    while i < levels.len()
        invariant
            i <= levels@.len(),
            lv == levels_view(levels@),
            forall|j: int| 0 <= j < i ==> !((#[trigger] lv[j]) is Block),
        decreases levels@.len() - i,
    {
        if let Level::Block(_) = &levels[i] {
            proof {
                assert(lv[i as int] is Block);
            }
            return true;
        }
        proof {
            assert(lv[i as int] == levels@[i as int]@);
        }
        i += 1;
    }
    false
}

/// The formatting context of classified content.
fn kind_of_levels(levels: Vec<Level>, parent: &ComputedStyle, ids: &mut Ids) -> (r: BoxKind)
    requires
        flow_kind(levels_view(levels@), parent@, old(ids).next as int).1 <= u32::MAX,
    ensures
        (kind_view(r), final(ids).next as int) == flow_kind(
            levels_view(levels@),
            parent@,
            old(ids).next as int,
        ),
{
    if any_block(&levels) {
        let kids = wrap_runs(levels, parent, ids);
        let k = BoxKind::Block(kids);
        proof {
            lemma_kind_children(k);
        }
        k
    } else {
        let items = inline_items_of(levels);
        let k = BoxKind::Lines(items);
        proof {
            lemma_kind_children(k);
        }
        k
    }
}

/// Classify every child of a flow, in order.
fn build_levels(children: &Vec<StyledNode>, parent: &ComputedStyle, ids: &mut Ids) -> (r: Vec<Level>)
    requires
        gen_levels(
            styled_views(children@),
            parent@,
            old(ids).next as int,
            children@.len(),
        ).1 <= u32::MAX,
    ensures
        (levels_view(r@), final(ids).next as int) == gen_levels(
            styled_views(children@),
            parent@,
            old(ids).next as int,
            children@.len(),
        ),
    decreases children, 0int,
{
    let ghost ch = styled_views(children@);
    let ghost start = ids.next as int;
    let ghost n = children@.len();
    let mut out: Vec<Level> = Vec::new();
    let mut k: usize = 0;
    proof {
        assert(levels_view(out@) =~= Seq::empty());
    }
    while k < children.len()
        invariant
            k <= n,
            n == children@.len(),
            ch == styled_views(children@),
            gen_levels(ch, parent@, start, n).1 <= u32::MAX,
            (levels_view(out@), ids.next as int) == gen_levels(ch, parent@, start, k as nat),
        decreases n - k,
    {
        proof {
            lemma_levels_prefix(ch, parent@, start, (k + 1) as nat, n);
            assert(ch[k as int] == styled_view(children@[k as int]));
        }
        match classify(&children[k], parent, ids) {
            Some(l) => {
                proof {
                    assert(levels_view(out@.push(l)) =~= levels_view(out@).push(l@));
                }
                out.push(l);
            },
            None => {},
        }
        k += 1;
    }
    out
}

/// The block-level boxes of a flex, grid or table container's children.
fn child_block_boxes(children: &Vec<StyledNode>, ids: &mut Ids) -> (r: Vec<LayoutBox>)
    requires
        gen_kids(styled_views(children@), old(ids).next as int, children@.len()).1 <= u32::MAX,
    ensures
        (boxes_view(r@), final(ids).next as int) == gen_kids(
            styled_views(children@),
            old(ids).next as int,
            children@.len(),
        ),
    decreases children, 0int,
{
    let ghost ch = styled_views(children@);
    let ghost start = ids.next as int;
    let ghost n = children@.len();
    let mut out: Vec<LayoutBox> = Vec::new();
    let mut k: usize = 0;
    proof {
        assert(boxes_view(out@) =~= Seq::empty());
    }
    while k < children.len()
        invariant
            k <= n,
            n == children@.len(),
            ch == styled_views(children@),
            gen_kids(ch, start, n).1 <= u32::MAX,
            (boxes_view(out@), ids.next as int) == gen_kids(ch, start, k as nat),
        decreases n - k,
    {
        proof {
            lemma_kids_prefix(ch, start, (k + 1) as nat, n);
            assert(ch[k as int] == styled_view(children@[k as int]));
        }
        match &children[k] {
            StyledNode::Text(_) => {},
            StyledNode::Element(e) => {
                if is_directive(e) || !is_hidden(&e.style) {
                    let b = build_block_box(e, ids);
                    proof {
                        lemma_boxes_push(out@, b);
                    }
                    out.push(b);
                }
            },
        }
        k += 1;
    }
    out
}

/// The level of one node.
fn classify(node: &StyledNode, parent: &ComputedStyle, ids: &mut Ids) -> (r: Option<Level>)
    requires
        gen_level(node@, parent@, old(ids).next as int).1 <= u32::MAX,
    ensures
        match r {
            Some(l) => gen_level(node@, parent@, old(ids).next as int) == (
                Some(l@),
                final(ids).next as int,
            ),
            None => gen_level(node@, parent@, old(ids).next as int) == (
                None::<LevelV>,
                final(ids).next as int,
            ),
        },
    decreases node, 4int,
{
    match node {
        StyledNode::Text(t) => {
            let item = text_item(t.as_str(), parent, ids);
            Some(Level::Inline(one_item(item)))
        },
        StyledNode::Element(e) => classify_element(e, ids),
    }
}

/// The level of a directive.
fn directive_level(kind: TKind, el: &StyledElement, ids: &mut Ids) -> (r: Level)
    requires
        el@.tag == TagV::Directive(kind),
        gen_element(el@, old(ids).next as int).1 <= u32::MAX,
    ensures
        gen_element(el@, old(ids).next as int) == (Some(r@), final(ids).next as int),
    decreases el, 3int,
{
    if inline_directive(kind) {
        let node_id = ids.fresh();
        Level::Inline(one_item(InlineItem::Directive { node_id, kind }))
    } else {
        Level::Block(build_block_box(el, ids))
    }
}

/// The level of an element; hidden ones have none.
fn classify_element(el: &StyledElement, ids: &mut Ids) -> (r: Option<Level>)
    requires
        gen_element(el@, old(ids).next as int).1 <= u32::MAX,
    ensures
        match r {
            Some(l) => gen_element(el@, old(ids).next as int) == (
                Some(l@),
                final(ids).next as int,
            ),
            None => gen_element(el@, old(ids).next as int) == (
                None::<LevelV>,
                final(ids).next as int,
            ),
        },
    decreases el, 4int,
{
    match &el.tag {
        Tag::Directive(kind) => Some(directive_level(*kind, el, ids)),
        Tag::Html(_) => classify_html(el, ids),
    }
}

/// The level of an HTML element, by its `display`.
fn classify_html(el: &StyledElement, ids: &mut Ids) -> (r: Option<Level>)
    requires
        el@.tag is Html,
        gen_element(el@, old(ids).next as int).1 <= u32::MAX,
    ensures
        match r {
            Some(l) => gen_element(el@, old(ids).next as int) == (
                Some(l@),
                final(ids).next as int,
            ),
            None => gen_element(el@, old(ids).next as int) == (
                None::<LevelV>,
                final(ids).next as int,
            ),
        },
    decreases el, 3int,
{
    if is_hidden(&el.style) {
        return None;
    }
    if is_br(el) {
        return Some(Level::Inline(one_item(InlineItem::LineBreak)));
    }
    let d = display_of(&el.style);
    if d == Display::Inline {
        Some(Level::Inline(flatten_inline(el, ids)))
    } else {
        let b = build_block_box(el, ids);
        if d == Display::InlineBlock {
            Some(Level::Inline(one_item(InlineItem::Atomic(b))))
        } else {
            Some(Level::Block(b))
        }
    }
}

/// An inline element's content as inline items, under the element's own style.
fn flatten_inline(el: &StyledElement, ids: &mut Ids) -> (r: Vec<InlineItem>)
    requires
        gen_levels(el@.children, el@.style, old(ids).next as int, el@.children.len()).1
            <= u32::MAX,
    ensures
        ({
            let (levels, n) = gen_levels(
                el@.children,
                el@.style,
                old(ids).next as int,
                el@.children.len(),
            );
            items_view(r@) == inlined(levels) && final(ids).next == n
        }),
    decreases el, 1int,
{
    proof {
        lemma_element_children(*el);
    }
    let levels = build_levels(&el.children, &el.style, ids);
    inline_items_of(levels)
}

/// The contents of an element's box, by its `display`.
fn box_kind_for(display: Display, el: &StyledElement, ids: &mut Ids) -> (r: BoxKind)
    requires
        display == display_in(el@.style),
        gen_kind(el@, old(ids).next as int).1 <= u32::MAX,
    ensures
        (kind_view(r), final(ids).next as int) == gen_kind(el@, old(ids).next as int),
    decreases el, 1int,
{
    proof {
        lemma_element_children(*el);
    }
    if let Some(label) = input_button_text(el) {
        let item = text_item(label, &el.style, ids);
        let k = BoxKind::Lines(one_item(item));
        proof {
            lemma_kind_children(k);
        }
        return k;
    }
    match display {
        Display::Flex => {
            let k = BoxKind::Flex(child_block_boxes(&el.children, ids));
            proof {
                lemma_kind_children(k);
            }
            k
        },
        Display::Grid => {
            let k = BoxKind::Grid(child_block_boxes(&el.children, ids));
            proof {
                lemma_kind_children(k);
            }
            k
        },
        Display::Table => {
            let k = BoxKind::Table(child_block_boxes(&el.children, ids));
            proof {
                lemma_kind_children(k);
            }
            k
        },
        _ => {
            let ghost start = ids.next as int;
            proof {
                let (levels, n) = gen_levels(el@.children, el@.style, start, el@.children.len());
                lemma_grow_flow(levels, el@.style, n);
            }
            let levels = build_levels(&el.children, &el.style, ids);
            kind_of_levels(levels, &el.style, ids)
        },
    }
}

/// The block box of an element.
fn build_block_box(el: &StyledElement, ids: &mut Ids) -> (r: LayoutBox)
    requires
        gen_box(el@, old(ids).next as int).1 <= u32::MAX,
    ensures
        (box_view(r), final(ids).next as int) == gen_box(el@, old(ids).next as int),
    decreases el, 2int,
{
    proof {
        lemma_grow_box(el@, ids.next as int);
    }
    let node_id = ids.fresh();
    if let Tag::Directive(kind) = &el.tag {
        return LayoutBox {
            node_id,
            style: el.style.clone(),
            attrs: clone_attrs(&el.attrs),
            display: Display::Block,
            kind: BoxKind::Directive(*kind),
            image: None,
            mask: None,
        };
    }
    let display = display_of(&el.style);
    let kind = box_kind_for(display, el, ids);
    LayoutBox {
        node_id,
        style: el.style.clone(),
        attrs: clone_attrs(&el.attrs),
        display,
        kind,
        image: image_of(el),
        mask: match mask_image(&el.style) {
            Some(u) => Some(u.to_owned()),
            None => None,
        },
    }
}

/// Build the box tree of a document flow. The root is an anonymous block of id
/// zero.
pub fn build_box_tree(styled: &Vec<StyledNode>) -> (r: LayoutBox)
    requires
        gen_tree(styled_views(styled@)).1 <= u32::MAX,
    ensures
        r@ == gen_tree(styled_views(styled@)).0,
{
    let mut ids = Ids { next: 0 };
    let node_id = ids.fresh();
    let style = ComputedStyle::default();
    proof {
        let nodes = styled_views(styled@);
        let (levels, n) = gen_levels(nodes, style@, 1, nodes.len());
        lemma_grow_flow(levels, style@, n);
    }
    let levels = build_levels(styled, &style, &mut ids);
    let kind = kind_of_levels(levels, &style, &mut ids);
    let attrs: Vec<Attr> = Vec::new();
    proof {
        assert(attrs_view(attrs@) =~= Seq::empty());
    }
    LayoutBox { node_id, style, attrs, display: Display::Block, kind, image: None, mask: None }
}

} // verus!
