//! Computed styles, the styled tree, and the cascade's rule order.

use vstd::prelude::*;

use crate::node::{attrs_view, Attr, Tag, TagV};
use crate::scan::{chars_of, same};

verus! {

/// A property map read as property name to value text.
pub type StyleMap = Map<Seq<char>, Seq<char>>;

/// The value of `p`, where the map has one.
pub open spec fn prop(m: StyleMap, p: Seq<char>) -> Option<Seq<char>> {
    if m.contains_key(p) {
        Some(m[p])
    } else {
        None
    }
}

/// The value of `p`, or `d` where the map has none.
pub open spec fn prop_or(m: StyleMap, p: Seq<char>, d: Seq<char>) -> Seq<char> {
    if m.contains_key(p) {
        m[p]
    } else {
        d
    }
}

/// The map that a list of declarations writes: a later one wins.
pub open spec fn pairs_map(s: Seq<(String, String)>) -> StyleMap
    decreases s.len(),
{
    if s.len() == 0 {
        Map::empty()
    } else {
        pairs_map(s.drop_last()).insert(s.last().0@, s.last().1@)
    }
}

/// The cascaded property values of one element, as text.
#[derive(Debug)]
pub struct ComputedStyle {
    props: Vec<(String, String)>,
}

impl View for ComputedStyle {
    type V = StyleMap;

    closed spec fn view(&self) -> StyleMap {
        pairs_map(self.props@)
    }
}

impl ComputedStyle {
    /// A style from property/value pairs; a later pair overrides an earlier one.
    pub fn from_pairs(pairs: Vec<(String, String)>) -> (r: ComputedStyle)
        ensures
            r@ == pairs_map(pairs@),
    {
        ComputedStyle { props: pairs }
    }

    /// The value of the property `name`.
    pub fn get(&self, name: &str) -> (r: Option<&str>)
        ensures
            crate::scan::text_of(r) == prop(self@, name@),
    {
        let mut i: usize = self.props.len();
        proof {
            assert(self.props@.take(i as int) =~= self.props@);
        }
        while i > 0
            invariant
                i <= self.props@.len(),
                prop(self@, name@) == prop(pairs_map(self.props@.take(i as int)), name@),
            decreases i,
        {
            let ghost t = self.props@.take(i as int);
            proof {
                assert(t.drop_last() =~= self.props@.take(i - 1));
                assert(t.last() == self.props@[i - 1]);
            }
            i -= 1;
            if same(self.props[i].0.as_str(), name) {
                return Some(self.props[i].1.as_str());
            }
        }
        None
    }

    /// Whether no property's value holds the character `c`.
    pub fn lacks(&self, c: char) -> (r: bool)
        ensures
            r == lacks_char(self@, c),
    {
        let mut i: usize = 0;
        while i < self.props.len()
            invariant
                i <= self.props@.len(),
                forall|j: int|
                    0 <= j < i ==> !(#[trigger] pairs_map(self.props@)[self.props@[j].0@]).contains(
                        c,
                    ),
            decreases self.props@.len() - i,
        {
            proof {
                lemma_pairs_keys(self.props@);
                assert(self@.contains_key(self.props@[i as int].0@));
            }
            if let Some(v) = self.get(self.props[i].0.as_str()) {
                if holds_char(v, c) {
                    return false;
                }
            }
            i += 1;
        }
        proof {
            lemma_pairs_keys(self.props@);
        }
        true
    }
}

/// Whether no value of the map holds the character `c`.
pub open spec fn lacks_char(m: StyleMap, c: char) -> bool {
    forall|p: Seq<char>| #[trigger] m.contains_key(p) ==> !m[p].contains(c)
}

/// The keys of the map are those of the declarations.
proof fn lemma_pairs_keys(s: Seq<(String, String)>)
    ensures
        forall|j: int| 0 <= j < s.len() ==> pairs_map(s).contains_key((#[trigger] s[j]).0@),
        forall|p: Seq<char>| #[trigger]
            pairs_map(s).contains_key(p) ==> exists|j: int|
                0 <= j < s.len() && (#[trigger] s[j]).0@ == p,
    decreases s.len(),
{
    if s.len() > 0 {
        let t = s.drop_last();
        lemma_pairs_keys(t);
        assert forall|j: int| 0 <= j < s.len() implies pairs_map(s).contains_key(
            (#[trigger] s[j]).0@,
        ) by {
            if j < s.len() - 1 {
                assert(t[j] == s[j]);
            }
        }
        assert forall|p: Seq<char>| #[trigger] pairs_map(s).contains_key(p) implies exists|j: int|
            0 <= j < s.len() && (#[trigger] s[j]).0@ == p by {
            if p == s.last().0@ {
                assert(s[s.len() - 1].0@ == p);
            } else {
                assert(pairs_map(t).contains_key(p));
                let j = choose|j: int| 0 <= j < t.len() && (#[trigger] t[j]).0@ == p;
                assert(s[j].0@ == p);
            }
        }
    }
}

fn holds_char(s: &str, c: char) -> (r: bool)
    ensures
        r == s@.contains(c),
{
    let x = chars_of(s);
    let mut i: usize = 0;
    while i < x.len()
        invariant
            x@ == s@,
            i <= x@.len(),
            forall|j: int| 0 <= j < i ==> x@[j] != c,
        decreases x@.len() - i,
    {
        if x[i] == c {
            proof {
                assert(s@[i as int] == c);
            }
            return true;
        }
        i += 1;
    }
    false
}

impl Default for ComputedStyle {
    /// No declarations at all.
    fn default() -> (r: ComputedStyle)
        ensures
            r@ == Map::<Seq<char>, Seq<char>>::empty(),
    {
        ComputedStyle { props: Vec::new() }
    }
}

impl Clone for ComputedStyle {
    fn clone(&self) -> (r: ComputedStyle)
        ensures
            r@ == self@,
    {
        let mut out: Vec<(String, String)> = Vec::new();
        let mut i: usize = 0;
        while i < self.props.len()
            invariant
                i <= self.props@.len(),
                out@ == self.props@.take(i as int),
            decreases self.props@.len() - i,
        {
            proof {
                assert(self.props@.take(i as int + 1) =~= self.props@.take(i as int).push(
                    self.props@[i as int],
                ));
            }
            out.push((self.props[i].0.clone(), self.props[i].1.clone()));
            i += 1;
        }
        proof {
            assert(self.props@.take(i as int) =~= self.props@);
        }
        ComputedStyle { props: out }
    }
}

/// An element with its computed style.
#[derive(Debug)]
pub struct StyledElement {
    pub tag: Tag,
    pub attrs: Vec<Attr>,
    pub style: ComputedStyle,
    pub children: Vec<StyledNode>,
}

/// A node of the styled tree.
#[derive(Debug)]
pub enum StyledNode {
    Text(String),
    Element(StyledElement),
}

/// The mathematical reading of a [`StyledElement`].
pub struct ElementV {
    pub tag: TagV,
    pub attrs: Seq<(Seq<char>, Seq<char>)>,
    pub style: StyleMap,
    pub children: Seq<StyledV>,
}

/// The mathematical reading of a [`StyledNode`].
pub enum StyledV {
    Text(Seq<char>),
    Element(ElementV),
}

pub open spec fn styled_view(n: StyledNode) -> StyledV
    decreases n,
{
    match n {
        StyledNode::Text(t) => StyledV::Text(t@),
        StyledNode::Element(e) => StyledV::Element(element_view(e)),
    }
}

pub open spec fn element_view(e: StyledElement) -> ElementV
    decreases e,
{
    ElementV {
        tag: e.tag@,
        attrs: attrs_view(e.attrs@),
        style: e.style@,
        children: Seq::new(
            e.children@.len(),
            |i: int|
                if 0 <= i < e.children@.len() {
                    styled_view(e.children@[i])
                } else {
                    arbitrary()
                },
        ),
    }
}

impl View for StyledNode {
    type V = StyledV;

    open spec fn view(&self) -> StyledV {
        styled_view(*self)
    }
}

impl View for StyledElement {
    type V = ElementV;

    open spec fn view(&self) -> ElementV {
        element_view(*self)
    }
}

pub open spec fn styled_views(v: Seq<StyledNode>) -> Seq<StyledV> {
    v.map_values(|n: StyledNode| styled_view(n))
}

/// The children of an element, viewed one by one.
pub proof fn lemma_element_children(e: StyledElement)
    ensures
        element_view(e).children == styled_views(e.children@),
{
    assert(element_view(e).children =~= styled_views(e.children@));
}

} // verus!
