//! Box generation: the styled tree becomes a box tree.
//!
//! A block container that holds a mix of block-level and inline-level content
//! wraps each inline run in an anonymous block, so that its children are all
//! block-level. Hidden elements generate nothing; directives become markers.

use vstd::prelude::*;

use crate::layout::fragment::NodeId;
use crate::layout::tokens::{css_value_tokens, value_tokens};
use crate::layout::value::{
    display_in, display_of, is_set_to, set_to, trim_quotes, unquoted, Display,
};
use crate::node::{attrs_view, Attr, TKind, Tag, TagV};
use crate::number::{number_of, parse_number, Number};
use crate::scan::{
    after_prefix, before_suffix, contains, occurs, same, split, split_at, starts, starts_with,
    strip_prefix, strip_suffix, text_of, texts, trim, trimmed, words, words_in,
};
use crate::style::{prop, ComputedStyle, ElementV, StyleMap, StyledElement};

verus! {

// --------------------------------------------------------------------------
// the box tree
// --------------------------------------------------------------------------

/// A raster image that a box refers to: an `<img>`, which sizes the box, or a
/// background painted behind it.
#[derive(Debug)]
pub struct ImageSource {
    pub name: String,
    pub replaced: bool,
}

/// A box of the layout tree.
#[derive(Debug)]
pub struct LayoutBox {
    pub node_id: NodeId,
    pub style: ComputedStyle,
    /// The element's attributes; none for an anonymous box.
    pub attrs: Vec<Attr>,
    pub display: Display,
    pub kind: BoxKind,
    pub image: Option<ImageSource>,
    /// The image of a `mask-image`, through which the box's paint shows.
    pub mask: Option<String>,
}

/// What a box contains, by formatting context.
#[derive(Debug)]
pub enum BoxKind {
    /// Block-level children only.
    Block(Vec<LayoutBox>),
    /// Inline items, laid out into lines.
    Lines(Vec<InlineItem>),
    Flex(Vec<LayoutBox>),
    Grid(Vec<LayoutBox>),
    Table(Vec<LayoutBox>),
    /// A paged-media directive marker.
    Directive(TKind),
}

/// One inline-level item.
#[derive(Debug)]
pub enum InlineItem {
    Text { node_id: NodeId, style: ComputedStyle, text: String },
    /// An inline block, or a block nested in inline flow.
    Atomic(LayoutBox),
    /// A forced line break.
    LineBreak,
    Directive { node_id: NodeId, kind: TKind },
}

/// The mathematical reading of a [`LayoutBox`].
pub struct BoxV {
    pub id: int,
    pub style: StyleMap,
    pub attrs: Seq<(Seq<char>, Seq<char>)>,
    pub display: Display,
    pub kind: KindV,
    pub image: Option<(Seq<char>, bool)>,
    pub mask: Option<Seq<char>>,
}

/// The mathematical reading of a [`BoxKind`].
pub enum KindV {
    Block(Seq<BoxV>),
    Lines(Seq<ItemV>),
    Flex(Seq<BoxV>),
    Grid(Seq<BoxV>),
    Table(Seq<BoxV>),
    Directive(TKind),
}

/// The mathematical reading of an [`InlineItem`].
pub enum ItemV {
    Text { id: int, style: StyleMap, text: Seq<char> },
    Atomic(BoxV),
    LineBreak,
    Directive { id: int, kind: TKind },
}

pub open spec fn image_view(o: Option<ImageSource>) -> Option<(Seq<char>, bool)> {
    match o {
        Some(i) => Some((i.name@, i.replaced)),
        None => None,
    }
}

pub open spec fn mask_view(o: Option<String>) -> Option<Seq<char>> {
    match o {
        Some(i) => Some(i@),
        None => None,
    }
}

pub open spec fn box_view(b: LayoutBox) -> BoxV
    decreases b,
{
    BoxV {
        id: b.node_id.0 as int,
        style: b.style@,
        attrs: attrs_view(b.attrs@),
        display: b.display,
        kind: kind_view(b.kind),
        image: image_view(b.image),
        mask: mask_view(b.mask),
    }
}

pub open spec fn kind_view(k: BoxKind) -> KindV
    decreases k,
{
    match k {
        BoxKind::Block(v) => KindV::Block(
            Seq::new(
                v@.len(),
                |i: int|
                    if 0 <= i < v@.len() {
                        box_view(v@[i])
                    } else {
                        arbitrary()
                    },
            ),
        ),
        BoxKind::Lines(v) => KindV::Lines(
            Seq::new(
                v@.len(),
                |i: int|
                    if 0 <= i < v@.len() {
                        item_view(v@[i])
                    } else {
                        arbitrary()
                    },
            ),
        ),
        BoxKind::Flex(v) => KindV::Flex(
            Seq::new(
                v@.len(),
                |i: int|
                    if 0 <= i < v@.len() {
                        box_view(v@[i])
                    } else {
                        arbitrary()
                    },
            ),
        ),
        BoxKind::Grid(v) => KindV::Grid(
            Seq::new(
                v@.len(),
                |i: int|
                    if 0 <= i < v@.len() {
                        box_view(v@[i])
                    } else {
                        arbitrary()
                    },
            ),
        ),
        BoxKind::Table(v) => KindV::Table(
            Seq::new(
                v@.len(),
                |i: int|
                    if 0 <= i < v@.len() {
                        box_view(v@[i])
                    } else {
                        arbitrary()
                    },
            ),
        ),
        BoxKind::Directive(t) => KindV::Directive(t),
    }
}

pub open spec fn item_view(i: InlineItem) -> ItemV
    decreases i,
{
    match i {
        InlineItem::Text { node_id, style, text } => ItemV::Text {
            id: node_id.0 as int,
            style: style@,
            text: text@,
        },
        InlineItem::Atomic(b) => ItemV::Atomic(box_view(b)),
        InlineItem::LineBreak => ItemV::LineBreak,
        InlineItem::Directive { node_id, kind } => ItemV::Directive { id: node_id.0 as int, kind },
    }
}

impl View for LayoutBox {
    type V = BoxV;

    open spec fn view(&self) -> BoxV {
        box_view(*self)
    }
}

impl View for BoxKind {
    type V = KindV;

    open spec fn view(&self) -> KindV {
        kind_view(*self)
    }
}

impl View for InlineItem {
    type V = ItemV;

    open spec fn view(&self) -> ItemV {
        item_view(*self)
    }
}

pub open spec fn boxes_view(v: Seq<LayoutBox>) -> Seq<BoxV> {
    v.map_values(|b: LayoutBox| box_view(b))
}

pub open spec fn items_view(v: Seq<InlineItem>) -> Seq<ItemV> {
    v.map_values(|i: InlineItem| item_view(i))
}

/// The children of a kind, viewed one by one.
pub proof fn lemma_kind_children(k: BoxKind)
    ensures
        match k {
            BoxKind::Block(v) => kind_view(k) == KindV::Block(boxes_view(v@)),
            BoxKind::Lines(v) => kind_view(k) == KindV::Lines(items_view(v@)),
            BoxKind::Flex(v) => kind_view(k) == KindV::Flex(boxes_view(v@)),
            BoxKind::Grid(v) => kind_view(k) == KindV::Grid(boxes_view(v@)),
            BoxKind::Table(v) => kind_view(k) == KindV::Table(boxes_view(v@)),
            BoxKind::Directive(t) => kind_view(k) == KindV::Directive(t),
        },
{
    match k {
        BoxKind::Block(v) => {
            assert(kind_view(k)->Block_0 =~= boxes_view(v@));
        },
        BoxKind::Lines(v) => {
            assert(kind_view(k)->Lines_0 =~= items_view(v@));
        },
        BoxKind::Flex(v) => {
            assert(kind_view(k)->Flex_0 =~= boxes_view(v@));
        },
        BoxKind::Grid(v) => {
            assert(kind_view(k)->Grid_0 =~= boxes_view(v@));
        },
        BoxKind::Table(v) => {
            assert(kind_view(k)->Table_0 =~= boxes_view(v@));
        },
        BoxKind::Directive(t) => {},
    }
}

// --------------------------------------------------------------------------
// hidden boxes
// --------------------------------------------------------------------------

/// Whether the opacity is zero or less.
pub open spec fn is_transparent(m: StyleMap) -> bool {
    prop(m, "opacity"@) is Some && match number_of(trimmed(prop(m, "opacity"@)->0)) {
        Some(Number::Value(v)) => v <= 0,
        _ => false,
    }
}

/// Whether a `clip-path` cuts the whole box away.
pub open spec fn is_inset_away(m: StyleMap) -> bool {
    prop(m, "clip-path"@) is Some && {
        let t = trimmed(prop(m, "clip-path"@)->0);
        occurs(t, "inset("@) && (occurs(t, "50%"@) || occurs(t, "100%"@))
    }
}

/// Whether the property sets at most one px.
pub open spec fn is_tiny(m: StyleMap, p: Seq<char>) -> bool {
    is_set_to(m, p, "0"@) || is_set_to(m, p, "0px"@) || is_set_to(m, p, "1px"@)
}

/// Whether the box is a px at most, with its overflow cut.
pub open spec fn is_tiny_clipped(m: StyleMap) -> bool {
    &&& is_tiny(m, "width"@)
    &&& is_tiny(m, "height"@)
    &&& (is_set_to(m, "overflow"@, "hidden"@) || is_set_to(m, "overflow-x"@, "hidden"@)
        || is_set_to(m, "overflow-y"@, "hidden"@))
}

/// Whether the box is there for screen readers only.
pub open spec fn is_clipped_away(m: StyleMap) -> bool {
    ||| (prop(m, "clip"@) is Some && starts(trimmed(prop(m, "clip"@)->0), "rect("@))
    ||| is_inset_away(m)
    ||| is_tiny_clipped(m)
}

/// Whether a box and its subtree are not rendered.
pub open spec fn hidden(m: StyleMap) -> bool {
    ||| display_in(m) == Display::Hidden
    ||| is_set_to(m, "visibility"@, "hidden"@)
    ||| is_transparent(m)
    ||| is_clipped_away(m)
}

pub fn clip_path_hides(style: &ComputedStyle) -> (r: bool)
    ensures
        r == is_inset_away(style@),
{
    match style.get("clip-path") {
        Some(v) => {
            let t = trim(v);
            contains(t, "inset(") && (contains(t, "50%") || contains(t, "100%"))
        },
        None => false,
    }
}

fn tiny(style: &ComputedStyle, p: &str) -> (r: bool)
    ensures
        r == is_tiny(style@, p@),
{
    set_to(style, p, "0") || set_to(style, p, "0px") || set_to(style, p, "1px")
}

pub fn tiny_clipped(style: &ComputedStyle) -> (r: bool)
    ensures
        r == is_tiny_clipped(style@),
{
    tiny(style, "width") && tiny(style, "height") && (set_to(style, "overflow", "hidden")
        || set_to(style, "overflow-x", "hidden") || set_to(style, "overflow-y", "hidden"))
}

pub fn is_visually_hidden(style: &ComputedStyle) -> (r: bool)
    ensures
        r == is_clipped_away(style@),
{
    let rect: bool = match style.get("clip") {
        Some(v) => starts_with(trim(v), "rect("),
        None => false,
    };
    rect || clip_path_hides(style) || tiny_clipped(style)
}

/// Whether a box and its subtree are dropped: `display: none`, hidden, fully
/// transparent, or clipped away.
pub fn is_hidden(style: &ComputedStyle) -> (r: bool)
    ensures
        r == hidden(style@),
{
    let faded: bool = match style.get("opacity") {
        Some(v) => match parse_number(trim(v)) {
            Some(Number::Value(o)) => o <= 0,
            _ => false,
        },
        None => false,
    };
    display_of(style) == Display::Hidden || set_to(style, "visibility", "hidden") || faded
        || is_visually_hidden(style)
}

// --------------------------------------------------------------------------
// attributes and images
// --------------------------------------------------------------------------

/// The value of the first attribute of that name.
pub open spec fn attr_of(a: Seq<(Seq<char>, Seq<char>)>, name: Seq<char>) -> Option<Seq<char>>
    decreases a.len(),
{
    if a.len() == 0 {
        None
    } else if a[0].0 == name {
        Some(a[0].1)
    } else {
        attr_of(a.skip(1), name)
    }
}

pub fn attr_value<'a>(attrs: &'a Vec<Attr>, name: &str) -> (r: Option<&'a str>)
    ensures
        text_of(r) == attr_of(attrs_view(attrs@), name@),
{
    let ghost av = attrs_view(attrs@);
    let mut i: usize = 0;
    proof {
        assert(av.skip(0) =~= av);
    }
    while i < attrs.len()
        invariant
            i <= attrs@.len(),
            av == attrs_view(attrs@),
            attr_of(av, name@) == attr_of(av.skip(i as int), name@),
        decreases attrs@.len() - i,
    {
        proof {
            assert(av.skip(i as int)[0] == attrs@[i as int]@);
            assert(av.skip(i as int).skip(1) =~= av.skip(i as int + 1));
        }
        if same(attrs[i].name.as_str(), name) {
            return Some(attrs[i].value.as_str());
        }
        i += 1;
    }
    None
}

/// The attribute, where it is there and not blank.
pub open spec fn filled_attr(a: Seq<(Seq<char>, Seq<char>)>, name: Seq<char>) -> Option<Seq<char>> {
    match attr_of(a, name) {
        Some(v) => if trimmed(v).len() > 0 {
            Some(v)
        } else {
            None
        },
        None => None,
    }
}

/// `a`, else `b`.
pub open spec fn or_else<T>(a: Option<T>, b: Option<T>) -> Option<T> {
    if a is Some {
        a
    } else {
        b
    }
}

/// The URL of the first candidate of a `srcset`.
pub open spec fn first_candidate(s: Seq<char>) -> Option<Seq<char>> {
    let w = words_in(split_at(s, ',', ',')[0]);
    if w.len() > 0 {
        Some(w[0])
    } else {
        None
    }
}

/// The URL that an `<img>` paints: `src`, a lazy-loading attribute, else the
/// first candidate of its `srcset`.
pub open spec fn img_url(a: Seq<(Seq<char>, Seq<char>)>) -> Option<Seq<char>> {
    or_else(
        filled_attr(a, "src"@),
        or_else(
            filled_attr(a, "data-src"@),
            or_else(
                filled_attr(a, "data-landscape-url"@),
                or_else(
                    filled_attr(a, "data-portrait-url"@),
                    or_else(
                        filled_attr(a, "data-original"@),
                        or_else(
                            filled_attr(a, "data-image-src"@),
                            match attr_of(a, "srcset"@) {
                                Some(s) => first_candidate(s),
                                None => None,
                            },
                        ),
                    ),
                ),
            ),
        ),
    )
}

fn filled<'a>(attrs: &'a Vec<Attr>, name: &str) -> (r: Option<&'a str>)
    ensures
        text_of(r) == filled_attr(attrs_view(attrs@), name@),
{
    match attr_value(attrs, name) {
        Some(v) => if !trim(v).is_empty() {
            Some(v)
        } else {
            None
        },
        None => None,
    }
}

pub fn srcset_first_url<'a>(srcset: &'a str) -> (r: Option<&'a str>)
    ensures
        text_of(r) == first_candidate(srcset@),
{
    let parts = split(srcset, ',', ',');
    proof {
        assert(texts(parts@)[0] == parts@[0]@);
    }
    let w = words(parts[0]);
    proof {
        assert(texts(w@).len() == w@.len());
    }
    if w.len() > 0 {
        Some(w[0])
    } else {
        None
    }
}

pub fn img_url_attr<'a>(attrs: &'a Vec<Attr>) -> (r: Option<&'a str>)
    ensures
        text_of(r) == img_url(attrs_view(attrs@)),
{
    if let Some(v) = filled(attrs, "src") {
        return Some(v);
    }
    if let Some(v) = filled(attrs, "data-src") {
        return Some(v);
    }
    if let Some(v) = filled(attrs, "data-landscape-url") {
        return Some(v);
    }
    if let Some(v) = filled(attrs, "data-portrait-url") {
        return Some(v);
    }
    if let Some(v) = filled(attrs, "data-original") {
        return Some(v);
    }
    if let Some(v) = filled(attrs, "data-image-src") {
        return Some(v);
    }
    match attr_value(attrs, "srcset") {
        Some(s) => srcset_first_url(s),
        None => None,
    }
}

/// The URL of a `url(...)` token, unquoted; blank ones are none.
pub open spec fn url_of(tok: Seq<char>) -> Option<Seq<char>> {
    match after_prefix(trimmed(tok), "url("@) {
        Some(b) => match before_suffix(b, ")"@) {
            Some(inner) => {
                let name = trimmed(unquoted(trimmed(inner)));
                if name.len() > 0 {
                    Some(name)
                } else {
                    None
                }
            },
            None => None,
        },
        None => None,
    }
}

pub fn url_token<'a>(token: &'a str) -> (r: Option<&'a str>)
    ensures
        text_of(r) == url_of(token@),
{
    match strip_prefix(trim(token), "url(") {
        Some(b) => match strip_suffix(b, ")") {
            Some(inner) => {
                let name = trim(trim_quotes(trim(inner)));
                if !name.is_empty() {
                    Some(name)
                } else {
                    None
                }
            },
            None => None,
        },
        None => None,
    }
}

/// The first URL among the tokens.
pub open spec fn first_url(t: Seq<Seq<char>>) -> Option<Seq<char>>
    decreases t.len(),
{
    if t.len() == 0 {
        None
    } else if url_of(t[0]) is Some {
        url_of(t[0])
    } else {
        first_url(t.skip(1))
    }
}

fn first_url_in<'a>(value: &'a str) -> (r: Option<&'a str>)
    ensures
        text_of(r) == first_url(value_tokens(value@)),
{
    let toks = css_value_tokens(value);
    let ghost ts = texts(toks@);
    let mut i: usize = 0;
    proof {
        assert(ts.skip(0) =~= ts);
    }
    while i < toks.len()
        invariant
            i <= toks@.len(),
            ts == texts(toks@),
            ts == value_tokens(value@),
            first_url(ts) == first_url(ts.skip(i as int)),
        decreases toks@.len() - i,
    {
        proof {
            assert(ts.skip(i as int)[0] == toks@[i as int]@);
            assert(ts.skip(i as int).skip(1) =~= ts.skip(i as int + 1));
        }
        if let Some(u) = url_token(toks[i]) {
            return Some(u);
        }
        i += 1;
    }
    None
}

/// The URL of `background-image`, else one in the `background` shorthand.
pub open spec fn background_url(m: StyleMap) -> Option<Seq<char>> {
    or_else(
        match prop(m, "background-image"@) {
            Some(v) => url_of(v),
            None => None,
        },
        match prop(m, "background"@) {
            Some(v) => first_url(value_tokens(v)),
            None => None,
        },
    )
}

pub fn background_image(style: &ComputedStyle) -> (r: Option<&str>)
    ensures
        text_of(r) == background_url(style@),
{
    if let Some(v) = style.get("background-image") {
        if let Some(u) = url_token(v) {
            return Some(u);
        }
    }
    match style.get("background") {
        Some(v) => first_url_in(v),
        None => None,
    }
}

/// The URL in one mask property: the whole value, else one of its tokens.
pub open spec fn mask_prop_url(m: StyleMap, p: Seq<char>) -> Option<Seq<char>> {
    match prop(m, p) {
        Some(v) => or_else(url_of(trimmed(v)), first_url(value_tokens(trimmed(v)))),
        None => None,
    }
}

/// The URL of the mask, longhands before shorthands.
pub open spec fn mask_url(m: StyleMap) -> Option<Seq<char>> {
    or_else(
        mask_prop_url(m, "mask-image"@),
        or_else(
            mask_prop_url(m, "-webkit-mask-image"@),
            or_else(mask_prop_url(m, "mask"@), mask_prop_url(m, "-webkit-mask"@)),
        ),
    )
}

fn mask_in<'a>(style: &'a ComputedStyle, p: &str) -> (r: Option<&'a str>)
    ensures
        text_of(r) == mask_prop_url(style@, p@),
{
    match style.get(p) {
        Some(v) => {
            let t = trim(v);
            if let Some(u) = url_token(t) {
                return Some(u);
            }
            first_url_in(t)
        },
        None => None,
    }
}

pub fn mask_image(style: &ComputedStyle) -> (r: Option<&str>)
    ensures
        text_of(r) == mask_url(style@),
{
    if let Some(u) = mask_in(style, "mask-image") {
        return Some(u);
    }
    if let Some(u) = mask_in(style, "-webkit-mask-image") {
        return Some(u);
    }
    if let Some(u) = mask_in(style, "mask") {
        return Some(u);
    }
    mask_in(style, "-webkit-mask")
}

pub open spec fn is_tag(e: ElementV, name: Seq<char>) -> bool {
    e.tag matches TagV::Html(n) && n == name
}

fn tag_is(el: &StyledElement, name: &str) -> (r: bool)
    ensures
        r == is_tag(el@, name@),
{
    match &el.tag {
        Tag::Html(n) => same(n.as_str(), name),
        Tag::Directive(_) => false,
    }
}

/// The image of an element: an `<img>`'s own, else its background.
pub open spec fn image_in(e: ElementV) -> Option<(Seq<char>, bool)> {
    match (if is_tag(e, "img"@) {
        img_url(e.attrs)
    } else {
        None
    }) {
        Some(u) => Some((u, true)),
        None => match background_url(e.style) {
            Some(u) => Some((u, false)),
            None => None,
        },
    }
}

pub fn img_src(el: &StyledElement) -> (r: Option<&str>)
    ensures
        text_of(r) == (if is_tag(el@, "img"@) {
            img_url(el@.attrs)
        } else {
            None
        }),
{
    if tag_is(el, "img") {
        img_url_attr(&el.attrs)
    } else {
        None
    }
}

pub fn image_of(el: &StyledElement) -> (r: Option<ImageSource>)
    ensures
        image_view(r) == image_in(el@),
{
    if let Some(src) = img_src(el) {
        return Some(ImageSource { name: src.to_owned(), replaced: true });
    }
    match background_image(&el.style) {
        Some(u) => Some(ImageSource { name: u.to_owned(), replaced: false }),
        None => None,
    }
}

/// The label of a button-like `<input>`: its `value` attribute.
pub open spec fn button_label(e: ElementV) -> Option<Seq<char>> {
    let ty = match attr_of(e.attrs, "type"@) {
        Some(t) => t,
        None => "text"@,
    };
    if is_tag(e, "input"@) && (ty == "submit"@ || ty == "button"@ || ty == "reset"@) {
        attr_of(e.attrs, "value"@)
    } else {
        None
    }
}

pub fn input_button_text(el: &StyledElement) -> (r: Option<&str>)
    ensures
        text_of(r) == button_label(el@),
{
    if !tag_is(el, "input") {
        return None;
    }
    let ty = match attr_value(&el.attrs, "type") {
        Some(t) => t,
        None => "text",
    };
    if same(ty, "submit") || same(ty, "button") || same(ty, "reset") {
        attr_value(&el.attrs, "value")
    } else {
        None
    }
}

/// Whether the element is a `<br>`.
pub fn is_br(el: &StyledElement) -> (r: bool)
    ensures
        r == is_tag(el@, "br"@),
{
    tag_is(el, "br")
}

/// Directives that sit inline within text.
pub open spec fn is_inline_directive(k: TKind) -> bool {
    k is Footnote || k is Page || k is Pages || k is Counter || k is Leader || k is Anchor
}

pub fn inline_directive(kind: TKind) -> (r: bool)
    ensures
        r == is_inline_directive(kind),
{
    matches!(
        kind,
        TKind::Footnote | TKind::Page | TKind::Pages | TKind::Counter | TKind::Leader | TKind::Anchor
    )
}

pub fn is_directive(el: &StyledElement) -> (r: bool)
    ensures
        r == (el@.tag is Directive),
{
    matches!(el.tag, Tag::Directive(_))
}

} // verus!
