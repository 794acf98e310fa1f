//! What always holds of the boxes that elements generate.

use vstd::prelude::*;
use vstd::string::*;

use crate::layout::boxgen::{
    attr_of, background_url, button_label, first_url, hidden, image_in, img_url,
    is_inline_directive, mask_url, url_of, BoxV, ItemV, KindV,
};
use crate::layout::boxtree::{
    gen_box, gen_element, gen_kids, gen_kind, gen_level, gen_levels, gen_tree, has_block, inlined,
    is_blank_run, wrap_fold, wrapped, LevelV,
};
use crate::layout::items::{box_of_id, first_in_items, first_of_id};
use crate::layout::stylelaws::bare;
use crate::layout::tokens::value_tokens;
use crate::layout::value::{display_in, unquoted};
use crate::layout::valuelaws::{lemma_trimmed_is, says, unset};
use crate::node::{TKind, TagV};
use crate::number::value_of;
use crate::readlaws::law_prefixes_and_suffixes;
use crate::scan::{is_space, occurs, split_at, starts, trimmed, words_in};
use crate::style::{ElementV, StyleMap, StyledV};

verus! {

// --------------------------------------------------------------------------
// hidden boxes
// --------------------------------------------------------------------------

/// A box is hidden where its display, its visibility, its opacity or its clipping says so;
/// without any of these it is shown.
pub proof fn law_hidden_boxes(m: StyleMap)
    ensures
        says(m, "display"@, "none"@) ==> hidden(m),
        says(m, "visibility"@, "hidden"@) ==> hidden(m),
        m.contains_key("opacity"@) && (value_of(trimmed(m["opacity"@])) matches Some(v) && v <= 0)
            ==> hidden(m),
        m.contains_key("clip"@) && starts(trimmed(m["clip"@]), "rect("@) ==> hidden(m),
        m.contains_key("clip-path"@) && occurs(trimmed(m["clip-path"@]), "inset("@) && occurs(
            trimmed(m["clip-path"@]),
            "50%"@,
        ) ==> hidden(m),
        says(m, "width"@, "1px"@) && says(m, "height"@, "1px"@) && says(m, "overflow"@, "hidden"@)
            ==> hidden(m),
        says(m, "width"@, "0"@) && says(m, "height"@, "0"@) && says(m, "overflow"@, "hidden"@)
            ==> hidden(m),
        says(m, "width"@, "0px"@) && says(m, "height"@, "0px"@) && says(m, "overflow-x"@, "hidden"@)
            ==> hidden(m),
        says(m, "width"@, "1px"@) && says(m, "height"@, "0"@) && says(m, "overflow-y"@, "hidden"@)
            ==> hidden(m),
        m.contains_key("clip-path"@) && occurs(trimmed(m["clip-path"@]), "inset("@) && occurs(
            trimmed(m["clip-path"@]),
            "100%"@,
        ) ==> hidden(m),
        unset(m, "display"@) && unset(m, "visibility"@) && unset(m, "opacity"@) && unset(m, "clip"@)
            && unset(m, "clip-path"@) && (unset(m, "width"@) || unset(m, "height"@)) ==> !hidden(m),
        !says(m, "display"@, "none"@) && unset(m, "visibility"@) && unset(m, "clip"@) && unset(
            m,
            "clip-path"@,
        ) && unset(m, "overflow"@) && unset(m, "overflow-x"@) && unset(m, "overflow-y"@) && (
        m.contains_key("opacity"@) ==> (value_of(trimmed(m["opacity"@])) matches Some(v) ==> v > 0))
            ==> !hidden(m),
{
    reveal_strlit("block");
    reveal_strlit("inline");
    reveal_strlit("inline-block");
    reveal_strlit("flex");
    reveal_strlit("inline-flex");
    reveal_strlit("grid");
    reveal_strlit("inline-grid");
    reveal_strlit("none");
    assert("block"@.len() == 5);
    assert("inline"@.len() == 6);
    assert("inline-block"@.len() == 12);
    assert("flex"@.len() == 4);
    assert("inline-flex"@.len() == 11);
    assert("grid"@.len() == 4);
    assert("inline-grid"@.len() == 11);
    assert("none"@.len() == 4);
    assert("flex"@[0] == 'f');
    assert("grid"@[0] == 'g');
    assert("none"@[0] == 'n');
    assert("inline-flex"@[7] == 'f');
    assert("inline-grid"@[7] == 'g');
    lemma_trimmed_is("block"@);
}

// --------------------------------------------------------------------------
// attributes and images
// --------------------------------------------------------------------------

/// The value of an attribute is that of the first of its name.
pub proof fn law_attributes(a: Seq<(Seq<char>, Seq<char>)>, i: int)
    requires
        0 <= i < a.len(),
        forall|j: int| 0 <= j < i ==> (#[trigger] a[j]).0 != a[i].0,
    ensures
        attr_of(a, a[i].0) == Some(a[i].1),
    decreases a.len(),
{
    if i > 0 {
        assert(a[0].0 != a[i].0);
        assert(a.skip(1)[i - 1] == a[i]);
        assert forall|j: int| 0 <= j < i - 1 implies (#[trigger] a.skip(1)[j]).0 != a[i].0 by {
            assert(a.skip(1)[j] == a[j + 1]);
        }
        law_attributes(a.skip(1), i - 1);
    }
}

/// An attribute that is not there has no value.
pub proof fn law_missing_attributes(a: Seq<(Seq<char>, Seq<char>)>, name: Seq<char>)
    requires
        forall|j: int| 0 <= j < a.len() ==> (#[trigger] a[j]).0 != name,
    ensures
        attr_of(a, name) is None,
    decreases a.len(),
{
    if a.len() > 0 {
        assert(a[0].0 != name);
        assert forall|j: int| 0 <= j < a.skip(1).len() implies (#[trigger] a.skip(1)[j]).0 != name by {
            assert(a.skip(1)[j] == a[j + 1]);
        }
        law_missing_attributes(a.skip(1), name);
    }
}

/// Whether an attribute is there and not blank.
pub open spec fn given(a: Seq<(Seq<char>, Seq<char>)>, name: Seq<char>) -> bool {
    attr_of(a, name) matches Some(v) && trimmed(v).len() > 0
}

/// An image shows its source, or the first of the attributes that keep one for later that is
/// not blank, or the first candidate of its set.
pub proof fn law_image_sources(a: Seq<(Seq<char>, Seq<char>)>)
    ensures
        given(a, "src"@) ==> img_url(a) == attr_of(a, "src"@),
        !given(a, "src"@) && given(a, "data-src"@) ==> img_url(a) == attr_of(a, "data-src"@),
        !given(a, "src"@) && !given(a, "data-src"@) && given(a, "data-landscape-url"@) ==> img_url(a) == attr_of(a, "data-landscape-url"@),
        !given(a, "src"@) && !given(a, "data-src"@) && !given(a, "data-landscape-url"@) && given(a, "data-portrait-url"@) ==> img_url(a) == attr_of(a, "data-portrait-url"@),
        !given(a, "src"@) && !given(a, "data-src"@) && !given(a, "data-landscape-url"@) && !given(a, "data-portrait-url"@) && given(a, "data-original"@) ==> img_url(a) == attr_of(a, "data-original"@),
        !given(a, "src"@) && !given(a, "data-src"@) && !given(a, "data-landscape-url"@) && !given(a, "data-portrait-url"@) && !given(a, "data-original"@) && given(a, "data-image-src"@) ==> img_url(a) == attr_of(a, "data-image-src"@),
        !given(a, "src"@) && !given(a, "data-src"@) && !given(a, "data-landscape-url"@) && !given(a, "data-portrait-url"@) && !given(a, "data-original"@) && !given(a, "data-image-src"@) && attr_of(a, "srcset"@) is None ==> img_url(a) is None,
        !given(a, "src"@) && !given(a, "data-src"@) && !given(a, "data-landscape-url"@) && !given(a, "data-portrait-url"@) && !given(a, "data-original"@) && !given(a, "data-image-src"@) ==> (attr_of(a, "srcset"@) matches Some(s) ==> (words_in(split_at(s, ',', ',')[0]).len() > 0 ==> img_url(a) == Some(words_in(split_at(s, ',', ',')[0])[0]))),
{
}

/// A `url()` holds its name, with or without quotes around it; without a name it is none.
pub proof fn law_urls(n: Seq<char>, q: char)
    requires
        bare(n),
        !is_space(n[0]),
        !is_space(n.last()),
        q == '"' || q == '\'',
    ensures
        url_of("url("@ + n + ")"@) == Some(n),
        url_of("url("@ + (seq![q] + n + seq![q]) + ")"@) == Some(n),
        url_of("url()"@) is None,
{
    lemma_url(n);
    lemma_url(seq![q] + n + seq![q]);
    lemma_trimmed_is(n);
    lemma_trimmed_is(seq![q] + n + seq![q]);
    lemma_unquoted(n, q);
    lemma_url(Seq::empty());
    reveal_strlit("url(");
    reveal_strlit(")");
    reveal_strlit("url()");
    assert("url()"@ =~= "url("@ + Seq::<char>::empty() + ")"@);
    assert(trimmed(Seq::<char>::empty()).len() == 0);
    assert(unquoted(Seq::<char>::empty()).len() == 0);
}

proof fn lemma_unquoted(a: Seq<char>, q: char)
    requires
        bare(a),
        q == '"' || q == '\'',
    ensures
        unquoted(a) == a,
        unquoted(seq![q] + a + seq![q]) == a,
{
    assert(crate::layout::value::unquote_front(a) == a);
    assert(crate::layout::value::unquote_back(a) == a);
    let x = seq![q] + a + seq![q];
    assert(x.skip(1) =~= a + seq![q]);
    assert((a + seq![q])[0] == a[0]);
    assert(crate::layout::value::unquote_front(a + seq![q]) == a + seq![q]);
    assert(crate::layout::value::unquote_front(x) == a + seq![q]);
    assert((a + seq![q]).drop_last() =~= a);
    assert(crate::layout::value::unquote_back(a + seq![q]) == a);
}

proof fn lemma_url(x: Seq<char>)
    ensures
        url_of("url("@ + x + ")"@) == if trimmed(unquoted(trimmed(x))).len() > 0 {
            Some(trimmed(unquoted(trimmed(x))))
        } else {
            None
        },
{
    reveal_strlit("url(");
    reveal_strlit(")");
    let s = "url("@ + x + ")"@;
    assert("url("@.len() == 4 && "url("@[0] == 'u' && ")"@.len() == 1 && ")"@[0] == ')');
    assert(s[0] == 'u' && s.last() == ')');
    lemma_trimmed_is(s);
    assert(s =~= "url("@ + (x + ")"@));
    law_prefixes_and_suffixes(s, "url("@, x + ")"@);
    law_prefixes_and_suffixes(x + ")"@, ")"@, x);
}

proof fn lemma_first_url(t: Seq<Seq<char>>, i: int)
    requires
        0 <= i < t.len(),
        url_of(t[i]) is Some,
        forall|j: int| 0 <= j < i ==> url_of(#[trigger] t[j]) is None,
    ensures
        first_url(t) == url_of(t[i]),
    decreases t.len(),
{
    if i > 0 {
        assert(url_of(t[0]) is None);
        assert(t.skip(1)[i - 1] == t[i]);
        assert forall|j: int| 0 <= j < i - 1 implies url_of(#[trigger] t.skip(1)[j]) is None by {
            assert(t.skip(1)[j] == t[j + 1]);
        }
        lemma_first_url(t.skip(1), i - 1);
    }
}

/// The image of a background is that of its own property, else the first in the shorthand.
pub proof fn law_background_images(m: StyleMap, i: int)
    ensures
        m.contains_key("background-image"@) && url_of(m["background-image"@]) is Some
            ==> background_url(m) == url_of(m["background-image"@]),
        unset(m, "background-image"@) && unset(m, "background"@) ==> background_url(m) is None,
        unset(m, "background-image"@) && m.contains_key("background"@) && 0 <= i < value_tokens(
            m["background"@],
        ).len() && url_of(value_tokens(m["background"@])[i]) is Some && (forall|j: int|
            0 <= j < i ==> url_of(#[trigger] value_tokens(m["background"@])[j]) is None)
            ==> background_url(m) == url_of(value_tokens(m["background"@])[i]),
{
    if m.contains_key("background"@) {
        let t = value_tokens(m["background"@]);
        if 0 <= i < t.len() && url_of(t[i]) is Some && (forall|j: int|
            0 <= j < i ==> url_of(#[trigger] t[j]) is None) {
            lemma_first_url(t, i);
        }
    }
}

/// The mask of a box is the first that is set of its own property, the prefixed one, the
/// shorthand and the prefixed shorthand.
pub proof fn law_masks(m: StyleMap)
    ensures
        m.contains_key("mask-image"@) && url_of(trimmed(m["mask-image"@])) is Some ==> mask_url(m)
            == url_of(trimmed(m["mask-image"@])),
        unset(m, "mask-image"@) && m.contains_key("-webkit-mask-image"@) && url_of(
            trimmed(m["-webkit-mask-image"@]),
        ) is Some ==> mask_url(m) == url_of(trimmed(m["-webkit-mask-image"@])),
        unset(m, "mask-image"@) && unset(m, "-webkit-mask-image"@) && m.contains_key("mask"@)
            && url_of(trimmed(m["mask"@])) is Some ==> mask_url(m) == url_of(trimmed(m["mask"@])),
        unset(m, "mask-image"@) && unset(m, "-webkit-mask-image"@) && unset(m, "mask"@)
            && m.contains_key("-webkit-mask"@) && url_of(trimmed(m["-webkit-mask"@])) is Some
            ==> mask_url(m) == url_of(trimmed(m["-webkit-mask"@])),
        unset(m, "mask-image"@) && unset(m, "-webkit-mask-image"@) && unset(m, "mask"@) && unset(
            m,
            "-webkit-mask"@,
        ) ==> mask_url(m) is None,
{
}

/// The image of an `img` takes its place, and any other image lies behind its box.
pub proof fn law_images_of_elements(e: ElementV)
    ensures
        e.tag == TagV::Html("img"@) ==> (img_url(e.attrs) matches Some(u) ==> image_in(e) == Some(
            (u, true),
        )),
        e.tag != TagV::Html("img"@) ==> (background_url(e.style) matches Some(u) ==> image_in(e)
            == Some((u, false))),
        e.tag != TagV::Html("img"@) && background_url(e.style) is None ==> image_in(e) is None,
{
}

/// A button made by an `input` shows its value; other inputs show none.
pub proof fn law_button_labels(e: ElementV)
    ensures
        e.tag == TagV::Html("input"@) && (attr_of(e.attrs, "type"@) == Some("submit"@) || attr_of(
            e.attrs,
            "type"@,
        ) == Some("button"@) || attr_of(e.attrs, "type"@) == Some("reset"@)) ==> button_label(e)
            == attr_of(e.attrs, "value"@),
        e.tag != TagV::Html("input"@) ==> button_label(e) is None,
        attr_of(e.attrs, "type"@) is None || attr_of(e.attrs, "type"@) == Some("text"@) || attr_of(
            e.attrs,
            "type"@,
        ) == Some("checkbox"@) ==> button_label(e) is None,
{
    reveal_strlit("submit");
    reveal_strlit("button");
    reveal_strlit("reset");
    reveal_strlit("text");
    reveal_strlit("checkbox");
    assert("submit"@.len() == 6);
    assert("button"@.len() == 6);
    assert("reset"@.len() == 5);
    assert("text"@.len() == 4);
    assert("checkbox"@.len() == 8);
    assert("submit"@[0] == 's');
    assert("button"@[0] == 'b');
}

/// Notes, page numbers, counters, leaders and anchors stand in their line; other directives
/// are blocks.
pub proof fn law_inline_directives(k: TKind)
    ensures
        k is Footnote || k is Page || k is Pages || k is Counter || k is Leader || k is Anchor
            <==> is_inline_directive(k),
{
}

// --------------------------------------------------------------------------
// boxes
// --------------------------------------------------------------------------

/// The box of an element has its style, its attributes, its display, its image and its mask,
/// under the next free number.
pub proof fn law_boxes_of_elements(e: ElementV, next: int)
    ensures
        ({
            let b = gen_box(e, next).0;
            &&& b.id == next && b.style == e.style && b.attrs == e.attrs
            &&& e.tag is Html ==> b.display == display_in(e.style) && b.image == image_in(e) && b.mask
                == mask_url(e.style) && !(b.kind is Directive)
            &&& e.tag matches TagV::Directive(k) ==> b.kind == KindV::Directive(k) && b.display
                is Block && b.image is None && b.mask is None
        }),
{
    reveal_with_fuel(gen_kind, 2);
    reveal_with_fuel(gen_box, 2);
}

/// The boxes of a flex, grid or table container are of its kind, and those of any other
/// element flow, in blocks where one of them is a block and else in lines.
pub proof fn law_kinds_of_boxes(e: ElementV, next: int)
    requires
        button_label(e) is None,
    ensures
        display_in(e.style) is Flex <==> gen_kind(e, next).0 is Flex,
        display_in(e.style) is Grid <==> gen_kind(e, next).0 is Grid,
        display_in(e.style) is Table <==> gen_kind(e, next).0 is Table,
        !(display_in(e.style) is Flex) && !(display_in(e.style) is Grid) && !(display_in(
            e.style,
        ) is Table) ==> (gen_kind(e, next).0 is Block <==> has_block(
            gen_levels(e.children, e.style, next, e.children.len()).0,
        )),
{
    reveal_with_fuel(gen_kind, 2);
    reveal_with_fuel(gen_levels, 2);
}

/// Text stands in its line in the style of its parent; a break breaks it; an inline block
/// stands in its line as one; a block does not stand in a line.
pub proof fn law_levels(n: StyledV, parent: StyleMap, next: int)
    ensures
        n matches StyledV::Text(t) ==> gen_level(n, parent, next) == (
            Some(LevelV::Inline(seq![ItemV::Text { id: next, style: parent, text: t }])),
            next + 1,
        ),
        n matches StyledV::Element(e) ==> (e.tag is Html && !hidden(e.style) ==> {
            let l = gen_level(n, parent, next).0;
            &&& l is Some
            &&& e.tag == TagV::Html("br"@) ==> l == Some(LevelV::Inline(seq![ItemV::LineBreak]))
            &&& e.tag != TagV::Html("br"@) && display_in(e.style) is InlineBlock ==> l == Some(
                LevelV::Inline(seq![ItemV::Atomic(gen_box(e, next).0)]),
            )
            &&& e.tag != TagV::Html("br"@) && display_in(e.style) is Inline ==> l == Some(
                LevelV::Inline(inlined(gen_levels(e.children, e.style, next, e.children.len()).0)),
            )
            &&& e.tag != TagV::Html("br"@) && !(display_in(e.style) is Inline) && !(display_in(
                e.style,
            ) is InlineBlock) ==> l == Some(LevelV::Block(gen_box(e, next).0))
        }),
        n matches StyledV::Element(e) ==> (e.tag is Html && hidden(e.style) ==> gen_level(
            n,
            parent,
            next,
        ) == (None::<LevelV>, next)),
        n matches StyledV::Element(e) ==> (e.tag matches TagV::Directive(k) ==> (
        is_inline_directive(k) ==> gen_level(n, parent, next).0 == Some(
            LevelV::Inline(seq![ItemV::Directive { id: next, kind: k }]),
        )) && (!is_inline_directive(k) ==> gen_level(n, parent, next).0 == Some(
            LevelV::Block(gen_box(e, next).0),
        ))),
{
    reveal_with_fuel(gen_level, 2);
    reveal_with_fuel(gen_element, 2);
    reveal_with_fuel(gen_levels, 2);
    reveal_with_fuel(gen_box, 2);
}

/// Levels in a line keep their order: items as they are, and a block as one box.
pub proof fn law_inlining(a: Seq<LevelV>, b: Seq<LevelV>, items: Seq<ItemV>, x: BoxV)
    ensures
        inlined(a + b) == inlined(a) + inlined(b),
        inlined(Seq::empty()).len() == 0,
        inlined(seq![LevelV::Inline(items)]) == items,
        inlined(seq![LevelV::Block(x)]) == seq![ItemV::Atomic(x)],
    decreases b.len(),
{
    assert(seq![LevelV::Inline(items)].drop_last() =~= Seq::empty());
    assert(seq![LevelV::Block(x)].drop_last() =~= Seq::empty());
    assert(inlined(Seq::empty()) =~= Seq::empty());
    assert(Seq::<ItemV>::empty() + items =~= items);
    assert(Seq::<ItemV>::empty().push(ItemV::Atomic(x)) =~= seq![ItemV::Atomic(x)]);
    if b.len() == 0 {
        assert(a + b =~= a);
        assert(inlined(a) + inlined(b) =~= inlined(a));
    } else {
        assert((a + b).drop_last() =~= a + b.drop_last());
        law_inlining(a, b.drop_last(), items, x);
        assert(inlined(a + b) =~= inlined(a) + inlined(b));
    }
}

proof fn lemma_wrap_prefix(a: Seq<LevelV>, b: Seq<LevelV>, p: StyleMap, next: int, k: nat)
    requires
        k <= a.len(),
    ensures
        wrap_fold(a + b, p, next, k) == wrap_fold(a, p, next, k),
    decreases k,
{
    if k > 0 {
        lemma_wrap_prefix(a, b, p, next, (k - 1) as nat);
        assert((a + b)[k - 1] == a[k - 1]);
    }
}

proof fn lemma_wrap_after(a: Seq<LevelV>, x: BoxV, b: Seq<LevelV>, p: StyleMap, next: int, k: nat)
    requires
        k <= b.len(),
    ensures
        ({
            let w = wrapped(a, p, next);
            let after = wrap_fold(b, p, w.next, k);
            let all = wrap_fold(a + (seq![LevelV::Block(x)] + b), p, next, a.len() + 1 + k);
            all.out == w.out.push(x) + after.out && all.run == after.run && all.next == after.next
        }),
    decreases k,
{
    let rest = seq![LevelV::Block(x)] + b;
    let l = a + rest;
    let w = wrapped(a, p, next);
    if k == 0 {
        lemma_wrap_prefix(a, rest, p, next, a.len());
        assert(l[a.len() as int] == LevelV::Block(x));
        let all = wrap_fold(l, p, next, a.len() + 1);
        assert(all.out == w.out.push(x));
        assert(all.out =~= w.out.push(x) + Seq::<BoxV>::empty());
        assert(all.run =~= Seq::<ItemV>::empty());
    } else {
        lemma_wrap_after(a, x, b, p, next, (k - 1) as nat);
        assert(l[(a.len() + k) as int] == b[k - 1]);
        let after = wrap_fold(b, p, w.next, k);
        let all = wrap_fold(l, p, next, a.len() + 1 + k);
        assert(all.out =~= w.out.push(x) + after.out);
    }
}

/// A block parts the lines around it: what stands before it is wrapped by itself, then comes
/// the block, then what stands behind it.
pub proof fn law_blocks_part_lines(a: Seq<LevelV>, x: BoxV, b: Seq<LevelV>, p: StyleMap, next: int)
    ensures
        ({
            let before = wrapped(a, p, next);
            let after = wrapped(b, p, before.next);
            wrapped(a + (seq![LevelV::Block(x)] + b), p, next).out == before.out.push(x) + after.out
        }),
{
    lemma_wrap_after(a, x, b, p, next, b.len());
    let before = wrapped(a, p, next);
    let after = wrapped(b, p, before.next);
    let l = a + (seq![LevelV::Block(x)] + b);
    assert(l.len() == a.len() + 1 + b.len());
    assert(wrapped(l, p, next).out =~= before.out.push(x) + after.out);
}

proof fn lemma_wrap_lines(l: Seq<LevelV>, p: StyleMap, next: int, k: nat)
    requires
        k <= l.len(),
        forall|i: int| 0 <= i < l.len() ==> (#[trigger] l[i]) is Inline,
    ensures
        wrap_fold(l, p, next, k).out.len() == 0,
        wrap_fold(l, p, next, k).run == inlined(l.take(k as int)),
        wrap_fold(l, p, next, k).next == next,
    decreases k,
{
    if k == 0 {
        assert(l.take(0) =~= Seq::empty());
        assert(inlined(Seq::empty()) =~= Seq::empty());
    } else {
        lemma_wrap_lines(l, p, next, (k - 1) as nat);
        assert(l.take(k as int).drop_last() =~= l.take(k - 1));
        assert(l[k - 1] is Inline);
    }
}

/// Lines without a block among them are wrapped in one box, which has the style of their
/// parent and all of their items in order; blank ones leave none.
pub proof fn law_lines_are_wrapped(l: Seq<LevelV>, p: StyleMap, next: int)
    requires
        forall|i: int| 0 <= i < l.len() ==> (#[trigger] l[i]) is Inline,
    ensures
        is_blank_run(inlined(l)) ==> wrapped(l, p, next).out.len() == 0,
        !is_blank_run(inlined(l)) ==> {
            let out = wrapped(l, p, next).out;
            out.len() == 1 && out[0].id == next && out[0].style == p && out[0].attrs.len() == 0
                && out[0].kind == KindV::Lines(inlined(l)) && out[0].display is Block
                && out[0].image is None && out[0].mask is None
        },
{
    lemma_wrap_lines(l, p, next, l.len());
    assert(l.take(l.len() as int) =~= l);
}

/// A line is blank where all of its items are text of blanks only.
pub proof fn law_blank_lines(v: Seq<ItemV>, i: int)
    ensures
        v.len() == 0 ==> is_blank_run(v),
        0 <= i < v.len() && !(v[i] is Text) ==> !is_blank_run(v),
        0 <= i < v.len() && (v[i] matches ItemV::Text { id, style, text } && trimmed(text).len() > 0)
            ==> !is_blank_run(v),
{
    if 0 <= i < v.len() {
        assert(is_blank_run(v) ==> crate::layout::boxtree::is_blank(v[i]));
    }
}

proof fn lemma_kids_prefix(a: Seq<StyledV>, b: Seq<StyledV>, next: int, k: nat)
    requires
        k <= a.len(),
    ensures
        gen_kids(a + b, next, k) == gen_kids(a, next, k),
    decreases k,
{
    reveal_with_fuel(gen_kids, 2);
    if k > 0 {
        lemma_kids_prefix(a, b, next, (k - 1) as nat);
        assert((a + b)[k - 1] == a[k - 1]);
    }
}

/// The items of a container are its elements in order: text among them generates nothing,
/// and neither does what is hidden.
pub proof fn law_container_items(a: Seq<StyledV>, n: StyledV, next: int)
    ensures
        ({
            let before = gen_kids(a, next, a.len());
            let after = gen_kids(a.push(n), next, a.len() + 1);
            &&& n is Text ==> after == before
            &&& n matches StyledV::Element(e) ==> (e.tag is Html && hidden(e.style) ==> after == before)
            &&& n matches StyledV::Element(e) ==> (e.tag is Directive || !hidden(e.style) ==> after.0
                == before.0.push(gen_box(e, before.1).0))
        }),
        gen_kids(Seq::empty(), next, 0).0.len() == 0,
{
    reveal_with_fuel(gen_kids, 2);
    reveal_with_fuel(gen_box, 2);
    assert(a.push(n) =~= a + seq![n]);
    lemma_kids_prefix(a, seq![n], next, a.len());
    assert(a.push(n)[a.len() as int] == n);
}

/// The tree of a document has a plain block of number zero at its root.
pub proof fn law_roots(nodes: Seq<StyledV>)
    ensures
        ({
            let b = gen_tree(nodes).0;
            b.id == 0 && b.style == Map::<Seq<char>, Seq<char>>::empty() && b.attrs.len() == 0
                && b.display is Block && b.image is None && b.mask is None
        }),
{
}

/// The box of an id is one that has it.
pub proof fn law_boxes_by_id(b: BoxV, id: int)
    ensures
        box_of_id(b, id) matches Some(x) ==> x.id == id,
        b.id == id ==> box_of_id(b, id) == Some(b),
    decreases b, 1int, 0nat,
{
    if b.id != id {
        match b.kind {
            KindV::Block(v) => lemma_first_of_id(v, id, 0),
            KindV::Flex(v) => lemma_first_of_id(v, id, 0),
            KindV::Grid(v) => lemma_first_of_id(v, id, 0),
            KindV::Table(v) => lemma_first_of_id(v, id, 0),
            KindV::Lines(v) => lemma_first_in_items(v, id, 0),
            KindV::Directive(_) => {},
        }
    }
}

proof fn lemma_first_of_id(v: Seq<BoxV>, id: int, k: nat)
    ensures
        first_of_id(v, id, k) matches Some(x) ==> x.id == id,
    decreases v, 0int, v.len() - k,
{
    if k < v.len() {
        law_boxes_by_id(v[k as int], id);
        lemma_first_of_id(v, id, k + 1);
    }
}

proof fn lemma_first_in_items(v: Seq<ItemV>, id: int, k: nat)
    ensures
        first_in_items(v, id, k) matches Some(x) ==> x.id == id,
    decreases v, 0int, v.len() - k,
{
    if k < v.len() {
        if let ItemV::Atomic(b) = v[k as int] {
            law_boxes_by_id(b, id);
        }
        lemma_first_in_items(v, id, k + 1);
    }
}

} // verus!
