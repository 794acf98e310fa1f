//! What always holds of documents: markup, templates, tags and embedded images.

use vstd::prelude::*;
use vstd::string::*;

use crate::data_uri::{
    ImageMap, Pending, base64_of, data_uri, feed, feed_all, nothing_pending, sextet_of, with_image,
    with_images,
};
use crate::error::ErrorCode;
use crate::html_layout::{
    CidMap, Found, bounds, dropped, found_among, found_in, greatest4, image_x, image_y, least4,
    own_text, painted_rect, style_text, visible, with_box_cids, with_cids,
};
use crate::layout::boxgen::{attr_of, BoxV, KindV};
use crate::layout::fragment::{ContentV, FragV, Transform2D};
use crate::markup::{
    DomElementV, DomV, all_known, all_known_upto, body_nodes, directive_named, document_of,
    first_element, forest_known, resolved, root_elements, shell, tag_named,
};
use crate::node::{NodeV, TKind, TagV};
use crate::number::{clip, dot, LIMIT};
use crate::readlaws::{law_prefixes_and_suffixes, law_rounding};
use crate::scan::{is_ascii_space, lemma_run_is, lower, occurs, starts};
use crate::template::{
    column, failure_code, kept_source, partials_error, program_error, settings_for, source_error,
    span_for, with_partials, FailureV, MissingPolicy, SettingsV,
};
use crate::page_html::{flow_nodes, page_css};

verus! {

// --------------------------------------------------------------------------
// markup
// --------------------------------------------------------------------------

/// Each directive has its own name.
pub proof fn law_directive_names()
    ensures
        directive_named("page-master"@) == Some(TKind::PageMaster),
        directive_named("region"@) == Some(TKind::Region),
        directive_named("variant"@) == Some(TKind::Variant),
        directive_named("use-master"@) == Some(TKind::UseMaster),
        directive_named("running-header"@) == Some(TKind::RunningHeader),
        directive_named("running-footer"@) == Some(TKind::RunningFooter),
        directive_named("footnote"@) == Some(TKind::Footnote),
        directive_named("footnote-separator"@) == Some(TKind::FootnoteSeparator),
        directive_named("endnote"@) == Some(TKind::Endnote),
        directive_named("endnotes"@) == Some(TKind::Endnotes),
        directive_named("page"@) == Some(TKind::Page),
        directive_named("pages"@) == Some(TKind::Pages),
        directive_named("counter"@) == Some(TKind::Counter),
        directive_named("anchor"@) == Some(TKind::Anchor),
        directive_named("leader"@) == Some(TKind::Leader),
{
    reveal_strlit("page-master");
    reveal_strlit("region");
    reveal_strlit("variant");
    reveal_strlit("use-master");
    reveal_strlit("running-header");
    reveal_strlit("running-footer");
    reveal_strlit("footnote");
    reveal_strlit("footnote-separator");
    reveal_strlit("endnote");
    reveal_strlit("endnotes");
    reveal_strlit("page");
    reveal_strlit("pages");
    reveal_strlit("counter");
    reveal_strlit("anchor");
    reveal_strlit("leader");
    assert("page-master"@.len() == 11);
    assert("region"@.len() == 6);
    assert("variant"@.len() == 7);
    assert("use-master"@.len() == 10);
    assert("running-header"@.len() == 14);
    assert("running-footer"@.len() == 14);
    assert("footnote"@.len() == 8);
    assert("footnote-separator"@.len() == 18);
    assert("endnote"@.len() == 7);
    assert("endnotes"@.len() == 8);
    assert("page"@.len() == 4);
    assert("pages"@.len() == 5);
    assert("counter"@.len() == 7);
    assert("anchor"@.len() == 6);
    assert("leader"@.len() == 6);
    assert("region"@[0] == 'r');
    assert("anchor"@[0] == 'a');
    assert("leader"@[0] == 'l');
    assert("variant"@[0] == 'v');
    assert("endnote"@[0] == 'e');
    assert("counter"@[0] == 'c');
    assert("running-header"@[8] == 'h');
    assert("running-footer"@[8] == 'f');
    assert("footnote"@[0] == 'f');
    assert("endnotes"@[0] == 'e');
}

/// A name behind `t:` is that of a directive, or of nothing; every other name is that of
/// an element.
pub proof fn law_tags(n: Seq<char>)
    ensures
        directive_named(n) matches Some(k) ==> tag_named("t:"@ + n) == Some(TagV::Directive(k)),
        directive_named(n) is None ==> tag_named("t:"@ + n) is None,
        n.len() < 2 || n[0] != 't' || n[1] != ':' ==> tag_named(n) == Some(TagV::Html(n)),
{
    law_prefixes_and_suffixes("t:"@ + n, "t:"@, n);
    reveal_strlit("t:");
    assert("t:"@.len() == 2 && "t:"@[0] == 't' && "t:"@[1] == ':');
    if starts(n, "t:"@) {
        assert(n.subrange(0, 2)[0] == n[0] && n.subrange(0, 2)[1] == n[1]);
    }
}

proof fn lemma_resolved_prefix(a: Seq<DomV>, b: Seq<DomV>, k: nat)
    requires
        k <= a.len(),
    ensures
        resolved(a + b, k) == resolved(a, k),
        all_known_upto(a + b, k) == all_known_upto(a, k),
    decreases k,
{
    if k > 0 {
        lemma_resolved_prefix(a, b, (k - 1) as nat);
        assert((a + b)[k - 1] == a[k - 1]);
    }
}

proof fn lemma_resolved_joined(a: Seq<DomV>, b: Seq<DomV>, k: nat)
    requires
        k <= b.len(),
    ensures
        resolved(a + b, a.len() + k) == resolved(a, a.len()) + resolved(b, k),
        all_known_upto(a + b, a.len() + k) == (all_known_upto(a, a.len()) && all_known_upto(b, k)),
    decreases k,
{
    if k == 0 {
        lemma_resolved_prefix(a, b, a.len());
        assert(resolved(a, a.len()) + resolved(b, 0) =~= resolved(a, a.len()));
    } else {
        lemma_resolved_joined(a, b, (k - 1) as nat);
        assert((a + b)[a.len() + k - 1] == b[k - 1]);
        assert(resolved(a + b, a.len() + k) =~= resolved(a, a.len()) + resolved(b, k));
    }
}

/// Nodes are resolved one by one and keep their order: text stays, an element keeps its
/// attributes and its resolved children under its tag, and what is neither is left out.
pub proof fn law_resolving(a: Seq<DomV>, b: Seq<DomV>, t: Seq<char>, e: DomElementV)
    ensures
        resolved(a + b, (a + b).len()) == resolved(a, a.len()) + resolved(b, b.len()),
        resolved(Seq::empty(), 0).len() == 0,
        resolved(seq![DomV::Text(t)], 1) == seq![NodeV::Text(t)],
        resolved(seq![DomV::Other], 1).len() == 0,
        resolved(seq![DomV::Element(e)], 1) == seq![
            NodeV::Element {
                tag: tag_named(e.name)->0,
                attrs: e.attrs,
                children: resolved(e.children, e.children.len()),
            },
        ],
{
    lemma_resolved_joined(a, b, b.len());
    let none = Seq::<NodeV>::empty();
    assert(resolved(seq![DomV::Text(t)], 0) == none);
    assert(resolved(seq![DomV::Other], 0) == none);
    assert(resolved(seq![DomV::Element(e)], 0) == none);
    assert(none.push(NodeV::Text(t)) =~= seq![NodeV::Text(t)]);
    let n = NodeV::Element {
        tag: tag_named(e.name)->0,
        attrs: e.attrs,
        children: resolved(e.children, e.children.len()),
    };
    assert(none.push(n) =~= seq![n]);
}

/// A document is known where every element in it is, at any depth.
pub proof fn law_known_documents(a: Seq<DomV>, b: Seq<DomV>, t: Seq<char>, e: DomElementV)
    ensures
        forest_known(a + b) <==> forest_known(a) && forest_known(b),
        forest_known(seq![DomV::Text(t)]),
        forest_known(seq![DomV::Other]),
        forest_known(seq![DomV::Element(e)]) <==> tag_named(e.name) is Some && forest_known(
            e.children,
        ),
{
    lemma_resolved_joined(a, b, b.len());
    assert(all_known_upto(seq![DomV::Text(t)], 0));
    assert(all_known_upto(seq![DomV::Other], 0));
    assert(all_known_upto(seq![DomV::Element(e)], 0));
    assert(seq![DomV::Text(t)][0] == DomV::Text(t));
    assert(all_known(DomV::Text(t)));
    assert(all_known(DomV::Other));
    assert(all_known_upto(seq![DomV::Text(t)], 1));
    assert(all_known_upto(seq![DomV::Other], 1));
    assert(seq![DomV::Element(e)][0] == DomV::Element(e));
    assert(all_known(DomV::Element(e)) <==> tag_named(e.name) is Some && all_known_upto(
        e.children,
        e.children.len(),
    ));
    assert(all_known_upto(seq![DomV::Element(e)], 1) <==> all_known(DomV::Element(e)));
}

/// The first element of a name is the first that has it.
pub proof fn law_first_element(v: Seq<DomV>, i: int, e: DomElementV)
    requires
        0 <= i < v.len(),
        v[i] == DomV::Element(e),
        forall|j: int|
            0 <= j < i ==> (#[trigger] v[j] matches DomV::Element(x) ==> x.name != e.name),
    ensures
        first_element(v, e.name) == Some(e),
    decreases v.len(),
{
    if i > 0 {
        assert(v[0] matches DomV::Element(x) ==> x.name != e.name);
        assert(v.skip(1)[i - 1] == v[i]);
        assert forall|j: int| 0 <= j < i - 1 implies (#[trigger] v.skip(1)[j] matches DomV::Element(
            x,
        ) ==> x.name != e.name) by {
            assert(v.skip(1)[j] == v[j + 1]);
        }
        law_first_element(v.skip(1), i - 1, e);
    }
}

/// The flow of a document is what stands in the body of its root; without either there is
/// none.
pub proof fn law_bodies(doc: Seq<DomV>, h: DomElementV, b: DomElementV)
    ensures
        first_element(doc, "html"@) == Some(h) && first_element(h.children, "body"@) == Some(b)
            ==> body_nodes(doc) == b.children && root_elements(doc) == seq![h, b],
        first_element(doc, "html"@) is None ==> body_nodes(doc).len() == 0 && root_elements(doc).len()
            == 0,
        first_element(doc, "html"@) == Some(h) && first_element(h.children, "body"@) is None
            ==> body_nodes(doc).len() == 0 && root_elements(doc) == seq![h],
{
}

// --------------------------------------------------------------------------
// templates
// --------------------------------------------------------------------------

/// What a failure is called: by its kind, and where it has none of these by whether it, or
/// what stands behind it, speaks of recursion.
pub proof fn law_failure_codes(f: FailureV)
    ensures
        f.kind is Syntax ==> failure_code(f) == ErrorCode::TemplateSyntax,
        f.kind is Undefined ==> failure_code(f) == ErrorCode::UndefinedValue,
        f.kind is UnknownFilter || f.kind is UnknownFunction || f.kind is UnknownMethod
            || f.kind is UnknownTest ==> failure_code(f) == ErrorCode::UnknownFilter,
        f.kind is Other && occurs(f.message, "recursion"@) ==> failure_code(f)
            == ErrorCode::IncludeDepthExceeded,
        f.kind is Other && (exists|i: int|
            0 <= i < f.causes.len() && #[trigger] occurs(f.causes[i], "recursion"@)) ==> failure_code(
            f,
        ) == ErrorCode::IncludeDepthExceeded,
        f.kind is Other && !occurs(f.message, "recursion"@) && (forall|i: int|
            0 <= i < f.causes.len() ==> !(#[trigger] occurs(f.causes[i], "recursion"@)))
            ==> failure_code(f) == ErrorCode::Render,
{
}

/// A failure stands in its line, or in none where that is not known, and keeps its range.
pub proof fn law_failure_places(line: usize, range: Option<(usize, usize)>)
    ensures
        line <= u32::MAX ==> span_for(Some(line), range).line == line,
        span_for(None, range).line == 0,
        span_for(Some(line), range).range == range,
        span_for(None, range).range == range,
{
}

/// Templates are rendered as asked: values that are missing as the policy says, includes
/// nested as deep as asked but never deeper than 500, whitespace around blocks cut and
/// text escaped for markup.
pub proof fn law_settings(policy: MissingPolicy, depth: nat)
    ensures
        settings_for(policy, depth).missing == Some(policy),
        depth <= 500 ==> settings_for(policy, depth).recursion_limit == depth,
        depth > 500 ==> settings_for(policy, depth).recursion_limit == 500,
        settings_for(policy, depth).trim_blocks && settings_for(policy, depth).lstrip_blocks,
        !settings_for(policy, depth).keep_trailing_newline,
        settings_for(policy, depth).html_escape,
{
}

proof fn lemma_partials_at(
    m: Map<Seq<char>, Seq<char>>,
    v: Seq<(String, String)>,
    k: nat,
    i: int,
)
    requires
        0 <= i < k <= v.len(),
        forall|j: int| i < j < k ==> (#[trigger] v[j]).0@ != v[i].0@,
    ensures
        with_partials(m, v, k).contains_key(v[i].0@),
        with_partials(m, v, k)[v[i].0@] == kept_source(v[i].1@),
    decreases k,
{
    if i < k - 1 {
        assert(v[k - 1].0@ != v[i].0@);
        lemma_partials_at(m, v, (k - 1) as nat, i);
    }
}

/// A partial is kept under its name, the last where there are several of it.
pub proof fn law_partials_are_kept(m: Map<Seq<char>, Seq<char>>, v: Seq<(String, String)>, i: int)
    requires
        0 <= i < v.len(),
        forall|j: int| i < j < v.len() ==> (#[trigger] v[j]).0@ != v[i].0@,
    ensures
        with_partials(m, v, v.len()).contains_key(v[i].0@),
        with_partials(m, v, v.len())[v[i].0@] == kept_source(v[i].1@),
{
    lemma_partials_at(m, v, v.len(), i);
}

/// Templates that no partial is named like stay.
pub proof fn law_other_templates_stay(
    m: Map<Seq<char>, Seq<char>>,
    v: Seq<(String, String)>,
    k: nat,
    n: Seq<char>,
)
    requires
        k <= v.len(),
        m.contains_key(n),
        forall|j: int| 0 <= j < v.len() ==> (#[trigger] v[j]).0@ != n,
    ensures
        with_partials(m, v, k).contains_key(n),
        with_partials(m, v, k)[n] == m[n],
    decreases k,
{
    if k > 0 {
        law_other_templates_stay(m, v, (k - 1) as nat, n);
        assert(v[k - 1].0@ != n);
    }
}

proof fn lemma_first_error(s: SettingsV, v: Seq<(String, String)>, i: int)
    requires
        0 <= i < v.len(),
        source_error(s, v[i].0@, v[i].1@) is Some,
        forall|j: int| 0 <= j < i ==> source_error(s, (#[trigger] v[j]).0@, v[j].1@) is None,
    ensures
        partials_error(s, v) == source_error(s, v[i].0@, v[i].1@),
    decreases v.len(),
{
    if i > 0 {
        assert(source_error(s, v[0].0@, v[0].1@) is None);
        assert(v.skip(1)[i - 1] == v[i]);
        assert forall|j: int| 0 <= j < i - 1 implies source_error(
            s,
            (#[trigger] v.skip(1)[j]).0@,
            v.skip(1)[j].1@,
        ) is None by {
            assert(v.skip(1)[j] == v[j + 1]);
        }
        lemma_first_error(s, v.skip(1), i - 1);
    }
}

/// The error of a program is that of the first of its partials that has one.
pub proof fn law_first_bad_partial(s: SettingsV, t: Seq<char>, v: Seq<(String, String)>, i: int)
    requires
        0 <= i < v.len(),
        source_error(s, v[i].0@, v[i].1@) is Some,
        forall|j: int| 0 <= j < i ==> source_error(s, (#[trigger] v[j]).0@, v[j].1@) is None,
    ensures
        program_error(s, t, v) == source_error(s, v[i].0@, v[i].1@),
{
    lemma_first_error(s, v, i);
}

/// Where no partial has one, it is that of the template.
pub proof fn law_template_error(s: SettingsV, t: Seq<char>, v: Seq<(String, String)>)
    requires
        forall|j: int| 0 <= j < v.len() ==> source_error(s, (#[trigger] v[j]).0@, v[j].1@) is None,
    ensures
        program_error(s, t, v) == source_error(s, "__main__"@, t),
    decreases v.len(),
{
    if v.len() > 0 {
        assert(source_error(s, v[0].0@, v[0].1@) is None);
        assert forall|j: int| 0 <= j < v.skip(1).len() implies source_error(
            s,
            (#[trigger] v.skip(1)[j]).0@,
            v.skip(1)[j].1@,
        ) is None by {
            assert(v.skip(1)[j] == v[j + 1]);
        }
        law_template_error(s, t, v.skip(1));
    }
}

/// A column counts from the last line break before it.
pub proof fn law_columns(s: Seq<char>, k: int)
    requires
        0 <= k <= s.len(),
    ensures
        0 <= column(s, k) <= k,
        forall|j: int| k - column(s, k) <= j < k ==> #[trigger] s[j] != '\n',
        column(s, k) < k ==> s[k - column(s, k) - 1] == '\n',
    decreases k,
{
    if k > 0 && s[k - 1] != '\n' {
        law_columns(s, k - 1);
    }
}

// --------------------------------------------------------------------------
// page content
// --------------------------------------------------------------------------

/// Styles, scripts and what stands in the head are no page content, however they are
/// spelled; what is not named like these is, and so is every directive.
pub proof fn law_content_elements(n: Seq<char>, k: TKind)
    ensures
        lower(n) == "style"@ ==> dropped(TagV::Html(n)),
        lower(n) == "script"@ ==> dropped(TagV::Html(n)),
        lower(n) == "head"@ ==> dropped(TagV::Html(n)),
        lower(n) == "title"@ ==> dropped(TagV::Html(n)),
        lower(n) == "meta"@ ==> dropped(TagV::Html(n)),
        lower(n) == "link"@ ==> dropped(TagV::Html(n)),
        lower(n) == "noscript"@ ==> dropped(TagV::Html(n)),
        lower(n) == "template"@ ==> dropped(TagV::Html(n)),
        lower(n) != "style"@ && lower(n) != "script"@ && lower(n) != "head"@ && lower(n) != "title"@ && lower(n) != "meta"@ && lower(n) != "link"@ && lower(n) != "noscript"@ && lower(n) != "template"@ ==> !dropped(TagV::Html(n)),
        !dropped(TagV::Directive(k)),
{
}

proof fn lemma_visible_prefix(a: Seq<NodeV>, b: Seq<NodeV>, k: nat)
    requires
        k <= a.len(),
    ensures
        visible(a + b, k) == visible(a, k),
        style_text(a + b, k) == style_text(a, k),
        own_text(a + b, k) == own_text(a, k),
    decreases k,
{
    if k > 0 {
        lemma_visible_prefix(a, b, (k - 1) as nat);
        assert((a + b)[k - 1] == a[k - 1]);
    }
}

proof fn lemma_visible_joined(a: Seq<NodeV>, b: Seq<NodeV>, k: nat)
    requires
        k <= b.len(),
    ensures
        visible(a + b, a.len() + k) == visible(a, a.len()) + visible(b, k),
        style_text(a + b, a.len() + k) == style_text(a, a.len()) + style_text(b, k),
        own_text(a + b, a.len() + k) == own_text(a, a.len()) + own_text(b, k),
    decreases k,
{
    if k == 0 {
        lemma_visible_prefix(a, b, a.len());
        assert(visible(a, a.len()) + visible(b, 0) =~= visible(a, a.len()));
        assert(style_text(a, a.len()) + style_text(b, 0) =~= style_text(a, a.len()));
        assert(own_text(a, a.len()) + own_text(b, 0) =~= own_text(a, a.len()));
    } else {
        lemma_visible_joined(a, b, (k - 1) as nat);
        assert((a + b)[a.len() + k - 1] == b[k - 1]);
        assert(visible(a + b, a.len() + k) =~= visible(a, a.len()) + visible(b, k));
        assert(style_text(a + b, a.len() + k) =~= style_text(a, a.len()) + style_text(b, k));
        assert(own_text(a + b, a.len() + k) =~= own_text(a, a.len()) + own_text(b, k));
    }
}

/// What is no page content goes with all that is in it; all else stays in its order, text
/// as it is and elements with their attributes.
pub proof fn law_stripping(
    a: Seq<NodeV>,
    b: Seq<NodeV>,
    t: Seq<char>,
    tag: TagV,
    attrs: Seq<(Seq<char>, Seq<char>)>,
    kids: Seq<NodeV>,
)
    ensures
        visible(a + b, (a + b).len()) == visible(a, a.len()) + visible(b, b.len()),
        visible(seq![NodeV::Text(t)], 1) == seq![NodeV::Text(t)],
        ({
            let n = NodeV::Element { tag, attrs, children: kids };
            &&& dropped(tag) ==> visible(seq![n], 1).len() == 0
            &&& !dropped(tag) ==> visible(seq![n], 1) == seq![
                NodeV::Element { tag, attrs, children: visible(kids, kids.len()) },
            ]
        }),
{
    lemma_visible_joined(a, b, b.len());
    let none = Seq::<NodeV>::empty();
    let n = NodeV::Element { tag, attrs, children: kids };
    assert(visible(seq![NodeV::Text(t)], 0) == none);
    assert(visible(seq![n], 0) == none);
    assert(none.push(NodeV::Text(t)) =~= seq![NodeV::Text(t)]);
    let m = NodeV::Element { tag, attrs, children: visible(kids, kids.len()) };
    assert(none.push(m) =~= seq![m]);
}

/// The sheets of a document are the texts of its `style` elements, in document order,
/// wherever they stand.
pub proof fn law_style_texts(
    a: Seq<NodeV>,
    b: Seq<NodeV>,
    t: Seq<char>,
    tag: TagV,
    attrs: Seq<(Seq<char>, Seq<char>)>,
    kids: Seq<NodeV>,
)
    ensures
        style_text(a + b, (a + b).len()) == style_text(a, a.len()) + style_text(b, b.len()),
        style_text(seq![NodeV::Text(t)], 1).len() == 0,
        style_text(
            seq![
                NodeV::Element { tag: TagV::Html("style"@), attrs, children: seq![NodeV::Text(t)] },
            ],
            1,
        ) == t.push('\n'),
        tag != TagV::Html("style"@) ==> style_text(
            seq![NodeV::Element { tag, attrs, children: kids }],
            1,
        ) == style_text(kids, kids.len()),
{
    lemma_visible_joined(a, b, b.len());
    let none = Seq::<char>::empty();
    let one = seq![NodeV::Text(t)];
    assert(style_text(one, 0) == none);
    assert(style_text(one, 1) == none);
    assert(own_text(one, 0) == none);
    assert(own_text(one, 1) =~= t.push('\n'));
    let s = NodeV::Element { tag: TagV::Html("style"@), attrs, children: one };
    assert(style_text(seq![s], 0) == none);
    assert(style_text(seq![s], 1) =~= t.push('\n'));
    let n = NodeV::Element { tag, attrs, children: kids };
    assert(style_text(seq![n], 0) == none);
    if tag != TagV::Html("style"@) {
        assert(style_text(seq![n], 1) =~= style_text(kids, kids.len()));
    }
}

// --------------------------------------------------------------------------
// tagged boxes
// --------------------------------------------------------------------------

/// A box without children of its own is tagged by its `data-cid`, and by nothing else.
pub proof fn law_tagged_boxes(m: CidMap, b: BoxV, id: u32)
    requires
        b.kind is Directive,
    ensures
        attr_of(b.attrs, "data-cid"@) matches Some(c) ==> with_cids(m, b) == m.insert(b.id as u32, c),
        attr_of(b.attrs, "data-cid"@) is None ==> with_cids(m, b) == m,
{
}

proof fn lemma_found_extends(w: Found, f: FragV, cids: CidMap)
    ensures
        found_in(w, f, cids).out.len() >= w.out.len(),
        found_in(w, f, cids).out.take(w.out.len() as int) == w.out,
    decreases f, 1int, 0nat,
{
    let own = if cids.contains_key(f.id) && !w.seen.contains(f.id) {
        Found { seen: w.seen.push(f.id), out: w.out.push((cids[f.id], painted_rect(f))) }
    } else {
        w
    };
    lemma_found_among_extends(own, f.children, cids, f.children.len());
    let r = found_in(w, f, cids).out;
    assert(own.out.take(w.out.len() as int) =~= w.out);
    assert(r.take(own.out.len() as int).take(w.out.len() as int) =~= r.take(w.out.len() as int));
}

proof fn lemma_found_among_extends(w: Found, v: Seq<FragV>, cids: CidMap, k: nat)
    requires
        k <= v.len(),
    ensures
        found_among(w, v, cids, k).out.len() >= w.out.len(),
        found_among(w, v, cids, k).out.take(w.out.len() as int) == w.out,
    decreases v, 0int, k,
{
    if k == 0 {
        assert(w.out.take(w.out.len() as int) =~= w.out);
    } else {
        lemma_found_among_extends(w, v, cids, (k - 1) as nat);
        let mid = found_among(w, v, cids, (k - 1) as nat);
        lemma_found_extends(mid, v[k - 1], cids);
        let r = found_among(w, v, cids, k).out;
        assert(r.take(mid.out.len() as int).take(w.out.len() as int) =~= r.take(
            w.out.len() as int,
        ));
    }
}

/// A tagged fragment that was not seen before adds its tag and the rectangle that it is
/// painted in, ahead of what its children add; what was found stays.
pub proof fn law_tagged_fragments_are_found(w: Found, f: FragV, cids: CidMap)
    ensures
        found_in(w, f, cids).out.take(w.out.len() as int) == w.out,
        cids.contains_key(f.id) && !w.seen.contains(f.id) ==> found_in(w, f, cids).out.len()
            > w.out.len() && found_in(w, f, cids).out[w.out.len() as int] == (
            cids[f.id],
            painted_rect(f),
        ),
        (!cids.contains_key(f.id) || w.seen.contains(f.id)) && f.children.len() == 0 ==> found_in(
            w,
            f,
            cids,
        ) == w,
{
    lemma_found_extends(w, f, cids);
    if cids.contains_key(f.id) && !w.seen.contains(f.id) {
        let own = Found {
            seen: w.seen.push(f.id),
            out: w.out.push((cids[f.id], painted_rect(f))),
        };
        lemma_found_among_extends(own, f.children, cids, f.children.len());
        let r = found_in(w, f, cids).out;
        assert(r.take(own.out.len() as int)[w.out.len() as int] == own.out[w.out.len() as int]);
    }
}

/// A fragment without a transform is painted where it stands.
pub proof fn law_plain_fragments_keep_their_place(f: FragV)
    requires
        f.content matches ContentV::Box(p) ==> p.transform is None,
        -LIMIT <= f.x <= LIMIT && -LIMIT <= f.y <= LIMIT,
        -LIMIT <= f.width <= LIMIT && -LIMIT <= f.height <= LIMIT,
    ensures
        painted_rect(f).x == f.x && painted_rect(f).y == f.y,
        painted_rect(f).width == f.width && painted_rect(f).height == f.height,
{
}

pub open spec fn within(x: int) -> bool {
    -10_000_000_000_000 <= x <= 10_000_000_000_000
}

/// The rectangle of a transformed box is the least upright one around its four corners:
/// each of them lies in it, and each of its sides goes through one.
pub proof fn law_transformed_bounds(x: int, y: int, w: int, h: int, t: Transform2D)
    requires
        within(x) && within(y),
        within(image_x(t, 0, 0)) && within(image_x(t, w, 0)) && within(image_x(t, 0, h)) && within(
            image_x(t, w, h),
        ),
        within(image_y(t, 0, 0)) && within(image_y(t, w, 0)) && within(image_y(t, 0, h)) && within(
            image_y(t, w, h),
        ),
    ensures
        ({
            let r = bounds(x, y, w, h, t);
            let (ax, bx, cx, dx) = (
                x + image_x(t, 0, 0),
                x + image_x(t, w, 0),
                x + image_x(t, 0, h),
                x + image_x(t, w, h),
            );
            let (ay, by, cy, dy) = (
                y + image_y(t, 0, 0),
                y + image_y(t, w, 0),
                y + image_y(t, 0, h),
                y + image_y(t, w, h),
            );
            &&& r.x <= ax <= r.x + r.width && r.x <= bx <= r.x + r.width
            &&& r.x <= cx <= r.x + r.width && r.x <= dx <= r.x + r.width
            &&& r.y <= ay <= r.y + r.height && r.y <= by <= r.y + r.height
            &&& r.y <= cy <= r.y + r.height && r.y <= dy <= r.y + r.height
            &&& r.x == ax || r.x == bx || r.x == cx || r.x == dx
            &&& r.y == ay || r.y == by || r.y == cy || r.y == dy
            &&& r.x + r.width == ax || r.x + r.width == bx || r.x + r.width == cx || r.x + r.width
                == dx
            &&& r.y + r.height == ay || r.y + r.height == by || r.y + r.height == cy || r.y
                + r.height == dy
        }),
{
    lemma_span_of(x, image_x(t, 0, 0), image_x(t, w, 0), image_x(t, 0, h), image_x(t, w, h));
    lemma_span_of(y, image_y(t, 0, 0), image_y(t, w, 0), image_y(t, 0, h), image_y(t, w, h));
}

proof fn lemma_span_of(x: int, a: int, b: int, c: int, d: int)
    requires
        within(x) && within(a) && within(b) && within(c) && within(d),
    ensures
        ({
            let at = clip(x + least4(a, b, c, d));
            let end = at + clip(greatest4(a, b, c, d) - least4(a, b, c, d));
            &&& -LIMIT <= at <= LIMIT && -LIMIT <= end - at <= LIMIT
            &&& at <= x + a <= end && at <= x + b <= end && at <= x + c <= end && at <= x + d <= end
            &&& at == x + a || at == x + b || at == x + c || at == x + d
            &&& end == x + a || end == x + b || end == x + c || end == x + d
        }),
{
}

/// A transform turns about its origin: the origin itself goes only as far as the
/// translation, and where nothing is turned every point does.
pub proof fn law_transforms_turn_about_their_origin(t: Transform2D, px: int, py: int)
    requires
        within(t.origin_x as int) && within(t.origin_y as int) && within(t.e as int) && within(
            t.f as int,
        ),
        0 <= px <= 1_000_000_000_000 && 0 <= py <= 1_000_000_000_000,
        0 <= t.origin_x <= 1_000_000_000_000 && 0 <= t.origin_y <= 1_000_000_000_000,
    ensures
        px == t.origin_x && py == t.origin_y ==> image_x(t, px, py) == px + t.e && image_y(t, px, py)
            == py + t.f,
        t.linear.a == 1_000_000 && t.linear.b == 0 && t.linear.c == 0 && t.linear.d == 1_000_000
            ==> image_x(t, px, py) == px + t.e && image_y(t, px, py) == py + t.f,
{
    let u = px - t.origin_x;
    let v = py - t.origin_y;
    assert(clip(u) == u && clip(v) == v);
    law_rounding(0, 1_000_000);
    law_rounding(u * 1_000_000, 1_000_000);
    law_rounding(v * 1_000_000, 1_000_000);
    if px == t.origin_x && py == t.origin_y {
        lemma_dot_nothing(t.linear.a as int, t.linear.c as int);
        lemma_dot_nothing(t.linear.b as int, t.linear.d as int);
    }
    if t.linear.a == 1_000_000 && t.linear.b == 0 && t.linear.c == 0 && t.linear.d == 1_000_000 {
        lemma_dot_unit(u, v);
    }
}

proof fn lemma_dot_nothing(a: int, c: int)
    ensures
        dot(a, 0, c, 0) == 0,
{
    assert(clip(0) == 0);
    assert(clip(a) * 0 + clip(c) * 0 == 0);
    law_rounding(0, 1_000_000);
}

proof fn lemma_dot_unit(u: int, v: int)
    requires
        -1_000_000_000_000 <= u <= 1_000_000_000_000,
        -1_000_000_000_000 <= v <= 1_000_000_000_000,
    ensures
        dot(1_000_000, u, 0, v) == u,
        dot(0, u, 1_000_000, v) == v,
{
    assert(clip(1_000_000) == 1_000_000 && clip(0) == 0 && clip(u) == u && clip(v) == v);
    assert(clip(1_000_000) * clip(u) == u * 1_000_000) by (nonlinear_arith)
        requires
            clip(1_000_000) == 1_000_000,
            clip(u) == u,
    ;
    assert(clip(1_000_000) * clip(v) == v * 1_000_000) by (nonlinear_arith)
        requires
            clip(1_000_000) == 1_000_000,
            clip(v) == v,
    ;
    assert(clip(0) * clip(v) == 0 && clip(0) * clip(u) == 0) by (nonlinear_arith)
        requires
            clip(0) == 0,
    ;
    law_rounding(u * 1_000_000, 1_000_000);
    law_rounding(v * 1_000_000, 1_000_000);
}

// --------------------------------------------------------------------------
// embedded images
// --------------------------------------------------------------------------

/// The alphabet counts capitals, then small letters, then digits, then the plus and the
/// slash.
pub proof fn law_alphabet(c: char)
    ensures
        'A' <= c <= 'Z' ==> (sextet_of(c) matches Some(s) && s + 65 == c as u32),
        'a' <= c <= 'z' ==> (sextet_of(c) matches Some(s) && s + 71 == c as u32),
        '0' <= c <= '9' ==> (sextet_of(c) matches Some(s) && s == c as u32 + 4),
        sextet_of('+') == Some(62nat),
        sextet_of('/') == Some(63nat),
        sextet_of(c) matches Some(s) ==> s < 64,
        c == '-' || c == '_' || c == '=' || c == ' ' ==> sextet_of(c) is None,
{
}

/// Padding and whitespace say nothing, and what is outside the alphabet makes the whole
/// unreadable.
pub proof fn law_base64_text(p: Pending, c: char, s: Seq<char>)
    ensures
        c == '=' || is_ascii_space(c) ==> feed_all(p, seq![c] + s) == feed_all(p, s),
        c != '=' && !is_ascii_space(c) && sextet_of(c) is None ==> feed_all(p, seq![c] + s) is None,
{
    assert((seq![c] + s)[0] == c);
    assert((seq![c] + s).skip(1) =~= s);
}

/// The bytes of a `data:` source are those behind its first comma, where what stands before
/// it says that they are in base64; another source has none.
pub proof fn law_data_uris(meta: Seq<char>, payload: Seq<char>)
    requires
        !meta.contains(','),
    ensures
        occurs(meta, ";base64"@) ==> data_uri("data:"@ + (meta + seq![','] + payload)) == base64_of(
            payload,
        ),
        !occurs(meta, ";base64"@) ==> data_uri("data:"@ + (meta + seq![','] + payload)) is None,
        data_uri("data:"@ + meta) is None,
{
    let rest = meta + seq![','] + payload;
    law_prefixes_and_suffixes("data:"@ + rest, "data:"@, rest);
    law_prefixes_and_suffixes("data:"@ + meta, "data:"@, meta);
    assert forall|j: int| 0 <= j < meta.len() implies meta[j] != ',' && rest[j] != ',' by {
        assert(meta.contains(meta[j]));
        assert(rest[j] == meta[j]);
    }
    assert(rest[meta.len() as int] == ',');
    lemma_run_is(rest, ',', ',', meta.len() as int);
    lemma_run_is(meta, ',', ',', meta.len() as int);
    assert(rest.take(meta.len() as int) =~= meta);
    assert(rest.skip(meta.len() as int + 1) =~= payload);
}

/// An `img` with a readable `data:` source adds it under that source; every other element
/// adds nothing, and what is there stays.
pub proof fn law_embedded_images(
    m: ImageMap,
    tag: TagV,
    attrs: Seq<(Seq<char>, Seq<char>)>,
    src: Seq<char>,
    bytes: Seq<u8>,
    other: Seq<char>,
)
    requires
        attr_of(attrs, "src"@) == Some("data:"@ + src),
        data_uri("data:"@ + src) == Some(bytes),
    ensures
        tag == TagV::Html("img"@) ==> with_image(m, tag, attrs).contains_key("data:"@ + src),
        tag == TagV::Html("img"@) && !m.contains_key("data:"@ + src) ==> with_image(
            m,
            tag,
            attrs,
        )["data:"@ + src] == bytes,
        tag != TagV::Html("img"@) ==> with_image(m, tag, attrs) == m,
        m.contains_key(other) ==> with_image(m, tag, attrs).contains_key(other) && with_image(
            m,
            tag,
            attrs,
        )[other] == m[other],
{
    law_prefixes_and_suffixes("data:"@ + src, "data:"@, src);
}

proof fn lemma_images_prefix(m: ImageMap, a: Seq<NodeV>, b: Seq<NodeV>, k: nat)
    requires
        k <= a.len(),
    ensures
        with_images(m, a + b, k) == with_images(m, a, k),
    decreases k,
{
    if k > 0 {
        lemma_images_prefix(m, a, b, (k - 1) as nat);
        assert((a + b)[k - 1] == a[k - 1]);
    }
}

proof fn lemma_images_joined(m: ImageMap, a: Seq<NodeV>, b: Seq<NodeV>, k: nat)
    requires
        k <= b.len(),
    ensures
        with_images(m, a + b, a.len() + k) == with_images(with_images(m, a, a.len()), b, k),
    decreases k,
{
    if k == 0 {
        lemma_images_prefix(m, a, b, a.len());
    } else {
        lemma_images_joined(m, a, b, (k - 1) as nat);
        assert((a + b)[a.len() + k - 1] == b[k - 1]);
    }
}

/// Images are collected in document order, from every element and from all that is in it.
pub proof fn law_images_are_collected(
    m: ImageMap,
    a: Seq<NodeV>,
    b: Seq<NodeV>,
    t: Seq<char>,
    tag: TagV,
    attrs: Seq<(Seq<char>, Seq<char>)>,
    kids: Seq<NodeV>,
)
    ensures
        with_images(m, a + b, (a + b).len()) == with_images(with_images(m, a, a.len()), b, b.len()),
        with_images(m, seq![NodeV::Text(t)], 1) == m,
        with_images(m, seq![NodeV::Element { tag, attrs, children: kids }], 1) == with_images(
            with_image(m, tag, attrs),
            kids,
            kids.len(),
        ),
{
    lemma_images_joined(m, a, b, b.len());
    assert(with_images(m, seq![NodeV::Text(t)], 0) == m);
    let n = NodeV::Element { tag, attrs, children: kids };
    assert(with_images(m, seq![n], 0) == m);
}

/// The flow of a page is the content of its body, resolved.
pub proof fn law_page_flow(html: Seq<char>, h: DomElementV, b: DomElementV)
    requires
        first_element(document_of(html), "html"@) == Some(h),
        first_element(h.children, "body"@) == Some(b),
    ensures
        flow_nodes(html) == resolved(b.children, b.children.len()),
{
}

/// The root elements keep their name and attributes and lose their children.
pub proof fn law_shells(e: DomElementV)
    ensures
        shell(e) matches NodeV::Element { tag, attrs, children } && tag == TagV::Html(e.name) && attrs
            == e.attrs && children.len() == 0,
{
}

/// Boxes side by side are tagged one after the other, those in a container with it.
pub proof fn law_tags_of_containers(m: CidMap, v: Seq<BoxV>, b: BoxV, x: BoxV)
    requires
        b.kind == KindV::Block(v) || b.kind == KindV::Flex(v) || b.kind == KindV::Grid(v) || b.kind
            == KindV::Table(v),
    ensures
        attr_of(b.attrs, "data-cid"@) is None ==> with_cids(m, b) == with_box_cids(m, v, v.len()),
        attr_of(b.attrs, "data-cid"@) matches Some(c) ==> with_cids(m, b) == with_box_cids(
            m.insert(b.id as u32, c),
            v,
            v.len(),
        ),
        v.len() > 0 ==> with_box_cids(m, v, v.len()) == with_cids(
            with_box_cids(m, v, (v.len() - 1) as nat),
            v.last(),
        ),
        with_box_cids(m, v, 0) == m,
{
    reveal_with_fuel(with_cids, 2);
    reveal_with_fuel(with_box_cids, 2);
}

/// Four characters of the alphabet write three bytes, six bits each, the high ones first.
pub proof fn law_base64_quads(
    out: Seq<u8>,
    a: char,
    b: char,
    c: char,
    d: char,
    s: Seq<char>,
    w: nat,
    x: nat,
    y: nat,
    z: nat,
)
    requires
        sextet_of(a) == Some(w) && sextet_of(b) == Some(x) && sextet_of(c) == Some(y) && sextet_of(d)
            == Some(z),
    ensures
        feed_all(nothing_pending(out), seq![a, b, c, d] + s) == feed_all(
            nothing_pending(
                out.push((w * 4 + x / 16) as u8).push((x % 16 * 16 + y / 4) as u8).push(
                    (y % 4 * 64 + z) as u8,
                ),
            ),
            s,
        ),
{
    let t = seq![a, b, c, d] + s;
    assert(t[0] == a && t.skip(1)[0] == b && t.skip(1).skip(1)[0] == c && t.skip(1).skip(1).skip(1)[0]
        == d);
    assert(t.skip(1).skip(1).skip(1).skip(1) =~= s);
    law_alphabet(a);
    law_alphabet(b);
    law_alphabet(c);
    law_alphabet(d);
    let p0 = nothing_pending(out);
    let p1 = Pending { acc: w, bits: 6, out };
    assert(w < 64 && x < 64 && y < 64 && z < 64);
    assert(feed(p0, a) == Some(p1));
    let p2 = Pending { acc: x % 16, bits: 4, out: out.push((w * 4 + x / 16) as u8) };
    assert((w * 64 + x) / 16 == w * 4 + x / 16 && (w * 64 + x) % 16 == x % 16);
    assert(feed(p1, b) == Some(p2));
    let p3 = Pending { acc: y % 4, bits: 2, out: p2.out.push((x % 16 * 16 + y / 4) as u8) };
    assert((x % 16 * 64 + y) / 4 == x % 16 * 16 + y / 4 && (x % 16 * 64 + y) % 4 == y % 4);
    assert(feed(p2, c) == Some(p3));
    let p4 = Pending { acc: 0, bits: 0, out: p3.out.push((y % 4 * 64 + z) as u8) };
    assert((y % 4 * 64 + z) / 1 == y % 4 * 64 + z && (y % 4 * 64 + z) % 1 == 0);
    assert(feed(p3, d) == Some(p4));
    reveal_with_fuel(feed_all, 6);
}

/// A page's own style sheet comes first and what is added to it last, so that it wins ties.
pub proof fn law_added_css_comes_last(html: Seq<char>, a: Seq<char>, b: Seq<char>)
    ensures
        page_css(html, a + b) == page_css(html, a) + b,
        page_css(html, Seq::empty()) == style_text(flow_nodes(html), flow_nodes(html).len()),
{
    let own = style_text(flow_nodes(html), flow_nodes(html).len());
    assert(own + (a + b) =~= own + a + b);
    assert(own + Seq::<char>::empty() =~= own);
}

} // verus!
