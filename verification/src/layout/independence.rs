//! When a box's resolved style does not depend on where the box stands.

use vstd::prelude::*;

use crate::layout::edges::{edge_of, edge_values, edges_in, side_of};
use crate::layout::length::{
    calc_body, calc_fold, calc_of, parse_raw, raw_length, unit_at, RawLength, Viewport,
};
use crate::layout::value::{box_style_in, font_size_in, metrics_in, ResolveCtx};
use crate::scan::{is_space, trim_back, trim_front, trimmed, word_len, words_in};
use crate::style::{lacks_char, prop, ComputedStyle, StyleMap};

verus! {

/// Whether the font size is an absolute length of its own.
pub open spec fn has_absolute_font_size(m: StyleMap, vp: Viewport) -> bool {
    prop(m, "font-size"@) is Some && raw_length(prop(m, "font-size"@)->0, vp) matches Some(
        RawLength::Abs(_),
    )
}

pub fn font_size_absolute(s: &ComputedStyle, vp: Viewport) -> (r: bool)
    ensures
        r == has_absolute_font_size(s@, vp),
{
    match s.get("font-size") {
        Some(v) => matches!(parse_raw(v, vp), Some(RawLength::Abs(_))),
        None => false,
    }
}

/// Whether the style resolves alike in every context of one viewport: no value
/// is a percentage, and the font size is absolute, so that every `em` is fixed.
pub open spec fn ctx_independent(m: StyleMap, vp: Viewport) -> bool {
    lacks_char(m, '%') && has_absolute_font_size(m, vp)
}

/// Whether a box may resolve its style once and use it throughout a layout.
pub fn is_ctx_independent(s: &ComputedStyle, vp: Viewport) -> (r: bool)
    ensures
        r == ctx_independent(s@, vp),
{
    s.lacks('%') && font_size_absolute(s, vp)
}

proof fn lemma_trim_front(s: Seq<char>, c: char)
    requires
        !s.contains(c),
    ensures
        !trim_front(s).contains(c),
    decreases s.len(),
{
    if s.len() > 0 && is_space(s[0]) {
        lemma_part(s, 1, s.len() as int, c);
        assert(s.skip(1) =~= s.subrange(1, s.len() as int));
        lemma_trim_front(s.skip(1), c);
    }
}

proof fn lemma_trim_back(s: Seq<char>, c: char)
    requires
        !s.contains(c),
    ensures
        !trim_back(s).contains(c),
    decreases s.len(),
{
    if s.len() > 0 && is_space(s.last()) {
        lemma_part(s, 0, s.len() - 1, c);
        assert(s.drop_last() =~= s.subrange(0, s.len() - 1));
        lemma_trim_back(s.drop_last(), c);
    }
}

proof fn lemma_trimmed(s: Seq<char>, c: char)
    requires
        !s.contains(c),
    ensures
        !trimmed(s).contains(c),
{
    lemma_trim_front(s, c);
    lemma_trim_back(trim_front(s), c);
}

proof fn lemma_part(s: Seq<char>, a: int, b: int, c: char)
    requires
        !s.contains(c),
        0 <= a <= b <= s.len(),
    ensures
        !s.subrange(a, b).contains(c),
{
    let t = s.subrange(a, b);
    if t.contains(c) {
        let i = choose|i: int| 0 <= i < t.len() && t[i] == c;
        assert(s[a + i] == c);
    }
}

proof fn lemma_words(s: Seq<char>, c: char)
    requires
        !s.contains(c),
    ensures
        forall|i: int| 0 <= i < words_in(s).len() ==> !(#[trigger] words_in(s)[i]).contains(c),
    decreases s.len(),
{
    if s.len() > 0 && is_space(s[0]) {
        lemma_part(s, 1, s.len() as int, c);
        assert(s.skip(1) =~= s.subrange(1, s.len() as int));
        lemma_words(s.skip(1), c);
        assert(words_in(s) == words_in(s.skip(1)));
    } else if s.len() > 0 {
        crate::scan::lemma_word_len(s);
        let n = word_len(s) as int;
        assert(n > 0);
        lemma_part(s, 0, n, c);
        lemma_part(s, n, s.len() as int, c);
        assert(s.take(n) =~= s.subrange(0, n));
        assert(s.skip(n) =~= s.subrange(n, s.len() as int));
        let rest = words_in(s.skip(n));
        lemma_words(s.skip(n), c);
        assert(words_in(s) == seq![s.take(n)] + rest);
        assert forall|i: int| 0 <= i < words_in(s).len() implies !(#[trigger] words_in(
            s,
        )[i]).contains(c) by {
            if i > 0 {
                assert(words_in(s)[i] == rest[i - 1]);
            }
        }
    }
}

/// A text without a percent sign is no percentage.
proof fn lemma_raw(s: Seq<char>, vp: Viewport)
    requires
        !s.contains('%'),
    ensures
        !(raw_length(s, vp) matches Some(RawLength::Pct(_))),
{
    let t = trimmed(s);
    lemma_trimmed(s, '%');
    crate::layout::length::lemma_unit_at(t);
    let n = unit_at(t) as int;
    reveal_strlit("%");
    if t.skip(n) == "%"@ {
        assert(t.skip(n).len() == t.len() - n);
        assert("%"@.len() == 1 && "%"@[0] == '%');
        assert(t.skip(n)[0] == '%');
        assert(t[n] == '%');
    }
}

/// Nor does such a `calc()` hold one.
proof fn lemma_calc(toks: Seq<Seq<char>>, fs: int, vp: Viewport, k: nat)
    requires
        forall|i: int| 0 <= i < toks.len() ==> !(#[trigger] toks[i]).contains('%'),
        2 * k < toks.len(),
    ensures
        calc_fold(toks, fs, vp, k) matches Some(c) ==> !c.mixed,
    decreases k,
{
    lemma_raw(toks[2 * k as int], vp);
    if k > 0 {
        lemma_calc(toks, fs, vp, (k - 1) as nat);
    }
}

proof fn lemma_calc_of(s: Seq<char>, fs: int, vp: Viewport)
    requires
        !s.contains('%'),
    ensures
        calc_of(s, fs, vp) matches Some(c) ==> !c.mixed,
{
    if let Some(b) = calc_body(s) {
        let t = trimmed(s);
        lemma_trimmed(s, '%');
        reveal_strlit("calc(");
        reveal_strlit("CALC(");
        reveal_strlit(")");
        assert(b =~= t.subrange(5, t.len() - 1));
        lemma_part(t, 5, t.len() - 1, '%');
        lemma_words(b, '%');
        let w = words_in(b);
        if w.len() > 0 {
            lemma_calc(w, fs, vp, ((w.len() - 1) / 2) as nat);
        }
    }
}

/// A value without a percent sign gives the same edge against every basis.
proof fn lemma_edge(s: Seq<char>, fs: int, b1: int, b2: int, vp: Viewport)
    requires
        !s.contains('%'),
    ensures
        edge_of(s, fs, b1, vp) == edge_of(s, fs, b2, vp),
{
    let t = trimmed(s);
    lemma_trimmed(s, '%');
    lemma_calc_of(t, fs, vp);
    lemma_raw(t, vp);
}

proof fn lemma_side(m: StyleMap, p: Seq<char>, d: i64, fs: int, b1: int, b2: int, vp: Viewport)
    requires
        lacks_char(m, '%'),
    ensures
        side_of(m, p, d, fs, b1, vp) == side_of(m, p, d, fs, b2, vp),
{
    if m.contains_key(p) {
        lemma_edge(m[p], fs, b1, b2, vp);
    }
}

proof fn lemma_edges(m: StyleMap, p: Seq<char>, fs: int, b1: int, b2: int, vp: Viewport)
    requires
        lacks_char(m, '%'),
    ensures
        edges_in(m, p, fs, b1, vp) == edges_in(m, p, fs, b2, vp),
{
    if m.contains_key(p) {
        let w = words_in(m[p]);
        lemma_words(m[p], '%');
        assert forall|i: int| 0 <= i < w.len() implies edge_of(w[i], fs, b1, vp) == edge_of(
            w[i],
            fs,
            b2,
            vp,
        ) by {
            lemma_edge(w[i], fs, b1, b2, vp);
        }
        assert(edge_values(w, fs, b1, vp) =~= edge_values(w, fs, b2, vp));
    }
    assert forall|q: Seq<char>, d: i64| #[trigger]
        side_of(m, q, d, fs, b1, vp) == side_of(m, q, d, fs, b2, vp) by {
        lemma_side(m, q, d, fs, b1, b2, vp);
    }
}

/// A style found independent of its context resolves to the same metrics
/// whatever the parent's font size and the containing block's width.
pub proof fn law_independent_styles_resolve_alike(m: StyleMap, c1: ResolveCtx, c2: ResolveCtx)
    requires
        c1.viewport == c2.viewport,
        ctx_independent(m, c1.viewport),
    ensures
        box_style_in(m, c1) == box_style_in(m, c2),
{
    reveal(box_style_in);
    let vp = c1.viewport;
    let fs = font_size_in(m, c1.parent_font_size, vp);
    assert(fs == font_size_in(m, c2.parent_font_size, vp));
    lemma_edges(m, "margin"@, fs as int, c1.cb_width as int, c2.cb_width as int, vp);
    lemma_edges(m, "padding"@, fs as int, c1.cb_width as int, c2.cb_width as int, vp);
    assert(metrics_in(m, fs, c1.cb_width, vp) == metrics_in(m, fs, c2.cb_width, vp));
}

} // verus!
