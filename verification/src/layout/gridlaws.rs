//! What grid templates, areas and placements come to, by the text that writes them.

use vstd::prelude::*;
use vstd::string::*;

use crate::layout::grid::{
    MaxTrack, MinTrack, Track, axis_template, max_track_of, min_track_of, minmax_of, number_before,
    past_quote, quoted_in, repeat_of, repeated, shorthand_side, template, template_upto,
    track_named, tracks_named, unquoted_parts,
};
use crate::layout::grid_areas::{
    Area, AreaMapV, GridLine, GridPlacement, area_cols, area_rows, areas_in, areas_named,
    areas_upto, grid_container_in, grid_item_in, line_named, placement_named, reaches_cols,
    reaches_rows, with_cell, with_row,
};
use crate::layout::grid_slots::span_in;
use crate::layout::boxgen::attr_of;
use crate::layout::length::{starts_unit, Viewport, DEFAULT_FONT_SIZE};
use crate::layout::tokens::value_tokens;
use crate::layout::unitlaws::{law_absolute_units, lemma_number_with_unit, lemma_units_differ, writes};
use crate::layout::valuelaws::{lemma_trimmed_is, says, unset};
use crate::number::nat_of;
use crate::readlaws::{law_cutting, law_integers, law_prefixes_and_suffixes, plain};
use crate::scan::{ends, is_space, lemma_run_is, lower, lower_char, occurs_at, trimmed, words_in};
use crate::style::StyleMap;

verus! {

// --------------------------------------------------------------------------
// tracks
// --------------------------------------------------------------------------

proof fn lemma_plain_track(s: Seq<char>, vp: Viewport)
    requires
        s.len() > 0,
        s[0] != 'm',
    ensures
        minmax_of(s, vp) is None,
        s != "min-content"@ && s != "max-content"@,
{
    reveal_strlit("minmax(");
    reveal_strlit("min-content");
    reveal_strlit("max-content");
    assert("minmax("@.len() == 7 && "minmax("@[0] == 'm');
    assert("min-content"@[0] == 'm' && "max-content"@[0] == 'm');
    if occurs_at(s, "minmax("@, 0) {
        assert(s.subrange(0, 7)[0] == s[0]);
    }
}

proof fn lemma_before(w: Seq<char>, v: int, u: Seq<char>)
    requires
        writes(w, v),
    ensures
        number_before(w + u, u) == Some(v),
{
    law_prefixes_and_suffixes(w + u, u, w);
    assert(!is_space(w[0]) && !is_space(w.last()));
    lemma_trimmed_is(w);
}

proof fn lemma_other_suffix(s: Seq<char>, u: Seq<char>)
    requires
        s.len() > 0,
        u.len() > 0,
        s.last() != u.last(),
    ensures
        number_before(s, u) is None,
        !ends(s, u),
{
    if ends(s, u) {
        assert(s.subrange(s.len() - u.len(), s.len() as int)[u.len() - 1] == s.last());
    }
}

/// A track is so many fractions, so many percent, a length in px, or by name as wide as
/// its content; `auto` is what anything else is.
pub proof fn law_tracks(w: Seq<char>, v: int, vp: Viewport)
    requires
        writes(w, v),
        -1_000_000_000_000 <= v <= 1_000_000_000_000,
    ensures
        track_named(w + "fr"@, vp) == Track::Fr(v as i64),
        track_named(w + "%"@, vp) == Track::Percent(v as i64),
        track_named(w + "px"@, vp) == Track::Length(v as i64),
        track_named("min-content"@, vp) == Track::MinContent,
        track_named("max-content"@, vp) == Track::MaxContent,
        min_track_of(w + "fr"@, vp) == MinTrack::Auto,
        min_track_of(w + "%"@, vp) == MinTrack::Percent(v as i64),
        min_track_of(w + "px"@, vp) == MinTrack::Length(v as i64),
        max_track_of(w + "fr"@, vp) == MaxTrack::Fr(v as i64),
        max_track_of(w + "%"@, vp) == MaxTrack::Percent(v as i64),
        max_track_of(w + "px"@, vp) == MaxTrack::Length(v as i64),
{
    lemma_units_differ();
    reveal_strlit("fr");
    assert("fr"@.len() == 2 && "fr"@[0] == 'f' && "fr"@[1] == 'r');
    let fs = DEFAULT_FONT_SIZE as int;
    lemma_number_with_unit(w, v, "fr"@, fs, vp);
    lemma_number_with_unit(w, v, "%"@, fs, vp);
    lemma_number_with_unit(w, v, "px"@, fs, vp);
    law_absolute_units(w, v, fs, vp);
    assert(!starts_unit(w[0]));
    assert((w + "fr"@)[0] == w[0] && (w + "%"@)[0] == w[0] && (w + "px"@)[0] == w[0]);
    lemma_plain_track(w + "fr"@, vp);
    lemma_plain_track(w + "%"@, vp);
    lemma_plain_track(w + "px"@, vp);
    lemma_before(w, v, "fr"@);
    lemma_before(w, v, "%"@);
    assert((w + "fr"@).last() == 'r' && (w + "%"@).last() == '%' && (w + "px"@).last() == 'x');
    lemma_other_suffix(w + "fr"@, "%"@);
    lemma_other_suffix(w + "%"@, "fr"@);
    lemma_other_suffix(w + "px"@, "fr"@);
    lemma_other_suffix(w + "px"@, "%"@);
    reveal_strlit("minmax(");
    reveal_strlit("min-content");
    reveal_strlit("max-content");
    assert("minmax("@.len() == 7 && "minmax("@[3] == 'm' && "minmax("@[1] == 'i');
    assert("min-content"@.len() == 11 && "min-content"@[3] == '-' && "min-content"@[1] == 'i'
        && "min-content"@[0] == 'm' && "min-content"@[10] == 't');
    assert("max-content"@.len() == 11 && "max-content"@[1] == 'a' && "max-content"@[0] == 'm'
        && "max-content"@[10] == 't');
    lemma_trimmed_is("min-content"@);
    lemma_trimmed_is("max-content"@);
    if occurs_at("min-content"@, "minmax("@, 0) {
        assert("min-content"@.subrange(0, 7)[3] == "min-content"@[3]);
    }
    if occurs_at("max-content"@, "minmax("@, 0) {
        assert("max-content"@.subrange(0, 7)[1] == "max-content"@[1]);
    }
}

/// A `minmax()` holds its least side first and its greatest second.
pub proof fn law_minmax(a: Seq<char>, b: Seq<char>, vp: Viewport)
    requires
        !a.contains(','),
    ensures
        track_named("minmax("@ + (a + seq![','] + b) + ")"@, vp) == Track::MinMax(
            min_track_of(a, vp),
            max_track_of(b, vp),
        ),
{
    let x = a + seq![','] + b;
    let s = "minmax("@ + x + ")"@;
    reveal_strlit("minmax(");
    reveal_strlit(")");
    assert("minmax("@.len() == 7 && "minmax("@[0] == 'm' && ")"@.len() == 1 && ")"@[0] == ')');
    assert(s[0] == 'm' && s.last() == ')');
    lemma_trimmed_is(s);
    assert(s =~= "minmax("@ + (x + ")"@));
    law_prefixes_and_suffixes(s, "minmax("@, x + ")"@);
    law_prefixes_and_suffixes(x + ")"@, ")"@, x);
    law_cutting(a, ',', b);
}

proof fn lemma_repeated(one: Seq<Track>, n: nat)
    ensures
        repeated(one, n).len() == n * one.len(),
        forall|k: int, i: int|
            #![trigger repeated(one, n)[k * one.len() + i]]
            0 <= k < n && 0 <= i < one.len() ==> repeated(one, n)[k * one.len() + i] == one[i],
    decreases n,
{
    if n > 0 {
        let m = (n - 1) as nat;
        lemma_repeated(one, m);
        let l = one.len() as int;
        assert(m * l + l == n * l) by (nonlinear_arith)
            requires
                m == n - 1,
        ;
        assert forall|k: int, i: int|
            #![trigger repeated(one, n)[k * one.len() + i]]
            0 <= k < n && 0 <= i < one.len() implies repeated(one, n)[k * one.len() + i] == one[i] by {
            if k < m {
                assert(0 <= k * l && k * l + l <= m * l) by (nonlinear_arith)
                    requires
                        0 <= k < m,
                        l >= 0,
                ;
                assert(repeated(one, m)[k * one.len() + i] == one[i]);
            }
        }
    } else {
        assert(0 * one.len() == 0);
    }
}

/// A `repeat()` is its list so many times over.
pub proof fn law_repeats(c: Seq<char>, list: Seq<char>, vp: Viewport)
    requires
        plain(c),
        nat_of(c) <= u32::MAX,
    ensures
        ({
            let one = value_tokens(list);
            repeat_of("repeat("@ + (c + seq![','] + list) + ")"@, vp) matches Some(r) && r.len()
                == nat_of(c) * one.len() && forall|k: int, i: int|
                #![trigger r[k * one.len() + i]]
                0 <= k < nat_of(c) && 0 <= i < one.len() ==> r[k * one.len() + i] == track_named(
                    one[i],
                    vp,
                )
        }),
{
    let x = c + seq![','] + list;
    let s = "repeat("@ + x + ")"@;
    reveal_strlit("repeat(");
    reveal_strlit(")");
    assert("repeat("@.len() == 7 && "repeat("@[0] == 'r' && ")"@.len() == 1 && ")"@[0] == ')');
    assert(s[0] == 'r' && s.last() == ')');
    lemma_trimmed_is(s);
    assert(s =~= "repeat("@ + (x + ")"@));
    law_prefixes_and_suffixes(s, "repeat("@, x + ")"@);
    law_prefixes_and_suffixes(x + ")"@, ")"@, x);
    if c.contains(',') {
        let j = choose|j: int| 0 <= j < c.len() && c[j] == ',';
        assert(crate::number::is_digit(c[j]));
    }
    law_cutting(c, ',', list);
    law_integers(c);
    assert(crate::number::is_digit(c[0]) && crate::number::is_digit(c.last()));
    lemma_trimmed_is(c);
    let one = tracks_named(value_tokens(list), vp);
    assert(nat_of(c) <= usize::MAX);
    lemma_repeated(one, nat_of(c));
}

/// The tracks of a template stand in the order of its tokens, each token giving its track
/// and a `repeat()` all of its own.
pub proof fn law_templates_in_order(toks: Seq<Seq<char>>, t: Seq<char>, vp: Viewport)
    ensures
        template_upto(Seq::empty(), vp, 0).len() == 0,
        repeat_of(t, vp) is None ==> template_upto(toks.push(t), vp, toks.len() + 1)
            == template_upto(toks, vp, toks.len()).push(track_named(t, vp)),
        repeat_of(t, vp) matches Some(r) ==> template_upto(toks.push(t), vp, toks.len() + 1)
            == template_upto(toks, vp, toks.len()) + r,
{
    lemma_template_prefix(toks, t, vp, toks.len());
    assert(toks.push(t)[toks.len() as int] == t);
}

proof fn lemma_template_prefix(toks: Seq<Seq<char>>, t: Seq<char>, vp: Viewport, k: nat)
    requires
        k <= toks.len(),
    ensures
        template_upto(toks.push(t), vp, k) == template_upto(toks, vp, k),
    decreases k,
{
    if k > 0 {
        lemma_template_prefix(toks, t, vp, (k - 1) as nat);
        assert(toks.push(t)[k - 1] == toks[k - 1]);
    }
}

/// The columns and rows of a container are those of its own properties; a container that
/// names neither they nor a shorthand has one `auto` track for each column or row of its
/// areas.
pub proof fn law_container_tracks(m: StyleMap, cw: i64, areas: AreaMapV, vp: Viewport)
    ensures
        ({
            let g = grid_container_in(m, cw, areas, vp);
            let cols = value_tokens(trimmed(m["grid-template-columns"@]));
            let rows = value_tokens(trimmed(m["grid-template-rows"@]));
            &&& m.contains_key("grid-template-columns"@) && trimmed(
                m["grid-template-columns"@],
            ).len() > 0 && !says(m, "grid-template-columns"@, "none"@) && template_upto(
                cols,
                vp,
                cols.len(),
            ).len() > 0 ==> g.columns == template_upto(cols, vp, cols.len())
            &&& m.contains_key("grid-template-rows"@) && trimmed(m["grid-template-rows"@]).len() > 0
                && !says(m, "grid-template-rows"@, "none"@) && template_upto(
                rows,
                vp,
                rows.len(),
            ).len() > 0 ==> g.rows == template_upto(rows, vp, rows.len())
            &&& unset(m, "grid-template"@) && unset(m, "grid"@) && (unset(
                m,
                "grid-template-columns"@,
            ) || says(m, "grid-template-columns"@, "none"@)) ==> forall|i: int|
                0 <= i < g.columns.len() ==> #[trigger] g.columns[i] == Track::Auto
            &&& unset(m, "grid-template"@) && unset(m, "grid"@) && (unset(m, "grid-template-rows"@)
                || says(m, "grid-template-rows"@, "none"@)) ==> forall|i: int|
                0 <= i < g.rows.len() ==> #[trigger] g.rows[i] == Track::Auto
        }),
{
}

/// The shorthand holds the rows before its slash and the columns behind it, where neither
/// holds a quoted row.
pub proof fn law_template_shorthand(m: StyleMap, a: Seq<char>, b: Seq<char>)
    requires
        m.contains_key("grid-template"@),
        m["grid-template"@] == a + seq!['/'] + b,
        !a.contains('/'),
        !a.contains('"') && !a.contains('\'') && !b.contains('"') && !b.contains('\''),
        trimmed(a).len() > 0,
        trimmed(b).len() > 0,
    ensures
        shorthand_side(m, true) == Some(trimmed(b)),
        shorthand_side(m, false) == Some(trimmed(a)),
{
    law_cutting(a, '/', b);
    lemma_no_quotes(a);
    lemma_no_quotes(b);
}

proof fn lemma_no_quotes(s: Seq<char>)
    requires
        !s.contains('"') && !s.contains('\''),
    ensures
        unquoted_parts(s) == s,
    decreases s.len(),
{
    if s.len() > 0 {
        assert(s.contains(s[0]));
        assert(!s.skip(1).contains('"') && !s.skip(1).contains('\'')) by {
            assert forall|i: int| 0 <= i < s.skip(1).len() implies s.skip(1)[i] != '"' && s.skip(
                1,
            )[i] != '\'' by {
                assert(s.skip(1)[i] == s[i + 1]);
                assert(s.contains(s[i + 1]));
            }
        }
        lemma_no_quotes(s.skip(1));
        assert(seq![s[0]] + s.skip(1) =~= s);
    } else {
        assert(s =~= Seq::empty());
    }
}

/// The own property of an axis wins over the shorthand, which stands in where it is unset.
pub proof fn law_axis_templates(m: StyleMap, p: Seq<char>, cols: bool, vp: Viewport)
    ensures
        template(
            if m.contains_key(p) {
                Some(m[p])
            } else {
                None
            },
            vp,
        ).len() > 0 ==> axis_template(m, p, cols, vp) == template(Some(m[p]), vp),
        unset(m, p) ==> axis_template(m, p, cols, vp) == template(shorthand_side(m, cols), vp),
{
}

// --------------------------------------------------------------------------
// areas
// --------------------------------------------------------------------------

/// The quoted strings of a value come out one by one, in their order.
pub proof fn law_quoted_rows(a: Seq<char>, q: char, s: Seq<char>, t: Seq<char>)
    requires
        q == '"' || q == '\'',
        !a.contains('"') && !a.contains('\''),
        !s.contains(q),
    ensures
        quoted_in(a).len() == 0,
        quoted_in(a + seq![q] + s + seq![q] + t) == seq![s] + quoted_in(t),
{
    let x = a + seq![q] + s + seq![q] + t;
    assert forall|j: int| 0 <= j < a.len() implies a[j] != '"' && a[j] != '\'' && x[j] == a[j] by {
        assert(a.contains(a[j]));
    }
    assert(x[a.len() as int] == q);
    lemma_run_is(a, '"', '\'', a.len() as int);
    lemma_run_is(x, '"', '\'', a.len() as int);
    let rest = x.skip(a.len() as int + 1);
    assert(rest =~= s + seq![q] + t);
    assert forall|j: int| 0 <= j < s.len() implies rest[j] != q by {
        assert(rest[j] == s[j]);
        assert(s.contains(s[j]));
    }
    assert(rest[s.len() as int] == q);
    lemma_run_is(rest, q, q, s.len() as int);
    assert(rest.take(s.len() as int) =~= s);
    assert(rest.skip(s.len() as int + 1) =~= t);
}

/// Whether the cell `(r, c)` of the rows carries the name `n`.
pub open spec fn cell_says(rows: Seq<Seq<char>>, r: int, c: int, n: Seq<char>) -> bool {
    0 <= r < rows.len() && 0 <= c < words_in(rows[r]).len() && words_in(rows[r])[c] == n
}

/// Whether the areas hold exactly what the rows before `k`, and of row `k` the cells before
/// `j`, name: every named cell lies in its area, and every side of an area has such a cell.
pub open spec fn maps_cells(m: AreaMapV, rows: Seq<Seq<char>>, k: int, j: int) -> bool {
    &&& forall|r: int, c: int|
        #![trigger words_in(rows[r])[c]]
        seen(r, c, k, j) && 0 <= c < words_in(rows[r]).len() && 0 <= r < rows.len()
            && words_in(rows[r])[c] != "."@ ==> {
            let n = words_in(rows[r])[c];
            m.contains_key(n) && m[n].row_start <= r <= m[n].row_end && m[n].col_start <= c
                <= m[n].col_end
        }
    &&& forall|n: Seq<char>| #[trigger] m.contains_key(n) ==> n != "."@ && tight(m, rows, k, j, n)
}

pub open spec fn seen(r: int, c: int, k: int, j: int) -> bool {
    0 <= r && (r < k || (r == k && c < j))
}

pub open spec fn side_cell(
    rows: Seq<Seq<char>>,
    k: int,
    j: int,
    n: Seq<char>,
    r: int,
    c: int,
) -> bool {
    seen(r, c, k, j) && cell_says(rows, r, c, n)
}

pub open spec fn tight(m: AreaMapV, rows: Seq<Seq<char>>, k: int, j: int, n: Seq<char>) -> bool {
    &&& exists|c: int| #[trigger] side_cell(rows, k, j, n, m[n].row_start as int, c)
    &&& exists|c: int| #[trigger] side_cell(rows, k, j, n, m[n].row_end as int, c)
    &&& exists|r: int| #[trigger] side_cell(rows, k, j, n, r, m[n].col_start as int)
    &&& exists|r: int| #[trigger] side_cell(rows, k, j, n, r, m[n].col_end as int)
}

proof fn lemma_tight_grows(
    m: AreaMapV,
    rows: Seq<Seq<char>>,
    k: int,
    j: int,
    k2: int,
    j2: int,
    n: Seq<char>,
)
    requires
        tight(m, rows, k, j, n),
        k2 > k || (k2 == k && j2 >= j),
    ensures
        tight(m, rows, k2, j2, n),
{
    let a = m[n];
    let c0 = choose|c: int| #[trigger] side_cell(rows, k, j, n, a.row_start as int, c);
    let c1 = choose|c: int| #[trigger] side_cell(rows, k, j, n, a.row_end as int, c);
    let r0 = choose|r: int| #[trigger] side_cell(rows, k, j, n, r, a.col_start as int);
    let r1 = choose|r: int| #[trigger] side_cell(rows, k, j, n, r, a.col_end as int);
    assert(side_cell(rows, k2, j2, n, a.row_start as int, c0));
    assert(side_cell(rows, k2, j2, n, a.row_end as int, c1));
    assert(side_cell(rows, k2, j2, n, r0, a.col_start as int));
    assert(side_cell(rows, k2, j2, n, r1, a.col_end as int));
}

proof fn lemma_with_cell(m: AreaMapV, rows: Seq<Seq<char>>, k: int, j: int)
    requires
        maps_cells(m, rows, k, j),
        0 <= k < rows.len(),
        k <= usize::MAX,
        0 <= j < words_in(rows[k]).len(),
        j <= usize::MAX,
    ensures
        maps_cells(
            with_cell(m, words_in(rows[k])[j], k as usize, j as usize),
            rows,
            k,
            j + 1,
        ),
{
    let name = words_in(rows[k])[j];
    let m2 = with_cell(m, name, k as usize, j as usize);
    assert(cell_says(rows, k, j, name));
    assert(side_cell(rows, k, j + 1, name, k, j));
    assert forall|n: Seq<char>| #[trigger] m2.contains_key(n) implies n != "."@ && tight(
        m2,
        rows,
        k,
        j + 1,
        n,
    ) by {
        if n == name {
            if m.contains_key(n) {
                lemma_tight_grows(m, rows, k, j, k, j + 1, n);
                let a = m[n];
                let c0 = choose|c: int| #[trigger] side_cell(rows, k, j + 1, n, a.row_start as int, c);
                let c1 = choose|c: int| #[trigger] side_cell(rows, k, j + 1, n, a.row_end as int, c);
                let r0 = choose|r: int| #[trigger] side_cell(rows, k, j + 1, n, r, a.col_start as int);
                let r1 = choose|r: int| #[trigger] side_cell(rows, k, j + 1, n, r, a.col_end as int);
                let b = m2[n];
                assert(side_cell(
                    rows,
                    k,
                    j + 1,
                    n,
                    b.row_start as int,
                    if k < a.row_start {
                        j
                    } else {
                        c0
                    },
                ));
                assert(side_cell(
                    rows,
                    k,
                    j + 1,
                    n,
                    b.row_end as int,
                    if k > a.row_end {
                        j
                    } else {
                        c1
                    },
                ));
                assert(side_cell(
                    rows,
                    k,
                    j + 1,
                    n,
                    if j < a.col_start {
                        k
                    } else {
                        r0
                    },
                    b.col_start as int,
                ));
                assert(side_cell(
                    rows,
                    k,
                    j + 1,
                    n,
                    if j > a.col_end {
                        k
                    } else {
                        r1
                    },
                    b.col_end as int,
                ));
            } else {
                assert(side_cell(rows, k, j + 1, n, m2[n].row_start as int, j));
                assert(side_cell(rows, k, j + 1, n, m2[n].row_end as int, j));
                assert(side_cell(rows, k, j + 1, n, k, m2[n].col_start as int));
                assert(side_cell(rows, k, j + 1, n, k, m2[n].col_end as int));
            }
        } else {
            assert(m.contains_key(n));
            assert(m2[n] == m[n]);
            lemma_tight_grows(m, rows, k, j, k, j + 1, n);
            let a = m[n];
            assert(tight(m, rows, k, j + 1, n));
        }
    }
}

proof fn lemma_with_row(m: AreaMapV, rows: Seq<Seq<char>>, k: int, j: nat)
    requires
        maps_cells(m, rows, k, 0),
        0 <= k < rows.len() <= usize::MAX,
        j <= words_in(rows[k]).len() <= usize::MAX,
    ensures
        maps_cells(with_row(m, words_in(rows[k]), k as usize, j), rows, k, j as int),
    decreases j,
{
    if j > 0 {
        lemma_with_row(m, rows, k, (j - 1) as nat);
        lemma_with_cell(
            with_row(m, words_in(rows[k]), k as usize, (j - 1) as nat),
            rows,
            k,
            j - 1,
        );
    }
}

proof fn lemma_areas(rows: Seq<Seq<char>>, k: nat)
    requires
        k <= rows.len() <= usize::MAX,
        forall|r: int| 0 <= r < rows.len() ==> words_in(#[trigger] rows[r]).len() <= usize::MAX,
    ensures
        maps_cells(areas_upto(rows, k), rows, k as int, 0),
    decreases k,
{
    if k > 0 {
        lemma_areas(rows, (k - 1) as nat);
        let n = words_in(rows[k - 1]).len();
        assert(words_in(rows[k - 1]).len() <= usize::MAX);
        lemma_with_row(areas_upto(rows, (k - 1) as nat), rows, k - 1, n);
        let m = areas_upto(rows, k);
        assert(maps_cells(m, rows, k - 1, n as int));
        assert forall|x: Seq<char>| #[trigger] m.contains_key(x) implies x != "."@ && tight(
            m,
            rows,
            k as int,
            0,
            x,
        ) by {
            lemma_tight_grows(m, rows, k - 1, n as int, k as int, 0, x);
        }
        assert forall|r: int, c: int|
            #![trigger words_in(rows[r])[c]]
            seen(r, c, k as int, 0) && 0 <= c < words_in(rows[r]).len() && 0 <= r < rows.len()
                && words_in(rows[r])[c] != "."@ implies {
            let x = words_in(rows[r])[c];
            m.contains_key(x) && m[x].row_start <= r <= m[x].row_end && m[x].col_start <= c
                <= m[x].col_end
        } by {
            assert(seen(r, c, k - 1, n as int));
        }
    }
}

/// An area is the least rectangle around the cells that carry its name: each of them lies
/// in it, and each of its four sides has one. A dot names no area.
pub proof fn law_areas_hold_their_cells(v: Seq<char>, r: int, c: int, n: Seq<char>)
    requires
        quoted_in(v).len() <= usize::MAX,
        forall|i: int|
            0 <= i < quoted_in(v).len() ==> words_in(#[trigger] quoted_in(v)[i]).len()
                <= usize::MAX,
    ensures
        ({
            let rows = quoted_in(v);
            let m = areas_named(v);
            &&& cell_says(rows, r, c, n) && n != "."@ ==> m.contains_key(n) && m[n].row_start <= r
                <= m[n].row_end && m[n].col_start <= c <= m[n].col_end
            &&& m.contains_key(n) ==> n != "."@ && (exists|x: int|
                cell_says(rows, m[n].row_start as int, x, n)) && (exists|x: int|
                cell_says(rows, m[n].row_end as int, x, n)) && (exists|y: int|
                cell_says(rows, y, m[n].col_start as int, n)) && (exists|y: int|
                cell_says(rows, y, m[n].col_end as int, n))
        }),
{
    let rows = quoted_in(v);
    let m = areas_named(v);
    lemma_areas(rows, rows.len());
    let k = rows.len() as int;
    if cell_says(rows, r, c, n) && n != "."@ {
        assert(words_in(rows[r])[c] == n);
        assert(seen(r, c, k, 0));
    }
    if m.contains_key(n) {
        assert(tight(m, rows, k, 0, n));
        let a = m[n];
        let c0 = choose|c: int| #[trigger] side_cell(rows, k, 0, n, a.row_start as int, c);
        let c1 = choose|c: int| #[trigger] side_cell(rows, k, 0, n, a.row_end as int, c);
        let r0 = choose|r: int| #[trigger] side_cell(rows, k, 0, n, r, a.col_start as int);
        let r1 = choose|r: int| #[trigger] side_cell(rows, k, 0, n, r, a.col_end as int);
        assert(cell_says(rows, a.row_start as int, c0, n));
        assert(cell_says(rows, a.row_end as int, c1, n));
        assert(cell_says(rows, r0, a.col_start as int, n));
        assert(cell_says(rows, r1, a.col_end as int, n));
    }
}

// --------------------------------------------------------------------------
// placement
// --------------------------------------------------------------------------

/// An item in a named area lies between the lines around it, which are counted from one:
/// that before the first of its rows and columns, and that behind the last.
pub proof fn law_items_in_areas(m: StyleMap, fs: i64, areas: AreaMapV, vp: Viewport, n: Seq<char>)
    requires
        says(m, "grid-area"@, n),
        areas.contains_key(n),
        areas[n].row_start <= areas[n].row_end < 32000,
        areas[n].col_start <= areas[n].col_end < 32000,
    ensures
        ({
            let g = grid_item_in(m, fs, areas, vp);
            &&& g.row matches Some(l) && l.start == GridPlacement::Line(
                (areas[n].row_start + 1) as i16,
            ) && l.end == GridPlacement::Line((areas[n].row_end + 2) as i16)
            &&& g.column matches Some(l) && l.start == GridPlacement::Line(
                (areas[n].col_start + 1) as i16,
            ) && l.end == GridPlacement::Line((areas[n].col_end + 2) as i16)
        }),
{
}

/// An item outside every named area lies where its own row and column say.
pub proof fn law_items_by_lines(m: StyleMap, fs: i64, areas: AreaMapV, vp: Viewport)
    requires
        unset(m, "grid-area"@) || !areas.contains_key(trimmed(m["grid-area"@])),
    ensures
        ({
            let g = grid_item_in(m, fs, areas, vp);
            &&& unset(m, "grid-row"@) ==> g.row is None
            &&& unset(m, "grid-column"@) ==> g.column is None
            &&& m.contains_key("grid-row"@) ==> g.row == line_named(Some(m["grid-row"@]))
            &&& m.contains_key("grid-column"@) ==> g.column == line_named(Some(m["grid-column"@]))
        }),
{
}

/// A placement is a line by its number, or `span` and a number of tracks.
pub proof fn law_placements(d: Seq<char>, x: Seq<char>)
    requires
        plain(d),
    ensures
        nat_of(d) <= 32767 ==> placement_named(d) == GridPlacement::Line(nat_of(d) as i16),
        nat_of(d) <= 32768 ==> placement_named(seq!['-'] + d) == GridPlacement::Line(
            (-nat_of(d)) as i16,
        ),
        nat_of(d) <= 65535 ==> placement_named("span "@ + d) == GridPlacement::Span(nat_of(d) as u16),
        placement_named("auto"@) == GridPlacement::Auto,
        placement_named(""@) == GridPlacement::Auto,
{
    law_integers(d);
    reveal_strlit("span");
    reveal_strlit("span ");
    reveal_strlit("auto");
    reveal_strlit("");
    assert("span"@.len() == 4 && "span"@[0] == 's' && "span "@.len() == 5 && "span "@[0] == 's');
    assert("auto"@.len() == 4 && "auto"@[0] == 'a' && ""@.len() == 0);
    assert(crate::number::is_digit(d[0]) && crate::number::is_digit(d.last()));
    if occurs_at(d, "span"@, 0) {
        assert(d.subrange(0, 4)[0] == d[0]);
    }
    let neg = seq!['-'] + d;
    if occurs_at(neg, "span"@, 0) {
        assert(neg.subrange(0, 4)[0] == neg[0]);
    }
    if occurs_at("auto"@, "span"@, 0) {
        assert("auto"@.subrange(0, 4)[0] == "auto"@[0]);
    }
    let s = "span "@ + d;
    let r = seq![' '] + d;
    assert(s =~= "span"@ + r);
    law_prefixes_and_suffixes(s, "span"@, r);
    assert(r.skip(1) =~= d);
    assert(crate::scan::trim_front(d) == d);
    assert(crate::scan::trim_front(r) == crate::scan::trim_front(r.skip(1)));
    assert(crate::scan::trim_back(d) == d);
}

/// A row or column is placed from its first part to the one behind the slash; without a
/// slash its end is left open, and `auto` leaves both.
pub proof fn law_line_pairs(a: Seq<char>, b: Seq<char>, v: Seq<char>)
    requires
        !a.contains('/'),
        a.len() > 0,
        !is_space(a[0]),
        lower_char(a[0]) != 'a',
        !is_space(a.last()),
        b.len() > 0,
        !is_space(b.last()),
    ensures
        line_named(Some(a + seq!['/'] + b)) == Some(
            GridLine { start: placement_named(trimmed(a)), end: placement_named(trimmed(b)) },
        ),
        line_named(Some(a)) == Some(
            GridLine { start: placement_named(a), end: GridPlacement::Auto },
        ),
        lower(trimmed(v)) == lower("auto"@) || trimmed(v).len() == 0 ==> line_named(Some(v)) is None,
        line_named(None) is None,
{
    let s = a + seq!['/'] + b;
    lemma_trimmed_is(s);
    lemma_trimmed_is(a);
    law_cutting(a, '/', b);
    reveal_strlit("auto");
    assert("auto"@.len() == 4 && lower("auto"@)[0] == 'a');
    assert(lower(s)[0] == lower_char(s[0]));
    assert(lower(a)[0] == lower_char(a[0]));
    reveal_strlit("1");
    assert("1"@ =~= seq!['1']);
    assert(plain("1"@));
    law_placements("1"@, a);
}

/// A span attribute is its number; without one, or with none of at least one, a cell spans
/// one.
pub proof fn law_spans(a: Seq<(Seq<char>, Seq<char>)>, name: Seq<char>, d: Seq<char>)
    requires
        plain(d),
    ensures
        attr_of(a, name) is None ==> span_in(a, name) == 1,
        attr_of(a, name) == Some(d) && 1 <= nat_of(d) <= u32::MAX ==> span_in(a, name) == nat_of(d),
        attr_of(a, name) == Some(d) && nat_of(d) == 0 ==> span_in(a, name) == 1,
{
    law_integers(d);
    assert(crate::number::is_digit(d[0]) && crate::number::is_digit(d.last()));
    lemma_trimmed_is(d);
}

/// The areas of a container are those that its property names; a container without it has
/// none.
pub proof fn law_areas_of_containers(m: StyleMap)
    ensures
        unset(m, "grid-template-areas"@) ==> areas_in(m) == Map::<Seq<char>, Area>::empty(),
        m.contains_key("grid-template-areas"@) ==> areas_in(m) == areas_named(
            m["grid-template-areas"@],
        ),
{
}

/// Areas reach over as many columns and rows as the farthest of them.
pub proof fn law_areas_reach(m: AreaMapV, c: nat, n: Seq<char>)
    requires
        forall|x: Seq<char>| #[trigger] m.contains_key(x) ==> m[x].col_end < c,
        forall|x: Seq<char>| #[trigger] m.contains_key(x) ==> m[x].row_end < c,
        m.contains_key(n),
    ensures
        m[n].col_end + 1 == c ==> area_cols(m) == c,
        m[n].row_end + 1 == c ==> area_rows(m) == c,
{
    if m[n].col_end + 1 == c {
        assert(reaches_cols(m, c));
        let d = area_cols(m);
        assert(reaches_cols(m, d));
        if d > 0 {
            let y = choose|y: Seq<char>| #[trigger] m.contains_key(y) && m[y].col_end + 1 == d;
            assert(m.contains_key(y) && m[y].col_end + 1 == d);
        }
    }
    if m[n].row_end + 1 == c {
        assert(reaches_rows(m, c));
        let d = area_rows(m);
        assert(reaches_rows(m, d));
        if d > 0 {
            let y = choose|y: Seq<char>| #[trigger] m.contains_key(y) && m[y].row_end + 1 == d;
            assert(m.contains_key(y) && m[y].row_end + 1 == d);
        }
    }
}

/// A container that names no tracks has one `auto` track for each column and row of its areas.
pub proof fn law_areas_make_tracks(m: StyleMap, cw: i64, areas: AreaMapV, vp: Viewport)
    requires
        unset(m, "grid-template"@) && unset(m, "grid"@),
        unset(m, "grid-template-columns"@) && unset(m, "grid-template-rows"@),
    ensures
        grid_container_in(m, cw, areas, vp).columns.len() == area_cols(areas),
        grid_container_in(m, cw, areas, vp).rows.len() == area_rows(areas),
{
}

/// Quoted rows are taken out of a side of the shorthand, and what stands around them stays.
pub proof fn law_quoted_rows_are_taken_out(a: Seq<char>, q: char, s: Seq<char>, t: Seq<char>)
    requires
        q == '"' || q == '\'',
        !a.contains('"') && !a.contains('\''),
        !s.contains(q),
    ensures
        unquoted_parts(a + (seq![q] + s + seq![q] + t)) == a + unquoted_parts(t),
    decreases a.len(),
{
    let rest = seq![q] + s + seq![q] + t;
    let x = a + rest;
    if a.len() == 0 {
        assert(x =~= rest);
        assert(rest[0] == q);
        let inner = s + seq![q] + t;
        assert(rest.skip(1) =~= inner);
        lemma_past_quote(s, q, t);
        assert(unquoted_parts(rest) == unquoted_parts(t));
        assert(a + unquoted_parts(t) =~= unquoted_parts(t));
    } else {
        assert(a.contains(a[0]));
        assert(x[0] == a[0]);
        let b = a.skip(1);
        assert(x.skip(1) =~= b + rest);
        assert forall|i: int| 0 <= i < b.len() implies b[i] != '"' && b[i] != '\'' by {
            assert(b[i] == a[i + 1]);
            assert(a.contains(a[i + 1]));
        }
        law_quoted_rows_are_taken_out(b, q, s, t);
        assert(seq![a[0]] + (b + unquoted_parts(t)) =~= a + unquoted_parts(t));
    }
}

proof fn lemma_past_quote(s: Seq<char>, q: char, t: Seq<char>)
    requires
        !s.contains(q),
    ensures
        past_quote(s + seq![q] + t, q) == t,
    decreases s.len(),
{
    let x = s + seq![q] + t;
    if s.len() == 0 {
        assert(x[0] == q);
        assert(x.skip(1) =~= t);
    } else {
        assert(s.contains(s[0]));
        assert(x[0] == s[0]);
        let u = s.skip(1);
        assert(x.skip(1) =~= u + seq![q] + t);
        assert forall|i: int| 0 <= i < u.len() implies u[i] != q by {
            assert(u[i] == s[i + 1]);
            assert(s.contains(s[i + 1]));
        }
        lemma_past_quote(u, q, t);
    }
}

} // verus!
