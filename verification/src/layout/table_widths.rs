//! Column widths of a table, by the `auto` and the `fixed` algorithm, and of a
//! table whose borders collapse.

use vstd::prelude::*;

use crate::layout::grid_slots::{within, Slot};
use crate::layout::length::{Edges, LengthPct, Viewport, DEFAULT_FONT_SIZE};
use crate::layout::table::{filled, range_sum, spanned, sum_all, total_of, zeros};
use crate::layout::value::{box_style_in, is_set_to, resolve_box_style, set_to, ResolveCtx};
use crate::number::{clip, diff, greatest, least, max_of, min_of, minus, plus, scale, scaled, sum};
use crate::style::{ComputedStyle, StyleMap};

verus! {

// --------------------------------------------------------------------------
// what a cell asks for
// --------------------------------------------------------------------------

pub open spec fn has_fixed_layout(m: StyleMap) -> bool {
    is_set_to(m, "table-layout"@, "fixed"@)
}

pub fn is_fixed(style: &ComputedStyle) -> (r: bool)
    ensures
        r == has_fixed_layout(style@),
{
    set_to(style, "table-layout", "fixed")
}

pub open spec fn has_collapsed_borders(m: StyleMap) -> bool {
    is_set_to(m, "border-collapse"@, "collapse"@)
}

pub fn collapsed(style: &ComputedStyle) -> (r: bool)
    ensures
        r == has_collapsed_borders(style@),
{
    set_to(style, "border-collapse", "collapse")
}

/// The context that a cell's own lengths are read in.
pub open spec fn cell_ctx(vp: Viewport) -> ResolveCtx {
    ResolveCtx { parent_font_size: DEFAULT_FONT_SIZE, cb_width: 0, viewport: vp }
}

/// A cell's border-box width, where it declares a length.
pub open spec fn declared_width(m: StyleMap, vp: Viewport) -> Option<i64> {
    let s = box_style_in(m, cell_ctx(vp));
    match s.width {
        LengthPct::Px(w) => Some(
            sum(
                sum(w as int, clip(s.padding.left + s.padding.right)),
                clip(s.border.widths_of().left + s.border.widths_of().right),
            ) as i64,
        ),
        _ => None,
    }
}

pub fn explicit_width(style: &ComputedStyle, vp: Viewport) -> (r: Option<i64>)
    ensures
        r == declared_width(style@, vp),
{
    let s = resolve_box_style(
        style,
        ResolveCtx { parent_font_size: DEFAULT_FONT_SIZE, cb_width: 0, viewport: vp },
    );
    match s.width {
        LengthPct::Px(w) => Some(
            plus(plus(w, s.padding.horizontal()), s.border.widths().horizontal()),
        ),
        _ => None,
    }
}

/// A cell's width without its borders, where it declares a length.
pub open spec fn declared_track(m: StyleMap, vp: Viewport) -> Option<i64> {
    let s = box_style_in(m, cell_ctx(vp));
    match s.width {
        LengthPct::Px(w) => Some(sum(w as int, clip(s.padding.left + s.padding.right)) as i64),
        _ => None,
    }
}

pub fn explicit_cp(style: &ComputedStyle, vp: Viewport) -> (r: Option<i64>)
    ensures
        r == declared_track(style@, vp),
{
    let s = resolve_box_style(
        style,
        ResolveCtx { parent_font_size: DEFAULT_FONT_SIZE, cb_width: 0, viewport: vp },
    );
    match s.width {
        LengthPct::Px(w) => Some(plus(w, s.padding.horizontal())),
        _ => None,
    }
}

/// A cell's border widths.
pub open spec fn border_of(m: StyleMap, vp: Viewport) -> Edges {
    box_style_in(m, cell_ctx(vp)).border.widths_of()
}

pub fn cell_border(style: &ComputedStyle, vp: Viewport) -> (r: Edges)
    ensures
        r == border_of(style@, vp),
{
    resolve_box_style(
        style,
        ResolveCtx { parent_font_size: DEFAULT_FONT_SIZE, cb_width: 0, viewport: vp },
    ).border.widths()
}

/// Whether a table declares a width.
pub open spec fn declares_width(m: StyleMap, cw: i64, vp: Viewport) -> bool {
    !(box_style_in(
        m,
        ResolveCtx { parent_font_size: DEFAULT_FONT_SIZE, cb_width: cw, viewport: vp },
    ).width is Auto)
}

pub fn has_explicit_width(style: &ComputedStyle, cw: i64, vp: Viewport) -> (r: bool)
    ensures
        r == declares_width(style@, cw, vp),
{
    let s = resolve_box_style(
        style,
        ResolveCtx { parent_font_size: DEFAULT_FONT_SIZE, cb_width: cw, viewport: vp },
    );
    s.width.resolve(cw).is_some()
}

// --------------------------------------------------------------------------
// auto layout
// --------------------------------------------------------------------------

/// Column widths after the first `k` single-column cells: the widest of each.
pub open spec fn widest(v: Seq<Slot>, w: Seq<i64>, ncols: nat, k: nat) -> Seq<i64>
    decreases k,
{
    if k == 0 {
        zeros(ncols)
    } else {
        let before = widest(v, w, ncols, (k - 1) as nat);
        let s = v[k - 1];
        if s.colspan == 1 {
            before.update(
                s.col as int,
                greatest(before[s.col as int] as int, w[k - 1] as int) as i64,
            )
        } else {
            before
        }
    }
}

/// Column widths with room made for one spanning cell, in its last column.
pub open spec fn fitted(cols: Seq<i64>, s: Slot, need: int) -> Seq<i64> {
    if s.colspan > 1 {
        let have = range_sum(cols, s.col as int, s.colspan as nat);
        let last = s.col + s.colspan - 1;
        if need > have {
            cols.update(last, sum(cols[last] as int, diff(need, have)) as i64)
        } else {
            cols
        }
    } else {
        cols
    }
}

/// Column widths after the first `k` spanning cells.
pub open spec fn spans_fitted(v: Seq<Slot>, w: Seq<i64>, cols: Seq<i64>, k: nat) -> Seq<i64>
    decreases k,
{
    if k == 0 {
        cols
    } else {
        fitted(spans_fitted(v, w, cols, (k - 1) as nat), v[k - 1], w[k - 1] as int)
    }
}

/// The widths that content asks for.
pub open spec fn natural_columns(v: Seq<Slot>, w: Seq<i64>, ncols: nat) -> Seq<i64> {
    spans_fitted(v, w, widest(v, w, ncols, v.len()), v.len())
}

/// The widest single-column cell of each column.
pub fn min_columns(v: &Vec<Slot>, w: &Vec<i64>, ncols: usize) -> (r: Vec<i64>)
    requires
        within(v@, ncols as int),
        w@.len() == v@.len(),
    ensures
        r@ == widest(v@, w@, ncols as nat, v@.len()),
        r@.len() == ncols,
{
    let mut cols = filled(ncols, 0);
    let mut k: usize = 0;
    proof {
        assert(cols@ =~= zeros(ncols as nat));
    }
    while k < v.len()
        invariant
            k <= v@.len(),
            within(v@, ncols as int),
            w@.len() == v@.len(),
            cols@ == widest(v@, w@, ncols as nat, k as nat),
            cols@.len() == ncols,
        decreases v@.len() - k,
    {
        let s: Slot = v[k];
        if s.colspan == 1 {
            let x: i64 = max_of(cols[s.col], w[k]);
            cols.set(s.col, x);
        }
        k += 1;
    }
    cols
}

fn fit_span(cols: &mut Vec<i64>, s: Slot, need: i64)
    requires
        s.col + s.colspan <= old(cols)@.len(),
    ensures
        final(cols)@ == fitted(old(cols)@, s, need as int),
        final(cols)@.len() == old(cols)@.len(),
{
    if s.colspan > 1 {
        let n: usize = cols.len();
        let have: i64 = spanned(cols, s.col, s.colspan);
        if need > have {
            let last: usize = s.col + s.colspan - 1;
            let x: i64 = plus(cols[last], minus(need, have));
            cols.set(last, x);
        }
    }
}

/// Widths by content: the widest cell of each column, then room for the spanning
/// ones.
pub fn auto_columns(v: &Vec<Slot>, w: &Vec<i64>, ncols: usize) -> (r: Vec<i64>)
    requires
        within(v@, ncols as int),
        w@.len() == v@.len(),
    ensures
        r@ == natural_columns(v@, w@, ncols as nat),
        r@.len() == ncols,
{
    let mut cols = min_columns(v, w, ncols);
    let ghost base = cols@;
    let mut k: usize = 0;
    while k < v.len()
        invariant
            k <= v@.len(),
            within(v@, ncols as int),
            w@.len() == v@.len(),
            cols@ == spans_fitted(v@, w@, base, k as nat),
            cols@.len() == ncols,
        decreases v@.len() - k,
    {
        proof {
            assert(v@[k as int].col + v@[k as int].colspan <= ncols);
        }
        fit_span(&mut cols, v[k], w[k]);
        k += 1;
    }
    cols
}

// --------------------------------------------------------------------------
// fixed layout
// --------------------------------------------------------------------------

/// Declared widths of the columns after the first `k` cells: the first row's
/// single-column cells, the first that declares one.
pub open spec fn first_row(v: Seq<Slot>, w: Seq<Option<i64>>, ncols: nat, k: nat) -> Seq<Option<i64>>
    decreases k,
{
    if k == 0 {
        Seq::new(ncols, |i: int| None::<i64>)
    } else {
        let before = first_row(v, w, ncols, (k - 1) as nat);
        let s = v[k - 1];
        if s.row == 0 && s.colspan == 1 && before[s.col as int] is None {
            before.update(s.col as int, w[k - 1])
        } else {
            before
        }
    }
}

/// The sum of the declared widths among the first `k` columns.
pub open spec fn declared_sum(w: Seq<Option<i64>>, k: nat) -> int
    decreases k,
{
    if k == 0 {
        0
    } else {
        let before = declared_sum(w, (k - 1) as nat);
        match w[k - 1] {
            Some(x) => sum(before, x as int),
            None => before,
        }
    }
}

/// The number of undeclared widths among the first `k` columns.
pub open spec fn undeclared(w: Seq<Option<i64>>, k: nat) -> nat
    decreases k,
{
    if k == 0 {
        0
    } else {
        undeclared(w, (k - 1) as nat) + (if w[k - 1] is None {
            1nat
        } else {
            0nat
        })
    }
}

/// An equal share of what is left, no less than zero.
pub open spec fn share_of(rest: int, count: nat) -> i64 {
    if count == 0 {
        0
    } else {
        greatest(scaled(rest, 1, count as int), 0) as i64
    }
}

/// The declared widths, the others sharing what is left of `width`.
pub open spec fn shared(w: Seq<Option<i64>>, width: int) -> Seq<i64> {
    let each = share_of(diff(width, declared_sum(w, w.len())), undeclared(w, w.len()));
    Seq::new(
        w.len(),
        |i: int|
            match w[i] {
                Some(x) => x,
                None => each,
            },
    )
}

pub fn first_row_widths(v: &Vec<Slot>, w: &Vec<Option<i64>>, ncols: usize) -> (r: Vec<Option<i64>>)
    requires
        within(v@, ncols as int),
        w@.len() == v@.len(),
    ensures
        r@ == first_row(v@, w@, ncols as nat, v@.len()),
        r@.len() == ncols,
{
    let mut cols: Vec<Option<i64>> = no_widths(ncols);
    let mut k: usize = 0;
    while k < v.len()
        invariant
            k <= v@.len(),
            within(v@, ncols as int),
            w@.len() == v@.len(),
            cols@ == first_row(v@, w@, ncols as nat, k as nat),
            cols@.len() == ncols,
        decreases v@.len() - k,
    {
        let s: Slot = v[k];
        if s.row == 0 && s.colspan == 1 && cols[s.col].is_none() {
            cols.set(s.col, w[k]);
        }
        k += 1;
    }
    cols
}

pub fn no_widths(n: usize) -> (r: Vec<Option<i64>>)
    ensures
        r@ == Seq::new(n as nat, |i: int| None::<i64>),
{
    let mut v: Vec<Option<i64>> = Vec::new();
    let mut i: usize = 0;
    while i < n
        invariant
            i <= n,
            v@.len() == i,
            forall|j: int| 0 <= j < i ==> v@[j] is None,
        decreases n - i,
    {
        v.push(None);
        i += 1;
    }
    proof {
        assert(v@ =~= Seq::new(n as nat, |i: int| None::<i64>));
    }
    v
}

pub fn declared_total(w: &Vec<Option<i64>>) -> (r: (i64, usize))
    ensures
        r.0 == declared_sum(w@, w@.len()),
        r.1 == undeclared(w@, w@.len()),
        r.1 <= w@.len(),
{
    let mut total: i64 = 0;
    let mut count: usize = 0;
    let mut k: usize = 0;
    while k < w.len()
        invariant
            k <= w@.len(),
            total == declared_sum(w@, k as nat),
            count == undeclared(w@, k as nat),
            count <= k,
        decreases w@.len() - k,
    {
        match w[k] {
            Some(x) => {
                total = plus(total, x);
            },
            None => {
                count += 1;
            },
        }
        k += 1;
    }
    (total, count)
}

/// An equal share of what is left, no less than zero.
pub fn share(rest: i64, count: usize) -> (r: i64)
    requires
        count <= i64::MAX,
    ensures
        r == share_of(rest as int, count as nat),
{
    if count == 0 {
        0
    } else {
        max_of(scale(rest, 1, count as i64), 0)
    }
}

fn share_out(w: &Vec<Option<i64>>, width: i64) -> (r: Vec<i64>)
    requires
        w@.len() <= i64::MAX,
    ensures
        r@ == shared(w@, width as int),
        r@.len() == w@.len(),
{
    let (total, count) = declared_total(w);
    let each: i64 = share(minus(width, total), count);
    let mut out: Vec<i64> = Vec::new();
    let mut k: usize = 0;
    while k < w.len()
        invariant
            k <= w@.len(),
            out@.len() == k,
            each == share_of(
                diff(width as int, declared_sum(w@, w@.len())),
                undeclared(w@, w@.len()),
            ),
            forall|j: int|
                0 <= j < k ==> #[trigger] out@[j] == match w@[j] {
                    Some(x) => x,
                    None => each,
                },
        decreases w@.len() - k,
    {
        out.push(
            match w[k] {
                Some(x) => x,
                None => each,
            },
        );
        k += 1;
    }
    proof {
        assert(out@ =~= shared(w@, width as int));
    }
    out
}

/// Fixed layout: the first row's declared widths, the other columns sharing the
/// rest.
pub fn fixed_columns(v: &Vec<Slot>, w: &Vec<Option<i64>>, ncols: usize, width: i64) -> (r: Vec<i64>)
    requires
        within(v@, ncols as int),
        w@.len() == v@.len(),
        ncols <= i64::MAX,
    ensures
        r@ == shared(first_row(v@, w@, ncols as nat, v@.len()), width as int),
        r@.len() == ncols,
{
    let first = first_row_widths(v, w, ncols);
    share_out(&first, width)
}

// --------------------------------------------------------------------------
// fitting to a width
// --------------------------------------------------------------------------

/// Every column grown in proportion.
pub open spec fn grown(c: Seq<i64>, target: int, have: int) -> Seq<i64> {
    Seq::new(c.len(), |i: int| scaled(c[i] as int, target, have) as i64)
}

/// How far the first `k` columns stand above their minima.
pub open spec fn slack_of(c: Seq<i64>, m: Seq<i64>, k: nat) -> int
    decreases k,
{
    if k == 0 {
        0
    } else {
        sum(
            slack_of(c, m, (k - 1) as nat),
            greatest(diff(c[k - 1] as int, m[k - 1] as int), 0),
        )
    }
}

/// Every column shrunk by its part of the slack, none below its minimum.
pub open spec fn shrunk(c: Seq<i64>, m: Seq<i64>, reduce: int) -> Seq<i64> {
    let slack = slack_of(c, m, c.len());
    Seq::new(
        c.len(),
        |i: int|
            greatest(
                if slack > 0 {
                    diff(
                        c[i] as int,
                        scaled(reduce, greatest(diff(c[i] as int, m[i] as int), 0), slack),
                    )
                } else {
                    c[i] as int
                },
                m[i] as int,
            ) as i64,
    )
}

/// The columns fitted to a width: grown in proportion, or shrunk within their
/// slack.
pub open spec fn fit_to(c: Seq<i64>, target: int, m: Seq<i64>) -> Seq<i64> {
    let have = total_of(c);
    if have <= 0 || have == target {
        c
    } else if target >= have {
        grown(c, target, have)
    } else {
        shrunk(c, m, diff(have, target))
    }
}

fn grow_columns(c: &Vec<i64>, target: i64, have: i64) -> (r: Vec<i64>)
    requires
        have > 0,
    ensures
        r@ == grown(c@, target as int, have as int),
{
    let mut out: Vec<i64> = Vec::new();
    let mut k: usize = 0;
    while k < c.len()
        invariant
            have > 0,
            k <= c@.len(),
            out@.len() == k,
            forall|j: int|
                0 <= j < k ==> #[trigger] out@[j] == scaled(
                    c@[j] as int,
                    target as int,
                    have as int,
                ),
        decreases c@.len() - k,
    {
        out.push(scale(c[k], target, have));
        k += 1;
    }
    proof {
        assert(out@ =~= grown(c@, target as int, have as int));
    }
    out
}

fn shrink_columns(c: &Vec<i64>, m: &Vec<i64>, reduce: i64) -> (r: Vec<i64>)
    requires
        m@.len() == c@.len(),
    ensures
        r@ == shrunk(c@, m@, reduce as int),
{
    let mut slack: i64 = 0;
    let mut k: usize = 0;
    while k < c.len()
        invariant
            m@.len() == c@.len(),
            k <= c@.len(),
            slack == slack_of(c@, m@, k as nat),
        decreases c@.len() - k,
    {
        slack = plus(slack, max_of(minus(c[k], m[k]), 0));
        k += 1;
    }
    let mut out: Vec<i64> = Vec::new();
    let mut i: usize = 0;
    while i < c.len()
        invariant
            m@.len() == c@.len(),
            i <= c@.len(),
            slack == slack_of(c@, m@, c@.len()),
            out@.len() == i,
            forall|j: int| 0 <= j < i ==> #[trigger] out@[j] == shrunk(c@, m@, reduce as int)[j],
        decreases c@.len() - i,
    {
        let x: i64 = if slack > 0 {
            minus(c[i], scale(reduce, max_of(minus(c[i], m[i]), 0), slack))
        } else {
            c[i]
        };
        out.push(max_of(x, m[i]));
        i += 1;
    }
    proof {
        assert(out@ =~= shrunk(c@, m@, reduce as int));
    }
    out
}

/// Fit the columns to `target`: growing in proportion, or shrinking within what
/// each column has above its minimum. Where even the minima do not fit, the
/// columns keep them and the table overflows.
pub fn scale_to(c: &Vec<i64>, target: i64, m: &Vec<i64>) -> (r: Vec<i64>)
    requires
        m@.len() == c@.len(),
    ensures
        r@ == fit_to(c@, target as int, m@),
        r@.len() == c@.len(),
{
    let have: i64 = sum_all(c);
    if have <= 0 || have == target {
        let mut out: Vec<i64> = Vec::new();
        let mut k: usize = 0;
        while k < c.len()
            invariant
                k <= c@.len(),
                out@ == c@.take(k as int),
            decreases c@.len() - k,
        {
            proof {
                assert(c@.take(k as int + 1) =~= c@.take(k as int).push(c@[k as int]));
            }
            out.push(c[k]);
            k += 1;
        }
        proof {
            assert(c@.take(k as int) =~= c@);
        }
        return out;
    }
    if target >= have {
        grow_columns(c, target, have)
    } else {
        shrink_columns(c, m, minus(have, target))
    }
}

/// A table's column widths: fixed layout by the first row, else by content,
/// fitted to the declared width or to no more than what is available.
pub open spec fn columns_of(
    m: StyleMap,
    v: Seq<Slot>,
    ncols: nat,
    cw: i64,
    declared: Seq<Option<i64>>,
    natural: Seq<i64>,
    min: Seq<i64>,
    vp: Viewport,
) -> Seq<i64> {
    if has_fixed_layout(m) {
        shared(first_row(v, declared, ncols, v.len()), cw as int)
    } else {
        let cols = natural_columns(v, natural, ncols);
        let target = if declares_width(m, cw, vp) {
            cw as int
        } else {
            least(total_of(cols), cw as int)
        };
        fit_to(cols, target, widest(v, min, ncols, v.len()))
    }
}

/// The column widths of a table of content width `cw`. `declared`, `natural` and
/// `min` give each cell's declared width, its width on one line, and its width
/// broken as far as it goes.
pub fn column_widths(
    style: &ComputedStyle,
    v: &Vec<Slot>,
    ncols: usize,
    cw: i64,
    declared: &Vec<Option<i64>>,
    natural: &Vec<i64>,
    min: &Vec<i64>,
    vp: Viewport,
) -> (r: Vec<i64>)
    requires
        within(v@, ncols as int),
        declared@.len() == v@.len(),
        natural@.len() == v@.len(),
        min@.len() == v@.len(),
        ncols <= i64::MAX,
    ensures
        r@ == columns_of(style@, v@, ncols as nat, cw, declared@, natural@, min@, vp),
        r@.len() == ncols,
{
    if is_fixed(style) {
        return fixed_columns(v, declared, ncols, cw);
    }
    let cols = auto_columns(v, natural, ncols);
    let target: i64 = if has_explicit_width(style, cw, vp) {
        cw
    } else {
        min_of(sum_all(&cols), cw)
    };
    let mins = min_columns(v, min, ncols);
    scale_to(&cols, target, &mins)
}

/// A column fitted to a narrower width is never narrower than its minimum, so no
/// content is cut.
pub proof fn law_shrinking_respects_minima(c: Seq<i64>, target: int, m: Seq<i64>)
    requires
        m.len() == c.len(),
        total_of(c) > 0,
        target < total_of(c),
    ensures
        forall|i: int| 0 <= i < c.len() ==> fit_to(c, target, m)[i] >= m[i],
{
    let r = fit_to(c, target, m);
    assert forall|i: int| 0 <= i < c.len() implies r[i] >= m[i] by {
        lemma_shrunk_fits(c, m, diff(total_of(c), target), i);
    }
}

proof fn lemma_shrunk_fits(c: Seq<i64>, m: Seq<i64>, reduce: int, i: int)
    requires
        m.len() == c.len(),
        0 <= i < c.len(),
    ensures
        shrunk(c, m, reduce)[i] >= m[i],
{
}

} // verus!
