//! What always holds of runs of text, measured widths, sized images and painted boxes.

use vstd::prelude::*;
use vstd::string::*;

use crate::image::{Images, Intrinsic};
use crate::layout::block::Frame;
use crate::layout::blocklaws::{side_frame, small, small_edges, SMALL};
use crate::layout::boxgen::{BoxV, ItemV, KindV};
use crate::layout::flex::axis_gap;
use crate::layout::fragment::{ContentV, FragV};
use crate::layout::imgsize::{
    capped, height_cap, in_proportion, natural_size, pixels, side_length, SizeCtx,
};
use crate::layout::inline::{jobs_among, jobs_in, line_atoms, run_for, runs_of, text_frags, LineV};
use crate::layout::items::offered_width;
use crate::layout::engine::Env;
use crate::layout::length::{LengthPct, Viewport};
use crate::layout::measure::{
    atoms_min, atoms_natural, ceil_px, frame_of, item_margin, lays_in_row, measure_ctx, min_content,
    min_inner, natural, natural_content, row_natural, source_size, text_width, widest_min,
    widest_natural, Sources, TextWidth,
};
use crate::layout::paint::{
    image_box, placed_transform, radius_of, size_ctx_of, with_images, ContentRect,
};
use crate::layout::transform::{AngleTrig, TransformV};
use crate::layout::value::{box_style_in, BoxStyleV, ResolveCtx};
use crate::layout::valuelaws::says;
use crate::number::{round_div, LIMIT, ONE};
use crate::readlaws::law_rounding;
use crate::style::StyleMap;
use crate::text::registry::{law_selects_unless_empty, selected, RegistryV};

verus! {

// --------------------------------------------------------------------------
// runs of text
// --------------------------------------------------------------------------

/// A run has the text of its node, in the font, the color and the place in its line that its
/// style says; it is kept on one line where the style forbids breaking. There is one
/// wherever there is a face.
pub proof fn law_runs_have_their_style(
    id: int,
    m: StyleMap,
    text: Seq<char>,
    fs: i64,
    cw: i64,
    fonts: RegistryV,
    vp: Viewport,
)
    ensures
        ({
            let s = box_style_in(m, ResolveCtx { parent_font_size: fs, cb_width: cw, viewport: vp });
            &&& fonts.all().len() > 0 ==> run_for(id, m, text, fs, cw, fonts, vp) is Some
            &&& fonts.all().len() == 0 ==> run_for(id, m, text, fs, cw, fonts, vp) is None
            &&& run_for(id, m, text, fs, cw, fonts, vp) matches Some(r) ==> {
                &&& r.id == id && r.text == text
                &&& r.families == s.font_families && r.weight == s.font_weight && r.italic == s.italic
                &&& r.font_size == s.font_size && r.line_height == s.line_height
                &&& r.letter_spacing == s.letter_spacing && r.color == s.color && r.valign
                    == s.vertical_align
                &&& r.nowrap <==> says(m, "white-space"@, "nowrap"@) || says(
                    m,
                    "white-space"@,
                    "pre"@,
                )
                &&& selected(fonts, s.font_families, s.font_weight, s.italic) matches Some(i)
                    ==> r.face == fonts.all()[i].source
            }
        }),
{
    reveal(run_for);
    let s = box_style_in(m, ResolveCtx { parent_font_size: fs, cb_width: cw, viewport: vp });
    law_selects_unless_empty(fonts, s.font_families, s.font_weight, s.italic);
}

/// The texts of a paragraph make its runs in order; other items make none.
pub proof fn law_runs_in_order(
    v: Seq<ItemV>,
    n: ItemV,
    fs: i64,
    cw: i64,
    fonts: RegistryV,
    vp: Viewport,
)
    ensures
        ({
            let before = runs_of(v, fs, cw, fonts, vp, v.len());
            let after = runs_of(v.push(n), fs, cw, fonts, vp, v.len() + 1);
            &&& n matches ItemV::Text { id, style, text } ==> (run_for(
                id,
                style,
                text,
                fs,
                cw,
                fonts,
                vp,
            ) matches Some(r) ==> after == before.push(r))
            &&& !(n is Text) ==> after == before
        }),
        runs_of(Seq::empty(), fs, cw, fonts, vp, 0).len() == 0,
{
    lemma_runs_prefix(v, n, fs, cw, fonts, vp, v.len());
    assert(v.push(n)[v.len() as int] == n);
}

proof fn lemma_runs_prefix(
    v: Seq<ItemV>,
    n: ItemV,
    fs: i64,
    cw: i64,
    fonts: RegistryV,
    vp: Viewport,
    k: nat,
)
    requires
        k <= v.len(),
    ensures
        runs_of(v.push(n), fs, cw, fonts, vp, k) == runs_of(v, fs, cw, fonts, vp, k),
    decreases k,
{
    if k > 0 {
        lemma_runs_prefix(v, n, fs, cw, fonts, vp, (k - 1) as nat);
        assert(v.push(n)[k - 1] == v[k - 1]);
    }
}

proof fn lemma_jobs_prefix(a: Seq<BoxV>, b: Seq<BoxV>, fonts: RegistryV, vp: Viewport, k: nat)
    requires
        k <= a.len(),
    ensures
        jobs_among(a + b, fonts, vp, k) == jobs_among(a, fonts, vp, k),
    decreases k,
{
    if k > 0 {
        lemma_jobs_prefix(a, b, fonts, vp, (k - 1) as nat);
        assert((a + b)[k - 1] == a[k - 1]);
    }
}

/// The paragraphs of boxes side by side are those of each, in order; those of a container are
/// those of what it contains, and a paragraph comes before those inside it.
pub proof fn law_paragraphs_in_order(v: Seq<BoxV>, b: BoxV, fonts: RegistryV, vp: Viewport)
    ensures
        jobs_among(v.push(b), fonts, vp, v.len() + 1) == jobs_among(v, fonts, vp, v.len()) + jobs_in(
            b,
            fonts,
            vp,
        ),
        b.kind == KindV::Block(v) || b.kind == KindV::Flex(v) || b.kind == KindV::Grid(v) || b.kind
            == KindV::Table(v) ==> jobs_in(b, fonts, vp) == jobs_among(v, fonts, vp, v.len()),
        b.kind is Lines ==> jobs_in(b, fonts, vp).len() > 0 && jobs_in(b, fonts, vp)[0].id == b.id,
        b.kind is Directive ==> jobs_in(b, fonts, vp).len() == 0,
{
    assert(v.push(b) =~= v + seq![b]);
    lemma_jobs_prefix(v, seq![b], fonts, vp, v.len());
    assert(v.push(b)[v.len() as int] == b);
    reveal_with_fuel(jobs_in, 2);
    reveal_with_fuel(jobs_among, 2);
}

/// Each run of a line stands at the indent and the top of its line in the paragraph, and is
/// as large as the line.
pub proof fn law_runs_stand_in_their_line(v: Seq<LineV>, l: LineV, cx: int, cy: int, i: int)
    requires
        small(cx) && small(cy) && small(l.indent) && small(l.top),
        0 <= i < l.runs.len(),
    ensures
        ({
            let before = text_frags(v, cx, cy, v.len());
            let after = text_frags(v.push(l), cx, cy, v.len() + 1);
            let g = after[before.len() + i];
            &&& after.len() == before.len() + l.runs.len()
            &&& after.take(before.len() as int) == before
            &&& g.x == cx + l.indent && g.y == cy + l.top && g.width == l.width && g.height
                == l.height
            &&& g.id == l.runs[i].id && g.content == ContentV::TextLine(l.runs[i].text)
            &&& g.children.len() == 0
        }),
{
    lemma_text_prefix(v, l, cx, cy, v.len());
    assert(v.push(l)[v.len() as int] == l);
    let before = text_frags(v, cx, cy, v.len());
    let after = text_frags(v.push(l), cx, cy, v.len() + 1);
    assert(after.take(before.len() as int) =~= before);
}

proof fn lemma_text_prefix(v: Seq<LineV>, l: LineV, cx: int, cy: int, k: nat)
    requires
        k <= v.len(),
    ensures
        text_frags(v.push(l), cx, cy, k) == text_frags(v, cx, cy, k),
    decreases k,
{
    if k > 0 {
        lemma_text_prefix(v, l, cx, cy, (k - 1) as nat);
        assert(v.push(l)[k - 1] == v[k - 1]);
    }
}

/// A box in a line stands where its line and its place in it say.
pub proof fn law_atoms_stand_in_their_line(l: LineV, atoms: Seq<FragV>, cx: int, cy: int, k: nat)
    requires
        0 < k <= l.atoms.len(),
        l.atoms[k - 1].id < atoms.len(),
        ({
            let p = l.atoms[k - 1];
            let f = atoms[p.id as int];
            small(cx) && small(cy) && small(l.indent) && small(l.top) && small(p.x as int) && small(
                p.y as int,
            ) && small(f.x) && small(f.y)
        }),
    ensures
        ({
            let p = l.atoms[k - 1];
            let f = atoms[p.id as int];
            let out = line_atoms(l, atoms, cx, cy, k);
            &&& out.len() == line_atoms(l, atoms, cx, cy, (k - 1) as nat).len() + 1
            &&& out.last().x == cx + l.indent + p.x + f.x
            &&& out.last().y == cy + l.top + p.y + f.y
            &&& out.last().width == f.width && out.last().height == f.height
        }),
{
}

// --------------------------------------------------------------------------
// measured widths
// --------------------------------------------------------------------------

/// A length is rounded up to whole px, by less than one.
pub proof fn law_rounding_up(v: int)
    requires
        small(v),
    ensures
        v <= ceil_px(v) < v + 1_000_000,
        ceil_px(v) % 1_000_000 == 0,
{
    let q = (-v) / 1_000_000;
    let r = (-v) % 1_000_000;
    assert(-v == q * 1_000_000 + r && 0 <= r < 1_000_000);
    assert(-q * ONE == (-q) * 1_000_000);
}

/// The measured width of a text is that of the first entry of its box, and nothing without
/// one.
pub proof fn law_text_widths(t: Seq<TextWidth>, i: int, id: int)
    ensures
        0 <= i < t.len() && t[i].id == id && (forall|j: int| 0 <= j < i ==> (#[trigger] t[j]).id != id)
            ==> text_width(t, id) == t[i],
        (forall|j: int| 0 <= j < t.len() ==> (#[trigger] t[j]).id != id) ==> text_width(t, id).natural
            == 0 && text_width(t, id).min == 0,
    decreases t.len(),
{
    if t.len() > 0 && t[0].id != id {
        law_text_widths(t.skip(1), i - 1, id);
        assert forall|j: int| 0 <= j < t.len() - 1 implies #[trigger] t.skip(1)[j] == t[j + 1] by {}
        if 0 <= i < t.len() && t[i].id == id {
            assert(i > 0);
            assert(t.skip(1)[i - 1] == t[i]);
        }
    }
}

/// The frame of a box is its padding and borders at both sides.
pub proof fn law_side_frames(s: BoxStyleV)
    requires
        small_edges(s),
    ensures
        frame_of(s) == side_frame(s),
{
}

/// A box with a width of its own is that wide, its frame added, however wide its content is.
pub proof fn law_own_widths_count(b: BoxV, env: Sources, w: i64)
    requires
        box_style_in(b.style, measure_ctx(env.viewport)).width == LengthPct::Px(w),
        0 <= w <= SMALL,
        small_edges(box_style_in(b.style, measure_ctx(env.viewport))),
    ensures
        natural(b, env) == w + side_frame(box_style_in(b.style, measure_ctx(env.viewport))),
        min_content(b, env) == w + side_frame(box_style_in(b.style, measure_ctx(env.viewport))),
{
    reveal_with_fuel(natural, 2);
    reveal_with_fuel(min_content, 2);
}

/// A box without one is as wide as its content, its frame added.
pub proof fn law_contents_count(b: BoxV, env: Sources)
    requires
        box_style_in(b.style, measure_ctx(env.viewport)).width is Auto,
        b.image is None,
        small_edges(box_style_in(b.style, measure_ctx(env.viewport))),
        0 <= natural_content(b, env) <= SMALL,
        0 <= min_inner(b, env) <= SMALL,
    ensures
        natural(b, env) == natural_content(b, env) + side_frame(
            box_style_in(b.style, measure_ctx(env.viewport)),
        ),
        min_content(b, env) == min_inner(b, env) + side_frame(
            box_style_in(b.style, measure_ctx(env.viewport)),
        ),
{
    reveal_with_fuel(natural, 2);
    reveal_with_fuel(min_content, 2);
    reveal_with_fuel(natural_content, 2);
    reveal_with_fuel(min_inner, 2);
}

proof fn lemma_widest(v: Seq<BoxV>, env: Sources, k: nat)
    requires
        k <= v.len(),
    ensures
        widest_natural(v, env, k) >= 0,
        forall|i: int| 0 <= i < k ==> widest_natural(v, env, k) >= natural(#[trigger] v[i], env),
        widest_natural(v, env, k) == 0 || exists|i: int|
            0 <= i < k && widest_natural(v, env, k) == natural(#[trigger] v[i], env),
        widest_min(v, env, k) >= 0,
        forall|i: int| 0 <= i < k ==> widest_min(v, env, k) >= min_content(#[trigger] v[i], env),
        widest_min(v, env, k) == 0 || exists|i: int|
            0 <= i < k && widest_min(v, env, k) == min_content(#[trigger] v[i], env),
    decreases k,
{
    reveal_with_fuel(widest_natural, 2);
    reveal_with_fuel(widest_min, 2);
    reveal_with_fuel(natural, 1);
    reveal_with_fuel(min_content, 1);
    if k > 0 {
        lemma_widest(v, env, (k - 1) as nat);
    }
}

/// A container that stacks its boxes is as wide as the widest of them, on one line and at
/// least.
pub proof fn law_stacks_are_as_wide_as_the_widest(b: BoxV, env: Sources, v: Seq<BoxV>, i: int)
    requires
        b.kind == KindV::Block(v) || b.kind == KindV::Grid(v) || b.kind == KindV::Table(v) || (b.kind
            == KindV::Flex(v) && !lays_in_row(b.style)),
    ensures
        0 <= i < v.len() ==> natural_content(b, env) >= natural(v[i], env) && min_inner(b, env)
            >= min_content(v[i], env),
        natural_content(b, env) == 0 || exists|j: int|
            0 <= j < v.len() && natural_content(b, env) == natural(#[trigger] v[j], env),
        min_inner(b, env) == 0 || exists|j: int|
            0 <= j < v.len() && min_inner(b, env) == min_content(#[trigger] v[j], env),
{
    reveal_with_fuel(natural_content, 2);
    reveal_with_fuel(min_inner, 2);
    lemma_widest(v, env, v.len());
    assert(natural_content(b, env) == widest_natural(v, env, v.len()));
    assert(min_inner(b, env) == widest_min(v, env, v.len()));
}

/// The plain sum of the widths and margins of boxes side by side.
pub open spec fn side_by_side(v: Seq<BoxV>, env: Sources, k: nat) -> int
    decreases k,
{
    if k == 0 || k > v.len() {
        0
    } else {
        side_by_side(v, env, (k - 1) as nat) + natural(v[k - 1], env) + item_margin(
            v[k - 1].style,
            env.viewport,
        )
    }
}

/// Whether boxes and their margins can be added up.
pub open spec fn countable_row(v: Seq<BoxV>, env: Sources) -> bool {
    v.len() <= 100_000 && forall|i: int|
        0 <= i < v.len() ==> 0 <= natural(#[trigger] v[i], env) <= 1_000_000_000 && 0 <= item_margin(
            v[i].style,
            env.viewport,
        ) <= 1_000_000_000
}

proof fn lemma_row(v: Seq<BoxV>, env: Sources, k: nat)
    requires
        k <= v.len(),
        countable_row(v, env),
    ensures
        row_natural(v, env, k) == side_by_side(v, env, k),
        0 <= row_natural(v, env, k) <= k * 2_000_000_000,
    decreases k,
{
    reveal_with_fuel(row_natural, 2);
    if k > 0 {
        lemma_row(v, env, (k - 1) as nat);
        assert(0 <= natural(v[k - 1], env) <= 1_000_000_000);
    }
}

/// A row of flex items is as wide as all of them with their margins and the gaps between
/// them.
pub proof fn law_rows_add_up(b: BoxV, env: Sources, v: Seq<BoxV>)
    requires
        b.kind == KindV::Flex(v),
        lays_in_row(b.style),
        v.len() > 0,
        countable_row(v, env),
        0 <= axis_gap(b.style, "column-gap"@, env.viewport) <= 1_000_000_000,
    ensures
        natural_content(b, env) == side_by_side(v, env, v.len()) + (v.len() - 1) * axis_gap(
            b.style,
            "column-gap"@,
            env.viewport,
        ),
{
    reveal_with_fuel(natural_content, 2);
    lemma_row(v, env, v.len());
    let g = axis_gap(b.style, "column-gap"@, env.viewport) as int;
    let n = v.len() - 1;
    assert(0 <= g * n <= 100_000_000_000_000) by (nonlinear_arith)
        requires
            0 <= g <= 1_000_000_000,
            0 <= n <= 100_000,
    ;
    law_rounding(g * n, 1);
    assert(n * g == g * n) by (nonlinear_arith);
}

/// Items take their margins as far as these are positive.
pub proof fn law_item_margins(m: StyleMap, vp: Viewport)
    requires
        small_edges(box_style_in(m, measure_ctx(vp))),
    ensures
        ({
            let s = box_style_in(m, measure_ctx(vp));
            &&& s.margin.left >= 0 && s.margin.right >= 0 ==> item_margin(m, vp) == s.margin.left
                + s.margin.right
            &&& s.margin.left < 0 && s.margin.right < 0 ==> item_margin(m, vp) == 0
            &&& s.margin.left < 0 && s.margin.right >= 0 ==> item_margin(m, vp) == s.margin.right
        }),
{
}

/// A paragraph without boxes in it is as wide as its text, in whole px; at least it is as
/// wide as its longest word.
pub proof fn law_paragraph_widths(b: BoxV, env: Sources, v: Seq<ItemV>)
    requires
        b.kind == KindV::Lines(v),
        forall|i: int| 0 <= i < v.len() ==> !((#[trigger] v[i]) is Atomic),
        0 <= text_width(env.text, b.id).natural <= SMALL,
        0 <= text_width(env.text, b.id).min <= SMALL,
    ensures
        natural_content(b, env) == ceil_px(text_width(env.text, b.id).natural as int),
        min_inner(b, env) == text_width(env.text, b.id).min,
{
    reveal_with_fuel(natural_content, 2);
    reveal_with_fuel(min_inner, 2);
    lemma_no_atoms(v, env, v.len());
    law_rounding_up(text_width(env.text, b.id).natural as int);
}

proof fn lemma_no_atoms(v: Seq<ItemV>, env: Sources, k: nat)
    requires
        k <= v.len(),
        forall|i: int| 0 <= i < v.len() ==> !((#[trigger] v[i]) is Atomic),
    ensures
        atoms_natural(v, env, k) == 0,
        atoms_min(v, env, k) == 0,
    decreases k,
{
    reveal_with_fuel(atoms_natural, 2);
    reveal_with_fuel(atoms_min, 2);
    if k > 0 {
        lemma_no_atoms(v, env, (k - 1) as nat);
        assert(!(v[k - 1] is Atomic));
    }
}

/// Boxes in a line add their widths to it, and it is at least as wide as each of them.
pub proof fn law_boxes_in_lines_count(v: Seq<ItemV>, env: Sources, k: nat, b: BoxV)
    requires
        0 < k <= v.len(),
        v[k - 1] == ItemV::Atomic(b),
        0 <= atoms_natural(v, env, (k - 1) as nat) <= SMALL,
        0 <= natural(b, env) <= SMALL,
    ensures
        atoms_natural(v, env, k) == atoms_natural(v, env, (k - 1) as nat) + natural(b, env),
        atoms_min(v, env, k) >= min_content(b, env),
        atoms_min(v, env, k) >= atoms_min(v, env, (k - 1) as nat),
{
    reveal_with_fuel(atoms_natural, 2);
    reveal_with_fuel(atoms_min, 2);
}

/// An item takes the width it is given, else that of its content, but no more than it is
/// offered.
pub proof fn law_items_take_what_is_offered(b: BoxV, known: Option<i64>, offer: Option<i64>, env: Env)
    ensures
        known matches Some(w) ==> offered_width(b, known, offer, env) == w,
        known is None ==> (offer matches Some(o) ==> offered_width(b, known, offer, env) <= o),
        known is None ==> offered_width(b, known, offer, env) <= natural(b, env.sources()),
        known is None && offer is None ==> offered_width(b, known, offer, env) == natural(
            b,
            env.sources(),
        ),
        known is None ==> (offer matches Some(o) ==> (natural(b, env.sources()) <= o
            ==> offered_width(b, known, offer, env) == natural(b, env.sources()))),
{
}

// --------------------------------------------------------------------------
// images
// --------------------------------------------------------------------------

/// An image is as large as its style says; with one side given the other keeps its
/// proportions, and with none it has a px for each of its own.
pub proof fn law_image_sizes(i: Intrinsic, ctx: SizeCtx, a: i64)
    requires
        0 < i.width <= 1_000_000,
        0 < i.height <= 1_000_000,
        0 <= a <= 1_000_000_000,
    ensures
        ({
            let (w, h) = natural_size(i, ctx);
            let (iw, ih) = (i.width as int * 1_000_000, i.height as int * 1_000_000);
            &&& ctx.width is Auto && ctx.height is Auto ==> w == iw && h == ih
            &&& ctx.width == LengthPct::Px(a) ==> w == a
            &&& ctx.height == LengthPct::Px(a) ==> h == a
            &&& ctx.width == LengthPct::Px(a) && ctx.height is Auto ==> -iw <= 2 * (h * iw - a * ih)
                <= iw
            &&& ctx.width is Auto && ctx.height == LengthPct::Px(a) ==> -ih <= 2 * (w * ih - a * iw)
                <= ih
        }),
{
    let (iw, ih) = (i.width as int * 1_000_000, i.height as int * 1_000_000);
    assert(pixels(i.width) == iw && pixels(i.height) == ih);
    lemma_in_proportion(a as int, iw, ih);
    lemma_in_proportion(a as int, ih, iw);
}

proof fn lemma_in_proportion(given: int, base: int, other: int)
    requires
        0 <= given <= 1_000_000_000,
        1_000_000 <= base <= 1_000_000_000_000,
        0 <= other <= 1_000_000_000_000,
    ensures
        -base <= 2 * (in_proportion(given, base, other) * base - given * other) <= base,
{
    let x = given * other;
    assert(0 <= x <= 1_000_000_000_000_000_000_000) by (nonlinear_arith)
        requires
            x == given * other,
            0 <= given <= 1_000_000_000,
            0 <= other <= 1_000_000_000_000,
    ;
    law_rounding(x, base);
    let q = round_div(x, base);
    assert(-LIMIT <= q <= LIMIT) by (nonlinear_arith)
        requires
            -base <= 2 * (q * base - x) <= base,
            0 <= x <= 1_000_000_000_000_000_000_000,
            base >= 1_000_000,
            LIMIT == 1_000_000_000_000_000,
    ;
}

/// A percentage of the height goes by the height of the container, and is no length where
/// that is open.
pub proof fn law_image_sides(v: LengthPct, basis: i64)
    ensures
        v matches LengthPct::Px(x) ==> side_length(v, None) == Some(x as int) && side_length(
            v,
            Some(basis),
        ) == Some(x as int),
        v is Auto ==> side_length(v, Some(basis)) is None && side_length(v, None) is None,
        v is Pct ==> side_length(v, None) is None && side_length(v, Some(basis)) == v.length(
            basis as int,
        ),
{
}

/// An image that fits its container and its page keeps its size; no image is higher than six
/// tenths of the page's body.
pub proof fn law_fitting_images_keep_their_size(w: int, h: int, ctx: SizeCtx)
    requires
        0 <= w <= LIMIT,
        0 <= h <= LIMIT,
        ctx.cb_width >= w,
        ctx.body_height matches Some(b) ==> b <= SMALL && h * 10 + 10 <= b * 6,
    ensures
        capped(w, h, ctx) == (w, h),
        ctx.body_height matches Some(b) ==> (0 <= b <= SMALL ==> (height_cap(ctx) matches Some(m)
            && -10 <= 2 * (m * 10 - b * 6) <= 10)),
        ctx.body_height is None ==> height_cap(ctx) is None,
{
    law_rounding(w, 1);
    law_rounding(h, 1);
    if let Some(b) = ctx.body_height {
        law_rounding(b * 6, 10);
    }
}

/// An image too wide for its container is made as wide as that, and its height goes with it.
pub proof fn law_wide_images_shrink(w: int, h: int, ctx: SizeCtx)
    requires
        0 < ctx.cb_width < w <= 1_000_000_000_000,
        0 <= h <= 1_000_000_000_000,
        ctx.body_height is None,
    ensures
        capped(w, h, ctx).0 == ctx.cb_width,
        -w <= 2 * (capped(w, h, ctx).1 * w - h * ctx.cb_width) <= w,
{
    let c = ctx.cb_width as int;
    law_rounding(w * c, w);
    let q = round_div(w * c, w);
    assert(q == c) by (nonlinear_arith)
        requires
            -w <= 2 * (q * w - w * c) <= w,
            w > 1,
    ;
    let x = h * c;
    law_rounding(x, w);
    let r = round_div(x, w);
    assert(-LIMIT <= r <= LIMIT) by (nonlinear_arith)
        requires
            -w <= 2 * (r * w - x) <= w,
            x == h * c,
            0 <= h <= 1_000_000_000_000,
            0 < c < w,
            LIMIT == 1_000_000_000_000_000,
    ;
}

/// The percentage sides of an image go by the content width of its container and by its
/// height where that is known: for a positioned image that of its containing block.
pub proof fn law_images_are_sized_by_their_container(s: BoxStyleV, cb: i64, f: Frame, body: Option<i64>)
    ensures
        ({
            let c = size_ctx_of(s, cb, f, body);
            &&& c.width == s.width && c.height == s.height && c.cb_width == cb && c.body_height == body
            &&& s.position is Static && f.cb_h > 0 ==> c.cb_height == Some(f.cb_h)
            &&& s.position is Static && f.cb_h <= 0 ==> c.cb_height is None
            &&& !(s.position is Static) && f.abs_h > 0 ==> c.cb_height == Some(f.abs_h)
            &&& !(s.position is Static) && f.abs_h <= 0 ==> c.cb_height is None
        }),
{
}

/// A replaced image stands where it is put, as large as it comes to, and shows the image of
/// its name; what is no image, or does not resolve, is none.
pub proof fn law_image_boxes(
    b: BoxV,
    s: BoxStyleV,
    x: i64,
    y: i64,
    cb: i64,
    f: Frame,
    images: Images,
    body: Option<i64>,
    name: Seq<char>,
)
    requires
        b.image == Some((name, true)),
    ensures
        source_size(images, name) is None ==> image_box(b, s, x, y, cb, f, images, body) is None,
        source_size(images, name) matches Some(i) ==> (image_box(
            b,
            s,
            x,
            y,
            cb,
            f,
            images,
            body,
        ) matches Some(g) && g.x == x && g.y == y && g.id == b.id as u32 && g.children.len() == 0
            && g.z_index == s.z_index && g.is_positioned == !(s.position is Static) && ({
            let n = natural_size(i, size_ctx_of(s, cb, f, body));
            (g.width, g.height) == capped(n.0, n.1, size_ctx_of(s, cb, f, body))
        }) && (g.content matches ContentV::Image(p) && p.name == name && p.intrinsic_w == i.width
            && p.intrinsic_h == i.height && p.has_alpha == i.has_alpha && p.tint is None)),
        image_box(BoxV { image: None, ..b }, s, x, y, cb, f, images, body) is None,
        image_box(BoxV { image: Some((name, false)), ..b }, s, x, y, cb, f, images, body) is None,
{
    reveal(image_box);
}

// --------------------------------------------------------------------------
// paint
// --------------------------------------------------------------------------

/// A corner is as round as its style says, but no rounder than half the shorter side.
pub proof fn law_corners(r: i64, w: int, h: int)
    requires
        0 <= w <= SMALL,
        0 <= h <= SMALL,
        0 <= r <= SMALL,
    ensures
        2 * r <= w && 2 * r <= h ==> radius_of(LengthPct::Px(r), w, h) == r,
        radius_of(LengthPct::Auto, w, h) == 0,
{
    law_rounding(w, 2);
    law_rounding(h, 2);
}

/// A transform is placed by its box: its translation and its origin go by the width and the
/// height.
pub proof fn law_transforms_are_placed(s: BoxStyleV, t: TransformV, w: int, h: int, trig: Seq<AngleTrig>)
    requires
        s.transform == Some(t),
        t.tx.length(w) matches Some(v) ==> small(v),
        t.ty.length(h) matches Some(v) ==> small(v),
        s.transform_origin.0.length(w) matches Some(v) ==> small(v),
        s.transform_origin.1.length(h) matches Some(v) ==> small(v),
    ensures
        placed_transform(s, w, h, trig) matches Ok(x) ==> (x matches Some(p) && (t.tx.length(
            w,
        ) matches Some(v) ==> p.e == v) && (t.ty.length(h) matches Some(v) ==> p.f == v) && (
        s.transform_origin.0.length(w) matches Some(v) ==> p.origin_x == v) && (
        s.transform_origin.1.length(h) matches Some(v) ==> p.origin_y == v)),
{
}

/// The background of a box is painted behind its mask, and both behind what it contains; both
/// fill its content box, and the mask has the color of the fill or else of the text.
pub proof fn law_images_behind_content(
    b: BoxV,
    s: BoxStyleV,
    r: ContentRect,
    images: Images,
    kids: Seq<FragV>,
    back: Seq<char>,
    mask: Seq<char>,
)
    requires
        b.image == Some((back, false)),
        b.mask == Some(mask),
        source_size(images, back) is Some,
        source_size(images, mask) is Some,
    ensures
        ({
            let v = with_images(b, s, r, images, kids);
            &&& v.len() == kids.len() + 2
            &&& v.skip(2) == kids
            &&& v[0].content matches ContentV::Image(p) && p.name == back && p.tint is None
            &&& v[1].content matches ContentV::Image(p) && p.name == mask && p.tint == Some(
                match s.background {
                    Some(c) => c,
                    None => s.color,
                },
            )
            &&& v[0].x == r.x && v[0].y == r.y && v[0].width == r.w && v[0].height == r.h
            &&& v[1].x == r.x && v[1].y == r.y && v[1].width == r.w && v[1].height == r.h
            &&& v[0].id == b.id as u32 && v[1].id == b.id as u32
        }),
{
    assert(with_images(b, s, r, images, kids).skip(2) =~= kids);
}

/// A box without images of its own, or with none that resolves, paints only what it contains.
pub proof fn law_plain_boxes_paint_their_content(
    b: BoxV,
    s: BoxStyleV,
    r: ContentRect,
    images: Images,
    kids: Seq<FragV>,
)
    requires
        b.image is None || (b.image matches Some((n, p)) && p),
        b.mask is None,
    ensures
        with_images(b, s, r, images, kids) == kids,
{
}

/// An image too high for its page is made as high as it may be, and its width goes with it.
pub proof fn law_high_images_shrink(w: int, h: int, ctx: SizeCtx, m: int)
    requires
        height_cap(ctx) == Some(m),
        0 < m < h <= 1_000_000_000_000,
        0 <= w <= 1_000_000_000_000,
        ctx.cb_width >= w,
    ensures
        capped(w, h, ctx).1 == m,
        -h <= 2 * (capped(w, h, ctx).0 * h - w * m) <= h,
{
    assert(m * 1 <= 1 * h);
    law_rounding(h * m, h);
    let q = round_div(h * m, h);
    assert(q == m) by (nonlinear_arith)
        requires
            -h <= 2 * (q * h - h * m) <= h,
            h > 1,
    ;
    let x = w * m;
    law_rounding(x, h);
    let r = round_div(x, h);
    assert(-LIMIT <= r <= LIMIT) by (nonlinear_arith)
        requires
            -h <= 2 * (r * h - x) <= h,
            x == w * m,
            0 <= w <= 1_000_000_000_000,
            0 < m < h,
            LIMIT == 1_000_000_000_000_000,
    ;
}

/// A replaced image without a width of its own counts with its pixels, its frame added, on
/// one line and at least.
pub proof fn law_replaced_widths(b: BoxV, env: Sources, name: Seq<char>)
    requires
        b.image == Some((name, true)),
        box_style_in(b.style, measure_ctx(env.viewport)).width is Auto,
        small_edges(box_style_in(b.style, measure_ctx(env.viewport))),
    ensures
        source_size(env.images, name) matches Some(i) ==> (i.width <= 1_000_000 ==> natural(b, env)
            == i.width * 1_000_000 + side_frame(box_style_in(b.style, measure_ctx(env.viewport)))
            && min_content(b, env) == natural(b, env)),
{
    reveal_with_fuel(natural, 2);
    reveal_with_fuel(min_content, 2);
}

} // verus!
