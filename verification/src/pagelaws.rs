//! What always holds of pages: where their parts stand, and in what order they are
//! painted.

use vstd::prelude::*;

use crate::emit::{PaintStep, bands_of, is_furniture, page_painted, painted, painted_among};
use crate::layout::fragment::{moved, FragV};
use crate::number::LIMIT;
use crate::paginate::{PageGeometry, PageKind, PageV, kind_of, page_of, pages_of};
use crate::render::{
    PageContext, Region, above, band_of, banded, overflows, region_lint, with_bands, with_region,
};
use crate::error::{LintCode, Span};

verus! {

// --------------------------------------------------------------------------
// painting
// --------------------------------------------------------------------------

/// How many fragments of a tree are no directives.
pub open spec fn visible_count(f: FragV) -> nat
    decreases f, 1int, 0nat,
{
    (if f.content is Directive {
        0nat
    } else {
        1
    }) + visible_among(f.children, f.children.len())
}

/// How many of the first `k` trees are no directives.
pub open spec fn visible_among(v: Seq<FragV>, k: nat) -> nat
    decreases v, 0int, k,
{
    if k == 0 || k > v.len() {
        0
    } else {
        visible_among(v, (k - 1) as nat) + visible_count(v[k - 1])
    }
}

proof fn lemma_painted_count(f: FragV)
    ensures
        painted(f).len() == visible_count(f),
    decreases f, 1int, 0nat,
{
    lemma_painted_among_count(f.children, f.children.len());
}

proof fn lemma_painted_among_count(v: Seq<FragV>, k: nat)
    requires
        k <= v.len(),
    ensures
        painted_among(v, k).len() == visible_among(v, k),
    decreases v, 0int, k,
{
    if k > 0 {
        lemma_painted_among_count(v, (k - 1) as nat);
        lemma_painted_count(v[k - 1]);
    }
}

/// The steps of the `i`th of a list of trees follow those of the trees before it.
proof fn lemma_painted_at(v: Seq<FragV>, k: nat, i: int, j: int)
    requires
        0 <= i < k <= v.len(),
        0 <= j < painted(v[i]).len(),
    ensures
        visible_among(v, i as nat) + j < painted_among(v, k).len(),
        painted_among(v, k)[visible_among(v, i as nat) + j] == painted(v[i])[j],
    decreases k,
{
    lemma_painted_among_count(v, (k - 1) as nat);
    lemma_painted_among_count(v, i as nat);
    if i < k - 1 {
        lemma_painted_at(v, (k - 1) as nat, i, j);
    }
}

/// A fragment that is no directive is painted first, and its children on top of it,
/// each after those before it.
pub proof fn law_children_are_painted_on_top(f: FragV, i: int, j: int)
    requires
        0 <= i < f.children.len(),
        0 <= j < painted(f.children[i]).len(),
    ensures
        !(f.content is Directive) ==> painted(f)[0] == PaintStep::Own(f),
        painted(f)[(if f.content is Directive {
            0int
        } else {
            1
        }) + visible_among(f.children, i as nat) + j] == painted(f.children[i])[j],
        painted(f).len() == visible_count(f),
{
    lemma_painted_at(f.children, f.children.len(), i, j);
    lemma_painted_count(f);
}

/// A page without anything but one of its bands.
pub open spec fn only_body(p: PageV) -> PageV {
    PageV { header: Seq::empty(), footer: Seq::empty(), footnotes: Seq::empty(), ..p }
}

pub open spec fn only_header(p: PageV) -> PageV {
    PageV { body: Seq::empty(), footer: Seq::empty(), footnotes: Seq::empty(), ..p }
}

pub open spec fn only_footer(p: PageV) -> PageV {
    PageV { body: Seq::empty(), header: Seq::empty(), footnotes: Seq::empty(), ..p }
}

pub open spec fn only_footnotes(p: PageV) -> PageV {
    PageV { body: Seq::empty(), header: Seq::empty(), footer: Seq::empty(), ..p }
}

/// A page is painted band by band: body, header, footer, footnotes.
pub proof fn law_bands_are_painted_in_order(p: PageV)
    ensures
        page_painted(p, false) == page_painted(only_body(p), false) + page_painted(
            only_header(p),
            false,
        ) + page_painted(only_footer(p), false) + page_painted(only_footnotes(p), false),
{
    assert(page_painted(p, false) =~= page_painted(only_body(p), false) + page_painted(
        only_header(p),
        false,
    ) + page_painted(only_footer(p), false) + page_painted(only_footnotes(p), false));
}

/// Every fragment of every band that is no directive is painted once: there are as
/// many steps as such fragments, and each fragment of a band comes after all of the
/// bands below and all before it in its own.
pub proof fn law_every_fragment_is_painted_once(p: PageV)
    ensures
        ({
            let b = visible_among(p.body, p.body.len()) as int;
            let h = visible_among(p.header, p.header.len()) as int;
            let f = visible_among(p.footer, p.footer.len()) as int;
            let n = visible_among(p.footnotes, p.footnotes.len()) as int;
            let s = page_painted(p, false);
            &&& s.len() == b + h + f + n
            &&& page_painted(p, true).len() == 1 + b + h + f + n
            &&& forall|i: int|
                0 <= i < p.body.len() && !((#[trigger] p.body[i]).content is Directive)
                    ==> s[visible_among(p.body, i as nat) as int] == PaintStep::Own(p.body[i])
            &&& forall|i: int|
                0 <= i < p.header.len() && !((#[trigger] p.header[i]).content is Directive)
                    ==> s[b + visible_among(p.header, i as nat)] == PaintStep::Own(p.header[i])
            &&& forall|i: int|
                0 <= i < p.footer.len() && !((#[trigger] p.footer[i]).content is Directive)
                    ==> s[b + h + visible_among(p.footer, i as nat)] == PaintStep::Own(p.footer[i])
            &&& forall|i: int|
                0 <= i < p.footnotes.len() && !((#[trigger] p.footnotes[i]).content is Directive)
                    ==> s[b + h + f + visible_among(p.footnotes, i as nat)] == PaintStep::Own(
                    p.footnotes[i],
                )
        }),
{
    lemma_painted_among_count(p.body, p.body.len());
    lemma_painted_among_count(p.header, p.header.len());
    lemma_painted_among_count(p.footer, p.footer.len());
    lemma_painted_among_count(p.footnotes, p.footnotes.len());
    let s = page_painted(p, false);
    let b = visible_among(p.body, p.body.len()) as int;
    let h = visible_among(p.header, p.header.len()) as int;
    let f = visible_among(p.footer, p.footer.len()) as int;
    assert forall|i: int| 0 <= i < p.body.len() && !((#[trigger] p.body[i]).content is Directive)
        implies s[visible_among(p.body, i as nat) as int] == PaintStep::Own(p.body[i]) by {
        lemma_painted_at(p.body, p.body.len(), i, 0);
    }
    assert forall|i: int|
        0 <= i < p.header.len() && !((#[trigger] p.header[i]).content is Directive) implies s[b
        + visible_among(p.header, i as nat)] == PaintStep::Own(p.header[i]) by {
        lemma_painted_at(p.header, p.header.len(), i, 0);
    }
    assert forall|i: int|
        0 <= i < p.footer.len() && !((#[trigger] p.footer[i]).content is Directive) implies s[b + h
        + visible_among(p.footer, i as nat)] == PaintStep::Own(p.footer[i]) by {
        lemma_painted_at(p.footer, p.footer.len(), i, 0);
    }
    assert forall|i: int|
        0 <= i < p.footnotes.len() && !((#[trigger] p.footnotes[i]).content is Directive)
        implies s[b + h + f + visible_among(p.footnotes, i as nat)] == PaintStep::Own(
        p.footnotes[i],
    ) by {
        lemma_painted_at(p.footnotes, p.footnotes.len(), i, 0);
    }
}

// --------------------------------------------------------------------------
// places
// --------------------------------------------------------------------------

/// Moving a fragment changes where it and everything in it stands, and nothing else.
pub proof fn law_moving_keeps_everything_else(f: FragV, dx: int, dy: int)
    ensures
        ({
            let g = moved(f, dx, dy);
            &&& -LIMIT <= f.x + dx <= LIMIT ==> g.x == f.x + dx
            &&& -LIMIT <= f.y + dy <= LIMIT ==> g.y == f.y + dy
            &&& g.width == f.width && g.height == f.height && g.id == f.id
            &&& g.content == f.content && g.break_meta == f.break_meta
            &&& g.z_index == f.z_index && g.is_positioned == f.is_positioned
            &&& g.children.len() == f.children.len()
            &&& forall|i: int|
                0 <= i < f.children.len() ==> #[trigger] g.children[i] == moved(
                    f.children[i],
                    dx,
                    dy,
                )
        }),
{
}

/// Whether a page's lengths are ones that can be added up.
pub open spec fn geometry_ok(g: PageGeometry) -> bool {
    let small = LIMIT / 8;
    &&& 0 <= g.width <= small && 0 <= g.height <= small
    &&& 0 <= g.margin.top <= small && 0 <= g.margin.bottom <= small
    &&& 0 <= g.margin.left <= small && 0 <= g.margin.right <= small
    &&& 0 <= g.header_extent <= small && 0 <= g.footer_extent <= small
}

/// From top to bottom a page is its top margin, the header's band, the body, the
/// footer's band and the bottom margin, with nothing between and nothing over another;
/// the body starts at the left margin.
pub proof fn law_bands_and_body_stack(g: PageGeometry)
    requires
        geometry_ok(g),
    ensures
        band_of(Region::Header, g).0 == g.header_extent,
        band_of(Region::Footer, g).0 == g.footer_extent,
        band_of(Region::Header, g).1 == g.margin.top,
        g.origin().1 == band_of(Region::Header, g).1 + g.header_extent,
        g.origin().1 + g.capacity() == band_of(Region::Footer, g).1,
        band_of(Region::Footer, g).1 + g.footer_extent + g.margin.bottom == g.height,
        g.origin().0 == g.margin.left,
        g.content_span() + g.margin.left + g.margin.right == g.width,
{
}

/// A page holds its body where the page's body starts, and nothing in the other bands;
/// it keeps the geometry and its number.
pub proof fn law_bodies_start_at_the_origin(g: PageGeometry, number: int, body: Seq<FragV>)
    requires
        geometry_ok(g),
    ensures
        ({
            let p = page_of(g, number, body);
            &&& p.geometry == g && p.number == number
            &&& p.header.len() == 0 && p.footer.len() == 0 && p.footnotes.len() == 0
            &&& p.body.len() == body.len()
            &&& forall|i: int|
                0 <= i < body.len() ==> #[trigger] p.body[i] == moved(
                    body[i],
                    g.margin.left as int,
                    g.margin.top + g.header_extent,
                )
        }),
{
}

/// Pages are cut from the bodies one for one and in order; only an empty body at the
/// end of several is left out.
pub proof fn law_one_page_for_each_body(g: PageGeometry, bodies: Seq<Seq<FragV>>)
    ensures
        bodies.len() <= 1 || bodies.last().len() > 0 ==> pages_of(g, bodies).len() == bodies.len(),
        bodies.len() > 1 && bodies.last().len() == 0 ==> pages_of(g, bodies).len() == bodies.len()
            - 1,
        forall|i: int|
            0 <= i < pages_of(g, bodies).len() ==> #[trigger] pages_of(g, bodies)[i] == page_of(
                g,
                i + 1,
                bodies[i],
            ),
{
}

/// The first page is the first, and after it left and right pages take turns.
pub proof fn law_kinds_take_turns(number: int)
    requires
        number >= 1,
    ensures
        kind_of(1) == PageKind::First,
        kind_of(2) == PageKind::Left,
        number >= 2 ==> (kind_of(number) == PageKind::Left) != (kind_of(number + 1)
            == PageKind::Left),
        number >= 2 ==> kind_of(number) == PageKind::Left || kind_of(number) == PageKind::Right,
{
}

/// A region knows its page's number and how many there are; it is on the first page
/// where that is one, and on the last where no page comes after.
pub proof fn law_contexts_tell_the_place(number: u32, total: u32)
    ensures
        PageContext::new(number, total).number == number,
        PageContext::new(number, total).total == total,
        PageContext::new(number, total).is_first <==> number == 1,
        PageContext::new(number, total).is_last <==> number == total,
{
}

/// A region measured lower than its margin gets a band of its own height, and the body
/// gives up just that; a region that is not there takes no room.
pub proof fn law_bands_take_their_room(g: PageGeometry, h: FragV, f: FragV)
    requires
        geometry_ok(g),
        0 <= h.height <= LIMIT / 8,
        0 <= f.height <= LIMIT / 8,
        g.header_extent == 0,
        g.footer_extent == 0,
    ensures
        with_bands(g, None, None) == g,
        h.height <= g.margin.top ==> with_bands(g, Some(h), None).header_extent == h.height,
        f.height <= g.margin.bottom ==> with_bands(g, None, Some(f)).footer_extent == f.height,
        h.height > g.margin.top ==> with_bands(g, Some(h), None).header_extent == g.margin.top,
        f.height > g.margin.bottom ==> with_bands(g, None, Some(f)).footer_extent
            == g.margin.bottom,
        h.height <= g.margin.top ==> with_bands(g, Some(h), None).capacity() == g.capacity()
            - h.height,
        f.height <= g.margin.bottom ==> with_bands(g, None, Some(f)).capacity() == g.capacity()
            - f.height,
        with_bands(g, Some(h), Some(f)).width == g.width,
        with_bands(g, Some(h), Some(f)).height == g.height,
        with_bands(g, Some(h), Some(f)).margin == g.margin,
{
}

proof fn lemma_above_filters(v: Seq<FragV>, extent: int)
    ensures
        above(v, extent) == v.filter(|f: FragV| f.y < extent),
    decreases v.len(),
{
    reveal(Seq::filter);
    if v.len() > 0 {
        lemma_above_filters(v.drop_last(), extent);
    } else {
        assert(above(v, extent) =~= v.filter(|f: FragV| f.y < extent));
    }
}

/// A band holds what starts above its end, in order, moved to where the band stands: in
/// by the left margin, the header down to its top margin and the footer to its band.
pub proof fn law_bands_hold_their_region(g: FragV, r: Region, geo: PageGeometry)
    requires
        geometry_ok(geo),
    ensures
        ({
            let extent = if r is Header {
                geo.header_extent as int
            } else {
                geo.footer_extent as int
            };
            let y = if r is Header {
                geo.margin.top as int
            } else {
                geo.height - geo.margin.bottom - geo.footer_extent
            };
            let kept = g.children.filter(|f: FragV| f.y < extent);
            &&& banded(g, r, geo).len() == kept.len()
            &&& forall|i: int|
                0 <= i < kept.len() ==> #[trigger] banded(g, r, geo)[i] == moved(
                    kept[i],
                    geo.margin.left as int,
                    y,
                )
        }),
{
    lemma_above_filters(g.children, band_of(r, geo).0);
}

/// A region goes to its own band, and everything else of the page stays.
pub proof fn law_regions_go_to_their_bands(p: PageV, frags: Seq<FragV>)
    ensures
        with_region(p, Region::Header, frags) == (PageV { header: frags, ..p }),
        with_region(p, Region::Footer, frags) == (PageV { footer: frags, ..p }),
{
}

/// A region is reported where it is more than half a px higher than its band, or
/// something in it starts below, and only then.
pub proof fn law_overflow_is_told(g: FragV, extent: int)
    ensures
        overflows(g, extent) <==> (g.height > extent + 500_000 || exists|i: int|
            0 <= i < g.children.len() && (#[trigger] g.children[i]).y >= extent),
{
    lemma_above_len(g.children, extent);
}

proof fn lemma_above_len(v: Seq<FragV>, extent: int)
    ensures
        above(v, extent).len() <= v.len(),
        above(v, extent).len() < v.len() <==> exists|i: int|
            0 <= i < v.len() && (#[trigger] v[i]).y >= extent,
    decreases v.len(),
{
    if v.len() > 0 {
        let r = v.drop_last();
        lemma_above_len(r, extent);
        if exists|i: int| 0 <= i < r.len() && (#[trigger] r[i]).y >= extent {
            let i = choose|i: int| 0 <= i < r.len() && (#[trigger] r[i]).y >= extent;
            assert(v[i].y >= extent);
        }
        assert(v[v.len() - 1] == v.last());
        if exists|i: int| 0 <= i < v.len() && (#[trigger] v[i]).y >= extent {
            let i = choose|i: int| 0 <= i < v.len() && (#[trigger] v[i]).y >= extent;
            if i < r.len() {
                assert(r[i] == v[i]);
            }
        }
    }
}

/// The furniture of a page is its header and its footer, and no other band.
pub proof fn law_furniture(p: PageV, i: int)
    requires
        0 <= i < 4,
    ensures
        is_furniture(i) && i < 2 ==> bands_of(p)[i] == p.header,
        is_furniture(i) && i >= 2 ==> bands_of(p)[i] == p.footer,
        !is_furniture(i) && i < 2 ==> bands_of(p)[i] == p.body,
        !is_furniture(i) && i >= 2 ==> bands_of(p)[i] == p.footnotes,
        page_painted(p, false) == painted_among(bands_of(p)[0], bands_of(p)[0].len())
            + painted_among(bands_of(p)[1], bands_of(p)[1].len()) + painted_among(
            bands_of(p)[2],
            bands_of(p)[2].len(),
        ) + painted_among(bands_of(p)[3], bands_of(p)[3].len()),
{
    let none = Seq::<PaintStep>::empty();
    assert(none + painted_among(p.body, p.body.len()) =~= painted_among(p.body, p.body.len()));
}

/// The lint of a region that was cut says what happened, and stands in no line.
pub proof fn law_region_lints()
    ensures
        region_lint().code == LintCode::RegionOverflow,
        region_lint().message == "running region content taller than its band was clipped"@,
        region_lint().span == (Span { line: 0, range: None }),
{
}

} // verus!
