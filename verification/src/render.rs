//! Running regions: the room that headers and footers take, and their place on
//! every page.
//!
//! A region's height lowers the body's, and the region is rendered against a page
//! count that the body's pagination yields. So each region is measured once, as
//! on a single first page; that height, no more than the margin it sits in, is
//! its band on every page; and what comes out taller on some page is cut there.

use vstd::prelude::*;
use vstd::string::*;

use crate::error::{Diagnostics, LintCode, LintV, Span};
use crate::layout::block::HALF;
use crate::layout::fragment::{
    all_moved, frag_view, frags_view, lemma_frag_children, FragV, Fragment,
};
use crate::number::{diff, least, min_of, minus};
use crate::paginate::{Page, PageGeometry, PageV};

verus! {

/// A running region.
#[derive(Debug, Clone, Copy, PartialEq, Eq, Structural)]
pub enum Region {
    Header,
    Footer,
}

/// What a running region can say of its page.
#[derive(Debug, Clone, Copy, PartialEq, Eq, Structural)]
pub struct PageContext {
    /// Counted from one.
    pub number: u32,
    pub total: u32,
    pub is_first: bool,
    pub is_last: bool,
}

impl PageContext {
    pub open spec fn spec_new(number: u32, total: u32) -> PageContext {
        PageContext { number, total, is_first: number == 1, is_last: number == total }
    }

    /// The context of page `number` of `total`.
    #[verifier::when_used_as_spec(spec_new)]
    pub fn new(number: u32, total: u32) -> (r: PageContext)
        ensures
            r == PageContext::spec_new(number, total),
    {
        PageContext { number, total, is_first: number == 1, is_last: number == total }
    }
}

/// What the running regions of each page can say of it.
pub fn page_contexts(pages: &Vec<Page>) -> (r: Vec<PageContext>)
    requires
        pages@.len() <= u32::MAX,
    ensures
        r@.len() == pages@.len(),
        forall|i: int|
            0 <= i < r@.len() ==> #[trigger] r@[i] == PageContext::new(
                pages@[i].number,
                pages@.len() as u32,
            ),
{
    let total: u32 = pages.len() as u32;
    let mut out: Vec<PageContext> = Vec::new();
    let mut i: usize = 0;
    while i < pages.len()
        invariant
            i <= pages@.len(),
            total == pages@.len(),
            out@.len() == i,
            forall|j: int|
                0 <= j < i ==> #[trigger] out@[j] == PageContext::new(pages@[j].number, total),
        decreases pages@.len() - i,
    {
        out.push(PageContext::new(pages[i].number, total));
        i += 1;
    }
    out
}

/// The band of a region: as high as its galley, no higher than its margin.
pub fn band_extent(galley: &Fragment, margin: i64) -> (r: i64)
    ensures
        r == least(galley@.height, margin as int),
{
    min_of(galley.height, margin)
}

/// A geometry that keeps the bands of the regions measured free.
pub open spec fn with_bands(g: PageGeometry, header: Option<FragV>, footer: Option<FragV>) -> PageGeometry {
    PageGeometry {
        header_extent: match header {
            Some(f) => least(f.height, g.margin.top as int) as i64,
            None => g.header_extent,
        },
        footer_extent: match footer {
            Some(f) => least(f.height, g.margin.bottom as int) as i64,
            None => g.footer_extent,
        },
        ..g
    }
}

pub open spec fn galley_view(o: Option<&Fragment>) -> Option<FragV> {
    match o {
        Some(f) => Some(f@),
        None => None,
    }
}

/// Keep the bands of the regions free: each galley is its region rendered as on a
/// single first page, where it is declared.
pub fn reserve_bands(base: PageGeometry, header: Option<&Fragment>, footer: Option<&Fragment>) -> (r:
    PageGeometry)
    ensures
        r == with_bands(base, galley_view(header), galley_view(footer)),
{
    let mut g = base;
    if let Some(f) = header {
        g.header_extent = band_extent(f, base.margin.top);
    }
    if let Some(f) = footer {
        g.footer_extent = band_extent(f, base.margin.bottom);
    }
    g
}

/// A band's height, and the y of its top: the header starts at the top margin, the
/// footer ends at the bottom margin.
pub open spec fn band_of(r: Region, g: PageGeometry) -> (int, int) {
    match r {
        Region::Header => (g.header_extent as int, g.margin.top as int),
        Region::Footer => (
            g.footer_extent as int,
            diff(diff(g.height as int, g.margin.bottom as int), g.footer_extent as int),
        ),
    }
}

pub fn band_placement(region: Region, g: &PageGeometry) -> (r: (i64, i64))
    ensures
        (r.0 as int, r.1 as int) == band_of(region, *g),
{
    match region {
        Region::Header => (g.header_extent, g.margin.top),
        Region::Footer => (
            g.footer_extent,
            minus(minus(g.height, g.margin.bottom), g.footer_extent),
        ),
    }
}

/// The fragments that start above `extent`, in order.
pub open spec fn above(v: Seq<FragV>, extent: int) -> Seq<FragV>
    decreases v.len(),
{
    if v.len() == 0 {
        v
    } else {
        let before = above(v.drop_last(), extent);
        if v.last().y < extent {
            before.push(v.last())
        } else {
            before
        }
    }
}

/// Whether a region is higher than its band.
pub open spec fn overflows(g: FragV, extent: int) -> bool {
    g.height > extent + HALF || above(g.children, extent).len() < g.children.len()
}

/// What the lint of a region that was cut says.
pub const REGION_CLIPPED: &'static str = "running region content taller than its band was clipped";

/// The lint of a region that was cut.
pub open spec fn region_lint() -> LintV {
    LintV {
        code: LintCode::RegionOverflow,
        message: REGION_CLIPPED@,
        span: Span { line: 0, range: None },
    }
}

/// Cut a region to its band: what starts below the band is dropped, and a region
/// higher than its band is reported.
pub fn clip_region(galley: Fragment, extent: i64, diags: &mut Diagnostics) -> (r: Fragment)
    ensures
        r@ == (FragV { children: above(galley@.children, extent as int), ..galley@ }),
        final(diags)@ == if overflows(galley@, extent as int) {
            old(diags)@.push(region_lint())
        } else {
            old(diags)@
        },
{
    let ghost whole = galley@;
    proof {
        lemma_frag_children(galley);
    }
    let mut galley = galley;
    let mut kids: Vec<Fragment> = Vec::new();
    std::mem::swap(&mut kids, &mut galley.children);
    let before: usize = kids.len();
    let ghost all = kids@;
    let ghost av = frags_view(all);
    let mut kept: Vec<Fragment> = Vec::new();
    proof {
        assert(frags_view(kept@) =~= above(av.take(0), extent as int));
    }
    for kid in it: kids
        invariant
            it.seq() == all,
            av == frags_view(all),
            frags_view(kept@) == above(av.take(it.index() as int), extent as int),
    {
        let ghost i = it.index() as int;
        proof {
            assert(av[i] == frag_view(kid));
            assert(av.take(i + 1).drop_last() =~= av.take(i));
            assert(av.take(i + 1).last() == frag_view(kid));
        }
        if kid.y < extent {
            proof {
                assert(frags_view(kept@.push(kid)) =~= frags_view(kept@).push(frag_view(kid)));
            }
            kept.push(kid);
        }
    }
    proof {
        assert(av.take(all.len() as int) =~= av);
        assert(kept@.len() == frags_view(kept@).len());
    }
    if galley.height as i128 > extent as i128 + HALF as i128 || kept.len() < before {
        diags.push(LintCode::RegionOverflow, REGION_CLIPPED, Span::default());
    }
    galley.children = kept;
    proof {
        lemma_frag_children(galley);
        assert(whole.children == av);
    }
    galley
}

/// The fragments of a region in its band.
pub open spec fn banded(g: FragV, r: Region, geo: PageGeometry) -> Seq<FragV> {
    let (extent, dy) = band_of(r, geo);
    all_moved(above(g.children, extent), geo.margin.left as int, dy)
}

/// A page with the fragments of a region in its band.
pub open spec fn with_region(p: PageV, r: Region, frags: Seq<FragV>) -> PageV {
    match r {
        Region::Header => PageV { header: frags, ..p },
        Region::Footer => PageV { footer: frags, ..p },
    }
}

/// Keep the fragments of a region in its page.
pub fn store_band(page: &mut Page, region: Region, frags: Vec<Fragment>)
    ensures
        final(page)@ == with_region(old(page)@, region, frags_view(frags@)),
{
    match region {
        Region::Header => {
            page.header = frags;
        },
        Region::Footer => {
            page.footer = frags;
        },
    }
}

/// Put a region, rendered for its page, into its band.
pub fn place_band(page: &mut Page, region: Region, galley: Fragment, diags: &mut Diagnostics)
    ensures
        final(page)@ == with_region(
            old(page)@,
            region,
            banded(galley@, region, old(page)@.geometry),
        ),
        final(diags)@ == if overflows(
            galley@,
            band_of(region, old(page)@.geometry).0,
        ) {
            old(diags)@.push(region_lint())
        } else {
            old(diags)@
        },
{
    let (extent, dy) = band_placement(region, &page.geometry);
    let ghost whole = galley@;
    let cut = clip_region(galley, extent, diags);
    let mut at = cut.translate(page.geometry.margin.left, dy);
    let mut frags: Vec<Fragment> = Vec::new();
    proof {
        lemma_frag_children(at);
        let c = FragV { children: above(whole.children, extent as int), ..whole };
        assert(frags_view(at.children@) =~= all_moved(
            c.children,
            page.geometry.margin.left as int,
            dy as int,
        ));
    }
    std::mem::swap(&mut frags, &mut at.children);
    store_band(page, region, frags);
}

/// What is dropped from a region starts below its band, and nothing that starts
/// in it is.
pub proof fn law_bands_keep_what_starts_in_them(v: Seq<FragV>, extent: int)
    ensures
        forall|i: int| 0 <= i < above(v, extent).len() ==> (#[trigger] above(v, extent)[i]).y < extent,
        forall|i: int| 0 <= i < v.len() && v[i].y < extent ==> above(v, extent).contains(#[trigger] v[i]),
    decreases v.len(),
{
    if v.len() > 0 {
        let rest = v.drop_last();
        law_bands_keep_what_starts_in_them(rest, extent);
        let kept = above(rest, extent);
        assert forall|i: int| 0 <= i < v.len() && v[i].y < extent implies above(
            v,
            extent,
        ).contains(#[trigger] v[i]) by {
            if i < v.len() - 1 {
                assert(rest[i] == v[i]);
                let j = choose|j: int| 0 <= j < kept.len() && kept[j] == rest[i];
                assert(above(v, extent)[j] == v[i]);
            } else {
                assert(above(v, extent).last() == v[i]);
            }
        }
    }
}

/// Bands never reach the page's edge: a region takes no more than its margin.
pub proof fn law_bands_fit_margins(g: PageGeometry, header: Option<FragV>, footer: Option<FragV>)
    requires
        header matches Some(f) ==> i64::MIN <= f.height <= i64::MAX,
        footer matches Some(f) ==> i64::MIN <= f.height <= i64::MAX,
    ensures
        header is Some ==> with_bands(g, header, footer).header_extent <= g.margin.top,
        footer is Some ==> with_bands(g, header, footer).footer_extent <= g.margin.bottom,
{
}

} // verus!
