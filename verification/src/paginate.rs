//! Pages: their geometry, their kind, and the fragments in each of their bands.
//!
//! How many pages there are is what comes out of walking the content against a
//! page's body; this module makes the pages of the walked bodies.

use vstd::prelude::*;

use crate::error::RenderError;
use crate::layout::fragment::{all_moved, frags_view, translate_all, FragV, Fragment};
use crate::layout::length::Edges;
use crate::number::{clip, diff, minus, plus, sum};

verus! {

/// The size of a page, its margins, and what running regions take of its height.
#[derive(Debug, Clone, Copy, PartialEq, Eq, Structural)]
pub struct PageGeometry {
    pub width: i64,
    pub height: i64,
    pub margin: Edges,
    pub header_extent: i64,
    pub footer_extent: i64,
}

impl PageGeometry {
    /// Where the body starts: inside the margins, below the header.
    pub open spec fn origin(self) -> (int, int) {
        (self.margin.left as int, sum(self.margin.top as int, self.header_extent as int))
    }

    /// The height of the body: between the margins, without header and footer.
    pub open spec fn capacity(self) -> int {
        diff(
            diff(self.height as int, clip(self.margin.top + self.margin.bottom)),
            sum(self.header_extent as int, self.footer_extent as int),
        )
    }

    pub fn body_origin(&self) -> (r: (i64, i64))
        ensures
            (r.0 as int, r.1 as int) == self.origin(),
    {
        (self.margin.left, plus(self.margin.top, self.header_extent))
    }

    pub fn body_height(&self) -> (r: i64)
        ensures
            r == self.capacity(),
    {
        minus(
            minus(self.height, self.margin.vertical()),
            plus(self.header_extent, self.footer_extent),
        )
    }

    /// The width between the margins.
    pub open spec fn content_span(self) -> int {
        diff(self.width as int, clip(self.margin.left + self.margin.right))
    }

    pub fn content_width(&self) -> (r: i64)
        ensures
            r == self.content_span(),
            r == diff(self.width as int, clip(self.margin.left + self.margin.right)),
    {
        minus(self.width, self.margin.horizontal())
    }
}

/// Which page of a spread a page is.
#[derive(Debug, Clone, Copy, PartialEq, Eq, Structural)]
pub enum PageKind {
    First,
    Left,
    Right,
    Blank,
}

/// One page: its geometry, and the fragments painted in each band.
#[derive(Debug)]
pub struct Page {
    pub geometry: PageGeometry,
    pub kind: PageKind,
    /// Counted from one.
    pub number: u32,
    pub body: Vec<Fragment>,
    pub header: Vec<Fragment>,
    pub footer: Vec<Fragment>,
    pub footnotes: Vec<Fragment>,
}

/// The mathematical reading of a [`Page`].
pub struct PageV {
    pub geometry: PageGeometry,
    pub kind: PageKind,
    pub number: int,
    pub body: Seq<FragV>,
    pub header: Seq<FragV>,
    pub footer: Seq<FragV>,
    pub footnotes: Seq<FragV>,
}

impl View for Page {
    type V = PageV;

    open spec fn view(&self) -> PageV {
        PageV {
            geometry: self.geometry,
            kind: self.kind,
            number: self.number as int,
            body: frags_view(self.body@),
            header: frags_view(self.header@),
            footer: frags_view(self.footer@),
            footnotes: frags_view(self.footnotes@),
        }
    }
}

pub open spec fn pages_view(v: Seq<Page>) -> Seq<PageV> {
    v.map_values(|p: Page| p@)
}

/// The kind of the page of that number: the first, then left pages have even
/// numbers and right ones odd numbers.
pub open spec fn kind_of(number: int) -> PageKind {
    if number == 1 {
        PageKind::First
    } else if number % 2 == 0 {
        PageKind::Left
    } else {
        PageKind::Right
    }
}

pub fn page_kind(number: u32) -> (r: PageKind)
    ensures
        r == kind_of(number as int),
{
    if number == 1 {
        PageKind::First
    } else if number % 2 == 0 {
        PageKind::Left
    } else {
        PageKind::Right
    }
}

/// The page of a body: the body at its place on the page, the other bands empty.
pub open spec fn page_of(g: PageGeometry, number: int, body: Seq<FragV>) -> PageV {
    PageV {
        geometry: g,
        kind: kind_of(number),
        number,
        body: all_moved(body, g.origin().0, g.origin().1),
        header: Seq::empty(),
        footer: Seq::empty(),
        footnotes: Seq::empty(),
    }
}

/// Make the page of a walked body, moving its fragments to their place on the
/// page.
pub fn assemble(geometry: PageGeometry, number: u32, body: Vec<Fragment>) -> (r: Page)
    ensures
        r@ == page_of(geometry, number as int, frags_view(body@)),
{
    let (ox, oy) = geometry.body_origin();
    let r = Page {
        geometry,
        kind: page_kind(number),
        number,
        body: translate_all(body, ox, oy),
        header: Vec::new(),
        footer: Vec::new(),
        footnotes: Vec::new(),
    };
    proof {
        assert(r@.header =~= Seq::empty());
        assert(r@.footer =~= Seq::empty());
        assert(r@.footnotes =~= Seq::empty());
    }
    r
}

/// The bodies without an empty one at the end, but never without any.
pub open spec fn trimmed_bodies<T>(v: Seq<Seq<T>>) -> Seq<Seq<T>> {
    if v.len() > 1 && v.last().len() == 0 {
        v.drop_last()
    } else {
        v
    }
}

pub open spec fn bodies_view(v: Seq<Vec<Fragment>>) -> Seq<Seq<FragV>> {
    v.map_values(|b: Vec<Fragment>| frags_view(b@))
}

/// Drop one empty page at the end, as a break after the last block leaves one.
pub fn trim_trailing_empty(pages: &mut Vec<Vec<Fragment>>)
    ensures
        bodies_view(final(pages)@) == trimmed_bodies(bodies_view(old(pages)@)),
        final(pages)@.len() <= old(pages)@.len(),
{
    let n: usize = pages.len();
    if n > 1 && pages[n - 1].len() == 0 {
        let ghost before = pages@;
        let _ = pages.pop();
        proof {
            assert(bodies_view(before).last() == frags_view(before.last()@));
            assert(bodies_view(pages@) =~= bodies_view(before).drop_last());
        }
    } else {
        proof {
            if pages@.len() > 1 {
                assert(bodies_view(pages@).last() == frags_view(pages@.last()@));
            }
        }
    }
}

/// The pages of walked bodies, numbered from one.
pub open spec fn pages_of(g: PageGeometry, bodies: Seq<Seq<FragV>>) -> Seq<PageV> {
    let v = trimmed_bodies(bodies);
    Seq::new(v.len(), |i: int| page_of(g, i + 1, v[i]))
}

/// Make the pages of a galley walked against [`PageGeometry::body_height`].
pub fn paginate_with_geometry(bodies: Vec<Vec<Fragment>>, geometry: PageGeometry) -> (r: Vec<Page>)
    requires
        bodies@.len() <= u32::MAX,
    ensures
        pages_view(r@) == pages_of(geometry, bodies_view(bodies@)),
{
    let ghost want = trimmed_bodies(bodies_view(bodies@));
    let mut bodies = bodies;
    trim_trailing_empty(&mut bodies);
    let ghost all = bodies@;
    let mut out: Vec<Page> = Vec::new();
    let mut number: u32 = 0;
    for body in it: bodies
        invariant
            it.seq() == all,
            all.len() <= u32::MAX,
            bodies_view(all) == want,
            number == it.index(),
            out@.len() == it.index(),
            forall|j: int|
                0 <= j < out@.len() ==> (#[trigger] out@[j])@ == page_of(geometry, j + 1, want[j]),
    {
        proof {
            assert(want[it.index() as int] == frags_view(body@));
        }
        number += 1;
        out.push(assemble(geometry, number, body));
    }
    proof {
        assert(pages_view(out@) =~= Seq::new(
            want.len(),
            |i: int| page_of(geometry, i + 1, want[i]),
        ));
    }
    out
}

/// Make the pages of a galley against the geometry that the stylesheet resolved
/// to, or hand on why it resolved to none.
pub fn paginate(bodies: Vec<Vec<Fragment>>, geometry: Result<PageGeometry, RenderError>) -> (r: Result<
    Vec<Page>,
    RenderError,
>)
    requires
        bodies@.len() <= u32::MAX,
    ensures
        match geometry {
            Ok(g) => r matches Ok(p) && pages_view(p@) == pages_of(g, bodies_view(bodies@)),
            Err(e) => r == Err::<Vec<Page>, RenderError>(e),
        },
{
    match geometry {
        Ok(g) => Ok(paginate_with_geometry(bodies, g)),
        Err(e) => Err(e),
    }
}

/// Pages are numbered from one without gaps, only the first is a first page, and
/// even pages lie left of odd ones.
pub proof fn law_pages_are_numbered(g: PageGeometry, bodies: Seq<Seq<FragV>>)
    ensures
        ({
            let p = pages_of(g, bodies);
            &&& forall|i: int| 0 <= i < p.len() ==> (#[trigger] p[i]).number == i + 1
            &&& forall|i: int| 0 <= i < p.len() ==> ((#[trigger] p[i]).kind is First <==> i == 0)
            &&& forall|i: int| 0 < i < p.len() ==> ((#[trigger] p[i]).kind is Left <==> i % 2 == 1)
        }),
{
}

/// A document has a page even where it has nothing on it, and pages hold the
/// walked bodies in order: all of them, but for one empty one at the end.
pub proof fn law_pages_hold_every_body(g: PageGeometry, bodies: Seq<Seq<FragV>>)
    ensures
        bodies.len() > 0 ==> pages_of(g, bodies).len() > 0,
        forall|i: int|
            0 <= i < bodies.len() && bodies[i].len() > 0 ==> i < pages_of(g, bodies).len()
                && (#[trigger] pages_of(g, bodies)[i]).body == all_moved(
                bodies[i],
                g.origin().0,
                g.origin().1,
            ),
{
}

} // verus!
