//! The order in which a page is painted.

use vstd::prelude::*;

use crate::layout::fragment::{
    frag_view, frags_view, lemma_frag_children, ContentV, FragV, Fragment, FragmentContent,
};
use crate::paginate::{Page, PageV};

verus! {

/// One step of painting a page.
#[derive(Debug)]
pub enum Paint<'a> {
    /// The page's watermark.
    Watermark,
    /// A fragment's own content.
    Own(&'a Fragment),
}

/// The mathematical reading of a [`Paint`].
pub enum PaintStep {
    Watermark,
    Own(FragV),
}

impl<'a> View for Paint<'a> {
    type V = PaintStep;

    open spec fn view(&self) -> PaintStep {
        match *self {
            Paint::Watermark => PaintStep::Watermark,
            Paint::Own(f) => PaintStep::Own(f@),
        }
    }
}

pub open spec fn steps_view(v: Seq<Paint>) -> Seq<PaintStep> {
    v.map_values(|p: Paint| p@)
}

/// A fragment's own content first, then its children on top of it, in order. A
/// directive paints nothing of its own.
pub open spec fn painted(f: FragV) -> Seq<PaintStep>
    decreases f, 1int, 0nat,
{
    let own = match f.content {
        ContentV::Directive(_) => Seq::empty(),
        _ => seq![PaintStep::Own(f)],
    };
    own + painted_among(f.children, f.children.len())
}

pub open spec fn painted_among(v: Seq<FragV>, k: nat) -> Seq<PaintStep>
    decreases v, 0int, k,
{
    if k == 0 || k > v.len() {
        Seq::empty()
    } else {
        painted_among(v, (k - 1) as nat) + painted(v[k - 1])
    }
}

/// A page from back to front: the watermark, the body, then header, footer and
/// footnotes.
pub open spec fn page_painted(p: PageV, watermark: bool) -> Seq<PaintStep> {
    let mark: Seq<PaintStep> = if watermark {
        seq![PaintStep::Watermark]
    } else {
        Seq::empty()
    };
    mark + painted_among(p.body, p.body.len()) + painted_among(p.header, p.header.len())
        + painted_among(p.footer, p.footer.len()) + painted_among(p.footnotes, p.footnotes.len())
}

/// The bands of a page in the order in which they are painted.
pub open spec fn bands_of(p: PageV) -> Seq<Seq<FragV>> {
    seq![p.body, p.header, p.footer, p.footnotes]
}

/// Whether the band in that place is furniture of the page.
pub open spec fn is_furniture(i: int) -> bool {
    i == 1 || i == 2
}

/// Whether the band in that place is furniture of the page, not content of the
/// document: the header and the footer.
pub fn is_artifact_band(i: usize) -> (r: bool)
    ensures
        r == (i == 1 || i == 2),
        r == is_furniture(i as int),
{
    i == 1 || i == 2
}

fn paint_fragment<'a>(f: &'a Fragment, out: &mut Vec<Paint<'a>>)
    ensures
        steps_view(final(out)@) == steps_view(old(out)@) + painted(f@),
    decreases f, 1int,
{
    let ghost start = steps_view(out@);
    proof {
        lemma_frag_children(*f);
    }
    match &f.content {
        FragmentContent::Directive(_) => {
            proof {
                assert(start + Seq::<PaintStep>::empty() =~= start);
            }
        },
        _ => {
            let p = Paint::Own(f);
            proof {
                assert(steps_view(out@.push(p)) =~= start + seq![PaintStep::Own(f@)]);
            }
            out.push(p);
        },
    }
    let ghost own = steps_view(out@);
    paint_all(&f.children, out);
    proof {
        let kids = painted_among(f@.children, f@.children.len());
        let head = match f@.content {
            ContentV::Directive(_) => Seq::empty(),
            _ => seq![PaintStep::Own(f@)],
        };
        assert(own == start + head);
        assert(start + head + kids =~= start + (head + kids));
    }
}

fn paint_all<'a>(v: &'a Vec<Fragment>, out: &mut Vec<Paint<'a>>)
    ensures
        steps_view(final(out)@) == steps_view(old(out)@) + painted_among(
            frags_view(v@),
            v@.len(),
        ),
    decreases v, 0int,
{
    let ghost fv = frags_view(v@);
    let ghost start = steps_view(out@);
    let mut k: usize = 0;
    proof {
        assert(start + Seq::<PaintStep>::empty() =~= start);
    }
    while k < v.len()
        invariant
            k <= v@.len(),
            fv == frags_view(v@),
            start == steps_view(old(out)@),
            steps_view(out@) == start + painted_among(fv, k as nat),
        decreases v@.len() - k,
    {
        proof {
            assert(fv[k as int] == frag_view(v@[k as int]));
            let before = painted_among(fv, k as nat);
            let next = painted(fv[k as int]);
            assert(start + before + next =~= start + (before + next));
        }
        paint_fragment(&v[k], out);
        k += 1;
    }
}

/// The steps of painting a page, from back to front: a watermark lies behind the
/// body.
pub fn content_stream<'a>(page: &'a Page, watermark: bool) -> (r: Vec<Paint<'a>>)
    ensures
        steps_view(r@) == page_painted(page@, watermark),
{
    let mut out: Vec<Paint<'a>> = Vec::new();
    proof {
        assert(steps_view(out@) =~= Seq::empty());
    }
    if watermark {
        proof {
            assert(steps_view(out@.push(Paint::Watermark)) =~= seq![PaintStep::Watermark]);
        }
        out.push(Paint::Watermark);
    }
    paint_all(&page.body, &mut out);
    paint_all(&page.header, &mut out);
    paint_all(&page.footer, &mut out);
    paint_all(&page.footnotes, &mut out);
    out
}

/// The watermark of a page lies behind everything else, and the body behind the
/// running regions and the footnotes.
pub proof fn law_watermark_is_behind(p: PageV)
    ensures
        page_painted(p, true).len() == page_painted(p, false).len() + 1,
        page_painted(p, true)[0] == PaintStep::Watermark,
        page_painted(p, true).skip(1) == page_painted(p, false),
        page_painted(p, false).take(painted_among(p.body, p.body.len()).len() as int)
            == painted_among(p.body, p.body.len()),
{
    assert(page_painted(p, true).skip(1) =~= page_painted(p, false));
    assert(page_painted(p, false).take(painted_among(p.body, p.body.len()).len() as int)
        =~= painted_among(p.body, p.body.len()));
}

} // verus!
