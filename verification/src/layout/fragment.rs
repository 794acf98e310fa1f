//! What a laid-out box paints.

use vstd::prelude::*;

use crate::layout::color::Rgba;
use crate::layout::edges::BorderEdges;
use crate::layout::transform::Linear;
use crate::layout::value::BreakRule;
use crate::node::TKind;
use crate::number::{clip, plus};

verus! {

/// The template node that a box or fragment came from.
#[derive(Debug, Clone, Copy, PartialEq, Eq, Structural)]
pub struct NodeId(pub u32);

/// A rectangle: its corner and its sides.
#[derive(Debug, Clone, Copy, PartialEq, Eq, Structural)]
pub struct Rect {
    pub x: i64,
    pub y: i64,
    pub width: i64,
    pub height: i64,
}

/// A `box-shadow` layer, in whole px.
#[derive(Debug, Clone, Copy, PartialEq, Eq, Structural)]
pub struct BoxShadow {
    pub offset_x: i32,
    pub offset_y: i32,
    pub blur: u32,
    pub spread: i32,
    pub color: Rgba,
    pub inset: bool,
}

/// One color stop; its position runs from zero to one, in millionths.
#[derive(Debug, Clone, Copy, PartialEq, Eq, Structural)]
pub struct GradientStop {
    pub color: Rgba,
    pub pos: i64,
}

/// A `linear-gradient(...)`: its angle (millionths of a degree, clockwise from
/// the top) and its stops.
#[derive(Debug)]
pub struct LinearGradient {
    pub angle_deg: i64,
    pub stops: Vec<GradientStop>,
}

/// The mathematical reading of a [`LinearGradient`].
pub struct GradientV {
    pub angle: int,
    pub stops: Seq<GradientStop>,
}

impl View for LinearGradient {
    type V = GradientV;

    open spec fn view(&self) -> GradientV {
        GradientV { angle: self.angle_deg as int, stops: self.stops@ }
    }
}

/// A placed image: its resolver name, its pixel size, and the tint that it is
/// painted in where it serves as a mask.
#[derive(Debug)]
pub struct ImagePlacement {
    pub name: String,
    pub intrinsic_w: u32,
    pub intrinsic_h: u32,
    pub has_alpha: bool,
    pub tint: Option<Rgba>,
}

/// The mathematical reading of an [`ImagePlacement`].
pub struct PlacementV {
    pub name: Seq<char>,
    pub intrinsic_w: u32,
    pub intrinsic_h: u32,
    pub has_alpha: bool,
    pub tint: Option<Rgba>,
}

impl View for ImagePlacement {
    type V = PlacementV;

    open spec fn view(&self) -> PlacementV {
        PlacementV {
            name: self.name@,
            intrinsic_w: self.intrinsic_w,
            intrinsic_h: self.intrinsic_h,
            has_alpha: self.has_alpha,
            tint: self.tint,
        }
    }
}

/// A 2D transform of a box: its matrix, and the point of the box that it turns
/// about. All in millionths; the offsets and the point in px.
#[derive(Debug, Clone, Copy, PartialEq, Eq, Structural)]
pub struct Transform2D {
    pub linear: Linear,
    pub e: i64,
    pub f: i64,
    pub origin_x: i64,
    pub origin_y: i64,
}

/// What a box itself paints.
#[derive(Debug)]
pub struct BoxPaint {
    pub background: Option<Rgba>,
    pub border: BorderEdges,
    pub border_radius: i64,
    pub shadow: Option<BoxShadow>,
    pub gradient: Option<LinearGradient>,
    pub transform: Option<Transform2D>,
}

/// The mathematical reading of a [`BoxPaint`].
pub struct PaintV {
    pub background: Option<Rgba>,
    pub border: BorderEdges,
    pub border_radius: i64,
    pub shadow: Option<BoxShadow>,
    pub gradient: Option<GradientV>,
    pub transform: Option<Transform2D>,
}

impl View for BoxPaint {
    type V = PaintV;

    open spec fn view(&self) -> PaintV {
        PaintV {
            background: self.background,
            border: self.border,
            border_radius: self.border_radius,
            shadow: self.shadow,
            gradient: match self.gradient {
                Some(g) => Some(g@),
                None => None,
            },
            transform: self.transform,
        }
    }
}

/// A shaped glyph at its place on the line.
#[derive(Debug, Clone, Copy, PartialEq, Eq, Structural)]
pub struct PositionedGlyph {
    pub glyph_id: u16,
    pub x: i64,
    pub y: i64,
}

/// A run of glyphs in one face, size and color. The face is the index of a face
/// in its registry.
#[derive(Debug)]
pub struct TextLine {
    pub glyphs: Vec<PositionedGlyph>,
    pub face: usize,
    pub font_size: i64,
    pub color: Rgba,
}

/// The mathematical reading of a [`TextLine`].
pub struct TextLineV {
    pub glyphs: Seq<PositionedGlyph>,
    pub face: usize,
    pub font_size: i64,
    pub color: Rgba,
}

impl View for TextLine {
    type V = TextLineV;

    open spec fn view(&self) -> TextLineV {
        TextLineV {
            glyphs: self.glyphs@,
            face: self.face,
            font_size: self.font_size,
            color: self.color,
        }
    }
}

/// What a fragment paints.
#[derive(Debug)]
pub enum FragmentContent {
    Box(BoxPaint),
    TextLine(TextLine),
    Image(ImagePlacement),
    Directive(TKind),
}

/// The mathematical reading of a [`FragmentContent`].
pub enum ContentV {
    Box(PaintV),
    TextLine(TextLineV),
    Image(PlacementV),
    Directive(TKind),
}

impl View for FragmentContent {
    type V = ContentV;

    open spec fn view(&self) -> ContentV {
        match *self {
            FragmentContent::Box(p) => ContentV::Box(p@),
            FragmentContent::TextLine(t) => ContentV::TextLine(t@),
            FragmentContent::Image(i) => ContentV::Image(i@),
            FragmentContent::Directive(k) => ContentV::Directive(k),
        }
    }
}

/// A table row group that repeats on every page its table runs over.
#[derive(Debug, Clone, Copy, PartialEq, Eq, Structural)]
pub enum RepeatKind {
    Header,
    Footer,
}

/// What pagination may and may not do around and inside a fragment.
#[derive(Debug, Clone, Copy, PartialEq, Eq, Structural)]
pub struct BreakMeta {
    pub break_before: BreakRule,
    pub break_after: BreakRule,
    pub break_inside_avoid: bool,
    pub orphans: u8,
    pub widows: u8,
    pub repeatable: Option<RepeatKind>,
}

impl BreakMeta {
    /// No rule but the initial orphans and widows.
    pub open spec fn initial() -> BreakMeta {
        BreakMeta {
            break_before: BreakRule::Auto,
            break_after: BreakRule::Auto,
            break_inside_avoid: false,
            orphans: 2,
            widows: 2,
            repeatable: None,
        }
    }
}

impl Default for BreakMeta {
    fn default() -> (r: BreakMeta)
        ensures
            r == BreakMeta::initial(),
    {
        BreakMeta {
            break_before: BreakRule::Auto,
            break_after: BreakRule::Auto,
            break_inside_avoid: false,
            orphans: 2,
            widows: 2,
            repeatable: None,
        }
    }
}

/// A positioned box, in absolute galley coordinates.
#[derive(Debug)]
pub struct Fragment {
    pub node_id: NodeId,
    pub x: i64,
    pub y: i64,
    pub width: i64,
    pub height: i64,
    pub content: FragmentContent,
    pub break_meta: BreakMeta,
    pub children: Vec<Fragment>,
    pub z_index: Option<i32>,
    pub is_positioned: bool,
}

/// The mathematical reading of a [`Fragment`].
pub struct FragV {
    pub id: u32,
    pub x: int,
    pub y: int,
    pub width: int,
    pub height: int,
    pub content: ContentV,
    pub break_meta: BreakMeta,
    pub children: Seq<FragV>,
    pub z_index: Option<i32>,
    pub is_positioned: bool,
}

pub open spec fn frag_view(f: Fragment) -> FragV
    decreases f,
{
    FragV {
        id: f.node_id.0,
        x: f.x as int,
        y: f.y as int,
        width: f.width as int,
        height: f.height as int,
        content: f.content@,
        break_meta: f.break_meta,
        children: Seq::new(
            f.children@.len(),
            |i: int|
                if 0 <= i < f.children@.len() {
                    frag_view(f.children@[i])
                } else {
                    arbitrary()
                },
        ),
        z_index: f.z_index,
        is_positioned: f.is_positioned,
    }
}

impl View for Fragment {
    type V = FragV;

    open spec fn view(&self) -> FragV {
        frag_view(*self)
    }
}

pub open spec fn frags_view(v: Seq<Fragment>) -> Seq<FragV> {
    v.map_values(|f: Fragment| frag_view(f))
}

/// The children of a fragment, viewed one by one.
pub proof fn lemma_frag_children(f: Fragment)
    ensures
        frag_view(f).children == frags_view(f.children@),
{
    assert(frag_view(f).children =~= frags_view(f.children@));
}

pub proof fn lemma_frags_push(v: Seq<Fragment>, x: Fragment)
    ensures
        frags_view(v.push(x)) == frags_view(v).push(frag_view(x)),
{
    assert(frags_view(v.push(x)) =~= frags_view(v).push(frag_view(x)));
}

/// A fragment without children, break rules or stacking.
pub open spec fn plain_frag(id: NodeId, x: int, y: int, w: int, h: int, c: ContentV) -> FragV {
    FragV {
        id: id.0,
        x,
        y,
        width: w,
        height: h,
        content: c,
        break_meta: BreakMeta::initial(),
        children: Seq::empty(),
        z_index: None,
        is_positioned: false,
    }
}

/// A fragment moved by `(dx, dy)`, with everything in it.
pub open spec fn moved(f: FragV, dx: int, dy: int) -> FragV
    decreases f,
{
    FragV {
        x: clip(f.x + dx),
        y: clip(f.y + dy),
        children: Seq::new(
            f.children.len(),
            |i: int|
                if 0 <= i < f.children.len() {
                    moved(f.children[i], dx, dy)
                } else {
                    arbitrary()
                },
        ),
        ..f
    }
}

pub open spec fn all_moved(v: Seq<FragV>, dx: int, dy: int) -> Seq<FragV> {
    v.map_values(|f: FragV| moved(f, dx, dy))
}

impl Fragment {
    /// A fragment without children, break rules or stacking.
    pub fn new(
        node_id: NodeId,
        x: i64,
        y: i64,
        width: i64,
        height: i64,
        content: FragmentContent,
    ) -> (r: Fragment)
        ensures
            r@ == plain_frag(
                node_id,
                x as int,
                y as int,
                width as int,
                height as int,
                content@,
            ),
    {
        let r = Fragment {
            node_id,
            x,
            y,
            width,
            height,
            content,
            break_meta: BreakMeta::default(),
            children: Vec::new(),
            z_index: None,
            is_positioned: false,
        };
        proof {
            assert(r@.children =~= Seq::empty());
        }
        r
    }

    /// Move the fragment and everything in it.
    pub fn translate(self, dx: i64, dy: i64) -> (r: Fragment)
        ensures
            r@ == moved(self@, dx as int, dy as int),
        decreases self,
    {
        let ghost whole = self@;
        proof {
            lemma_frag_children(self);
        }
        let Fragment {
            node_id,
            x,
            y,
            width,
            height,
            content,
            break_meta,
            children,
            z_index,
            is_positioned,
        } = self;
        let r = Fragment {
            node_id,
            x: plus(x, dx),
            y: plus(y, dy),
            width,
            height,
            content,
            break_meta,
            children: translate_all(children, dx, dy),
            z_index,
            is_positioned,
        };
        proof {
            lemma_frag_children(r);
            assert(r@.children =~= moved(whole, dx as int, dy as int).children);
        }
        r
    }
}

/// Move every fragment of a list.
pub fn translate_all(v: Vec<Fragment>, dx: i64, dy: i64) -> (r: Vec<Fragment>)
    ensures
        frags_view(r@) == all_moved(frags_view(v@), dx as int, dy as int),
    decreases v,
{
    let ghost all = v@;
    let mut out: Vec<Fragment> = Vec::new();
    for f in it: v
        invariant
            it.seq() == all,
            all == v@,
            out@.len() == it.index(),
            forall|j: int|
                0 <= j < out@.len() ==> frag_view(#[trigger] out@[j]) == moved(
                    frag_view(all[j]),
                    dx as int,
                    dy as int,
                ),
    {
        out.push(f.translate(dx, dy));
    }
    proof {
        assert(frags_view(out@) =~= all_moved(frags_view(all), dx as int, dy as int));
    }
    out
}

fn clone_gradient(g: &LinearGradient) -> (r: LinearGradient)
    ensures
        r@ == g@,
{
    let mut stops: Vec<GradientStop> = Vec::new();
    let mut i: usize = 0;
    while i < g.stops.len()
        invariant
            i <= g.stops@.len(),
            stops@ == g.stops@.take(i as int),
        decreases g.stops@.len() - i,
    {
        stops.push(g.stops[i]);
        proof {
            assert(stops@ =~= g.stops@.take(i as int + 1));
        }
        i += 1;
    }
    proof {
        assert(g.stops@.take(i as int) =~= g.stops@);
    }
    LinearGradient { angle_deg: g.angle_deg, stops }
}

/// A copy of a list of glyphs.
pub fn clone_glyphs(v: &Vec<PositionedGlyph>) -> (r: Vec<PositionedGlyph>)
    ensures
        r@ == v@,
{
    let mut out: Vec<PositionedGlyph> = Vec::new();
    let mut i: usize = 0;
    while i < v.len()
        invariant
            i <= v@.len(),
            out@ == v@.take(i as int),
        decreases v@.len() - i,
    {
        out.push(v[i]);
        proof {
            assert(out@ =~= v@.take(i as int + 1));
        }
        i += 1;
    }
    proof {
        assert(v@.take(i as int) =~= v@);
    }
    out
}

impl Clone for LinearGradient {
    fn clone(&self) -> (r: LinearGradient)
        ensures
            r@ == self@,
    {
        clone_gradient(self)
    }
}

impl Clone for TextLine {
    fn clone(&self) -> (r: TextLine)
        ensures
            r@ == self@,
    {
        TextLine {
            glyphs: clone_glyphs(&self.glyphs),
            face: self.face,
            font_size: self.font_size,
            color: self.color,
        }
    }
}

impl Clone for ImagePlacement {
    fn clone(&self) -> (r: ImagePlacement)
        ensures
            r@ == self@,
    {
        ImagePlacement {
            name: self.name.clone(),
            intrinsic_w: self.intrinsic_w,
            intrinsic_h: self.intrinsic_h,
            has_alpha: self.has_alpha,
            tint: self.tint,
        }
    }
}

impl Clone for FragmentContent {
    fn clone(&self) -> (r: FragmentContent)
        ensures
            r@ == self@,
    {
        match self {
            FragmentContent::Box(p) => {
                let gradient = match &p.gradient {
                    Some(g) => Some(clone_gradient(g)),
                    None => None,
                };
                FragmentContent::Box(
                    BoxPaint {
                        background: p.background,
                        border: p.border,
                        border_radius: p.border_radius,
                        shadow: p.shadow,
                        gradient,
                        transform: p.transform,
                    },
                )
            },
            FragmentContent::TextLine(t) => FragmentContent::TextLine(t.clone()),
            FragmentContent::Image(i) => FragmentContent::Image(i.clone()),
            FragmentContent::Directive(k) => FragmentContent::Directive(*k),
        }
    }
}

fn copy_fragment(f: &Fragment) -> (r: Fragment)
    ensures
        r@ == f@,
    decreases f,
{
    let mut kids: Vec<Fragment> = Vec::new();
    let mut i: usize = 0;
    proof {
        lemma_frag_children(*f);
    }
    while i < f.children.len()
        invariant
            i <= f.children@.len(),
            kids@.len() == i,
            forall|j: int|
                0 <= j < i ==> frag_view(#[trigger] kids@[j]) == frag_view(f.children@[j]),
        decreases f.children@.len() - i,
    {
        let kid = copy_fragment(&f.children[i]);
        kids.push(kid);
        i += 1;
    }
    let r = Fragment {
        node_id: f.node_id,
        x: f.x,
        y: f.y,
        width: f.width,
        height: f.height,
        content: f.content.clone(),
        break_meta: f.break_meta,
        children: kids,
        z_index: f.z_index,
        is_positioned: f.is_positioned,
    };
    proof {
        lemma_frag_children(r);
        assert(r@.children =~= f@.children);
    }
    r
}

impl Clone for Fragment {
    fn clone(&self) -> (r: Fragment)
        ensures
            r@ == self@,
    {
        copy_fragment(self)
    }
}

impl Fragment {
    /// A copy of the fragment and everything in it, moved by `(dx, dy)`.
    pub fn translated(&self, dx: i64, dy: i64) -> (r: Fragment)
        ensures
            r@ == moved(self@, dx as int, dy as int),
        decreases self,
    {
        let mut kids: Vec<Fragment> = Vec::new();
        let mut i: usize = 0;
        proof {
            lemma_frag_children(*self);
        }
        while i < self.children.len()
            invariant
                i <= self.children@.len(),
                kids@.len() == i,
                forall|j: int|
                    0 <= j < i ==> frag_view(#[trigger] kids@[j]) == moved(
                        frag_view(self.children@[j]),
                        dx as int,
                        dy as int,
                    ),
            decreases self.children@.len() - i,
        {
            let f = self.children[i].translated(dx, dy);
            kids.push(f);
            i += 1;
        }
        let r = Fragment {
            node_id: self.node_id,
            x: plus(self.x, dx),
            y: plus(self.y, dy),
            width: self.width,
            height: self.height,
            content: self.content.clone(),
            break_meta: self.break_meta,
            children: kids,
            z_index: self.z_index,
            is_positioned: self.is_positioned,
        };
        proof {
            lemma_frag_children(r);
            assert(r@.children =~= moved(self@, dx as int, dy as int).children);
        }
        r
    }
}

} // verus!
