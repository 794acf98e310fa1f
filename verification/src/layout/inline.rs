//! Inline content on its way into lines: the runs and pieces that a paragraph is
//! made of, and the fragments of the lines it comes back as.
//!
//! Shaping and breaking a paragraph needs font files, so it is done by the
//! caller; this module decides what goes in and what comes of the result.

use vstd::prelude::*;

use crate::layout::boxgen::{
    box_view, boxes_view, item_view, items_view, lemma_kind_children, BoxKind, BoxV, InlineItem,
    ItemV, KindV, LayoutBox,
};
use crate::layout::color::Rgba;
use crate::layout::fragment::{
    clone_glyphs, frag_view, frags_view, lemma_frags_push, moved, plain_frag, ContentV, FragV,
    Fragment, FragmentContent, NodeId, PositionedGlyph, TextLine, TextLineV,
};
use crate::layout::length::{Viewport, DEFAULT_FONT_SIZE};
use crate::layout::value::{box_style_in, is_set_to, resolve_box_style, set_to, ResolveCtx, VAlign};
use crate::number::{plus, sum};
use crate::scan::{owned_texts, texts};
use crate::style::{ComputedStyle, StyleMap};
use crate::text::registry::{face_at, selected, FontRegistry, RegistryV};

verus! {

/// A run of text in one style. The face is its font file's index.
#[derive(Debug)]
pub struct InlineRun {
    pub node_id: NodeId,
    pub text: String,
    pub face: usize,
    pub families: Vec<String>,
    pub weight: u16,
    pub italic: bool,
    pub font_size: i64,
    pub line_height: Option<i64>,
    pub letter_spacing: i64,
    pub color: Rgba,
    pub valign: VAlign,
    pub nowrap: bool,
}

/// The mathematical reading of an [`InlineRun`].
pub struct RunV {
    pub id: int,
    pub text: Seq<char>,
    pub face: usize,
    pub families: Seq<Seq<char>>,
    pub weight: u16,
    pub italic: bool,
    pub font_size: i64,
    pub line_height: Option<i64>,
    pub letter_spacing: i64,
    pub color: Rgba,
    pub valign: VAlign,
    pub nowrap: bool,
}

impl View for InlineRun {
    type V = RunV;

    open spec fn view(&self) -> RunV {
        RunV {
            id: self.node_id.0 as int,
            text: self.text@,
            face: self.face,
            families: owned_texts(self.families@),
            weight: self.weight,
            italic: self.italic,
            font_size: self.font_size,
            line_height: self.line_height,
            letter_spacing: self.letter_spacing,
            color: self.color,
            valign: self.valign,
            nowrap: self.nowrap,
        }
    }
}

pub open spec fn runs_view(v: Seq<InlineRun>) -> Seq<RunV> {
    v.map_values(|r: InlineRun| r@)
}

/// One piece of a paragraph: text, an unbreakable box, or a forced break.
#[derive(Debug)]
pub enum Piece {
    Run(InlineRun),
    Atom(InlineAtom),
    Break,
}

/// An unbreakable box on its way into a line: the size of its margin box, how it
/// stands in the line, and the font size that it is raised or lowered by.
#[derive(Debug, Clone, Copy)]
pub struct InlineAtom {
    pub id: usize,
    pub width: i64,
    pub height: i64,
    pub valign: VAlign,
    pub font_size: i64,
}

/// The mathematical reading of a [`Piece`].
pub enum PieceV {
    Run(RunV),
    Atom(InlineAtom),
    Break,
}

impl View for Piece {
    type V = PieceV;

    open spec fn view(&self) -> PieceV {
        match *self {
            Piece::Run(r) => PieceV::Run(r@),
            Piece::Atom(a) => PieceV::Atom(a),
            Piece::Break => PieceV::Break,
        }
    }
}

pub open spec fn pieces_view(v: Seq<Piece>) -> Seq<PieceV> {
    v.map_values(|p: Piece| p@)
}

// --------------------------------------------------------------------------
// runs
// --------------------------------------------------------------------------

/// The run of a text in its style: `None` where there is no face to set it in.
#[verifier::opaque]
pub open spec fn run_for(
    id: int,
    style: StyleMap,
    text: Seq<char>,
    fs: i64,
    cw: i64,
    fonts: RegistryV,
    vp: Viewport,
) -> Option<RunV> {
    let s = box_style_in(
        style,
        ResolveCtx { parent_font_size: fs, cb_width: cw, viewport: vp },
    );
    match face_at(fonts, selected(fonts, s.font_families, s.font_weight, s.italic)) {
        None => None,
        Some(f) => Some(
            RunV {
                id,
                text,
                face: f.source,
                families: s.font_families,
                weight: s.font_weight,
                italic: s.italic,
                font_size: s.font_size,
                line_height: s.line_height,
                letter_spacing: s.letter_spacing,
                color: s.color,
                valign: s.vertical_align,
                nowrap: is_set_to(style, "white-space"@, "nowrap"@) || is_set_to(
                    style,
                    "white-space"@,
                    "pre"@,
                ),
            },
        ),
    }
}

fn borrowed(v: &Vec<String>) -> (r: Vec<&str>)
    ensures
        texts(r@) == owned_texts(v@),
{
    let mut out: Vec<&str> = Vec::new();
    let mut i: usize = 0;
    while i < v.len()
        invariant
            i <= v@.len(),
            out@.len() == i,
            forall|j: int| 0 <= j < i ==> (#[trigger] out@[j])@ == v@[j]@,
        decreases v@.len() - i,
    {
        out.push(v[i].as_str());
        i += 1;
    }
    proof {
        assert(texts(out@) =~= owned_texts(v@));
    }
    out
}

/// The run of a text in its style.
pub fn text_run(
    node_id: NodeId,
    style: &ComputedStyle,
    text: &String,
    fs: i64,
    cw: i64,
    fonts: &FontRegistry,
    vp: Viewport,
) -> (r: Option<InlineRun>)
    ensures
        match r {
            Some(x) => run_for(node_id.0 as int, style@, text@, fs, cw, fonts@, vp) == Some(x@),
            None => run_for(node_id.0 as int, style@, text@, fs, cw, fonts@, vp) is None,
        },
{
    proof {
        reveal(run_for);
    }
    let s = resolve_box_style(
        style,
        ResolveCtx { parent_font_size: fs, cb_width: cw, viewport: vp },
    );
    let face: usize = {
        let names = borrowed(&s.font_families);
        match fonts.select(&names, s.font_weight, s.italic) {
            Some(f) => f.source,
            None => return None,
        }
    };
    Some(
        InlineRun {
            node_id,
            text: text.clone(),
            face,
            families: s.font_families,
            weight: s.font_weight,
            italic: s.italic,
            font_size: s.font_size,
            line_height: s.line_height,
            letter_spacing: s.letter_spacing,
            color: s.color,
            valign: s.vertical_align,
            nowrap: set_to(style, "white-space", "nowrap") || set_to(style, "white-space", "pre"),
        },
    )
}

/// The runs of the texts among the first `k` items.
pub open spec fn runs_of(v: Seq<ItemV>, fs: i64, cw: i64, fonts: RegistryV, vp: Viewport, k: nat) -> Seq<
    RunV,
>
    decreases k,
{
    if k == 0 || k > v.len() {
        Seq::empty()
    } else {
        let before = runs_of(v, fs, cw, fonts, vp, (k - 1) as nat);
        match v[k - 1] {
            ItemV::Text { id, style, text } => match run_for(id, style, text, fs, cw, fonts, vp) {
                Some(r) => before.push(r),
                None => before,
            },
            _ => before,
        }
    }
}

/// The text of an inline context as runs.
pub fn build_runs(items: &Vec<InlineItem>, fs: i64, cw: i64, fonts: &FontRegistry, vp: Viewport) -> (r:
    Vec<InlineRun>)
    ensures
        runs_view(r@) == runs_of(items_view(items@), fs, cw, fonts@, vp, items@.len()),
{
    let ghost iv = items_view(items@);
    let mut out: Vec<InlineRun> = Vec::new();
    let mut k: usize = 0;
    proof {
        assert(runs_view(out@) =~= Seq::empty());
    }
    while k < items.len()
        invariant
            k <= items@.len(),
            iv == items_view(items@),
            runs_view(out@) == runs_of(iv, fs, cw, fonts@, vp, k as nat),
        decreases items@.len() - k,
    {
        proof {
            assert(iv[k as int] == item_view(items@[k as int]));
        }
        if let InlineItem::Text { node_id, style, text } = &items[k] {
            if let Some(r) = text_run(*node_id, style, text, fs, cw, fonts, vp) {
                proof {
                    assert(runs_view(out@.push(r)) =~= runs_view(out@).push(r@));
                }
                out.push(r);
            }
        }
        k += 1;
    }
    out
}

// --------------------------------------------------------------------------
// what has to be measured
// --------------------------------------------------------------------------

/// The text of one inline context, to be measured on one line and broken at every
/// chance.
#[derive(Debug)]
pub struct TextJob {
    pub id: u32,
    pub runs: Vec<InlineRun>,
}

/// The mathematical reading of a [`TextJob`].
pub struct JobV {
    pub id: int,
    pub runs: Seq<RunV>,
}

impl View for TextJob {
    type V = JobV;

    open spec fn view(&self) -> JobV {
        JobV { id: self.id as int, runs: runs_view(self.runs@) }
    }
}

pub open spec fn jobs_view(v: Seq<TextJob>) -> Seq<JobV> {
    v.map_values(|j: TextJob| j@)
}

/// The inline contexts in a box, in document order.
pub open spec fn jobs_in(b: BoxV, fonts: RegistryV, vp: Viewport) -> Seq<JobV>
    decreases b, 1int, 0nat,
{
    let s = box_style_in(
        b.style,
        ResolveCtx { parent_font_size: DEFAULT_FONT_SIZE, cb_width: 0, viewport: vp },
    );
    match b.kind {
        KindV::Lines(v) => seq![
            JobV { id: b.id, runs: runs_of(v, s.font_size, 0, fonts, vp, v.len()) },
        ] + jobs_in_items(v, fonts, vp, v.len()),
        KindV::Block(v) => jobs_among(v, fonts, vp, v.len()),
        KindV::Flex(v) => jobs_among(v, fonts, vp, v.len()),
        KindV::Grid(v) => jobs_among(v, fonts, vp, v.len()),
        KindV::Table(v) => jobs_among(v, fonts, vp, v.len()),
        KindV::Directive(_) => Seq::empty(),
    }
}

pub open spec fn jobs_among(v: Seq<BoxV>, fonts: RegistryV, vp: Viewport, k: nat) -> Seq<JobV>
    decreases v, 0int, k,
{
    if k == 0 || k > v.len() {
        Seq::empty()
    } else {
        jobs_among(v, fonts, vp, (k - 1) as nat) + jobs_in(v[k - 1], fonts, vp)
    }
}

pub open spec fn jobs_in_items(v: Seq<ItemV>, fonts: RegistryV, vp: Viewport, k: nat) -> Seq<JobV>
    decreases v, 0int, k,
{
    if k == 0 || k > v.len() {
        Seq::empty()
    } else {
        let before = jobs_in_items(v, fonts, vp, (k - 1) as nat);
        match v[k - 1] {
            ItemV::Atomic(b) => before + jobs_in(b, fonts, vp),
            _ => before,
        }
    }
}

/// Every inline context of a box tree, with the runs whose widths layout goes by.
pub fn text_jobs(b: &LayoutBox, fonts: &FontRegistry, vp: Viewport) -> (r: Vec<TextJob>)
    ensures
        jobs_view(r@) == jobs_in(box_view(*b), fonts@, vp),
    decreases b, 1int,
{
    proof {
        lemma_kind_children(b.kind);
    }
    match &b.kind {
        BoxKind::Lines(items) => {
            let s = resolve_box_style(
                &b.style,
                ResolveCtx { parent_font_size: DEFAULT_FONT_SIZE, cb_width: 0, viewport: vp },
            );
            let runs = build_runs(items, s.font_size, 0, fonts, vp);
            let mut out: Vec<TextJob> = Vec::new();
            out.push(TextJob { id: b.node_id.0, runs });
            let ghost first = jobs_view(out@);
            let mut rest = jobs_of_items(items, fonts, vp);
            let ghost more = rest@;
            out.append(&mut rest);
            proof {
                assert(first =~= seq![first[0]]);
                assert(jobs_view(out@) =~= first + jobs_view(more));
            }
            out
        },
        BoxKind::Block(k) => jobs_of_boxes(k, fonts, vp),
        BoxKind::Flex(k) => jobs_of_boxes(k, fonts, vp),
        BoxKind::Grid(k) => jobs_of_boxes(k, fonts, vp),
        BoxKind::Table(k) => jobs_of_boxes(k, fonts, vp),
        BoxKind::Directive(_) => {
            let out: Vec<TextJob> = Vec::new();
            proof {
                assert(jobs_view(out@) =~= Seq::empty());
            }
            out
        },
    }
}

fn jobs_of_boxes(v: &Vec<LayoutBox>, fonts: &FontRegistry, vp: Viewport) -> (r: Vec<TextJob>)
    ensures
        jobs_view(r@) == jobs_among(boxes_view(v@), fonts@, vp, v@.len()),
    decreases v, 0int,
{
    let ghost bv = boxes_view(v@);
    let mut out: Vec<TextJob> = Vec::new();
    let mut k: usize = 0;
    proof {
        assert(jobs_view(out@) =~= Seq::empty());
    }
    while k < v.len()
        invariant
            k <= v@.len(),
            bv == boxes_view(v@),
            jobs_view(out@) == jobs_among(bv, fonts@, vp, k as nat),
        decreases v@.len() - k,
    {
        proof {
            assert(bv[k as int] == box_view(v@[k as int]));
        }
        let ghost before = out@;
        let mut more = text_jobs(&v[k], fonts, vp);
        let ghost m = more@;
        out.append(&mut more);
        proof {
            assert(jobs_view(out@) =~= jobs_view(before) + jobs_view(m));
        }
        k += 1;
    }
    out
}

fn jobs_of_items(v: &Vec<InlineItem>, fonts: &FontRegistry, vp: Viewport) -> (r: Vec<TextJob>)
    ensures
        jobs_view(r@) == jobs_in_items(items_view(v@), fonts@, vp, v@.len()),
    decreases v, 0int,
{
    let ghost iv = items_view(v@);
    let mut out: Vec<TextJob> = Vec::new();
    let mut k: usize = 0;
    proof {
        assert(jobs_view(out@) =~= Seq::empty());
    }
    while k < v.len()
        invariant
            k <= v@.len(),
            iv == items_view(v@),
            jobs_view(out@) == jobs_in_items(iv, fonts@, vp, k as nat),
        decreases v@.len() - k,
    {
        proof {
            assert(iv[k as int] == item_view(v@[k as int]));
        }
        if let InlineItem::Atomic(b) = &v[k] {
            let ghost before = out@;
            let mut more = text_jobs(b, fonts, vp);
            let ghost m = more@;
            out.append(&mut more);
            proof {
                assert(jobs_view(out@) =~= jobs_view(before) + jobs_view(m));
            }
        }
        k += 1;
    }
    out
}

// --------------------------------------------------------------------------
// lines
// --------------------------------------------------------------------------

/// Shaped text of one style on one line.
#[derive(Debug)]
pub struct GlyphRun {
    pub node_id: NodeId,
    pub glyphs: Vec<PositionedGlyph>,
    pub face: usize,
    pub font_size: i64,
    pub color: Rgba,
}

/// A box placed on a line, relative to the line's corner.
#[derive(Debug, Clone, Copy, PartialEq, Eq, Structural)]
pub struct PlacedAtom {
    pub id: usize,
    pub x: i64,
    pub y: i64,
}

/// One line of a paragraph, relative to the paragraph's corner.
#[derive(Debug)]
pub struct LineBox {
    pub indent: i64,
    pub top: i64,
    pub width: i64,
    pub height: i64,
    pub runs: Vec<GlyphRun>,
    pub atoms: Vec<PlacedAtom>,
}

/// A paragraph broken into lines.
#[derive(Debug)]
pub struct ParagraphLayout {
    pub lines: Vec<LineBox>,
    pub height: i64,
}

/// The mathematical reading of a [`GlyphRun`].
pub struct GlyphRunV {
    pub id: u32,
    pub text: TextLineV,
}

/// The mathematical reading of a [`LineBox`].
pub struct LineV {
    pub indent: int,
    pub top: int,
    pub width: int,
    pub height: int,
    pub runs: Seq<GlyphRunV>,
    pub atoms: Seq<PlacedAtom>,
}

/// The mathematical reading of a [`ParagraphLayout`].
pub struct ParagraphV {
    pub lines: Seq<LineV>,
    pub height: int,
}

impl View for GlyphRun {
    type V = GlyphRunV;

    open spec fn view(&self) -> GlyphRunV {
        GlyphRunV {
            id: self.node_id.0,
            text: TextLineV {
                glyphs: self.glyphs@,
                face: self.face,
                font_size: self.font_size,
                color: self.color,
            },
        }
    }
}

impl View for LineBox {
    type V = LineV;

    open spec fn view(&self) -> LineV {
        LineV {
            indent: self.indent as int,
            top: self.top as int,
            width: self.width as int,
            height: self.height as int,
            runs: self.runs@.map_values(|r: GlyphRun| r@),
            atoms: self.atoms@,
        }
    }
}

impl View for ParagraphLayout {
    type V = ParagraphV;

    open spec fn view(&self) -> ParagraphV {
        ParagraphV {
            lines: self.lines@.map_values(|l: LineBox| l@),
            height: self.height as int,
        }
    }
}

/// The fragment of one run of a line.
pub open spec fn run_frag(l: LineV, r: GlyphRunV, cx: int, cy: int) -> FragV {
    plain_frag(
        NodeId(r.id),
        sum(cx, l.indent),
        sum(cy, l.top),
        l.width,
        l.height,
        ContentV::TextLine(r.text),
    )
}

/// The text fragments of the first `k` lines, in order.
pub open spec fn text_frags(v: Seq<LineV>, cx: int, cy: int, k: nat) -> Seq<FragV>
    decreases k,
{
    if k == 0 || k > v.len() {
        Seq::empty()
    } else {
        text_frags(v, cx, cy, (k - 1) as nat) + v[k - 1].runs.map_values(
            |r: GlyphRunV| run_frag(v[k - 1], r, cx, cy),
        )
    }
}

/// The boxes of the first `k` lines at their places, in order.
pub open spec fn atom_frags(v: Seq<LineV>, atoms: Seq<FragV>, cx: int, cy: int, k: nat) -> Seq<FragV>
    decreases k,
{
    if k == 0 || k > v.len() {
        Seq::empty()
    } else {
        atom_frags(v, atoms, cx, cy, (k - 1) as nat) + line_atoms(
            v[k - 1],
            atoms,
            cx,
            cy,
            v[k - 1].atoms.len(),
        )
    }
}

/// The first `k` boxes of a line at their places.
pub open spec fn line_atoms(l: LineV, atoms: Seq<FragV>, cx: int, cy: int, k: nat) -> Seq<FragV>
    decreases k,
{
    if k == 0 || k > l.atoms.len() {
        Seq::empty()
    } else {
        let before = line_atoms(l, atoms, cx, cy, (k - 1) as nat);
        let p = l.atoms[k - 1];
        if p.id < atoms.len() {
            before.push(
                moved(
                    atoms[p.id as int],
                    sum(sum(cx, l.indent), p.x as int),
                    sum(sum(cy, l.top), p.y as int),
                ),
            )
        } else {
            before
        }
    }
}

/// The text of a paragraph's lines as fragments.
pub fn lines_to_fragments(p: &ParagraphLayout, cx: i64, cy: i64) -> (r: Vec<Fragment>)
    ensures
        frags_view(r@) == text_frags(p@.lines, cx as int, cy as int, p@.lines.len()),
{
    let ghost lv = p@.lines;
    let mut out: Vec<Fragment> = Vec::new();
    let mut k: usize = 0;
    proof {
        assert(frags_view(out@) =~= Seq::empty());
    }
    while k < p.lines.len()
        invariant
            k <= p.lines@.len(),
            lv == p@.lines,
            frags_view(out@) == text_frags(lv, cx as int, cy as int, k as nat),
        decreases p.lines@.len() - k,
    {
        let line = &p.lines[k];
        let ghost l = line@;
        let ghost before = frags_view(out@);
        let ghost rf = l.runs.map_values(|r: GlyphRunV| run_frag(l, r, cx as int, cy as int));
        proof {
            assert(l == lv[k as int]);
        }
        let mut j: usize = 0;
        while j < line.runs.len()
            invariant
                j <= line.runs@.len(),
                l == line@,
                rf == l.runs.map_values(|r: GlyphRunV| run_frag(l, r, cx as int, cy as int)),
                frags_view(out@) =~= before + rf.take(j as int),
            decreases line.runs@.len() - j,
        {
            let run = &line.runs[j];
            let f = Fragment::new(
                run.node_id,
                plus(cx, line.indent),
                plus(cy, line.top),
                line.width,
                line.height,
                FragmentContent::TextLine(
                    TextLine {
                        glyphs: clone_glyphs(&run.glyphs),
                        face: run.face,
                        font_size: run.font_size,
                        color: run.color,
                    },
                ),
            );
            proof {
                assert(run@ == l.runs[j as int]);
                assert(frag_view(f) == rf[j as int]);
                lemma_frags_push(out@, f);
                assert(rf.take(j as int + 1) =~= rf.take(j as int).push(rf[j as int]));
            }
            out.push(f);
            j += 1;
        }
        proof {
            assert(rf.take(j as int) =~= rf);
            assert(lv[k as int].runs.map_values(
                |r: GlyphRunV| run_frag(lv[k + 1 - 1], r, cx as int, cy as int),
            ) =~= rf);
        }
        k += 1;
    }
    out
}

/// The boxes of a paragraph at the places that its lines give them.
pub fn place_atoms(p: &ParagraphLayout, atoms: &Vec<Fragment>, cx: i64, cy: i64) -> (r: Vec<
    Fragment,
>)
    ensures
        frags_view(r@) == atom_frags(
            p@.lines,
            frags_view(atoms@),
            cx as int,
            cy as int,
            p@.lines.len(),
        ),
{
    let ghost lv = p@.lines;
    let ghost av = frags_view(atoms@);
    let mut out: Vec<Fragment> = Vec::new();
    let mut k: usize = 0;
    proof {
        assert(frags_view(out@) =~= Seq::empty());
    }
    while k < p.lines.len()
        invariant
            k <= p.lines@.len(),
            lv == p@.lines,
            av == frags_view(atoms@),
            frags_view(out@) == atom_frags(lv, av, cx as int, cy as int, k as nat),
        decreases p.lines@.len() - k,
    {
        let line = &p.lines[k];
        let ghost l = line@;
        let ghost before = frags_view(out@);
        proof {
            assert(l == lv[k as int]);
        }
        let mut j: usize = 0;
        while j < line.atoms.len()
            invariant
                j <= line.atoms@.len(),
                l == line@,
                av == frags_view(atoms@),
                frags_view(out@) =~= before + line_atoms(l, av, cx as int, cy as int, j as nat),
            decreases line.atoms@.len() - j,
        {
            let a: PlacedAtom = line.atoms[j];
            if a.id < atoms.len() {
                let f = atoms[a.id].translated(
                    plus(plus(cx, line.indent), a.x),
                    plus(plus(cy, line.top), a.y),
                );
                proof {
                    assert(av[a.id as int] == frag_view(atoms@[a.id as int]));
                    lemma_frags_push(out@, f);
                }
                out.push(f);
            }
            j += 1;
        }
        k += 1;
    }
    out
}

} // verus!
