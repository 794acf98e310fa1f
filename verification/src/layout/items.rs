//! Sizing the items of a flex or grid container on behalf of whoever places them.

use vstd::prelude::*;

use crate::image::ImageResolver;
use crate::layout::block::Frame;
use crate::layout::boxgen::{
    box_view, boxes_view, item_view, items_view, lemma_kind_children, BoxKind, BoxV, InlineItem,
    ItemV, KindV, LayoutBox,
};
use crate::layout::engine::{
    env_of, lay_sized, page_frame, resolve, style_of, Env, Host, Lay, Request, St, State,
};
use crate::layout::flow::layout_box_sized;
use crate::layout::imgsize::pixels;
use crate::layout::length::LengthPct;
use crate::layout::measure::{
    frame_of, frame_width, natural, natural_width, probe_source, source_size,
};
use crate::number::{least, min_of, plus, scale, scaled, sum, ONE};

verus! {

/// The width of an item that is a replaced image: its own, else its pixels; with
/// its padding and borders.
pub open spec fn image_width(b: BoxV, fs: i64, env: Env) -> Option<int> {
    let s = style_of(b.style, fs, 0, env.viewport);
    match b.image {
        Some((name, replaced)) => if replaced {
            match s.width {
                LengthPct::Px(w) => Some(sum(w as int, frame_of(s))),
                _ => match source_size(env.images, name) {
                    Some(i) => Some(sum(pixels(i.width), frame_of(s))),
                    None => None,
                },
            }
        } else {
            None
        },
        None => None,
    }
}

/// The width of a replaced item; `None` for any other one.
pub fn replaced_probe_width<R: ImageResolver>(b: &LayoutBox, fs: i64, h: &Host<R>) -> (r: Option<i64>)
    ensures
        match r {
            Some(w) => image_width(box_view(*b), fs, env_of(*h)) == Some(w as int),
            None => image_width(box_view(*b), fs, env_of(*h)) is None,
        },
{
    let src = match &b.image {
        Some(src) => src,
        None => return None,
    };
    if !src.replaced {
        return None;
    }
    let s = resolve(b, fs, 0, h.viewport);
    let frame: i64 = frame_width(&s);
    if let LengthPct::Px(w) = s.width {
        return Some(plus(w, frame));
    }
    match probe_source(h.images, src.name.as_str()) {
        Some(i) => {
            let w: i64 = scale(i.width as i64, ONE, 1);
            proof {
                assert(scaled(i.width as int, ONE as int, 1) == pixels(i.width));
            }
            Some(plus(w, frame))
        },
        None => None,
    }
}

/// The width of an item that is no image: as given, else that of its content on
/// one line, no more than it is offered.
pub open spec fn offered_width(b: BoxV, known: Option<i64>, offer: Option<i64>, env: Env) -> int {
    match known {
        Some(w) => w as int,
        None => match offer {
            Some(o) => least(natural(b, env.sources()), o as int),
            None => natural(b, env.sources()),
        },
    }
}

/// The width of an item from the width it is given, or offered where that is
/// bounded.
pub fn measure_width<R: ImageResolver>(
    b: &LayoutBox,
    known: Option<i64>,
    offer: Option<i64>,
    h: &Host<R>,
) -> (r: i64)
    ensures
        r == offered_width(box_view(*b), known, offer, env_of(*h)),
{
    match known {
        Some(w) => w,
        None => {
            let wide: i64 = natural_width(b, h.text, h.images, h.viewport);
            match offer {
                Some(o) => min_of(wide, o),
                None => wide,
            }
        },
    }
}

/// The size of an item laid out by itself.
pub open spec fn item_size(
    b: BoxV,
    known_w: Option<i64>,
    known_h: Option<i64>,
    offer: Option<i64>,
    fs: i64,
    env: Env,
) -> Lay<(int, int)> {
    let w = match image_width(b, fs, env) {
        Some(w) => w as i64,
        None => offered_width(b, known_w, offer, env) as i64,
    };
    let st = St { floats: Seq::empty(), used: 0 };
    match lay_sized(
        b,
        style_of(b.style, fs, w, env.viewport),
        0,
        0,
        w,
        false,
        true,
        page_frame(w),
        env,
        st,
    ) {
        Lay::Need(q) => Lay::Need(q),
        Lay::Done(f, st1) => Lay::Done(
            (
                match known_w {
                    Some(x) => x as int,
                    None => f.width,
                },
                match known_h {
                    Some(x) => x as int,
                    None => f.height,
                },
            ),
            st1,
        ),
    }
}

/// The size of an item of a container whose font size is `fs`, from what is known
/// of it and what it is offered.
pub fn measure_item<R: ImageResolver>(
    b: &LayoutBox,
    known_w: Option<i64>,
    known_h: Option<i64>,
    offer: Option<i64>,
    fs: i64,
    h: &Host<R>,
) -> (r: Result<(i64, i64), Request>)
    ensures
        match r {
            Ok(v) => item_size(
                box_view(*b),
                known_w,
                known_h,
                offer,
                fs,
                env_of(*h),
            ) matches Lay::Done(x, _) && x == (v.0 as int, v.1 as int),
            Err(q) => item_size(box_view(*b), known_w, known_h, offer, fs, env_of(*h)) == Lay::<
                (int, int),
            >::Need(q@),
        },
{
    let w: i64 = match replaced_probe_width(b, fs, h) {
        Some(w) => w,
        None => measure_width(b, known_w, offer, h),
    };
    let s = resolve(b, fs, w, h.viewport);
    let mut st = State { floats: Vec::new(), used: 0 };
    proof {
        assert(st@.floats =~= Seq::empty());
    }
    let f = Frame { abs_x: 0, abs_y: 0, abs_w: w, abs_h: 0, cb_h: 0, root_w: w };
    match layout_box_sized(b, &s, 0, 0, w, false, true, f, h, &mut st) {
        Ok(g) => {
            let width: i64 = match known_w {
                Some(x) => x,
                None => g.width,
            };
            let height: i64 = match known_h {
                Some(x) => x,
                None => g.height,
            };
            Ok((width, height))
        },
        Err(q) => Err(q),
    }
}

// --------------------------------------------------------------------------
// finding a box
// --------------------------------------------------------------------------

/// The first box of that id in a tree, in document order.
pub open spec fn box_of_id(b: BoxV, id: int) -> Option<BoxV>
    decreases b, 1int, 0nat,
{
    if b.id == id {
        Some(b)
    } else {
        match b.kind {
            KindV::Block(v) => first_of_id(v, id, 0),
            KindV::Flex(v) => first_of_id(v, id, 0),
            KindV::Grid(v) => first_of_id(v, id, 0),
            KindV::Table(v) => first_of_id(v, id, 0),
            KindV::Lines(v) => first_in_items(v, id, 0),
            KindV::Directive(_) => None,
        }
    }
}

pub open spec fn first_of_id(v: Seq<BoxV>, id: int, k: nat) -> Option<BoxV>
    decreases v, 0int, v.len() - k,
{
    if k >= v.len() {
        None
    } else {
        match box_of_id(v[k as int], id) {
            Some(b) => Some(b),
            None => first_of_id(v, id, k + 1),
        }
    }
}

pub open spec fn first_in_items(v: Seq<ItemV>, id: int, k: nat) -> Option<BoxV>
    decreases v, 0int, v.len() - k,
{
    if k >= v.len() {
        None
    } else {
        let here = match v[k as int] {
            ItemV::Atomic(b) => box_of_id(b, id),
            _ => None,
        };
        match here {
            Some(b) => Some(b),
            None => first_in_items(v, id, k + 1),
        }
    }
}

pub open spec fn found_box(o: Option<&LayoutBox>) -> Option<BoxV> {
    match o {
        Some(b) => Some(box_view(*b)),
        None => None,
    }
}

/// The box of that id, to find the container that a request names.
pub fn find_box<'a>(b: &'a LayoutBox, id: u32) -> (r: Option<&'a LayoutBox>)
    ensures
        found_box(r) == box_of_id(box_view(*b), id as int),
    decreases b, 1int,
{
    if b.node_id.0 == id {
        return Some(b);
    }
    proof {
        lemma_kind_children(b.kind);
    }
    match &b.kind {
        BoxKind::Block(v) => find_among(v, id),
        BoxKind::Flex(v) => find_among(v, id),
        BoxKind::Grid(v) => find_among(v, id),
        BoxKind::Table(v) => find_among(v, id),
        BoxKind::Lines(v) => find_in_items(v, id),
        BoxKind::Directive(_) => None,
    }
}

fn find_among<'a>(v: &'a Vec<LayoutBox>, id: u32) -> (r: Option<&'a LayoutBox>)
    ensures
        found_box(r) == first_of_id(boxes_view(v@), id as int, 0),
    decreases v, 0int,
{
    let ghost bv = boxes_view(v@);
    let mut k: usize = 0;
    while k < v.len()
        invariant
            k <= v@.len(),
            bv == boxes_view(v@),
            first_of_id(bv, id as int, 0) == first_of_id(bv, id as int, k as nat),
        decreases v@.len() - k,
    {
        proof {
            assert(bv[k as int] == box_view(v@[k as int]));
        }
        if let Some(b) = find_box(&v[k], id) {
            return Some(b);
        }
        k += 1;
    }
    None
}

fn find_in_items<'a>(v: &'a Vec<InlineItem>, id: u32) -> (r: Option<&'a LayoutBox>)
    ensures
        found_box(r) == first_in_items(items_view(v@), id as int, 0),
    decreases v, 0int,
{
    let ghost iv = items_view(v@);
    let mut k: usize = 0;
    while k < v.len()
        invariant
            k <= v@.len(),
            iv == items_view(v@),
            first_in_items(iv, id as int, 0) == first_in_items(iv, id as int, k as nat),
        decreases v@.len() - k,
    {
        proof {
            assert(iv[k as int] == item_view(v@[k as int]));
        }
        if let InlineItem::Atomic(b) = &v[k] {
            if let Some(x) = find_box(b, id) {
                return Some(x);
            }
        }
        k += 1;
    }
    None
}

} // verus!
