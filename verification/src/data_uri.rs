//! Inline images: `data:` URIs and base64.

use vstd::prelude::*;
use vstd::string::*;

use crate::image::{bytes_of, ImageResolver};
use crate::layout::boxgen::{attr_of, attr_value};
use crate::node::{attrs_view, node_view, nodes_view, Element, FlowNode, NodeV, Tag, TagV};
use crate::scan::{
    after_prefix, ascii_space, chars_of, contains, is_ascii_space, lemma_run_is, occurs,
    run_without, same, starts, starts_with, strip_prefix,
};

verus! {

// --------------------------------------------------------------------------
// base64
// --------------------------------------------------------------------------

/// The six bits that a character of the standard alphabet stands for.
pub open spec fn sextet_of(c: char) -> Option<nat> {
    if 'A' <= c <= 'Z' {
        Some((c as int - 'A' as int) as nat)
    } else if 'a' <= c <= 'z' {
        Some((c as int - 'a' as int + 26) as nat)
    } else if '0' <= c <= '9' {
        Some((c as int - '0' as int + 52) as nat)
    } else if c == '+' {
        Some(62)
    } else if c == '/' {
        Some(63)
    } else {
        None
    }
}

/// The bytes decoded so far, and the pending bits.
pub struct Pending {
    pub acc: nat,
    pub bits: nat,
    pub out: Seq<u8>,
}

/// Two to the power of 0, 2, 4 or 6.
pub open spec fn two_to(bits: nat) -> nat {
    if bits == 0 {
        1
    } else if bits == 2 {
        4
    } else if bits == 4 {
        16
    } else {
        64
    }
}

/// One more character: padding and whitespace are skipped, another outside the
/// alphabet is refused.
pub open spec fn feed(p: Pending, c: char) -> Option<Pending> {
    if c == '=' || is_ascii_space(c) {
        Some(p)
    } else {
        match sextet_of(c) {
            Some(s) => {
                let a = p.acc * 64 + s;
                let b = p.bits + 6;
                if b >= 8 {
                    let rest = (b - 8) as nat;
                    Some(
                        Pending {
                            acc: a % two_to(rest),
                            bits: rest,
                            out: p.out.push((a / two_to(rest)) as u8),
                        },
                    )
                } else {
                    Some(Pending { acc: a, bits: b, out: p.out })
                }
            },
            None => None,
        }
    }
}

pub open spec fn feed_all(p: Pending, s: Seq<char>) -> Option<Pending>
    decreases s.len(),
{
    if s.len() == 0 {
        Some(p)
    } else {
        match feed(p, s[0]) {
            Some(q) => feed_all(q, s.skip(1)),
            None => None,
        }
    }
}

pub open spec fn nothing_pending(out: Seq<u8>) -> Pending {
    Pending { acc: 0, bits: 0, out }
}

/// The bytes that a base64 text writes.
pub open spec fn base64_of(s: Seq<char>) -> Option<Seq<u8>> {
    match feed_all(nothing_pending(Seq::empty()), s) {
        Some(p) => Some(p.out),
        None => None,
    }
}

fn sextet(c: char) -> (r: Option<u32>)
    ensures
        match r {
            Some(v) => sextet_of(c) == Some(v as nat) && v < 64,
            None => sextet_of(c) is None,
        },
{
    if 'A' <= c && c <= 'Z' {
        Some(c as u32 - 'A' as u32)
    } else if 'a' <= c && c <= 'z' {
        Some(c as u32 - 'a' as u32 + 26)
    } else if '0' <= c && c <= '9' {
        Some(c as u32 - '0' as u32 + 52)
    } else if c == '+' {
        Some(62)
    } else if c == '/' {
        Some(63)
    } else {
        None
    }
}

/// The counts of bits that can be pending between two characters.
pub open spec fn pending_count(bits: u32) -> bool {
    bits == 0 || bits == 2 || bits == 4 || bits == 6
}

/// Whether a character is passed over: padding or whitespace.
pub open spec fn passed_over(c: char) -> bool {
    c == '=' || is_ascii_space(c)
}

/// Fold one character into the pending bits, the low ones of `acc`; `false` where it
/// is refused. What stands above them in `acc` makes no difference to the bytes.
pub fn base64_feed(c: char, acc: &mut u32, bits: &mut u32, out: &mut Vec<u8>) -> (r: bool)
    requires
        pending_count(*old(bits)),
    ensures
        pending_count(*final(bits)),
        r == (passed_over(c) || sextet_of(c) is Some),
        passed_over(c) || sextet_of(c) is None ==> *final(acc) == *old(acc) && *final(bits)
            == *old(bits) && final(out)@ == old(out)@,
        !passed_over(c) && sextet_of(c) is Some ==> {
            &&& *final(acc) == (*old(acc) << 6u32) | (sextet_of(c)->0 as u32)
            &&& *final(bits) == (*old(bits) + 6) % 8
            &&& final(out)@ == if *old(bits) == 0 {
                old(out)@
            } else {
                old(out)@.push(((*final(acc) >> *final(bits)) & 0xff) as u8)
            }
        },
{
    if c == '=' || ascii_space(c) {
        return true;
    }
    let s: u32 = match sextet(c) {
        Some(v) => v,
        None => return false,
    };
    *acc = (*acc << 6u32) | s;
    *bits += 6;
    if *bits >= 8 {
        *bits -= 8;
        let byte: u32 = (*acc >> *bits) & 0xff;
        proof {
            let x = *acc >> *bits;
            assert(x & 0xff <= 0xff) by (bit_vector);
        }
        out.push(byte as u8);
    }
    true
}

/// The pending bits of an accumulator, with the bytes decoded so far.
spec fn pending_of(acc: u32, bits: u32, out: Seq<u8>) -> Pending {
    Pending { acc: acc as nat % two_to(bits as nat), bits: bits as nat, out }
}

/// Folding in six bits goes by the pending bits alone.
proof fn lemma_fold(acc: u32, bits: u32, s: u32)
    requires
        pending_count(bits),
        s < 64,
    ensures
        ({
            let next = (acc << 6u32) | s;
            let a = ((acc as nat % two_to(bits as nat)) * 64 + s) as nat;
            if bits == 0 {
                a == next as nat % 64
            } else {
                let rest = (bits - 2) as u32;
                &&& a % two_to(rest as nat) == next as nat % two_to(rest as nat)
                &&& a / two_to(rest as nat) == (next >> rest) & 0xff
                &&& (next >> rest) & 0xff <= 0xff
            }
        }),
{
    let next = (acc << 6u32) | s;
    if bits == 0 {
        assert(next % 64 == s) by (bit_vector)
            requires
                next == (acc << 6u32) | s,
                s < 64,
        ;
    } else if bits == 2 {
        assert((acc % 4) * 64 + s == (next >> 0u32) & 0xff && (next >> 0u32) & 0xff <= 0xff)
            by (bit_vector)
            requires
                next == (acc << 6u32) | s,
                s < 64,
        ;
    } else if bits == 4 {
        assert(((acc % 16) * 64 + s) / 4 == (next >> 2u32) & 0xff && (next >> 2u32) & 0xff <= 0xff
            && ((acc % 16) * 64 + s) % 4 == next % 4) by (bit_vector)
            requires
                next == (acc << 6u32) | s,
                s < 64,
        ;
    } else {
        assert(((acc % 64) * 64 + s) / 16 == (next >> 4u32) & 0xff && (next >> 4u32) & 0xff <= 0xff
            && ((acc % 64) * 64 + s) % 16 == next % 16) by (bit_vector)
            requires
                next == (acc << 6u32) | s,
                s < 64,
        ;
    }
}

/// Decode standard base64, skipping padding and whitespace; `None` where a
/// character is not of the alphabet.
pub fn base64_decode(s: &str) -> (r: Option<Vec<u8>>)
    ensures
        match r {
            Some(v) => base64_of(s@) == Some(v@),
            None => base64_of(s@) is None,
        },
{
    let x = chars_of(s);
    let mut out: Vec<u8> = Vec::new();
    let mut acc: u32 = 0;
    let mut bits: u32 = 0;
    let mut i: usize = 0;
    proof {
        assert(s@.skip(0) =~= s@);
        assert(out@ =~= Seq::empty());
    }
    while i < x.len()
        invariant
            x@ == s@,
            i <= x@.len(),
            pending_count(bits),
            feed_all(nothing_pending(Seq::empty()), s@) == feed_all(
                pending_of(acc, bits, out@),
                s@.skip(i as int),
            ),
        decreases x@.len() - i,
    {
        proof {
            assert(s@.skip(i as int)[0] == x@[i as int]);
            assert(s@.skip(i as int).skip(1) =~= s@.skip(i as int + 1));
            if sextet_of(x@[i as int]) is Some {
                lemma_fold(acc, bits, sextet_of(x@[i as int])->0 as u32);
            }
        }
        if !base64_feed(x[i], &mut acc, &mut bits, &mut out) {
            return None;
        }
        i += 1;
    }
    Some(out)
}

/// The character that stands for six bits.
pub open spec fn letter(v: nat) -> char {
    if v < 26 {
        (v + 65) as u8 as char
    } else if v < 52 {
        (v - 26 + 97) as u8 as char
    } else if v < 62 {
        (v - 52 + 48) as u8 as char
    } else if v == 62 {
        '+'
    } else {
        '/'
    }
}

/// The standard base64 text of some bytes, padded.
pub open spec fn encoded(b: Seq<u8>) -> Seq<char>
    decreases b.len(),
{
    if b.len() == 0 {
        Seq::empty()
    } else if b.len() == 1 {
        seq![letter(b[0] as nat / 4), letter(b[0] as nat % 4 * 16), '=', '=']
    } else if b.len() == 2 {
        seq![
            letter(b[0] as nat / 4),
            letter(b[0] as nat % 4 * 16 + b[1] as nat / 16),
            letter(b[1] as nat % 16 * 4),
            '=',
        ]
    } else {
        seq![
            letter(b[0] as nat / 4),
            letter(b[0] as nat % 4 * 16 + b[1] as nat / 16),
            letter(b[1] as nat % 16 * 4 + b[2] as nat / 64),
            letter(b[2] as nat % 64),
        ] + encoded(b.skip(3))
    }
}

proof fn lemma_letter(v: nat)
    requires
        v < 64,
    ensures
        sextet_of(letter(v)) == Some(v),
        letter(v) != '=',
        !is_ascii_space(letter(v)),
{
}

proof fn lemma_feed_four(p: Pending, a: char, b: char, c: char, d: char, rest: Seq<char>)
    ensures
        feed_all(p, seq![a, b, c, d] + rest) == match feed(p, a) {
            Some(q) => match feed(q, b) {
                Some(q) => match feed(q, c) {
                    Some(q) => match feed(q, d) {
                        Some(q) => feed_all(q, rest),
                        None => None,
                    },
                    None => None,
                },
                None => None,
            },
            None => None,
        },
{
    let s = seq![a, b, c, d] + rest;
    assert(s.skip(1) =~= seq![b, c, d] + rest);
    assert(s.skip(1).skip(1) =~= seq![c, d] + rest);
    assert(s.skip(1).skip(1).skip(1) =~= seq![d] + rest);
    assert(s.skip(1).skip(1).skip(1).skip(1) =~= rest);
    reveal_with_fuel(feed_all, 5);
}

proof fn lemma_decode_group(out: Seq<u8>, b0: u8, b1: u8, b2: u8)
    ensures
        ({
            let p = nothing_pending(out);
            let q = feed(p, letter(b0 as nat / 4));
            let r = feed(q->0, letter(b0 as nat % 4 * 16 + b1 as nat / 16));
            let s = feed(r->0, letter(b1 as nat % 16 * 4 + b2 as nat / 64));
            let t = feed(s->0, letter(b2 as nat % 64));
            &&& q is Some && r is Some && s is Some && t is Some
            &&& r->0.out == out.push(b0)
            &&& s->0.out == out.push(b0).push(b1)
            &&& t->0 == nothing_pending(out.push(b0).push(b1).push(b2))
        }),
{
    lemma_letter(b0 as nat / 4);
    lemma_letter(b0 as nat % 4 * 16 + b1 as nat / 16);
    lemma_letter(b1 as nat % 16 * 4 + b2 as nat / 64);
    lemma_letter(b2 as nat % 64);
}

proof fn lemma_round_trip(out: Seq<u8>, b: Seq<u8>)
    ensures
        feed_all(nothing_pending(out), encoded(b)) is Some,
        feed_all(nothing_pending(out), encoded(b))->0.out == out + b,
    decreases b.len(),
{
    let p = nothing_pending(out);
    if b.len() == 0 {
        assert(out + b =~= out);
    } else if b.len() == 1 {
        lemma_decode_group(out, b[0], 0, 0);
        let e = encoded(b);
        assert(e =~= seq![e[0], e[1], e[2], e[3]] + Seq::<char>::empty());
        lemma_feed_four(p, e[0], e[1], '=', '=', Seq::empty());
        assert(out + b =~= out.push(b[0]));
    } else if b.len() == 2 {
        lemma_decode_group(out, b[0], b[1], 0);
        let e = encoded(b);
        assert(e =~= seq![e[0], e[1], e[2], e[3]] + Seq::<char>::empty());
        lemma_feed_four(p, e[0], e[1], e[2], '=', Seq::empty());
        assert(out + b =~= out.push(b[0]).push(b[1]));
    } else {
        lemma_decode_group(out, b[0], b[1], b[2]);
        let rest = b.skip(3);
        lemma_feed_four(
            p,
            letter(b[0] as nat / 4),
            letter(b[0] as nat % 4 * 16 + b[1] as nat / 16),
            letter(b[1] as nat % 16 * 4 + b[2] as nat / 64),
            letter(b[2] as nat % 64),
            encoded(rest),
        );
        let next = out.push(b[0]).push(b[1]).push(b[2]);
        lemma_round_trip(next, rest);
        assert(next + rest =~= out + b);
    }
}

/// Decoding the standard base64 text of any bytes gives those bytes back.
pub proof fn law_base64_round_trip(b: Seq<u8>)
    ensures
        base64_of(encoded(b)) == Some(b),
{
    lemma_round_trip(Seq::empty(), b);
    assert(Seq::<u8>::empty() + b =~= b);
}

// --------------------------------------------------------------------------
// data URIs
// --------------------------------------------------------------------------

/// The bytes of a `data:[<type>];base64,<payload>` URI; another encoding has
/// none.
pub open spec fn data_uri(src: Seq<char>) -> Option<Seq<u8>> {
    match after_prefix(src, "data:"@) {
        Some(rest) => {
            let n = run_without(rest, ',', ',') as int;
            if n < rest.len() && occurs(rest.take(n), ";base64"@) {
                base64_of(rest.skip(n + 1))
            } else {
                None
            }
        },
        None => None,
    }
}

/// Decode a base64 `data:` URI.
pub fn decode_data_uri(src: &str) -> (r: Option<Vec<u8>>)
    ensures
        match r {
            Some(v) => data_uri(src@) == Some(v@),
            None => data_uri(src@) is None,
        },
{
    let rest = match strip_prefix(src, "data:") {
        Some(r) => r,
        None => return None,
    };
    let x = chars_of(rest);
    let mut n: usize = 0;
    while n < x.len() && x[n] != ','
        invariant
            x@ == rest@,
            n <= x@.len(),
            forall|j: int| 0 <= j < n ==> x@[j] != ',',
        decreases x@.len() - n,
    {
        n += 1;
    }
    proof {
        lemma_run_is(rest@, ',', ',', n as int);
    }
    if n >= x.len() {
        return None;
    }
    let header = rest.substring_char(0, n);
    proof {
        assert(header@ =~= rest@.take(n as int));
    }
    if !contains(header, ";base64") {
        return None;
    }
    let payload = rest.substring_char(n + 1, x.len());
    proof {
        assert(payload@ =~= rest@.skip(n as int + 1));
    }
    base64_decode(payload)
}

// --------------------------------------------------------------------------
// the inline images of a document
// --------------------------------------------------------------------------

/// Image bytes by source text.
pub type ImageMap = Map<Seq<char>, Seq<u8>>;

/// The `data:` source of an `<img>`.
pub open spec fn data_src(tag: TagV, attrs: Seq<(Seq<char>, Seq<char>)>) -> Option<Seq<char>> {
    if tag == TagV::Html("img"@) {
        match attr_of(attrs, "src"@) {
            Some(s) if starts(s, "data:"@) => Some(s),
            _ => None,
        }
    } else {
        None
    }
}

/// The map with the image of one element added, where it has one that decodes.
pub open spec fn with_image(
    m: ImageMap,
    tag: TagV,
    attrs: Seq<(Seq<char>, Seq<char>)>,
) -> ImageMap {
    match data_src(tag, attrs) {
        Some(s) => if m.contains_key(s) {
            m
        } else {
            match data_uri(s) {
                Some(b) => m.insert(s, b),
                None => m,
            }
        },
        None => m,
    }
}

/// The map with the images of the first `k` trees added.
pub open spec fn with_images(m: ImageMap, v: Seq<NodeV>, k: nat) -> ImageMap
    decreases v, k,
{
    if k == 0 || k > v.len() {
        m
    } else {
        let before = with_images(m, v, (k - 1) as nat);
        match v[k - 1] {
            NodeV::Text(_) => before,
            NodeV::Element { tag, attrs, children } => with_images(
                with_image(before, tag, attrs),
                children,
                children.len(),
            ),
        }
    }
}

/// Image bytes by source text, no text twice.
#[derive(Debug)]
pub struct DataUriImages {
    entries: Vec<(String, Vec<u8>)>,
}

pub open spec fn entries_map(s: Seq<(String, Vec<u8>)>) -> ImageMap
    decreases s.len(),
{
    if s.len() == 0 {
        Map::empty()
    } else {
        entries_map(s.drop_last()).insert(s.last().0@, s.last().1@)
    }
}

impl View for DataUriImages {
    type V = ImageMap;

    closed spec fn view(&self) -> ImageMap {
        entries_map(self.entries@)
    }
}

impl DataUriImages {
    /// No images.
    pub fn new() -> (r: DataUriImages)
        ensures
            r@ == Map::<Seq<char>, Seq<u8>>::empty(),
    {
        DataUriImages { entries: Vec::new() }
    }

    /// The bytes of a source.
    pub fn get(&self, name: &str) -> (r: Option<&[u8]>)
        ensures
            bytes_of(r) == if self@.contains_key(name@) {
                Some(self@[name@])
            } else {
                None
            },
    {
        let mut i: usize = self.entries.len();
        proof {
            assert(self.entries@.take(i as int) =~= self.entries@);
        }
        while i > 0
            invariant
                i <= self.entries@.len(),
                self@.contains_key(name@) == entries_map(
                    self.entries@.take(i as int),
                ).contains_key(name@),
                self@.contains_key(name@) ==> self@[name@] == entries_map(
                    self.entries@.take(i as int),
                )[name@],
            decreases i,
        {
            let ghost t = self.entries@.take(i as int);
            proof {
                assert(t.drop_last() =~= self.entries@.take(i - 1));
                assert(t.last() == self.entries@[i - 1]);
            }
            i -= 1;
            if same(self.entries[i].0.as_str(), name) {
                return Some(self.entries[i].1.as_slice());
            }
        }
        None
    }

    /// Keep the image of one element, unless it is known already.
    fn record(&mut self, e: &Element)
        ensures
            final(self)@ == with_image(old(self)@, e.tag@, attrs_view(e.attrs@)),
    {
        let is_img: bool = match &e.tag {
            Tag::Html(n) => same(n.as_str(), "img"),
            Tag::Directive(_) => false,
        };
        if !is_img {
            return;
        }
        let src = match attr_value(&e.attrs, "src") {
            Some(s) => s,
            None => return,
        };
        if !starts_with(src, "data:") || self.get(src).is_some() {
            return;
        }
        if let Some(bytes) = decode_data_uri(src) {
            let entry = (src.to_owned(), bytes);
            proof {
                let s = self.entries@.push(entry);
                assert(s.drop_last() =~= self.entries@);
            }
            self.entries.push(entry);
        }
    }

    /// Keep the inline images of some trees, in document order.
    pub fn collect(&mut self, nodes: &Vec<FlowNode>)
        ensures
            final(self)@ == with_images(old(self)@, nodes_view(nodes@), nodes@.len()),
        decreases nodes,
    {
        let ghost nv = nodes_view(nodes@);
        let ghost start = self@;
        let mut k: usize = 0;
        while k < nodes.len()
            invariant
                k <= nodes@.len(),
                nv == nodes_view(nodes@),
                self@ == with_images(start, nv, k as nat),
            decreases nodes@.len() - k,
        {
            proof {
                assert(nv[k as int] == node_view(nodes@[k as int]));
            }
            if let FlowNode::Element(e) = &nodes[k] {
                proof {
                    assert(node_view(nodes@[k as int])->children =~= nodes_view(e.children@));
                }
                self.record(e);
                self.collect(&e.children);
            }
            k += 1;
        }
    }
}

impl ImageResolver for DataUriImages {
    open spec fn lookup(&self, name: Seq<char>) -> Option<Seq<u8>> {
        if self@.contains_key(name) {
            Some(self@[name])
        } else {
            None
        }
    }

    fn resolve(&self, name: &str) -> (r: Option<&[u8]>) {
        self.get(name)
    }
}

/// Decode every `<img src="data:...;base64,...">` of a document, by its source.
pub fn collect_data_uri_images(nodes: &Vec<FlowNode>) -> (r: DataUriImages)
    ensures
        r@ == with_images(Map::empty(), nodes_view(nodes@), nodes@.len()),
{
    let mut images = DataUriImages::new();
    images.collect(nodes);
    images
}

/// Every entry is what its own source decodes to.
pub open spec fn is_faithful(m: ImageMap) -> bool {
    forall|s: Seq<char>| #[trigger] m.contains_key(s) ==> data_uri(s) == Some(m[s])
}

/// The images collected from a document are what their sources decode to.
pub proof fn law_collected_images_are_faithful(m: ImageMap, v: Seq<NodeV>, k: nat)
    requires
        is_faithful(m),
        k <= v.len(),
    ensures
        is_faithful(with_images(m, v, k)),
    decreases v, k,
{
    if k > 0 {
        law_collected_images_are_faithful(m, v, (k - 1) as nat);
        let before = with_images(m, v, (k - 1) as nat);
        if let NodeV::Element { tag, attrs, children } = v[k - 1] {
            law_collected_images_are_faithful(
                with_image(before, tag, attrs),
                children,
                children.len(),
            );
        }
    }
}

} // verus!
