//! Overlaying a watermark on every page of a finished document.
//!
//! The overlay only adds: each page gets one form with the faded, turned text, and
//! one line at the end of its content that paints it. Reading and writing the file
//! and drawing the text are left to the caller.

use vstd::prelude::*;
use vstd::string::*;

use crate::layout::color::Rgba;
use crate::number::{diff, minus, parse_value, scale, scaled, value_of, LIMIT, ONE};
use crate::pdf::{
    add_object, add_page_contents, add_xobject, ascii, ascii_bytes, contents_list, dictionary_at,
    distinct_keys, doc_of, entries_view, entry_at, entry_view, final_id, followed, get_dictionary,
    get_entry, is_tree_key, keepable, law_entries_are_set, lemma_parts, max_id, max_id_of,
    numbered_upto, numeral, numeral_of, objects_of, objs_view, page_list, pages_of, plain_stream,
    real_obj,
    resources_at, resources_only, settled, settled_numeral, takes_xobject, well_keyed,
    with_contents, with_entry, xobject_added, xobject_named, DocV, Entry, EntryV, Obj, ObjV,
    ObjectId, DEREF_LIMIT,
};
use crate::scan::chars_of;

verus! {

/// The resource name under which a page knows the overlay.
pub const WATERMARK_XOBJECT_NAME: &'static str = "TurboWmStamp";

/// The font's name inside the overlay.
pub const FONT_NAME: &'static str = "F1";

/// The name of the overlay's transparency.
pub const FADE_GS_NAME: &'static str = "GsFade";

/// The size of an A4 page in points: what a page without a media box has.
pub const A4_WIDTH: i64 = 595_275_600;

pub const A4_HEIGHT: i64 = 841_889_800;

/// A text watermark. Sizes are in px, the angle in degrees counter-clockwise, the
/// opacity runs from zero to one; all in millionths.
#[derive(Debug)]
pub struct StampWatermark {
    pub text: String,
    pub font_size: i64,
    pub color: Rgba,
    pub opacity: i64,
    pub angle_deg: i64,
}

/// Why a document was not stamped.
#[derive(Debug)]
pub enum StampError {
    /// It does not parse.
    Malformed(String),
    /// It has no pages.
    NoPages,
    /// The password does not open it.
    Decrypt(String),
    /// It could not be sealed again.
    Encrypt(String),
}

impl StampError {
    /// What the error says.
    pub open spec fn says(self) -> Seq<char> {
        match self {
            StampError::Malformed(e) => "malformed PDF input: "@ + e@,
            StampError::NoPages => "no pages to stamp: input contains no pages"@,
            StampError::Decrypt(e) => "failed to decrypt input PDF: "@ + e@,
            StampError::Encrypt(e) => "failed to encrypt output PDF: "@ + e@,
        }
    }

    pub fn message(&self) -> (r: String)
        ensures
            r@ == self.says(),
    {
        proof {
            reveal_strlit("");
        }
        match self {
            StampError::Malformed(e) => joined("malformed PDF input: ", e.as_str()),
            StampError::NoPages => joined("no pages to stamp: input contains no pages", ""),
            StampError::Decrypt(e) => joined("failed to decrypt input PDF: ", e.as_str()),
            StampError::Encrypt(e) => joined("failed to encrypt output PDF: ", e.as_str()),
        }
    }
}

fn joined(a: &str, b: &str) -> (r: String)
    ensures
        r@ == a@ + b@,
        b@.len() == 0 ==> r@ == a@,
{
    let mut s: String = a.to_string();
    s.append(b);
    proof {
        if b@.len() == 0 {
            assert(a@ + b@ =~= a@);
        }
    }
    s
}

// --------------------------------------------------------------------------
// the length field of an encryption dictionary
// --------------------------------------------------------------------------

/// `/Length 256`.
pub open spec fn long_length() -> Seq<u8> {
    seq![0x2fu8, 0x4c, 0x65, 0x6e, 0x67, 0x74, 0x68, 0x20, 0x32, 0x35, 0x36]
}

/// Whether `needle` stands at `i`.
pub open spec fn stands_at(s: Seq<u8>, needle: Seq<u8>, i: int) -> bool {
    0 <= i && i + needle.len() <= s.len() && s.subrange(i, i + needle.len()) == needle
}

/// The first place of `needle` from `i` on.
pub open spec fn place_of(s: Seq<u8>, needle: Seq<u8>, i: int) -> Option<int>
    decreases s.len() - i,
{
    if i < 0 || i >= s.len() || i + needle.len() > s.len() {
        None
    } else if stands_at(s, needle, i) {
        Some(i)
    } else {
        place_of(s, needle, i + 1)
    }
}

/// The bytes with the first `/Length 256` made `/Length 128`.
pub open spec fn normalized(s: Seq<u8>) -> Seq<u8> {
    match place_of(s, long_length(), 0) {
        None => s,
        Some(i) => s.update(i + 8, 0x31).update(i + 9, 0x32).update(i + 10, 0x38),
    }
}

/// Make the first `/Length 256` a `/Length 128`, all other bytes and their places
/// kept: a reader that checks this field before it knows whether it counts then
/// accepts it, and files that name it so do not use it.
pub fn normalize_encrypt_length(pdf: &[u8]) -> (r: Vec<u8>)
    ensures
        r@ == normalized(pdf@),
        r@.len() == pdf@.len(),
{
    let needle: [u8; 11] = [0x2f, 0x4c, 0x65, 0x6e, 0x67, 0x74, 0x68, 0x20, 0x32, 0x35, 0x36];
    proof {
        assert(needle@ =~= long_length());
    }
    let n: usize = pdf.len();
    let mut out: Vec<u8> = Vec::new();
    let mut k: usize = 0;
    while k < n
        invariant
            n == pdf@.len(),
            k <= n,
            out@ == pdf@.take(k as int),
        decreases n - k,
    {
        out.push(pdf[k]);
        proof {
            assert(out@ =~= pdf@.take(k as int + 1));
        }
        k += 1;
    }
    proof {
        assert(pdf@.take(k as int) =~= pdf@);
    }
    if n < 11 {
        return out;
    }
    let mut i: usize = 0;
    while i <= n - 11
        invariant
            n == pdf@.len(),
            n >= 11,
            i <= n - 10,
            out@ == pdf@,
            needle@ == long_length(),
            place_of(pdf@, long_length(), 0) == place_of(pdf@, long_length(), i as int),
        decreases n - i,
    {
        let mut j: usize = 0;
        while j < 11 && pdf[i + j] == needle[j as usize]
            invariant
                n == pdf@.len(),
                i + 11 <= n,
                j <= 11,
                needle@ == long_length(),
                forall|x: int| 0 <= x < j ==> pdf@[i + x] == long_length()[x],
            ensures
                j < 11 ==> pdf@[i + j] != long_length()[j as int],
            decreases 11 - j,
        {
            j += 1;
        }
        if j == 11 {
            proof {
                assert(pdf@.subrange(i as int, i + 11) =~= long_length());
            }
            out.set(i + 8, 0x31);
            out.set(i + 9, 0x32);
            out.set(i + 10, 0x38);
            return out;
        }
        proof {
            if stands_at(pdf@, long_length(), i as int) {
                assert(pdf@.subrange(i as int, i + 11)[j as int] == pdf@[i + j]);
            }
        }
        i += 1;
    }
    out
}

/// Normalizing keeps every byte but the three digits of one length field.
pub proof fn law_normalizing_keeps_offsets(s: Seq<u8>)
    ensures
        normalized(s).len() == s.len(),
        place_of(s, long_length(), 0) is None ==> normalized(s) == s,
        place_of(s, long_length(), 0) matches Some(i) ==> forall|j: int|
            0 <= j < s.len() && !(i + 8 <= j < i + 11) ==> normalized(s)[j] == s[j],
{
    lemma_place(s, long_length(), 0);
}

proof fn lemma_place(s: Seq<u8>, needle: Seq<u8>, i: int)
    ensures
        place_of(s, needle, i) matches Some(p) ==> i <= p && p + needle.len() <= s.len(),
    decreases s.len() - i,
{
    if 0 <= i < s.len() && i + needle.len() <= s.len() && !stands_at(s, needle, i) {
        lemma_place(s, needle, i + 1);
    }
}

// --------------------------------------------------------------------------
// page sizes
// --------------------------------------------------------------------------

/// A number as millionths.
pub open spec fn number_of_obj(o: ObjV) -> Option<int> {
    match o {
        ObjV::Integer(i) => Some(scaled(i, ONE as int, 1)),
        ObjV::Real(t) => value_of(t),
        _ => None,
    }
}

fn number_in(o: &Obj) -> (r: Option<i64>)
    ensures
        match r {
            Some(v) => number_of_obj(o@) == Some(v as int),
            None => number_of_obj(o@) is None,
        },
{
    match o {
        Obj::Integer(i) => Some(scale(*i, ONE, 1)),
        Obj::Real(t) => parse_value(t.as_str()),
        _ => None,
    }
}

pub open spec fn magnitude(v: int) -> int {
    if v < 0 {
        -v
    } else {
        v
    }
}

/// The sides of a rectangle given by two corners.
pub open spec fn rect_sides(o: ObjV) -> Option<(int, int)> {
    match o {
        ObjV::Array(v) => if v.len() < 4 {
            None
        } else {
            match (
                number_of_obj(v[0]),
                number_of_obj(v[1]),
                number_of_obj(v[2]),
                number_of_obj(v[3]),
            ) {
                (Some(a), Some(b), Some(c), Some(d)) => Some(
                    (magnitude(diff(c, a)), magnitude(diff(d, b))),
                ),
                _ => None,
            }
        },
        _ => None,
    }
}

pub open spec fn sides_view(o: Option<(i64, i64)>) -> Option<(int, int)> {
    match o {
        Some((w, h)) => Some((w as int, h as int)),
        None => None,
    }
}

fn span(a: i64, b: i64) -> (r: i64)
    ensures
        r == magnitude(diff(b as int, a as int)),
{
    let d: i64 = minus(b, a);
    if d < 0 {
        -d
    } else {
        d
    }
}

/// The width and height of a rectangle object.
pub fn rect_size(o: &Obj) -> (r: Option<(i64, i64)>)
    ensures
        sides_view(r) == rect_sides(o@),
{
    proof {
        lemma_parts(*o);
    }
    match o {
        Obj::Array(v) => {
            let ghost ov = objs_view(v@);
            if v.len() < 4 {
                return None;
            }
            proof {
                assert(ov[0] == v@[0]@ && ov[1] == v@[1]@ && ov[2] == v@[2]@ && ov[3] == v@[3]@);
            }
            match (number_in(&v[0]), number_in(&v[1]), number_in(&v[2]), number_in(&v[3])) {
                (Some(a), Some(b), Some(c), Some(d)) => Some((span(a, c), span(b, d))),
                _ => None,
            }
        },
        _ => None,
    }
}

/// The key `MediaBox`.
pub open spec fn media_box_key() -> Seq<u8> {
    ascii("MediaBox"@)
}

/// The media box that a dictionary itself has.
pub open spec fn own_box(e: Seq<EntryV>) -> Option<(int, int)> {
    match entry_at(e, media_box_key()) {
        Some(o) => rect_sides(o),
        None => None,
    }
}

/// The media box of a page: its own, else its parent's.
pub open spec fn box_in(m: Map<ObjectId, ObjV>, e: Seq<EntryV>) -> Option<(int, int)> {
    match own_box(e) {
        Some(s) => Some(s),
        None => match entry_at(e, ascii("Parent"@)) {
            Some(ObjV::Reference(id)) => match dictionary_at(m, id) {
                Some(p) => own_box(p),
                None => None,
            },
            _ => None,
        },
    }
}

/// The size of a page in points: its media box, or A4 where it has none.
pub open spec fn page_size(m: Map<ObjectId, ObjV>, id: ObjectId) -> (int, int) {
    let s = match dictionary_at(m, id) {
        Some(e) => box_in(m, e),
        None => None,
    };
    match s {
        Some(s) => s,
        None => (A4_WIDTH as int, A4_HEIGHT as int),
    }
}

fn media_box_in(e: &Vec<Entry>) -> (r: Option<(i64, i64)>)
    ensures
        sides_view(r) == own_box(entries_view(e@)),
{
    let key = ascii_bytes("MediaBox");
    match get_entry(e, key.as_slice()) {
        Some(o) => rect_size(o),
        None => None,
    }
}

/// The media box of a page's dictionary, or of its parent.
pub fn media_box_of(doc: &lopdf::Document, e: &Vec<Entry>) -> (r: Option<(i64, i64)>)
    ensures
        sides_view(r) == box_in(objects_of(*doc), entries_view(e@)),
{
    if let Some(s) = media_box_in(e) {
        return Some(s);
    }
    let key = ascii_bytes("Parent");
    match get_entry(e, key.as_slice()) {
        Some(Obj::Reference(id)) => match get_dictionary(doc, *id) {
            Some(p) => media_box_in(&p),
            None => None,
        },
        _ => None,
    }
}

/// The size of a page in points.
pub fn media_box_size(doc: &lopdf::Document, page: ObjectId) -> (r: (i64, i64))
    ensures
        (r.0 as int, r.1 as int) == page_size(objects_of(*doc), page),
{
    let found: Option<(i64, i64)> = match get_dictionary(doc, page) {
        Some(e) => media_box_of(doc, &e),
        None => None,
    };
    match found {
        Some(s) => s,
        None => (A4_WIDTH, A4_HEIGHT),
    }
}

pub open spec fn pairs_view(v: Seq<(i64, i64)>) -> Seq<(int, int)> {
    v.map_values(|p: (i64, i64)| (p.0 as int, p.1 as int))
}

/// The sizes of the pages of a document.
pub fn page_sizes(doc: &lopdf::Document) -> (r: Result<Vec<(i64, i64)>, StampError>)
    ensures
        match r {
            Ok(v) => pages_of(*doc).len() > 0 && pairs_view(v@) == pages_of(*doc).map_values(
                |id: ObjectId| page_size(objects_of(*doc), id),
            ),
            Err(e) => pages_of(*doc).len() == 0 && e is NoPages,
        },
{
    let pages = page_list(doc);
    if pages.len() == 0 {
        return Err(StampError::NoPages);
    }
    let mut out: Vec<(i64, i64)> = Vec::new();
    let mut i: usize = 0;
    while i < pages.len()
        invariant
            i <= pages@.len(),
            out@.len() == i,
            forall|j: int|
                0 <= j < i ==> ((#[trigger] out@[j]).0 as int, out@[j].1 as int) == page_size(
                    objects_of(*doc),
                    pages@[j],
                ),
        decreases pages@.len() - i,
    {
        out.push(media_box_size(doc, pages[i]));
        i += 1;
    }
    proof {
        assert(pairs_view(out@) =~= pages@.map_values(|id: ObjectId| page_size(objects_of(*doc), id)));
    }
    Ok(out)
}

// --------------------------------------------------------------------------
// the overlay
// --------------------------------------------------------------------------

/// The width of `n` characters in Helvetica in points.
pub open spec fn text_span(n: nat, size: int) -> int {
    scaled(scaled(size, n as int, 1), 55, 100)
}

/// The width of a text in Helvetica in points, by the font's average advance of
/// 0.55 em.
pub fn text_advance_pt(text: &str, size_pt: i64) -> (r: i64)
    requires
        text@.len() <= LIMIT,
    ensures
        r == scaled(scaled(size_pt as int, text@.len() as int, 1), 55, 100),
        r == text_span(text@.len(), size_pt as int),
{
    let v = chars_of(text);
    scale(scale(size_pt, v.len() as i64, 1), 55, 100)
}

pub open spec fn named(s: Seq<char>) -> ObjV {
    ObjV::Name(ascii(s))
}

pub open spec fn item(key: Seq<char>, value: ObjV) -> EntryV {
    EntryV { key: ascii(key), value }
}

fn name_obj(s: &str) -> (r: Obj)
    ensures
        r@ == named(s@),
        keepable(r@),
{
    Obj::Name(ascii_bytes(s))
}

fn entry(key: &str, value: Obj) -> (r: Entry)
    requires
        keepable(value@),
    ensures
        entry_view(r) == item(key@, value@),
        keepable(r.value@),
{
    Entry { key: ascii_bytes(key), value }
}

/// Two keys that differ in length or in their first character are different.
proof fn lemma_keys_differ(a: Seq<char>, b: Seq<char>)
    requires
        a.len() != b.len() || (a.len() > 0 && a[0] as u8 != b[0] as u8),
    ensures
        ascii(a) != ascii(b),
{
    if ascii(a) == ascii(b) {
        assert(ascii(a).len() == a.len() && ascii(b).len() == b.len());
        assert(ascii(a)[0] == a[0] as u8);
        assert(ascii(b)[0] == b[0] as u8);
    }
}

fn dictionary(v: Vec<Entry>) -> (r: Obj)
    requires
        distinct_keys(entries_view(v@)),
        forall|i: int| 0 <= i < v@.len() ==> keepable((#[trigger] v@[i]).value@),
    ensures
        r@ == ObjV::Dictionary(entries_view(v@)),
        keepable(r@),
{
    let ghost ev = entries_view(v@);
    proof {
        assert forall|i: int| 0 <= i < ev.len() implies settled((#[trigger] ev[i]).value)
            && well_keyed(ev[i].value) by {
            assert(ev[i] == entry_view(v@[i]));
            assert(keepable(v@[i].value@));
        }
    }
    let r = Obj::Dictionary(v);
    proof {
        lemma_parts(r);
    }
    r
}

/// A number of millionths as an object.
pub open spec fn number_v(v: int) -> ObjV {
    ObjV::Real(settled_numeral(numeral(v)))
}

fn number_obj(v: i64) -> (r: Obj)
    ensures
        r@ == number_v(v as int),
        keepable(r@),
{
    real_obj(&numeral_of(v))
}

fn numbers(a: i64, b: i64, c: i64, d: i64) -> (r: Vec<Obj>)
    ensures
        objs_view(r@) == seq![
            number_v(a as int),
            number_v(b as int),
            number_v(c as int),
            number_v(d as int),
        ],
        forall|i: int| 0 <= i < r@.len() ==> keepable((#[trigger] r@[i])@),
{
    let mut v: Vec<Obj> = Vec::new();
    v.push(number_obj(a));
    v.push(number_obj(b));
    v.push(number_obj(c));
    v.push(number_obj(d));
    proof {
        assert(objs_view(v@) =~= seq![
            number_v(a as int),
            number_v(b as int),
            number_v(c as int),
            number_v(d as int),
        ]);
    }
    v
}

fn array(v: Vec<Obj>) -> (r: Obj)
    requires
        forall|i: int| 0 <= i < v@.len() ==> keepable((#[trigger] v@[i])@),
    ensures
        r@ == ObjV::Array(objs_view(v@)),
        keepable(r@),
{
    let ghost ov = objs_view(v@);
    proof {
        assert forall|i: int| 0 <= i < ov.len() implies settled(#[trigger] ov[i]) && well_keyed(
            ov[i],
        ) by {
            assert(ov[i] == v@[i]@);
            assert(keepable(v@[i]@));
        }
    }
    let r = Obj::Array(v);
    proof {
        lemma_parts(r);
    }
    r
}

/// A rectangle from the origin.
pub open spec fn rect_obj(w: int, h: int) -> ObjV {
    ObjV::Array(seq![number_v(0), number_v(0), number_v(w), number_v(h)])
}

fn rect(w: i64, h: i64) -> (r: Obj)
    ensures
        r@ == rect_obj(w as int, h as int),
        keepable(r@),
{
    array(numbers(0, 0, w, h))
}

/// The matrix that changes nothing.
pub open spec fn identity_obj() -> ObjV {
    ObjV::Array(
        seq![
            number_v(ONE as int),
            number_v(0),
            number_v(0),
            number_v(ONE as int),
            number_v(0),
            number_v(0),
        ],
    )
}

fn identity_matrix() -> (r: Obj)
    ensures
        r@ == identity_obj(),
        keepable(r@),
{
    let mut v = numbers(ONE, 0, 0, ONE);
    let ghost first = objs_view(v@);
    v.push(number_obj(0));
    v.push(number_obj(0));
    proof {
        assert(objs_view(v@) =~= first.push(number_v(0)).push(number_v(0)));
        assert(objs_view(v@) =~= identity_obj()->Array_0);
    }
    array(v)
}

/// The overlay's own resources: Helvetica, and a transparency.
pub open spec fn resources_of(opacity: int) -> ObjV {
    ObjV::Dictionary(
        seq![
            item(
                "Font"@,
                ObjV::Dictionary(
                    seq![
                        item(
                            FONT_NAME@,
                            ObjV::Dictionary(
                                seq![
                                    item("Type"@, named("Font"@)),
                                    item("Subtype"@, named("Type1"@)),
                                    item("BaseFont"@, named("Helvetica"@)),
                                ],
                            ),
                        ),
                    ],
                ),
            ),
            item(
                "ExtGState"@,
                ObjV::Dictionary(
                    seq![
                        item(
                            FADE_GS_NAME@,
                            ObjV::Dictionary(
                                seq![
                                    item("Type"@, named("ExtGState"@)),
                                    item("ca"@, number_v(opacity)),
                                    item("CA"@, number_v(opacity)),
                                ],
                            ),
                        ),
                    ],
                ),
            ),
        ],
    )
}

fn one_entry(e: Entry) -> (r: Obj)
    requires
        keepable(e.value@),
    ensures
        r@ == ObjV::Dictionary(seq![entry_view(e)]),
        keepable(r@),
{
    let mut v: Vec<Entry> = Vec::new();
    v.push(e);
    proof {
        assert(entries_view(v@) =~= seq![entry_view(e)]);
    }
    dictionary(v)
}

fn three_entries(a: Entry, b: Entry, c: Entry) -> (r: Obj)
    requires
        keepable(a.value@),
        keepable(b.value@),
        keepable(c.value@),
        a.key@ != b.key@,
        a.key@ != c.key@,
        b.key@ != c.key@,
    ensures
        r@ == ObjV::Dictionary(seq![entry_view(a), entry_view(b), entry_view(c)]),
        keepable(r@),
{
    let mut v: Vec<Entry> = Vec::new();
    v.push(a);
    v.push(b);
    v.push(c);
    proof {
        assert(entries_view(v@) =~= seq![entry_view(a), entry_view(b), entry_view(c)]);
    }
    dictionary(v)
}

/// The overlay's resources.
pub fn form_resources(opacity: i64) -> (r: Obj)
    ensures
        r@ == resources_of(opacity as int),
        keepable(r@),
{
    proof {
        reveal_strlit("Type");
        reveal_strlit("Subtype");
        reveal_strlit("BaseFont");
        reveal_strlit("ca");
        reveal_strlit("CA");
        reveal_strlit("Font");
        reveal_strlit("ExtGState");
        lemma_keys_differ("Type"@, "Subtype"@);
        lemma_keys_differ("Type"@, "BaseFont"@);
        lemma_keys_differ("Subtype"@, "BaseFont"@);
        lemma_keys_differ("Type"@, "ca"@);
        lemma_keys_differ("Type"@, "CA"@);
        lemma_keys_differ("ca"@, "CA"@);
        lemma_keys_differ("Font"@, "ExtGState"@);
    }
    let font = three_entries(
        entry("Type", name_obj("Font")),
        entry("Subtype", name_obj("Type1")),
        entry("BaseFont", name_obj("Helvetica")),
    );
    let fonts = one_entry(entry(FONT_NAME, font));
    let gs = three_entries(
        entry("Type", name_obj("ExtGState")),
        entry("ca", number_obj(opacity)),
        entry("CA", number_obj(opacity)),
    );
    let states = one_entry(entry(FADE_GS_NAME, gs));
    let mut v: Vec<Entry> = Vec::new();
    v.push(entry("Font", fonts));
    v.push(entry("ExtGState", states));
    proof {
        assert(entries_view(v@) =~= resources_of(opacity as int)->Dictionary_0);
    }
    dictionary(v)
}

/// The overlay of a page: a form as large as the page, with its own resources and
/// the drawn text as its content.
pub open spec fn form_of(opacity: int, w: int, h: int, content: Seq<u8>) -> ObjV {
    ObjV::Stream(
        seq![
            item("Type"@, named("XObject"@)),
            item("Subtype"@, named("Form"@)),
            item("FormType"@, ObjV::Integer(1)),
            item("BBox"@, rect_obj(w, h)),
            item("Matrix"@, identity_obj()),
            item("Resources"@, resources_of(opacity)),
            item("Length"@, ObjV::Integer(content.len() as int)),
        ],
        content,
        true,
    )
}

proof fn lemma_form_keys()
    ensures
        forall|opacity: int, w: int, h: int, content: Seq<u8>|
            distinct_keys(#[trigger] form_of(opacity, w, h, content)->Stream_0),
{
    reveal_strlit("Type");
    reveal_strlit("Subtype");
    reveal_strlit("FormType");
    reveal_strlit("BBox");
    reveal_strlit("Matrix");
    reveal_strlit("Resources");
    reveal_strlit("Length");
    lemma_keys_differ("Type"@, "Subtype"@);
    lemma_keys_differ("Type"@, "FormType"@);
    lemma_keys_differ("Type"@, "BBox"@);
    lemma_keys_differ("Type"@, "Matrix"@);
    lemma_keys_differ("Type"@, "Resources"@);
    lemma_keys_differ("Type"@, "Length"@);
    lemma_keys_differ("Subtype"@, "FormType"@);
    lemma_keys_differ("Subtype"@, "BBox"@);
    lemma_keys_differ("Subtype"@, "Matrix"@);
    lemma_keys_differ("Subtype"@, "Resources"@);
    lemma_keys_differ("Subtype"@, "Length"@);
    lemma_keys_differ("FormType"@, "BBox"@);
    lemma_keys_differ("FormType"@, "Matrix"@);
    lemma_keys_differ("FormType"@, "Resources"@);
    lemma_keys_differ("FormType"@, "Length"@);
    lemma_keys_differ("BBox"@, "Matrix"@);
    lemma_keys_differ("BBox"@, "Resources"@);
    lemma_keys_differ("BBox"@, "Length"@);
    lemma_keys_differ("Matrix"@, "Resources"@);
    lemma_keys_differ("Matrix"@, "Length"@);
    lemma_keys_differ("Resources"@, "Length"@);
}

/// The overlay of a page `w` by `h` points, whose text is drawn by `content`.
pub fn watermark_form(opacity: i64, w: i64, h: i64, content: Vec<u8>) -> (r: Obj)
    requires
        content@.len() <= i64::MAX,
    ensures
        r@ == form_of(opacity as int, w as int, h as int, content@),
        keepable(r@),
{
    let n: i64 = content.len() as i64;
    let mut v: Vec<Entry> = Vec::new();
    v.push(entry("Type", name_obj("XObject")));
    v.push(entry("Subtype", name_obj("Form")));
    v.push(entry("FormType", Obj::Integer(1)));
    v.push(entry("BBox", rect(w, h)));
    v.push(entry("Matrix", identity_matrix()));
    v.push(entry("Resources", form_resources(opacity)));
    v.push(entry("Length", Obj::Integer(n)));
    let ghost ev = entries_view(v@);
    let ghost want = form_of(opacity as int, w as int, h as int, content@);
    proof {
        lemma_form_keys();
        assert(ev =~= want->Stream_0);
        assert forall|i: int| 0 <= i < ev.len() implies settled((#[trigger] ev[i]).value)
            && well_keyed(ev[i].value) by {
            assert(ev[i] == entry_view(v@[i]));
            assert(keepable(v@[i].value@));
        }
    }
    let r = Obj::Stream(v, content, true);
    proof {
        lemma_parts(r);
    }
    r
}

// --------------------------------------------------------------------------
// stamping
// --------------------------------------------------------------------------

/// The line at the end of a page's content that paints the overlay.
pub open spec fn invocation() -> Seq<u8> {
    ascii("\nq /TurboWmStamp Do Q\n"@)
}

/// A document with one page stamped: a form under the next number, named in the
/// page's resources, and a line at the end of the page's content that paints it.
pub open spec fn overlaid(d: DocV, page: ObjectId, opacity: int, content: Seq<u8>) -> DocV {
    let (w, h) = page_size(d.objects, page);
    let form = ((d.max_id + 1) as u32, 0u16);
    let objects = xobject_added(
        d.objects.insert(form, form_of(opacity, w, h, content)),
        page,
        ascii(WATERMARK_XOBJECT_NAME@),
        form,
    );
    with_contents(DocV { objects, max_id: (d.max_id + 1) as u32 }, page, invocation())
}

/// Whether a document has free numbers for `n` stamped pages: two for each.
pub open spec fn has_room(d: DocV, n: nat) -> bool {
    d.max_id + 2 * n <= u32::MAX
}

/// Whether nothing is lost, what is no dictionary is as it was, and only streams are
/// new. So every stream, and with it all content, is as it was.
pub open spec fn dictionaries_only(m: Map<ObjectId, ObjV>, n: Map<ObjectId, ObjV>) -> bool {
    &&& forall|id: ObjectId| #[trigger]
        m.contains_key(id) ==> n.contains_key(id) && (m[id] is Dictionary && n[id] is Dictionary
            || m[id] == n[id])
    &&& forall|id: ObjectId| #[trigger]
        n.contains_key(id) && !m.contains_key(id) ==> n[id] is Stream
}

/// The references to the content of a page, in order.
pub open spec fn page_contents(m: Map<ObjectId, ObjV>, page: ObjectId) -> Seq<ObjV> {
    contents_list(dictionary_at(m, page)->0)
}

/// Whether two numbers lead to the same dictionary.
pub open spec fn same_page(m: Map<ObjectId, ObjV>, a: ObjectId, b: ObjectId) -> bool {
    &&& dictionary_at(m, a) is Some
    &&& dictionary_at(m, b) is Some
    &&& final_id(m, a, DEREF_LIMIT as nat) == final_id(m, b, DEREF_LIMIT as nat)
}

/// Whether `page` has the content it had and then the line under `new`, and every
/// other page the content it had.
pub open spec fn line_added(
    m: Map<ObjectId, ObjV>,
    n: Map<ObjectId, ObjV>,
    page: ObjectId,
    new: ObjectId,
) -> bool {
    &&& forall|p: ObjectId| #[trigger]
        dictionary_at(m, p) is Some ==> dictionary_at(n, p) is Some && page_contents(n, p)
            == if same_page(m, p, page) {
            page_contents(m, p).push(ObjV::Reference(new))
        } else {
            page_contents(m, p)
        }
    &&& dictionary_at(m, page) is Some ==> n.contains_key(new) && n[new] == plain_stream(
        invocation(),
    )
}

/// How many of the first `k` pages lead to the dictionary that `page` leads to.
pub open spec fn times_listed(
    m: Map<ObjectId, ObjV>,
    pages: Seq<ObjectId>,
    page: ObjectId,
    k: nat,
) -> nat
    decreases k,
{
    if k == 0 || k > pages.len() {
        0
    } else {
        times_listed(m, pages, page, (k - 1) as nat) + if same_page(m, page, pages[k - 1]) {
            1nat
        } else {
            0
        }
    }
}

/// Whether a page has all the content it had, and then `count` lines that each paint
/// the overlay.
pub open spec fn lines_added(
    m: Map<ObjectId, ObjV>,
    n: Map<ObjectId, ObjV>,
    page: ObjectId,
    count: nat,
) -> bool {
    let was = page_contents(m, page);
    let now = page_contents(n, page);
    &&& dictionary_at(n, page) is Some
    &&& now.len() == was.len() + count
    &&& now.take(was.len() as int) == was
    &&& forall|i: int|
        was.len() <= i < now.len() ==> #[trigger] now[i] is Reference && n.contains_key(
            now[i]->Reference_0,
        ) && n[now[i]->Reference_0] == plain_stream(invocation())
}

/// A chain of references leads to the same place where every object on it is kept
/// but for what dictionaries say.
proof fn lemma_chain_kept(m: Map<ObjectId, ObjV>, n: Map<ObjectId, ObjV>, id: ObjectId, k: nat)
    requires
        m.contains_key(id),
        followed(m, m[id], k) is Some,
        forall|x: ObjectId| #[trigger]
            m.contains_key(x) ==> n.contains_key(x) && (m[x] is Dictionary && n[x] is Dictionary
                || m[x] == n[x]),
    ensures
        followed(n, n[id], k) is Some,
        final_id(n, id, k) == final_id(m, id, k),
        followed(n, n[id], k) == Some(n[final_id(m, id, k)]),
        followed(m, m[id], k) == Some(m[final_id(m, id, k)]),
        m.contains_key(final_id(m, id, k)),
    decreases k,
{
    if let ObjV::Reference(next) = m[id] {
        lemma_chain_kept(m, n, next, (k - 1) as nat);
    }
}

/// Following a number goes by the objects alone: it leads to the same dictionary
/// where only what dictionaries say has changed.
proof fn lemma_dictionary_kept(m: Map<ObjectId, ObjV>, n: Map<ObjectId, ObjV>, p: ObjectId)
    requires
        dictionary_at(m, p) is Some,
        dictionaries_only(m, n),
    ensures
        dictionary_at(n, p) is Some,
        final_id(n, p, DEREF_LIMIT as nat) == final_id(m, p, DEREF_LIMIT as nat),
        m.contains_key(final_id(m, p, DEREF_LIMIT as nat)),
        m[final_id(m, p, DEREF_LIMIT as nat)] == ObjV::Dictionary(dictionary_at(m, p)->0),
        n[final_id(m, p, DEREF_LIMIT as nat)] == ObjV::Dictionary(dictionary_at(n, p)->0),
{
    lemma_chain_kept(m, n, p, DEREF_LIMIT as nat);
}

/// What leads to a dictionary led to one before.
proof fn lemma_chain_back(m: Map<ObjectId, ObjV>, n: Map<ObjectId, ObjV>, id: ObjectId, k: nat)
    requires
        dictionaries_only(m, n),
        n.contains_key(id),
        followed(n, n[id], k) is Some,
        followed(n, n[id], k)->0 is Dictionary,
    ensures
        m.contains_key(id),
        followed(m, m[id], k) is Some,
        followed(m, m[id], k)->0 is Dictionary,
    decreases k,
{
    assert(m.contains_key(id));
    if let ObjV::Reference(next) = n[id] {
        assert(m[id] == n[id]);
        lemma_chain_back(m, n, next, (k - 1) as nat);
    }
}

proof fn lemma_only_then_only(
    m: Map<ObjectId, ObjV>,
    n: Map<ObjectId, ObjV>,
    r: Map<ObjectId, ObjV>,
)
    requires
        dictionaries_only(m, n),
        dictionaries_only(n, r),
    ensures
        dictionaries_only(m, r),
{
    assert forall|x: ObjectId| #[trigger] m.contains_key(x) implies r.contains_key(x) && (
    m[x] is Dictionary && r[x] is Dictionary || m[x] == r[x]) by {
        assert(n.contains_key(x));
    }
    assert forall|x: ObjectId| #[trigger]
        r.contains_key(x) && !m.contains_key(x) implies r[x] is Stream by {
        if n.contains_key(x) {
            assert(n[x] is Stream);
        }
    }
}

/// What adding a line to a page under a free number keeps.
proof fn lemma_line(d: DocV, page: ObjectId)
    requires
        numbered_upto(d.objects, d.max_id),
        d.max_id < u32::MAX,
    ensures
        ({
            let r = with_contents(d, page, invocation());
            &&& dictionaries_only(d.objects, r.objects)
            &&& line_added(d.objects, r.objects, page, ((d.max_id + 1) as u32, 0u16))
            &&& numbered_upto(r.objects, r.max_id)
            &&& forall|x: ObjectId, key: Seq<u8>|
                d.objects.contains_key(x) && d.objects[x] is Dictionary && key != ascii(
                    "Contents"@,
                ) ==> #[trigger] entry_at(r.objects[x]->Dictionary_0, key) == entry_at(
                    d.objects[x]->Dictionary_0,
                    key,
                )
        }),
{
    let m = d.objects;
    let r = with_contents(d, page, invocation());
    let key = ascii("Contents"@);
    if let Some(e) = dictionary_at(m, page) {
        let new = ((d.max_id + 1) as u32, 0u16);
        assert(!m.contains_key(new));
        let mid = m.insert(new, plain_stream(invocation()));
        assert(dictionaries_only(m, mid));
        lemma_dictionary_kept(m, mid, page);
        let f = final_id(m, page, DEREF_LIMIT as nat);
        assert(mid[f] == m[f]);
        let list = contents_list(e).push(ObjV::Reference(new));
        assert forall|k: Seq<u8>| k != key implies #[trigger] entry_at(
            with_entry(e, key, ObjV::Array(list)),
            k,
        ) == entry_at(e, k) by {
            law_entries_are_set(e, key, ObjV::Array(list), k);
        }
        law_entries_are_set(e, key, ObjV::Array(list), key);
        let n = r.objects;
        assert(n == mid.insert(f, ObjV::Dictionary(with_entry(e, key, ObjV::Array(list)))));
        assert(dictionaries_only(m, n));
        assert forall|p: ObjectId| #[trigger] dictionary_at(m, p) is Some implies dictionary_at(
            n,
            p,
        ) is Some && page_contents(n, p) == if same_page(m, p, page) {
            page_contents(m, p).push(ObjV::Reference(new))
        } else {
            page_contents(m, p)
        } by {
            lemma_dictionary_kept(m, n, p);
        }
        assert forall|x: ObjectId| #[trigger] n.contains_key(x) implies x.0 <= r.max_id by {
            if x != new {
                assert(m.contains_key(x));
            }
        }
    } else {
        assert forall|p: ObjectId| #[trigger] dictionary_at(m, p) is Some implies page_contents(
            r.objects,
            p,
        ) == page_contents(m, p) && !same_page(m, p, page) by {}
    }
}

/// Naming a form in a page's resources leaves every page its content.
proof fn lemma_named(start: DocV, named: Map<ObjectId, ObjV>, form: ObjV)
    requires
        numbered_upto(start.objects, start.max_id),
        start.max_id < u32::MAX,
        form is Stream,
        resources_only(
            start.objects.insert(((start.max_id + 1) as u32, 0u16), form),
            named,
            ascii(WATERMARK_XOBJECT_NAME@),
        ),
    ensures
        dictionaries_only(start.objects, named),
        forall|p: ObjectId| #[trigger]
            dictionary_at(start.objects, p) is Some ==> dictionary_at(named, p) is Some
                && page_contents(named, p) == page_contents(start.objects, p),
{
    let m = start.objects;
    let id = ((start.max_id + 1) as u32, 0u16);
    let before = m.insert(id, form);
    assert(!m.contains_key(id));
    assert forall|x: ObjectId| #[trigger] m.contains_key(x) implies named.contains_key(x) && (
    m[x] is Dictionary && named[x] is Dictionary || m[x] == named[x]) by {
        assert(before.contains_key(x) && before[x] == m[x]);
        assert(named.dom().contains(x));
    }
    assert forall|x: ObjectId| #[trigger]
        named.contains_key(x) && !m.contains_key(x) implies named[x] is Stream by {
        assert(before.dom().contains(x));
        assert(before.contains_key(x));
    }
    lemma_contents_key();
    assert forall|p: ObjectId| #[trigger] dictionary_at(m, p) is Some implies dictionary_at(
        named,
        p,
    ) is Some && page_contents(named, p) == page_contents(m, p) by {
        lemma_dictionary_kept(m, named, p);
        let f = final_id(m, p, DEREF_LIMIT as nat);
        assert(before.contains_key(f) && before[f] == m[f]);
        let key = ascii("Contents"@);
        assert(entry_at(named[f]->Dictionary_0, key) == entry_at(m[f]->Dictionary_0, key));
    }
}

/// What is looked up in dictionaries under other keys than the content of pages
/// stays where only that content changes.
proof fn lemma_name_kept(m: Map<ObjectId, ObjV>, n: Map<ObjectId, ObjV>, page: ObjectId)
    requires
        dictionaries_only(m, n),
        forall|x: ObjectId, key: Seq<u8>|
            m.contains_key(x) && m[x] is Dictionary && key != ascii("Contents"@)
                ==> #[trigger] entry_at(n[x]->Dictionary_0, key) == entry_at(
                m[x]->Dictionary_0,
                key,
            ),
        xobject_named(m, page, ascii(WATERMARK_XOBJECT_NAME@)) is Some,
    ensures
        xobject_named(n, page, ascii(WATERMARK_XOBJECT_NAME@)) == xobject_named(
            m,
            page,
            ascii(WATERMARK_XOBJECT_NAME@),
        ),
{
    lemma_contents_key();
    lemma_dictionary_kept(m, n, page);
    let e = dictionary_at(m, page)->0;
    let res = entry_at(e, ascii("Resources"@));
    assert(entry_at(dictionary_at(n, page)->0, ascii("Resources"@)) == res);
    if let Some(ObjV::Reference(r)) = res {
        lemma_dictionary_kept(m, n, r);
    }
    let d = resources_at(m, page)->0;
    let list = entry_at(d, ascii("XObject"@));
    assert(entry_at(resources_at(n, page)->0, ascii("XObject"@)) == list);
    if let Some(ObjV::Reference(x)) = list {
        lemma_dictionary_kept(m, n, x);
    }
}

proof fn lemma_contents_key()
    ensures
        ascii("Contents"@) != ascii("Resources"@),
        ascii("Contents"@) != ascii("XObject"@),
        ascii("Contents"@) != ascii(WATERMARK_XOBJECT_NAME@),
        ascii(WATERMARK_XOBJECT_NAME@) != ascii("Resources"@),
        ascii(WATERMARK_XOBJECT_NAME@) != ascii("XObject"@),
        !is_tree_key(ascii(WATERMARK_XOBJECT_NAME@)),
{
    reveal_strlit("Contents");
    reveal_strlit("Resources");
    reveal_strlit("XObject");
    reveal_strlit("TurboWmStamp");
    lemma_keys_differ("Contents"@, "Resources"@);
    lemma_keys_differ("Contents"@, "XObject"@);
    lemma_keys_differ("Contents"@, WATERMARK_XOBJECT_NAME@);
    lemma_keys_differ(WATERMARK_XOBJECT_NAME@, "Resources"@);
    lemma_keys_differ(WATERMARK_XOBJECT_NAME@, "XObject"@);
    reveal_strlit("Type");
    reveal_strlit("Pages");
    reveal_strlit("Kids");
    reveal_strlit("Linearized");
    lemma_keys_differ(WATERMARK_XOBJECT_NAME@, "Type"@);
    lemma_keys_differ(WATERMARK_XOBJECT_NAME@, "Pages"@);
    lemma_keys_differ(WATERMARK_XOBJECT_NAME@, "Kids"@);
    lemma_keys_differ(WATERMARK_XOBJECT_NAME@, "Linearized"@);
}

/// Whether stamping a page did what it should where no object has a number above
/// those given out: nothing but dictionaries changed, the page has one more line of
/// content, and, where it has a place for it, its resources name the overlay.
#[verifier::opaque]
pub open spec fn stamped_well(d: DocV, r: DocV, page: ObjectId) -> bool {
    let form = ((d.max_id + 1) as u32, 0u16);
    &&& numbered_upto(r.objects, r.max_id)
    &&& dictionaries_only(d.objects, r.objects)
    &&& line_added(d.objects, r.objects, page, ((d.max_id + 2) as u32, 0u16))
    &&& takes_xobject(d.objects, page) ==> xobject_named(
        r.objects,
        page,
        ascii(WATERMARK_XOBJECT_NAME@),
    ) == Some(ObjV::Reference(form))
}

/// Stamp one page of a document.
pub fn overlay_page(doc: &mut lopdf::Document, page: ObjectId, opacity: i64, content: Vec<u8>)
    requires
        has_room(doc_of(*old(doc)), 1),
        content@.len() <= i64::MAX,
    ensures
        doc_of(*final(doc)) == overlaid(doc_of(*old(doc)), page, opacity as int, content@),
        max_id_of(*final(doc)) <= max_id_of(*old(doc)) + 2,
        numbered_upto(objects_of(*old(doc)), max_id_of(*old(doc))) ==> stamped_well(
            doc_of(*old(doc)),
            doc_of(*final(doc)),
            page,
        ) && pages_of(*old(doc)).is_prefix_of(pages_of(*final(doc))),
{
    let ghost start = doc_of(*doc);
    let (w, h) = media_box_size(doc, page);
    let form = watermark_form(opacity, w, h, content);
    let id = add_object(doc, &form);
    let name = ascii_bytes(WATERMARK_XOBJECT_NAME);
    let ghost before = objects_of(*doc);
    proof {
        lemma_contents_key();
    }
    add_xobject(doc, page, &name, id);
    let ghost named = doc_of(*doc);
    proof {
        reveal_strlit("\nq /TurboWmStamp Do Q\n");
    }
    let line = ascii_bytes("\nq /TurboWmStamp Do Q\n");
    let ghost listed = pages_of(*doc);
    add_page_contents(doc, page, line);
    proof {
        reveal(stamped_well);
        let after = doc_of(*doc);
        if numbered_upto(start.objects, start.max_id) {
            assert forall|x: ObjectId| #[trigger] named.objects.contains_key(x) implies x.0
                <= named.max_id by {
                assert(before.dom().contains(x));
                assert(before.contains_key(x));
            }
            lemma_named(start, named.objects, form@);
            lemma_prefix(pages_of(*old(doc)), listed, pages_of(*doc));
            lemma_line(named, page);
            lemma_only_then_only(start.objects, named.objects, after.objects);
            lemma_same_pages(start.objects, named.objects, page);
            if takes_xobject(start.objects, page) {
                lemma_takes(start.objects, before, page);
                lemma_name_kept(named.objects, after.objects, page);
            }
        }
    }
}

proof fn lemma_prefix(a: Seq<ObjectId>, b: Seq<ObjectId>, c: Seq<ObjectId>)
    requires
        a.is_prefix_of(b),
        b.is_prefix_of(c),
    ensures
        a.is_prefix_of(c),
{
    assert(a =~= c.subrange(0, a.len() as int)) by {
        assert forall|i: int| 0 <= i < a.len() implies a[i] == c[i] by {
            assert(a[i] == b.subrange(0, a.len() as int)[i]);
            assert(b[i] == c.subrange(0, b.len() as int)[i]);
        }
    }
}

/// A page has a place for a name as before where objects are only added.
proof fn lemma_takes(m: Map<ObjectId, ObjV>, n: Map<ObjectId, ObjV>, page: ObjectId)
    requires
        takes_xobject(m, page),
        dictionaries_only(m, n),
        forall|id: ObjectId| #[trigger] m.contains_key(id) ==> n[id] == m[id],
    ensures
        takes_xobject(n, page),
{
    lemma_dictionary_kept(m, n, page);
    let res = entry_at(dictionary_at(m, page)->0, ascii("Resources"@));
    if let Some(ObjV::Reference(r)) = res {
        lemma_dictionary_kept(m, n, r);
    }
    if let Some(d) = resources_at(m, page) {
        if let Some(ObjV::Reference(x)) = entry_at(d, ascii("XObject"@)) {
            lemma_dictionary_kept(m, n, x);
        }
    }
}

/// Which numbers lead to the same dictionary goes by what is no dictionary alone.
proof fn lemma_same_pages(m: Map<ObjectId, ObjV>, n: Map<ObjectId, ObjV>, page: ObjectId)
    requires
        dictionaries_only(m, n),
    ensures
        forall|p: ObjectId| #[trigger] same_page(n, p, page) == same_page(m, p, page),
        dictionary_at(n, page) is Some == dictionary_at(m, page) is Some,
{
    assert forall|p: ObjectId|
        (#[trigger] dictionary_at(n, p) is Some) == dictionary_at(m, p) is Some by {
        if dictionary_at(m, p) is Some {
            lemma_dictionary_kept(m, n, p);
        } else if dictionary_at(n, p) is Some {
            lemma_chain_back(m, n, p, DEREF_LIMIT as nat);
        }
    }
    assert forall|p: ObjectId| #[trigger] same_page(n, p, page) == same_page(m, p, page) by {
        assert(dictionary_at(n, p) is Some == dictionary_at(m, p) is Some);
        assert(dictionary_at(n, page) is Some == dictionary_at(m, page) is Some);
        if dictionary_at(m, p) is Some && dictionary_at(m, page) is Some {
            lemma_dictionary_kept(m, n, p);
            lemma_dictionary_kept(m, n, page);
        }
    }
}

/// The document with the first `k` pages stamped.
pub open spec fn stamped(
    d: DocV,
    pages: Seq<ObjectId>,
    opacity: int,
    contents: Seq<Vec<u8>>,
    k: nat,
) -> DocV
    decreases k,
{
    if k == 0 || k > pages.len() {
        d
    } else {
        overlaid(
            stamped(d, pages, opacity, contents, (k - 1) as nat),
            pages[k - 1],
            opacity,
            contents[k - 1]@,
        )
    }
}

/// Whether every page of a list has the content it had, and then one line for each
/// time it is listed, and nothing but dictionaries changed.
pub open spec fn content_kept(
    m: Map<ObjectId, ObjV>,
    n: Map<ObjectId, ObjV>,
    pages: Seq<ObjectId>,
) -> bool {
    &&& dictionaries_only(m, n)
    &&& forall|p: ObjectId| #[trigger]
        dictionary_at(m, p) is Some ==> lines_added(
            m,
            n,
            p,
            times_listed(m, pages, p, pages.len()),
        )
}

/// One more line for a page adds to those it got.
proof fn lemma_more_lines(
    m: Map<ObjectId, ObjV>,
    n: Map<ObjectId, ObjV>,
    r: Map<ObjectId, ObjV>,
    pages: Seq<ObjectId>,
    k: nat,
    new: ObjectId,
)
    requires
        k < pages.len(),
        dictionaries_only(m, n),
        dictionaries_only(n, r),
        line_added(n, r, pages[k as int], new),
        forall|p: ObjectId| #[trigger]
            dictionary_at(m, p) is Some ==> lines_added(m, n, p, times_listed(m, pages, p, k)),
    ensures
        dictionaries_only(m, r),
        forall|p: ObjectId| #[trigger]
            dictionary_at(m, p) is Some ==> lines_added(
                m,
                r,
                p,
                times_listed(m, pages, p, (k + 1) as nat),
            ),
{
    let page = pages[k as int];
    lemma_only_then_only(m, n, r);
    lemma_same_pages(m, n, page);
    assert forall|p: ObjectId| #[trigger] dictionary_at(m, p) is Some implies lines_added(
        m,
        r,
        p,
        times_listed(m, pages, p, (k + 1) as nat),
    ) by {
        lemma_dictionary_kept(m, n, p);
        assert(same_page(n, p, page) == same_page(m, p, page));
        assert(lines_added(m, n, p, times_listed(m, pages, p, k)));
        let was = page_contents(m, p);
        let mid = page_contents(n, p);
        let now = page_contents(r, p);
        assert(now.take(was.len() as int) =~= mid.take(was.len() as int));
        assert forall|i: int| was.len() <= i < now.len() implies #[trigger] now[i] is Reference
            && r.contains_key(now[i]->Reference_0) && r[now[i]->Reference_0] == plain_stream(
            invocation(),
        ) by {
            if i < mid.len() {
                assert(now[i] == mid[i]);
                assert(n.contains_key(mid[i]->Reference_0));
            }
        }
    }
}

/// Whether the first `k` pages of a list are stamped, everything is kept, and the
/// pages of the document are where they were.
#[verifier::opaque]
spec fn kept_so_far(
    start: DocV,
    now: DocV,
    listed: Seq<ObjectId>,
    then: Seq<ObjectId>,
    pages: Seq<ObjectId>,
    k: nat,
) -> bool {
    &&& numbered_upto(now.objects, now.max_id)
    &&& listed.is_prefix_of(then)
    &&& dictionaries_only(start.objects, now.objects)
    &&& forall|p: ObjectId| #[trigger]
        dictionary_at(start.objects, p) is Some ==> lines_added(
            start.objects,
            now.objects,
            p,
            times_listed(start.objects, pages, p, k),
        )
}

proof fn lemma_none_yet(start: DocV, listed: Seq<ObjectId>, pages: Seq<ObjectId>)
    requires
        numbered_upto(start.objects, start.max_id),
    ensures
        kept_so_far(start, start, listed, listed, pages, 0),
{
    reveal(kept_so_far);
    assert(listed =~= listed.subrange(0, listed.len() as int));
    assert forall|p: ObjectId| #[trigger] dictionary_at(start.objects, p) is Some implies lines_added(
        start.objects,
        start.objects,
        p,
        times_listed(start.objects, pages, p, 0),
    ) by {
        let was = page_contents(start.objects, p);
        assert(was.take(was.len() as int) =~= was);
    }
}

proof fn lemma_one_more(
    start: DocV,
    before: DocV,
    now: DocV,
    listed: Seq<ObjectId>,
    then: Seq<ObjectId>,
    after: Seq<ObjectId>,
    pages: Seq<ObjectId>,
    k: nat,
)
    requires
        k < pages.len(),
        kept_so_far(start, before, listed, then, pages, k),
        stamped_well(before, now, pages[k as int]),
        then.is_prefix_of(after),
    ensures
        kept_so_far(start, now, listed, after, pages, (k + 1) as nat),
{
    reveal(kept_so_far);
    reveal(stamped_well);
    lemma_prefix(listed, then, after);
    lemma_more_lines(
        start.objects,
        before.objects,
        now.objects,
        pages,
        k,
        ((before.max_id + 2) as u32, 0u16),
    );
}

/// Stamp every page of a document that has numbers enough; `contents` draws the
/// text of each. Where no object has a number above those given out, every page
/// keeps its content and gains one line each time it is listed.
pub fn stamp_pages(
    doc: &mut lopdf::Document,
    pages: &Vec<ObjectId>,
    watermark: &StampWatermark,
    contents: Vec<Vec<u8>>,
)
    requires
        contents@.len() == pages@.len(),
        has_room(doc_of(*old(doc)), pages@.len()),
        forall|i: int| 0 <= i < contents@.len() ==> (#[trigger] contents@[i])@.len() <= i64::MAX,
    ensures
        doc_of(*final(doc)) == stamped(
            doc_of(*old(doc)),
            pages@,
            watermark.opacity as int,
            contents@,
            pages@.len(),
        ),
        numbered_upto(objects_of(*old(doc)), max_id_of(*old(doc))) ==> content_kept(
            objects_of(*old(doc)),
            objects_of(*final(doc)),
            pages@,
        ) && pages_of(*old(doc)).is_prefix_of(pages_of(*final(doc))),
{
    let ghost start = doc_of(*doc);
    let ghost all = contents@;
    let ghost free = numbered_upto(start.objects, start.max_id);
    let ghost listed = pages_of(*doc);
    let n: usize = pages.len();
    let mut k: usize = 0;
    proof {
        if free {
            lemma_none_yet(start, listed, pages@);
        }
    }
    for content in it: contents
        invariant
            it.seq() == all,
            all.len() == pages@.len(),
            n == pages@.len(),
            k == it.index(),
            start == doc_of(*old(doc)),
            listed == pages_of(*old(doc)),
            has_room(start, pages@.len()),
            forall|i: int| 0 <= i < all.len() ==> (#[trigger] all[i])@.len() <= i64::MAX,
            doc_of(*doc) == stamped(start, pages@, watermark.opacity as int, all, k as nat),
            max_id_of(*doc) <= start.max_id + 2 * k,
            free == numbered_upto(start.objects, start.max_id),
            free ==> kept_so_far(start, doc_of(*doc), listed, pages_of(*doc), pages@, k as nat),
    {
        proof {
            assert(all[k as int] == content);
            reveal(kept_so_far);
        }
        let ghost before = doc_of(*doc);
        let ghost then = pages_of(*doc);
        overlay_page(doc, pages[k], watermark.opacity, content);
        proof {
            if free {
                lemma_one_more(
                    start,
                    before,
                    doc_of(*doc),
                    listed,
                    then,
                    pages_of(*doc),
                    pages@,
                    k as nat,
                );
            }
        }
        k += 1;
    }
    proof {
        reveal(kept_so_far);
    }
}

/// Stamp every page of a document; `contents` draws the text of each, in order.
/// `Ok(false)`, and nothing done, where there is not one for each page or there are no
/// numbers left for it.
///
/// Where no object has a number above those given out, every page of the document
/// keeps its place and its content, and gains one line each time it is listed.
pub fn stamp_all_pages(
    doc: &mut lopdf::Document,
    watermark: &StampWatermark,
    contents: Vec<Vec<u8>>,
) -> (r: Result<bool, StampError>)
    requires
        forall|i: int| 0 <= i < contents@.len() ==> (#[trigger] contents@[i])@.len() <= i64::MAX,
    ensures
        ({
            let pages = pages_of(*old(doc));
            let fits = contents@.len() == pages.len() && has_room(doc_of(*old(doc)), pages.len());
            match r {
                Ok(true) => {
                    &&& pages.len() > 0
                    &&& fits
                    &&& doc_of(*final(doc)) == stamped(
                        doc_of(*old(doc)),
                        pages,
                        watermark.opacity as int,
                        contents@,
                        pages.len(),
                    )
                    &&& forall|i: int|
                        0 <= i < pages.len() ==> dictionary_at(
                            objects_of(*old(doc)),
                            #[trigger] pages[i],
                        ) is Some
                    &&& numbered_upto(objects_of(*old(doc)), max_id_of(*old(doc))) ==> content_kept(
                        objects_of(*old(doc)),
                        objects_of(*final(doc)),
                        pages,
                    ) && pages.is_prefix_of(pages_of(*final(doc)))
                },
                Ok(false) => pages.len() > 0 && !fits && doc_of(*final(doc)) == doc_of(*old(doc)),
                Err(e) => pages.len() == 0 && e is NoPages && doc_of(*final(doc)) == doc_of(
                    *old(doc),
                ),
            }
        }),
{
    let pages = page_list(doc);
    if pages.len() == 0 {
        return Err(StampError::NoPages);
    }
    let max: u32 = max_id(doc);
    let n: usize = pages.len();
    if contents.len() != n || n as u64 > 0x7fff_ffff || max as u64 + 2 * (n as u64)
        > u32::MAX as u64 {
        return Ok(false);
    }
    stamp_pages(doc, &pages, watermark, contents);
    Ok(true)
}

/// A page that is listed once has the content it had and one line that paints the
/// overlay.
pub proof fn law_listed_pages_gain_one_line(
    m: Map<ObjectId, ObjV>,
    n: Map<ObjectId, ObjV>,
    pages: Seq<ObjectId>,
    i: int,
)
    requires
        0 <= i < pages.len(),
        content_kept(m, n, pages),
        dictionary_at(m, pages[i]) is Some,
        forall|j: int| 0 <= j < pages.len() && j != i ==> !same_page(m, pages[i], pages[j]),
    ensures
        lines_added(m, n, pages[i], 1),
{
    lemma_listed(m, pages, i, pages.len());
}

proof fn lemma_listed(m: Map<ObjectId, ObjV>, pages: Seq<ObjectId>, i: int, k: nat)
    requires
        0 <= i < pages.len(),
        k <= pages.len(),
        dictionary_at(m, pages[i]) is Some,
        forall|j: int| 0 <= j < pages.len() && j != i ==> !same_page(m, pages[i], pages[j]),
    ensures
        times_listed(m, pages, pages[i], k) == if i < k {
            1nat
        } else {
            0
        },
    decreases k,
{
    if k > 0 {
        lemma_listed(m, pages, i, (k - 1) as nat);
        if k - 1 != i {
            assert(!same_page(m, pages[i], pages[k - 1]));
        }
    }
}

} // verus!
