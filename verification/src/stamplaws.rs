//! What always holds of stamping: sizes, numerals, overlays, glyph codes and advances.

use vstd::prelude::*;
use vstd::string::*;

use crate::number::{all_digits, clip, is_digit, nat_of, scaled, value_of, LIMIT};
use crate::pdf::{
    DEREF_LIMIT, DocV, EntryV, ObjV, ObjectId, ascii, contents_list, dictionary_at, digit_char,
    digits, entry_at, final_id, followed, last_digits, numbered_upto, numeral, object_at,
    plain_stream, resources_only, xobject_added,
};
use crate::readlaws::{law_decimals, law_rounding, law_signs, tens};
use crate::stamp::{
    StampError, WATERMARK_XOBJECT_NAME, form_of, invocation, long_length, normalized, number_v,
    overlaid, page_size, place_of, rect_sides, resources_of, stamped, text_span,
};
use crate::stamp_font::{codes_of, graftable, grafted, rewritten, shown_span, total_advance};

verus! {

// --------------------------------------------------------------------------
// the length of keys
// --------------------------------------------------------------------------

proof fn lemma_place_is(s: Seq<u8>, needle: Seq<u8>, i: int, p: int)
    requires
        needle.len() > 0,
        0 <= i <= p,
        p + needle.len() <= s.len(),
        s.subrange(p, p + needle.len()) == needle,
        forall|j: int| i <= j < p ==> #[trigger] s.subrange(j, j + needle.len()) != needle,
    ensures
        place_of(s, needle, i) == Some(p),
    decreases p - i,
{
    if i < p {
        assert(s.subrange(i, i + needle.len()) != needle);
        lemma_place_is(s, needle, i + 1, p);
    }
}

/// The first `/Length 256` becomes `/Length 128`, and what stands before and behind it
/// stays.
pub proof fn law_first_length_is_shortened(a: Seq<u8>, b: Seq<u8>)
    requires
        ({
            let s = a + ascii("/Length 256"@) + b;
            forall|j: int|
                0 <= j < a.len() ==> #[trigger] s.subrange(j, j + 11) != ascii("/Length 256"@)
        }),
    ensures
        normalized(a + ascii("/Length 256"@) + b) == a + ascii("/Length 128"@) + b,
{
    reveal_strlit("/Length 256");
    reveal_strlit("/Length 128");
    assert(ascii("/Length 256"@) =~= long_length());
    let s = a + ascii("/Length 256"@) + b;
    let p = a.len() as int;
    assert(s.subrange(p, p + 11) =~= long_length());
    lemma_place_is(s, long_length(), 0, p);
    let t = a + ascii("/Length 128"@) + b;
    assert(ascii("/Length 128"@).len() == 11);
    assert forall|j: int| 0 <= j < t.len() implies normalized(s)[j] == t[j] by {
        if p <= j < p + 11 {
            assert(t[j] == ascii("/Length 128"@)[j - p]);
            assert(s[j] == long_length()[j - p]);
        }
    }
    assert(normalized(s) =~= t);
}

proof fn lemma_no_place(s: Seq<u8>, needle: Seq<u8>, i: int)
    requires
        0 <= i,
        forall|j: int|
            i <= j && j + needle.len() <= s.len() ==> #[trigger] s.subrange(j, j + needle.len())
                != needle,
    ensures
        place_of(s, needle, i) is None,
    decreases s.len() - i,
{
    if i < s.len() && i + needle.len() <= s.len() {
        assert(s.subrange(i, i + needle.len()) != needle);
        lemma_no_place(s, needle, i + 1);
    }
}

/// Bytes without a `/Length 256` stay as they are.
pub proof fn law_other_bytes_stay(s: Seq<u8>)
    requires
        forall|j: int|
            0 <= j && j + 11 <= s.len() ==> #[trigger] s.subrange(j, j + 11) != ascii(
                "/Length 256"@,
            ),
    ensures
        normalized(s) == s,
{
    reveal_strlit("/Length 256");
    assert(ascii("/Length 256"@) =~= long_length());
    lemma_no_place(s, long_length(), 0);
}

// --------------------------------------------------------------------------
// page sizes
// --------------------------------------------------------------------------

pub open spec fn apart(a: int, b: int) -> int {
    if a <= b {
        b - a
    } else {
        a - b
    }
}

/// The sides of a rectangle are how far its corners lie apart, in whichever order they are
/// given; anything but four numbers is no rectangle.
pub proof fn law_rectangles(a: int, b: int, c: int, d: int, v: Seq<ObjV>)
    requires
        -1_000_000 <= a <= 1_000_000 && -1_000_000 <= b <= 1_000_000,
        -1_000_000 <= c <= 1_000_000 && -1_000_000 <= d <= 1_000_000,
    ensures
        rect_sides(
            ObjV::Array(
                seq![ObjV::Integer(a), ObjV::Integer(b), ObjV::Integer(c), ObjV::Integer(d)],
            ),
        ) == Some((apart(a, c) * 1_000_000, apart(b, d) * 1_000_000)),
        v.len() < 4 ==> rect_sides(ObjV::Array(v)) is None,
        rect_sides(ObjV::Null) is None,
{
    law_rounding(a * 1_000_000, 1);
    law_rounding(b * 1_000_000, 1);
    law_rounding(c * 1_000_000, 1);
    law_rounding(d * 1_000_000, 1);
    let x = seq![ObjV::Integer(a), ObjV::Integer(b), ObjV::Integer(c), ObjV::Integer(d)];
    assert(x[0] == ObjV::Integer(a) && x[1] == ObjV::Integer(b) && x[2] == ObjV::Integer(c) && x[3]
        == ObjV::Integer(d));
}

/// A page is as large as its own media box says, else as that of its parent, else A4.
pub proof fn law_page_sizes(m: Map<ObjectId, ObjV>, id: ObjectId, e: Seq<EntryV>, p: ObjectId)
    requires
        m.contains_key(id),
        m[id] == ObjV::Dictionary(e),
    ensures
        entry_at(e, ascii("MediaBox"@)) matches Some(o) ==> (rect_sides(o) matches Some(s)
            ==> page_size(m, id) == s),
        entry_at(e, ascii("MediaBox"@)) is None && entry_at(e, ascii("Parent"@)) == Some(
            ObjV::Reference(p),
        ) && m.contains_key(p) ==> (m[p] matches ObjV::Dictionary(f) ==> (entry_at(
            f,
            ascii("MediaBox"@),
        ) matches Some(o) ==> (rect_sides(o) matches Some(s) ==> page_size(m, id) == s))),
        entry_at(e, ascii("MediaBox"@)) is None && entry_at(e, ascii("Parent"@)) is None ==> page_size(
            m,
            id,
        ) == (595_275_600int, 841_889_800int),
{
}

/// An object that a reference leads to is the object itself, over any chain of references
/// that is not too long.
pub proof fn law_references_are_followed(m: Map<ObjectId, ObjV>, a: ObjectId, b: ObjectId)
    requires
        m.contains_key(a),
        m.contains_key(b),
        !(m[b] is Reference),
    ensures
        object_at(m, b) == Some(m[b]),
        m[a] == ObjV::Reference(b) ==> object_at(m, a) == Some(m[b]),
        m[a] == ObjV::Reference(b) && m[b] is Dictionary ==> dictionary_at(m, a) == dictionary_at(
            m,
            b,
        ) && final_id(m, a, 128) == b,
        m[b] matches ObjV::Dictionary(e) ==> dictionary_at(m, b) == Some(e) && final_id(m, b, 128)
            == b,
{
    reveal_with_fuel(followed, 3);
    reveal_with_fuel(final_id, 3);
}

// --------------------------------------------------------------------------
// numerals
// --------------------------------------------------------------------------

proof fn lemma_digit_char(d: int)
    requires
        0 <= d < 10,
    ensures
        is_digit(digit_char(d)),
        crate::number::digit(digit_char(d)) == d,
{
}

proof fn lemma_push(s: Seq<char>, d: int)
    requires
        all_digits(s),
        0 <= d < 10,
    ensures
        all_digits(s.push(digit_char(d))),
        nat_of(s.push(digit_char(d))) == nat_of(s) * 10 + d,
{
    lemma_digit_char(d);
    assert(s.push(digit_char(d)).drop_last() =~= s);
    assert forall|i: int| 0 <= i < s.push(digit_char(d)).len() implies is_digit(
        #[trigger] s.push(digit_char(d))[i],
    ) by {
        if i < s.len() {
            assert(is_digit(s[i]));
        }
    }
}

/// The decimal digits of a number write that number.
pub proof fn law_digits_write(n: nat)
    ensures
        all_digits(digits(n)),
        digits(n).len() >= 1,
        nat_of(digits(n)) == n,
    decreases n,
{
    if n < 10 {
        lemma_push(Seq::empty(), n as int);
        assert(Seq::<char>::empty().push(digit_char(n as int)) =~= seq![digit_char(n as int)]);
        assert(nat_of(Seq::<char>::empty()) == 0);
    } else {
        law_digits_write(n / 10);
        lemma_push(digits(n / 10), (n % 10) as int);
    }
}

/// The last digits of a number write what is left of it over that power of ten.
pub proof fn law_last_digits_write(n: nat, k: nat)
    ensures
        all_digits(last_digits(n, k)),
        last_digits(n, k).len() == k,
        tens(k) >= 1,
        nat_of(last_digits(n, k)) == n % tens(k),
    decreases k,
{
    if k == 0 {
        assert(nat_of(Seq::<char>::empty()) == 0);
        assert(n % 1 == 0);
    } else {
        law_last_digits_write(n / 10, (k - 1) as nat);
        lemma_push(last_digits(n / 10, (k - 1) as nat), (n % 10) as int);
        let t = tens((k - 1) as nat) as int;
        let x = n as int;
        assert(((x / 10) % t) * 10 + x % 10 == x % (10 * t)) by (nonlinear_arith)
            requires
                t >= 1,
                x >= 0,
        {
            let q = x / 10;
            let r = x % 10;
            let a = q / t;
            let b = q % t;
            assert(x == 10 * q + r && 0 <= r < 10);
            assert(q == t * a + b && 0 <= b < t) by (nonlinear_arith)
                requires
                    t >= 1,
                    a == q / t,
                    b == q % t,
            ;
            assert(x == (10 * t) * a + (b * 10 + r)) by (nonlinear_arith)
                requires
                    x == 10 * q + r,
                    q == t * a + b,
            ;
            assert(0 <= b * 10 + r < 10 * t);
            assert(x % (10 * t) == b * 10 + r) by (nonlinear_arith)
                requires
                    x == (10 * t) * a + (b * 10 + r),
                    0 <= b * 10 + r < 10 * t,
            ;
        }
    }
}

proof fn lemma_digits_len(n: nat, k: nat)
    requires
        n < tens(k),
        k >= 1,
    ensures
        digits(n).len() <= k,
    decreases k,
{
    if n >= 10 {
        assert(k > 1) by {
            if k == 1 {
                assert(tens(0) == 1);
                assert(tens(1) == 10);
            }
        }
        assert(n / 10 < tens((k - 1) as nat));
        lemma_digits_len(n / 10, (k - 1) as nat);
    }
}

/// A numeral writes its number: reading it gives the number back.
pub proof fn law_numerals_read_back(v: int)
    requires
        -LIMIT < v < LIMIT,
    ensures
        value_of(numeral(v)) == Some(v),
{
    let n = if v < 0 {
        -v
    } else {
        v
    } as nat;
    let w = digits(n / 1_000_000);
    let f = last_digits(n, 6);
    law_digits_write(n / 1_000_000);
    law_last_digits_write(n, 6);
    assert(tens(6) == 1_000_000 && tens(0) == 1) by {
        reveal_with_fuel(tens, 8);
    }
    assert(tens(9) == 1_000_000_000) by {
        reveal_with_fuel(tens, 11);
    }
    lemma_digits_len(n / 1_000_000, 9);
    law_decimals(w, f);
    let whole = w + seq!['.'] + f;
    assert((nat_of(w) * 1_000_000 + nat_of(f)) * 1 == n) by (nonlinear_arith)
        requires
            nat_of(w) == n / 1_000_000,
            nat_of(f) == n % 1_000_000,
    ;
    assert(value_of(whole) == Some(n as int));
    assert(is_digit(w[0]) && whole[0] == w[0]);
    law_signs(whole);
}

// --------------------------------------------------------------------------
// overlays
// --------------------------------------------------------------------------

proof fn lemma_ascii_differ(a: Seq<char>, b: Seq<char>)
    requires
        a.len() != b.len() || (a.len() > 0 && a[0] as u8 != b[0] as u8),
    ensures
        ascii(a) != ascii(b),
{
    if ascii(a) == ascii(b) {
        assert(ascii(a).len() == a.len() && ascii(b).len() == b.len());
        assert(ascii(a)[0] == a[0] as u8);
        assert(ascii(b)[0] == b[0] as u8);
    }
}

/// The overlay of a page holds the drawn text, reaches from the origin to the far corner of
/// the page, and has a font and a transparency of its own.
pub proof fn law_overlays(opacity: int, w: int, h: int, content: Seq<u8>)
    ensures
        form_of(opacity, w, h, content) matches ObjV::Stream(e, c, _) && c == content && e.len() == 7
            && e[3].key == ascii("BBox"@) && e[3].value == ObjV::Array(
            seq![number_v(0), number_v(0), number_v(w), number_v(h)],
        ) && e[1].key == ascii("Subtype"@) && e[1].value == ObjV::Name(ascii("Form"@)) && e[4].key
            == ascii("Matrix"@) && e[4].value == ObjV::Array(
            seq![
                number_v(1_000_000),
                number_v(0),
                number_v(0),
                number_v(1_000_000),
                number_v(0),
                number_v(0),
            ],
        ) && e[6].key == ascii("Length"@) && e[6].value == ObjV::Integer(content.len() as int),
        resources_of(opacity) matches ObjV::Dictionary(e) && e.len() == 2 && e[1].key == ascii(
            "ExtGState"@,
        ) && (e[1].value matches ObjV::Dictionary(g) && g.len() == 1 && g[0].key == ascii(
            "GsFade"@,
        ) && (g[0].value matches ObjV::Dictionary(x) && x.len() == 3 && x[1].key == ascii("ca"@)
            && x[1].value == number_v(opacity) && x[2].key == ascii("CA"@) && x[2].value == number_v(
            opacity,
        ))),
{
}

/// Stamping a page puts its overlay, as large as the page, under the next free number, and
/// keeps every stream that was there.
pub proof fn law_overlay_goes_under_the_next_number(
    d: DocV,
    page: ObjectId,
    opacity: int,
    content: Seq<u8>,
    id: ObjectId,
)
    requires
        numbered_upto(d.objects, d.max_id),
        d.max_id + 2 <= u32::MAX,
        ({
            let form = ((d.max_id + 1) as u32, 0u16);
            let (w, h) = page_size(d.objects, page);
            let m = d.objects.insert(form, form_of(opacity, w, h, content));
            resources_only(
                m,
                xobject_added(m, page, ascii(WATERMARK_XOBJECT_NAME@), form),
                ascii(WATERMARK_XOBJECT_NAME@),
            )
        }),
    ensures
        ({
            let r = overlaid(d, page, opacity, content);
            let form = ((d.max_id + 1) as u32, 0u16);
            let (w, h) = page_size(d.objects, page);
            &&& r.objects.contains_key(form) && r.objects[form] == form_of(opacity, w, h, content)
            &&& d.objects.contains_key(id) && d.objects[id] is Stream ==> r.objects.contains_key(id)
                && r.objects[id] == d.objects[id]
        }),
{
    let form = ((d.max_id + 1) as u32, 0u16);
    let (w, h) = page_size(d.objects, page);
    let m = d.objects.insert(form, form_of(opacity, w, h, content));
    let n = xobject_added(m, page, ascii(WATERMARK_XOBJECT_NAME@), form);
    assert(m.contains_key(form) && n.dom().contains(form));
    let next = ((d.max_id + 2) as u32, 0u16);
    let mid = n.insert(next, crate::pdf::plain_stream(invocation()));
    if mid.contains_key(page) {
        lemma_final_is_dictionary(mid, page, DEREF_LIMIT as nat);
    }
    if d.objects.contains_key(id) {
        assert(id.0 <= d.max_id);
        assert(m.contains_key(id) && n.dom().contains(id));
    }
}

proof fn lemma_final_is_dictionary(m: Map<ObjectId, ObjV>, id: ObjectId, n: nat)
    requires
        m.contains_key(id),
    ensures
        followed(m, m[id], n) matches Some(o) ==> m[final_id(m, id, n)] == o,
    decreases n,
{
    if let ObjV::Reference(next) = m[id] {
        if n > 0 && m.contains_key(next) {
            lemma_final_is_dictionary(m, next, (n - 1) as nat);
        }
    }
}

// --------------------------------------------------------------------------
// fonts
// --------------------------------------------------------------------------

/// Each glyph is written as two bytes, the high one first, in order.
pub proof fn law_glyph_codes(ids: Seq<u16>, i: int)
    requires
        0 <= i < ids.len(),
    ensures
        codes_of(ids).len() == 2 * ids.len(),
        codes_of(ids)[2 * i] * 256 + codes_of(ids)[2 * i + 1] == ids[i],
    decreases ids.len(),
{
    let before = ids.drop_last();
    lemma_codes_len(before);
    if i < ids.len() - 1 {
        law_glyph_codes(before, i);
    } else {
        let x = ids.last();
        assert((x / 256) as u8 * 256 + (x % 256) as u8 == x);
    }
}

proof fn lemma_codes_len(ids: Seq<u16>)
    ensures
        codes_of(ids).len() == 2 * ids.len(),
    decreases ids.len(),
{
    if ids.len() > 0 {
        lemma_codes_len(ids.drop_last());
    }
}

/// The plain sum of advances.
pub open spec fn added_up(v: Seq<i64>, k: nat) -> int
    decreases k,
{
    if k == 0 || k > v.len() {
        0
    } else {
        added_up(v, (k - 1) as nat) + v[k - 1]
    }
}

proof fn lemma_added_up(v: Seq<i64>, w: Seq<i64>, k: nat)
    requires
        k <= v.len(),
        k <= w.len(),
        forall|i: int| 0 <= i < k ==> #[trigger] v[i] == w[i],
    ensures
        added_up(v, k) == added_up(w, k),
    decreases k,
{
    if k > 0 {
        lemma_added_up(v, w, (k - 1) as nat);
    }
}

/// The advance of a run is the sum of those of its glyphs.
pub proof fn law_advances_add_up(v: Seq<i64>)
    requires
        v.len() <= 1_000_000,
        forall|i: int| 0 <= i < v.len() ==> 0 <= #[trigger] v[i] <= 1_000_000,
    ensures
        total_advance(v) == added_up(v, v.len()),
        0 <= total_advance(v) <= v.len() * 1_000_000,
    decreases v.len(),
{
    if v.len() > 0 {
        let u = v.drop_last();
        assert forall|i: int| 0 <= i < u.len() implies 0 <= #[trigger] u[i] <= 1_000_000 by {
            assert(u[i] == v[i]);
        }
        law_advances_add_up(u);
        lemma_added_up(u, v, u.len());
        assert(0 <= v[v.len() - 1] <= 1_000_000);
    }
}

/// A run is as wide in points as its advances over the units of an em, at three quarters of
/// its size in px.
pub proof fn law_shown_width(v: Seq<i64>, units: int, size: int)
    requires
        v.len() <= 1_000,
        forall|i: int| 0 <= i < v.len() ==> 0 <= #[trigger] v[i] <= 1_000_000,
        16 <= units <= 16384,
        0 <= size <= 1_000_000,
        size % 4 == 0,
    ensures
        -4 * units <= 2 * (4 * units * shown_span(v, units, size) - added_up(v, v.len()) * 3 * size)
            <= 4 * units,
{
    law_advances_add_up(v);
    let t = total_advance(v);
    law_rounding(size * 3, 4);
    let p = scaled(size, 3, 4);
    assert(p * 4 == size * 3);
    assert(0 <= t * p <= 1_000_000_000_000_000) by (nonlinear_arith)
        requires
            0 <= t <= 1_000_000_000,
            0 <= p <= 1_000_000,
    ;
    law_rounding(t * p, units);
    let s = shown_span(v, units, size);
    assert(clip(crate::number::round_div(t * p, units)) == crate::number::round_div(t * p, units))
        by {
        let q = crate::number::round_div(t * p, units);
        assert(-LIMIT <= q <= LIMIT) by (nonlinear_arith)
            requires
                -units <= 2 * (q * units - t * p) <= units,
                0 <= t * p <= 1_000_000_000_000_000,
                units >= 16,
                LIMIT == 1_000_000_000_000_000,
        ;
    }
    assert(t * 3 * size == 4 * (t * p)) by (nonlinear_arith)
        requires
            p * 4 == size * 3,
    ;
    assert(4 * units * s == 4 * (s * units)) by (nonlinear_arith);
}

/// A text in Helvetica takes 0.55 of its size for each character.
pub proof fn law_text_width(n: nat, size: int)
    requires
        n <= 1_000_000,
        0 <= size <= 100_000_000,
    ensures
        -100 <= 2 * (100 * text_span(n, size) - 55 * n * size) <= 100,
{
    let x = size * n;
    assert(0 <= x <= 100_000_000_000_000) by (nonlinear_arith)
        requires
            x == size * n,
            0 <= n <= 1_000_000,
            0 <= size <= 100_000_000,
    ;
    law_rounding(x, 1);
    law_rounding(x * 55, 100);
    assert(55 * n * size == x * 55) by (nonlinear_arith)
        requires
            x == size * n,
    ;
}

/// A transplanted object is the one it was, with every reference to a transplanted number
/// turned to its new number and every other kept.
pub proof fn law_transplants_keep_their_links(ids: Seq<ObjectId>, max_id: u32, i: int, other: ObjectId)
    requires
        0 <= i < ids.len(),
        ids.no_duplicates(),
        max_id + ids.len() <= u32::MAX,
    ensures
        rewritten(ObjV::Reference(ids[i]), ids, max_id) == ObjV::Reference(
            ((max_id + 1 + i) as u32, 0u16),
        ),
        !ids.contains(other) ==> rewritten(ObjV::Reference(other), ids, max_id) == ObjV::Reference(
            other,
        ),
{
    assert(ids.contains(ids[i]));
    assert(ids.index_of(ids[i]) == i);
}

/// Everything in a transplanted object but its references stays.
pub proof fn law_transplants_keep_the_rest(o: ObjV, ids: Seq<ObjectId>, max_id: u32)
    ensures
        o matches ObjV::Array(v) ==> (rewritten(o, ids, max_id) matches ObjV::Array(w) && w.len()
            == v.len() && forall|i: int|
            0 <= i < v.len() ==> #[trigger] w[i] == rewritten(v[i], ids, max_id)),
        o matches ObjV::Dictionary(v) ==> (rewritten(o, ids, max_id) matches ObjV::Dictionary(w)
            && w.len() == v.len() && forall|i: int|
            0 <= i < v.len() ==> (#[trigger] w[i]).key == v[i].key && w[i].value == rewritten(
                v[i].value,
                ids,
                max_id,
            )),
        o matches ObjV::Stream(v, c, z) ==> (rewritten(o, ids, max_id) matches ObjV::Stream(w, c2, z2)
            && c2 == c && z2 == z && w.len() == v.len() && forall|i: int|
            0 <= i < v.len() ==> (#[trigger] w[i]).key == v[i].key && w[i].value == rewritten(
                v[i].value,
                ids,
                max_id,
            )),
        !(o is Array) && !(o is Dictionary) && !(o is Stream) && !(o is Reference) ==> rewritten(
            o,
            ids,
            max_id,
        ) == o,
{
}

proof fn lemma_grafted_at(
    m: Map<ObjectId, ObjV>,
    mini: Map<ObjectId, ObjV>,
    ids: Seq<ObjectId>,
    max_id: u32,
    k: nat,
    i: int,
)
    requires
        0 <= i < k <= ids.len(),
        max_id + ids.len() <= u32::MAX,
    ensures
        grafted(m, mini, ids, max_id, k).contains_key(((max_id + 1 + i) as u32, 0u16)),
        grafted(m, mini, ids, max_id, k)[((max_id + 1 + i) as u32, 0u16)] == rewritten(
            object_at(mini, ids[i])->0,
            ids,
            max_id,
        ),
    decreases k,
{
    if i < k - 1 {
        lemma_grafted_at(m, mini, ids, max_id, (k - 1) as nat, i);
    }
}

/// The transplanted objects stand under the numbers from the next free one on, in the order
/// in which they were met.
pub proof fn law_transplants_stand_in_order(
    m: Map<ObjectId, ObjV>,
    mini: Map<ObjectId, ObjV>,
    ids: Seq<ObjectId>,
    max_id: u32,
    i: int,
)
    requires
        0 <= i < ids.len(),
        graftable(mini, ids, max_id),
    ensures
        grafted(m, mini, ids, max_id, ids.len()).contains_key(((max_id + 1 + i) as u32, 0u16)),
        Some(grafted(m, mini, ids, max_id, ids.len())[((max_id + 1 + i) as u32, 0u16)]) == Some(
            rewritten(object_at(mini, ids[i])->0, ids, max_id),
        ),
{
    lemma_grafted_at(m, mini, ids, max_id, ids.len(), i);
}

/// Pages are stamped one after the other, each with its own content, on what the stamping of
/// those before has left.
pub proof fn law_pages_are_stamped_in_turn(
    d: DocV,
    pages: Seq<ObjectId>,
    opacity: int,
    contents: Seq<Vec<u8>>,
)
    requires
        contents.len() == pages.len(),
    ensures
        stamped(d, pages, opacity, contents, 0) == d,
        pages.len() > 0 ==> stamped(d, pages, opacity, contents, 1) == overlaid(
            d,
            pages[0],
            opacity,
            contents[0]@,
        ),
        pages.len() > 1 ==> stamped(d, pages, opacity, contents, 2) == overlaid(
            overlaid(d, pages[0], opacity, contents[0]@),
            pages[1],
            opacity,
            contents[1]@,
        ),
{
    reveal_with_fuel(stamped, 4);
}

/// A page's content list keeps what it had and gains the new reference at its end, whether
/// it had one stream, several or none.
pub proof fn law_contents_are_listed(e: Seq<EntryV>, id: ObjectId, v: Seq<ObjV>)
    ensures
        entry_at(e, ascii("Contents"@)) == Some(ObjV::Reference(id)) ==> contents_list(e) == seq![
            ObjV::Reference(id),
        ],
        entry_at(e, ascii("Contents"@)) == Some(ObjV::Array(v)) ==> contents_list(e) == v,
        entry_at(e, ascii("Contents"@)) is None ==> contents_list(e).len() == 0,
{
}

/// The line that paints an overlay saves the state, paints it by its name and restores the
/// state, on a line of its own.
pub proof fn law_overlay_line()
    ensures
        invocation() == ascii("\nq /"@) + ascii("TurboWmStamp"@) + ascii(" Do Q\n"@),
        WATERMARK_XOBJECT_NAME@ == "TurboWmStamp"@,
{
    reveal_strlit("\nq /TurboWmStamp Do Q\n");
    reveal_strlit("\nq /");
    reveal_strlit("TurboWmStamp");
    reveal_strlit(" Do Q\n");
    assert(invocation() =~= ascii("\nq /"@) + ascii("TurboWmStamp"@) + ascii(" Do Q\n"@));
}

/// A stream of content says how long it is.
pub proof fn law_content_streams(content: Seq<u8>)
    ensures
        plain_stream(content) matches ObjV::Stream(e, c, _) && c == content && e.len() == 1 && e[0].key
            == ascii("Length"@) && e[0].value == ObjV::Integer(content.len() as int),
{
}

/// What each failure says: what could not be done, and why where that is known.
pub proof fn law_stamp_failures(e: StampError)
    ensures
        e matches StampError::Malformed(s) ==> e.says() == "malformed PDF input: "@ + s@,
        e is NoPages ==> e.says() == "no pages to stamp: input contains no pages"@,
        e matches StampError::Decrypt(s) ==> e.says() == "failed to decrypt input PDF: "@ + s@,
        e matches StampError::Encrypt(s) ==> e.says() == "failed to encrypt output PDF: "@ + s@,
{
}

/// The corners of a rectangle may be whole or decimal numbers.
pub proof fn law_decimal_rectangles(a: Seq<char>, b: Seq<char>, x: int, y: int)
    requires
        value_of(a) == Some(x),
        value_of(b) == Some(y),
        0 <= x <= 1_000_000_000_000,
        0 <= y <= 1_000_000_000_000,
    ensures
        rect_sides(
            ObjV::Array(seq![ObjV::Integer(0), ObjV::Integer(0), ObjV::Real(a), ObjV::Real(b)]),
        ) == Some((x, y)),
{
    law_rounding(0, 1);
    let v = seq![ObjV::Integer(0), ObjV::Integer(0), ObjV::Real(a), ObjV::Real(b)];
    assert(v[0] == ObjV::Integer(0) && v[1] == ObjV::Integer(0) && v[2] == ObjV::Real(a) && v[3]
        == ObjV::Real(b));
    assert(0 * 1_000_000 == 0int);
}

} // verus!
