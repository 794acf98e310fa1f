//! What always holds of image files and of fonts: formats, sizes, samples and choices.

use vstd::prelude::*;
use vstd::string::*;

use crate::image::{
    ColorSpace, Format, JpegHeader, PayloadV, PngFrameV, PngHeader, alpha_plane, bytes_at,
    color_samples, decoded, extended_tag, format_of, gif_intrinsic, image_of_frame, intrinsic_of,
    jpeg_header_intrinsic, jpeg_header_of, jpeg_image, le, lossless_tag, lossy_tag, png_frame_of,
    png_header_intrinsic, png_header_of, webp_intrinsic,
};
use crate::pdf::ascii;
use crate::scan::{lower, trimmed};
use crate::text::font::{font_extension, FaceV};
use crate::text::registry::{
    GenericV, RegistryV, any_of_family, best, distance, expanded, expanded_all, first_covering,
    first_installed, first_match, law_installed_candidate_serves_generic, mono_candidates,
    of_family, renamed, resolved_glyph, sans_candidates, selected, serif_candidates, with_alias,
    with_aliases,
};
use crate::text::system::{font_dirs, FontDirV, Os};
use crate::layout::valuelaws::lemma_trimmed_is;

verus! {

// --------------------------------------------------------------------------
// formats
// --------------------------------------------------------------------------

proof fn lemma_leading(m: Seq<u8>, rest: Seq<u8>)
    ensures
        bytes_at(m + rest, 0, m),
{
    assert((m + rest).subrange(0, m.len() as int) =~= m);
}

proof fn lemma_other_start(s: Seq<u8>, m: Seq<u8>)
    requires
        s.len() > 0,
        m.len() > 0,
        s[0] != m[0],
    ensures
        !bytes_at(s, 0, m),
{
    if bytes_at(s, 0, m) {
        assert(s.subrange(0, m.len() as int)[0] == s[0]);
    }
}

/// The first bytes of a file tell its format.
pub proof fn law_formats(rest: Seq<u8>, size: Seq<u8>)
    requires
        size.len() == 4,
    ensures
        format_of(seq![0x89u8, 0x50, 0x4e, 0x47, 0x0d, 0x0a, 0x1a, 0x0a] + rest) == Some(Format::Png),
        format_of(seq![0xffu8, 0xd8, 0xff] + rest) == Some(Format::Jpeg),
        format_of(ascii("GIF87a"@) + rest) == Some(Format::Gif),
        format_of(ascii("GIF89a"@) + rest) == Some(Format::Gif),
        format_of(ascii("RIFF"@) + size + ascii("WEBP"@) + rest) == Some(Format::WebP),
{
    reveal_strlit("GIF87a");
    reveal_strlit("GIF89a");
    reveal_strlit("RIFF");
    reveal_strlit("WEBP");
    let png = seq![0x89u8, 0x50, 0x4e, 0x47, 0x0d, 0x0a, 0x1a, 0x0a];
    let jpg = seq![0xffu8, 0xd8, 0xff];
    let g7 = seq![0x47u8, 0x49, 0x46, 0x38, 0x37, 0x61];
    let g9 = seq![0x47u8, 0x49, 0x46, 0x38, 0x39, 0x61];
    assert(ascii("GIF87a"@) =~= g7);
    assert(ascii("GIF89a"@) =~= g9);
    let riff = seq![0x52u8, 0x49, 0x46, 0x46];
    let webp = seq![0x57u8, 0x45, 0x42, 0x50];
    assert(ascii("RIFF"@) =~= riff);
    assert(ascii("WEBP"@) =~= webp);
    lemma_leading(png, rest);
    lemma_leading(jpg, rest);
    lemma_other_start(jpg + rest, png);
    lemma_leading(g7, rest);
    lemma_other_start(g7 + rest, png);
    lemma_other_start(g7 + rest, jpg);
    lemma_leading(g9, rest);
    lemma_other_start(g9 + rest, png);
    lemma_other_start(g9 + rest, jpg);
    let w = riff + size + webp + rest;
    assert(w.subrange(0, 4) =~= riff);
    assert(w.subrange(8, 12) =~= webp);
    lemma_other_start(w, png);
    lemma_other_start(w, jpg);
    lemma_other_start(w, g7);
    lemma_other_start(w, g9);
}

/// A file that starts like none of these has no format.
pub proof fn law_unknown_formats(s: Seq<u8>)
    requires
        s.len() == 0 || (s[0] != 0x89 && s[0] != 0xff && s[0] != 0x47 && s[0] != 0x52),
    ensures
        format_of(s) is None,
{
    let png = seq![0x89u8, 0x50, 0x4e, 0x47, 0x0d, 0x0a, 0x1a, 0x0a];
    let jpg = seq![0xffu8, 0xd8, 0xff];
    let g7 = seq![0x47u8, 0x49, 0x46, 0x38, 0x37, 0x61];
    let g9 = seq![0x47u8, 0x49, 0x46, 0x38, 0x39, 0x61];
    let riff = seq![0x52u8, 0x49, 0x46, 0x46];
    if s.len() > 0 {
        lemma_other_start(s, png);
        lemma_other_start(s, jpg);
        lemma_other_start(s, g7);
        lemma_other_start(s, g9);
        lemma_other_start(s, riff);
    }
}

// --------------------------------------------------------------------------
// sizes
// --------------------------------------------------------------------------

proof fn lemma_le(s: Seq<u8>, at: int)
    ensures
        le(s, at, 2) == s[at] + 256 * s[at + 1],
        le(s, at, 3) == s[at] + 256 * s[at + 1] + 65536 * s[at + 2],
        le(s, at, 4) == s[at] + 256 * s[at + 1] + 65536 * s[at + 2] + 16777216 * s[at + 3],
{
    reveal_with_fuel(le, 6);
}

/// A GIF is as large as the two numbers behind its mark, low bytes first; a side of nothing
/// or a file too short is no image.
pub proof fn law_gif_sizes(s: Seq<u8>)
    requires
        s.len() >= 10,
    ensures
        ({
            let (w, h) = (s[6] + 256 * s[7], s[8] + 256 * s[9]);
            &&& w > 0 && h > 0 ==> (gif_intrinsic(s) matches Some(i) && i.width == w && i.height == h
                && !i.has_alpha)
            &&& w == 0 || h == 0 ==> gif_intrinsic(s) is None
        }),
{
    lemma_le(s, 6);
    lemma_le(s, 8);
}

/// A lossy WebP has its sides in fourteen bits each behind the start code, and is opaque.
pub proof fn law_lossy_sizes(s: Seq<u8>)
    requires
        s.len() >= 30,
        s.subrange(12, 16) == ascii("VP8 "@),
        s[23] == 0x9d && s[24] == 0x01 && s[25] == 0x2a,
    ensures
        ({
            let (w, h) = ((s[26] + 256 * s[27]) % 16384, (s[28] + 256 * s[29]) % 16384);
            &&& w > 0 && h > 0 ==> (webp_intrinsic(s) matches Some(i) && i.width == w && i.height == h
                && !i.has_alpha)
            &&& w == 0 || h == 0 ==> webp_intrinsic(s) is None
        }),
{
    reveal_strlit("VP8 ");
    assert(ascii("VP8 "@) =~= lossy_tag());
    assert(bytes_at(s, 12, lossy_tag()));
    assert(s.subrange(23, 26) =~= seq![0x9du8, 0x01, 0x2a]);
    lemma_le(s, 26);
    lemma_le(s, 28);
}

/// A lossless WebP has its sides, each less one, in fourteen bits after another, and may be
/// transparent.
pub proof fn law_lossless_sizes(s: Seq<u8>)
    requires
        s.len() >= 25,
        s.subrange(12, 16) == ascii("VP8L"@),
        s[20] == 0x2f,
    ensures
        webp_intrinsic(s) matches Some(i) && i.has_alpha && i.width == (s[21] + 256 * s[22]) % 16384
            + 1 && i.height == ((s[21] + 256 * s[22] + 65536 * s[23] + 16777216 * s[24]) / 16384)
            % 16384 + 1,
{
    reveal_strlit("VP8L");
    assert(ascii("VP8L"@) =~= lossless_tag());
    assert(bytes_at(s, 12, lossless_tag()));
    if bytes_at(s, 12, lossy_tag()) {
        assert(s.subrange(12, 16)[3] == lossy_tag()[3]);
        assert(s.subrange(12, 16)[3] == lossless_tag()[3]);
    }
    lemma_le(s, 21);
}

/// An extended WebP has the sides of its canvas, each less one, in twenty-four bits each,
/// and may be transparent.
pub proof fn law_extended_sizes(s: Seq<u8>)
    requires
        s.len() >= 30,
        s.subrange(12, 16) == ascii("VP8X"@),
    ensures
        webp_intrinsic(s) matches Some(i) && i.has_alpha && i.width == s[24] + 256 * s[25] + 65536
            * s[26] + 1 && i.height == s[27] + 256 * s[28] + 65536 * s[29] + 1,
{
    reveal_strlit("VP8X");
    assert(ascii("VP8X"@) =~= extended_tag());
    assert(bytes_at(s, 12, extended_tag()));
    if bytes_at(s, 12, lossy_tag()) {
        assert(s.subrange(12, 16)[3] == lossy_tag()[3]);
        assert(s.subrange(12, 16)[3] == extended_tag()[3]);
    }
    if bytes_at(s, 12, lossless_tag()) {
        assert(s.subrange(12, 16)[3] == lossless_tag()[3]);
        assert(s.subrange(12, 16)[3] == extended_tag()[3]);
    }
    lemma_le(s, 24);
    lemma_le(s, 27);
}

/// A PNG is as large as its header says and transparent where it has an alpha channel or a
/// transparent color; a JPEG is as large as its header says and opaque.
pub proof fn law_header_sizes(p: PngHeader, j: JpegHeader)
    ensures
        png_header_intrinsic(Some(p)) matches Some(i) && i.width == p.width && i.height == p.height
            && i.has_alpha == (p.color is GrayscaleAlpha || p.color is Rgba || p.has_trns),
        png_header_intrinsic(None) is None,
        jpeg_header_intrinsic(Some(j)) matches Some(i) && i.width == j.width && i.height == j.height
            && !i.has_alpha,
        jpeg_header_intrinsic(None) is None,
{
}

// --------------------------------------------------------------------------
// samples
// --------------------------------------------------------------------------

proof fn lemma_sample(data: Seq<u8>, stride: nat, comps: nat, p: int, c: int)
    requires
        1 <= comps <= stride,
        0 <= c < comps,
        0 <= p < data.len() / stride,
    ensures
        0 <= p * comps + c < color_samples(data, stride, comps).len(),
        color_samples(data, stride, comps)[p * comps + c] == data[p * stride + c],
        alpha_plane(data, stride)[p] == data[p * stride + stride - 1],
{
    let n = (data.len() / stride) as int;
    let k = comps as int;
    let i = p * k + c;
    assert(0 <= i < n * k) by (nonlinear_arith)
        requires
            i == p * k + c,
            0 <= c < k,
            0 <= p < n,
    ;
    assert(i / k == p && i % k == c) by (nonlinear_arith)
        requires
            i == p * k + c,
            0 <= c < k,
            0 <= p,
    ;
}

/// Each pixel of a frame keeps its color samples in order, and its alpha goes to a plane of
/// its own; frames without alpha have none.
pub proof fn law_pixels_are_split(f: PngFrameV, p: int, c: int)
    requires
        0 <= c < 3,
    ensures
        ({
            let r = image_of_frame(f);
            &&& r.width == f.width && r.height == f.height
            &&& f.color is Grayscale && 0 <= p < f.data.len() ==> (r.payload matches PayloadV::Raw {
                samples,
                color,
            } && color == ColorSpace::Gray && samples[p] == f.data[p]) && r.alpha is None
            &&& f.color is GrayscaleAlpha && 0 <= p < f.data.len() / 2 ==> (r.payload matches PayloadV::Raw {
                samples,
                color,
            } && color == ColorSpace::Gray && samples[p] == f.data[2 * p]) && (r.alpha matches Some(
                a,
            ) && a[p] == f.data[2 * p + 1])
            &&& f.color is Rgb && 0 <= p < f.data.len() / 3 ==> (r.payload matches PayloadV::Raw {
                samples,
                color,
            } && color == ColorSpace::Rgb && samples[3 * p + c] == f.data[3 * p + c])
                && r.alpha is None
            &&& f.color is Rgba && 0 <= p < f.data.len() / 4 ==> (r.payload matches PayloadV::Raw {
                samples,
                color,
            } && color == ColorSpace::Rgb && samples[3 * p + c] == f.data[4 * p + c]) && (
            r.alpha matches Some(a) && a[p] == f.data[4 * p + 3])
        }),
{
    if f.color is Grayscale && 0 <= p < f.data.len() {
        assert(f.data.len() / 1 == f.data.len());
        lemma_sample(f.data, 1, 1, p, 0);
    }
    if f.color is GrayscaleAlpha && 0 <= p < f.data.len() / 2 {
        lemma_sample(f.data, 2, 1, p, 0);
    }
    if f.color is Rgb && 0 <= p < f.data.len() / 3 {
        lemma_sample(f.data, 3, 3, p, c);
    }
    if f.color is Rgba && 0 <= p < f.data.len() / 4 {
        lemma_sample(f.data, 4, 3, p, c);
    }
}

/// A JPEG keeps its bytes and is gray or colored by its header; one in inks is no image.
pub proof fn law_jpegs_pass_through(h: JpegHeader, bytes: Seq<u8>)
    ensures
        h.format is Cmyk32 ==> jpeg_image(Some(h), bytes) is None,
        !(h.format is Cmyk32) ==> (jpeg_image(Some(h), bytes) matches Some(r) && r.width == h.width
            && r.height == h.height && r.alpha is None && (r.payload matches PayloadV::Jpeg {
            bytes: b,
            color,
        } && b == bytes && (color == ColorSpace::Rgb <==> h.format is Rgb24))),
        jpeg_image(None, bytes) is None,
{
}

// --------------------------------------------------------------------------
// fonts
// --------------------------------------------------------------------------

/// A face of the slant asked for and less than a thousand off in weight is closer than any
/// of the other slant; among faces of one slant the one nearer in weight is.
pub proof fn law_distances(f: FaceV, g: FaceV, weight: u16, italic: bool)
    ensures
        f.weight == weight && f.italic == italic <==> distance(f, weight, italic) == 0,
        distance(f, weight, italic) >= 0,
        f.italic == g.italic && weight <= f.weight < g.weight ==> distance(f, weight, italic)
            < distance(g, weight, italic),
        f.italic == g.italic && g.weight < f.weight <= weight ==> distance(f, weight, italic)
            < distance(g, weight, italic),
        f.italic == italic && g.italic != italic && f.weight < weight + 1000 && weight < f.weight
            + 1000 ==> distance(f, weight, italic) < distance(g, weight, italic),
{
}

/// Families are told apart by their letters, whatever their case and the blanks around.
pub proof fn law_families(f: FaceV, name: Seq<char>)
    ensures
        of_family(f, name) <==> lower(f.family) == lower(trimmed(name)),
{
}

proof fn lemma_expanded_all_joined(a: Seq<Seq<char>>, b: Seq<Seq<char>>, g: Seq<GenericV>)
    ensures
        expanded_all(a + b, g) == expanded_all(a, g) + expanded_all(b, g),
    decreases a.len(),
{
    if a.len() == 0 {
        assert(a + b =~= b);
        assert(expanded_all(a, g) + expanded_all(b, g) =~= expanded_all(b, g));
    } else {
        assert((a + b).skip(1) =~= a.skip(1) + b);
        assert((a + b)[0] == a[0]);
        lemma_expanded_all_joined(a.skip(1), b, g);
        assert(expanded_all(a + b, g) =~= expanded_all(a, g) + expanded_all(b, g));
    }
}

/// The families of a list are tried in its order, a generic one itself and then all that it
/// stands for.
pub proof fn law_generics_stand_for_families(
    a: Seq<Seq<char>>,
    b: Seq<Seq<char>>,
    g: Seq<GenericV>,
    name: Seq<char>,
    i: int,
)
    requires
        0 <= i < g.len(),
        forall|j: int| 0 <= j < i ==> lower((#[trigger] g[j]).name) != lower(trimmed(name)),
    ensures
        expanded_all(a + b, g) == expanded_all(a, g) + expanded_all(b, g),
        lower(g[i].name) == lower(trimmed(name)) ==> expanded(name, g) == seq![name] + g[i].reals,
{
    lemma_expanded_all_joined(a, b, g);
    lemma_expanded(name, g, i);
}

proof fn lemma_expanded(name: Seq<char>, g: Seq<GenericV>, i: int)
    requires
        0 <= i < g.len(),
        forall|j: int| 0 <= j < i ==> lower((#[trigger] g[j]).name) != lower(trimmed(name)),
    ensures
        lower(g[i].name) == lower(trimmed(name)) ==> expanded(name, g) == seq![name] + g[i].reals,
    decreases i,
{
    if i > 0 {
        assert(lower(g[0].name) != lower(trimmed(name)));
        assert(g.skip(1)[i - 1] == g[i]);
        assert forall|j: int| 0 <= j < i - 1 implies lower((#[trigger] g.skip(1)[j]).name) != lower(
            trimmed(name),
        ) by {
            assert(g.skip(1)[j] == g[j + 1]);
        }
        lemma_expanded(name, g.skip(1), i - 1);
    }
}

/// A name that is not generic stands for itself alone.
pub proof fn law_plain_families(name: Seq<char>, g: Seq<GenericV>)
    requires
        forall|j: int| 0 <= j < g.len() ==> lower((#[trigger] g[j]).name) != lower(trimmed(name)),
    ensures
        expanded(name, g) == seq![name],
    decreases g.len(),
{
    if g.len() > 0 {
        assert(lower(g[0].name) != lower(trimmed(name)));
        assert forall|j: int| 0 <= j < g.skip(1).len() implies lower(
            (#[trigger] g.skip(1)[j]).name,
        ) != lower(trimmed(name)) by {
            assert(g.skip(1)[j] == g[j + 1]);
        }
        law_plain_families(name, g.skip(1));
    }
}

proof fn lemma_first_match(
    v: Seq<FaceV>,
    fams: Seq<Seq<char>>,
    weight: u16,
    italic: bool,
    c: Option<char>,
    i: int,
)
    requires
        0 <= i < fams.len(),
        best(v, fams[i], weight, italic, c) is Some,
        forall|j: int| 0 <= j < i ==> best(v, #[trigger] fams[j], weight, italic, c) is None,
    ensures
        first_match(v, fams, weight, italic, c) == best(v, fams[i], weight, italic, c),
    decreases fams.len(),
{
    if i > 0 {
        assert(best(v, fams[0], weight, italic, c) is None);
        assert(fams.skip(1)[i - 1] == fams[i]);
        assert forall|j: int| 0 <= j < i - 1 implies best(
            v,
            #[trigger] fams.skip(1)[j],
            weight,
            italic,
            c,
        ) is None by {
            assert(fams.skip(1)[j] == fams[j + 1]);
        }
        lemma_first_match(v, fams.skip(1), weight, italic, c, i - 1);
    }
}

/// The face of a text is the closest of the first family that has one, and a glyph that of
/// the first family that has it.
pub proof fn law_first_family_serves(
    r: RegistryV,
    names: Seq<Seq<char>>,
    weight: u16,
    italic: bool,
    c: char,
    i: int,
)
    requires
        0 <= i < expanded_all(names, r.generics).len(),
    ensures
        ({
            let fams = expanded_all(names, r.generics);
            let v = r.all();
            &&& best(v, fams[i], weight, italic, None) is Some && (forall|j: int|
                0 <= j < i ==> best(v, #[trigger] fams[j], weight, italic, None) is None)
                ==> selected(r, names, weight, italic) == best(v, fams[i], weight, italic, None)
            &&& best(v, fams[i], weight, italic, Some(c)) is Some && (forall|j: int|
                0 <= j < i ==> best(v, #[trigger] fams[j], weight, italic, Some(c)) is None)
                ==> resolved_glyph(r, names, weight, italic, c) == best(
                v,
                fams[i],
                weight,
                italic,
                Some(c),
            )
        }),
{
    let fams = expanded_all(names, r.generics);
    let v = r.all();
    if best(v, fams[i], weight, italic, None) is Some && (forall|j: int|
        0 <= j < i ==> best(v, #[trigger] fams[j], weight, italic, None) is None) {
        lemma_first_match(v, fams, weight, italic, None, i);
    }
    if best(v, fams[i], weight, italic, Some(c)) is Some && (forall|j: int|
        0 <= j < i ==> best(v, #[trigger] fams[j], weight, italic, Some(c)) is None) {
        lemma_first_match(v, fams, weight, italic, Some(c), i);
    }
}

/// Loaded faces are looked up before the bundled ones.
pub proof fn law_loaded_faces_come_first(r: RegistryV, i: int)
    ensures
        r.all().len() == r.faces.len() + r.bundled.len(),
        0 <= i < r.faces.len() ==> r.all()[i] == r.faces[i],
        0 <= i < r.bundled.len() ==> r.all()[r.faces.len() + i] == r.bundled[i],
{
}

/// Where no family has a glyph the first face that covers it is taken.
pub proof fn law_first_covering_face(v: Seq<FaceV>, c: char)
    ensures
        first_covering(v, c) matches Some(i) ==> 0 <= i < v.len() && v[i].covers(c) && forall|j: int|
            0 <= j < i ==> !(#[trigger] v[j]).covers(c),
        first_covering(v, c) is None ==> forall|j: int| 0 <= j < v.len() ==> !(#[trigger] v[j]).covers(
            c,
        ),
    decreases v.len(),
{
    if v.len() > 0 {
        law_first_covering_face(v.drop_last(), c);
        assert forall|j: int| 0 <= j < v.len() - 1 implies #[trigger] v[j] == v.drop_last()[j] by {}
    }
}

proof fn lemma_first_installed(cands: Seq<Seq<char>>, v: Seq<FaceV>, i: int)
    requires
        0 <= i < cands.len(),
        any_of_family(v, cands[i]),
        forall|j: int| 0 <= j < i ==> !any_of_family(v, #[trigger] cands[j]),
    ensures
        first_installed(cands, v) == Some(cands[i]),
    decreases cands.len(),
{
    if i > 0 {
        assert(!any_of_family(v, cands[0]));
        assert(cands.skip(1)[i - 1] == cands[i]);
        assert forall|j: int| 0 <= j < i - 1 implies !any_of_family(
            v,
            #[trigger] cands.skip(1)[j],
        ) by {
            assert(cands.skip(1)[j] == cands[j + 1]);
        }
        lemma_first_installed(cands.skip(1), v, i - 1);
    }
}

/// A generic family goes to the first of its candidates that is installed.
pub proof fn law_generic_candidates(v: Seq<FaceV>)
    ensures
        any_of_family(v, "Helvetica"@) ==> first_installed(sans_candidates(), v) == Some(
            "Helvetica"@,
        ),
        !any_of_family(v, "Helvetica"@) && !any_of_family(v, "Helvetica Neue"@) && any_of_family(
            v,
            "Arial"@,
        ) ==> first_installed(sans_candidates(), v) == Some("Arial"@),
        !any_of_family(v, "Helvetica"@) && !any_of_family(v, "Helvetica Neue"@) && !any_of_family(
            v,
            "Arial"@,
        ) && any_of_family(v, "Liberation Sans"@) ==> first_installed(sans_candidates(), v) == Some(
            "Liberation Sans"@,
        ),
        !any_of_family(v, "Helvetica"@) && !any_of_family(v, "Helvetica Neue"@) && !any_of_family(
            v,
            "Arial"@,
        ) && !any_of_family(v, "Liberation Sans"@) && any_of_family(v, "DejaVu Sans"@)
            ==> first_installed(sans_candidates(), v) == Some("DejaVu Sans"@),
        any_of_family(v, "Times New Roman"@) ==> first_installed(serif_candidates(), v) == Some(
            "Times New Roman"@,
        ),
        !any_of_family(v, "Times New Roman"@) && any_of_family(v, "Times"@) ==> first_installed(
            serif_candidates(),
            v,
        ) == Some("Times"@),
        !any_of_family(v, "Times New Roman"@) && !any_of_family(v, "Times"@) && !any_of_family(
            v,
            "Georgia"@,
        ) && any_of_family(v, "Liberation Serif"@) ==> first_installed(serif_candidates(), v) == Some(
            "Liberation Serif"@,
        ),
        any_of_family(v, "Menlo"@) ==> first_installed(mono_candidates(), v) == Some("Menlo"@),
        !any_of_family(v, "Menlo"@) && any_of_family(v, "Courier New"@) ==> first_installed(
            mono_candidates(),
            v,
        ) == Some("Courier New"@),
        !any_of_family(v, "Menlo"@) && !any_of_family(v, "Courier New"@) && any_of_family(
            v,
            "Courier"@,
        ) ==> first_installed(mono_candidates(), v) == Some("Courier"@),
{
    let s = sans_candidates();
    if any_of_family(v, s[0]) {
        lemma_first_installed(s, v, 0);
    } else if any_of_family(v, s[1]) {
        lemma_first_installed(s, v, 1);
    } else if any_of_family(v, s[2]) {
        lemma_first_installed(s, v, 2);
    } else if any_of_family(v, s[3]) {
        lemma_first_installed(s, v, 3);
    } else if any_of_family(v, s[4]) {
        lemma_first_installed(s, v, 4);
    }
    let t = serif_candidates();
    if any_of_family(v, t[0]) {
        lemma_first_installed(t, v, 0);
    } else if any_of_family(v, t[1]) {
        lemma_first_installed(t, v, 1);
    } else if any_of_family(v, t[2]) {
        lemma_first_installed(t, v, 2);
    } else if any_of_family(v, t[3]) {
        lemma_first_installed(t, v, 3);
    }
    let m = mono_candidates();
    if any_of_family(v, m[0]) {
        lemma_first_installed(m, v, 0);
    } else if any_of_family(v, m[1]) {
        lemma_first_installed(m, v, 1);
    } else if any_of_family(v, m[2]) {
        lemma_first_installed(m, v, 2);
    }
}

/// The faces that serve a generic family are those of its candidate, all of them and in
/// their order, in all but the name.
pub proof fn law_alias_faces(v: Seq<FaceV>, family: Seq<char>, name: Seq<char>, k: nat)
    requires
        k < v.len(),
    ensures
        of_family(v[k as int], family) ==> renamed(v, family, name, k + 1) == renamed(
            v,
            family,
            name,
            k,
        ).push(FaceV { family: name, ..v[k as int] }),
        !of_family(v[k as int], family) ==> renamed(v, family, name, k + 1) == renamed(
            v,
            family,
            name,
            k,
        ),
        renamed(v, family, name, 0).len() == 0,
{
}

/// Font files are told by their ending.
pub proof fn law_font_files(e: Seq<char>)
    ensures
        font_extension(e) <==> e == "ttf"@ || e == "otf"@ || e == "ttc"@,
{
}

/// Fonts are looked for in the directories of the system, and then in those of the user
/// where there is one.
pub proof fn law_font_directories(w: Seq<char>, has_home: bool)
    ensures
        font_dirs(Os::Linux, false, None) == seq![
            FontDirV::At("/usr/share/fonts"@),
            FontDirV::At("/usr/local/share/fonts"@),
        ],
        font_dirs(Os::Linux, true, None) == font_dirs(Os::Linux, false, None) + seq![
            FontDirV::UnderHome(".fonts"@),
            FontDirV::UnderHome(".local/share/fonts"@),
        ],
        font_dirs(Os::MacOs, false, None) == seq![
            FontDirV::At("/System/Library/Fonts"@),
            FontDirV::At("/System/Library/Fonts/Supplemental"@),
            FontDirV::At("/Library/Fonts"@),
        ],
        font_dirs(Os::MacOs, true, None) == font_dirs(Os::MacOs, false, None) + seq![
            FontDirV::UnderHome("Library/Fonts"@),
        ],
        font_dirs(Os::Windows, has_home, Some(w)) == seq![FontDirV::At(w + "\\Fonts"@)],
        font_dirs(Os::Other, has_home, Some(w)).len() == 0,
{
    assert(font_dirs(Os::Linux, false, None) =~= seq![
        FontDirV::At("/usr/share/fonts"@),
        FontDirV::At("/usr/local/share/fonts"@),
    ]);
    assert(font_dirs(Os::MacOs, false, None) =~= seq![
        FontDirV::At("/System/Library/Fonts"@),
        FontDirV::At("/System/Library/Fonts/Supplemental"@),
        FontDirV::At("/Library/Fonts"@),
    ]);
    assert(font_dirs(Os::Windows, has_home, Some(w)) =~= seq![FontDirV::At(w + "\\Fonts"@)]);
}

/// A file is probed and decoded as its format says: PNG and JPEG by their headers, GIF and
/// WebP by their first bytes; only PNG and JPEG are decoded.
pub proof fn law_files_go_by_their_format(s: Seq<u8>)
    ensures
        format_of(s) == Some(Format::Png) ==> intrinsic_of(s) == png_header_intrinsic(
            png_header_of(s),
        ) && (png_frame_of(s) matches Some(f) ==> decoded(s) == Some(image_of_frame(f))) && (
        png_frame_of(s) is None ==> decoded(s) is None),
        format_of(s) == Some(Format::Jpeg) ==> intrinsic_of(s) == jpeg_header_intrinsic(
            jpeg_header_of(s),
        ) && decoded(s) == jpeg_image(jpeg_header_of(s), s),
        format_of(s) == Some(Format::Gif) ==> intrinsic_of(s) == gif_intrinsic(s) && decoded(
            s,
        ) is None,
        format_of(s) == Some(Format::WebP) ==> intrinsic_of(s) == webp_intrinsic(s) && decoded(
            s,
        ) is None,
        format_of(s) is None ==> intrinsic_of(s) is None && decoded(s) is None,
{
}

proof fn lemma_some_installed(cands: Seq<Seq<char>>, v: Seq<FaceV>, i: int)
    requires
        0 <= i < cands.len(),
        any_of_family(v, cands[i]),
    ensures
        first_installed(cands, v) is Some,
    decreases cands.len(),
{
    if !any_of_family(v, cands[0]) {
        assert(cands.skip(1)[i - 1] == cands[i]);
        lemma_some_installed(cands.skip(1), v, i - 1);
    }
}

proof fn lemma_more_faces(v: Seq<FaceV>, w: Seq<FaceV>, name: Seq<char>)
    requires
        v.len() <= w.len(),
        w.take(v.len() as int) == v,
        any_of_family(v, name),
    ensures
        any_of_family(w, name),
{
    let i = choose|i: int| 0 <= i < v.len() && of_family(#[trigger] v[i], name);
    assert(w[i] == w.take(v.len() as int)[i]);
    assert(of_family(w[i], name));
}

proof fn lemma_alias_appends(v: Seq<FaceV>, generic: Seq<char>, cands: Seq<Seq<char>>)
    ensures
        v.len() <= with_alias(v, generic, cands).len(),
        with_alias(v, generic, cands).take(v.len() as int) == v,
{
    assert(with_alias(v, generic, cands).take(v.len() as int) =~= v);
}

/// Each generic family is served where one of its candidates is installed.
pub proof fn law_generics_are_served(v: Seq<FaceV>, i: int)
    requires
        0 <= i < 5,
    ensures
        any_of_family(v, sans_candidates()[i]) ==> any_of_family(with_aliases(v), "sans-serif"@),
        any_of_family(v, serif_candidates()[i]) ==> any_of_family(with_aliases(v), "serif"@),
        any_of_family(v, mono_candidates()[i]) ==> any_of_family(with_aliases(v), "monospace"@),
{
    reveal_strlit("sans-serif");
    reveal_strlit("serif");
    reveal_strlit("monospace");
    lemma_trimmed_is("sans-serif"@);
    lemma_trimmed_is("serif"@);
    lemma_trimmed_is("monospace"@);
    let a = with_alias(v, "sans-serif"@, sans_candidates());
    let b = with_alias(a, "serif"@, serif_candidates());
    let c = with_alias(b, "monospace"@, mono_candidates());
    lemma_alias_appends(v, "sans-serif"@, sans_candidates());
    lemma_alias_appends(a, "serif"@, serif_candidates());
    lemma_alias_appends(b, "monospace"@, mono_candidates());
    if any_of_family(v, sans_candidates()[i]) {
        lemma_some_installed(sans_candidates(), v, i);
        law_installed_candidate_serves_generic(v, "sans-serif"@, sans_candidates());
        lemma_more_faces(a, b, "sans-serif"@);
        lemma_more_faces(b, c, "sans-serif"@);
    }
    if any_of_family(v, serif_candidates()[i]) {
        lemma_more_faces(v, a, serif_candidates()[i]);
        lemma_some_installed(serif_candidates(), a, i);
        law_installed_candidate_serves_generic(a, "serif"@, serif_candidates());
        lemma_more_faces(b, c, "serif"@);
    }
    if any_of_family(v, mono_candidates()[i]) {
        lemma_more_faces(v, a, mono_candidates()[i]);
        lemma_more_faces(a, b, mono_candidates()[i]);
        lemma_some_installed(mono_candidates(), b, i);
        law_installed_candidate_serves_generic(b, "monospace"@, mono_candidates());
    }
}

} // verus!
