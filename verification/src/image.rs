//! Raster images: recognizing an encoded image, reading its intrinsic size, and
//! decoding it into what a page embeds.
//!
//! Nothing is fetched: the bytes behind an image name come from a resolver that
//! the caller supplies. GIF and WebP images are sized but not decoded.

use vstd::prelude::*;

verus! {

/// A caller-supplied image source, from an image's name to its encoded bytes.
pub trait ImageResolver {
    /// The bytes behind each name.
    spec fn lookup(&self, name: Seq<char>) -> Option<Seq<u8>>;

    /// The encoded bytes for `name`, or `None` where it is unknown.
    fn resolve(&self, name: &str) -> (r: Option<&[u8]>)
        ensures
            bytes_of(r) == self.lookup(name@),
    ;
}

/// Where images come from: a name to its bytes.
pub type Images = spec_fn(Seq<char>) -> Option<Seq<u8>>;

/// The images of a resolver.
pub open spec fn images_of<R: ImageResolver>(images: R) -> Images {
    |n: Seq<char>| images.lookup(n)
}

/// The contents of optional bytes.
pub open spec fn bytes_of(o: Option<&[u8]>) -> Option<Seq<u8>> {
    match o {
        Some(b) => Some(b@),
        None => None,
    }
}

/// The resolver that knows no image.
#[derive(Debug, Clone, Copy)]
pub struct NoImages;

impl ImageResolver for NoImages {
    open spec fn lookup(&self, name: Seq<char>) -> Option<Seq<u8>> {
        None
    }

    fn resolve(&self, name: &str) -> (r: Option<&[u8]>) {
        None
    }
}

/// The container format of an encoded image.
#[derive(Debug, Clone, Copy, PartialEq, Eq, Structural)]
pub enum Format {
    Png,
    Jpeg,
    /// Sized, not decoded.
    Gif,
    /// Sized, not decoded.
    WebP,
}

/// The intrinsic pixel size of an encoded image, and whether it is transparent.
#[derive(Debug, Clone, Copy, PartialEq, Eq, Structural)]
pub struct Intrinsic {
    pub width: u32,
    pub height: u32,
    pub has_alpha: bool,
}

// --------------------------------------------------------------------------
// recognizing a format
// --------------------------------------------------------------------------

/// Whether `m` stands in `s` at index `at`.
pub open spec fn bytes_at(s: Seq<u8>, at: int, m: Seq<u8>) -> bool {
    0 <= at && at + m.len() <= s.len() && s.subrange(at, at + m.len()) == m
}

pub open spec fn png_magic() -> Seq<u8> {
    seq![0x89, 0x50, 0x4e, 0x47, 0x0d, 0x0a, 0x1a, 0x0a]
}

/// The text `GIF87a`.
pub open spec fn gif87_magic() -> Seq<u8> {
    seq![0x47, 0x49, 0x46, 0x38, 0x37, 0x61]
}

/// The text `GIF89a`.
pub open spec fn gif89_magic() -> Seq<u8> {
    seq![0x47, 0x49, 0x46, 0x38, 0x39, 0x61]
}

pub open spec fn gif_like(s: Seq<u8>) -> bool {
    bytes_at(s, 0, gif87_magic()) || bytes_at(s, 0, gif89_magic())
}

/// `RIFF`, a length, then `WEBP`.
pub open spec fn webp_like(s: Seq<u8>) -> bool {
    bytes_at(s, 0, seq![0x52, 0x49, 0x46, 0x46]) && bytes_at(s, 8, seq![0x57, 0x45, 0x42, 0x50])
}

/// The format that the leading bytes tell.
pub open spec fn format_of(s: Seq<u8>) -> Option<Format> {
    if bytes_at(s, 0, png_magic()) {
        Some(Format::Png)
    } else if bytes_at(s, 0, seq![0xff, 0xd8, 0xff]) {
        Some(Format::Jpeg)
    } else if gif_like(s) {
        Some(Format::Gif)
    } else if webp_like(s) {
        Some(Format::WebP)
    } else {
        None
    }
}

fn has_bytes(s: &[u8], at: usize, m: &[u8]) -> (r: bool)
    ensures
        r == bytes_at(s@, at as int, m@),
{
    if m.len() > s.len() || at > s.len() - m.len() {
        return false;
    }
    let end: usize = s.len();
    let mut i: usize = 0;
    while i < m.len()
        invariant
            end == s@.len(),
            at + m@.len() <= end,
            i <= m@.len(),
            forall|j: int| 0 <= j < i ==> s@[at + j] == m@[j],
        decreases m@.len() - i,
    {
        if s[at + i] != m[i] {
            proof {
                assert(s@.subrange(at as int, at + m@.len())[i as int] != m@[i as int]);
            }
            return false;
        }
        i += 1;
    }
    proof {
        assert(s@.subrange(at as int, at + m@.len()) =~= m@);
    }
    true
}

pub fn is_gif(bytes: &[u8]) -> (r: bool)
    ensures
        r == gif_like(bytes@),
{
    let a: [u8; 6] = [0x47, 0x49, 0x46, 0x38, 0x37, 0x61];
    let b: [u8; 6] = [0x47, 0x49, 0x46, 0x38, 0x39, 0x61];
    proof {
        assert(a@ =~= gif87_magic());
        assert(b@ =~= gif89_magic());
    }
    has_bytes(bytes, 0, a.as_slice()) || has_bytes(bytes, 0, b.as_slice())
}

pub fn is_webp(bytes: &[u8]) -> (r: bool)
    ensures
        r == webp_like(bytes@),
{
    let a: [u8; 4] = [0x52, 0x49, 0x46, 0x46];
    let b: [u8; 4] = [0x57, 0x45, 0x42, 0x50];
    proof {
        assert(a@ =~= seq![0x52u8, 0x49, 0x46, 0x46]);
        assert(b@ =~= seq![0x57u8, 0x45, 0x42, 0x50]);
    }
    has_bytes(bytes, 0, a.as_slice()) && has_bytes(bytes, 8, b.as_slice())
}

/// Tell the encoded format from the leading bytes.
pub fn sniff(bytes: &[u8]) -> (r: Option<Format>)
    ensures
        r == format_of(bytes@),
{
    let png: [u8; 8] = [0x89, 0x50, 0x4e, 0x47, 0x0d, 0x0a, 0x1a, 0x0a];
    let jpeg: [u8; 3] = [0xff, 0xd8, 0xff];
    proof {
        assert(png@ =~= png_magic());
        assert(jpeg@ =~= seq![0xffu8, 0xd8, 0xff]);
    }
    if has_bytes(bytes, 0, png.as_slice()) {
        return Some(Format::Png);
    }
    if has_bytes(bytes, 0, jpeg.as_slice()) {
        return Some(Format::Jpeg);
    }
    if is_gif(bytes) {
        return Some(Format::Gif);
    }
    if is_webp(bytes) {
        return Some(Format::WebP);
    }
    None
}

// --------------------------------------------------------------------------
// GIF and WebP headers
// --------------------------------------------------------------------------

/// The little-endian number in the `n` bytes from `at` on.
pub open spec fn le(s: Seq<u8>, at: int, n: nat) -> int
    decreases n,
{
    if n == 0 {
        0
    } else {
        s[at] + 256 * le(s, at + 1, (n - 1) as nat)
    }
}

/// A size, unless a side is zero.
pub open spec fn sized(w: int, h: int, has_alpha: bool) -> Option<Intrinsic> {
    if w > 0 && h > 0 {
        Some(Intrinsic { width: w as u32, height: h as u32, has_alpha })
    } else {
        None
    }
}

/// The logical screen size of a GIF.
pub open spec fn gif_intrinsic(s: Seq<u8>) -> Option<Intrinsic> {
    if s.len() < 10 {
        None
    } else {
        sized(le(s, 6, 2), le(s, 8, 2), false)
    }
}

/// The text `VP8 `, which starts a lossy frame.
pub open spec fn lossy_tag() -> Seq<u8> {
    seq![0x56, 0x50, 0x38, 0x20]
}

/// The text `VP8L`, which starts a lossless frame.
pub open spec fn lossless_tag() -> Seq<u8> {
    seq![0x56, 0x50, 0x38, 0x4c]
}

/// The text `VP8X`, which starts an extended header.
pub open spec fn extended_tag() -> Seq<u8> {
    seq![0x56, 0x50, 0x38, 0x58]
}

/// The size in a lossy frame header: two 14-bit numbers after the start code.
pub open spec fn lossy_size(s: Seq<u8>) -> Option<(int, int)> {
    if s.len() >= 30 && bytes_at(s, 23, seq![0x9d, 0x01, 0x2a]) {
        Some((le(s, 26, 2) % 0x4000, le(s, 28, 2) % 0x4000))
    } else {
        None
    }
}

/// The size in a lossless frame header: two 14-bit numbers, each one less than
/// the side.
pub open spec fn lossless_size(s: Seq<u8>) -> Option<(int, int)> {
    if s.len() >= 25 && s[20] == 0x2f {
        let bits = le(s, 21, 4);
        Some((bits % 0x4000 + 1, bits / 0x4000 % 0x4000 + 1))
    } else {
        None
    }
}

/// The canvas size of an extended header: two 24-bit numbers, each one less than
/// the side.
pub open spec fn extended_size(s: Seq<u8>) -> Option<(int, int)> {
    if s.len() >= 30 {
        Some((le(s, 24, 3) + 1, le(s, 27, 3) + 1))
    } else {
        None
    }
}

/// The size of a WebP image, by the first chunk.
pub open spec fn webp_dims(s: Seq<u8>) -> Option<(int, int)> {
    if bytes_at(s, 12, lossy_tag()) {
        lossy_size(s)
    } else if bytes_at(s, 12, lossless_tag()) {
        lossless_size(s)
    } else if bytes_at(s, 12, extended_tag()) {
        extended_size(s)
    } else {
        None
    }
}

/// The intrinsic size of a WebP image; a lossless or extended one may be
/// transparent.
pub open spec fn webp_intrinsic(s: Seq<u8>) -> Option<Intrinsic> {
    match webp_dims(s) {
        Some((w, h)) => sized(w, h, !bytes_at(s, 12, lossy_tag())),
        None => None,
    }
}

fn le16(s: &[u8], at: usize) -> (r: u32)
    requires
        at + 2 <= s@.len(),
    ensures
        r == le(s@, at as int, 2),
        r <= 0xffff,
{
    proof {
        reveal_with_fuel(le, 3);
    }
    s[at] as u32 + 256 * s[at + 1] as u32
}

fn le24(s: &[u8], at: usize) -> (r: u32)
    requires
        at + 3 <= s@.len(),
    ensures
        r == le(s@, at as int, 3),
        r <= 0xff_ffff,
{
    proof {
        reveal_with_fuel(le, 4);
    }
    s[at] as u32 + 256 * (s[at + 1] as u32 + 256 * s[at + 2] as u32)
}

fn le32(s: &[u8], at: usize) -> (r: u32)
    requires
        at + 4 <= s@.len(),
    ensures
        r == le(s@, at as int, 4),
{
    proof {
        reveal_with_fuel(le, 5);
    }
    s[at] as u32 + 256 * (s[at + 1] as u32 + 256 * (s[at + 2] as u32 + 256 * s[at + 3] as u32))
}

fn size_of_sides(w: u32, h: u32, has_alpha: bool) -> (r: Option<Intrinsic>)
    ensures
        r == sized(w as int, h as int, has_alpha),
{
    if w > 0 && h > 0 {
        Some(Intrinsic { width: w, height: h, has_alpha })
    } else {
        None
    }
}

pub fn probe_gif(bytes: &[u8]) -> (r: Option<Intrinsic>)
    ensures
        r == gif_intrinsic(bytes@),
{
    if bytes.len() < 10 {
        return None;
    }
    size_of_sides(le16(bytes, 6), le16(bytes, 8), false)
}

pub fn webp_lossy_size(bytes: &[u8]) -> (r: Option<(u32, u32)>)
    ensures
        match r {
            Some((w, h)) => lossy_size(bytes@) == Some((w as int, h as int)),
            None => lossy_size(bytes@) is None,
        },
{
    let code: [u8; 3] = [0x9d, 0x01, 0x2a];
    proof {
        assert(code@ =~= seq![0x9du8, 0x01, 0x2a]);
    }
    if bytes.len() < 30 || !has_bytes(bytes, 23, code.as_slice()) {
        return None;
    }
    Some((le16(bytes, 26) % 0x4000, le16(bytes, 28) % 0x4000))
}

pub fn webp_lossless_size(bytes: &[u8]) -> (r: Option<(u32, u32)>)
    ensures
        match r {
            Some((w, h)) => lossless_size(bytes@) == Some((w as int, h as int)),
            None => lossless_size(bytes@) is None,
        },
{
    if bytes.len() < 25 || bytes[20] != 0x2f {
        return None;
    }
    let bits: u32 = le32(bytes, 21);
    Some((bits % 0x4000 + 1, bits / 0x4000 % 0x4000 + 1))
}

pub fn webp_extended_size(bytes: &[u8]) -> (r: Option<(u32, u32)>)
    ensures
        match r {
            Some((w, h)) => extended_size(bytes@) == Some((w as int, h as int)),
            None => extended_size(bytes@) is None,
        },
{
    if bytes.len() < 30 {
        return None;
    }
    Some((le24(bytes, 24) + 1, le24(bytes, 27) + 1))
}

pub fn webp_size(bytes: &[u8]) -> (r: Option<(u32, u32)>)
    ensures
        match r {
            Some((w, h)) => webp_dims(bytes@) == Some((w as int, h as int)),
            None => webp_dims(bytes@) is None,
        },
{
    let lossy: [u8; 4] = [0x56, 0x50, 0x38, 0x20];
    let lossless: [u8; 4] = [0x56, 0x50, 0x38, 0x4c];
    let extended: [u8; 4] = [0x56, 0x50, 0x38, 0x58];
    proof {
        assert(lossy@ =~= lossy_tag());
        assert(lossless@ =~= lossless_tag());
        assert(extended@ =~= extended_tag());
    }
    if has_bytes(bytes, 12, lossy.as_slice()) {
        webp_lossy_size(bytes)
    } else if has_bytes(bytes, 12, lossless.as_slice()) {
        webp_lossless_size(bytes)
    } else if has_bytes(bytes, 12, extended.as_slice()) {
        webp_extended_size(bytes)
    } else {
        None
    }
}

pub fn probe_webp(bytes: &[u8]) -> (r: Option<Intrinsic>)
    ensures
        r == webp_intrinsic(bytes@),
{
    let lossy: [u8; 4] = [0x56, 0x50, 0x38, 0x20];
    proof {
        assert(lossy@ =~= lossy_tag());
    }
    match webp_size(bytes) {
        Some((w, h)) => size_of_sides(w, h, !has_bytes(bytes, 12, lossy.as_slice())),
        None => None,
    }
}

// --------------------------------------------------------------------------
// PNG and JPEG, through their decoders
// --------------------------------------------------------------------------

/// The color type of a PNG.
#[derive(Debug, Clone, Copy, PartialEq, Eq, Structural)]
pub enum PngColor {
    Grayscale,
    Rgb,
    Indexed,
    GrayscaleAlpha,
    Rgba,
}

/// What a PNG tells before its pixels.
#[derive(Debug, Clone, Copy, PartialEq, Eq, Structural)]
pub struct PngHeader {
    pub width: u32,
    pub height: u32,
    pub color: PngColor,
    pub has_trns: bool,
}

/// The first frame of a PNG, with 8 bits a sample.
#[derive(Debug)]
pub struct PngFrame {
    pub width: u32,
    pub height: u32,
    pub color: PngColor,
    pub data: Vec<u8>,
}

/// The mathematical reading of a [`PngFrame`].
pub struct PngFrameV {
    pub width: u32,
    pub height: u32,
    pub color: PngColor,
    pub data: Seq<u8>,
}

impl View for PngFrame {
    type V = PngFrameV;

    open spec fn view(&self) -> PngFrameV {
        PngFrameV { width: self.width, height: self.height, color: self.color, data: self.data@ }
    }
}

pub open spec fn frame_view(o: Option<PngFrame>) -> Option<PngFrameV> {
    match o {
        Some(f) => Some(f@),
        None => None,
    }
}

/// The pixel format of a JPEG.
#[derive(Debug, Clone, Copy, PartialEq, Eq, Structural)]
pub enum JpegFormat {
    L8,
    L16,
    Rgb24,
    Cmyk32,
}

/// What a JPEG's frame header tells.
#[derive(Debug, Clone, Copy, PartialEq, Eq, Structural)]
pub struct JpegHeader {
    pub width: u16,
    pub height: u16,
    pub format: JpegFormat,
}

/// The header that the `png` crate reads from encoded bytes.
pub uninterp spec fn png_header_of(bytes: Seq<u8>) -> Option<PngHeader>;

/// The first frame that the `png` crate decodes from encoded bytes.
pub uninterp spec fn png_frame_of(bytes: Seq<u8>) -> Option<PngFrameV>;

/// The frame header that the `jpeg-decoder` crate reads from encoded bytes.
pub uninterp spec fn jpeg_header_of(bytes: Seq<u8>) -> Option<JpegHeader>;

/// The samples of one pixel.
pub open spec fn png_channels(c: PngColor) -> nat {
    match c {
        PngColor::Grayscale | PngColor::Indexed => 1,
        PngColor::GrayscaleAlpha => 2,
        PngColor::Rgb => 3,
        PngColor::Rgba => 4,
    }
}

/// Reads a PNG's header with `png::Decoder::read_info`.
///
/// The result is a function of the bytes; a decoder error is `None`. A header
/// that was read has no zero side: the decoder refuses such dimensions.
#[verifier::external_body]
fn read_png_header(bytes: &[u8]) -> (r: Option<PngHeader>)
    ensures
        r == png_header_of(bytes@),
        r matches Some(h) ==> h.width > 0 && h.height > 0,
{
    let reader = png::Decoder::new(std::io::Cursor::new(bytes)).read_info().ok()?;
    let info = reader.info();
    let color = match info.color_type {
        png::ColorType::Grayscale => PngColor::Grayscale,
        png::ColorType::Rgb => PngColor::Rgb,
        png::ColorType::Indexed => PngColor::Indexed,
        png::ColorType::GrayscaleAlpha => PngColor::GrayscaleAlpha,
        png::ColorType::Rgba => PngColor::Rgba,
    };
    Some(PngHeader { width: info.width, height: info.height, color, has_trns: info.trns.is_some() })
}

/// Decodes a PNG's first frame with `png::Reader::next_frame`, the samples
/// normalized to 8 bits.
///
/// The result is a function of the bytes; a decoder error is `None`. Palettes are
/// expanded, so that the color type is not `Indexed`, and the rows are packed: the
/// data holds one byte for each sample of each pixel. The frame is as large as the
/// header says, where that can be read on its own (it takes more room for lines of
/// 16 bits a sample), and has an alpha channel where the image is transparent.
#[verifier::external_body]
fn read_png_frame(bytes: &[u8]) -> (r: Option<PngFrame>)
    ensures
        frame_view(r) == png_frame_of(bytes@),
        r matches Some(f) ==> f.color != PngColor::Indexed && f.data@.len() == f.width * f.height
            * png_channels(f.color),
        r matches Some(f) ==> (png_header_of(bytes@) matches Some(h) ==> f.width == h.width
            && f.height == h.height && (f.color is GrayscaleAlpha || f.color is Rgba) == png_alpha(
            h.color,
            h.has_trns,
        )),
{
    let mut decoder = png::Decoder::new(std::io::Cursor::new(bytes));
    decoder.set_transformations(png::Transformations::normalize_to_color8());
    let mut reader = decoder.read_info().ok()?;
    let mut data = vec![0u8; reader.output_buffer_size()?];
    let out = reader.next_frame(&mut data).ok()?;
    data.truncate(out.buffer_size());
    let color = match out.color_type {
        png::ColorType::Grayscale => PngColor::Grayscale,
        png::ColorType::Rgb => PngColor::Rgb,
        png::ColorType::Indexed => PngColor::Indexed,
        png::ColorType::GrayscaleAlpha => PngColor::GrayscaleAlpha,
        png::ColorType::Rgba => PngColor::Rgba,
    };
    Some(PngFrame { width: out.width, height: out.height, color, data })
}

/// Reads a JPEG's frame header with `jpeg_decoder::Decoder::read_info` and
/// `info`.
///
/// The result is a function of the bytes; a decoder error is `None`. A header
/// that was read has no zero side: the decoder refuses such dimensions.
#[verifier::external_body]
fn read_jpeg_header(bytes: &[u8]) -> (r: Option<JpegHeader>)
    ensures
        r == jpeg_header_of(bytes@),
        r matches Some(h) ==> h.width > 0 && h.height > 0,
{
    let mut decoder = jpeg_decoder::Decoder::new(std::io::Cursor::new(bytes));
    decoder.read_info().ok()?;
    let info = decoder.info()?;
    let format = match info.pixel_format {
        jpeg_decoder::PixelFormat::L8 => JpegFormat::L8,
        jpeg_decoder::PixelFormat::L16 => JpegFormat::L16,
        jpeg_decoder::PixelFormat::RGB24 => JpegFormat::Rgb24,
        jpeg_decoder::PixelFormat::CMYK32 => JpegFormat::Cmyk32,
    };
    Some(JpegHeader { width: info.width, height: info.height, format })
}

// --------------------------------------------------------------------------
// probing
// --------------------------------------------------------------------------

/// Whether a PNG is transparent: an alpha channel, or a `tRNS` chunk.
pub open spec fn png_alpha(c: PngColor, has_trns: bool) -> bool {
    c is GrayscaleAlpha || c is Rgba || has_trns
}

pub fn png_has_alpha(color: PngColor, has_trns: bool) -> (r: bool)
    ensures
        r == png_alpha(color, has_trns),
{
    matches!(color, PngColor::GrayscaleAlpha | PngColor::Rgba) || has_trns
}

/// The intrinsic size that a PNG header tells.
pub open spec fn png_header_intrinsic(h: Option<PngHeader>) -> Option<Intrinsic> {
    match h {
        Some(h) => Some(
            Intrinsic {
                width: h.width,
                height: h.height,
                has_alpha: png_alpha(h.color, h.has_trns),
            },
        ),
        None => None,
    }
}

/// The intrinsic size that a PNG header tells.
pub fn intrinsic_of_png(h: Option<PngHeader>) -> (r: Option<Intrinsic>)
    ensures
        r == png_header_intrinsic(h),
{
    match h {
        Some(h) => Some(
            Intrinsic {
                width: h.width,
                height: h.height,
                has_alpha: png_has_alpha(h.color, h.has_trns),
            },
        ),
        None => None,
    }
}

/// The intrinsic size that a JPEG header tells.
pub open spec fn jpeg_header_intrinsic(h: Option<JpegHeader>) -> Option<Intrinsic> {
    match h {
        Some(h) => Some(
            Intrinsic { width: h.width as u32, height: h.height as u32, has_alpha: false },
        ),
        None => None,
    }
}

/// The intrinsic size that a JPEG header tells.
pub fn intrinsic_of_jpeg(h: Option<JpegHeader>) -> (r: Option<Intrinsic>)
    ensures
        r == jpeg_header_intrinsic(h),
{
    match h {
        Some(h) => Some(
            Intrinsic { width: h.width as u32, height: h.height as u32, has_alpha: false },
        ),
        None => None,
    }
}

pub fn probe_png(bytes: &[u8]) -> (r: Option<Intrinsic>)
    ensures
        r == png_header_intrinsic(png_header_of(bytes@)),
        r matches Some(i) ==> i.width > 0 && i.height > 0,
{
    intrinsic_of_png(read_png_header(bytes))
}

pub fn probe_jpeg(bytes: &[u8]) -> (r: Option<Intrinsic>)
    ensures
        r == jpeg_header_intrinsic(jpeg_header_of(bytes@)),
        r matches Some(i) ==> i.width > 0 && i.height > 0,
{
    intrinsic_of_jpeg(read_jpeg_header(bytes))
}

/// The intrinsic size of encoded bytes.
pub open spec fn intrinsic_of(s: Seq<u8>) -> Option<Intrinsic> {
    match format_of(s) {
        Some(Format::Png) => png_header_intrinsic(png_header_of(s)),
        Some(Format::Jpeg) => jpeg_header_intrinsic(jpeg_header_of(s)),
        Some(Format::Gif) => gif_intrinsic(s),
        Some(Format::WebP) => webp_intrinsic(s),
        None => None,
    }
}

/// Read the intrinsic size of encoded bytes without decoding pixels. No side of
/// it is ever zero.
pub fn probe(bytes: &[u8]) -> (r: Option<Intrinsic>)
    ensures
        r == intrinsic_of(bytes@),
        r matches Some(i) ==> i.width > 0 && i.height > 0,
{
    proof {
        reveal_with_fuel(le, 4);
    }
    match sniff(bytes) {
        Some(Format::Png) => probe_png(bytes),
        Some(Format::Jpeg) => probe_jpeg(bytes),
        Some(Format::Gif) => probe_gif(bytes),
        Some(Format::WebP) => probe_webp(bytes),
        None => None,
    }
}

// --------------------------------------------------------------------------
// decoding
// --------------------------------------------------------------------------

/// The color space of an image's samples.
#[derive(Debug, Clone, Copy, PartialEq, Eq, Structural)]
pub enum ColorSpace {
    Gray,
    Rgb,
}

impl ColorSpace {
    pub open spec fn samples(self) -> nat {
        match self {
            ColorSpace::Gray => 1,
            ColorSpace::Rgb => 3,
        }
    }

    /// Samples per pixel.
    pub fn components(self) -> (r: usize)
        ensures
            r == self.samples(),
    {
        match self {
            ColorSpace::Gray => 1,
            ColorSpace::Rgb => 3,
        }
    }
}

/// How an image's pixels are embedded.
#[derive(Debug, PartialEq, Eq)]
pub enum Payload {
    /// Raw 8-bit samples, row by row without padding.
    Raw { samples: Vec<u8>, color: ColorSpace },
    /// The JPEG bytes as they came.
    Jpeg { bytes: Vec<u8>, color: ColorSpace },
}

/// A decoded image: its size, its samples, and its alpha plane.
#[derive(Debug, PartialEq, Eq)]
pub struct RasterImage {
    pub width: u32,
    pub height: u32,
    pub payload: Payload,
    /// One alpha byte a pixel, where the source was transparent.
    pub alpha: Option<Vec<u8>>,
}

/// The mathematical reading of a [`Payload`].
pub enum PayloadV {
    Raw { samples: Seq<u8>, color: ColorSpace },
    Jpeg { bytes: Seq<u8>, color: ColorSpace },
}

/// The mathematical reading of a [`RasterImage`].
pub struct RasterV {
    pub width: u32,
    pub height: u32,
    pub payload: PayloadV,
    pub alpha: Option<Seq<u8>>,
}

impl View for RasterImage {
    type V = RasterV;

    open spec fn view(&self) -> RasterV {
        RasterV {
            width: self.width,
            height: self.height,
            payload: match self.payload {
                Payload::Raw { samples, color } => PayloadV::Raw { samples: samples@, color },
                Payload::Jpeg { bytes, color } => PayloadV::Jpeg { bytes: bytes@, color },
            },
            alpha: match self.alpha {
                Some(a) => Some(a@),
                None => None,
            },
        }
    }
}

pub open spec fn raster_view(o: Option<RasterImage>) -> Option<RasterV> {
    match o {
        Some(i) => Some(i@),
        None => None,
    }
}

impl RasterV {
    pub open spec fn color_space(self) -> ColorSpace {
        match self.payload {
            PayloadV::Raw { samples, color } => color,
            PayloadV::Jpeg { bytes, color } => color,
        }
    }
}

impl RasterImage {
    /// The image's color space, whatever its encoding.
    pub fn color(&self) -> (r: ColorSpace)
        ensures
            r == self@.color_space(),
    {
        match &self.payload {
            Payload::Raw { samples, color } => *color,
            Payload::Jpeg { bytes, color } => *color,
        }
    }
}

/// The color space of a normalized PNG color type.
pub open spec fn png_space(c: PngColor) -> ColorSpace {
    match c {
        PngColor::Grayscale | PngColor::GrayscaleAlpha => ColorSpace::Gray,
        _ => ColorSpace::Rgb,
    }
}

/// Bytes per pixel of a normalized PNG color type.
pub open spec fn png_stride(c: PngColor) -> nat {
    match c {
        PngColor::Grayscale => 1,
        PngColor::GrayscaleAlpha => 2,
        PngColor::Rgb => 3,
        _ => 4,
    }
}

/// Whether the last byte of each pixel is its alpha.
pub open spec fn png_has_plane(c: PngColor) -> bool {
    !(c is Grayscale) && !(c is Rgb)
}

/// The layout of a pixel: color space, bytes per pixel, and the index of the
/// alpha byte.
pub fn png_layout(color: PngColor) -> (r: (ColorSpace, usize, Option<usize>))
    ensures
        r.0 == png_space(color),
        r.1 == png_stride(color),
        match r.2 {
            Some(i) => png_has_plane(color) && i == png_stride(color) - 1,
            None => !png_has_plane(color),
        },
{
    match color {
        PngColor::Grayscale => (ColorSpace::Gray, 1, None),
        PngColor::GrayscaleAlpha => (ColorSpace::Gray, 2, Some(1)),
        PngColor::Rgb => (ColorSpace::Rgb, 3, None),
        _ => (ColorSpace::Rgb, 4, Some(3)),
    }
}

/// The color samples of interleaved pixels: of each whole pixel the first
/// `comps` bytes.
pub open spec fn color_samples(data: Seq<u8>, stride: nat, comps: nat) -> Seq<u8> {
    Seq::new(
        (data.len() / stride) * comps,
        |i: int| data[(i / comps as int) * stride + i % comps as int],
    )
}

/// The alpha plane of interleaved pixels: the last byte of each whole pixel.
pub open spec fn alpha_plane(data: Seq<u8>, stride: nat) -> Seq<u8> {
    Seq::new(data.len() / stride, |i: int| data[i * stride + stride - 1])
}

/// The image of a decoded PNG frame.
pub open spec fn image_of_frame(f: PngFrameV) -> RasterV {
    RasterV {
        width: f.width,
        height: f.height,
        payload: PayloadV::Raw {
            samples: color_samples(f.data, png_stride(f.color), png_space(f.color).samples()),
            color: png_space(f.color),
        },
        alpha: if png_has_plane(f.color) {
            Some(alpha_plane(f.data, png_stride(f.color)))
        } else {
            None
        },
    }
}

/// The pixel and the component that sample `p * n + c` belongs to.
proof fn lemma_sample(p: int, n: int, c: int)
    requires
        0 <= c < n,
    ensures
        (p * n + c) / n == p,
        (p * n + c) % n == c,
{
    vstd::arithmetic::div_mod::lemma_fundamental_div_mod_converse(p * n + c, n, p, c);
}

/// Split interleaved 8-bit pixels into color samples and an alpha plane.
pub fn png_to_image(f: PngFrame) -> (r: RasterImage)
    ensures
        r@ == image_of_frame(f@),
{
    let (space, stride, alpha_at) = png_layout(f.color);
    let comps: usize = space.components();
    let data = &f.data;
    let size: usize = data.len();
    let pixels: usize = size / stride;
    let mut samples: Vec<u8> = Vec::new();
    let mut plane: Vec<u8> = Vec::new();
    let ghost want = color_samples(data@, stride as nat, comps as nat);
    let ghost want_plane = alpha_plane(data@, stride as nat);
    let mut p: usize = 0;
    proof {
        assert(0 * comps == 0);
    }
    while p < pixels
        invariant
            data@ == f.data@,
            size == data@.len(),
            1 <= comps <= stride <= 4,
            stride == png_stride(f.color),
            comps == png_space(f.color).samples(),
            pixels == data@.len() / stride as nat,
            want == color_samples(data@, stride as nat, comps as nat),
            want_plane == alpha_plane(data@, stride as nat),
            match alpha_at {
                Some(i) => i == stride - 1,
                None => true,
            },
            p <= pixels,
            samples@ == want.take(p * comps),
            plane@ == if alpha_at is Some {
                want_plane.take(p as int)
            } else {
                Seq::empty()
            },
        decreases pixels - p,
    {
        proof {
            assert(p * stride + stride <= data@.len() && p * stride >= 0) by (nonlinear_arith)
                requires
                    p + 1 <= data@.len() / stride as nat,
                    stride >= 1,
            ;
            assert((p + 1) * comps <= pixels * comps && p * comps >= 0 && (p + 1) * comps == p
                * comps + comps) by (nonlinear_arith)
                requires
                    p + 1 <= pixels,
                    comps >= 1,
            ;
            assert(want.len() == pixels * comps);
        }
        let base: usize = p * stride;
        let mut c: usize = 0;
        while c < comps
            invariant
                data@ == f.data@,
                size == data@.len(),
                c <= comps <= stride <= 4,
                p < pixels,
                base == p * stride,
                base + stride <= size,
                want == color_samples(data@, stride as nat, comps as nat),
                0 <= p * comps,
                p * comps + comps <= want.len(),
                samples@ == want.take(p * comps + c),
            decreases comps - c,
        {
            proof {
                let i = p * comps + c;
                lemma_sample(p as int, comps as int, c as int);
                assert(want[i] == data@[base + c]);
                assert(want.take(i + 1) =~= want.take(i).push(want[i]));
            }
            samples.push(data[base + c]);
            c += 1;
        }
        if let Some(i) = alpha_at {
            proof {
                assert(want_plane[p as int] == data@[p * stride + stride - 1]);
                assert(want_plane.take(p as int + 1) =~= want_plane.take(p as int).push(
                    want_plane[p as int],
                ));
            }
            plane.push(data[base + i]);
        }
        p += 1;
    }
    proof {
        assert(want.take(pixels * comps) =~= want);
        assert(want_plane.take(pixels as int) =~= want_plane);
    }
    let alpha: Option<Vec<u8>> = if alpha_at.is_some() {
        Some(plane)
    } else {
        None
    };
    RasterImage {
        width: f.width,
        height: f.height,
        payload: Payload::Raw { samples, color: space },
        alpha,
    }
}

/// The image of a decoded PNG frame, where there is one.
pub open spec fn png_image(f: Option<PngFrameV>) -> Option<RasterV> {
    match f {
        Some(f) => Some(image_of_frame(f)),
        None => None,
    }
}

/// A decoded PNG frame as an image.
pub fn image_of_png(f: Option<PngFrame>) -> (r: Option<RasterImage>)
    ensures
        raster_view(r) == png_image(frame_view(f)),
{
    match f {
        Some(f) => Some(png_to_image(f)),
        None => None,
    }
}

/// An image holds one byte for each sample and one alpha byte for each pixel.
pub open spec fn is_full(r: RasterV) -> bool {
    &&& r.payload matches PayloadV::Raw { samples, color } ==> samples.len() == r.width * r.height
        * color.samples()
    &&& r.alpha matches Some(a) ==> a.len() == r.width * r.height
}

/// A frame whose rows are packed splits into full planes.
pub proof fn law_packed_frames_split_fully(f: PngFrameV)
    requires
        f.color != PngColor::Indexed,
        f.data.len() == f.width * f.height * png_channels(f.color),
    ensures
        is_full(image_of_frame(f)),
{
    let n = f.width * f.height;
    let s = png_stride(f.color);
    assert(s == png_channels(f.color));
    assert(n >= 0) by (nonlinear_arith)
        requires
            n == f.width as int * f.height as int,
            f.width >= 0,
            f.height >= 0,
    ;
    assert((n * s) / s as int == n) by (nonlinear_arith)
        requires
            s > 0,
            n >= 0,
    ;
}

/// Whether an image is as large as was probed, and transparent where that was.
pub open spec fn agrees(r: RasterV, i: Intrinsic) -> bool {
    r.width == i.width && r.height == i.height && r.alpha is Some == i.has_alpha
}

pub fn decode_png(bytes: &[u8]) -> (r: Option<RasterImage>)
    ensures
        raster_view(r) == png_image(png_frame_of(bytes@)),
        r matches Some(i) ==> is_full(i@),
        r matches Some(i) ==> (png_header_intrinsic(png_header_of(bytes@)) matches Some(p)
            ==> agrees(i@, p)),
{
    let f = read_png_frame(bytes);
    proof {
        if f is Some {
            law_packed_frames_split_fully(f->0@);
        }
    }
    image_of_png(f)
}

/// The color space of a JPEG; ink images are not embedded.
pub open spec fn jpeg_space(f: JpegFormat) -> Option<ColorSpace> {
    match f {
        JpegFormat::L8 | JpegFormat::L16 => Some(ColorSpace::Gray),
        JpegFormat::Rgb24 => Some(ColorSpace::Rgb),
        JpegFormat::Cmyk32 => None,
    }
}

pub fn jpeg_color(format: JpegFormat) -> (r: Option<ColorSpace>)
    ensures
        r == jpeg_space(format),
{
    match format {
        JpegFormat::L8 | JpegFormat::L16 => Some(ColorSpace::Gray),
        JpegFormat::Rgb24 => Some(ColorSpace::Rgb),
        JpegFormat::Cmyk32 => None,
    }
}

/// A JPEG as an image: its bytes pass through as they are.
pub open spec fn jpeg_image(h: Option<JpegHeader>, bytes: Seq<u8>) -> Option<RasterV> {
    match h {
        Some(h) => match jpeg_space(h.format) {
            Some(color) => Some(
                RasterV {
                    width: h.width as u32,
                    height: h.height as u32,
                    payload: PayloadV::Jpeg { bytes, color },
                    alpha: None,
                },
            ),
            None => None,
        },
        None => None,
    }
}

/// The image of a JPEG whose header reads `h`.
pub fn image_of_jpeg(h: Option<JpegHeader>, bytes: &[u8]) -> (r: Option<RasterImage>)
    ensures
        raster_view(r) == jpeg_image(h, bytes@),
{
    match h {
        Some(h) => match jpeg_color(h.format) {
            Some(color) => Some(
                RasterImage {
                    width: h.width as u32,
                    height: h.height as u32,
                    payload: Payload::Jpeg { bytes: vstd::slice::slice_to_vec(bytes), color },
                    alpha: None,
                },
            ),
            None => None,
        },
        None => None,
    }
}

pub fn decode_jpeg(bytes: &[u8]) -> (r: Option<RasterImage>)
    ensures
        raster_view(r) == jpeg_image(jpeg_header_of(bytes@), bytes@),
        r matches Some(i) ==> jpeg_header_intrinsic(jpeg_header_of(bytes@)) matches Some(p)
            && agrees(i@, p),
{
    image_of_jpeg(read_jpeg_header(bytes), bytes)
}

/// The image that encoded bytes hold.
pub open spec fn decoded(s: Seq<u8>) -> Option<RasterV> {
    match format_of(s) {
        Some(Format::Png) => png_image(png_frame_of(s)),
        Some(Format::Jpeg) => jpeg_image(jpeg_header_of(s), s),
        _ => None,
    }
}

/// Decode encoded bytes for embedding, or `None` where the format is not decoded
/// or the data is malformed. The image is as large as probing tells, and has an alpha
/// plane where that tells of transparency.
pub fn decode(bytes: &[u8]) -> (r: Option<RasterImage>)
    ensures
        raster_view(r) == decoded(bytes@),
        r matches Some(i) ==> is_full(i@),
        r is Some ==> format_of(bytes@) == Some(Format::Png) || (format_of(bytes@) == Some(
            Format::Jpeg,
        ) && intrinsic_of(bytes@) is Some),
        r matches Some(i) ==> (intrinsic_of(bytes@) matches Some(p) ==> agrees(i@, p)),
{
    match sniff(bytes) {
        Some(Format::Png) => decode_png(bytes),
        Some(Format::Jpeg) => decode_jpeg(bytes),
        _ => None,
    }
}

} // verus!
