//! CSS colors.

use vstd::prelude::*;

use crate::number::{number_of, parse_number, round_div, whole, Number, ONE};
use crate::scan::{
    after_prefix, before_suffix, chars_of, lower, same, split, split_at, strip_prefix,
    strip_suffix, text_of, texts, to_lower, trim, trimmed,
};

verus! {

/// An RGBA color, 8 bits per channel.
#[derive(Debug, Clone, Copy, PartialEq, Eq, Structural)]
pub struct Rgba {
    pub r: u8,
    pub g: u8,
    pub b: u8,
    pub a: u8,
}

impl Rgba {
    /// Opaque black.
    pub open spec fn spec_black() -> Rgba {
        Rgba { r: 0, g: 0, b: 0, a: 255 }
    }

    /// Opaque black.
    #[verifier::when_used_as_spec(spec_black)]
    pub fn black() -> (c: Rgba)
        ensures
            c == Rgba::spec_black(),
    {
        Rgba { r: 0, g: 0, b: 0, a: 255 }
    }

    pub fn new(r: u8, g: u8, b: u8, a: u8) -> (c: Rgba)
        ensures
            c == (Rgba { r, g, b, a }),
    {
        Rgba { r, g, b, a }
    }
}

// --------------------------------------------------------------------------
// named colors
// --------------------------------------------------------------------------

/// The color that a lower-case name stands for.
pub open spec fn named(n: Seq<char>) -> Option<Rgba> {
    if n == "black"@ {
        Some(Rgba { r: 0, g: 0, b: 0, a: 255 })
    } else if n == "white"@ {
        Some(Rgba { r: 255, g: 255, b: 255, a: 255 })
    } else if n == "red"@ {
        Some(Rgba { r: 255, g: 0, b: 0, a: 255 })
    } else if n == "green"@ {
        Some(Rgba { r: 0, g: 128, b: 0, a: 255 })
    } else if n == "blue"@ {
        Some(Rgba { r: 0, g: 0, b: 255, a: 255 })
    } else if n == "gray"@ || n == "grey"@ {
        Some(Rgba { r: 128, g: 128, b: 128, a: 255 })
    } else if n == "transparent"@ {
        Some(Rgba { r: 0, g: 0, b: 0, a: 0 })
    } else {
        None
    }
}

pub fn named_color(name: &str) -> (r: Option<Rgba>)
    ensures
        r == named(name@),
{
    if same(name, "black") {
        Some(Rgba::new(0, 0, 0, 255))
    } else if same(name, "white") {
        Some(Rgba::new(255, 255, 255, 255))
    } else if same(name, "red") {
        Some(Rgba::new(255, 0, 0, 255))
    } else if same(name, "green") {
        Some(Rgba::new(0, 128, 0, 255))
    } else if same(name, "blue") {
        Some(Rgba::new(0, 0, 255, 255))
    } else if same(name, "gray") || same(name, "grey") {
        Some(Rgba::new(128, 128, 128, 255))
    } else if same(name, "transparent") {
        Some(Rgba::new(0, 0, 0, 0))
    } else {
        None
    }
}

// --------------------------------------------------------------------------
// hexadecimal colors
// --------------------------------------------------------------------------

/// The value of a hexadecimal digit.
pub open spec fn hex_value(c: char) -> Option<int> {
    if '0' <= c <= '9' {
        Some(c as int - '0' as int)
    } else if 'a' <= c <= 'f' {
        Some(c as int - 'a' as int + 10)
    } else if 'A' <= c <= 'F' {
        Some(c as int - 'A' as int + 10)
    } else {
        None
    }
}

/// The byte that two characters write in base 16.
pub open spec fn hex_byte(a: char, b: char) -> Option<u8> {
    match (hex_value(a), hex_value(b)) {
        (Some(x), Some(y)) => Some((16 * x + y) as u8),
        _ => None,
    }
}

/// The color of three bytes, where all are there, with alpha `a`.
pub open spec fn of_bytes(r: Option<u8>, g: Option<u8>, b: Option<u8>, a: u8) -> Option<Rgba> {
    match (r, g, b) {
        (Some(r), Some(g), Some(b)) => Some(Rgba { r, g, b, a }),
        _ => None,
    }
}

/// The color after a `#`: three, six or eight hexadecimal digits.
pub open spec fn hex_color(h: Seq<char>) -> Option<Rgba> {
    if h.len() == 3 {
        of_bytes(hex_byte(h[0], h[0]), hex_byte(h[1], h[1]), hex_byte(h[2], h[2]), 255)
    } else if h.len() == 6 {
        of_bytes(hex_byte(h[0], h[1]), hex_byte(h[2], h[3]), hex_byte(h[4], h[5]), 255)
    } else if h.len() == 8 {
        match hex_byte(h[6], h[7]) {
            Some(a) => of_bytes(
                hex_byte(h[0], h[1]),
                hex_byte(h[2], h[3]),
                hex_byte(h[4], h[5]),
                a,
            ),
            None => None,
        }
    } else {
        None
    }
}

fn hex_digit(c: char) -> (r: Option<u8>)
    ensures
        match r {
            Some(v) => hex_value(c) == Some(v as int) && v <= 15,
            None => hex_value(c) is None,
        },
{
    if '0' <= c && c <= '9' {
        Some((c as u32 - '0' as u32) as u8)
    } else if 'a' <= c && c <= 'f' {
        Some((c as u32 - 'a' as u32 + 10) as u8)
    } else if 'A' <= c && c <= 'F' {
        Some((c as u32 - 'A' as u32 + 10) as u8)
    } else {
        None
    }
}

pub fn hex_pair(a: char, b: char) -> (r: Option<u8>)
    ensures
        r == hex_byte(a, b),
{
    match (hex_digit(a), hex_digit(b)) {
        (Some(x), Some(y)) => Some(16 * x + y),
        _ => None,
    }
}

fn rgb_of(r: Option<u8>, g: Option<u8>, b: Option<u8>, a: u8) -> (c: Option<Rgba>)
    ensures
        c == of_bytes(r, g, b, a),
{
    match (r, g, b) {
        (Some(r), Some(g), Some(b)) => Some(Rgba::new(r, g, b, a)),
        _ => None,
    }
}

fn parse_hex3(h: &Vec<char>) -> (r: Option<Rgba>)
    requires
        h@.len() == 3,
    ensures
        r == hex_color(h@),
{
    rgb_of(hex_pair(h[0], h[0]), hex_pair(h[1], h[1]), hex_pair(h[2], h[2]), 255)
}

fn parse_hex6(h: &Vec<char>, a: u8) -> (r: Option<Rgba>)
    requires
        h@.len() >= 6,
    ensures
        r == of_bytes(hex_byte(h@[0], h@[1]), hex_byte(h@[2], h@[3]), hex_byte(h@[4], h@[5]), a),
{
    rgb_of(hex_pair(h[0], h[1]), hex_pair(h[2], h[3]), hex_pair(h[4], h[5]), a)
}

fn parse_hex8(h: &Vec<char>) -> (r: Option<Rgba>)
    requires
        h@.len() == 8,
    ensures
        r == hex_color(h@),
{
    match hex_pair(h[6], h[7]) {
        Some(a) => parse_hex6(h, a),
        None => None,
    }
}

/// The color written by the digits after a `#`.
pub fn parse_hex(h: &str) -> (r: Option<Rgba>)
    ensures
        r == hex_color(h@),
{
    let x = chars_of(h);
    match x.len() {
        3 => parse_hex3(&x),
        6 => parse_hex6(&x, 255),
        8 => parse_hex8(&x),
        _ => None,
    }
}

// --------------------------------------------------------------------------
// rgb() and rgba()
// --------------------------------------------------------------------------

/// `x` held within a byte.
pub open spec fn byte_of(x: int) -> u8 {
    if x < 0 {
        0
    } else if x > 255 {
        255
    } else {
        x as u8
    }
}

/// A color channel: the nearest whole number within a byte.
pub open spec fn channel_of(s: Seq<char>) -> Option<u8> {
    match number_of(trimmed(s)) {
        Some(Number::Value(v)) => Some(byte_of(round_div(v as int, ONE as int))),
        Some(Number::NotANumber) => Some(0),
        None => None,
    }
}

/// An alpha channel: a fraction of 255.
pub open spec fn alpha_of(s: Seq<char>) -> Option<u8> {
    match number_of(trimmed(s)) {
        Some(Number::Value(v)) => Some(byte_of(round_div(v * 255, ONE as int))),
        Some(Number::NotANumber) => Some(0),
        None => None,
    }
}

pub open spec fn channel_at(parts: Seq<Seq<char>>, i: int) -> Option<u8> {
    if i < parts.len() {
        channel_of(parts[i])
    } else {
        None
    }
}

/// The color of the comma- or slash-separated components of `rgb(...)`.
pub open spec fn rgb_color(inner: Seq<char>) -> Option<Rgba> {
    let p = split_at(inner, ',', '/');
    if p.len() > 3 {
        match alpha_of(p[3]) {
            Some(a) => of_bytes(channel_at(p, 0), channel_at(p, 1), channel_at(p, 2), a),
            None => None,
        }
    } else {
        of_bytes(channel_at(p, 0), channel_at(p, 1), channel_at(p, 2), 255)
    }
}

/// The text between the parentheses that enclose a trimmed `s`.
pub open spec fn in_parens(s: Seq<char>) -> Option<Seq<char>> {
    match after_prefix(trimmed(s), "("@) {
        Some(t) => before_suffix(t, ")"@),
        None => None,
    }
}

/// The arguments of `rgb(...)` or `rgba(...)`.
pub open spec fn rgb_args(t: Seq<char>) -> Option<Seq<char>> {
    match after_prefix(t, "rgba"@) {
        Some(b) => in_parens(b),
        None => match after_prefix(t, "rgb"@) {
            Some(b) => in_parens(b),
            None => None,
        },
    }
}

fn byte(v: i64) -> (r: u8)
    ensures
        r == byte_of(v as int),
{
    if v < 0 {
        0
    } else if v > 255 {
        255
    } else {
        v as u8
    }
}

pub fn channel(part: &str) -> (r: Option<u8>)
    ensures
        r == channel_of(part@),
{
    match parse_number(trim(part)) {
        Some(Number::Value(v)) => Some(byte(whole(v))),
        Some(Number::NotANumber) => Some(0),
        None => None,
    }
}

pub fn alpha_channel(part: &str) -> (r: Option<u8>)
    ensures
        r == alpha_of(part@),
{
    proof {
        crate::number::lemma_number_bounds(trimmed(part@));
    }
    match parse_number(trim(part)) {
        Some(Number::Value(v)) => Some(byte(whole(v * 255))),
        Some(Number::NotANumber) => Some(0),
        None => None,
    }
}

pub fn nth_channel(parts: &Vec<&str>, i: usize) -> (r: Option<u8>)
    ensures
        r == channel_at(texts(parts@), i as int),
{
    if i < parts.len() {
        channel(parts[i])
    } else {
        None
    }
}

pub fn parse_rgb_parts(parts: &Vec<&str>, a: u8) -> (r: Option<Rgba>)
    ensures
        r == of_bytes(
            channel_at(texts(parts@), 0),
            channel_at(texts(parts@), 1),
            channel_at(texts(parts@), 2),
            a,
        ),
{
    rgb_of(nth_channel(parts, 0), nth_channel(parts, 1), nth_channel(parts, 2), a)
}

pub fn parse_rgb_fn(inner: &str) -> (r: Option<Rgba>)
    ensures
        r == rgb_color(inner@),
{
    let parts = split(inner, ',', '/');
    if parts.len() > 3 {
        match alpha_channel(parts[3]) {
            Some(a) => parse_rgb_parts(&parts, a),
            None => None,
        }
    } else {
        parse_rgb_parts(&parts, 255)
    }
}

pub fn paren_inner<'a>(s: &'a str) -> (r: Option<&'a str>)
    ensures
        text_of(r) == in_parens(s@),
{
    match strip_prefix(trim(s), "(") {
        Some(t) => strip_suffix(t, ")"),
        None => None,
    }
}

pub fn rgb_inner<'a>(t: &'a str) -> (r: Option<&'a str>)
    ensures
        text_of(r) == rgb_args(t@),
{
    match strip_prefix(t, "rgba") {
        Some(b) => paren_inner(b),
        None => match strip_prefix(t, "rgb") {
            Some(b) => paren_inner(b),
            None => None,
        },
    }
}

// --------------------------------------------------------------------------
// colors
// --------------------------------------------------------------------------

/// The color that `s` writes: hexadecimal, functional, or named.
pub open spec fn color_of(s: Seq<char>) -> Option<Rgba> {
    let t = trimmed(s);
    match after_prefix(t, "#"@) {
        Some(h) => hex_color(h),
        None => match rgb_args(t) {
            Some(inner) => rgb_color(inner),
            None => named(lower(t)),
        },
    }
}

/// Parse a CSS color (`#rgb`, `#rrggbb`, `#rrggbbaa`, `rgb()`, `rgba()`, or a
/// small named set); `None` for an unrecognized value.
pub fn parse_color(s: &str) -> (r: Option<Rgba>)
    ensures
        r == color_of(s@),
{
    let t = trim(s);
    if let Some(h) = strip_prefix(t, "#") {
        return parse_hex(h);
    }
    if let Some(inner) = rgb_inner(t) {
        return parse_rgb_fn(inner);
    }
    named_color(to_lower(t).as_str())
}

// --------------------------------------------------------------------------
// cmyk()
// --------------------------------------------------------------------------

/// Full ink, in hundred-millionths.
pub const FULL_INK: i64 = 100_000_000;

/// `x` held between no ink and full ink.
pub open spec fn ink_clamp(x: int) -> int {
    if x < 0 {
        0
    } else if x > FULL_INK {
        FULL_INK as int
    } else {
        x
    }
}

/// One ink: a percentage, or a fraction of one.
pub open spec fn ink_of(token: Seq<char>) -> Option<int> {
    match before_suffix(token, "%"@) {
        Some(p) => match number_of(trimmed(p)) {
            Some(Number::Value(v)) => Some(ink_clamp(v as int)),
            Some(Number::NotANumber) => Some(FULL_INK as int),
            None => None,
        },
        None => match number_of(token) {
            Some(Number::Value(v)) => Some(ink_clamp(v * 100)),
            Some(Number::NotANumber) => Some(FULL_INK as int),
            None => None,
        },
    }
}

/// The light that is left of a channel under an ink and black.
pub open spec fn ink_byte(ink: int, black: int) -> u8 {
    byte_of(round_div((FULL_INK - ink) * (FULL_INK - black) * 255, FULL_INK * FULL_INK))
}

/// The color of `cmyk(c, m, y, k)`.
pub open spec fn cmyk_of(s: Seq<char>) -> Option<Rgba> {
    match after_prefix(s, "cmyk"@) {
        Some(body) => match in_parens(body) {
            Some(inner) => {
                let p = split_at(inner, ',', '/');
                if p.len() != 4 {
                    None
                } else {
                    match (
                        ink_of(trimmed(p[0])),
                        ink_of(trimmed(p[1])),
                        ink_of(trimmed(p[2])),
                        ink_of(trimmed(p[3])),
                    ) {
                        (Some(c), Some(m), Some(y), Some(k)) => Some(
                            Rgba {
                                r: ink_byte(c, k),
                                g: ink_byte(m, k),
                                b: ink_byte(y, k),
                                a: 255,
                            },
                        ),
                        _ => None,
                    }
                }
            },
            None => None,
        },
        None => None,
    }
}

pub fn cmyk_component(token: &str) -> (r: Option<i64>)
    ensures
        match r {
            Some(v) => ink_of(token@) == Some(v as int) && 0 <= v <= FULL_INK,
            None => ink_of(token@) is None,
        },
{
    match strip_suffix(token, "%") {
        Some(p) => {
            match parse_number(trim(p)) {
                Some(Number::Value(v)) => Some(
                    if v < 0 {
                        0
                    } else if v > FULL_INK {
                        FULL_INK
                    } else {
                        v
                    },
                ),
                Some(Number::NotANumber) => Some(FULL_INK),
                None => None,
            }
        },
        None => {
            match parse_number(token) {
                Some(Number::Value(v)) => Some(
                    if v < 0 {
                        0
                    } else if v > ONE {
                        FULL_INK
                    } else {
                        v * 100
                    },
                ),
                Some(Number::NotANumber) => Some(FULL_INK),
                None => None,
            }
        },
    }
}

fn ink_to_byte(ink: i64, black: i64) -> (r: u8)
    requires
        0 <= ink <= FULL_INK,
        0 <= black <= FULL_INK,
    ensures
        r == ink_byte(ink as int, black as int),
{
    let x: i64 = FULL_INK - ink;
    let y: i64 = FULL_INK - black;
    proof {
        assert(0 <= x * y <= 10_000_000_000_000_000) by (nonlinear_arith)
            requires
                0 <= x <= 100_000_000,
                0 <= y <= 100_000_000,
        ;
    }
    let n: i64 = x * y * 255;
    let d: i64 = FULL_INK * FULL_INK;
    let q: i64 = n / d;
    let near: i64 = if 2 * (n % d) >= d {
        q + 1
    } else {
        q
    };
    byte(near)
}

/// Parse `cmyk(c, m, y, k)` into its device-equivalent color.
pub fn parse_cmyk(s: &str) -> (r: Option<Rgba>)
    ensures
        r == cmyk_of(s@),
{
    let body = match strip_prefix(s, "cmyk") {
        Some(b) => b,
        None => return None,
    };
    let inner = match paren_inner(body) {
        Some(i) => i,
        None => return None,
    };
    let p = split(inner, ',', '/');
    proof {
        assert(texts(p@).len() == p@.len());
    }
    if p.len() != 4 {
        return None;
    }
    match (
        cmyk_component(trim(p[0])),
        cmyk_component(trim(p[1])),
        cmyk_component(trim(p[2])),
        cmyk_component(trim(p[3])),
    ) {
        (Some(c), Some(m), Some(y), Some(k)) => Some(
            Rgba::new(ink_to_byte(c, k), ink_to_byte(m, k), ink_to_byte(y, k), 255),
        ),
        _ => None,
    }
}

/// The color that `s` writes where print colors are in use: `cmyk()` is tried
/// before the named colors.
pub open spec fn print_color_of(s: Seq<char>) -> Option<Rgba> {
    let t = trimmed(s);
    if after_prefix(t, "#"@) is None && rgb_args(t) is None && cmyk_of(t) is Some {
        cmyk_of(t)
    } else {
        color_of(s)
    }
}

/// [`parse_color`] with `cmyk()` accepted as well.
pub fn parse_print_color(s: &str) -> (r: Option<Rgba>)
    ensures
        r == print_color_of(s@),
{
    let t = trim(s);
    if strip_prefix(t, "#").is_none() && rgb_inner(t).is_none() {
        if let Some(c) = parse_cmyk(t) {
            return Some(c);
        }
    }
    parse_color(s)
}

} // verus!
