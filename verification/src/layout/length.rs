//! CSS lengths, percentages and `calc()` sums.
//!
//! Lengths are CSS pixels at 96 to the inch, in millionths. Absolute units
//! convert on parsing; `em` goes by the font size at hand, `rem` by the initial
//! font size, and a percentage by a basis known later.

use vstd::prelude::*;
use vstd::string::*;

use crate::number::{
    clip, max_of, min_of, minus, parse_value, plus, scale, scaled, value_of, ONE,
};
use crate::scan::{
    after_prefix, before_suffix, chars_of, lower, same, same_ignoring_case, strip_prefix,
    strip_suffix, text_of, texts, trim, trimmed, words, words_in,
};

verus! {

/// The initial font size, 16px.
pub const DEFAULT_FONT_SIZE: i64 = 16_000_000;

/// One hundred, in millionths.
pub const HUNDRED: i64 = 100_000_000;

/// The layout viewport, which the `vw`, `vh`, `vmin` and `vmax` units go by.
#[derive(Debug, Clone, Copy, PartialEq, Eq, Structural)]
pub struct Viewport {
    pub width: i64,
    pub height: i64,
}

impl Default for Viewport {
    /// A 1280 by 800 desktop window.
    fn default() -> (r: Viewport)
        ensures
            r == (Viewport { width: 1_280_000_000, height: 800_000_000 }),
    {
        Viewport { width: 1_280_000_000, height: 800_000_000 }
    }
}

/// A length before `em` and `%` are resolved.
#[derive(Debug, Clone, Copy, PartialEq, Eq, Structural)]
pub enum RawLength {
    Abs(i64),
    Em(i64),
    /// Relative to the root font size, unlike `em`.
    Rem(i64),
    Pct(i64),
}

/// A `<length-percentage>` or `auto`.
#[derive(Debug, Clone, Copy, PartialEq, Eq, Structural)]
pub enum LengthPct {
    Auto,
    Px(i64),
    Pct(i64),
    /// A percentage and a length added up (`calc(50% - 10px)`).
    Calc { pct: i64, px: i64 },
}

/// `p` percent of `basis`.
pub open spec fn percent_of(p: int, basis: int) -> int {
    scaled(p, basis, HUNDRED as int)
}

impl LengthPct {
    /// The length against a percentage basis; `auto` has none.
    pub open spec fn length(self, basis: int) -> Option<int> {
        match self {
            LengthPct::Auto => None,
            LengthPct::Px(v) => Some(v as int),
            LengthPct::Pct(p) => Some(percent_of(p as int, basis)),
            LengthPct::Calc { pct, px } => Some(clip(percent_of(pct as int, basis) + px)),
        }
    }

    /// Whether the length is the same against every basis.
    pub open spec fn is_fixed(self) -> bool {
        self is Auto || self is Px
    }

    /// Resolve to px against a percentage basis, or `None` for `auto`.
    pub fn resolve(&self, basis: i64) -> (r: Option<i64>)
        ensures
            match r {
                Some(v) => self.length(basis as int) == Some(v as int),
                None => self.length(basis as int) is None,
            },
    {
        match *self {
            LengthPct::Auto => None,
            LengthPct::Px(v) => Some(v),
            LengthPct::Pct(p) => Some(scale(p, basis, HUNDRED)),
            LengthPct::Calc { pct, px } => Some(plus(scale(pct, basis, HUNDRED), px)),
        }
    }
}

/// Four edge values (margin, padding, border widths), in px.
#[derive(Debug, Clone, Copy, PartialEq, Eq, Structural)]
pub struct Edges {
    pub top: i64,
    pub right: i64,
    pub bottom: i64,
    pub left: i64,
}

impl Edges {
    pub open spec fn spec_all(v: i64) -> Edges {
        Edges { top: v, right: v, bottom: v, left: v }
    }

    /// A uniform edge set.
    #[verifier::when_used_as_spec(spec_all)]
    pub fn all(v: i64) -> (r: Edges)
        ensures
            r == Edges::spec_all(v),
    {
        Edges { top: v, right: v, bottom: v, left: v }
    }

    /// Total horizontal extent (left + right).
    pub fn horizontal(&self) -> (r: i64)
        ensures
            r == clip(self.left + self.right),
    {
        plus(self.left, self.right)
    }

    /// Total vertical extent (top + bottom).
    pub fn vertical(&self) -> (r: i64)
        ensures
            r == clip(self.top + self.bottom),
    {
        plus(self.top, self.bottom)
    }
}

impl Default for Edges {
    fn default() -> (r: Edges)
        ensures
            r == Edges::spec_all(0),
    {
        Edges { top: 0, right: 0, bottom: 0, left: 0 }
    }
}

// --------------------------------------------------------------------------
// a number and its unit
// --------------------------------------------------------------------------

pub open spec fn starts_unit(c: char) -> bool {
    ('a' <= c <= 'z') || ('A' <= c <= 'Z') || c == '%'
}

/// The number of characters before the unit.
pub open spec fn unit_at(s: Seq<char>) -> nat
    decreases s.len(),
{
    if s.len() == 0 || starts_unit(s[0]) {
        0
    } else {
        1 + unit_at(s.skip(1))
    }
}

pub proof fn lemma_unit_at(s: Seq<char>)
    ensures
        unit_at(s) <= s.len(),
    decreases s.len(),
{
    if s.len() != 0 && !starts_unit(s[0]) {
        lemma_unit_at(s.skip(1));
    }
}

/// The number and the unit of `s`.
pub fn split_unit<'a>(s: &'a str) -> (r: (&'a str, &'a str))
    ensures
        r.0@ == s@.take(unit_at(s@) as int),
        r.1@ == s@.skip(unit_at(s@) as int),
        unit_at(s@) <= s@.len(),
{
    let x = chars_of(s);
    let mut i: usize = 0;
    proof {
        assert(s@.skip(0) =~= s@);
        lemma_unit_at(s@);
    }
    while i < x.len() && !(('a' <= x[i] && x[i] <= 'z') || ('A' <= x[i] && x[i] <= 'Z') || x[i]
        == '%')
        invariant
            x@ == s@,
            i <= x@.len(),
            unit_at(s@) == i + unit_at(s@.skip(i as int)),
        decreases x@.len() - i,
    {
        proof {
            let t = s@.skip(i as int);
            assert(t[0] == x@[i as int]);
            assert(t.skip(1) =~= s@.skip(i as int + 1));
        }
        i += 1;
    }
    proof {
        let t = s@.skip(i as int);
        if i < x@.len() {
            assert(t[0] == x@[i as int]);
        }
        assert(unit_at(t) == 0);
    }
    let a = s.substring_char(0, i);
    let b = s.substring_char(i, x.len());
    proof {
        assert(a@ =~= s@.take(i as int));
        assert(b@ =~= s@.skip(i as int));
    }
    (a, b)
}

/// How many px one of an absolute unit is, as a fraction.
pub open spec fn factor(u: Seq<char>) -> Option<(int, int)> {
    if u == "px"@ || u == ""@ {
        Some((1, 1))
    } else if u == "pt"@ {
        Some((4, 3))
    } else if u == "pc"@ {
        Some((16, 1))
    } else if u == "in"@ {
        Some((96, 1))
    } else if u == "cm"@ {
        Some((4800, 127))
    } else if u == "mm"@ {
        Some((480, 127))
    } else {
        None
    }
}

pub fn unit_factor(unit: &str) -> (r: Option<(i64, i64)>)
    ensures
        match r {
            Some((n, d)) => factor(unit@) == Some((n as int, d as int)) && d > 0,
            None => factor(unit@) is None,
        },
{
    if same(unit, "px") || same(unit, "") {
        Some((1, 1))
    } else if same(unit, "pt") {
        Some((4, 3))
    } else if same(unit, "pc") {
        Some((16, 1))
    } else if same(unit, "in") {
        Some((96, 1))
    } else if same(unit, "cm") {
        Some((4800, 127))
    } else if same(unit, "mm") {
        Some((480, 127))
    } else {
        None
    }
}

/// The viewport side that a viewport unit goes by.
pub open spec fn viewport_basis(u: Seq<char>, vp: Viewport) -> Option<int> {
    if u == "vw"@ {
        Some(vp.width as int)
    } else if u == "vh"@ {
        Some(vp.height as int)
    } else if u == "vmin"@ {
        Some(crate::number::least(vp.width as int, vp.height as int))
    } else if u == "vmax"@ {
        Some(crate::number::greatest(vp.width as int, vp.height as int))
    } else {
        None
    }
}

/// A viewport-percentage length as px, or `None` for another unit.
pub fn viewport_len(value: i64, unit: &str, vp: Viewport) -> (r: Option<i64>)
    ensures
        match r {
            Some(v) => viewport_basis(unit@, vp) is Some && v == percent_of(
                value as int,
                viewport_basis(unit@, vp)->0,
            ),
            None => viewport_basis(unit@, vp) is None,
        },
{
    let basis: i64 = if same(unit, "vw") {
        vp.width
    } else if same(unit, "vh") {
        vp.height
    } else if same(unit, "vmin") {
        min_of(vp.width, vp.height)
    } else if same(unit, "vmax") {
        max_of(vp.width, vp.height)
    } else {
        return None;
    };
    Some(scale(value, basis, HUNDRED))
}

/// The length that `s` writes: a number followed by a unit.
pub open spec fn raw_length(s: Seq<char>, vp: Viewport) -> Option<RawLength> {
    let t = trimmed(s);
    let n = unit_at(t) as int;
    let u = t.skip(n);
    match value_of(t.take(n)) {
        Some(v) => if u == "%"@ {
            Some(RawLength::Pct(v as i64))
        } else if u == "em"@ {
            Some(RawLength::Em(v as i64))
        } else if u == "rem"@ {
            Some(RawLength::Rem(v as i64))
        } else {
            match viewport_basis(u, vp) {
                Some(b) => Some(RawLength::Abs(percent_of(v, b) as i64)),
                None => match factor(u) {
                    Some((n, d)) => Some(RawLength::Abs(scaled(v, n, d) as i64)),
                    None => None,
                },
            }
        },
        None => None,
    }
}

pub fn parse_raw(s: &str, vp: Viewport) -> (r: Option<RawLength>)
    ensures
        r == raw_length(s@, vp),
{
    let t = trim(s);
    let (num, unit) = split_unit(t);
    let v: i64 = match parse_value(num) {
        Some(v) => v,
        None => return None,
    };
    if same(unit, "%") {
        Some(RawLength::Pct(v))
    } else if same(unit, "em") {
        Some(RawLength::Em(v))
    } else if same(unit, "rem") {
        Some(RawLength::Rem(v))
    } else {
        match viewport_len(v, unit, vp) {
            Some(px) => Some(RawLength::Abs(px)),
            None => match unit_factor(unit) {
                Some((n, d)) => Some(RawLength::Abs(scale(v, n, d))),
                None => None,
            },
        }
    }
}

impl RawLength {
    /// The length in px against a font size and a percentage basis.
    pub open spec fn px(self, fs: int, basis: int) -> int {
        match self {
            RawLength::Abs(v) => v as int,
            RawLength::Em(v) => scaled(v as int, fs, ONE as int),
            RawLength::Rem(v) => scaled(v as int, DEFAULT_FONT_SIZE as int, ONE as int),
            RawLength::Pct(p) => percent_of(p as int, basis),
        }
    }
}

pub fn raw_to_px(raw: RawLength, font_size: i64, basis: i64) -> (r: i64)
    ensures
        r == raw.px(font_size as int, basis as int),
{
    match raw {
        RawLength::Abs(v) => v,
        RawLength::Em(v) => scale(v, font_size, ONE),
        RawLength::Rem(v) => scale(v, DEFAULT_FONT_SIZE, ONE),
        RawLength::Pct(p) => scale(p, basis, HUNDRED),
    }
}

// --------------------------------------------------------------------------
// calc()
// --------------------------------------------------------------------------

/// A running `calc()` sum: its percentage, its length, and whether a percentage
/// occurred.
#[derive(Debug, Clone, Copy, PartialEq, Eq, Structural)]
pub struct CalcSum {
    pub pct: i64,
    pub px: i64,
    pub mixed: bool,
}

/// The inside of a `calc( ... )`.
pub open spec fn calc_body(s: Seq<char>) -> Option<Seq<char>> {
    let t = trimmed(s);
    match after_prefix(t, "calc("@) {
        Some(b) => before_suffix(b, ")"@),
        None => match after_prefix(t, "CALC("@) {
            Some(b) => before_suffix(b, ")"@),
            None => None,
        },
    }
}

pub fn strip_calc<'a>(s: &'a str) -> (r: Option<&'a str>)
    ensures
        text_of(r) == calc_body(s@),
{
    let t = trim(s);
    match strip_prefix(t, "calc(") {
        Some(b) => strip_suffix(b, ")"),
        None => match strip_prefix(t, "CALC(") {
            Some(b) => strip_suffix(b, ")"),
            None => None,
        },
    }
}

/// One `calc()` term.
pub open spec fn calc_term(t: Seq<char>, fs: int, vp: Viewport) -> Option<CalcSum> {
    match raw_length(t, vp) {
        Some(RawLength::Pct(p)) => Some(CalcSum { pct: p, px: 0, mixed: true }),
        Some(raw) => Some(CalcSum { pct: 0, px: raw.px(fs, 0) as i64, mixed: false }),
        None => None,
    }
}

/// `a + b` or `a - b`, as the operator `op` says.
pub open spec fn calc_step(a: CalcSum, op: Seq<char>, b: CalcSum) -> Option<CalcSum> {
    if op == "+"@ {
        Some(
            CalcSum {
                pct: clip(a.pct + b.pct) as i64,
                px: clip(a.px + b.px) as i64,
                mixed: a.mixed || b.mixed,
            },
        )
    } else if op == "-"@ {
        Some(
            CalcSum {
                pct: clip(a.pct - b.pct) as i64,
                px: clip(a.px - b.px) as i64,
                mixed: a.mixed || b.mixed,
            },
        )
    } else {
        None
    }
}

/// The sum of the first term and the next `k` operator/term pairs.
pub open spec fn calc_fold(toks: Seq<Seq<char>>, fs: int, vp: Viewport, k: nat) -> Option<CalcSum>
    decreases k,
{
    if k == 0 {
        calc_term(toks[0], fs, vp)
    } else {
        match (
            calc_fold(toks, fs, vp, (k - 1) as nat),
            calc_term(toks[2 * k as int], fs, vp),
        ) {
            (Some(a), Some(b)) => calc_step(a, toks[2 * k - 1], b),
            _ => None,
        }
    }
}

/// The sum of all the operator/term pairs of a `calc()` body; an operator left
/// over at the end is dropped.
pub open spec fn calc_total(toks: Seq<Seq<char>>, fs: int, vp: Viewport) -> Option<CalcSum> {
    if toks.len() == 0 {
        None
    } else {
        calc_fold(toks, fs, vp, ((toks.len() - 1) / 2) as nat)
    }
}

/// The sum that a `calc(...)` text writes.
pub open spec fn calc_of(s: Seq<char>, fs: int, vp: Viewport) -> Option<CalcSum> {
    match calc_body(s) {
        Some(b) => calc_total(words_in(b), fs, vp),
        None => None,
    }
}

pub fn calc_term_px(t: &str, font_size: i64, vp: Viewport) -> (r: Option<CalcSum>)
    ensures
        r == calc_term(t@, font_size as int, vp),
{
    match parse_raw(t, vp) {
        Some(RawLength::Pct(p)) => Some(CalcSum { pct: p, px: 0, mixed: true }),
        Some(raw) => Some(CalcSum { pct: 0, px: raw_to_px(raw, font_size, 0), mixed: false }),
        None => None,
    }
}

fn calc_apply(a: CalcSum, op: &str, b: CalcSum) -> (r: Option<CalcSum>)
    ensures
        r == calc_step(a, op@, b),
{
    if same(op, "+") {
        Some(
            CalcSum {
                pct: plus(a.pct, b.pct),
                px: plus(a.px, b.px),
                mixed: a.mixed || b.mixed,
            },
        )
    } else if same(op, "-") {
        Some(
            CalcSum {
                pct: minus(a.pct, b.pct),
                px: minus(a.px, b.px),
                mixed: a.mixed || b.mixed,
            },
        )
    } else {
        None
    }
}

/// Once a prefix of the pairs has no sum, the whole has none.
proof fn lemma_calc_none(toks: Seq<Seq<char>>, fs: int, vp: Viewport, j: nat, k: nat)
    requires
        j <= k,
        calc_fold(toks, fs, vp, j) is None,
    ensures
        calc_fold(toks, fs, vp, k) is None,
    decreases k,
{
    if j < k {
        lemma_calc_none(toks, fs, vp, j, (k - 1) as nat);
    }
}

/// Add up `term (op term)*`.
pub fn sum_calc_terms(toks: &Vec<&str>, font_size: i64, vp: Viewport) -> (r: Option<CalcSum>)
    ensures
        r == calc_total(texts(toks@), font_size as int, vp),
{
    if toks.len() == 0 {
        return None;
    }
    let ghost ts = texts(toks@);
    let ghost fs = font_size as int;
    let count: usize = toks.len();
    let pairs: usize = (count - 1) / 2;
    let mut total: CalcSum = match calc_term_px(toks[0], font_size, vp) {
        Some(t) => t,
        None => {
            proof {
                lemma_calc_none(ts, fs, vp, 0, pairs as nat);
            }
            return None;
        },
    };
    let mut k: usize = 0;
    while k < pairs
        invariant
            k <= pairs,
            count == toks@.len(),
            pairs == (count - 1) / 2,
            count > 0,
            ts == texts(toks@),
            fs == font_size as int,
            calc_fold(ts, fs, vp, k as nat) == Some(total),
        decreases pairs - k,
    {
        let term = calc_term_px(toks[2 * k + 2], font_size, vp);
        let step = match term {
            Some(b) => calc_apply(total, toks[2 * k + 1], b),
            None => None,
        };
        proof {
            assert(ts[2 * (k + 1)] == toks@[2 * k + 2]@);
            assert(ts[2 * (k + 1) - 1] == toks@[2 * k + 1]@);
        }
        match step {
            Some(t) => {
                total = t;
            },
            None => {
                proof {
                    lemma_calc_none(ts, fs, vp, (k + 1) as nat, pairs as nat);
                }
                return None;
            },
        }
        k += 1;
    }
    Some(total)
}

/// The sum of a `calc(...)` text, or `None` where it is none.
pub fn eval_calc(s: &str, font_size: i64, vp: Viewport) -> (r: Option<CalcSum>)
    ensures
        r == calc_of(s@, font_size as int, vp),
{
    match strip_calc(s) {
        Some(b) => sum_calc_terms(&words(b), font_size, vp),
        None => None,
    }
}

// --------------------------------------------------------------------------
// lengths
// --------------------------------------------------------------------------

/// The px of a length without percentages.
pub open spec fn px_of(s: Seq<char>, fs: int, vp: Viewport) -> Option<int> {
    match calc_of(s, fs, vp) {
        Some(c) if !c.mixed => Some(c.px as int),
        _ => match raw_length(s, vp) {
            Some(RawLength::Pct(_)) => None,
            Some(raw) => Some(raw.px(fs, 0)),
            None => None,
        },
    }
}

/// Parse an absolute or font-relative length, or a `calc()` of such, to px.
pub fn parse_px(s: &str, font_size: i64, vp: Viewport) -> (r: Option<i64>)
    ensures
        match r {
            Some(v) => px_of(s@, font_size as int, vp) == Some(v as int),
            None => px_of(s@, font_size as int, vp) is None,
        },
{
    if let Some(c) = eval_calc(s, font_size, vp) {
        if !c.mixed {
            return Some(c.px);
        }
    }
    match parse_raw(s, vp) {
        Some(RawLength::Pct(_)) => None,
        Some(raw) => Some(raw_to_px(raw, font_size, 0)),
        None => None,
    }
}

/// The `<length-percentage>` or `auto` that `s` writes.
pub open spec fn length_pct(s: Seq<char>, fs: int, vp: Viewport) -> Option<LengthPct> {
    let t = trimmed(s);
    if lower(t) == lower("auto"@) {
        Some(LengthPct::Auto)
    } else {
        match calc_of(t, fs, vp) {
            Some(c) => Some(
                if c.mixed {
                    LengthPct::Calc { pct: c.pct, px: c.px }
                } else {
                    LengthPct::Px(c.px)
                },
            ),
            None => match raw_length(t, vp) {
                Some(RawLength::Pct(p)) => Some(LengthPct::Pct(p)),
                Some(raw) => Some(LengthPct::Px(raw.px(fs, 0) as i64)),
                None => None,
            },
        }
    }
}

/// Parse a `<length-percentage>` or `auto`.
pub fn parse_length_pct(s: &str, font_size: i64, vp: Viewport) -> (r: Option<LengthPct>)
    ensures
        r == length_pct(s@, font_size as int, vp),
{
    let t = trim(s);
    if same_ignoring_case(t, "auto") {
        return Some(LengthPct::Auto);
    }
    if let Some(c) = eval_calc(t, font_size, vp) {
        return Some(
            if c.mixed {
                LengthPct::Calc { pct: c.pct, px: c.px }
            } else {
                LengthPct::Px(c.px)
            },
        );
    }
    match parse_raw(t, vp) {
        Some(RawLength::Pct(p)) => Some(LengthPct::Pct(p)),
        Some(raw) => Some(LengthPct::Px(raw_to_px(raw, font_size, 0))),
        None => None,
    }
}

} // verus!
