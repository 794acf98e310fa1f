//! CSS 2D transforms.
//!
//! The linear part of a transform is kept as the list of its factors; those
//! named by an angle stay symbolic until their sine, cosine and tangent are
//! supplied.

use vstd::prelude::*;
use vstd::string::*;

use crate::layout::length::{length_pct, parse_length_pct, LengthPct, Viewport};
use crate::layout::tokens::nonblank;
use crate::number::{dot, dot_of, parse_value, scale, scaled, value_of, ONE};
use crate::scan::{
    ascii_space, before_suffix, chars_of, is_ascii_space, lemma_run_is, lower, run_without, same,
    same_ignoring_case, split, split_at, strip_suffix, texts, to_lower, trim, trimmed,
};
use crate::style::{prop, ComputedStyle, StyleMap};

verus! {

/// A 2x2 linear map `[[a, c], [b, d]]` in CSS `matrix` order, in millionths.
#[derive(Debug, Clone, Copy, PartialEq, Eq, Structural)]
pub struct Linear {
    pub a: i64,
    pub b: i64,
    pub c: i64,
    pub d: i64,
}

/// One factor of a transform's linear part. Angles are millionths of a degree.
#[derive(Debug, Clone, Copy, PartialEq, Eq, Structural)]
pub enum LinearStep {
    Matrix(Linear),
    Rotate(i64),
    SkewX(i64),
    SkewY(i64),
}

/// The sine, cosine and tangent of one angle, in millionths.
#[derive(Debug, Clone, Copy, PartialEq, Eq, Structural)]
pub struct Trig {
    pub sin: i64,
    pub cos: i64,
    pub tan: i64,
}

/// A parsed transform: the factors of its linear part, and its translation, a
/// percentage of which goes by the box's own size.
#[derive(Debug)]
pub struct RawTransform {
    pub steps: Vec<LinearStep>,
    pub tx: LengthPct,
    pub ty: LengthPct,
}

/// The mathematical reading of a [`RawTransform`].
pub struct TransformV {
    pub steps: Seq<LinearStep>,
    pub tx: LengthPct,
    pub ty: LengthPct,
}

impl View for RawTransform {
    type V = TransformV;

    open spec fn view(&self) -> TransformV {
        TransformV { steps: self.steps@, tx: self.tx, ty: self.ty }
    }
}

// --------------------------------------------------------------------------
// linear maps
// --------------------------------------------------------------------------

/// The map that changes nothing.
pub open spec fn identity() -> Linear {
    Linear { a: ONE, b: 0, c: 0, d: ONE }
}

/// The map that applies `n` first and then `m`.
pub open spec fn product(m: Linear, n: Linear) -> Linear {
    Linear {
        a: dot(m.a as int, n.a as int, m.c as int, n.b as int) as i64,
        b: dot(m.b as int, n.a as int, m.d as int, n.b as int) as i64,
        c: dot(m.a as int, n.c as int, m.c as int, n.d as int) as i64,
        d: dot(m.b as int, n.c as int, m.d as int, n.d as int) as i64,
    }
}

pub fn mul_linear(m: Linear, n: Linear) -> (r: Linear)
    ensures
        r == product(m, n),
{
    Linear {
        a: dot_of(m.a, n.a, m.c, n.b),
        b: dot_of(m.b, n.a, m.d, n.b),
        c: dot_of(m.a, n.c, m.c, n.d),
        d: dot_of(m.b, n.c, m.d, n.d),
    }
}

/// The map of one factor, given what its angle's functions are.
pub open spec fn step_linear(s: LinearStep, t: Trig) -> Linear {
    match s {
        LinearStep::Matrix(m) => m,
        LinearStep::Rotate(_) => Linear { a: t.cos, b: t.sin, c: clip_neg(t.sin), d: t.cos },
        LinearStep::SkewX(_) => Linear { a: ONE, b: 0, c: t.tan, d: ONE },
        LinearStep::SkewY(_) => Linear { a: ONE, b: t.tan, c: 0, d: ONE },
    }
}

/// The negative of `v`.
pub open spec fn clip_neg(v: i64) -> i64 {
    crate::number::clip(0 - v) as i64
}

/// The product of the first `k` factors, left to right.
pub open spec fn linear_fold(s: Seq<LinearStep>, t: Seq<Trig>, k: nat) -> Linear
    decreases k,
{
    if k == 0 {
        identity()
    } else {
        product(linear_fold(s, t, (k - 1) as nat), step_linear(s[k - 1], t[k - 1]))
    }
}

impl RawTransform {
    /// The linear part: the product of the factors, where `trig` gives the
    /// functions of each factor's angle.
    pub fn linear(&self, trig: &Vec<Trig>) -> (r: Linear)
        requires
            trig@.len() == self.steps@.len(),
        ensures
            r == linear_fold(self.steps@, trig@, self.steps@.len()),
    {
        let mut acc: Linear = Linear { a: ONE, b: 0, c: 0, d: ONE };
        let mut k: usize = 0;
        while k < self.steps.len()
            invariant
                k <= self.steps@.len(),
                trig@.len() == self.steps@.len(),
                acc == linear_fold(self.steps@, trig@, k as nat),
            decreases self.steps@.len() - k,
        {
            let t: Trig = trig[k];
            let m: Linear = match self.steps[k] {
                LinearStep::Matrix(m) => m,
                LinearStep::Rotate(_) => Linear {
                    a: t.cos,
                    b: t.sin,
                    c: crate::number::minus(0, t.sin),
                    d: t.cos,
                },
                LinearStep::SkewX(_) => Linear { a: ONE, b: 0, c: t.tan, d: ONE },
                LinearStep::SkewY(_) => Linear { a: ONE, b: t.tan, c: 0, d: ONE },
            };
            acc = mul_linear(acc, m);
            k += 1;
        }
        acc
    }
}

/// The functions of one angle, in millionths of a degree.
#[derive(Debug, Clone, Copy, PartialEq, Eq, Structural)]
pub struct AngleTrig {
    pub angle: i64,
    pub trig: Trig,
}

/// The functions of an angle, where a table has them.
pub open spec fn trig_at(t: Seq<AngleTrig>, angle: i64) -> Option<Trig>
    decreases t.len(),
{
    if t.len() == 0 {
        None
    } else if t[0].angle == angle {
        Some(t[0].trig)
    } else {
        trig_at(t.skip(1), angle)
    }
}

fn find_trig(t: &Vec<AngleTrig>, angle: i64) -> (r: Option<Trig>)
    ensures
        r == trig_at(t@, angle),
{
    let mut i: usize = 0;
    proof {
        assert(t@.skip(0) =~= t@);
    }
    while i < t.len()
        invariant
            i <= t@.len(),
            trig_at(t@, angle) == trig_at(t@.skip(i as int), angle),
        decreases t@.len() - i,
    {
        proof {
            assert(t@.skip(i as int)[0] == t@[i as int]);
            assert(t@.skip(i as int).skip(1) =~= t@.skip(i as int + 1));
        }
        if t[i].angle == angle {
            return Some(t[i].trig);
        }
        i += 1;
    }
    None
}

/// The angle of a factor, where it has one.
pub open spec fn step_angle(s: LinearStep) -> Option<i64> {
    match s {
        LinearStep::Matrix(_) => None,
        LinearStep::Rotate(a) => Some(a),
        LinearStep::SkewX(a) => Some(a),
        LinearStep::SkewY(a) => Some(a),
    }
}

/// What the angle functions of each of the first `k` factors are, or the first
/// angle that the table lacks.
pub open spec fn trigs_at(s: Seq<LinearStep>, t: Seq<AngleTrig>, k: nat) -> Result<Seq<Trig>, i64>
    decreases k,
{
    if k == 0 || k > s.len() {
        Ok(Seq::empty())
    } else {
        match trigs_at(s, t, (k - 1) as nat) {
            Err(a) => Err(a),
            Ok(before) => match step_angle(s[k - 1]) {
                None => Ok(before.push(Trig { sin: 0, cos: ONE, tan: 0 })),
                Some(a) => match trig_at(t, a) {
                    Some(x) => Ok(before.push(x)),
                    None => Err(a),
                },
            },
        }
    }
}

/// The angle functions of every factor.
pub fn trigs_of(t: &RawTransform, table: &Vec<AngleTrig>) -> (r: Result<Vec<Trig>, i64>)
    ensures
        match r {
            Ok(v) => trigs_at(t.steps@, table@, t.steps@.len()) == Ok::<Seq<Trig>, i64>(v@)
                && v@.len() == t.steps@.len(),
            Err(a) => trigs_at(t.steps@, table@, t.steps@.len()) == Err::<Seq<Trig>, i64>(a),
        },
{
    let mut out: Vec<Trig> = Vec::new();
    let mut k: usize = 0;
    while k < t.steps.len()
        invariant
            k <= t.steps@.len(),
            out@.len() == k,
            trigs_at(t.steps@, table@, k as nat) == Ok::<Seq<Trig>, i64>(out@),
        decreases t.steps@.len() - k,
    {
        let angle: Option<i64> = match t.steps[k] {
            LinearStep::Matrix(_) => None,
            LinearStep::Rotate(a) => Some(a),
            LinearStep::SkewX(a) => Some(a),
            LinearStep::SkewY(a) => Some(a),
        };
        match angle {
            None => {
                out.push(Trig { sin: 0, cos: ONE, tan: 0 });
            },
            Some(a) => match find_trig(table, a) {
                Some(x) => {
                    out.push(x);
                },
                None => {
                    proof {
                        lemma_missing(t.steps@, table@, k as nat + 1, t.steps@.len(), a);
                    }
                    return Err(a);
                },
            },
        }
        k += 1;
    }
    Ok(out)
}

proof fn lemma_missing(s: Seq<LinearStep>, t: Seq<AngleTrig>, k: nat, n: nat, a: i64)
    requires
        trigs_at(s, t, k) == Err::<Seq<Trig>, i64>(a),
        0 < k <= n <= s.len(),
    ensures
        trigs_at(s, t, n) == Err::<Seq<Trig>, i64>(a),
    decreases n,
{
    if n > k {
        lemma_missing(s, t, k, (n - 1) as nat, a);
    }
}

// --------------------------------------------------------------------------
// the function list
// --------------------------------------------------------------------------

/// Whether nothing is asked for: no text, or the `none` keyword.
pub open spec fn says_none(v: Seq<char>) -> bool {
    v.len() == 0 || lower(v) == lower("none"@)
}

pub fn is_none_keyword(value: &str) -> (r: bool)
    ensures
        r == says_none(value@),
{
    value.is_empty() || same_ignoring_case(value, "none")
}

/// `s` without leading ASCII whitespace and commas.
pub open spec fn skip_seps(s: Seq<char>) -> Seq<char>
    decreases s.len(),
{
    if s.len() > 0 && (is_ascii_space(s[0]) || s[0] == ',') {
        skip_seps(s.skip(1))
    } else {
        s
    }
}

proof fn lemma_skip_seps(s: Seq<char>)
    ensures
        skip_seps(s).len() <= s.len(),
    decreases s.len(),
{
    if s.len() > 0 && (is_ascii_space(s[0]) || s[0] == ',') {
        lemma_skip_seps(s.skip(1));
    }
}

/// A function name, lowered, with its non-blank arguments.
pub type FnCall = (Seq<char>, Seq<Seq<char>>);

/// The calls `name(arg, ...)` of a transform value; a trailing name without a
/// parenthesis ends the list.
pub open spec fn calls_in(s: Seq<char>) -> Seq<FnCall>
    decreases s.len(),
{
    let t = skip_seps(s);
    let n = run_without(t, '(', '(') as int;
    if n >= t.len() || t.len() > s.len() {
        Seq::empty()
    } else {
        let name = lower(trimmed(t.take(n)));
        let rest = t.skip(n + 1);
        let k = run_without(rest, ')', ')') as int;
        let args = nonblank(split_at(rest.take(k), ',', ','));
        let tail = if k < rest.len() {
            calls_in(rest.skip(k + 1))
        } else {
            Seq::empty()
        };
        if name.len() > 0 {
            seq![(name, args)] + tail
        } else {
            tail
        }
    }
}

pub open spec fn calls_view(v: Seq<(String, Vec<&str>)>) -> Seq<FnCall> {
    v.map_values(|p: (String, Vec<&str>)| (p.0@, texts(p.1@)))
}

fn skip_separators(x: &Vec<char>, from: usize) -> (r: usize)
    requires
        from <= x@.len(),
    ensures
        from <= r <= x@.len(),
        skip_seps(x@.skip(from as int)) == x@.skip(r as int),
{
    let mut i: usize = from;
    while i < x.len() && (ascii_space(x[i]) || x[i] == ',')
        invariant
            from <= i <= x@.len(),
            skip_seps(x@.skip(from as int)) == skip_seps(x@.skip(i as int)),
        decreases x@.len() - i,
    {
        proof {
            let t = x@.skip(i as int);
            assert(t[0] == x@[i as int]);
            assert(t.skip(1) =~= x@.skip(i as int + 1));
        }
        i += 1;
    }
    proof {
        if i < x@.len() {
            assert(x@.skip(i as int)[0] == x@[i as int]);
        }
    }
    i
}

fn scan_until(x: &Vec<char>, from: usize, stop: char) -> (r: usize)
    requires
        from <= x@.len(),
    ensures
        from <= r <= x@.len(),
        r - from == run_without(x@.skip(from as int), stop, stop),
{
    let mut i: usize = from;
    while i < x.len() && x[i] != stop
        invariant
            from <= i <= x@.len(),
            forall|j: int| from <= j < i ==> x@[j] != stop,
        decreases x@.len() - i,
    {
        i += 1;
    }
    proof {
        let t = x@.skip(from as int);
        assert forall|j: int| 0 <= j < i - from implies t[j] != stop && t[j] != stop by {
            assert(t[j] == x@[from + j]);
        }
        if i < x@.len() {
            assert(t[i - from] == x@[i as int]);
        }
        lemma_run_is(t, stop, stop, i - from);
    }
    i
}

/// The non-blank, trimmed comma-separated arguments of `s`.
fn call_args<'a>(s: &'a str) -> (r: Vec<&'a str>)
    ensures
        texts(r@) == nonblank(split_at(s@, ',', ',')),
{
    let parts = split(s, ',', ',');
    let ghost ps = texts(parts@);
    let mut out: Vec<&'a str> = Vec::new();
    let mut i: usize = 0;
    proof {
        assert(ps.skip(0) =~= ps);
        assert(texts(out@) + nonblank(ps) =~= nonblank(ps));
    }
    while i < parts.len()
        invariant
            i <= parts@.len(),
            ps == texts(parts@),
            texts(out@) + nonblank(ps.skip(i as int)) == nonblank(ps),
        decreases parts@.len() - i,
    {
        let t = trim(parts[i]);
        proof {
            let rest = ps.skip(i as int);
            assert(rest[0] == parts@[i as int]@);
            assert(rest.skip(1) =~= ps.skip(i as int + 1));
            let more = nonblank(ps.skip(i as int + 1));
            assert(texts(out@.push(t)) + more =~= texts(out@) + (seq![t@] + more));
        }
        if !t.is_empty() {
            out.push(t);
        }
        i += 1;
    }
    proof {
        assert(ps.skip(i as int).len() == 0);
        assert(texts(out@) + Seq::<Seq<char>>::empty() =~= texts(out@));
    }
    out
}

/// Split a transform value into its calls.
pub fn transform_functions<'a>(value: &'a str) -> (r: Vec<(String, Vec<&'a str>)>)
    ensures
        calls_view(r@) == calls_in(value@),
{
    let x = chars_of(value);
    let mut out: Vec<(String, Vec<&'a str>)> = Vec::new();
    let mut i: usize = 0;
    proof {
        assert(value@.skip(0) =~= value@);
        assert(calls_view(out@) + calls_in(value@) =~= calls_in(value@));
    }
    while i < x.len()
        invariant
            x@ == value@,
            i <= x@.len(),
            calls_view(out@) + calls_in(value@.skip(i as int)) == calls_in(value@),
        decreases x@.len() - i,
    {
        let ghost s0 = value@.skip(i as int);
        let name_start: usize = skip_separators(&x, i);
        let open: usize = scan_until(&x, name_start, '(');
        let ghost t = value@.skip(name_start as int);
        if open >= x.len() {
            proof {
                assert(calls_in(s0) == Seq::<FnCall>::empty());
                assert(calls_view(out@) + Seq::<FnCall>::empty() =~= calls_view(out@));
            }
            return out;
        }
        let name = to_lower(trim(value.substring_char(name_start, open)));
        let args_start: usize = open + 1;
        let close: usize = scan_until(&x, args_start, ')');
        let args = call_args(value.substring_char(args_start, close));
        proof {
            let n = open - name_start;
            let rest = t.skip(n + 1);
            assert(t.take(n) =~= value@.subrange(name_start as int, open as int));
            assert(rest =~= value@.skip(args_start as int));
            let k = close - args_start;
            assert(rest.take(k) =~= value@.subrange(args_start as int, close as int));
            if close < x@.len() {
                assert(rest.skip(k + 1) =~= value@.skip(close as int + 1));
            } else {
                assert(value@.skip(x@.len() as int).len() == 0);
            }
        }
        let next: usize = if close < x.len() {
            close + 1
        } else {
            close
        };
        proof {
            let tail = calls_in(value@.skip(next as int));
            if close >= x@.len() {
                let e = value@.skip(next as int);
                assert(e.len() == 0);
                assert(skip_seps(e) == e);
                assert(tail == Seq::<FnCall>::empty());
            }
            assert(name@.len() > 0 ==> calls_in(s0) == seq![(name@, texts(args@))] + tail);
            assert(name@.len() == 0 ==> calls_in(s0) == tail);
            assert(calls_view(out@.push((name, args))) + tail =~= calls_view(out@) + (seq![
                (name@, texts(args@)),
            ] + tail));
        }
        if !name.as_str().is_empty() {
            out.push((name, args));
        }
        i = next;
    }
    proof {
        let e = value@.skip(i as int);
        assert(e.len() == 0);
        assert(skip_seps(e) == e);
        assert(calls_view(out@) + Seq::<FnCall>::empty() =~= calls_view(out@));
    }
    out
}

// --------------------------------------------------------------------------
// one function
// --------------------------------------------------------------------------

/// The number of degrees in `num / den` of a unit; `s` ends with the unit.
pub open spec fn in_unit(s: Seq<char>, unit: Seq<char>, num: int, den: int) -> Option<int> {
    match before_suffix(s, unit) {
        Some(n) => match value_of(trimmed(n)) {
            Some(v) => Some(scaled(v, num, den)),
            None => None,
        },
        None => None,
    }
}

/// A CSS angle in millionths of a degree; a bare number counts degrees.
pub open spec fn angle_of(tok: Seq<char>) -> Option<int> {
    let t = trimmed(tok);
    if before_suffix(t, "deg"@) is Some {
        in_unit(t, "deg"@, 1, 1)
    } else if before_suffix(t, "grad"@) is Some {
        in_unit(t, "grad"@, 9, 10)
    } else if before_suffix(t, "turn"@) is Some {
        in_unit(t, "turn"@, 360, 1)
    } else if before_suffix(t, "rad"@) is Some {
        in_unit(t, "rad"@, 57_295_779_513, 1_000_000_000)
    } else {
        value_of(t)
    }
}

fn angle_in(n: &str, num: i64, den: i64) -> (r: Option<i64>)
    requires
        den > 0,
    ensures
        match r {
            Some(v) => value_of(trimmed(n@)) is Some && v == scaled(
                value_of(trimmed(n@))->0,
                num as int,
                den as int,
            ),
            None => value_of(trimmed(n@)) is None,
        },
{
    match parse_value(trim(n)) {
        Some(v) => Some(scale(v, num, den)),
        None => None,
    }
}

/// Parse an angle to millionths of a degree.
pub fn parse_angle(tok: &str) -> (r: Option<i64>)
    ensures
        match r {
            Some(v) => angle_of(tok@) == Some(v as int),
            None => angle_of(tok@) is None,
        },
{
    let t = trim(tok);
    if let Some(n) = strip_suffix(t, "deg") {
        return angle_in(n, 1, 1);
    }
    if let Some(n) = strip_suffix(t, "grad") {
        return angle_in(n, 9, 10);
    }
    if let Some(n) = strip_suffix(t, "turn") {
        return angle_in(n, 360, 1);
    }
    if let Some(n) = strip_suffix(t, "rad") {
        return angle_in(n, 57_295_779_513, 1_000_000_000);
    }
    parse_value(t)
}

/// A translation argument; absent, `0` and unreadable ones are zero.
pub open spec fn len_arg(args: Seq<Seq<char>>, i: int, fs: int, vp: Viewport) -> LengthPct {
    if i < args.len() && trimmed(args[i]).len() > 0 && trimmed(args[i]) != "0"@ {
        match length_pct(trimmed(args[i]), fs, vp) {
            Some(l) => l,
            None => LengthPct::Px(0),
        }
    } else {
        LengthPct::Px(0)
    }
}

pub fn len_or_zero(args: &Vec<&str>, i: usize, font_size: i64, vp: Viewport) -> (r: LengthPct)
    ensures
        r == len_arg(texts(args@), i as int, font_size as int, vp),
{
    if i < args.len() {
        let t = trim(args[i]);
        if !t.is_empty() && !same(t, "0") {
            return match parse_length_pct(t, font_size, vp) {
                Some(l) => l,
                None => LengthPct::Px(0),
            };
        }
    }
    LengthPct::Px(0)
}

/// The numeric argument `i`, or `d`.
pub open spec fn num_arg(args: Seq<Seq<char>>, i: int, d: i64) -> i64 {
    if i < args.len() {
        match value_of(trimmed(args[i])) {
            Some(v) => v as i64,
            None => d,
        }
    } else {
        d
    }
}

fn num_or(args: &Vec<&str>, i: usize, d: i64) -> (r: i64)
    ensures
        r == num_arg(texts(args@), i as int, d),
{
    if i < args.len() {
        match parse_value(trim(args[i])) {
            Some(v) => v,
            None => d,
        }
    } else {
        d
    }
}

/// The angle argument, or zero.
pub open spec fn angle_arg(args: Seq<Seq<char>>) -> i64 {
    if args.len() > 0 {
        match angle_of(args[0]) {
            Some(v) => v as i64,
            None => 0,
        }
    } else {
        0
    }
}

fn angle_or_zero(args: &Vec<&str>) -> (r: i64)
    ensures
        r == angle_arg(texts(args@)),
{
    if args.len() > 0 {
        match parse_angle(args[0]) {
            Some(v) => v,
            None => 0,
        }
    } else {
        0
    }
}

/// Whether every argument is a number.
pub open spec fn all_numbers(args: Seq<Seq<char>>) -> bool {
    forall|i: int| 0 <= i < args.len() ==> value_of(trimmed(#[trigger] args[i])) is Some
}

fn are_numbers(args: &Vec<&str>) -> (r: bool)
    ensures
        r == all_numbers(texts(args@)),
{
    let ghost ts = texts(args@);
    let mut i: usize = 0;
    while i < args.len()
        invariant
            i <= args@.len(),
            ts == texts(args@),
            forall|j: int| 0 <= j < i ==> value_of(trimmed(#[trigger] ts[j])) is Some,
        decreases args@.len() - i,
    {
        if parse_value(trim(args[i])).is_none() {
            proof {
                assert(value_of(trimmed(ts[i as int])) is None);
            }
            return false;
        }
        i += 1;
    }
    true
}

pub open spec fn with_step(t: TransformV, s: LinearStep) -> TransformV {
    TransformV { steps: t.steps.push(s), ..t }
}

/// The transform after one more call, or `None` for an unknown function.
pub open spec fn apply_call(t: TransformV, call: FnCall, fs: int, vp: Viewport) -> Option<
    TransformV,
> {
    let (name, args) = call;
    if name == "translatex"@ {
        Some(TransformV { tx: len_arg(args, 0, fs, vp), ..t })
    } else if name == "translatey"@ {
        Some(TransformV { ty: len_arg(args, 0, fs, vp), ..t })
    } else if name == "translate"@ || name == "translate3d"@ {
        Some(
            TransformV { tx: len_arg(args, 0, fs, vp), ty: len_arg(args, 1, fs, vp), ..t },
        )
    } else if name == "scale"@ || name == "scale3d"@ {
        let sx = num_arg(args, 0, ONE);
        let sy = num_arg(args, 1, sx);
        Some(with_step(t, LinearStep::Matrix(Linear { a: sx, b: 0, c: 0, d: sy })))
    } else if name == "scalex"@ {
        Some(
            with_step(
                t,
                LinearStep::Matrix(Linear { a: num_arg(args, 0, ONE), b: 0, c: 0, d: ONE }),
            ),
        )
    } else if name == "scaley"@ {
        Some(
            with_step(
                t,
                LinearStep::Matrix(Linear { a: ONE, b: 0, c: 0, d: num_arg(args, 0, ONE) }),
            ),
        )
    } else if name == "rotate"@ || name == "rotatez"@ {
        Some(with_step(t, LinearStep::Rotate(angle_arg(args))))
    } else if name == "skewx"@ {
        Some(with_step(t, LinearStep::SkewX(angle_arg(args))))
    } else if name == "skewy"@ {
        Some(with_step(t, LinearStep::SkewY(angle_arg(args))))
    } else if name == "matrix"@ && args.len() == 6 {
        if all_numbers(args) {
            Some(
                TransformV {
                    steps: t.steps.push(
                        LinearStep::Matrix(
                            Linear {
                                a: num_arg(args, 0, 0),
                                b: num_arg(args, 1, 0),
                                c: num_arg(args, 2, 0),
                                d: num_arg(args, 3, 0),
                            },
                        ),
                    ),
                    tx: LengthPct::Px(num_arg(args, 4, 0)),
                    ty: LengthPct::Px(num_arg(args, 5, 0)),
                },
            )
        } else {
            Some(t)
        }
    } else {
        None
    }
}

/// Apply one call to `acc`; `false` for an unknown function, which does nothing.
pub fn apply_transform_fn(
    acc: &mut RawTransform,
    name: &str,
    args: &Vec<&str>,
    font_size: i64,
    vp: Viewport,
) -> (r: bool)
    ensures
        match apply_call(old(acc)@, (name@, texts(args@)), font_size as int, vp) {
            Some(t) => r && final(acc)@ == t,
            None => !r && final(acc)@ == old(acc)@,
        },
{
    if same(name, "translatex") {
        acc.tx = len_or_zero(args, 0, font_size, vp);
    } else if same(name, "translatey") {
        acc.ty = len_or_zero(args, 0, font_size, vp);
    } else if same(name, "translate") || same(name, "translate3d") {
        acc.tx = len_or_zero(args, 0, font_size, vp);
        acc.ty = len_or_zero(args, 1, font_size, vp);
    } else if same(name, "scale") || same(name, "scale3d") {
        let sx: i64 = num_or(args, 0, ONE);
        let sy: i64 = num_or(args, 1, sx);
        acc.steps.push(LinearStep::Matrix(Linear { a: sx, b: 0, c: 0, d: sy }));
    } else if same(name, "scalex") {
        acc.steps.push(
            LinearStep::Matrix(Linear { a: num_or(args, 0, ONE), b: 0, c: 0, d: ONE }),
        );
    } else if same(name, "scaley") {
        acc.steps.push(
            LinearStep::Matrix(Linear { a: ONE, b: 0, c: 0, d: num_or(args, 0, ONE) }),
        );
    } else if same(name, "rotate") || same(name, "rotatez") {
        acc.steps.push(LinearStep::Rotate(angle_or_zero(args)));
    } else if same(name, "skewx") {
        acc.steps.push(LinearStep::SkewX(angle_or_zero(args)));
    } else if same(name, "skewy") {
        acc.steps.push(LinearStep::SkewY(angle_or_zero(args)));
    } else if same(name, "matrix") && args.len() == 6 {
        if are_numbers(args) {
            acc.steps.push(
                LinearStep::Matrix(
                    Linear {
                        a: num_or(args, 0, 0),
                        b: num_or(args, 1, 0),
                        c: num_or(args, 2, 0),
                        d: num_or(args, 3, 0),
                    },
                ),
            );
            acc.tx = LengthPct::Px(num_or(args, 4, 0));
            acc.ty = LengthPct::Px(num_or(args, 5, 0));
        }
    } else {
        return false;
    }
    true
}

/// The transform after the first `k` calls, and whether one was known.
pub open spec fn fold_calls(calls: Seq<FnCall>, fs: int, vp: Viewport, k: nat) -> (TransformV, bool)
    decreases k,
{
    if k == 0 {
        (
            TransformV { steps: Seq::empty(), tx: LengthPct::Px(0), ty: LengthPct::Px(0) },
            false,
        )
    } else {
        let (t, any) = fold_calls(calls, fs, vp, (k - 1) as nat);
        match apply_call(t, calls[k - 1], fs, vp) {
            Some(u) => (u, true),
            None => (t, any),
        }
    }
}

/// The transform of a style, where it has a known function.
pub open spec fn transform_in(m: StyleMap, fs: int, vp: Viewport) -> Option<TransformV> {
    match prop(m, "transform"@) {
        Some(v) => {
            let t = trimmed(v);
            if says_none(t) {
                None
            } else {
                let calls = calls_in(t);
                let (x, any) = fold_calls(calls, fs, vp, calls.len());
                if any {
                    Some(x)
                } else {
                    None
                }
            }
        },
        None => None,
    }
}

/// Parse the `transform` property. The linear functions multiply in order; a
/// translation keeps its `<length-percentage>` offsets.
pub fn transform_of(s: &ComputedStyle, font_size: i64, vp: Viewport) -> (r: Option<RawTransform>)
    ensures
        match r {
            Some(t) => transform_in(s@, font_size as int, vp) == Some(t@),
            None => transform_in(s@, font_size as int, vp) is None,
        },
{
    let value = match s.get("transform") {
        Some(v) => trim(v),
        None => return None,
    };
    if is_none_keyword(value) {
        return None;
    }
    let mut acc = RawTransform {
        steps: Vec::new(),
        tx: LengthPct::Px(0),
        ty: LengthPct::Px(0),
    };
    let mut any: bool = false;
    let calls = transform_functions(value);
    let ghost cs = calls_view(calls@);
    let mut k: usize = 0;
    while k < calls.len()
        invariant
            k <= calls@.len(),
            cs == calls_view(calls@),
            fold_calls(cs, font_size as int, vp, k as nat) == (acc@, any),
        decreases calls@.len() - k,
    {
        let known = apply_transform_fn(
            &mut acc,
            calls[k].0.as_str(),
            &calls[k].1,
            font_size,
            vp,
        );
        proof {
            assert(cs[k as int] == (calls@[k as int].0@, texts(calls@[k as int].1@)));
        }
        any = any || known;
        k += 1;
    }
    if any {
        Some(acc)
    } else {
        None
    }
}

} // verus!
