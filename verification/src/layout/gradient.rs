//! `linear-gradient(...)` backgrounds.

use vstd::prelude::*;
use vstd::string::*;

use crate::layout::color::{color_of, parse_color, Rgba};
use crate::layout::fragment::{GradientStop, GradientV, LinearGradient};
use crate::layout::tokens::{
    balanced, balanced_paren_slice, comma_layers, css_value_tokens, top_level_comma_split,
    value_tokens,
};
use crate::number::{lemma_number_bounds, parse_value, round_div, scale, value_of, ONE};
use crate::scan::{
    after_prefix, before_suffix, find, index_of, same, strip_prefix, strip_suffix, text_of, texts,
    trim, trimmed, words, words_in,
};
use crate::style::{prop, ComputedStyle, StyleMap};

verus! {

/// The background value that may name a gradient.
pub open spec fn gradient_source(m: StyleMap) -> Option<Seq<char>> {
    match prop(m, "background-image"@) {
        Some(v) => Some(v),
        None => prop(m, "background"@),
    }
}

/// The balanced text inside the first `linear-gradient(...)`.
pub open spec fn gradient_inner(m: StyleMap) -> Option<Seq<char>> {
    match gradient_source(m) {
        Some(v) => {
            let raw = trimmed(v);
            match index_of(raw, "linear-gradient("@) {
                Some(i) => balanced(raw.skip(i + "linear-gradient("@.len())),
                None => None,
            }
        },
        None => None,
    }
}

pub fn linear_gradient_inner(s: &ComputedStyle) -> (r: Option<&str>)
    ensures
        text_of(r) == gradient_inner(s@),
{
    let source = match s.get("background-image") {
        Some(v) => Some(v),
        None => s.get("background"),
    };
    let raw = match source {
        Some(v) => trim(v),
        None => return None,
    };
    let open = "linear-gradient(";
    match find(raw, open) {
        Some(i) => {
            let end: usize = raw.unicode_len();
            let from: usize = i + open.unicode_len();
            let rest = raw.substring_char(from, end);
            proof {
                assert(rest@ =~= raw@.skip(from as int));
            }
            balanced_paren_slice(rest)
        },
        None => None,
    }
}

// --------------------------------------------------------------------------
// direction
// --------------------------------------------------------------------------

/// The angle, in millionths of a degree, that one side or a corner names.
pub open spec fn side_angle(w: Seq<Seq<char>>) -> Option<int> {
    let two = |a: Seq<char>, b: Seq<char>|
        w.len() == 2 && ((w[0] == a && w[1] == b) || (w[0] == b && w[1] == a));
    if w.len() == 1 && w[0] == "top"@ {
        Some(0)
    } else if w.len() == 1 && w[0] == "right"@ {
        Some(90_000_000)
    } else if w.len() == 1 && w[0] == "bottom"@ {
        Some(180_000_000)
    } else if w.len() == 1 && w[0] == "left"@ {
        Some(270_000_000)
    } else if two("top"@, "right"@) {
        Some(45_000_000)
    } else if two("bottom"@, "right"@) {
        Some(135_000_000)
    } else if two("bottom"@, "left"@) {
        Some(225_000_000)
    } else if two("top"@, "left"@) {
        Some(315_000_000)
    } else {
        None
    }
}

/// The angle that a direction token names; another token is no direction.
pub open spec fn direction(tok: Seq<char>) -> Option<int> {
    let t = trimmed(tok);
    match before_suffix(t, "deg"@) {
        Some(n) => value_of(trimmed(n)),
        None => match after_prefix(t, "to "@) {
            Some(rest) => side_angle(words_in(rest)),
            None => None,
        },
    }
}

fn is_pair(w: &Vec<&str>, a: &str, b: &str) -> (r: bool)
    ensures
        r == (w@.len() == 2 && ((w@[0]@ == a@ && w@[1]@ == b@) || (w@[0]@ == b@ && w@[1]@
            == a@))),
{
    w.len() == 2 && ((same(w[0], a) && same(w[1], b)) || (same(w[0], b) && same(w[1], a)))
}

/// A gradient direction as an angle clockwise from the top, or `None` where the
/// token is no direction.
pub fn parse_gradient_direction(tok: &str) -> (r: Option<i64>)
    ensures
        match r {
            Some(a) => direction(tok@) == Some(a as int),
            None => direction(tok@) is None,
        },
{
    let t = trim(tok);
    if let Some(n) = strip_suffix(t, "deg") {
        return parse_value(trim(n));
    }
    let w = match strip_prefix(t, "to ") {
        Some(rest) => words(rest),
        None => return None,
    };
    if w.len() == 1 && same(w[0], "top") {
        Some(0)
    } else if w.len() == 1 && same(w[0], "right") {
        Some(90_000_000)
    } else if w.len() == 1 && same(w[0], "bottom") {
        Some(180_000_000)
    } else if w.len() == 1 && same(w[0], "left") {
        Some(270_000_000)
    } else if is_pair(&w, "top", "right") {
        Some(45_000_000)
    } else if is_pair(&w, "bottom", "right") {
        Some(135_000_000)
    } else if is_pair(&w, "bottom", "left") {
        Some(225_000_000)
    } else if is_pair(&w, "top", "left") {
        Some(315_000_000)
    } else {
        None
    }
}

// --------------------------------------------------------------------------
// stops
// --------------------------------------------------------------------------

/// A position between zero and one, in millionths.
pub open spec fn unit_clamp(x: int) -> int {
    if x < 0 {
        0
    } else if x > ONE {
        ONE as int
    } else {
        x
    }
}

/// The explicit position of a stop, a percentage.
pub open spec fn stop_pos(tok: Seq<char>) -> Option<i64> {
    match before_suffix(tok, "%"@) {
        Some(p) => match value_of(trimmed(p)) {
            Some(v) => Some(unit_clamp(round_div(v, 100)) as i64),
            None => None,
        },
        None => None,
    }
}

/// One stop: a color and perhaps a position.
pub open spec fn stop_of(tok: Seq<char>) -> Option<(Rgba, Option<i64>)> {
    let p = value_tokens(tok);
    if p.len() == 0 {
        None
    } else {
        match color_of(p[0]) {
            Some(c) => Some(
                (
                    c,
                    if p.len() > 1 {
                        stop_pos(p[1])
                    } else {
                        None
                    },
                ),
            ),
            None => None,
        }
    }
}

/// Parse one stop (`<color> [<position>]?`).
pub fn parse_gradient_stop(tok: &str) -> (r: Option<(Rgba, Option<i64>)>)
    ensures
        r == stop_of(tok@),
{
    let p = css_value_tokens(tok);
    if p.len() == 0 {
        return None;
    }
    let color: Rgba = match parse_color(p[0]) {
        Some(c) => c,
        None => return None,
    };
    let mut pos: Option<i64> = None;
    if p.len() > 1 {
        if let Some(n) = strip_suffix(p[1], "%") {
            if let Some(v) = parse_value(trim(n)) {
                let x: i64 = scale(v, 1, 100);
                proof {
                    lemma_number_bounds(trimmed(n@));
                    assert(v * 1 == v);
                }
                pos = Some(
                    if x < 0 {
                        0
                    } else if x > ONE {
                        ONE
                    } else {
                        x
                    },
                );
            }
        }
    }
    Some((color, pos))
}

/// The position of an unpositioned endpoint: zero first, one last.
pub open spec fn endpoint(i: int, n: int) -> Option<i64> {
    if i == 0 {
        Some(0)
    } else if i == n - 1 {
        Some(ONE)
    } else {
        None
    }
}

pub fn endpoint_default(i: usize, n: usize) -> (r: Option<i64>)
    requires
        i < n,
    ensures
        r == endpoint(i as int, n as int),
{
    if i == 0 {
        Some(0)
    } else if i == n - 1 {
        Some(ONE)
    } else {
        None
    }
}

/// The position of stop `i` before the gaps are filled.
pub open spec fn pinned(toks: Seq<Seq<char>>, i: int) -> Option<i64> {
    match stop_of(toks[i]) {
        Some((_, Some(p))) => Some(p),
        _ => endpoint(i, toks.len() as int),
    }
}

/// The nearest positioned stop at or before `i`.
pub open spec fn prev_known(p: Seq<Option<i64>>, i: int) -> int
    decreases i,
{
    if i <= 0 || p[i] is Some {
        i
    } else {
        prev_known(p, i - 1)
    }
}

/// The nearest positioned stop at or after `i`.
pub open spec fn next_known(p: Seq<Option<i64>>, i: int) -> int
    decreases p.len() - i,
{
    if i >= p.len() - 1 || p[i] is Some {
        i
    } else {
        next_known(p, i + 1)
    }
}

/// The position of stop `i`: its own, or evenly spread between its positioned
/// neighbours.
pub open spec fn spread(p: Seq<Option<i64>>, i: int) -> int {
    match p[i] {
        Some(v) => v as int,
        None => {
            let a = prev_known(p, i);
            let b = next_known(p, i);
            let (p0, p1) = (p[a]->0 as int, p[b]->0 as int);
            p0 + round_div((p1 - p0) * (i - a), b - a)
        },
    }
}

/// Positions with both endpoints known and every known one from zero to one.
pub open spec fn positions_ok(p: Seq<Option<i64>>) -> bool {
    &&& p.len() > 0 ==> p[0] is Some && p[p.len() - 1] is Some
    &&& forall|i: int|
        0 <= i < p.len() ==> match #[trigger] p[i] {
            Some(v) => 0 <= v <= ONE,
            None => true,
        }
}

proof fn lemma_neighbours(p: Seq<Option<i64>>, i: int)
    requires
        positions_ok(p),
        0 <= i < p.len(),
        p[i] is None,
    ensures
        0 <= prev_known(p, i) < i < next_known(p, i) < p.len(),
        p[prev_known(p, i)] is Some,
        p[next_known(p, i)] is Some,
{
    lemma_prev(p, i);
    lemma_next(p, i);
}

proof fn lemma_prev(p: Seq<Option<i64>>, i: int)
    requires
        p.len() > 0,
        p[0] is Some,
        0 <= i < p.len(),
    ensures
        0 <= prev_known(p, i) <= i,
        p[prev_known(p, i)] is Some,
        p[i] is None ==> prev_known(p, i) < i,
    decreases i,
{
    if i > 0 && p[i] is None {
        lemma_prev(p, i - 1);
    }
}

proof fn lemma_next(p: Seq<Option<i64>>, i: int)
    requires
        p.len() > 0,
        p[p.len() - 1] is Some,
        0 <= i < p.len(),
    ensures
        i <= next_known(p, i) < p.len(),
        p[next_known(p, i)] is Some,
        p[i] is None ==> i < next_known(p, i),
    decreases p.len() - i,
{
    if i < p.len() - 1 && p[i] is None {
        lemma_next(p, i + 1);
    }
}

/// A fraction `k / n` of a distance of at most one is at most that distance.
proof fn lemma_part(d: int, k: int, n: int)
    requires
        -ONE <= d <= ONE,
        0 < k < n,
    ensures
        d >= 0 ==> 0 <= round_div(d * k, n) <= d,
        d <= 0 ==> d <= round_div(d * k, n) <= 0,
{
    if d >= 0 {
        lemma_part_up(d, k, n);
    } else {
        lemma_part_up(-d, k, n);
        assert(-(d * k) == (-d) * k) by (nonlinear_arith);
        assert(d * k < 0) by (nonlinear_arith)
            requires
                d < 0,
                k > 0,
        ;
    }
}

proof fn lemma_part_up(d: int, k: int, n: int)
    requires
        0 <= d,
        0 < k < n,
    ensures
        0 <= d * k,
        0 <= round_div(d * k, n) <= d,
{
    let a = d * k;
    assert(0 <= a <= d * n - d) by (nonlinear_arith)
        requires
            a == d * k,
            0 <= d,
            0 < k < n,
            k <= n - 1,
    ;
    let q = a / n;
    let r = a % n;
    assert(a == q * n + r && 0 <= r < n && q >= 0) by (nonlinear_arith)
        requires
            q == a / n,
            r == a % n,
            n > 0,
            a >= 0,
    ;
    if 2 * r >= n {
        assert(q + 1 <= d) by (nonlinear_arith)
            requires
                q * n + r <= d * n - d,
                2 * r >= n,
                n > 0,
                d >= 0,
        ;
    } else {
        assert(q <= d) by (nonlinear_arith)
            requires
                q * n + r <= d * n - d,
                r >= 0,
                n > 0,
                d >= 0,
        ;
    }
}

/// Every spread position lies between zero and one.
pub proof fn lemma_spread_in_range(p: Seq<Option<i64>>, i: int)
    requires
        positions_ok(p),
        0 <= i < p.len(),
    ensures
        0 <= spread(p, i) <= ONE,
{
    if p[i] is None {
        lemma_neighbours(p, i);
        let a = prev_known(p, i);
        let b = next_known(p, i);
        assert(p[a] is Some && p[b] is Some);
        let d = p[b]->0 as int - p[a]->0 as int;
        lemma_part(d, i - a, b - a);
    }
}

/// Fill the unpositioned stops by even interpolation.
pub fn fill_position_gaps(p: &Vec<Option<i64>>) -> (r: Vec<i64>)
    requires
        positions_ok(p@),
    ensures
        r@.len() == p@.len(),
        forall|i: int| 0 <= i < r@.len() ==> #[trigger] r@[i] == spread(p@, i),
{
    let n: usize = p.len();
    let mut out: Vec<i64> = Vec::new();
    let mut i: usize = 0;
    while i < n
        invariant
            n == p@.len(),
            i <= n,
            positions_ok(p@),
            out@.len() == i,
            forall|j: int| 0 <= j < i ==> #[trigger] out@[j] == spread(p@, j),
        decreases n - i,
    {
        proof {
            lemma_spread_in_range(p@, i as int);
        }
        match p[i] {
            Some(v) => {
                out.push(v);
            },
            None => {
                proof {
                    lemma_neighbours(p@, i as int);
                }
                let mut a: usize = i;
                while a > 0 && p[a].is_none()
                    invariant
                        a <= i < n,
                        n == p@.len(),
                        prev_known(p@, i as int) == prev_known(p@, a as int),
                    decreases a,
                {
                    a -= 1;
                }
                let mut b: usize = i;
                while b < n - 1 && p[b].is_none()
                    invariant
                        i <= b < n,
                        n == p@.len(),
                        next_known(p@, i as int) == next_known(p@, b as int),
                    decreases n - b,
                {
                    b += 1;
                }
                proof {
                    assert(p@[a as int] is Some);
                    assert(p@[b as int] is Some);
                }
                let p0: i64 = match p[a] {
                    Some(v) => v,
                    None => 0,
                };
                let p1: i64 = match p[b] {
                    Some(v) => v,
                    None => 0,
                };
                let ghost d = p1 as int - p0 as int;
                proof {
                    lemma_part(d, i - a, b - a);
                }
                out.push(p0 + part_of(p1 - p0, i - a, b - a));
            },
        }
        i += 1;
    }
    out
}

fn part_of(d: i64, k: usize, n: usize) -> (r: i64)
    requires
        -ONE <= d <= ONE,
        0 < k < n,
    ensures
        r == round_div(d as int * k as int, n as int),
{
    proof {
        lemma_part(d as int, k as int, n as int);
        assert(-1_000_000 * 0x1_0000_0000_0000_0000 <= d * k <= 1_000_000
            * 0x1_0000_0000_0000_0000) by (nonlinear_arith)
            requires
                -1_000_000 <= d <= 1_000_000,
                0 < k <= 0x1_0000_0000_0000_0000,
        ;
    }
    let a: i128 = d as i128 * k as i128;
    let m: i128 = if a >= 0 {
        a
    } else {
        -a
    };
    let den: i128 = n as i128;
    let q: i128 = m / den;
    proof {
        assert(0 <= q <= m) by (nonlinear_arith)
            requires
                q == m as int / den as int,
                m >= 0,
                den > 0,
        ;
    }
    let near: i128 = if 2 * (m % den) >= den {
        q + 1
    } else {
        q
    };
    if a >= 0 {
        near as i64
    } else {
        (-near) as i64
    }
}

/// The positions of the stops before the gaps are filled.
pub open spec fn pinned_all(toks: Seq<Seq<char>>) -> Seq<Option<i64>> {
    Seq::new(toks.len(), |i: int| pinned(toks, i))
}

/// Every token names a color.
pub open spec fn all_stops(toks: Seq<Seq<char>>) -> bool {
    forall|i: int| 0 <= i < toks.len() ==> stop_of(#[trigger] toks[i]) is Some
}

/// The positioned stops of a token list.
pub open spec fn stops_of(toks: Seq<Seq<char>>) -> Option<Seq<GradientStop>> {
    if all_stops(toks) {
        Some(
            Seq::new(
                toks.len(),
                |i: int|
                    GradientStop {
                        color: (stop_of(toks[i])->0).0,
                        pos: spread(pinned_all(toks), i) as i64,
                    },
            ),
        )
    } else {
        None
    }
}

/// Explicit positions lie between zero and one, and the endpoints have one.
pub proof fn lemma_pinned_ok(toks: Seq<Seq<char>>)
    requires
        all_stops(toks),
    ensures
        positions_ok(pinned_all(toks)),
{
    let p = pinned_all(toks);
    assert forall|i: int| 0 <= i < p.len() implies match #[trigger] p[i] {
        Some(v) => 0 <= v <= ONE,
        None => true,
    } by {
        assert(p[i] == pinned(toks, i));
        assert(stop_of(toks[i]) is Some);
    }
    if toks.len() > 0 {
        assert(p[0] == pinned(toks, 0));
        assert(p[p.len() - 1] == pinned(toks, toks.len() - 1));
    }
}

/// Resolve color-stop tokens to positioned stops; `None` where one names no
/// color.
pub fn gradient_stops(toks: &Vec<&str>) -> (r: Option<Vec<GradientStop>>)
    ensures
        match r {
            Some(v) => stops_of(texts(toks@)) == Some(v@),
            None => stops_of(texts(toks@)) is None,
        },
{
    let n: usize = toks.len();
    let ghost ts = texts(toks@);
    let mut colors: Vec<Rgba> = Vec::new();
    let mut positions: Vec<Option<i64>> = Vec::new();
    let mut i: usize = 0;
    while i < n
        invariant
            n == toks@.len(),
            ts == texts(toks@),
            i <= n,
            colors@.len() == i,
            positions@.len() == i,
            forall|j: int| 0 <= j < i ==> stop_of(#[trigger] ts[j]) is Some,
            forall|j: int| 0 <= j < i ==> #[trigger] colors@[j] == (stop_of(ts[j])->0).0,
            forall|j: int| 0 <= j < i ==> #[trigger] positions@[j] == pinned(ts, j),
        decreases n - i,
    {
        match parse_gradient_stop(toks[i]) {
            Some((color, pos)) => {
                colors.push(color);
                let at: Option<i64> = match pos {
                    Some(p) => Some(p),
                    None => endpoint_default(i, n),
                };
                positions.push(at);
            },
            None => {
                proof {
                    assert(stop_of(ts[i as int]) is None);
                }
                return None;
            },
        }
        i += 1;
    }
    proof {
        assert(all_stops(ts));
        assert(positions@ =~= pinned_all(ts));
        lemma_pinned_ok(ts);
    }
    let filled = fill_position_gaps(&positions);
    let mut out: Vec<GradientStop> = Vec::new();
    let mut k: usize = 0;
    while k < n
        invariant
            n == ts.len(),
            colors@.len() == n,
            filled@.len() == n,
            k <= n,
            out@.len() == k,
            forall|j: int| 0 <= j < n ==> #[trigger] colors@[j] == (stop_of(ts[j])->0).0,
            forall|j: int| 0 <= j < n ==> #[trigger] filled@[j] == spread(pinned_all(ts), j),
            forall|j: int|
                0 <= j < k ==> #[trigger] out@[j] == (GradientStop {
                    color: (stop_of(ts[j])->0).0,
                    pos: spread(pinned_all(ts), j) as i64,
                }),
        decreases n - k,
    {
        out.push(GradientStop { color: colors[k], pos: filled[k] });
        k += 1;
    }
    proof {
        assert(out@ =~= stops_of(ts)->0);
    }
    Some(out)
}

// --------------------------------------------------------------------------
// the gradient
// --------------------------------------------------------------------------

/// The gradient that the layers inside `linear-gradient(...)` write.
pub open spec fn gradient_of_layers(l: Seq<Seq<char>>) -> Option<GradientV> {
    if l.len() == 0 {
        None
    } else {
        let (angle, toks) = match direction(l[0]) {
            Some(a) => (a, l.skip(1)),
            None => (180_000_000int, l),
        };
        match stops_of(toks) {
            Some(s) if s.len() >= 2 => Some(GradientV { angle, stops: s }),
            _ => None,
        }
    }
}

/// The `linear-gradient(...)` of a style.
pub open spec fn gradient_in(m: StyleMap) -> Option<GradientV> {
    match gradient_inner(m) {
        Some(inner) => gradient_of_layers(comma_layers(inner)),
        None => None,
    }
}

/// The `linear-gradient(...)` of `background-image`, else of the `background`
/// shorthand. The direction defaults to the bottom; stops without a position
/// spread evenly. At least two stops are needed.
pub fn linear_gradient_of(s: &ComputedStyle) -> (r: Option<LinearGradient>)
    ensures
        match r {
            Some(g) => gradient_in(s@) == Some(g@),
            None => gradient_in(s@) is None,
        },
{
    let inner = match linear_gradient_inner(s) {
        Some(i) => i,
        None => return None,
    };
    let mut parts = top_level_comma_split(inner);
    let ghost layers = texts(parts@);
    if parts.len() == 0 {
        return None;
    }
    let angle: i64 = match parse_gradient_direction(parts[0]) {
        Some(a) => {
            parts.remove(0);
            proof {
                assert(texts(parts@) =~= layers.skip(1));
            }
            a
        },
        None => 180_000_000,
    };
    match gradient_stops(&parts) {
        Some(stops) => if stops.len() >= 2 {
            Some(LinearGradient { angle_deg: angle, stops })
        } else {
            None
        },
        None => None,
    }
}

/// Every stop of a gradient lies between zero and one.
pub proof fn law_stops_in_range(m: StyleMap)
    ensures
        gradient_in(m) matches Some(g) ==> g.stops.len() >= 2 && forall|i: int|
            0 <= i < g.stops.len() ==> 0 <= (#[trigger] g.stops[i]).pos <= ONE,
{
    if let Some(g) = gradient_in(m) {
        let l = comma_layers(gradient_inner(m)->0);
        let toks = match direction(l[0]) {
            Some(a) => l.skip(1),
            None => l,
        };
        lemma_pinned_ok(toks);
        assert forall|i: int| 0 <= i < g.stops.len() implies 0 <= (#[trigger] g.stops[i]).pos
            <= ONE by {
            lemma_spread_in_range(pinned_all(toks), i);
        }
    }
}

} // verus!
