//! CSS grid: track lists, named areas, and line placement.

use vstd::prelude::*;
use vstd::string::*;

use crate::layout::length::{parse_px, px_of, Viewport, DEFAULT_FONT_SIZE};
use crate::layout::tokens::{css_value_tokens, value_tokens};
use crate::number::{natural_of, parse_natural, parse_value, value_of};
use crate::scan::{
    after_prefix, before_suffix, chars_of, cut_at, ends, run_without, same, split_once, string_of,
    strip_prefix, strip_suffix, text_of, texts, trim, trimmed,
};
use crate::style::{prop, ComputedStyle, StyleMap};

verus! {

// --------------------------------------------------------------------------
// tracks
// --------------------------------------------------------------------------

/// The least size of a track. Percentages are millionths of a percent.
#[derive(Debug, Clone, Copy, PartialEq, Eq, Structural)]
pub enum MinTrack {
    Auto,
    Length(i64),
    Percent(i64),
}

/// The greatest size of a track.
#[derive(Debug, Clone, Copy, PartialEq, Eq, Structural)]
pub enum MaxTrack {
    Auto,
    Fr(i64),
    Length(i64),
    Percent(i64),
}

/// One track of a grid.
#[derive(Debug, Clone, Copy, PartialEq, Eq, Structural)]
pub enum Track {
    Auto,
    MinContent,
    MaxContent,
    Fr(i64),
    Length(i64),
    Percent(i64),
    MinMax(MinTrack, MaxTrack),
}

/// The number before a suffix.
pub open spec fn number_before(t: Seq<char>, suffix: Seq<char>) -> Option<int> {
    match before_suffix(t, suffix) {
        Some(n) => value_of(trimmed(n)),
        None => None,
    }
}

fn number_with(t: &str, suffix: &str) -> (r: Option<i64>)
    ensures
        match r {
            Some(v) => number_before(t@, suffix@) == Some(v as int),
            None => number_before(t@, suffix@) is None,
        },
{
    match strip_suffix(t, suffix) {
        Some(n) => parse_value(trim(n)),
        None => None,
    }
}

/// The least side of a `minmax()`: a percentage or a length, else `auto`.
pub open spec fn min_track_of(s: Seq<char>, vp: Viewport) -> MinTrack {
    let t = trimmed(s);
    match number_before(t, "%"@) {
        Some(p) => MinTrack::Percent(p as i64),
        None => if ends(t, "fr"@) {
            MinTrack::Auto
        } else {
            match px_of(t, DEFAULT_FONT_SIZE as int, vp) {
                Some(x) => MinTrack::Length(x as i64),
                None => MinTrack::Auto,
            }
        },
    }
}

pub fn min_track(s: &str, vp: Viewport) -> (r: MinTrack)
    ensures
        r == min_track_of(s@, vp),
{
    let t = trim(s);
    if let Some(p) = number_with(t, "%") {
        return MinTrack::Percent(p);
    }
    if strip_suffix(t, "fr").is_none() {
        if let Some(px) = parse_px(t, DEFAULT_FONT_SIZE, vp) {
            return MinTrack::Length(px);
        }
    }
    MinTrack::Auto
}

/// The greatest side of a `minmax()`: a fraction, a percentage or a length, else
/// `auto`.
pub open spec fn max_track_of(s: Seq<char>, vp: Viewport) -> MaxTrack {
    let t = trimmed(s);
    match number_before(t, "fr"@) {
        Some(f) => MaxTrack::Fr(f as i64),
        None => match number_before(t, "%"@) {
            Some(p) => MaxTrack::Percent(p as i64),
            None => match px_of(t, DEFAULT_FONT_SIZE as int, vp) {
                Some(x) => MaxTrack::Length(x as i64),
                None => MaxTrack::Auto,
            },
        },
    }
}

pub fn max_track(s: &str, vp: Viewport) -> (r: MaxTrack)
    ensures
        r == max_track_of(s@, vp),
{
    let t = trim(s);
    if let Some(f) = number_with(t, "fr") {
        return MaxTrack::Fr(f);
    }
    if let Some(p) = number_with(t, "%") {
        return MaxTrack::Percent(p);
    }
    if let Some(px) = parse_px(t, DEFAULT_FONT_SIZE, vp) {
        return MaxTrack::Length(px);
    }
    MaxTrack::Auto
}

/// The two sides of a `minmax(a, b)`.
pub open spec fn minmax_of(t: Seq<char>, vp: Viewport) -> Option<Track> {
    match after_prefix(t, "minmax("@) {
        Some(b) => match before_suffix(b, ")"@) {
            Some(inner) => match cut_at(inner, ',') {
                Some((a, b)) => Some(Track::MinMax(min_track_of(a, vp), max_track_of(b, vp))),
                None => None,
            },
            None => None,
        },
        None => None,
    }
}

pub fn minmax_track(t: &str, vp: Viewport) -> (r: Option<Track>)
    ensures
        r == minmax_of(t@, vp),
{
    match strip_prefix(t, "minmax(") {
        Some(b) => match strip_suffix(b, ")") {
            Some(inner) => match split_once(inner, ',') {
                Some((a, b)) => Some(Track::MinMax(min_track(a, vp), max_track(b, vp))),
                None => None,
            },
            None => None,
        },
        None => None,
    }
}

/// The track that a token names; an unreadable one is `auto`.
pub open spec fn track_named(tok: Seq<char>, vp: Viewport) -> Track {
    let t = trimmed(tok);
    match minmax_of(t, vp) {
        Some(m) => m,
        None => if t == "min-content"@ {
            Track::MinContent
        } else if t == "max-content"@ {
            Track::MaxContent
        } else {
            match number_before(t, "fr"@) {
                Some(f) => Track::Fr(f as i64),
                None => match number_before(t, "%"@) {
                    Some(p) => Track::Percent(p as i64),
                    None => match px_of(t, DEFAULT_FONT_SIZE as int, vp) {
                        Some(x) => Track::Length(x as i64),
                        None => Track::Auto,
                    },
                },
            }
        },
    }
}

pub fn track_of(tok: &str, vp: Viewport) -> (r: Track)
    ensures
        r == track_named(tok@, vp),
{
    let t = trim(tok);
    if let Some(m) = minmax_track(t, vp) {
        return m;
    }
    if same(t, "min-content") {
        return Track::MinContent;
    }
    if same(t, "max-content") {
        return Track::MaxContent;
    }
    if let Some(f) = number_with(t, "fr") {
        return Track::Fr(f);
    }
    if let Some(p) = number_with(t, "%") {
        return Track::Percent(p);
    }
    if let Some(px) = parse_px(t, DEFAULT_FONT_SIZE, vp) {
        return Track::Length(px);
    }
    Track::Auto
}

/// The tracks that a list of tokens names.
pub open spec fn tracks_named(toks: Seq<Seq<char>>, vp: Viewport) -> Seq<Track> {
    Seq::new(toks.len(), |i: int| track_named(toks[i], vp))
}

/// `n` copies of a track list.
pub open spec fn repeated(one: Seq<Track>, n: nat) -> Seq<Track>
    decreases n,
{
    if n == 0 {
        Seq::empty()
    } else {
        repeated(one, (n - 1) as nat) + one
    }
}

/// The tracks of a `repeat(n, ...)`; another count is not expanded.
pub open spec fn repeat_of(tok: Seq<char>, vp: Viewport) -> Option<Seq<Track>> {
    match after_prefix(trimmed(tok), "repeat("@) {
        Some(b) => match before_suffix(b, ")"@) {
            Some(inner) => match cut_at(inner, ',') {
                Some((count, list)) => match natural_of(trimmed(count)) {
                    Some(n) if n <= usize::MAX => Some(
                        repeated(tracks_named(value_tokens(list), vp), n),
                    ),
                    _ => None,
                },
                None => None,
            },
            None => None,
        },
        None => None,
    }
}

fn tracks_of(value: &str, vp: Viewport) -> (r: Vec<Track>)
    ensures
        r@ == tracks_named(value_tokens(value@), vp),
{
    let toks = css_value_tokens(value);
    let ghost ts = texts(toks@);
    let mut out: Vec<Track> = Vec::new();
    let mut k: usize = 0;
    while k < toks.len()
        invariant
            k <= toks@.len(),
            ts == texts(toks@),
            out@.len() == k,
            forall|i: int| 0 <= i < k ==> #[trigger] out@[i] == track_named(ts[i], vp),
        decreases toks@.len() - k,
    {
        out.push(track_of(toks[k], vp));
        k += 1;
    }
    proof {
        assert(out@ =~= tracks_named(ts, vp));
    }
    out
}

fn append_tracks(out: &mut Vec<Track>, more: &Vec<Track>)
    ensures
        final(out)@ == old(out)@ + more@,
{
    let ghost start = out@;
    let mut k: usize = 0;
    proof {
        assert(start + more@.take(0) =~= start);
    }
    while k < more.len()
        invariant
            k <= more@.len(),
            out@ == start + more@.take(k as int),
        decreases more@.len() - k,
    {
        proof {
            assert(more@.take(k as int + 1) =~= more@.take(k as int).push(more@[k as int]));
            assert((start + more@.take(k as int)).push(more@[k as int]) =~= start + more@.take(
                k as int + 1,
            ));
        }
        out.push(more[k]);
        k += 1;
    }
    proof {
        assert(more@.take(k as int) =~= more@);
    }
}

proof fn lemma_repeated_nothing(one: Seq<Track>, n: nat)
    requires
        one.len() == 0,
    ensures
        repeated(one, n) == Seq::<Track>::empty(),
    decreases n,
{
    if n > 0 {
        lemma_repeated_nothing(one, (n - 1) as nat);
        assert(repeated(one, n) =~= Seq::<Track>::empty());
    }
}

/// Expand a `repeat(n, ...)` of a whole count.
pub fn parse_repeat(tok: &str, vp: Viewport) -> (r: Option<Vec<Track>>)
    ensures
        match r {
            Some(v) => repeat_of(tok@, vp) == Some(v@),
            None => repeat_of(tok@, vp) is None,
        },
{
    let body = match strip_prefix(trim(tok), "repeat(") {
        Some(b) => b,
        None => return None,
    };
    let inner = match strip_suffix(body, ")") {
        Some(i) => i,
        None => return None,
    };
    let (count, list) = match split_once(inner, ',') {
        Some(p) => p,
        None => return None,
    };
    let n: u64 = match parse_natural(trim(count), usize::MAX as u64) {
        Some(n) => n,
        None => return None,
    };
    let one = tracks_of(list, vp);
    let mut out: Vec<Track> = Vec::new();
    if one.len() == 0 {
        proof {
            lemma_repeated_nothing(one@, n as nat);
        }
        return Some(out);
    }
    let mut k: u64 = 0;
    while k < n
        invariant
            k <= n,
            out@ == repeated(one@, k as nat),
        decreases n - k,
    {
        append_tracks(&mut out, &one);
        k += 1;
    }
    Some(out)
}

/// The tracks of the first `k` tokens of a template, repeats expanded.
pub open spec fn template_upto(toks: Seq<Seq<char>>, vp: Viewport, k: nat) -> Seq<Track>
    decreases k,
{
    if k == 0 || k > toks.len() {
        Seq::empty()
    } else {
        let before = template_upto(toks, vp, (k - 1) as nat);
        match repeat_of(toks[k - 1], vp) {
            Some(r) => before + r,
            None => before.push(track_named(toks[k - 1], vp)),
        }
    }
}

/// The tracks of a template; blank and `none` have none.
pub open spec fn template(v: Option<Seq<char>>, vp: Viewport) -> Seq<Track> {
    match v {
        Some(v) => {
            let t = trimmed(v);
            if t.len() == 0 || t == "none"@ {
                Seq::empty()
            } else {
                let toks = value_tokens(t);
                template_upto(toks, vp, toks.len())
            }
        },
        None => Seq::empty(),
    }
}

/// Parse a `grid-template-columns` or `-rows` value.
pub fn grid_tracks(spec_text: Option<&str>, vp: Viewport) -> (r: Vec<Track>)
    ensures
        r@ == template(text_of(spec_text), vp),
{
    let mut out: Vec<Track> = Vec::new();
    let t = match spec_text {
        Some(v) => trim(v),
        None => return out,
    };
    if t.is_empty() || same(t, "none") {
        return out;
    }
    let toks = css_value_tokens(t);
    let ghost ts = texts(toks@);
    let mut k: usize = 0;
    while k < toks.len()
        invariant
            k <= toks@.len(),
            ts == texts(toks@),
            out@ == template_upto(ts, vp, k as nat),
        decreases toks@.len() - k,
    {
        match parse_repeat(toks[k], vp) {
            Some(rep) => append_tracks(&mut out, &rep),
            None => {
                out.push(track_of(toks[k], vp));
            },
        }
        k += 1;
    }
    out
}

// --------------------------------------------------------------------------
// quoted text
// --------------------------------------------------------------------------

pub open spec fn is_quote_mark(c: char) -> bool {
    c == '"' || c == '\''
}

/// What is left of `s` after the next `quote`.
pub open spec fn past_quote(s: Seq<char>, quote: char) -> Seq<char>
    decreases s.len(),
{
    if s.len() == 0 {
        s
    } else if s[0] == quote {
        s.skip(1)
    } else {
        past_quote(s.skip(1), quote)
    }
}

proof fn lemma_past_quote(s: Seq<char>, quote: char)
    ensures
        past_quote(s, quote).len() <= s.len(),
    decreases s.len(),
{
    if s.len() > 0 && s[0] != quote {
        lemma_past_quote(s.skip(1), quote);
    }
}

/// `s` without its quoted parts.
pub open spec fn unquoted_parts(s: Seq<char>) -> Seq<char>
    decreases s.len(),
{
    if s.len() == 0 {
        Seq::empty()
    } else if is_quote_mark(s[0]) {
        let rest = past_quote(s.skip(1), s[0]);
        if rest.len() < s.len() {
            unquoted_parts(rest)
        } else {
            Seq::empty()
        }
    } else {
        seq![s[0]] + unquoted_parts(s.skip(1))
    }
}

/// The index after the next `quote`, or the end.
fn skip_quoted(x: &Vec<char>, from: usize, quote: char) -> (r: usize)
    requires
        from <= x@.len(),
    ensures
        from <= r <= x@.len(),
        x@.skip(r as int) == past_quote(x@.skip(from as int), quote),
{
    let mut i: usize = from;
    while i < x.len()
        invariant
            from <= i <= x@.len(),
            past_quote(x@.skip(from as int), quote) == past_quote(x@.skip(i as int), quote),
        decreases x@.len() - i,
    {
        proof {
            assert(x@.skip(i as int)[0] == x@[i as int]);
            assert(x@.skip(i as int).skip(1) =~= x@.skip(i as int + 1));
        }
        if x[i] == quote {
            return i + 1;
        }
        i += 1;
    }
    i
}

/// Remove the quoted parts of a value.
pub fn strip_quoted(value: &str) -> (r: String)
    ensures
        r@ == unquoted_parts(value@),
{
    let x = chars_of(value);
    let mut out: Vec<char> = Vec::new();
    let mut i: usize = 0;
    proof {
        assert(value@.skip(0) =~= value@);
        assert(out@ + unquoted_parts(value@) =~= unquoted_parts(value@));
    }
    while i < x.len()
        invariant
            x@ == value@,
            i <= x@.len(),
            out@ + unquoted_parts(value@.skip(i as int)) == unquoted_parts(value@),
        decreases x@.len() - i,
    {
        let ghost t = value@.skip(i as int);
        proof {
            assert(t[0] == x@[i as int]);
            assert(t.skip(1) =~= value@.skip(i as int + 1));
        }
        if x[i] == '"' || x[i] == '\'' {
            proof {
                lemma_past_quote(t.skip(1), t[0]);
            }
            i = skip_quoted(&x, i + 1, x[i]);
        } else {
            proof {
                let rest = unquoted_parts(t.skip(1));
                assert(out@.push(x@[i as int]) + rest =~= out@ + (seq![t[0]] + rest));
            }
            out.push(x[i]);
            i += 1;
        }
    }
    proof {
        assert(value@.skip(i as int).len() == 0);
        assert(out@ + Seq::<char>::empty() =~= out@);
    }
    string_of(out.as_slice())
}

/// The quoted strings of a value; an unclosed one ends the list.
pub open spec fn quoted_in(s: Seq<char>) -> Seq<Seq<char>>
    decreases s.len(),
{
    let n = run_without(s, '"', '\'') as int;
    if n >= s.len() {
        Seq::empty()
    } else {
        let rest = s.skip(n + 1);
        let k = run_without(rest, s[n], s[n]) as int;
        if k >= rest.len() {
            Seq::empty()
        } else {
            seq![rest.take(k)] + quoted_in(rest.skip(k + 1))
        }
    }
}

fn find_either(x: &Vec<char>, from: usize, a: char, b: char) -> (r: usize)
    requires
        from <= x@.len(),
    ensures
        from <= r <= x@.len(),
        r - from == run_without(x@.skip(from as int), a, b),
{
    let mut i: usize = from;
    while i < x.len() && x[i] != a && x[i] != b
        invariant
            from <= i <= x@.len(),
            forall|j: int| from <= j < i ==> x@[j] != a && x@[j] != b,
        decreases x@.len() - i,
    {
        i += 1;
    }
    proof {
        let t = x@.skip(from as int);
        assert forall|j: int| 0 <= j < i - from implies t[j] != a && t[j] != b by {
            assert(t[j] == x@[from + j]);
        }
        if i < x@.len() {
            assert(t[i - from] == x@[i as int]);
        }
        crate::scan::lemma_run_is(t, a, b, i - from);
    }
    i
}

/// The quoted row strings of a `grid-template-areas` value.
pub fn quoted_rows<'a>(value: &'a str) -> (r: Vec<&'a str>)
    ensures
        texts(r@) == quoted_in(value@),
{
    let x = chars_of(value);
    let mut rows: Vec<&'a str> = Vec::new();
    let mut i: usize = 0;
    proof {
        assert(value@.skip(0) =~= value@);
        assert(texts(rows@) + quoted_in(value@) =~= quoted_in(value@));
    }
    loop
        invariant
            x@ == value@,
            i <= x@.len(),
            texts(rows@) + quoted_in(value@.skip(i as int)) == quoted_in(value@),
        decreases x@.len() - i,
    {
        let ghost s = value@.skip(i as int);
        let open: usize = find_either(&x, i, '"', '\'');
        if open >= x.len() {
            proof {
                assert(texts(rows@) + Seq::<Seq<char>>::empty() =~= texts(rows@));
            }
            return rows;
        }
        let quote: char = x[open];
        let start: usize = open + 1;
        let close: usize = find_either(&x, start, quote, quote);
        proof {
            let n = open - i;
            assert(s[n] == x@[open as int]);
            assert(s.skip(n + 1) =~= value@.skip(start as int));
        }
        if close >= x.len() {
            proof {
                assert(texts(rows@) + Seq::<Seq<char>>::empty() =~= texts(rows@));
            }
            return rows;
        }
        let row = value.substring_char(start, close);
        proof {
            let rest = value@.skip(start as int);
            let k = close - start;
            assert(rest.take(k) =~= row@);
            assert(rest.skip(k + 1) =~= value@.skip(close as int + 1));
            let more = quoted_in(value@.skip(close as int + 1));
            assert(quoted_in(s) == seq![row@] + more);
            assert(texts(rows@.push(row)) + more =~= texts(rows@) + (seq![row@] + more));
        }
        rows.push(row);
        i = close + 1;
    }
}

/// The rows or the columns side of the `grid-template` or `grid` shorthand, its
/// quoted rows removed.
pub open spec fn shorthand_side(m: StyleMap, want_cols: bool) -> Option<Seq<char>> {
    let value = match prop(m, "grid-template"@) {
        Some(v) => Some(v),
        None => prop(m, "grid"@),
    };
    match value {
        Some(v) => match cut_at(v, '/') {
            Some((rows, cols)) => {
                let part = trimmed(
                    unquoted_parts(
                        if want_cols {
                            cols
                        } else {
                            rows
                        },
                    ),
                );
                if part.len() > 0 {
                    Some(part)
                } else {
                    None
                }
            },
            None => None,
        },
        None => None,
    }
}

pub fn shorthand_axis(s: &ComputedStyle, want_cols: bool) -> (r: Option<String>)
    ensures
        match r {
            Some(t) => shorthand_side(s@, want_cols) == Some(t@),
            None => shorthand_side(s@, want_cols) is None,
        },
{
    let value = match s.get("grid-template") {
        Some(v) => v,
        None => match s.get("grid") {
            Some(v) => v,
            None => return None,
        },
    };
    match split_once(value, '/') {
        Some((rows, cols)) => {
            let part = strip_quoted(
                if want_cols {
                    cols
                } else {
                    rows
                },
            );
            let t = trim(part.as_str());
            if !t.is_empty() {
                Some(t.to_owned())
            } else {
                None
            }
        },
        None => None,
    }
}

/// The tracks of one axis: its own property, else that side of the shorthand.
pub open spec fn axis_template(m: StyleMap, longhand: Seq<char>, want_cols: bool, vp: Viewport) -> Seq<Track> {
    let own = template(prop(m, longhand), vp);
    if own.len() > 0 {
        own
    } else {
        template(shorthand_side(m, want_cols), vp)
    }
}

pub fn axis_tracks(s: &ComputedStyle, longhand: &str, want_cols: bool, vp: Viewport) -> (r: Vec<Track>)
    ensures
        r@ == axis_template(s@, longhand@, want_cols, vp),
{
    let own = grid_tracks(s.get(longhand), vp);
    if own.len() > 0 {
        return own;
    }
    match shorthand_axis(s, want_cols) {
        Some(t) => grid_tracks(Some(t.as_str()), vp),
        None => grid_tracks(None, vp),
    }
}

} // verus!
