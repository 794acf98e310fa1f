//! What lengths, colors, edges and borders come to, by the text that writes them.

use vstd::prelude::*;
use vstd::string::*;

use crate::layout::color::{
    byte_of, color_of, hex_value, in_parens, ink_byte, ink_of, print_color_of, rgb_color, Rgba,
};
use crate::layout::edges::{
    BorderEdges, border_fold, border_shorthand, border_side_in, border_width, borders_in, edge_of,
    edges_in,
};
use crate::layout::length::{
    calc_fold, calc_of, calc_term, calc_total, length_pct, px_of, starts_unit, unit_at, CalcSum,
    LengthPct, Viewport,
};
use crate::layout::valuelaws::{lemma_trimmed_is, unset};
use crate::number::{round_div, value_of, LIMIT};
use crate::readlaws::{law_prefixes_and_suffixes, law_rounding, law_splitting};
use crate::scan::{is_space, lower, lower_char, occurs_at, split_at, trimmed, words_in};
use crate::style::StyleMap;

verus! {

// --------------------------------------------------------------------------
// lengths
// --------------------------------------------------------------------------

/// Whether `w` writes the number `v` and holds nothing that could start a unit.
pub open spec fn writes(w: Seq<char>, v: int) -> bool {
    &&& w.len() > 0
    &&& value_of(w) == Some(v)
    &&& forall|i: int| 0 <= i < w.len() ==> !starts_unit(#[trigger] w[i]) && !is_space(w[i])
}

proof fn lemma_unit_split(w: Seq<char>, u: Seq<char>)
    requires
        forall|i: int| 0 <= i < w.len() ==> !starts_unit(#[trigger] w[i]),
        u.len() > 0 ==> starts_unit(u[0]),
    ensures
        unit_at(w + u) == w.len(),
    decreases w.len(),
{
    if w.len() == 0 {
        assert(w + u =~= u);
    } else {
        assert((w + u)[0] == w[0]);
        assert((w + u).skip(1) =~= w.skip(1) + u);
        assert forall|i: int| 0 <= i < w.skip(1).len() implies !starts_unit(
            #[trigger] w.skip(1)[i],
        ) by {
            assert(w.skip(1)[i] == w[i + 1]);
        }
        lemma_unit_split(w.skip(1), u);
    }
}

pub proof fn lemma_number_with_unit(w: Seq<char>, v: int, u: Seq<char>, fs: int, vp: Viewport)
    requires
        writes(w, v),
        u.len() > 0 ==> starts_unit(u[0]) && !is_space(u.last()),
    ensures
        trimmed(w + u) == w + u,
        (w + u).skip(unit_at(w + u) as int) == u,
        (w + u).take(unit_at(w + u) as int) == w,
        calc_of(w + u, fs, vp) is None,
        lower(w + u) != lower("auto"@),
{
    let t = w + u;
    lemma_unit_split(w, u);
    assert(!starts_unit(w[0]) && !is_space(w[0]) && !is_space(w.last()));
    assert(t[0] == w[0]);
    if u.len() > 0 {
        assert(t.last() == u.last());
    } else {
        assert(t.last() == w.last());
    }
    lemma_trimmed_is(t);
    assert(t.skip(w.len() as int) =~= u);
    assert(t.take(w.len() as int) =~= w);
    reveal_strlit("calc(");
    reveal_strlit("CALC(");
    reveal_strlit("auto");
    assert("calc("@.len() == 5 && "calc("@[0] == 'c' && "CALC("@.len() == 5 && "CALC("@[0] == 'C');
    if occurs_at(t, "calc("@, 0) {
        assert(t.subrange(0, 5)[0] == t[0]);
    }
    if occurs_at(t, "CALC("@, 0) {
        assert(t.subrange(0, 5)[0] == t[0]);
    }
    assert(lower(t)[0] == lower_char(t[0]));
    assert(lower("auto"@)[0] == 'a');
}

pub proof fn lemma_units_differ()
    ensures
        "px"@.len() == 2 && "px"@[0] == 'p' && "px"@[1] == 'x',
        "pt"@.len() == 2 && "pt"@[0] == 'p' && "pt"@[1] == 't',
        "pc"@.len() == 2 && "pc"@[0] == 'p' && "pc"@[1] == 'c',
        "in"@.len() == 2 && "in"@[0] == 'i' && "in"@[1] == 'n',
        "cm"@.len() == 2 && "cm"@[0] == 'c' && "cm"@[1] == 'm',
        "mm"@.len() == 2 && "mm"@[0] == 'm' && "mm"@[1] == 'm',
        "em"@.len() == 2 && "em"@[0] == 'e' && "em"@[1] == 'm',
        "vw"@.len() == 2 && "vw"@[0] == 'v' && "vw"@[1] == 'w',
        "vh"@.len() == 2 && "vh"@[0] == 'v' && "vh"@[1] == 'h',
        "rem"@.len() == 3 && "rem"@[0] == 'r' && "rem"@[2] == 'm',
        "vmin"@.len() == 4 && "vmin"@[0] == 'v' && "vmin"@[3] == 'n' && "vmin"@[2] == 'i',
        "vmax"@.len() == 4 && "vmax"@[0] == 'v' && "vmax"@[3] == 'x' && "vmax"@[2] == 'a',
        "%"@.len() == 1 && "%"@[0] == '%',
        ""@.len() == 0,
{
    reveal_strlit("px");
    reveal_strlit("pt");
    reveal_strlit("pc");
    reveal_strlit("in");
    reveal_strlit("cm");
    reveal_strlit("mm");
    reveal_strlit("em");
    reveal_strlit("vw");
    reveal_strlit("vh");
    reveal_strlit("rem");
    reveal_strlit("vmin");
    reveal_strlit("vmax");
    reveal_strlit("%");
    reveal_strlit("");
}

/// Absolute lengths are so many px: 96 to the inch, 72 points, six picas or 2.54
/// centimetres to it, and a bare number is px.
pub proof fn law_absolute_units(w: Seq<char>, v: int, fs: int, vp: Viewport)
    requires
        writes(w, v),
        -1_000_000_000_000 <= v <= 1_000_000_000_000,
    ensures
        length_pct(w, fs, vp) == Some(LengthPct::Px(v as i64)),
        length_pct(w + "px"@, fs, vp) == Some(LengthPct::Px(v as i64)),
        length_pct(w + "in"@, fs, vp) == Some(LengthPct::Px((96 * v) as i64)),
        length_pct(w + "pc"@, fs, vp) == Some(LengthPct::Px((16 * v) as i64)),
        length_pct(w + "pt"@, fs, vp) matches Some(LengthPct::Px(x)) && -72 <= 2 * (72 * x - 96 * v)
            <= 72,
        length_pct(w + "cm"@, fs, vp) matches Some(LengthPct::Px(x)) && -254 <= 2 * (254 * x - 9600
            * v) <= 254,
        length_pct(w + "mm"@, fs, vp) matches Some(LengthPct::Px(x)) && -254 <= 2 * (254 * x - 960
            * v) <= 254,
        px_of(w + "px"@, fs, vp) == Some(v),
        px_of(w, fs, vp) == Some(v),
{
    lemma_units_differ();
    assert(w + Seq::<char>::empty() =~= w);
    assert(""@ =~= Seq::<char>::empty());
    lemma_number_with_unit(w, v, ""@, fs, vp);
    lemma_number_with_unit(w, v, "px"@, fs, vp);
    lemma_number_with_unit(w, v, "in"@, fs, vp);
    lemma_number_with_unit(w, v, "pc"@, fs, vp);
    lemma_number_with_unit(w, v, "pt"@, fs, vp);
    lemma_number_with_unit(w, v, "cm"@, fs, vp);
    lemma_number_with_unit(w, v, "mm"@, fs, vp);
    law_rounding(v, 1);
    law_rounding(v * 96, 1);
    law_rounding(v * 16, 1);
    law_rounding(v * 4, 3);
    law_rounding(v * 4800, 127);
    law_rounding(v * 480, 127);
}

/// Lengths in `em` go by the font size and in `rem` by 16 px; percentages are kept;
/// viewport units are hundredths of its width, its height, the less and the greater
/// of both.
pub proof fn law_relative_units(w: Seq<char>, v: int, fs: int, vp: Viewport)
    requires
        writes(w, v),
        -1_000_000_000 <= v <= 1_000_000_000,
        0 <= fs <= 1_000_000_000,
        0 <= vp.width <= 100_000_000_000,
        0 <= vp.height <= 100_000_000_000,
    ensures
        length_pct(w + "em"@, fs, vp) matches Some(LengthPct::Px(x)) && -1_000_000 <= 2 * (x
            * 1_000_000 - v * fs) <= 1_000_000,
        length_pct(w + "rem"@, fs, vp) == Some(LengthPct::Px((16 * v) as i64)),
        length_pct(w + "%"@, fs, vp) == Some(LengthPct::Pct(v as i64)),
        px_of(w + "%"@, fs, vp) is None,
        length_pct(w + "vw"@, fs, vp) matches Some(LengthPct::Px(x)) && -100_000_000 <= 2 * (x
            * 100_000_000 - v * vp.width) <= 100_000_000,
        length_pct(w + "vh"@, fs, vp) matches Some(LengthPct::Px(x)) && -100_000_000 <= 2 * (x
            * 100_000_000 - v * vp.height) <= 100_000_000,
        length_pct(w + "vmin"@, fs, vp) == if vp.width <= vp.height {
            length_pct(w + "vw"@, fs, vp)
        } else {
            length_pct(w + "vh"@, fs, vp)
        },
        length_pct(w + "vmax"@, fs, vp) == if vp.width <= vp.height {
            length_pct(w + "vh"@, fs, vp)
        } else {
            length_pct(w + "vw"@, fs, vp)
        },
{
    lemma_units_differ();
    lemma_number_with_unit(w, v, "em"@, fs, vp);
    lemma_number_with_unit(w, v, "rem"@, fs, vp);
    lemma_number_with_unit(w, v, "%"@, fs, vp);
    lemma_number_with_unit(w, v, "vw"@, fs, vp);
    lemma_number_with_unit(w, v, "vh"@, fs, vp);
    lemma_number_with_unit(w, v, "vmin"@, fs, vp);
    lemma_number_with_unit(w, v, "vmax"@, fs, vp);
    law_rounding(v * fs, 1_000_000);
    law_rounding(v * 16_000_000, 1_000_000);
    law_rounding(v * vp.width, 100_000_000);
    law_rounding(v * vp.height, 100_000_000);
    assert(-1_000_000_000_000_000_000 <= v * fs <= 1_000_000_000_000_000_000) by (nonlinear_arith)
        requires
            -1_000_000_000 <= v <= 1_000_000_000,
            0 <= fs <= 1_000_000_000,
    ;
    assert(-100_000_000_000_000_000_000 <= v * vp.width <= 100_000_000_000_000_000_000)
        by (nonlinear_arith)
        requires
            -1_000_000_000 <= v <= 1_000_000_000,
            0 <= vp.width <= 100_000_000_000,
    ;
    assert(-100_000_000_000_000_000_000 <= v * vp.height <= 100_000_000_000_000_000_000)
        by (nonlinear_arith)
        requires
            -1_000_000_000 <= v <= 1_000_000_000,
            0 <= vp.height <= 100_000_000_000,
    ;
}

/// `auto` is `auto` however it is spelled, and px knows no `auto`.
pub proof fn law_auto(s: Seq<char>, fs: int, vp: Viewport)
    requires
        lower(trimmed(s)) == lower("auto"@),
    ensures
        length_pct(s, fs, vp) == Some(LengthPct::Auto),
{
}

proof fn lemma_fold_prefix(a: Seq<Seq<char>>, b: Seq<Seq<char>>, fs: int, vp: Viewport, k: nat)
    requires
        2 * k < a.len(),
    ensures
        calc_fold(a + b, fs, vp, k) == calc_fold(a, fs, vp, k),
    decreases k,
{
    assert((a + b)[0] == a[0]);
    if k > 0 {
        lemma_fold_prefix(a, b, fs, vp, (k - 1) as nat);
        assert((a + b)[2 * k as int] == a[2 * k as int]);
        assert((a + b)[2 * k - 1] == a[2 * k - 1]);
    }
}

/// A sum of lengths is that of its terms, added and subtracted from left to right, px and
/// percentages apart.
pub proof fn law_calc_sums(a: Seq<Seq<char>>, t: Seq<char>, fs: int, vp: Viewport)
    requires
        a.len() % 2 == 1,
        calc_total(a, fs, vp) is Some,
        calc_total(seq![t], fs, vp) is Some,
        ({
            let (x, y) = (calc_total(a, fs, vp)->0, calc_total(seq![t], fs, vp)->0);
            &&& -LIMIT / 2 <= x.px <= LIMIT / 2 && -LIMIT / 2 <= y.px <= LIMIT / 2
            &&& -LIMIT / 2 <= x.pct <= LIMIT / 2 && -LIMIT / 2 <= y.pct <= LIMIT / 2
        }),
    ensures
        ({
            let (x, y) = (calc_total(a, fs, vp)->0, calc_total(seq![t], fs, vp)->0);
            &&& calc_total(a + seq!["+"@, t], fs, vp) matches Some(z) && z.px == x.px + y.px && z.pct
                == x.pct + y.pct && z.mixed == (x.mixed || y.mixed)
            &&& calc_total(a + seq!["-"@, t], fs, vp) matches Some(z) && z.px == x.px - y.px && z.pct
                == x.pct - y.pct && z.mixed == (x.mixed || y.mixed)
        }),
{
    let k = ((a.len() - 1) / 2) as nat;
    lemma_fold_prefix(a, seq!["+"@, t], fs, vp, k);
    lemma_fold_prefix(a, seq!["-"@, t], fs, vp, k);
    assert((a + seq!["+"@, t])[2 * (k + 1) as int] == t);
    assert((a + seq!["+"@, t])[2 * (k + 1) - 1] == "+"@);
    assert((a + seq!["-"@, t])[2 * (k + 1) as int] == t);
    assert((a + seq!["-"@, t])[2 * (k + 1) - 1] == "-"@);
    assert(calc_total(seq![t], fs, vp) == calc_term(t, fs, vp));
    reveal_strlit("+");
    reveal_strlit("-");
    assert("+"@[0] == '+' && "-"@[0] == '-');
}

/// One term of a sum is the length that it writes, or the percentage.
pub proof fn law_calc_terms(t: Seq<char>, fs: int, vp: Viewport)
    requires
        calc_of(trimmed(t), fs, vp) is None,
        lower(trimmed(t)) != lower("auto"@),
        trimmed(trimmed(t)) == trimmed(t),
    ensures
        length_pct(t, fs, vp) matches Some(LengthPct::Px(x)) ==> calc_total(seq![t], fs, vp) == Some(
            CalcSum { pct: 0, px: x, mixed: false },
        ),
        length_pct(t, fs, vp) matches Some(LengthPct::Pct(p)) ==> calc_total(seq![t], fs, vp) == Some(
            CalcSum { pct: p, px: 0, mixed: true },
        ),
        length_pct(t, fs, vp) is None ==> calc_total(seq![t], fs, vp) is None,
{
}

/// A `calc()` with percentages keeps both parts, one without is px; where its sum cannot
/// be read it is no length.
pub proof fn law_calc(b: Seq<char>, fs: int, vp: Viewport)
    ensures
        ({
            let s = "calc("@ + b + ")"@;
            &&& calc_total(words_in(b), fs, vp) matches Some(c) ==> (c.mixed ==> length_pct(
                s,
                fs,
                vp,
            ) == Some(LengthPct::Calc { pct: c.pct, px: c.px }))
            &&& calc_total(words_in(b), fs, vp) matches Some(c) ==> (!c.mixed ==> length_pct(
                s,
                fs,
                vp,
            ) == Some(LengthPct::Px(c.px)) && px_of(s, fs, vp) == Some(c.px as int))
        }),
{
    let s = "calc("@ + b + ")"@;
    reveal_strlit("calc(");
    reveal_strlit(")");
    reveal_strlit("auto");
    assert("calc("@.len() == 5 && "calc("@[0] == 'c' && ")"@.len() == 1 && ")"@[0] == ')');
    assert(s[0] == 'c' && s.last() == ')');
    lemma_trimmed_is(s);
    assert(s =~= "calc("@ + (b + ")"@));
    law_prefixes_and_suffixes(s, "calc("@, b + ")"@);
    law_prefixes_and_suffixes(b + ")"@, ")"@, b);
    assert(lower(s)[0] == lower_char(s[0]));
    assert(lower("auto"@)[0] == 'a');
}

// --------------------------------------------------------------------------
// colors
// --------------------------------------------------------------------------

/// The small hexadecimal digit for a number below sixteen.
pub open spec fn hex_digit(n: u8) -> char {
    if n < 10 {
        (48 + n) as u8 as char
    } else {
        (87 + n) as u8 as char
    }
}

/// The two digits of a byte.
pub open spec fn hex_pair(b: u8) -> Seq<char> {
    seq![hex_digit((b / 16) as u8), hex_digit((b % 16) as u8)]
}

proof fn lemma_hex_digit(n: u8)
    requires
        n < 16,
    ensures
        hex_value(hex_digit(n)) == Some(n as int),
        !is_space(hex_digit(n)),
{
}

/// A color is read back from its hexadecimal digits, with or without alpha; three digits
/// stand for six, each twice.
pub proof fn law_hex_colors(c: Rgba, x: char, y: char, z: char)
    ensures
        color_of(seq!['#'] + hex_pair(c.r) + hex_pair(c.g) + hex_pair(c.b)) == Some(
            Rgba { r: c.r, g: c.g, b: c.b, a: 255 },
        ),
        color_of(seq!['#'] + hex_pair(c.r) + hex_pair(c.g) + hex_pair(c.b) + hex_pair(c.a)) == Some(c),
        !is_space(z) ==> color_of(seq!['#', x, y, z]) == color_of(seq!['#', x, x, y, y, z, z]),
{
    reveal_strlit("#");
    assert("#"@ =~= seq!['#']);
    lemma_hex_digit((c.r / 16) as u8);
    lemma_hex_digit((c.r % 16) as u8);
    lemma_hex_digit((c.g / 16) as u8);
    lemma_hex_digit((c.g % 16) as u8);
    lemma_hex_digit((c.b / 16) as u8);
    lemma_hex_digit((c.b % 16) as u8);
    lemma_hex_digit((c.a / 16) as u8);
    lemma_hex_digit((c.a % 16) as u8);
    let h = hex_pair(c.r) + hex_pair(c.g) + hex_pair(c.b);
    let s = seq!['#'] + hex_pair(c.r) + hex_pair(c.g) + hex_pair(c.b);
    assert(s =~= "#"@ + h);
    law_prefixes_and_suffixes(s, "#"@, h);
    lemma_trimmed_is(s);
    let h8 = h + hex_pair(c.a);
    let s8 = s + hex_pair(c.a);
    assert(s8 =~= "#"@ + h8);
    law_prefixes_and_suffixes(s8, "#"@, h8);
    lemma_trimmed_is(s8);
    if !is_space(z) {
        let a = seq!['#', x, y, z];
        let b = seq!['#', x, x, y, y, z, z];
        lemma_trimmed_is(a);
        lemma_trimmed_is(b);
        assert(a =~= "#"@ + seq![x, y, z]);
        assert(b =~= "#"@ + seq![x, x, y, y, z, z]);
        law_prefixes_and_suffixes(a, "#"@, seq![x, y, z]);
        law_prefixes_and_suffixes(b, "#"@, seq![x, x, y, y, z, z]);
    }
}

/// Letters alone name a color, however they are spelled.
pub proof fn law_color_names(s: Seq<char>)
    ensures
        lower(trimmed(s)) == "black"@ ==> color_of(s) == Some(Rgba { r: 0, g: 0, b: 0, a: 255 }),
        lower(trimmed(s)) == "white"@ ==> color_of(s) == Some(
            Rgba { r: 255, g: 255, b: 255, a: 255 },
        ),
        lower(trimmed(s)) == "red"@ ==> color_of(s) == Some(Rgba { r: 255, g: 0, b: 0, a: 255 }),
        lower(trimmed(s)) == "green"@ ==> color_of(s) == Some(Rgba { r: 0, g: 128, b: 0, a: 255 }),
        lower(trimmed(s)) == "blue"@ ==> color_of(s) == Some(Rgba { r: 0, g: 0, b: 255, a: 255 }),
        lower(trimmed(s)) == "gray"@ || lower(trimmed(s)) == "grey"@ ==> color_of(s) == Some(
            Rgba { r: 128, g: 128, b: 128, a: 255 },
        ),
        lower(trimmed(s)) == "transparent"@ ==> color_of(s) == Some(Rgba { r: 0, g: 0, b: 0, a: 0 }),
{
    let t = trimmed(s);
    reveal_strlit("black");
    reveal_strlit("white");
    reveal_strlit("red");
    reveal_strlit("green");
    reveal_strlit("blue");
    reveal_strlit("gray");
    reveal_strlit("grey");
    reveal_strlit("transparent");
    assert("black"@.len() == 5);
    assert("white"@.len() == 5);
    assert("red"@.len() == 3);
    assert("green"@.len() == 5);
    assert("blue"@.len() == 4);
    assert("gray"@.len() == 4);
    assert("grey"@.len() == 4);
    assert("transparent"@.len() == 11);
    assert("black"@[0] == 'b');
    assert("white"@[0] == 'w');
    assert("green"@[0] == 'g');
    assert("blue"@[0] == 'b');
    assert("gray"@[0] == 'g');
    assert("grey"@[0] == 'g');
    assert("gray"@[2] == 'a');
    assert("grey"@[2] == 'e');
    reveal_strlit("#");
    reveal_strlit("rgb");
    reveal_strlit("rgba");
    reveal_strlit("(");
    assert("#"@.len() == 1 && "#"@[0] == '#');
    assert("rgb"@.len() == 3 && "rgb"@[1] == 'g');
    assert("rgba"@.len() == 4 && "rgba"@[1] == 'g');
    if occurs_at(t, "#"@, 0) {
        assert(t.subrange(0, 1)[0] == t[0]);
    }
    if occurs_at(t, "rgb"@, 0) {
        assert(t.subrange(0, 3)[0] == t[0]);
        assert(t.subrange(0, 3)[1] == t[1]);
        assert("rgb"@[0] == 'r');
    }
    if occurs_at(t, "rgba"@, 0) {
        assert(t.subrange(0, 4)[0] == t[0]);
        assert(t.subrange(0, 4)[1] == t[1]);
        assert("rgba"@[0] == 'r');
    }
    if t.len() > 1 {
        assert(lower(t)[0] == lower_char(t[0]));
        assert(lower(t)[1] == lower_char(t[1]));
    }
}

/// Whether a byte is the nearest to so many millionths, held within its bounds.
pub open spec fn nearest(b: u8, v: int) -> bool {
    if v <= 0 {
        b == 0
    } else if v >= 255_000_000 {
        b == 255
    } else {
        -1_000_000 <= 2 * (b * 1_000_000 - v) <= 1_000_000
    }
}

proof fn lemma_nearest(v: int)
    ensures
        nearest(byte_of(round_div(v, 1_000_000)), v),
{
    law_rounding(v, 1_000_000);
}

/// Whether a text is one argument: without a comma or a slash.
pub open spec fn is_argument(s: Seq<char>) -> bool {
    !s.contains(',') && !s.contains('/')
}

proof fn lemma_three(a: Seq<char>, b: Seq<char>, c: Seq<char>)
    requires
        is_argument(a),
        is_argument(b),
        is_argument(c),
    ensures
        split_at(a + seq![','] + b + seq![','] + c, ',', '/') == seq![a, b, c],
{
    let x = a + seq![','] + b + seq![','] + c;
    let y = b + seq![','] + c;
    assert(x =~= a + seq![','] + y);
    law_splitting(a, ',', y, ',', '/');
    law_splitting(b, ',', c, ',', '/');
    law_splitting(c, ',', c, ',', '/');
    assert(seq![a] + (seq![b] + seq![c]) =~= seq![a, b, c]);
}

proof fn lemma_four(a: Seq<char>, b: Seq<char>, c: Seq<char>, p: char, d: Seq<char>)
    requires
        is_argument(a),
        is_argument(b),
        is_argument(c),
        is_argument(d),
        p == ',' || p == '/',
    ensures
        split_at(a + seq![','] + b + seq![','] + c + seq![p] + d, ',', '/') == seq![a, b, c, d],
{
    let x = a + seq![','] + b + seq![','] + c + seq![p] + d;
    let z = c + seq![p] + d;
    let y = b + seq![','] + z;
    assert(x =~= a + seq![','] + y);
    law_splitting(a, ',', y, ',', '/');
    law_splitting(b, ',', z, ',', '/');
    law_splitting(c, p, d, ',', '/');
    law_splitting(d, ',', c, ',', '/');
    assert(seq![a] + (seq![b] + (seq![c] + seq![d])) =~= seq![a, b, c, d]);
}

/// The channels of `rgb()` are its three numbers, to the nearest byte, and its alpha the
/// fourth as a fraction of 255; without a fourth the color is opaque.
pub proof fn law_rgb_channels(
    a: Seq<char>,
    b: Seq<char>,
    c: Seq<char>,
    d: Seq<char>,
    p: char,
)
    requires
        is_argument(a),
        is_argument(b),
        is_argument(c),
        is_argument(d),
        p == ',' || p == '/',
        value_of(trimmed(a)) is Some,
        value_of(trimmed(b)) is Some,
        value_of(trimmed(c)) is Some,
        value_of(trimmed(d)) is Some,
    ensures
        color_of("rgb("@ + (a + seq![','] + b + seq![','] + c) + ")"@) matches Some(k) && nearest(
            k.r,
            value_of(trimmed(a))->0,
        ) && nearest(k.g, value_of(trimmed(b))->0) && nearest(k.b, value_of(trimmed(c))->0) && k.a
            == 255,
        color_of("rgba("@ + (a + seq![','] + b + seq![','] + c + seq![p] + d) + ")"@) matches Some(k)
            && nearest(k.r, value_of(trimmed(a))->0) && nearest(k.g, value_of(trimmed(b))->0)
            && nearest(k.b, value_of(trimmed(c))->0) && nearest(
            k.a,
            value_of(trimmed(d))->0 * 255,
        ),
{
    lemma_three(a, b, c);
    lemma_four(a, b, c, p, d);
    let x = a + seq![','] + b + seq![','] + c;
    let y = a + seq![','] + b + seq![','] + c + seq![p] + d;
    lemma_rgb_parts(x, seq![a, b, c]);
    lemma_rgb_parts(y, seq![a, b, c, d]);
    lemma_rgb_call(x);
    lemma_rgb_call(y);
}

proof fn lemma_rgb_parts(x: Seq<char>, v: Seq<Seq<char>>)
    requires
        split_at(x, ',', '/') == v,
        3 <= v.len() <= 4,
        value_of(trimmed(v[0])) is Some,
        value_of(trimmed(v[1])) is Some,
        value_of(trimmed(v[2])) is Some,
        v.len() == 4 ==> value_of(trimmed(v[3])) is Some,
    ensures
        rgb_color(x) matches Some(k) && nearest(k.r, value_of(trimmed(v[0]))->0) && nearest(
            k.g,
            value_of(trimmed(v[1]))->0,
        ) && nearest(k.b, value_of(trimmed(v[2]))->0) && if v.len() == 4 {
            nearest(k.a, value_of(trimmed(v[3]))->0 * 255)
        } else {
            k.a == 255
        },
{
    lemma_nearest(value_of(trimmed(v[0]))->0);
    lemma_nearest(value_of(trimmed(v[1]))->0);
    lemma_nearest(value_of(trimmed(v[2]))->0);
    if v.len() == 4 {
        lemma_nearest(value_of(trimmed(v[3]))->0 * 255);
    }
}

proof fn lemma_rgb_call(x: Seq<char>)
    ensures
        color_of("rgb("@ + x + ")"@) == rgb_color(x),
        color_of("rgba("@ + x + ")"@) == rgb_color(x),
{
    reveal_strlit("#");
    reveal_strlit("rgb");
    reveal_strlit("rgba");
    reveal_strlit("rgb(");
    reveal_strlit("rgba(");
    reveal_strlit("(");
    reveal_strlit(")");
    let s = "rgb("@ + x + ")"@;
    assert("rgb("@ =~= "rgb"@ + "("@);
    assert("rgba("@ =~= "rgba"@ + "("@);
    assert("#"@.len() == 1 && "#"@[0] == '#');
    assert("rgb("@.len() == 4 && "rgb("@[0] == 'r' && "rgb("@[3] == '(' && "rgba"@.len() == 4
        && "rgba"@[3] == 'a' && "rgba("@.len() == 5 && "rgba("@[0] == 'r');
    assert("("@.len() == 1 && "("@[0] == '(' && ")"@.len() == 1 && ")"@[0] == ')');
    assert(s[0] == 'r' && s.last() == ')' && s[3] == '(');
    lemma_trimmed_is(s);
    if occurs_at(s, "#"@, 0) {
        assert(s.subrange(0, 1)[0] == s[0]);
    }
    if occurs_at(s, "rgba"@, 0) {
        assert(s.subrange(0, 4)[3] == s[3]);
    }
    let body = "("@ + x + ")"@;
    assert(s =~= "rgb"@ + body);
    law_prefixes_and_suffixes(s, "rgb"@, body);
    lemma_in_parens(x);
    let s2 = "rgba("@ + x + ")"@;
    assert(s2[0] == 'r' && s2.last() == ')');
    lemma_trimmed_is(s2);
    if occurs_at(s2, "#"@, 0) {
        assert(s2.subrange(0, 1)[0] == s2[0]);
    }
    assert(s2 =~= "rgba"@ + body);
    law_prefixes_and_suffixes(s2, "rgba"@, body);
}

proof fn lemma_in_parens(x: Seq<char>)
    ensures
        in_parens("("@ + x + ")"@) == Some(x),
{
    reveal_strlit("(");
    reveal_strlit(")");
    let body = "("@ + x + ")"@;
    assert("("@.len() == 1 && "("@[0] == '(' && ")"@.len() == 1 && ")"@[0] == ')');
    assert(body[0] == '(' && body.last() == ')');
    lemma_trimmed_is(body);
    assert(body =~= "("@ + (x + ")"@));
    law_prefixes_and_suffixes(body, "("@, x + ")"@);
    law_prefixes_and_suffixes(x + ")"@, ")"@, x);
}

/// An ink takes its part of the light of its channel, and black of all three: none leaves
/// the channel full, and full ink or full black leaves it empty.
pub proof fn law_inks(ink: int, black: int)
    requires
        0 <= ink <= 100_000_000,
        0 <= black <= 100_000_000,
    ensures
        ink == 0 && black == 0 ==> ink_byte(ink, black) == 255,
        ink == 100_000_000 || black == 100_000_000 ==> ink_byte(ink, black) == 0,
        -10_000_000_000_000_000 <= 2 * (ink_byte(ink, black) * 10_000_000_000_000_000 - (100_000_000
            - ink) * (100_000_000 - black) * 255) <= 10_000_000_000_000_000,
{
    let x = (100_000_000 - ink) * (100_000_000 - black);
    assert(0 <= x <= 10_000_000_000_000_000) by (nonlinear_arith)
        requires
            x == (100_000_000 - ink) * (100_000_000 - black),
            0 <= ink <= 100_000_000,
            0 <= black <= 100_000_000,
    ;
    law_rounding(x * 255, 10_000_000_000_000_000);
    if ink == 100_000_000 || black == 100_000_000 {
        assert(x == 0) by (nonlinear_arith)
            requires
                x == (100_000_000 - ink) * (100_000_000 - black),
                ink == 100_000_000 || black == 100_000_000,
        ;
    }
}

/// An ink is a percentage, or a number as a fraction of one, within none and all.
pub proof fn law_ink_amounts(t: Seq<char>, v: int)
    ensures
        value_of(trimmed(t)) == Some(v) && 0 <= v <= 100_000_000 ==> ink_of(t + "%"@) == Some(v),
        value_of(t) == Some(v) && 0 <= v <= 1_000_000 && (t.len() > 0 ==> t.last() != '%') ==> ink_of(
            t,
        ) == Some(v * 100),
        value_of(t) == Some(v) && v < 0 && (t.len() > 0 ==> t.last() != '%') ==> ink_of(t) == Some(
            0int,
        ),
{
    reveal_strlit("%");
    assert("%"@.len() == 1 && "%"@[0] == '%');
    law_prefixes_and_suffixes(t + "%"@, "%"@, t);
    if crate::scan::ends(t, "%"@) {
        assert(t.subrange(t.len() - 1, t.len() as int)[0] == t.last());
    }
}

/// The inks of `cmyk()` are cyan, magenta and yellow, which take red, green and blue, and
/// black.
pub proof fn law_cmyk_channels(a: Seq<char>, b: Seq<char>, c: Seq<char>, d: Seq<char>)
    requires
        is_argument(a),
        is_argument(b),
        is_argument(c),
        is_argument(d),
        ink_of(trimmed(a)) is Some,
        ink_of(trimmed(b)) is Some,
        ink_of(trimmed(c)) is Some,
        ink_of(trimmed(d)) is Some,
    ensures
        print_color_of(
            "cmyk("@ + (a + seq![','] + b + seq![','] + c + seq![','] + d) + ")"@,
        ) matches Some(k) && k.r == ink_byte(ink_of(trimmed(a))->0, ink_of(trimmed(d))->0) && k.g
            == ink_byte(ink_of(trimmed(b))->0, ink_of(trimmed(d))->0) && k.b == ink_byte(
            ink_of(trimmed(c))->0,
            ink_of(trimmed(d))->0,
        ) && k.a == 255,
{
    let x = a + seq![','] + b + seq![','] + c + seq![','] + d;
    lemma_four(a, b, c, ',', d);
    lemma_cmyk_call(x, seq![a, b, c, d]);
}

proof fn lemma_cmyk_call(x: Seq<char>, v: Seq<Seq<char>>)
    requires
        split_at(x, ',', '/') == v,
        v.len() == 4,
        ink_of(trimmed(v[0])) is Some,
        ink_of(trimmed(v[1])) is Some,
        ink_of(trimmed(v[2])) is Some,
        ink_of(trimmed(v[3])) is Some,
    ensures
        print_color_of("cmyk("@ + x + ")"@) == Some(
            Rgba {
                r: ink_byte(ink_of(trimmed(v[0]))->0, ink_of(trimmed(v[3]))->0),
                g: ink_byte(ink_of(trimmed(v[1]))->0, ink_of(trimmed(v[3]))->0),
                b: ink_byte(ink_of(trimmed(v[2]))->0, ink_of(trimmed(v[3]))->0),
                a: 255,
            },
        ),
{
    reveal_strlit("#");
    reveal_strlit("rgb");
    reveal_strlit("rgba");
    reveal_strlit("cmyk");
    reveal_strlit("cmyk(");
    reveal_strlit("(");
    reveal_strlit(")");
    let s = "cmyk("@ + x + ")"@;
    assert("cmyk("@ =~= "cmyk"@ + "("@);
    assert("#"@.len() == 1 && "#"@[0] == '#');
    assert("cmyk("@.len() == 5 && "cmyk("@[0] == 'c' && "rgba"@.len() == 4 && "rgba"@[0] == 'r'
        && "rgb"@.len() == 3 && "rgb"@[0] == 'r');
    assert(")"@.len() == 1 && ")"@[0] == ')');
    assert(s[0] == 'c' && s.last() == ')');
    lemma_trimmed_is(s);
    if occurs_at(s, "#"@, 0) {
        assert(s.subrange(0, 1)[0] == s[0]);
    }
    if occurs_at(s, "rgba"@, 0) {
        assert(s.subrange(0, 4)[0] == s[0]);
    }
    if occurs_at(s, "rgb"@, 0) {
        assert(s.subrange(0, 3)[0] == s[0]);
    }
    let body = "("@ + x + ")"@;
    assert(s =~= "cmyk"@ + body);
    law_prefixes_and_suffixes(s, "cmyk"@, body);
    lemma_in_parens(x);
}

// --------------------------------------------------------------------------
// edges and borders
// --------------------------------------------------------------------------

/// An edge is a length, a percentage of the width that it goes by, and nothing where it
/// is `auto` or cannot be read.
pub proof fn law_edges_are_lengths(t: Seq<char>, fs: int, basis: int, vp: Viewport)
    ensures
        length_pct(t, fs, vp) matches Some(l) ==> (l.length(basis) matches Some(v) ==> (i64::MIN <= v
            <= i64::MAX ==> edge_of(t, fs, basis, vp) == v)),
        length_pct(t, fs, vp) is None || length_pct(t, fs, vp) == Some(LengthPct::Auto) ==> edge_of(
            t,
            fs,
            basis,
            vp,
        ) == 0,
{
}

/// The words of a shorthand go to the edges clockwise from the top, an edge without a word
/// of its own taking that of the edge across.
pub proof fn law_shorthands_go_round(m: StyleMap, p: Seq<char>, fs: int, basis: int, vp: Viewport)
    requires
        m.contains_key(p),
        unset(m, p + "-top"@) && unset(m, p + "-right"@) && unset(m, p + "-bottom"@) && unset(
            m,
            p + "-left"@,
        ),
        unset(m, p + "-block-start"@) && unset(m, p + "-block-end"@) && unset(
            m,
            p + "-inline-start"@,
        ) && unset(m, p + "-inline-end"@),
    ensures
        ({
            let w = words_in(m[p]);
            let e = edges_in(m, p, fs, basis, vp);
            &&& w.len() == 1 ==> e.top == edge_of(w[0], fs, basis, vp) && e.right == e.top && e.bottom
                == e.top && e.left == e.top
            &&& 2 <= w.len() <= 4 ==> e.top == edge_of(w[0], fs, basis, vp) && e.right == edge_of(
                w[1],
                fs,
                basis,
                vp,
            )
            &&& w.len() == 2 ==> e.bottom == e.top && e.left == e.right
            &&& 3 <= w.len() <= 4 ==> e.bottom == edge_of(w[2], fs, basis, vp)
            &&& w.len() == 3 ==> e.left == e.right
            &&& w.len() == 4 ==> e.left == edge_of(w[3], fs, basis, vp)
        }),
{
}

/// A longhand sets its own edge and wins over the shorthand; a flow-relative one sets the
/// edge that it means where the physical one is not set. With neither, edges are nothing.
pub proof fn law_longhands_win(m: StyleMap, p: Seq<char>, fs: int, basis: int, vp: Viewport)
    ensures
        ({
            let e = edges_in(m, p, fs, basis, vp);
            &&& m.contains_key(p + "-top"@) ==> e.top == edge_of(m[p + "-top"@], fs, basis, vp)
            &&& m.contains_key(p + "-right"@) ==> e.right == edge_of(m[p + "-right"@], fs, basis, vp)
            &&& m.contains_key(p + "-bottom"@) ==> e.bottom == edge_of(
                m[p + "-bottom"@],
                fs,
                basis,
                vp,
            )
            &&& m.contains_key(p + "-left"@) ==> e.left == edge_of(m[p + "-left"@], fs, basis, vp)
            &&& m.contains_key(p + "-block-start"@) && unset(m, p + "-top"@) ==> e.top == edge_of(
                m[p + "-block-start"@],
                fs,
                basis,
                vp,
            )
            &&& m.contains_key(p + "-block-end"@) && unset(m, p + "-bottom"@) ==> e.bottom == edge_of(
                m[p + "-block-end"@],
                fs,
                basis,
                vp,
            )
            &&& m.contains_key(p + "-inline-start"@) && unset(m, p + "-left"@) ==> e.left == edge_of(
                m[p + "-inline-start"@],
                fs,
                basis,
                vp,
            )
            &&& m.contains_key(p + "-inline-end"@) && unset(m, p + "-right"@) ==> e.right == edge_of(
                m[p + "-inline-end"@],
                fs,
                basis,
                vp,
            )
            &&& unset(m, p) && unset(m, p + "-top"@) && unset(m, p + "-block-start"@) ==> e.top == 0
            &&& unset(m, p) && unset(m, p + "-right"@) && unset(m, p + "-inline-end"@) ==> e.right
                == 0
            &&& unset(m, p) && unset(m, p + "-bottom"@) && unset(m, p + "-block-end"@) ==> e.bottom
                == 0
            &&& unset(m, p) && unset(m, p + "-left"@) && unset(m, p + "-inline-start"@) ==> e.left
                == 0
        }),
{
}

/// A border is one, three or five px wide by name, none where it says so, and else the
/// nearest whole px of its length.
pub proof fn law_border_widths(t: Seq<char>, fs: int, vp: Viewport)
    ensures
        border_width("thin"@, fs, vp) == Some(1u16),
        border_width("medium"@, fs, vp) == Some(3u16),
        border_width("thick"@, fs, vp) == Some(5u16),
        border_width("none"@, fs, vp) == Some(0u16),
        t != "thin"@ && t != "medium"@ && t != "thick"@ && t != "none"@ ==> {
            &&& px_of(t, fs, vp) is None ==> border_width(t, fs, vp) is None
            &&& px_of(t, fs, vp) matches Some(v) ==> (0 <= v <= 65_535_000_000 ==> (border_width(
                t,
                fs,
                vp,
            ) matches Some(n) && -1_000_000 <= 2 * (n * 1_000_000 - v) <= 1_000_000))
            &&& px_of(t, fs, vp) matches Some(v) ==> (v < 0 ==> border_width(t, fs, vp) == Some(0u16))
        },
{
    reveal_strlit("thin");
    reveal_strlit("medium");
    reveal_strlit("thick");
    reveal_strlit("none");
    assert("thin"@.len() == 4);
    assert("medium"@.len() == 6);
    assert("thick"@.len() == 5);
    assert("none"@.len() == 4);
    assert("thin"@[0] == 't');
    assert("none"@[0] == 'n');
    if let Some(v) = px_of(t, fs, vp) {
        law_rounding(v, 1_000_000);
    }
}

/// Whether a word of a border shorthand gives its width, or its color.
pub open spec fn gives_width(t: Seq<char>, fs: int, vp: Viewport) -> bool {
    border_width(t, fs, vp) is Some
}

pub open spec fn gives_color(t: Seq<char>, fs: int, vp: Viewport) -> bool {
    border_width(t, fs, vp) is None && color_of(t) is Some
}

/// The words of a border shorthand stand in any order: the last that is a width gives the
/// width and the last that is a color the color; without one there is none of it.
pub proof fn law_border_words(toks: Seq<Seq<char>>, fs: int, vp: Viewport, k: nat, i: int)
    requires
        k <= toks.len(),
    ensures
        0 <= i < k && gives_width(toks[i], fs, vp) && (forall|j: int|
            i < j < k ==> !gives_width(#[trigger] toks[j], fs, vp)) ==> Some(
            border_fold(toks, fs, vp, k).width,
        ) == border_width(toks[i], fs, vp),
        0 <= i < k && gives_color(toks[i], fs, vp) && (forall|j: int|
            i < j < k ==> !gives_color(#[trigger] toks[j], fs, vp)) ==> border_fold(
            toks,
            fs,
            vp,
            k,
        ).color == color_of(toks[i]),
        (forall|j: int| 0 <= j < k ==> !gives_width(#[trigger] toks[j], fs, vp)) ==> border_fold(
            toks,
            fs,
            vp,
            k,
        ).width == 0,
        (forall|j: int| 0 <= j < k ==> !gives_color(#[trigger] toks[j], fs, vp)) ==> border_fold(
            toks,
            fs,
            vp,
            k,
        ).color is None,
    decreases k,
{
    if k > 0 {
        law_border_words(toks, fs, vp, (k - 1) as nat, i);
    }
}

/// A side takes its own shorthand where it has one, else that of all sides; a width or a
/// color of all sides wins over those, and one of the side over all.
pub proof fn law_border_sides(m: StyleMap, name: Seq<char>, fs: int, vp: Viewport)
    ensures
        ({
            let b = border_side_in(m, name, fs, vp);
            let (own, ow, oc) = (
                "border-"@ + name,
                "border-"@ + name + "-width"@,
                "border-"@ + name + "-color"@,
            );
            &&& m.contains_key(ow) && border_width(m[ow], fs, vp) is Some ==> Some(b.width)
                == border_width(m[ow], fs, vp)
            &&& unset(m, ow) && m.contains_key("border-width"@) && border_width(
                m["border-width"@],
                fs,
                vp,
            ) is Some ==> Some(b.width) == border_width(m["border-width"@], fs, vp)
            &&& unset(m, ow) && unset(m, "border-width"@) && m.contains_key(own) ==> b.width
                == border_shorthand(m[own], fs, vp).width
            &&& unset(m, ow) && unset(m, "border-width"@) && unset(m, own) && m.contains_key(
                "border"@,
            ) ==> b.width == border_shorthand(m["border"@], fs, vp).width
            &&& unset(m, ow) && unset(m, "border-width"@) && unset(m, own) && unset(m, "border"@)
                ==> b.width == 0
            &&& m.contains_key(oc) && color_of(m[oc]) is Some ==> b.color == color_of(m[oc])
            &&& unset(m, oc) && m.contains_key("border-color"@) && color_of(
                m["border-color"@],
            ) is Some ==> b.color == color_of(m["border-color"@])
            &&& unset(m, oc) && unset(m, "border-color"@) && m.contains_key(own) ==> b.color
                == border_shorthand(m[own], fs, vp).color
            &&& unset(m, oc) && unset(m, "border-color"@) && unset(m, own) && m.contains_key(
                "border"@,
            ) ==> b.color == border_shorthand(m["border"@], fs, vp).color
        }),
{
}

/// Each side of a box has the border of its own name, and all the words of the shorthand
/// count.
pub proof fn law_borders_have_their_sides(m: StyleMap, v: Seq<char>, fs: int, vp: Viewport)
    ensures
        borders_in(m, fs, vp).top == border_side_in(m, "top"@, fs, vp),
        borders_in(m, fs, vp).right == border_side_in(m, "right"@, fs, vp),
        borders_in(m, fs, vp).bottom == border_side_in(m, "bottom"@, fs, vp),
        borders_in(m, fs, vp).left == border_side_in(m, "left"@, fs, vp),
        border_shorthand(v, fs, vp) == border_fold(words_in(v), fs, vp, words_in(v).len()),
        borders_in(m, fs, vp).widths_of().top == borders_in(m, fs, vp).top.width * 1_000_000,
        borders_in(m, fs, vp).widths_of().right == borders_in(m, fs, vp).right.width * 1_000_000,
        borders_in(m, fs, vp).widths_of().bottom == borders_in(m, fs, vp).bottom.width * 1_000_000,
        borders_in(m, fs, vp).widths_of().left == borders_in(m, fs, vp).left.width * 1_000_000,
{
}

/// A border paints something where a side is wider than nothing.
pub proof fn law_visible_borders(b: BorderEdges)
    ensures
        b.paints() <==> b.widths_of().top + b.widths_of().right + b.widths_of().bottom
            + b.widths_of().left > 0,
{
}

/// A number with a unit that is not known is no length.
pub proof fn law_unknown_units(w: Seq<char>, v: int, u: Seq<char>, fs: int, vp: Viewport)
    requires
        writes(w, v),
        u.len() > 0,
        starts_unit(u[0]),
        !is_space(u.last()),
        u != "px"@ && u != "pt"@ && u != "pc"@ && u != "in"@ && u != "cm"@ && u != "mm"@ && u != "em"@,
        u != "rem"@ && u != "%"@ && u != "vw"@ && u != "vh"@ && u != "vmin"@ && u != "vmax"@,
    ensures
        length_pct(w + u, fs, vp) is None,
        px_of(w + u, fs, vp) is None,
{
    lemma_units_differ();
    lemma_number_with_unit(w, v, u, fs, vp);
}

/// Hexadecimal colors have three, six or eight digits, and `rgb()` three numbers at least.
pub proof fn law_unreadable_colors(h: Seq<char>, a: Seq<char>, b: Seq<char>)
    requires
        h.len() > 0,
        !is_space(h.last()),
        is_argument(a),
        is_argument(b),
    ensures
        h.len() != 3 && h.len() != 6 && h.len() != 8 ==> color_of(seq!['#'] + h) is None,
        color_of("rgb("@ + (a + seq![','] + b) + ")"@) is None,
{
    reveal_strlit("#");
    assert("#"@ =~= seq!['#']);
    let s = seq!['#'] + h;
    lemma_trimmed_is(s);
    assert(s =~= "#"@ + h);
    law_prefixes_and_suffixes(s, "#"@, h);
    let x = a + seq![','] + b;
    lemma_rgb_call(x);
    law_splitting(a, ',', b, ',', '/');
    law_splitting(b, ',', a, ',', '/');
    assert(seq![a] + seq![b] =~= seq![a, b]);
    assert(split_at(x, ',', '/').len() == 2);
}

} // verus!
