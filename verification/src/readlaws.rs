//! What always holds of reading text: trimming, cutting, words, tokens and numbers.

use vstd::prelude::*;
use vstd::string::*;

use crate::layout::tokens::{
    balanced, close_at, comma_len, comma_pieces, depth_after, token_len, value_tokens,
};
use crate::number::{
    LIMIT, Number, all_digits, clip, diff, digit, exponent_of, greatest, int_of, is_digit, least,
    magnitude_of, mantissa_parts, nat_of, natural_of, number_of, pow10, round_div, scaled, shifted,
    sum, value_of,
};
use crate::scan::{
    after_prefix, before_suffix, cut_at, ends, index_from, index_of, is_ascii_space, is_space,
    lemma_run_is, lemma_run_without, lemma_word_is, lower, lower_char, occurs_at, run_without,
    split_at, starts, trim_back, trim_front, trimmed, word_len, words_in,
};

verus! {

// --------------------------------------------------------------------------
// characters
// --------------------------------------------------------------------------

/// Among the ASCII characters the blank and the five controls before it are whitespace.
pub proof fn law_ascii_whitespace(c: char)
    ensures
        c as u32 <= 0x7f ==> (is_space(c) <==> (c == ' ' || c == '\t' || c == '\n' || c == '\r' || c
            as u32 == 11 || c as u32 == 12)),
        is_ascii_space(c) <==> (c == ' ' || c == '\t' || c == '\n' || c == '\r' || c as u32 == 12),
{
}

/// Lowering takes each ASCII capital to its small letter, 32 places on, and keeps every
/// other character; it keeps the length and is done once and for all.
pub proof fn law_lowering(s: Seq<char>)
    ensures
        lower(s).len() == s.len(),
        forall|i: int|
            0 <= i < s.len() ==> if 'A' <= #[trigger] s[i] <= 'Z' {
                lower(s)[i] as u32 == s[i] as u32 + 32
            } else {
                lower(s)[i] == s[i]
            },
        lower(lower(s)) == lower(s),
{
    assert(lower(lower(s)) =~= lower(s));
}

// --------------------------------------------------------------------------
// trimming and cutting
// --------------------------------------------------------------------------

proof fn lemma_front(s: Seq<char>) -> (i: int)
    ensures
        0 <= i <= s.len(),
        trim_front(s) == s.skip(i),
        forall|j: int| 0 <= j < i ==> is_space(#[trigger] s[j]),
        i < s.len() ==> !is_space(s[i]),
    decreases s.len(),
{
    if s.len() > 0 && is_space(s[0]) {
        let i = lemma_front(s.skip(1));
        assert(s.skip(1).skip(i) =~= s.skip(i + 1));
        assert forall|j: int| 0 <= j < i + 1 implies is_space(#[trigger] s[j]) by {
            if j > 0 {
                assert(s[j] == s.skip(1)[j - 1]);
            }
        }
        i + 1
    } else {
        assert(s.skip(0) =~= s);
        0
    }
}

proof fn lemma_back(s: Seq<char>) -> (n: int)
    ensures
        0 <= n <= s.len(),
        trim_back(s) == s.take(n),
        forall|j: int| n <= j < s.len() ==> is_space(#[trigger] s[j]),
        n > 0 ==> !is_space(s[n - 1]),
    decreases s.len(),
{
    if s.len() > 0 && is_space(s.last()) {
        let n = lemma_back(s.drop_last());
        assert(s.drop_last().take(n) =~= s.take(n));
        assert forall|j: int| n <= j < s.len() implies is_space(#[trigger] s[j]) by {
            if j < s.len() - 1 {
                assert(s[j] == s.drop_last()[j]);
            }
        }
        n
    } else {
        assert(s.take(s.len() as int) =~= s);
        s.len() as int
    }
}

/// Trimming takes whitespace off both ends, all of it, and nothing else.
pub proof fn law_trimming(s: Seq<char>)
    ensures
        trimmed(s).len() > 0 ==> !is_space(trimmed(s)[0]) && !is_space(trimmed(s).last()),
        exists|i: int, n: int|
            0 <= i <= n <= s.len() && trimmed(s) == #[trigger] s.subrange(i, n) && (forall|j: int|
                0 <= j < i ==> is_space(#[trigger] s[j])) && (forall|j: int|
                n <= j < s.len() ==> is_space(#[trigger] s[j])),
{
    let i = lemma_front(s);
    let t = trim_front(s);
    let n = lemma_back(t);
    assert(trimmed(s) =~= s.subrange(i, i + n));
    assert forall|j: int| i + n <= j < s.len() implies is_space(#[trigger] s[j]) by {
        assert(s[j] == t[j - i]);
    }
    if n > 0 {
        assert(trimmed(s)[0] == s[i]);
        assert(trimmed(s).last() == t[n - 1]);
    }
}

/// A text is cut at its first `c`: what stands before and behind it comes back.
pub proof fn law_cutting(a: Seq<char>, c: char, b: Seq<char>)
    requires
        !a.contains(c),
    ensures
        cut_at(a + seq![c] + b, c) == Some((a, b)),
        cut_at(a, c) is None,
{
    let s = a + seq![c] + b;
    assert(s[a.len() as int] == c);
    assert forall|j: int| 0 <= j < a.len() implies s[j] != c by {
        assert(s[j] == a[j]);
    }
    lemma_run_is(s, c, c, a.len() as int);
    assert(s.take(a.len() as int) =~= a);
    assert(s.skip(a.len() as int + 1) =~= b);
    assert forall|j: int| 0 <= j < a.len() implies a[j] != c by {
        assert(a.contains(a[j]));
    }
    lemma_run_is(a, c, c, a.len() as int);
}

/// A text is split at every separator: the first piece is what stands before the first
/// of them, the others are those of what follows.
pub proof fn law_splitting(s: Seq<char>, c: char, t: Seq<char>, a: char, b: char)
    requires
        !s.contains(a),
        !s.contains(b),
        c == a || c == b,
    ensures
        split_at(s, a, b) == seq![s],
        split_at(s + seq![c] + t, a, b) == seq![s] + split_at(t, a, b),
{
    let x = s + seq![c] + t;
    assert(x[s.len() as int] == c);
    assert forall|j: int| 0 <= j < s.len() implies x[j] != a && x[j] != b && s[j] != a && s[j]
        != b by {
        assert(x[j] == s[j]);
        assert(s.contains(s[j]));
    }
    lemma_run_is(x, a, b, s.len() as int);
    lemma_run_is(s, a, b, s.len() as int);
    assert(x.take(s.len() as int) =~= s);
    assert(x.skip(s.len() as int + 1) =~= t);
}

/// A prefix or a suffix can be taken off where it stands, and only there.
pub proof fn law_prefixes_and_suffixes(s: Seq<char>, p: Seq<char>, r: Seq<char>)
    ensures
        after_prefix(s, p) == Some(r) <==> s == p + r,
        before_suffix(s, p) == Some(r) <==> s == r + p,
        starts(s, p) <==> after_prefix(s, p) is Some,
        ends(s, p) <==> before_suffix(s, p) is Some,
{
    if s == p + r {
        assert(s.subrange(0, p.len() as int) =~= p);
        assert(s.skip(p.len() as int) =~= r);
    }
    if after_prefix(s, p) == Some(r) {
        assert(s =~= s.subrange(0, p.len() as int) + s.skip(p.len() as int));
    }
    if s == r + p {
        assert(s.subrange(r.len() as int, s.len() as int) =~= p);
        assert(s.take(s.len() - p.len()) =~= r);
    }
    if before_suffix(s, p) == Some(r) {
        assert(s =~= s.take(s.len() - p.len()) + s.subrange(s.len() - p.len(), s.len() as int));
    }
}

proof fn lemma_first_from(s: Seq<char>, n: Seq<char>, i: int)
    requires
        0 <= i,
    ensures
        index_from(s, n, i) matches Some(k) ==> i <= k && k + n.len() <= s.len() && s.subrange(
            k,
            k + n.len(),
        ) == n && forall|j: int|
            i <= j < k ==> #[trigger] s.subrange(j, j + n.len()) != n,
        index_from(s, n, i) is None ==> forall|j: int|
            i <= j && j + n.len() <= s.len() ==> #[trigger] s.subrange(j, j + n.len()) != n,
    decreases s.len() + 1 - i,
{
    if i + n.len() > s.len() {
    } else if occurs_at(s, n, i) {
    } else {
        lemma_first_from(s, n, i + 1);
    }
}

/// The index of a text in another is the first at which it stands; none where it stands
/// nowhere.
pub proof fn law_first_occurrence(s: Seq<char>, n: Seq<char>)
    ensures
        index_of(s, n) matches Some(k) ==> 0 <= k && k + n.len() <= s.len() && s.subrange(
            k,
            k + n.len(),
        ) == n && forall|j: int| 0 <= j < k ==> #[trigger] s.subrange(j, j + n.len()) != n,
        index_of(s, n) is None ==> forall|j: int|
            0 <= j && j + n.len() <= s.len() ==> #[trigger] s.subrange(j, j + n.len()) != n,
{
    lemma_first_from(s, n, 0);
}

// --------------------------------------------------------------------------
// words and tokens
// --------------------------------------------------------------------------

/// Whether a text is one word.
pub open spec fn is_word(w: Seq<char>) -> bool {
    w.len() > 0 && forall|i: int| 0 <= i < w.len() ==> !is_space(#[trigger] w[i])
}

/// The words of a text are its runs without whitespace: leading whitespace adds none, a
/// word alone is one, and a word before whitespace is followed by the words of the rest.
pub proof fn law_words(w: Seq<char>, c: char, t: Seq<char>)
    requires
        is_word(w),
        is_space(c),
    ensures
        words_in(Seq::empty()) == Seq::<Seq<char>>::empty(),
        words_in(seq![c] + t) == words_in(t),
        words_in(w) == seq![w],
        words_in(w + seq![c] + t) == seq![w] + words_in(t),
{
    let x = w + seq![c] + t;
    assert((seq![c] + t).skip(1) =~= t);
    assert forall|j: int| 0 <= j < w.len() implies !is_space(#[trigger] x[j]) by {
        assert(x[j] == w[j]);
    }
    assert(x[w.len() as int] == c);
    assert(!is_space(w[0]) && x[0] == w[0]);
    lemma_word_is(x, w.len() as int);
    lemma_word_is(w, w.len() as int);
    assert(x.take(w.len() as int) =~= w);
    assert(x.skip(w.len() as int) =~= seq![c] + t);
    assert((seq![c] + t)[0] == c);
    assert(words_in(seq![c] + t) == words_in(t));
    assert(word_len(x) == w.len());
    assert(words_in(x) == seq![w] + words_in(seq![c] + t));
    assert(w.take(w.len() as int) =~= w);
    assert(w.skip(w.len() as int) =~= Seq::empty());
    assert(words_in(w) == seq![w] + words_in(Seq::empty()));
    assert(seq![w] + Seq::<Seq<char>>::empty() =~= seq![w]);
}

/// Whether a text is one token: not blank, closed, and without whitespace outside its
/// parentheses.
pub open spec fn is_token(s: Seq<char>, d: int) -> bool
    decreases s.len(),
{
    if s.len() == 0 {
        d == 0
    } else {
        &&& !(d == 0 && is_ascii_space(s[0]))
        &&& is_token(
            s.skip(1),
            if s[0] == '(' {
                d + 1
            } else if s[0] == ')' {
                d - 1
            } else {
                d
            },
        )
    }
}

proof fn lemma_token_reaches(w: Seq<char>, t: Seq<char>, d: int)
    requires
        is_token(w, d),
        t.len() > 0 ==> is_ascii_space(t[0]),
    ensures
        token_len(w + t, d) == w.len(),
    decreases w.len(),
{
    let x = w + t;
    if w.len() == 0 {
        assert(x =~= t);
    } else {
        assert(x.skip(1) =~= w.skip(1) + t);
        assert(x[0] == w[0]);
        lemma_token_reaches(w.skip(1), t, depth_after(w[0], d));
    }
}

/// The tokens of a value are cut at its whitespace, but not inside parentheses.
pub proof fn law_tokens(w: Seq<char>, c: char, t: Seq<char>)
    requires
        w.len() > 0,
        is_token(w, 0),
        is_ascii_space(c),
    ensures
        value_tokens(Seq::empty()) == Seq::<Seq<char>>::empty(),
        value_tokens(seq![c] + t) == value_tokens(t),
        value_tokens(w) == seq![w],
        value_tokens(w + seq![c] + t) == seq![w] + value_tokens(t),
{
    let rest = seq![c] + t;
    let x = w + seq![c] + t;
    assert(x =~= w + rest);
    assert(rest.skip(1) =~= t);
    lemma_token_reaches(w, rest, 0);
    lemma_token_reaches(w, Seq::empty(), 0);
    assert(w + Seq::<char>::empty() =~= w);
    assert(x[0] == w[0]);
    assert(x.take(w.len() as int) =~= w);
    assert(x.skip(w.len() as int) =~= rest);
    assert(w.take(w.len() as int) =~= w);
    assert(w.skip(w.len() as int) =~= Seq::empty());
    assert(rest[0] == c);
    assert(value_tokens(rest) == value_tokens(t));
    assert(!is_ascii_space(w[0]));
    assert(token_len(x, 0) == w.len());
    assert(token_len(w, 0) == w.len());
    assert(value_tokens(x) == seq![w] + value_tokens(rest));
    assert(value_tokens(w) == seq![w] + value_tokens(Seq::empty()));
    assert(seq![w] + Seq::<Seq<char>>::empty() =~= seq![w]);
}

/// Whether a text is one layer: closed, and without a comma outside its parentheses.
pub open spec fn is_layer(s: Seq<char>, d: int) -> bool
    decreases s.len(),
{
    if s.len() == 0 {
        d == 0
    } else {
        &&& !(d == 0 && s[0] == ',')
        &&& is_layer(
            s.skip(1),
            if s[0] == '(' {
                d + 1
            } else if s[0] == ')' {
                d - 1
            } else {
                d
            },
        )
    }
}

proof fn lemma_layer_reaches(w: Seq<char>, t: Seq<char>, d: int)
    requires
        is_layer(w, d),
        t.len() > 0 ==> t[0] == ',',
    ensures
        comma_len(w + t, d) == w.len(),
    decreases w.len(),
{
    let x = w + t;
    if w.len() == 0 {
        assert(x =~= t);
    } else {
        assert(x.skip(1) =~= w.skip(1) + t);
        assert(x[0] == w[0]);
        lemma_layer_reaches(w.skip(1), t, depth_after(w[0], d));
    }
}

/// A value is cut into layers at its commas, but not inside parentheses.
pub proof fn law_layers(w: Seq<char>, t: Seq<char>)
    requires
        is_layer(w, 0),
    ensures
        comma_pieces(w) == seq![w],
        comma_pieces(w + seq![','] + t) == seq![w] + comma_pieces(t),
{
    let rest = seq![','] + t;
    let x = w + seq![','] + t;
    assert(x =~= w + rest);
    lemma_layer_reaches(w, rest, 0);
    lemma_layer_reaches(w, Seq::empty(), 0);
    assert(w + Seq::<char>::empty() =~= w);
    assert(x.take(w.len() as int) =~= w);
    assert(x.skip(w.len() as int + 1) =~= t);
}

/// Whether a text closes every parenthesis that it opens, and no other.
pub open spec fn is_closed(s: Seq<char>, d: int) -> bool
    decreases s.len(),
{
    if s.len() == 0 {
        d == 0
    } else if s[0] == '(' {
        is_closed(s.skip(1), d + 1)
    } else if s[0] == ')' {
        d > 0 && is_closed(s.skip(1), d - 1)
    } else {
        is_closed(s.skip(1), d)
    }
}

proof fn lemma_closes(w: Seq<char>, t: Seq<char>, d: int)
    requires
        is_closed(w, d),
        d >= 0,
    ensures
        close_at(w + seq![')'] + t, d + 1) == Some(w.len() as int),
    decreases w.len(),
{
    let x = w + seq![')'] + t;
    if w.len() > 0 {
        assert(x.skip(1) =~= w.skip(1) + seq![')'] + t);
        assert(x[0] == w[0]);
        lemma_closes(w.skip(1), t, depth_after(w[0], d));
    }
}

/// What parentheses hold reaches to the one that closes them, past those that are opened
/// and closed inside.
pub proof fn law_parentheses_match(w: Seq<char>, t: Seq<char>)
    requires
        is_closed(w, 0),
    ensures
        balanced(w + seq![')'] + t) == Some(w),
{
    lemma_closes(w, t, 0);
    assert((w + seq![')'] + t).take(w.len() as int) =~= w);
}

// --------------------------------------------------------------------------
// numbers
// --------------------------------------------------------------------------

/// The power of ten.
pub open spec fn tens(n: nat) -> nat
    decreases n,
{
    if n == 0 {
        1
    } else {
        10 * tens((n - 1) as nat)
    }
}

proof fn lemma_tens(n: nat)
    ensures
        pow10(n) == tens(n),
        tens(n) >= 1,
    decreases n,
{
    if n > 0 {
        lemma_tens((n - 1) as nat);
    }
}

proof fn lemma_tens_add(m: nat, n: nat)
    ensures
        tens(m + n) == tens(m) * tens(n),
    decreases n,
{
    if n > 0 {
        lemma_tens_add(m, (n - 1) as nat);
        let a = tens(m) as int;
        let b = tens((n - 1) as nat) as int;
        assert(a * (10 * b) == 10 * (a * b)) by (nonlinear_arith);
    } else {
        assert(tens(m) * 1 == tens(m));
    }
}

/// A digit counts as what it is, and digits before others count ten times for each of
/// those.
pub proof fn law_digits(a: Seq<char>, b: Seq<char>)
    ensures
        digit('0') == 0 && digit('1') == 1 && digit('2') == 2 && digit('3') == 3 && digit('4') == 4,
        digit('5') == 5 && digit('6') == 6 && digit('7') == 7 && digit('8') == 8 && digit('9') == 9,
        forall|c: char| nat_of(seq![c]) == #[trigger] digit(c),
        nat_of(a + b) == nat_of(a) * tens(b.len()) + nat_of(b),
    decreases b.len(),
{
    assert forall|c: char| nat_of(seq![c]) == #[trigger] digit(c) by {
        assert(seq![c].drop_last() =~= Seq::empty());
        assert(nat_of(Seq::empty()) == 0);
    }
    if b.len() == 0 {
        assert(a + b =~= a);
        assert(nat_of(a) * 1 == nat_of(a));
    } else {
        law_digits(a, b.drop_last());
        assert((a + b).drop_last() =~= a + b.drop_last());
        let x = nat_of(a) as int;
        let y = tens((b.len() - 1) as nat) as int;
        let z = nat_of(b.drop_last()) as int;
        assert((x * y + z) * 10 == x * (10 * y) + z * 10) by (nonlinear_arith);
    }
}

proof fn lemma_nat_bound(s: Seq<char>)
    requires
        all_digits(s),
    ensures
        nat_of(s) < tens(s.len()),
    decreases s.len(),
{
    if s.len() > 0 {
        assert(is_digit(s.last()));
        assert forall|i: int| 0 <= i < s.drop_last().len() implies is_digit(
            #[trigger] s.drop_last()[i],
        ) by {
            assert(s.drop_last()[i] == s[i]);
        }
        lemma_nat_bound(s.drop_last());
    }
}

/// Whether a text is nothing but digits.
pub open spec fn plain(w: Seq<char>) -> bool {
    w.len() > 0 && all_digits(w)
}

proof fn lemma_not_named(b: Seq<char>)
    requires
        b.len() > 0,
        is_digit(b[0]) || b[0] == '.',
    ensures
        lower(b) != lower("inf"@),
        lower(b) != lower("infinity"@),
        lower(b) != lower("nan"@),
{
    reveal_strlit("inf");
    reveal_strlit("infinity");
    reveal_strlit("nan");
    assert(lower(b)[0] == b[0]);
    assert(lower("inf"@)[0] == 'i');
    assert(lower("infinity"@)[0] == 'i');
    assert(lower("nan"@)[0] == 'n');
}

/// A whole number is its digits, a decimal its digits with those behind the point as
/// tenths, hundredths and so on; beyond the sixth place they are cut. In millionths.
pub proof fn law_decimals(w: Seq<char>, f: Seq<char>)
    requires
        all_digits(w),
        all_digits(f),
        w.len() + f.len() > 0,
        w.len() <= 9,
        f.len() <= 6,
    ensures
        w.len() > 0 ==> value_of(w) == Some(nat_of(w) * 1_000_000int),
        value_of(w + seq!['.'] + f) == Some(
            (nat_of(w) * tens(f.len()) + nat_of(f)) * tens((6 - f.len()) as nat) as int,
        ),
{
    assert(tens(1) == 10 && tens(2) == 100 && tens(3) == 1000 && tens(4) == 10000 && tens(5) == 100000
        && tens(6) == 1000000) by {
        reveal_with_fuel(tens, 8);
    }
    assert(tens(9) == 1_000_000_000) by {
        reveal_with_fuel(tens, 11);
    }
    lemma_nat_bound(w);
    lemma_nat_bound(f);
    lemma_tens_add(w.len(), (9 - w.len()) as nat);
    lemma_tens((9 - w.len()) as nat);
    assert(tens(w.len()) <= 1_000_000_000) by (nonlinear_arith)
        requires
            tens(9) == tens(w.len()) * tens((9 - w.len()) as nat),
            tens((9 - w.len()) as nat) >= 1,
            tens(9) == 1_000_000_000,
    ;
    if w.len() > 0 {
        assert forall|j: int| 0 <= j < w.len() implies w[j] != 'e' && w[j] != 'E' && w[j] != '.' by {
            assert(is_digit(w[j]));
        }
        lemma_run_is(w, 'e', 'E', w.len() as int);
        lemma_run_is(w, '.', '.', w.len() as int);
        assert(w.take(w.len() as int) =~= w);
        assert(is_digit(w[0]));
        lemma_not_named(w);
        assert(w + Seq::<char>::empty() =~= w);
        lemma_tens(6);
        assert(magnitude_of(w) == Some(nat_of(w) * 1_000_000int));
    }
    let b = w + seq!['.'] + f;
    assert forall|j: int| 0 <= j < b.len() implies b[j] != 'e' && b[j] != 'E' by {
        if j < w.len() {
            assert(b[j] == w[j] && is_digit(w[j]));
        } else if j > w.len() {
            assert(b[j] == f[j - w.len() - 1] && is_digit(f[j - w.len() - 1]));
        }
    }
    assert forall|j: int| 0 <= j < w.len() implies b[j] != '.' by {
        assert(b[j] == w[j] && is_digit(w[j]));
    }
    assert(b[w.len() as int] == '.');
    if w.len() > 0 {
        assert(b[0] == w[0] && is_digit(w[0]));
    }
    lemma_not_named(b);
    lemma_run_is(b, 'e', 'E', b.len() as int);
    lemma_run_is(b, '.', '.', w.len() as int);
    assert(b.take(b.len() as int) =~= b);
    assert(b.take(w.len() as int) =~= w);
    assert(b.skip(w.len() as int + 1) =~= f);
    law_digits(w, f);
    lemma_tens((6 - f.len()) as nat);
    let d = w + f;
    let q = w.len() as int + 6;
    assert(shifted(d, q) == nat_of(d) * pow10((6 - f.len()) as nat)) by {
        if q <= d.len() {
            assert(d.take(q) =~= d);
            assert(nat_of(d) * 1 == nat_of(d));
        }
    }
    lemma_tens_add(f.len(), (6 - f.len()) as nat);
    let x = nat_of(w) as int;
    let y = tens(f.len()) as int;
    let z = nat_of(f) as int;
    let t = tens((6 - f.len()) as nat) as int;
    assert((x * y + z) * t <= LIMIT) by (nonlinear_arith)
        requires
            y * t == 1_000_000,
            0 <= x <= 999_999_999,
            0 <= z < y,
            t >= 1,
            LIMIT == 1_000_000_000_000_000,
    ;
    assert((x * y + z) * t >= 0) by (nonlinear_arith)
        requires
            0 <= x,
            0 <= z,
            y >= 1,
            t >= 1,
    ;
    assert(magnitude_of(b) == Some((x * y + z) * t));
}

/// A minus makes a number negative and a plus leaves it as it is.
pub proof fn law_signs(b: Seq<char>)
    requires
        b.len() > 0,
        b[0] != '-',
        b[0] != '+',
        value_of(b) is Some,
    ensures
        value_of(seq!['-'] + b) == Some(-(value_of(b)->0)),
        value_of(seq!['+'] + b) == value_of(b),
{
    assert((seq!['-'] + b).skip(1) =~= b);
    assert((seq!['+'] + b).skip(1) =~= b);
    assert(LIMIT == 1_000_000_000_000_000i64);
}

/// An exponent of ten makes a whole number that many tens larger.
pub proof fn law_exponents(w: Seq<char>, d: Seq<char>)
    requires
        plain(w),
        plain(d),
        nat_of(w) * tens(6 + nat_of(d)) <= LIMIT,
    ensures
        value_of(w + seq!['e'] + d) == Some(nat_of(w) * tens(6 + nat_of(d)) as int),
        value_of(w + seq!['E'] + d) == Some(nat_of(w) * tens(6 + nat_of(d)) as int),
{
    lemma_exponent(w, d, 'e');
    lemma_exponent(w, d, 'E');
}

proof fn lemma_exponent(w: Seq<char>, d: Seq<char>, c: char)
    requires
        plain(w),
        plain(d),
        c == 'e' || c == 'E',
        nat_of(w) * tens(6 + nat_of(d)) <= LIMIT,
    ensures
        value_of(w + seq![c] + d) == Some(nat_of(w) * tens(6 + nat_of(d)) as int),
{
    let b = w + seq![c] + d;
    assert forall|j: int| 0 <= j < w.len() implies b[j] != 'e' && b[j] != 'E' && w[j] != '.' by {
        assert(b[j] == w[j] && is_digit(w[j]));
    }
    assert(b[w.len() as int] == c);
    lemma_run_is(b, 'e', 'E', w.len() as int);
    lemma_run_is(w, '.', '.', w.len() as int);
    assert(b.take(w.len() as int) =~= w);
    assert(b.skip(w.len() as int + 1) =~= d);
    assert(b[0] == w[0] && is_digit(w[0]) && is_digit(d[0]));
    lemma_not_named(b);
    assert(w + Seq::<char>::empty() =~= w);
    assert(exponent_of(d) == Some(nat_of(d) as int));
    lemma_tens(6 + nat_of(d));
    let q = w.len() + 6 + nat_of(d);
    assert(q - w.len() == 6 + nat_of(d));
    assert(nat_of(w) * tens(6 + nat_of(d)) >= 0) by (nonlinear_arith);
}

/// What has a letter or a blank in front is no number.
pub proof fn law_no_number(b: Seq<char>)
    requires
        b.len() == 0 || !(is_digit(b[0]) || b[0] == '.' || b[0] == '-' || b[0] == '+' || b[0] == 'e'
            || b[0] == 'E' || b[0] == 'i' || b[0] == 'I' || b[0] == 'n' || b[0] == 'N'),
    ensures
        value_of(b) is None,
{
    reveal_strlit("inf");
    reveal_strlit("infinity");
    reveal_strlit("nan");
    assert(lower("inf"@).len() == 3 && lower("infinity"@).len() == 8 && lower("nan"@).len() == 3);
    lemma_run_without(b, 'e', 'E');
    let n = run_without(b, 'e', 'E') as int;
    let m = b.take(n);
    lemma_run_without(m, '.', '.');
    if b.len() > 0 {
        assert(lower("inf"@)[0] == 'i');
        assert(lower("infinity"@)[0] == 'i');
        assert(lower("nan"@)[0] == 'n');
        assert(lower(b)[0] == lower_char(b[0]));
        assert(n > 0);
        assert(m[0] == b[0]);
        let (w, f) = mantissa_parts(m);
        assert(w.len() > 0 && w[0] == m[0]);
        assert(!is_digit(w[0]));
    }
}

/// An integer is its digits, with a minus negative; a natural number takes no minus.
pub proof fn law_integers(w: Seq<char>)
    requires
        plain(w),
    ensures
        int_of(w) == Some(nat_of(w) as int),
        int_of(seq!['+'] + w) == Some(nat_of(w) as int),
        int_of(seq!['-'] + w) == Some(-nat_of(w)),
        natural_of(w) == Some(nat_of(w)),
        natural_of(seq!['+'] + w) == Some(nat_of(w)),
        natural_of(seq!['-'] + w) is None,
        int_of(Seq::empty()) is None,
        natural_of(Seq::empty()) is None,
{
    assert(is_digit(w[0]));
    assert((seq!['-'] + w).skip(1) =~= w);
    assert((seq!['+'] + w).skip(1) =~= w);
}

/// Division rounds to the nearest whole number, and is odd.
pub proof fn law_rounding(a: int, b: int)
    requires
        b >= 1,
    ensures
        -b <= 2 * (round_div(a, b) * b - a) <= b,
        round_div(-a, b) == -round_div(a, b),
        a >= 0 ==> 2 * (round_div(a, b) * b - a) > -b,
{
    let x = if a >= 0 {
        a
    } else {
        -a
    };
    let q = x / b;
    let r = x % b;
    assert(x == q * b + r && 0 <= r < b) by (nonlinear_arith)
        requires
            b >= 1,
            q == x / b,
            r == x % b,
    ;
    assert((q + 1) * b == q * b + b) by (nonlinear_arith);
    assert((-q) * b == -(q * b)) by (nonlinear_arith);
    assert((-(q + 1)) * b == -((q + 1) * b)) by (nonlinear_arith);
    assert(0int % b == 0 && 0int / b == 0) by (nonlinear_arith)
        requires
            b >= 1,
    ;
}

/// Sums and differences are what they come to, held at a thousand million px either way.
pub proof fn law_sums_are_held(a: int, b: int)
    ensures
        -1_000_000_000_000_000 <= a + b <= 1_000_000_000_000_000 ==> sum(a, b) == a + b,
        a + b > 1_000_000_000_000_000 ==> sum(a, b) == 1_000_000_000_000_000,
        a + b < -1_000_000_000_000_000 ==> sum(a, b) == -1_000_000_000_000_000,
        -1_000_000_000_000_000 <= a - b <= 1_000_000_000_000_000 ==> diff(a, b) == a - b,
        a - b > 1_000_000_000_000_000 ==> diff(a, b) == 1_000_000_000_000_000,
        a - b < -1_000_000_000_000_000 ==> diff(a, b) == -1_000_000_000_000_000,
{
}

/// A scaled length is the nearest to its product over its divisor, held as sums are.
pub proof fn law_scaling(v: int, num: int, den: int)
    requires
        den >= 1,
    ensures
        ({
            let r = scaled(v, num, den);
            &&& -1_000_000_000_000_000 <= r <= 1_000_000_000_000_000
            &&& -1_000_000_000_000_000 < r < 1_000_000_000_000_000 ==> -den <= 2 * (r * den - v * num)
                <= den
            &&& r == 1_000_000_000_000_000 ==> 2 * (r * den - v * num) <= den
            &&& r == -1_000_000_000_000_000 ==> -den <= 2 * (r * den - v * num)
        }),
{
    law_rounding(v * num, den);
    let q = round_div(v * num, den);
    let top = 1_000_000_000_000_000int;
    if q > top {
        assert(top * den <= q * den) by (nonlinear_arith)
            requires
                q > top,
                den >= 1,
        ;
    }
    if q < -top {
        assert(-top * den >= q * den) by (nonlinear_arith)
            requires
                q < -top,
                den >= 1,
        ;
    }
}

/// The lesser and the greater of two are one of them, and no greater or lesser than either.
pub proof fn law_extremes(a: int, b: int)
    ensures
        least(a, b) <= a && least(a, b) <= b && (least(a, b) == a || least(a, b) == b),
        greatest(a, b) >= a && greatest(a, b) >= b && (greatest(a, b) == a || greatest(a, b) == b),
{
}

/// Endless numbers are held at the limit, and what is not a number is told apart, however
/// they are spelled.
pub proof fn law_special_numbers(s: Seq<char>)
    requires
        s.len() > 0,
        s[0] != '-',
        s[0] != '+',
    ensures
        lower(s) == "inf"@ || lower(s) == "infinity"@ ==> value_of(s) == Some(
            1_000_000_000_000_000int,
        ) && value_of(seq!['-'] + s) == Some(-1_000_000_000_000_000int),
        lower(s) == "nan"@ ==> number_of(s) == Some(Number::NotANumber) && value_of(s) is None,
{
    reveal_strlit("inf");
    reveal_strlit("infinity");
    reveal_strlit("nan");
    assert(lower("inf"@) =~= "inf"@);
    assert(lower("infinity"@) =~= "infinity"@);
    assert(lower("nan"@) =~= "nan"@);
    assert("inf"@[0] == 'i' && "nan"@[0] == 'n' && "infinity"@[0] == 'i');
    assert((seq!['-'] + s).skip(1) =~= s);
}

/// Digits behind the sixth decimal are cut.
pub proof fn law_extra_decimals(w: Seq<char>, f: Seq<char>)
    requires
        all_digits(w),
        all_digits(f),
        f.len() >= 6,
    ensures
        value_of(w + seq!['.'] + f) == value_of(w + seq!['.'] + f.take(6)),
{
    lemma_fraction(w, f);
    assert forall|i: int| 0 <= i < f.take(6).len() implies is_digit(#[trigger] f.take(6)[i]) by {
        assert(f.take(6)[i] == f[i]);
    }
    lemma_fraction(w, f.take(6));
    let q = w.len() as int + 6;
    let d = w + f;
    let e = w + f.take(6);
    assert(d.take(q) =~= e);
    assert(e.take(q) =~= e);
}

proof fn lemma_fraction(w: Seq<char>, f: Seq<char>)
    requires
        all_digits(w),
        all_digits(f),
        f.len() >= 1,
    ensures
        value_of(w + seq!['.'] + f) == Some(clip(shifted(w + f, w.len() as int + 6) as int)),
{
    let b = w + seq!['.'] + f;
    assert forall|j: int| 0 <= j < b.len() implies b[j] != 'e' && b[j] != 'E' by {
        if j < w.len() {
            assert(b[j] == w[j] && is_digit(w[j]));
        } else if j > w.len() {
            assert(b[j] == f[j - w.len() - 1] && is_digit(f[j - w.len() - 1]));
        }
    }
    assert forall|j: int| 0 <= j < w.len() implies b[j] != '.' by {
        assert(b[j] == w[j] && is_digit(w[j]));
    }
    assert(b[w.len() as int] == '.');
    if w.len() > 0 {
        assert(b[0] == w[0] && is_digit(w[0]));
    }
    lemma_not_named(b);
    lemma_run_is(b, 'e', 'E', b.len() as int);
    lemma_run_is(b, '.', '.', w.len() as int);
    assert(b.take(b.len() as int) =~= b);
    assert(b.take(w.len() as int) =~= w);
    assert(b.skip(w.len() as int + 1) =~= f);
}

/// A negative exponent makes a whole number that many tens smaller.
pub proof fn law_negative_exponents(w: Seq<char>, d: Seq<char>)
    requires
        plain(w),
        plain(d),
        nat_of(d) <= 6,
        nat_of(w) * tens((6 - nat_of(d)) as nat) <= LIMIT,
    ensures
        value_of(w + seq!['e'] + (seq!['-'] + d)) == Some(
            nat_of(w) * tens((6 - nat_of(d)) as nat) as int,
        ),
{
    let x = seq!['-'] + d;
    let b = w + seq!['e'] + x;
    assert forall|j: int| 0 <= j < w.len() implies b[j] != 'e' && b[j] != 'E' && w[j] != '.' by {
        assert(b[j] == w[j] && is_digit(w[j]));
    }
    assert(b[w.len() as int] == 'e');
    lemma_run_is(b, 'e', 'E', w.len() as int);
    lemma_run_is(w, '.', '.', w.len() as int);
    assert(b.take(w.len() as int) =~= w);
    assert(b.skip(w.len() as int + 1) =~= x);
    assert(b[0] == w[0] && is_digit(w[0]) && is_digit(d[0]));
    lemma_not_named(b);
    assert(w + Seq::<char>::empty() =~= w);
    assert(x.skip(1) =~= d);
    assert(exponent_of(x) == Some(-(nat_of(d) as int)));
    let q = w.len() + 6 - nat_of(d);
    lemma_tens((6 - nat_of(d)) as nat);
    if q <= w.len() {
        assert(w.take(q) =~= w);
        assert(nat_of(w) * 1 == nat_of(w));
    }
    assert(nat_of(w) * tens((6 - nat_of(d)) as nat) >= 0) by (nonlinear_arith);
}

} // verus!
