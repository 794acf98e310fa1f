//! Tokenizing CSS values without tearing parenthesized groups apart.

use vstd::prelude::*;
use vstd::string::*;

use crate::scan::{ascii_space, chars_of, is_ascii_space, text_of, texts, trim, trimmed};

verus! {

/// The nesting depth after reading `c` at depth `d`.
pub open spec fn depth_after(c: char, d: int) -> int {
    if c == '(' {
        d + 1
    } else if c == ')' {
        d - 1
    } else {
        d
    }
}

/// The length of the token at the front of `s`: up to whitespace at depth zero.
pub open spec fn token_len(s: Seq<char>, d: int) -> nat
    decreases s.len(),
{
    if s.len() == 0 || (d == 0 && is_ascii_space(s[0])) {
        0
    } else {
        1 + token_len(s.skip(1), depth_after(s[0], d))
    }
}

/// The whitespace-separated tokens of a CSS value, parenthesized groups whole.
pub open spec fn value_tokens(s: Seq<char>) -> Seq<Seq<char>>
    decreases s.len(),
{
    if s.len() == 0 {
        Seq::empty()
    } else if is_ascii_space(s[0]) {
        value_tokens(s.skip(1))
    } else {
        let n = token_len(s, 0);
        if 0 < n <= s.len() {
            seq![s.take(n as int)] + value_tokens(s.skip(n as int))
        } else {
            Seq::empty()
        }
    }
}

pub proof fn lemma_token_len(s: Seq<char>, d: int)
    ensures
        token_len(s, d) <= s.len(),
    decreases s.len(),
{
    if s.len() != 0 && !(d == 0 && is_ascii_space(s[0])) {
        lemma_token_len(s.skip(1), depth_after(s[0], d));
    }
}

/// The index just past the token that starts at `from`.
fn scan_value_token(x: &Vec<char>, from: usize) -> (r: usize)
    requires
        from <= x@.len(),
    ensures
        from <= r <= x@.len(),
        r - from == token_len(x@.skip(from as int), 0),
{
    let mut depth: i128 = 0;
    let mut i: usize = from;
    while i < x.len()
        invariant_except_break
            token_len(x@.skip(from as int), 0) == (i - from) + token_len(
                x@.skip(i as int),
                depth as int,
            ),
        invariant
            from <= i <= x@.len(),
            -(i as int) <= depth <= i,
        ensures
            token_len(x@.skip(from as int), 0) == i - from,
        decreases x@.len() - i,
    {
        let ghost t = x@.skip(i as int);
        proof {
            assert(t[0] == x@[i as int]);
            assert(t.skip(1) =~= x@.skip(i as int + 1));
        }
        if depth == 0 && ascii_space(x[i]) {
            break;
        }
        if x[i] == '(' {
            depth += 1;
        } else if x[i] == ')' {
            depth -= 1;
        }
        i += 1;
    }
    i
}

/// Split a CSS value into its tokens at unnested ASCII whitespace.
pub fn css_value_tokens<'a>(value: &'a str) -> (r: Vec<&'a str>)
    ensures
        texts(r@) == value_tokens(value@),
{
    let x = chars_of(value);
    let mut out: Vec<&'a str> = Vec::new();
    let mut i: usize = 0;
    proof {
        assert(value@.skip(0) =~= value@);
        assert(texts(out@) + value_tokens(value@) =~= value_tokens(value@));
    }
    while i < x.len()
        invariant
            x@ == value@,
            i <= x@.len(),
            texts(out@) + value_tokens(value@.skip(i as int)) == value_tokens(value@),
        decreases x@.len() - i,
    {
        let ghost t = value@.skip(i as int);
        proof {
            assert(t[0] == x@[i as int]);
            assert(t.skip(1) =~= value@.skip(i as int + 1));
        }
        if ascii_space(x[i]) {
            i += 1;
        } else {
            let start: usize = i;
            i = scan_value_token(&x, i);
            let piece = value.substring_char(start, i);
            proof {
                assert(t.take(i - start) =~= piece@);
                assert(t.skip(i - start) =~= value@.skip(i as int));
                let rest = value_tokens(value@.skip(i as int));
                assert(value_tokens(t) == seq![piece@] + rest);
                assert(texts(out@.push(piece)) + rest =~= texts(out@) + (seq![piece@] + rest));
            }
            out.push(piece);
        }
    }
    proof {
        assert(value@.skip(i as int).len() == 0);
        assert(texts(out@) + Seq::<Seq<char>>::empty() =~= texts(out@));
    }
    out
}

/// The length of `s` up to its first comma at depth zero.
pub open spec fn comma_len(s: Seq<char>, d: int) -> nat
    decreases s.len(),
{
    if s.len() == 0 || (d == 0 && s[0] == ',') {
        0
    } else {
        1 + comma_len(s.skip(1), depth_after(s[0], d))
    }
}

/// `s` cut at its commas of depth zero.
pub open spec fn comma_pieces(s: Seq<char>) -> Seq<Seq<char>>
    decreases s.len(),
{
    let n = comma_len(s, 0);
    if n >= s.len() {
        seq![s]
    } else {
        seq![s.take(n as int)] + comma_pieces(s.skip(n as int + 1))
    }
}

/// The pieces trimmed, blank ones left out.
pub open spec fn nonblank(p: Seq<Seq<char>>) -> Seq<Seq<char>>
    decreases p.len(),
{
    if p.len() == 0 {
        Seq::empty()
    } else if trimmed(p[0]).len() == 0 {
        nonblank(p.skip(1))
    } else {
        seq![trimmed(p[0])] + nonblank(p.skip(1))
    }
}

/// The non-blank, trimmed layers of a comma-separated CSS value.
pub open spec fn comma_layers(s: Seq<char>) -> Seq<Seq<char>> {
    nonblank(comma_pieces(s))
}

/// Adding one piece in front adds its trimmed text, unless blank.
proof fn lemma_nonblank_cons(a: Seq<char>, rest: Seq<Seq<char>>)
    ensures
        nonblank(seq![a] + rest) == if trimmed(a).len() == 0 {
            nonblank(rest)
        } else {
            seq![trimmed(a)] + nonblank(rest)
        },
{
    assert((seq![a] + rest).skip(1) =~= rest);
    assert((seq![a] + rest)[0] == a);
}

fn push_nonblank<'a>(out: &mut Vec<&'a str>, piece: &'a str)
    ensures
        texts(final(out)@) == if trimmed(piece@).len() == 0 {
            texts(old(out)@)
        } else {
            texts(old(out)@).push(trimmed(piece@))
        },
{
    let t = trim(piece);
    if !t.is_empty() {
        out.push(t);
        proof {
            assert(texts(out@) =~= texts(old(out)@).push(t@));
        }
    }
}

/// Split a value at its top-level commas, trimming each layer and dropping
/// blank ones.
pub fn top_level_comma_split<'a>(value: &'a str) -> (r: Vec<&'a str>)
    ensures
        texts(r@) == comma_layers(value@),
{
    let x = chars_of(value);
    let mut out: Vec<&'a str> = Vec::new();
    let mut start: usize = 0;
    let mut depth: i128 = 0;
    let mut i: usize = 0;
    proof {
        assert(value@.skip(0) =~= value@);
        assert(texts(out@) + comma_layers(value@) =~= comma_layers(value@));
    }
    while i < x.len()
        invariant
            x@ == value@,
            start <= i <= x@.len(),
            -(i as int) <= depth <= i,
            comma_len(value@.skip(start as int), 0) == (i - start) + comma_len(
                value@.skip(i as int),
                depth as int,
            ),
            texts(out@) + comma_layers(value@.skip(start as int)) == comma_layers(value@),
        decreases x@.len() - i,
    {
        let ghost t = value@.skip(i as int);
        proof {
            assert(t[0] == x@[i as int]);
            assert(t.skip(1) =~= value@.skip(i as int + 1));
        }
        if x[i] == '(' {
            depth += 1;
        } else if x[i] == ')' {
            depth -= 1;
        } else if x[i] == ',' && depth == 0 {
            let piece = value.substring_char(start, i);
            let ghost before = texts(out@);
            push_nonblank(&mut out, piece);
            proof {
                let s0 = value@.skip(start as int);
                assert(s0.take(i - start) =~= piece@);
                assert(s0.skip(i - start + 1) =~= value@.skip(i as int + 1));
                let rest = comma_pieces(value@.skip(i as int + 1));
                assert(comma_pieces(s0) == seq![piece@] + rest);
                lemma_nonblank_cons(piece@, rest);
                assert(texts(out@) + nonblank(rest) =~= before + nonblank(seq![piece@] + rest));
            }
            start = i + 1;
        }
        i += 1;
    }
    let piece = value.substring_char(start, x.len());
    let ghost before = texts(out@);
    push_nonblank(&mut out, piece);
    proof {
        let s0 = value@.skip(start as int);
        assert(s0 =~= piece@);
        assert(comma_pieces(s0) == seq![piece@]);
        assert(seq![piece@] + Seq::<Seq<char>>::empty() =~= seq![piece@]);
        lemma_nonblank_cons(piece@, Seq::empty());
        assert(nonblank(Seq::<Seq<char>>::empty()) == Seq::<Seq<char>>::empty());
        assert(texts(out@) =~= before + nonblank(seq![piece@]));
    }
    out
}

/// The index of the parenthesis that closes the one opened before `s`, `d` levels
/// being open.
pub open spec fn close_at(s: Seq<char>, d: int) -> Option<int>
    decreases s.len(),
{
    if s.len() == 0 {
        None
    } else if s[0] == ')' && d == 1 {
        Some(0)
    } else {
        match close_at(s.skip(1), depth_after(s[0], d)) {
            Some(i) => Some(i + 1),
            None => None,
        }
    }
}

/// The text up to the parenthesis closing the one opened before `s`.
pub open spec fn balanced(s: Seq<char>) -> Option<Seq<char>> {
    match close_at(s, 1) {
        Some(i) => Some(s.take(i)),
        None => None,
    }
}

pub fn balanced_paren_slice<'a>(s: &'a str) -> (r: Option<&'a str>)
    ensures
        text_of(r) == balanced(s@),
{
    let x = chars_of(s);
    let mut depth: i128 = 1;
    let mut i: usize = 0;
    proof {
        assert(s@.skip(0) =~= s@);
    }
    while i < x.len()
        invariant
            x@ == s@,
            i <= x@.len(),
            1 <= depth <= i + 1,
            match close_at(s@.skip(i as int), depth as int) {
                Some(k) => close_at(s@, 1) == Some(i + k),
                None => close_at(s@, 1) is None,
            },
        decreases x@.len() - i,
    {
        let ghost t = s@.skip(i as int);
        proof {
            assert(t[0] == x@[i as int]);
            assert(t.skip(1) =~= s@.skip(i as int + 1));
        }
        if x[i] == '(' {
            depth += 1;
        } else if x[i] == ')' {
            if depth == 1 {
                let piece = s.substring_char(0, i);
                proof {
                    assert(piece@ =~= s@.take(i as int));
                }
                return Some(piece);
            }
            depth -= 1;
        }
        i += 1;
    }
    None
}

} // verus!
