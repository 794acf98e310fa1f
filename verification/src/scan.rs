//! Scanning text: whitespace, trimming, splitting and searching over the
//! characters of a string.

use vstd::prelude::*;
use vstd::string::*;

verus! {

/// The Unicode `White_Space` property.
pub open spec fn is_space(c: char) -> bool {
    let n = c as u32;
    ||| 9 <= n <= 13
    ||| n == 32
    ||| n == 0x85
    ||| n == 0xa0
    ||| n == 0x1680
    ||| 0x2000 <= n <= 0x200a
    ||| n == 0x2028
    ||| n == 0x2029
    ||| n == 0x202f
    ||| n == 0x205f
    ||| n == 0x3000
}

/// The ASCII whitespace of the Infra standard (no vertical tab).
pub open spec fn is_ascii_space(c: char) -> bool {
    let n = c as u32;
    n == 9 || n == 10 || n == 12 || n == 13 || n == 32
}

pub open spec fn lower_char(c: char) -> char {
    if 'A' <= c <= 'Z' {
        ((c as u8) + 32) as u8 as char
    } else {
        c
    }
}

/// ASCII letters lowered, everything else kept.
pub open spec fn lower(s: Seq<char>) -> Seq<char> {
    s.map_values(|c: char| lower_char(c))
}

pub fn space(c: char) -> (r: bool)
    ensures
        r == is_space(c),
{
    let n: u32 = c as u32;
    (9 <= n && n <= 13) || n == 32 || n == 0x85 || n == 0xa0 || n == 0x1680 || (0x2000 <= n && n
        <= 0x200a) || n == 0x2028 || n == 0x2029 || n == 0x202f || n == 0x205f || n == 0x3000
}

pub fn ascii_space(c: char) -> (r: bool)
    ensures
        r == is_ascii_space(c),
{
    let n: u32 = c as u32;
    n == 9 || n == 10 || n == 12 || n == 13 || n == 32
}

pub fn lower_one(c: char) -> (r: char)
    ensures
        r == lower_char(c),
{
    if 'A' <= c && c <= 'Z' {
        ((c as u8) + 32) as char
    } else {
        c
    }
}

/// The characters of `s`, in order.
pub fn chars_of(s: &str) -> (r: Vec<char>)
    ensures
        r@ == s@,
{
    let mut out: Vec<char> = Vec::new();
    for c in it: s.chars()
        invariant
            out@ == s@.take(it.index()),
            it.seq() == s@,
    {
        proof {
            assert(s@.take(it.index() + 1) =~= s@.take(it.index()).push(c));
        }
        out.push(c);
    }
    proof {
        assert(s@.take(s@.len() as int) =~= s@);
    }
    out
}

/// A `String` holding the characters `v`.
pub fn string_of(v: &[char]) -> (r: String)
    ensures
        r@ == v@,
{
    let mut out: String = String::new();
    let mut i: usize = 0;
    while i < v.len()
        invariant
            i <= v.len(),
            out@ == v@.take(i as int),
        decreases v.len() - i,
    {
        proof {
            assert(v@.take(i as int + 1) =~= v@.take(i as int).push(v@[i as int]));
        }
        out.push(v[i]);
        i += 1;
    }
    proof {
        assert(v@.take(v@.len() as int) =~= v@);
    }
    out
}

/// `String::push` appends one character and touches nothing else.
pub assume_specification[ String::push ](s: &mut String, c: char)
    ensures
        final(s)@ == old(s)@.push(c),
;

/// Whether two texts hold the same characters.
pub fn same(a: &str, b: &str) -> (r: bool)
    ensures
        r == (a@ == b@),
{
    let x = chars_of(a);
    let y = chars_of(b);
    if x.len() != y.len() {
        return false;
    }
    let mut i: usize = 0;
    while i < x.len()
        invariant
            x@ == a@,
            y@ == b@,
            x@.len() == y@.len(),
            i <= x@.len(),
            forall|j: int| 0 <= j < i ==> x@[j] == y@[j],
        decreases x@.len() - i,
    {
        if x[i] != y[i] {
            return false;
        }
        i += 1;
    }
    proof {
        assert(a@ =~= b@);
    }
    true
}

/// Whether two texts are equal once ASCII letters are lowered.
pub fn same_ignoring_case(a: &str, b: &str) -> (r: bool)
    ensures
        r == (lower(a@) == lower(b@)),
{
    let x = chars_of(a);
    let y = chars_of(b);
    if x.len() != y.len() {
        proof {
            assert(lower(a@).len() != lower(b@).len());
        }
        return false;
    }
    let mut i: usize = 0;
    while i < x.len()
        invariant
            x@ == a@,
            y@ == b@,
            x@.len() == y@.len(),
            i <= x@.len(),
            forall|j: int| 0 <= j < i ==> lower_char(x@[j]) == lower_char(y@[j]),
        decreases x@.len() - i,
    {
        if lower_one(x[i]) != lower_one(y[i]) {
            proof {
                assert(lower(a@)[i as int] != lower(b@)[i as int]);
            }
            return false;
        }
        i += 1;
    }
    proof {
        assert(lower(a@) =~= lower(b@));
    }
    true
}

/// `s` with its ASCII letters lowered.
pub fn to_lower(s: &str) -> (r: String)
    ensures
        r@ == lower(s@),
{
    let x = chars_of(s);
    let mut out: Vec<char> = Vec::new();
    let mut i: usize = 0;
    while i < x.len()
        invariant
            x@ == s@,
            i <= x@.len(),
            out@.len() == i,
            forall|j: int| 0 <= j < i ==> out@[j] == lower_char(x@[j]),
        decreases x@.len() - i,
    {
        out.push(lower_one(x[i]));
        i += 1;
    }
    proof {
        assert(out@ =~= lower(s@));
    }
    string_of(out.as_slice())
}

// --------------------------------------------------------------------------
// trimming
// --------------------------------------------------------------------------

/// `s` without its leading whitespace.
pub open spec fn trim_front(s: Seq<char>) -> Seq<char>
    decreases s.len(),
{
    if s.len() > 0 && is_space(s[0]) {
        trim_front(s.skip(1))
    } else {
        s
    }
}

/// `s` without its trailing whitespace.
pub open spec fn trim_back(s: Seq<char>) -> Seq<char>
    decreases s.len(),
{
    if s.len() > 0 && is_space(s.last()) {
        trim_back(s.drop_last())
    } else {
        s
    }
}

/// `s` without the whitespace at either end.
pub open spec fn trimmed(s: Seq<char>) -> Seq<char> {
    trim_back(trim_front(s))
}

/// The part of `s` between its first and last non-space characters.
pub fn trim<'a>(s: &'a str) -> (r: &'a str)
    ensures
        r@ == trimmed(s@),
{
    let x = chars_of(s);
    let mut a: usize = 0;
    proof {
        assert(s@.skip(0) =~= s@);
    }
    while a < x.len() && space(x[a])
        invariant
            x@ == s@,
            a <= x@.len(),
            trim_front(s@) == trim_front(s@.skip(a as int)),
        decreases x@.len() - a,
    {
        proof {
            assert(s@.skip(a as int)[0] == s@[a as int]);
            assert(s@.skip(a as int).skip(1) =~= s@.skip(a as int + 1));
        }
        a += 1;
    }
    proof {
        if a < x.len() {
            assert(s@.skip(a as int)[0] == s@[a as int]);
        }
        assert(trim_front(s@) == s@.skip(a as int));
    }
    let mut b: usize = x.len();
    proof {
        assert(s@.subrange(a as int, b as int) =~= s@.skip(a as int));
    }
    while b > a && space(x[b - 1])
        invariant
            x@ == s@,
            a <= b <= x@.len(),
            trimmed(s@) == trim_back(s@.subrange(a as int, b as int)),
        decreases b,
    {
        proof {
            let t = s@.subrange(a as int, b as int);
            assert(t.last() == s@[b - 1]);
            assert(t.drop_last() =~= s@.subrange(a as int, b - 1));
        }
        b -= 1;
    }
    proof {
        if b > a {
            assert(s@.subrange(a as int, b as int).last() == s@[b - 1]);
        }
    }
    s.substring_char(a, b)
}

// --------------------------------------------------------------------------
// prefixes, suffixes, occurrences
// --------------------------------------------------------------------------

/// Whether `n` stands in `s` at index `i`.
pub open spec fn occurs_at(s: Seq<char>, n: Seq<char>, i: int) -> bool {
    0 <= i && i + n.len() <= s.len() && s.subrange(i, i + n.len()) == n
}

/// The first index from `i` on at which `n` stands in `s`.
pub open spec fn index_from(s: Seq<char>, n: Seq<char>, i: int) -> Option<int>
    decreases s.len() + 1 - i,
{
    if i < 0 || i + n.len() > s.len() {
        None
    } else if occurs_at(s, n, i) {
        Some(i)
    } else {
        index_from(s, n, i + 1)
    }
}

/// The first index at which `n` stands in `s`.
pub open spec fn index_of(s: Seq<char>, n: Seq<char>) -> Option<int> {
    index_from(s, n, 0)
}

pub open spec fn occurs(s: Seq<char>, n: Seq<char>) -> bool {
    index_of(s, n) is Some
}

pub open spec fn starts(s: Seq<char>, p: Seq<char>) -> bool {
    occurs_at(s, p, 0)
}

pub open spec fn ends(s: Seq<char>, p: Seq<char>) -> bool {
    occurs_at(s, p, s.len() - p.len())
}

/// What follows the prefix `p` of `s`.
pub open spec fn after_prefix(s: Seq<char>, p: Seq<char>) -> Option<Seq<char>> {
    if starts(s, p) {
        Some(s.skip(p.len() as int))
    } else {
        None
    }
}

/// What precedes the suffix `p` of `s`.
pub open spec fn before_suffix(s: Seq<char>, p: Seq<char>) -> Option<Seq<char>> {
    if ends(s, p) {
        Some(s.take(s.len() - p.len()))
    } else {
        None
    }
}

/// The characters of an optional text.
pub open spec fn text_of(o: Option<&str>) -> Option<Seq<char>> {
    match o {
        Some(t) => Some(t@),
        None => None,
    }
}

fn stands_at(x: &Vec<char>, n: &Vec<char>, i: usize) -> (r: bool)
    requires
        i + n@.len() <= x@.len(),
    ensures
        r == occurs_at(x@, n@, i as int),
{
    let end: usize = x.len();
    let mut k: usize = 0;
    while k < n.len()
        invariant
            end == x@.len(),
            i + n@.len() <= end,
            k <= n@.len(),
            forall|j: int| 0 <= j < k ==> x@[i + j] == n@[j],
        decreases n@.len() - k,
    {
        if x[i + k] != n[k] {
            proof {
                assert(x@.subrange(i as int, i + n@.len())[k as int] != n@[k as int]);
            }
            return false;
        }
        k += 1;
    }
    proof {
        assert(x@.subrange(i as int, i + n@.len()) =~= n@);
    }
    true
}

/// The first place (in characters) at which `n` stands in `s`.
/// Whether a text stands at `i`.
pub fn text_at(x: &Vec<char>, n: &str, i: usize) -> (r: bool)
    ensures
        r == occurs_at(x@, n@, i as int),
{
    let y = chars_of(n);
    i <= x.len() && y.len() <= x.len() - i && stands_at(x, &y, i)
}

pub fn find(s: &str, n: &str) -> (r: Option<usize>)
    ensures
        match r {
            Some(i) => index_of(s@, n@) == Some(i as int) && occurs_at(s@, n@, i as int),
            None => index_of(s@, n@) is None,
        },
{
    let x = chars_of(s);
    let y = chars_of(n);
    if y.len() > x.len() {
        return None;
    }
    let last: usize = x.len() - y.len();
    let mut i: usize = 0;
    while i <= last
        invariant
            x@ == s@,
            y@ == n@,
            last == x@.len() - y@.len(),
            i <= last + 1,
            index_of(s@, n@) == index_from(s@, n@, i as int),
        decreases last + 1 - i,
    {
        if stands_at(&x, &y, i) {
            return Some(i);
        }
        if i == last {
            proof {
                assert(index_from(s@, n@, i + 1) is None);
            }
            return None;
        }
        i += 1;
    }
    None
}

pub fn contains(s: &str, n: &str) -> (r: bool)
    ensures
        r == occurs(s@, n@),
{
    find(s, n).is_some()
}

pub fn starts_with(s: &str, p: &str) -> (r: bool)
    ensures
        r == starts(s@, p@),
{
    let x = chars_of(s);
    let y = chars_of(p);
    y.len() <= x.len() && stands_at(&x, &y, 0)
}

pub fn strip_prefix<'a>(s: &'a str, p: &str) -> (r: Option<&'a str>)
    ensures
        text_of(r) == after_prefix(s@, p@),
{
    let x = chars_of(s);
    let y = chars_of(p);
    if y.len() <= x.len() && stands_at(&x, &y, 0) {
        let r = s.substring_char(y.len(), x.len());
        proof {
            assert(r@ =~= s@.skip(p@.len() as int));
        }
        Some(r)
    } else {
        None
    }
}

pub fn strip_suffix<'a>(s: &'a str, p: &str) -> (r: Option<&'a str>)
    ensures
        text_of(r) == before_suffix(s@, p@),
{
    let x = chars_of(s);
    let y = chars_of(p);
    if y.len() <= x.len() && stands_at(&x, &y, x.len() - y.len()) {
        let r = s.substring_char(0, x.len() - y.len());
        proof {
            assert(r@ =~= s@.take(s@.len() - p@.len()));
        }
        Some(r)
    } else {
        None
    }
}

// --------------------------------------------------------------------------
// splitting
// --------------------------------------------------------------------------

/// The texts of a list of slices.
pub open spec fn texts(v: Seq<&str>) -> Seq<Seq<char>> {
    v.map_values(|t: &str| t@)
}

/// The texts of a list of strings.
pub open spec fn owned_texts(v: Seq<String>) -> Seq<Seq<char>> {
    v.map_values(|t: String| t@)
}

/// The length of the longest prefix of `s` free of `a` and `b`.
pub open spec fn run_without(s: Seq<char>, a: char, b: char) -> nat
    decreases s.len(),
{
    if s.len() == 0 || s[0] == a || s[0] == b {
        0
    } else {
        1 + run_without(s.skip(1), a, b)
    }
}

pub proof fn lemma_run_without(s: Seq<char>, a: char, b: char)
    ensures
        run_without(s, a, b) <= s.len(),
        forall|j: int| 0 <= j < run_without(s, a, b) ==> s[j] != a && s[j] != b,
        run_without(s, a, b) < s.len() ==> s[run_without(s, a, b) as int] == a || s[run_without(
            s,
            a,
            b,
        ) as int] == b,
    decreases s.len(),
{
    if s.len() == 0 || s[0] == a || s[0] == b {
    } else {
        lemma_run_without(s.skip(1), a, b);
        let n = run_without(s.skip(1), a, b);
        assert forall|j: int| 0 <= j < 1 + n implies s[j] != a && s[j] != b by {
            if j > 0 {
                assert(s.skip(1)[j - 1] == s[j]);
            }
        }
        if 1 + n < s.len() {
            assert(s.skip(1)[n as int] == s[n as int + 1]);
        }
    }
}

/// `s` cut at every `a` and every `b`; one more piece than cuts.
pub open spec fn split_at(s: Seq<char>, a: char, b: char) -> Seq<Seq<char>>
    decreases s.len(),
{
    let n = run_without(s, a, b);
    if n >= s.len() {
        seq![s]
    } else {
        seq![s.take(n as int)] + split_at(s.skip(n as int + 1), a, b)
    }
}

/// Cut `s` at every occurrence of either separator.
pub fn split<'a>(s: &'a str, a: char, b: char) -> (r: Vec<&'a str>)
    ensures
        texts(r@) == split_at(s@, a, b),
        r@.len() >= 1,
{
    let x = chars_of(s);
    let mut out: Vec<&'a str> = Vec::new();
    let mut start: usize = 0;
    let mut i: usize = 0;
    proof {
        assert(s@.skip(0) =~= s@);
        assert(texts(out@) + split_at(s@, a, b) =~= split_at(s@, a, b));
    }
    while i < x.len()
        invariant
            x@ == s@,
            start <= i <= x@.len(),
            forall|j: int| start <= j < i ==> x@[j] != a && x@[j] != b,
            texts(out@) + split_at(s@.skip(start as int), a, b) == split_at(s@, a, b),
        decreases x@.len() - i,
    {
        if x[i] == a || x[i] == b {
            let piece = s.substring_char(start, i);
            proof {
                let t = s@.skip(start as int);
                lemma_run_is(t, a, b, i - start);
                assert(t.take(i - start) =~= piece@);
                assert(t.skip(i - start + 1) =~= s@.skip(i as int + 1));
                let o2 = out@.push(piece);
                assert(texts(o2) + split_at(s@.skip(i as int + 1), a, b) =~= texts(out@) + (seq![
                    piece@,
                ] + split_at(s@.skip(i as int + 1), a, b)));
            }
            out.push(piece);
            start = i + 1;
        }
        i += 1;
    }
    let piece = s.substring_char(start, x.len());
    proof {
        let t = s@.skip(start as int);
        lemma_run_is(t, a, b, t.len() as int);
        assert(t =~= piece@);
        assert(texts(out@.push(piece)) =~= texts(out@) + seq![piece@]);
    }
    out.push(piece);
    out
}

pub proof fn lemma_run_is(s: Seq<char>, a: char, b: char, n: int)
    requires
        0 <= n <= s.len(),
        forall|j: int| 0 <= j < n ==> s[j] != a && s[j] != b,
        n < s.len() ==> s[n] == a || s[n] == b,
    ensures
        run_without(s, a, b) == n,
    decreases s.len(),
{
    if n > 0 {
        assert(s[0] != a && s[0] != b);
        assert forall|j: int| 0 <= j < n - 1 implies s.skip(1)[j] != a && s.skip(1)[j] != b by {
            assert(s.skip(1)[j] == s[j + 1]);
        }
        lemma_run_is(s.skip(1), a, b, n - 1);
    }
}

/// The length of the longest prefix of `s` without whitespace.
pub open spec fn word_len(s: Seq<char>) -> nat
    decreases s.len(),
{
    if s.len() == 0 || is_space(s[0]) {
        0
    } else {
        1 + word_len(s.skip(1))
    }
}

pub proof fn lemma_word_len(s: Seq<char>)
    ensures
        word_len(s) <= s.len(),
    decreases s.len(),
{
    if s.len() > 0 && !is_space(s[0]) {
        lemma_word_len(s.skip(1));
    }
}

/// The maximal runs of non-space characters of `s`, in order.
pub open spec fn words_in(s: Seq<char>) -> Seq<Seq<char>>
    decreases s.len(),
{
    if s.len() == 0 {
        Seq::empty()
    } else if is_space(s[0]) {
        words_in(s.skip(1))
    } else {
        let n = word_len(s);
        if 0 < n <= s.len() {
            seq![s.take(n as int)] + words_in(s.skip(n as int))
        } else {
            Seq::empty()
        }
    }
}

pub proof fn lemma_word_is(s: Seq<char>, n: int)
    requires
        0 <= n <= s.len(),
        forall|j: int| 0 <= j < n ==> !is_space(#[trigger] s[j]),
        n < s.len() ==> is_space(s[n]),
    ensures
        word_len(s) == n,
    decreases s.len(),
{
    if n > 0 {
        assert(!is_space(s[0]));
        assert forall|j: int| 0 <= j < n - 1 implies !is_space(#[trigger] s.skip(1)[j]) by {
            assert(s.skip(1)[j] == s[j + 1]);
        }
        lemma_word_is(s.skip(1), n - 1);
    }
}

/// The whitespace-separated words of `s`.
pub fn words<'a>(s: &'a str) -> (r: Vec<&'a str>)
    ensures
        texts(r@) == words_in(s@),
{
    let x = chars_of(s);
    let mut out: Vec<&'a str> = Vec::new();
    let mut i: usize = 0;
    proof {
        assert(s@.skip(0) =~= s@);
        assert(texts(out@) + words_in(s@) =~= words_in(s@));
    }
    while i < x.len()
        invariant
            x@ == s@,
            i <= x@.len(),
            texts(out@) + words_in(s@.skip(i as int)) == words_in(s@),
        decreases x@.len() - i,
    {
        let ghost t = s@.skip(i as int);
        proof {
            assert(t[0] == s@[i as int]);
        }
        if space(x[i]) {
            proof {
                assert(t.skip(1) =~= s@.skip(i as int + 1));
            }
            i += 1;
        } else {
            let start: usize = i;
            while i < x.len() && !space(x[i])
                invariant
                    x@ == s@,
                    start <= i <= x@.len(),
                    forall|j: int| start <= j < i ==> !is_space(#[trigger] x@[j]),
                decreases x@.len() - i,
            {
                i += 1;
            }
            let piece = s.substring_char(start, i);
            proof {
                assert forall|j: int| 0 <= j < i - start implies !is_space(#[trigger] t[j]) by {
                    assert(t[j] == x@[start + j]);
                }
                lemma_word_is(t, i - start);
                assert(start < i) by {
                    assert(!is_space(x@[start as int]));
                }
                assert(t.take(i - start) =~= piece@);
                assert(t.skip(i - start) =~= s@.skip(i as int));
                let rest = words_in(s@.skip(i as int));
                assert(words_in(t) == seq![piece@] + rest);
                assert(texts(out@.push(piece)) + rest =~= texts(out@) + (seq![piece@] + rest));
            }
            out.push(piece);
        }
    }
    proof {
        assert(s@.skip(i as int).len() == 0);
        assert(texts(out@) + Seq::<Seq<char>>::empty() =~= texts(out@));
    }
    out
}

/// `s` cut at its first `c`, where it has one.
pub open spec fn cut_at(s: Seq<char>, c: char) -> Option<(Seq<char>, Seq<char>)> {
    let n = run_without(s, c, c) as int;
    if n < s.len() {
        Some((s.take(n), s.skip(n + 1)))
    } else {
        None
    }
}

/// Cut `s` at the first occurrence of `c`.
pub fn split_once<'a>(s: &'a str, c: char) -> (r: Option<(&'a str, &'a str)>)
    ensures
        match r {
            Some((a, b)) => cut_at(s@, c) == Some((a@, b@)),
            None => cut_at(s@, c) is None,
        },
{
    let x = chars_of(s);
    let mut n: usize = 0;
    while n < x.len() && x[n] != c
        invariant
            x@ == s@,
            n <= x@.len(),
            forall|j: int| 0 <= j < n ==> x@[j] != c,
        decreases x@.len() - n,
    {
        n += 1;
    }
    proof {
        lemma_run_is(s@, c, c, n as int);
    }
    if n >= x.len() {
        return None;
    }
    let a = s.substring_char(0, n);
    let b = s.substring_char(n + 1, x.len());
    proof {
        assert(a@ =~= s@.take(n as int));
        assert(b@ =~= s@.skip(n as int + 1));
    }
    Some((a, b))
}

} // verus!
