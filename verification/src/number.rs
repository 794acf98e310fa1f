//! Exact decimal numbers.
//!
//! A CSS number is kept as a count of millionths, so `0.1` is one tenth and
//! nothing else. Digits past the sixth decimal are dropped, and a magnitude past
//! [`LIMIT`] (a thousand million) is held at [`LIMIT`]. Lengths are numbers of
//! CSS pixels in the same scale.

use vstd::prelude::*;

use crate::scan::{chars_of, lemma_run_is, lower, run_without, same_ignoring_case, string_of};

verus! {

/// One, in millionths.
pub const ONE: i64 = 1_000_000;

/// The largest magnitude a number takes, in millionths.
pub const LIMIT: i64 = 1_000_000_000_000_000;

/// A parsed number: a count of millionths, or the `nan` keyword.
#[derive(Debug, Clone, Copy, PartialEq, Eq, Structural)]
pub enum Number {
    NotANumber,
    Value(i64),
}

// --------------------------------------------------------------------------
// arithmetic
// --------------------------------------------------------------------------

/// `x` held within the limits.
pub open spec fn clip(x: int) -> int {
    if x > LIMIT {
        LIMIT as int
    } else if x < -LIMIT {
        -LIMIT
    } else {
        x
    }
}

/// `a / b` to the nearest integer, halves away from zero (`b > 0`).
pub open spec fn round_div(a: int, b: int) -> int {
    if a >= 0 {
        if 2 * (a % b) >= b {
            a / b + 1
        } else {
            a / b
        }
    } else {
        if 2 * ((-a) % b) >= b {
            -((-a) / b + 1)
        } else {
            -((-a) / b)
        }
    }
}

/// `v * num / den`, rounded and held within the limits.
pub open spec fn scaled(v: int, num: int, den: int) -> int {
    clip(round_div(v * num, den))
}

/// `a + b` held within the limits.
pub open spec fn sum(a: int, b: int) -> int {
    clip(a + b)
}

/// `a - b` held within the limits.
pub open spec fn diff(a: int, b: int) -> int {
    clip(a - b)
}

pub open spec fn least(a: int, b: int) -> int {
    if a <= b {
        a
    } else {
        b
    }
}

pub open spec fn greatest(a: int, b: int) -> int {
    if a >= b {
        a
    } else {
        b
    }
}

fn clip128(x: i128) -> (r: i64)
    ensures
        r == clip(x as int),
{
    if x > LIMIT as i128 {
        LIMIT
    } else if x < -(LIMIT as i128) {
        -LIMIT
    } else {
        x as i64
    }
}

pub fn plus(a: i64, b: i64) -> (r: i64)
    ensures
        r == sum(a as int, b as int),
{
    clip128(a as i128 + b as i128)
}

pub fn minus(a: i64, b: i64) -> (r: i64)
    ensures
        r == diff(a as int, b as int),
{
    clip128(a as i128 - b as i128)
}

pub fn min_of(a: i64, b: i64) -> (r: i64)
    ensures
        r == least(a as int, b as int),
{
    if a <= b {
        a
    } else {
        b
    }
}

pub fn max_of(a: i64, b: i64) -> (r: i64)
    ensures
        r == greatest(a as int, b as int),
{
    if a >= b {
        a
    } else {
        b
    }
}

/// `a / d` to the nearest integer, halves away from zero.
pub fn round_ratio(a: i128, d: i128) -> (r: i128)
    requires
        d > 0,
        -0x4000_0000_0000_0000_0000_0000_0000_0000 <= a
            <= 0x4000_0000_0000_0000_0000_0000_0000_0000,
    ensures
        r == round_div(a as int, d as int),
        a >= 0 ==> 0 <= r <= a + 1,
        a < 0 ==> a - 1 <= r <= 0,
        d >= 2 ==> -0x4000_0000_0000_0000_0000_0000_0000_0000 <= r
            <= 0x4000_0000_0000_0000_0000_0000_0000_0000,
{
    let m: i128 = if a >= 0 {
        a
    } else {
        -a
    };
    let q: i128 = m / d;
    let rest: i128 = m % d;
    proof {
        assert(0 <= q <= m) by (nonlinear_arith)
            requires
                q == m as int / d as int,
                m >= 0,
                d > 0,
        ;
        if d >= 2 {
            assert(q + q <= m) by (nonlinear_arith)
                requires
                    q == m as int / d as int,
                    m >= 0,
                    d >= 2,
            ;
        }
    }
    let near: i128 = if rest >= d - rest {
        q + 1
    } else {
        q
    };
    if a >= 0 {
        near
    } else {
        -near
    }
}

/// `v * num / den` to the nearest integer, held within the limits.
pub fn scale(v: i64, num: i64, den: i64) -> (r: i64)
    requires
        den > 0,
    ensures
        r == scaled(v as int, num as int, den as int),
{
    proof {
        let (x, y) = (v as int, num as int);
        let m: int = 0x8000_0000_0000_0000;
        assert(-m * m <= x * y <= m * m) by (nonlinear_arith)
            requires
                -m <= x <= m,
                -m <= y <= m,
                m > 0,
        ;
        assert(m * m == 0x4000_0000_0000_0000_0000_0000_0000_0000) by (nonlinear_arith)
            requires
                m == 0x8000_0000_0000_0000,
        ;
    }
    clip128(round_ratio(v as i128 * num as i128, den as i128))
}

/// `v` millionths as the nearest whole number.
pub fn whole(v: i64) -> (r: i64)
    ensures
        r == round_div(v as int, ONE as int),
{
    let r: i128 = round_ratio(v as i128, 1_000_000);
    r as i64
}

/// `x * y + z * w` of millionths, in millionths.
pub open spec fn dot(x: int, y: int, z: int, w: int) -> int {
    clip(round_div(clip(x) * clip(y) + clip(z) * clip(w), ONE as int))
}

/// `x * y + z * w`, each held within the limits.
pub fn dot_of(x: i64, y: i64, z: i64, w: i64) -> (r: i64)
    ensures
        r == dot(x as int, y as int, z as int, w as int),
{
    let (a, b, c, d): (i128, i128, i128, i128) = (
        clip128(x as i128) as i128,
        clip128(y as i128) as i128,
        clip128(z as i128) as i128,
        clip128(w as i128) as i128,
    );
    proof {
        let m: int = LIMIT as int;
        assert(-m * m <= a * b <= m * m && -m * m <= c * d <= m * m) by (nonlinear_arith)
            requires
                -m <= a <= m,
                -m <= b <= m,
                -m <= c <= m,
                -m <= d <= m,
                m > 0,
        ;
        assert(m * m == 1_000_000_000_000_000_000_000_000_000_000) by (nonlinear_arith)
            requires
                m == 1_000_000_000_000_000,
        ;
    }
    clip128(round_ratio(a * b + c * d, 1_000_000))
}

// --------------------------------------------------------------------------
// digits
// --------------------------------------------------------------------------

pub open spec fn is_digit(c: char) -> bool {
    '0' <= c <= '9'
}

pub open spec fn digit(c: char) -> nat {
    (c as u32 - '0' as u32) as nat
}

pub open spec fn all_digits(s: Seq<char>) -> bool {
    forall|i: int| 0 <= i < s.len() ==> is_digit(#[trigger] s[i])
}

/// The natural number that a run of digits writes.
pub open spec fn nat_of(s: Seq<char>) -> nat
    decreases s.len(),
{
    if s.len() == 0 {
        0
    } else {
        nat_of(s.drop_last()) * 10 + digit(s.last())
    }
}

pub open spec fn pow10(n: nat) -> nat
    decreases n,
{
    if n == 0 {
        1
    } else {
        10 * pow10((n - 1) as nat)
    }
}

/// The integer part of the number whose digits are `d` with the decimal point
/// after the first `q` of them (before all of them where `q` is negative).
pub open spec fn shifted(d: Seq<char>, q: int) -> nat {
    if q <= 0 {
        0
    } else if q <= d.len() {
        nat_of(d.take(q))
    } else {
        nat_of(d) * pow10((q - d.len()) as nat)
    }
}

/// Split off a leading sign: whether it was a minus, and the rest.
pub open spec fn signed(s: Seq<char>) -> (bool, Seq<char>) {
    if s.len() > 0 && (s[0] == '-' || s[0] == '+') {
        (s[0] == '-', s.skip(1))
    } else {
        (false, s)
    }
}

/// The exponent after an `e`: an optional sign and at least one digit.
pub open spec fn exponent_of(s: Seq<char>) -> Option<int> {
    let (neg, d) = signed(s);
    if d.len() > 0 && all_digits(d) {
        Some(if neg {
            -(nat_of(d) as int)
        } else {
            nat_of(d) as int
        })
    } else {
        None
    }
}

/// The whole and fractional digits of a mantissa.
pub open spec fn mantissa_parts(m: Seq<char>) -> (Seq<char>, Seq<char>) {
    let d = run_without(m, '.', '.') as int;
    if d < m.len() {
        (m.take(d), m.skip(d + 1))
    } else {
        (m, Seq::empty())
    }
}

/// The millionths that an unsigned decimal with optional exponent writes.
pub open spec fn magnitude_of(b: Seq<char>) -> Option<int> {
    let n = run_without(b, 'e', 'E') as int;
    let (w, f) = mantissa_parts(b.take(n));
    if !all_digits(w) || !all_digits(f) || w.len() + f.len() == 0 {
        None
    } else if n >= b.len() {
        Some(clip(shifted(w + f, w.len() as int + 6) as int))
    } else {
        match exponent_of(b.skip(n + 1)) {
            Some(e) => Some(clip(shifted(w + f, w.len() + 6 + e) as int)),
            None => None,
        }
    }
}

/// The number that `s` writes, in millionths.
pub open spec fn number_of(s: Seq<char>) -> Option<Number> {
    let (neg, b) = signed(s);
    if lower(b) == lower("inf"@) || lower(b) == lower("infinity"@) {
        Some(
            Number::Value(
                if neg {
                    (-LIMIT) as i64
                } else {
                    LIMIT
                },
            ),
        )
    } else if lower(b) == lower("nan"@) {
        Some(Number::NotANumber)
    } else {
        match magnitude_of(b) {
            Some(m) => Some(
                Number::Value(
                    if neg {
                        (-m) as i64
                    } else {
                        m as i64
                    },
                ),
            ),
            None => None,
        }
    }
}

/// The number of millionths that `s` writes, leaving out `nan`.
pub open spec fn value_of(s: Seq<char>) -> Option<int> {
    match number_of(s) {
        Some(Number::Value(v)) => Some(v as int),
        _ => None,
    }
}

proof fn lemma_pow10_grows(n: nat)
    ensures
        pow10(n) >= n + 1,
    decreases n,
{
    if n > 0 {
        lemma_pow10_grows((n - 1) as nat);
    }
}

proof fn lemma_pow10_mono(m: nat, n: nat)
    requires
        m <= n,
    ensures
        pow10(m) <= pow10(n),
    decreases n,
{
    if m < n {
        lemma_pow10_mono(m, (n - 1) as nat);
    }
}

/// Past the limit, more trailing zeros change nothing.
proof fn lemma_saturated(a: nat, k: nat, z: nat)
    requires
        k <= z,
        a * pow10(k) >= LIMIT || a == 0,
    ensures
        clip((a * pow10(z)) as int) == clip((a * pow10(k)) as int),
{
    lemma_pow10_mono(k, z);
    assert(a * pow10(k) <= a * pow10(z)) by (nonlinear_arith)
        requires
            pow10(k) <= pow10(z),
    ;
    if a == 0 {
        assert(a * pow10(z) == 0 && a * pow10(k) == 0) by (nonlinear_arith)
            requires
                a == 0,
        ;
    }
}

/// A number with a thousand million zeros or more is past the limit unless zero.
proof fn lemma_many_zeros(a: nat, z: nat)
    requires
        z >= LIMIT,
    ensures
        clip((a * pow10(z)) as int) == if a == 0 {
            0
        } else {
            LIMIT as int
        },
{
    lemma_pow10_grows(z);
    if a == 0 {
        assert(a * pow10(z) == 0) by (nonlinear_arith)
            requires
                a == 0,
        ;
    } else {
        assert(a * pow10(z) >= pow10(z)) by (nonlinear_arith)
            requires
                a >= 1,
        ;
    }
}

fn digit_of(c: char) -> (r: i64)
    requires
        is_digit(c),
    ensures
        r == digit(c),
        0 <= r <= 9,
{
    (c as u32 - '0' as u32) as i64
}

fn only_digits(x: &Vec<char>) -> (r: bool)
    ensures
        r == all_digits(x@),
{
    let mut i: usize = 0;
    while i < x.len()
        invariant
            i <= x@.len(),
            forall|j: int| 0 <= j < i ==> is_digit(#[trigger] x@[j]),
        decreases x@.len() - i,
    {
        if !('0' <= x[i] && x[i] <= '9') {
            proof {
                assert(!is_digit(x@[i as int]));
            }
            return false;
        }
        i += 1;
    }
    true
}

/// The value of the first `n` digits of `d`, held at the limit.
fn leading(d: &Vec<char>, n: usize) -> (r: i64)
    requires
        n <= d@.len(),
        all_digits(d@),
    ensures
        r == clip(nat_of(d@.take(n as int)) as int),
        0 <= r <= LIMIT,
{
    let mut acc: i64 = 0;
    let mut i: usize = 0;
    while i < n
        invariant
            i <= n <= d@.len(),
            all_digits(d@),
            acc == clip(nat_of(d@.take(i as int)) as int),
            0 <= acc <= LIMIT,
        decreases n - i,
    {
        proof {
            let t = d@.take(i as int + 1);
            assert(t.drop_last() =~= d@.take(i as int));
            assert(t.last() == d@[i as int]);
            assert(is_digit(d@[i as int]));
        }
        acc = acc * 10 + digit_of(d[i]);
        if acc > LIMIT {
            acc = LIMIT;
        }
        i += 1;
    }
    acc
}

/// The integer part of the digits `d` with the point after `q` of them.
fn shift(d: &Vec<char>, q: i128) -> (r: i64)
    requires
        all_digits(d@),
    ensures
        r == clip(shifted(d@, q as int) as int),
        0 <= r <= LIMIT,
{
    if q <= 0 {
        return 0;
    }
    if q <= d.len() as i128 {
        return leading(d, q as usize);
    }
    let z: i128 = q - d.len() as i128;
    let mut acc: i64 = leading(d, d.len());
    let ghost a = nat_of(d@);
    proof {
        assert(d@.take(d@.len() as int) =~= d@);
        assert(a * pow10(0) == a) by (nonlinear_arith)
            requires
                pow10(0) == 1,
        ;
    }
    let mut k: i128 = 0;
    while k < z && 0 < acc && acc < LIMIT
        invariant
            0 <= k <= z,
            0 <= acc <= LIMIT,
            acc == clip((a * pow10(k as nat)) as int),
        decreases z - k,
    {
        proof {
            assert(pow10((k + 1) as nat) == 10 * pow10(k as nat));
            assert(a * (10 * pow10(k as nat)) == 10 * (a * pow10(k as nat))) by (nonlinear_arith);
        }
        acc = acc * 10;
        if acc > LIMIT {
            acc = LIMIT;
        }
        k += 1;
    }
    proof {
        if k < z {
            if acc == 0 {
                lemma_pow10_grows(k as nat);
                assert(a == 0) by (nonlinear_arith)
                    requires
                        a * pow10(k as nat) == 0,
                        pow10(k as nat) >= 1,
                {
                }
            }
            lemma_saturated(a, k as nat, z as nat);
        }
    }
    acc
}

/// The digits `x[a..b]`.
fn part(x: &Vec<char>, a: usize, b: usize) -> (r: Vec<char>)
    requires
        a <= b <= x@.len(),
    ensures
        r@ == x@.subrange(a as int, b as int),
{
    let mut out: Vec<char> = Vec::new();
    let mut i: usize = a;
    while i < b
        invariant
            a <= i <= b <= x@.len(),
            out@ == x@.subrange(a as int, i as int),
        decreases b - i,
    {
        proof {
            assert(x@.subrange(a as int, i as int + 1) =~= x@.subrange(a as int, i as int).push(
                x@[i as int],
            ));
        }
        out.push(x[i]);
        i += 1;
    }
    out
}

/// The first index that holds `a` or `b`, or the length.
fn stop_at(x: &Vec<char>, a: char, b: char) -> (r: usize)
    ensures
        r == run_without(x@, a, b),
        r <= x@.len(),
{
    let mut i: usize = 0;
    while i < x.len() && x[i] != a && x[i] != b
        invariant
            i <= x@.len(),
            forall|j: int| 0 <= j < i ==> x@[j] != a && x@[j] != b,
        decreases x@.len() - i,
    {
        i += 1;
    }
    proof {
        lemma_run_is(x@, a, b, i as int);
    }
    i
}

/// Drop a leading sign; the flag tells a minus.
fn unsigned(x: &Vec<char>) -> (r: (bool, Vec<char>))
    ensures
        (r.0, r.1@) == signed(x@),
{
    if x.len() > 0 && (x[0] == '-' || x[0] == '+') {
        let rest = part(x, 1, x.len());
        proof {
            assert(rest@ =~= x@.skip(1));
        }
        (x[0] == '-', rest)
    } else {
        let rest = part(x, 0, x.len());
        proof {
            assert(rest@ =~= x@);
        }
        (false, rest)
    }
}

/// An exponent's digits as a number, held at `10^30`.
fn exponent_digits(d: &Vec<char>) -> (r: i128)
    requires
        all_digits(d@),
    ensures
        r == least(nat_of(d@) as int, 1_000_000_000_000_000_000_000_000_000_000),
{
    let mut acc: i128 = 0;
    let mut i: usize = 0;
    let top: i128 = 1_000_000_000_000_000_000_000_000_000_000;
    while i < d.len()
        invariant
            i <= d@.len(),
            all_digits(d@),
            top == 1_000_000_000_000_000_000_000_000_000_000,
            acc == least(nat_of(d@.take(i as int)) as int, top as int),
            0 <= acc <= top,
        decreases d@.len() - i,
    {
        proof {
            let t = d@.take(i as int + 1);
            assert(t.drop_last() =~= d@.take(i as int));
            assert(t.last() == d@[i as int]);
            assert(is_digit(d@[i as int]));
        }
        acc = acc * 10 + digit_of(d[i]) as i128;
        if acc > top {
            acc = top;
        }
        i += 1;
    }
    proof {
        assert(d@.take(d@.len() as int) =~= d@);
    }
    acc
}

/// Where an exponent is past `10^30`, every larger one shifts alike.
proof fn lemma_far_shift(d: Seq<char>, w: int, e: int, held: int)
    requires
        0 <= w <= d.len() <= u64::MAX,
        e >= 0,
        held == least(e, 1_000_000_000_000_000_000_000_000_000_000),
    ensures
        clip(shifted(d, w + 6 + e) as int) == clip(shifted(d, w + 6 + held) as int),
        clip(shifted(d, w + 6 - e) as int) == clip(shifted(d, w + 6 - held) as int),
{
    if e > held {
        lemma_many_zeros(nat_of(d), (w + 6 + e - d.len()) as nat);
        lemma_many_zeros(nat_of(d), (w + 6 + held - d.len()) as nat);
    }
}

fn magnitude(b: &Vec<char>) -> (r: Option<i64>)
    ensures
        match r {
            Some(v) => magnitude_of(b@) == Some(v as int) && 0 <= v <= LIMIT,
            None => magnitude_of(b@) is None,
        },
{
    let n: usize = stop_at(b, 'e', 'E');
    let m = part(b, 0, n);
    proof {
        assert(m@ =~= b@.take(n as int));
    }
    let dot: usize = stop_at(&m, '.', '.');
    let w = part(&m, 0, dot);
    let f = if dot < m.len() {
        part(&m, dot + 1, m.len())
    } else {
        Vec::new()
    };
    proof {
        assert((w@, f@) == mantissa_parts(m@)) by {
            if dot < m@.len() {
                assert(w@ =~= m@.take(dot as int));
                assert(f@ =~= m@.skip(dot as int + 1));
            } else {
                assert(w@ =~= m@);
                assert(f@ =~= Seq::empty());
            }
        }
    }
    if !only_digits(&w) || !only_digits(&f) || (w.len() == 0 && f.len() == 0) {
        return None;
    }
    let whole_len: usize = w.len();
    let mut d = w;
    let ghost w0 = w@;
    let mut f = f;
    let ghost f0 = f@;
    d.append(&mut f);
    proof {
        assert(d@ == w0 + f0);
        assert(all_digits(d@));
        assert(d@.len() <= b@.len());
    }
    let len: usize = b.len();
    if n >= len {
        return Some(shift(&d, whole_len as i128 + 6));
    }
    let after = part(b, n + 1, len);
    proof {
        assert(after@ =~= b@.skip(n as int + 1));
    }
    let (neg, e) = unsigned(&after);
    if e.len() == 0 || !only_digits(&e) {
        return None;
    }
    let held: i128 = exponent_digits(&e);
    proof {
        lemma_far_shift(d@, whole_len as int, nat_of(e@) as int, held as int);
    }
    let q: i128 = if neg {
        whole_len as i128 + 6 - held
    } else {
        whole_len as i128 + 6 + held
    };
    Some(shift(&d, q))
}

/// Parse a decimal number: sign, digits with an optional point, an optional
/// exponent, or one of the words `inf`, `infinity` and `nan`.
pub fn parse_number(s: &str) -> (r: Option<Number>)
    ensures
        r == number_of(s@),
{
    let x = chars_of(s);
    let (neg, b) = unsigned(&x);
    let word = string_of(b.as_slice());
    if same_ignoring_case(word.as_str(), "inf") || same_ignoring_case(word.as_str(), "infinity") {
        return Some(
            Number::Value(
                if neg {
                    -LIMIT
                } else {
                    LIMIT
                },
            ),
        );
    }
    if same_ignoring_case(word.as_str(), "nan") {
        return Some(Number::NotANumber);
    }
    match magnitude(&b) {
        Some(m) => Some(
            Number::Value(
                if neg {
                    -m
                } else {
                    m
                },
            ),
        ),
        None => None,
    }
}

/// Parse a decimal number, refusing `nan`.
pub fn parse_value(s: &str) -> (r: Option<i64>)
    ensures
        match r {
            Some(v) => value_of(s@) == Some(v as int) && -LIMIT <= v <= LIMIT,
            None => value_of(s@) is None,
        },
{
    proof {
        lemma_number_bounds(s@);
    }
    match parse_number(s) {
        Some(Number::Value(v)) => Some(v),
        _ => None,
    }
}

/// Every parsed number lies within the limits.
pub proof fn lemma_number_bounds(s: Seq<char>)
    ensures
        value_of(s) matches Some(v) ==> -LIMIT <= v <= LIMIT,
{
    let (neg, b) = signed(s);
    match magnitude_of(b) {
        Some(m) => {
            assert(0 <= m <= LIMIT);
        },
        None => {},
    }
}

// --------------------------------------------------------------------------
// integers
// --------------------------------------------------------------------------

/// The integer that `s` writes: an optional sign and at least one digit.
pub open spec fn int_of(s: Seq<char>) -> Option<int> {
    exponent_of(s)
}

/// The natural number that `s` writes: an optional plus and at least one digit.
pub open spec fn natural_of(s: Seq<char>) -> Option<nat> {
    let (neg, d) = signed(s);
    if !neg && d.len() > 0 && all_digits(d) {
        Some(nat_of(d))
    } else {
        None
    }
}

/// Parse an integer between `lo` and `hi`.
pub fn parse_int(s: &str, lo: i64, hi: i64) -> (r: Option<i64>)
    ensures
        match r {
            Some(v) => int_of(s@) == Some(v as int) && lo <= v <= hi,
            None => match int_of(s@) {
                Some(v) => v < lo || v > hi,
                None => true,
            },
        },
{
    let x = chars_of(s);
    let (neg, d) = unsigned(&x);
    if d.len() == 0 || !only_digits(&d) {
        return None;
    }
    let m: i128 = exponent_digits(&d);
    let v: i128 = if neg {
        -m
    } else {
        m
    };
    if v < lo as i128 || v > hi as i128 {
        None
    } else {
        Some(v as i64)
    }
}

/// Parse a natural number of at most `hi`.
pub fn parse_natural(s: &str, hi: u64) -> (r: Option<u64>)
    ensures
        match r {
            Some(v) => natural_of(s@) == Some(v as nat) && v <= hi,
            None => match natural_of(s@) {
                Some(v) => v > hi,
                None => true,
            },
        },
{
    let x = chars_of(s);
    let (neg, d) = unsigned(&x);
    if neg || d.len() == 0 || !only_digits(&d) {
        return None;
    }
    let m: i128 = exponent_digits(&d);
    if m > hi as i128 {
        None
    } else {
        Some(m as u64)
    }
}

} // verus!
