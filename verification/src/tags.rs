//! The pieces of a template source: what is printed as it stands, and the tags
//! between.
//!
//! A piece ends where the template engine's own lexer ends it. A source whose last
//! tag, comment or raw block has no end does not parse; what is left of it is one
//! piece of text.

use vstd::prelude::*;
use vstd::string::*;

use crate::scan::{ascii_space, is_ascii_space, occurs_at, text_at};

verus! {

// --------------------------------------------------------------------------
// inside a tag
// --------------------------------------------------------------------------

/// A character of a name or a number.
pub open spec fn is_word_char(c: char) -> bool {
    'a' <= c <= 'z' || 'A' <= c <= 'Z' || '0' <= c <= '9' || c == '_'
}

fn word_char(c: char) -> (r: bool)
    ensures
        r == is_word_char(c),
{
    ('a' <= c && c <= 'z') || ('A' <= c && c <= 'Z') || ('0' <= c && c <= '9') || c == '_'
}

/// Where the word that goes on at `j` ends.
pub open spec fn word_end(s: Seq<char>, j: int) -> int
    decreases s.len() - j,
{
    if 0 <= j < s.len() && is_word_char(s[j]) {
        word_end(s, j + 1)
    } else {
        j
    }
}

pub fn word_stop(v: &Vec<char>, from: usize) -> (r: usize)
    requires
        from <= v@.len(),
    ensures
        r == word_end(v@, from as int),
        from <= r <= v@.len(),
{
    let mut j: usize = from;
    while j < v.len() && word_char(v[j])
        invariant
            from <= j <= v@.len(),
            word_end(v@, from as int) == word_end(v@, j as int),
        decreases v@.len() - j,
    {
        j += 1;
    }
    j
}

/// Where the blanks that go on at `j` end.
pub open spec fn blank_end(s: Seq<char>, j: int) -> int
    decreases s.len() - j,
{
    if 0 <= j < s.len() && is_ascii_space(s[j]) {
        blank_end(s, j + 1)
    } else {
        j
    }
}

pub fn blank_stop(v: &Vec<char>, from: usize) -> (r: usize)
    requires
        from <= v@.len(),
    ensures
        r == blank_end(v@, from as int),
        from <= r <= v@.len(),
{
    let mut j: usize = from;
    while j < v.len() && ascii_space(v[j])
        invariant
            from <= j <= v@.len(),
            blank_end(v@, from as int) == blank_end(v@, j as int),
        decreases v@.len() - j,
    {
        j += 1;
    }
    j
}

/// Where a string that goes on at `j` ends, behind its quote.
pub open spec fn string_end(s: Seq<char>, j: int, quote: char) -> Option<int>
    decreases s.len() - j,
{
    if j < 0 || j >= s.len() {
        None
    } else if s[j] == '\\' {
        if j + 1 < s.len() {
            string_end(s, j + 2, quote)
        } else {
            None
        }
    } else if s[j] == quote {
        Some(j + 1)
    } else {
        string_end(s, j + 1, quote)
    }
}

pub fn string_stop(v: &Vec<char>, from: usize, quote: char) -> (r: Option<usize>)
    requires
        from <= v@.len(),
    ensures
        match r {
            Some(e) => string_end(v@, from as int, quote) == Some(e as int) && from < e
                <= v@.len(),
            None => string_end(v@, from as int, quote) is None,
        },
{
    let mut j: usize = from;
    while j < v.len()
        invariant
            from <= j <= v@.len(),
            string_end(v@, from as int, quote) == string_end(v@, j as int, quote),
        decreases v@.len() - j,
    {
        if v[j] == '\\' {
            if v.len() - j < 2 {
                return None;
            }
            j += 2;
        } else if v[j] == quote {
            return Some(j + 1);
        } else {
            j += 1;
        }
    }
    None
}

/// Whether a tag closes at `j`: with `%}` for a block, `}}` for a value.
pub open spec fn closes_at(s: Seq<char>, j: int, c: char) -> bool {
    0 <= j && j + 1 < s.len() && s[j] == c && s[j + 1] == '}'
}

fn closing(v: &Vec<char>, j: usize, c: char) -> (r: bool)
    ensures
        r == closes_at(v@, j as int, c),
{
    j < v.len() && v.len() - j > 1 && v[j] == c && v[j + 1] == '}'
}

/// A mark of whitespace control.
pub open spec fn is_sign(s: Seq<char>, j: int) -> bool {
    0 <= j < s.len() && (s[j] == '-' || s[j] == '+')
}

fn sign(v: &Vec<char>, j: usize) -> (r: bool)
    ensures
        r == is_sign(v@, j as int),
{
    j < v.len() && (v[j] == '-' || v[j] == '+')
}

/// Where a tag that closes at `j`, perhaps with a mark first, ends.
pub open spec fn closed_from(s: Seq<char>, j: int, c: char) -> Option<int> {
    if closes_at(s, j, c) {
        Some(j + 2)
    } else if is_sign(s, j) && closes_at(s, j + 1, c) {
        Some(j + 3)
    } else {
        None
    }
}

fn close_from(v: &Vec<char>, j: usize, c: char) -> (r: Option<usize>)
    requires
        j < v@.len(),
    ensures
        match r {
            Some(e) => closed_from(v@, j as int, c) == Some(e as int) && j + 2 <= e <= v@.len(),
            None => closed_from(v@, j as int, c) is None,
        },
{
    let n: usize = v.len();
    if closing(v, j, c) {
        Some(j + 2)
    } else if sign(v, j) && closing(v, j + 1, c) {
        Some(j + 3)
    } else {
        None
    }
}

/// An open bracket: one that may hold a tuple, or any other.
#[derive(Debug, Clone, Copy, PartialEq, Eq, Structural)]
pub enum Bracket {
    Group,
    Other,
}

/// What was read of a tag: the open brackets, whether a block's first word is still
/// to come, whether an operand stands last, and whether there was a product and a
/// list.
pub struct TagV {
    pub open: Seq<Bracket>,
    pub first: bool,
    pub operand: bool,
    pub star: bool,
    pub list: bool,
}

/// Whether a word is `op`, or a number with `op` right behind it: the lexer ends a
/// number where a letter cannot be a part of it.
pub open spec fn ends_in(w: Seq<char>, op: Seq<char>) -> bool {
    w == op || (w.len() > op.len() && '0' <= w[0] <= '9' && occurs_at(w, op, w.len() - op.len()))
}

/// A word that an operand follows.
pub open spec fn is_operator(w: Seq<char>) -> bool {
    ends_in(w, "in"@) || ends_in(w, "not"@) || ends_in(w, "and"@) || ends_in(w, "or"@) || ends_in(
        w,
        "if"@,
    ) || ends_in(w, "else"@)
}

/// What was read with a word added. After a block's first word comes an operand,
/// unless it names what stands in brackets.
pub open spec fn with_word(t: TagV, w: Seq<char>) -> TagV {
    TagV {
        operand: if t.first {
            w == "for"@ || w == "call"@
        } else {
            !is_operator(w)
        },
        first: false,
        ..t
    }
}

/// What was read with a character added that is no part of a word or a string.
/// `None` where a bracket closes that none opened.
pub open spec fn with_char(t: TagV, c: char) -> Option<TagV> {
    let in_group = t.open.len() > 0 && t.open.last() == Bracket::Group;
    if is_ascii_space(c) {
        Some(t)
    } else if c == '(' || c == '[' || c == '{' {
        Some(
            TagV {
                open: t.open.push(
                    if c == '(' && !t.operand {
                        Bracket::Group
                    } else {
                        Bracket::Other
                    },
                ),
                list: t.list || (c == '[' && !t.operand),
                operand: false,
                first: false,
                ..t
            },
        )
    } else if c == ')' || c == ']' || c == '}' {
        if t.open.len() == 0 {
            None
        } else {
            Some(
                TagV {
                    open: t.open.drop_last(),
                    list: t.list || (in_group && !t.operand),
                    operand: true,
                    first: false,
                    ..t
                },
            )
        }
    } else {
        Some(
            TagV {
                list: t.list || (c == ',' && in_group),
                star: t.star || c == '*',
                operand: false,
                first: false,
                ..t
            },
        )
    }
}

/// How a tag ends: where its closing starts, where it ends, and what was read.
pub struct TagEndV {
    pub body: int,
    pub to: int,
    pub repeats: bool,
}

/// Reads a tag on from `j` to its end. `None` where it has none.
pub open spec fn tag_end(s: Seq<char>, j: int, c: char, t: TagV) -> Option<TagEndV>
    decreases s.len() - j,
{
    if j < 0 || j >= s.len() {
        None
    } else if t.open.len() == 0 && closed_from(s, j, c) is Some {
        Some(TagEndV { body: j, to: closed_from(s, j, c)->0, repeats: t.star && t.list })
    } else if s[j] == '"' || s[j] == '\'' {
        match string_end(s, j + 1, s[j]) {
            Some(e) => if j < e <= s.len() {
                tag_end(s, e, c, TagV { operand: true, first: false, ..t })
            } else {
                None
            },
            None => None,
        }
    } else if is_word_char(s[j]) {
        let e = word_end(s, j + 1);
        if j < e <= s.len() {
            tag_end(s, e, c, with_word(t, s.subrange(j, e)))
        } else {
            None
        }
    } else if s[j] == '*' && j + 1 < s.len() && s[j + 1] == '*' {
        tag_end(s, j + 2, c, TagV { operand: false, first: false, ..t })
    } else {
        match with_char(t, s[j]) {
            Some(u) => tag_end(s, j + 1, c, u),
            None => None,
        }
    }
}

/// What is known of a tag before it is read.
pub open spec fn tag_start(block: bool) -> TagV {
    TagV { open: Seq::empty(), first: block, operand: false, star: false, list: false }
}

struct Tag {
    open: Vec<Bracket>,
    first: bool,
    operand: bool,
    star: bool,
    list: bool,
}

impl View for Tag {
    type V = TagV;

    closed spec fn view(&self) -> TagV {
        TagV {
            open: self.open@,
            first: self.first,
            operand: self.operand,
            star: self.star,
            list: self.list,
        }
    }
}

pub fn word_is(v: &Vec<char>, from: usize, to: usize, w: &str) -> (r: bool)
    requires
        from <= to <= v@.len(),
    ensures
        r == (v@.subrange(from as int, to as int) == w@),
{
    let r = text_at(v, w, from);
    let n: usize = w.unicode_len();
    proof {
        if v@.subrange(from as int, to as int) == w@ {
            assert(v@.subrange(from as int, from + w@.len()) == w@);
        }
    }
    r && to - from == n
}

fn word_ends_in(v: &Vec<char>, from: usize, to: usize, op: &str) -> (r: bool)
    requires
        from <= to <= v@.len(),
    ensures
        r == ends_in(v@.subrange(from as int, to as int), op@),
{
    if word_is(v, from, to, op) {
        return true;
    }
    let n: usize = op.unicode_len();
    if to - from <= n || !('0' <= v[from] && v[from] <= '9') {
        return false;
    }
    proof {
        let w = v@.subrange(from as int, to as int);
        assert(w.subrange(w.len() - n, w.len() as int) =~= v@.subrange(to - n, to as int));
    }
    text_at(v, op, to - n)
}

impl Tag {
    fn add_word(&mut self, v: &Vec<char>, from: usize, to: usize)
        requires
            from <= to <= v@.len(),
        ensures
            final(self)@ == with_word(old(self)@, v@.subrange(from as int, to as int)),
    {
        self.operand = if self.first {
            word_is(v, from, to, "for") || word_is(v, from, to, "call")
        } else {
            !(word_ends_in(v, from, to, "in") || word_ends_in(v, from, to, "not") || word_ends_in(
                v,
                from,
                to,
                "and",
            ) || word_ends_in(v, from, to, "or") || word_ends_in(v, from, to, "if")
                || word_ends_in(v, from, to, "else"))
        };
        self.first = false;
    }

    /// `false`, with nothing said of what was read, where a bracket closes that none
    /// opened.
    fn add_char(&mut self, c: char) -> (r: bool)
        ensures
            match with_char(old(self)@, c) {
                Some(t) => r && final(self)@ == t,
                None => !r,
            },
    {
        let n: usize = self.open.len();
        let in_group: bool = n > 0 && self.open[n - 1] == Bracket::Group;
        if ascii_space(c) {
            return true;
        }
        if c == '(' || c == '[' || c == '{' {
            if c == '[' && !self.operand {
                self.list = true;
            }
            if c == '(' && !self.operand {
                self.open.push(Bracket::Group);
            } else {
                self.open.push(Bracket::Other);
            }
            self.operand = false;
        } else if c == ')' || c == ']' || c == '}' {
            if n == 0 {
                return false;
            }
            if in_group && !self.operand {
                self.list = true;
            }
            let _ = self.open.pop();
            self.operand = true;
        } else {
            if c == ',' && in_group {
                self.list = true;
            }
            if c == '*' {
                self.star = true;
            }
            self.operand = false;
        }
        self.first = false;
        true
    }
}

/// Where a tag read from `from` closes and ends, and whether it repeats a list.
fn tag_stop(v: &Vec<char>, from: usize, c: char, block: bool) -> (r: Option<(usize, usize, bool)>)
    requires
        from <= v@.len(),
    ensures
        match r {
            Some((body, to, repeats)) => tag_end(v@, from as int, c, tag_start(block)) == Some(
                TagEndV { body: body as int, to: to as int, repeats },
            ) && from <= body && body + 2 <= to <= v@.len(),
            None => tag_end(v@, from as int, c, tag_start(block)) is None,
        },
{
    let mut t = Tag { open: Vec::new(), first: block, operand: false, star: false, list: false };
    let mut j: usize = from;
    proof {
        assert(t@ == tag_start(block));
    }
    while j < v.len()
        invariant
            from <= j <= v@.len(),
            tag_end(v@, from as int, c, tag_start(block)) == tag_end(v@, j as int, c, t@),
        decreases v@.len() - j,
    {
        let ghost u = t@;
        if t.open.len() == 0 {
            if let Some(e) = close_from(v, j, c) {
                return Some((j, e, t.star && t.list));
            }
        }
        if v[j] == '"' || v[j] == '\'' {
            match string_stop(v, j + 1, v[j]) {
                Some(e) => {
                    t.operand = true;
                    t.first = false;
                    proof {
                        assert(t@ == TagV { operand: true, first: false, ..u });
                    }
                    j = e;
                },
                None => return None,
            }
        } else if word_char(v[j]) {
            let e: usize = word_stop(v, j + 1);
            t.add_word(v, j, e);
            j = e;
        } else if v[j] == '*' && v.len() - j > 1 && v[j + 1] == '*' {
            t.operand = false;
            t.first = false;
            proof {
                assert(t@ == TagV { operand: false, first: false, ..u });
            }
            j += 2;
        } else {
            if !t.add_char(v[j]) {
                return None;
            }
            j += 1;
        }
    }
    None
}

// --------------------------------------------------------------------------
// pieces
// --------------------------------------------------------------------------

/// What a piece of a source is.
#[derive(Debug, Clone, Copy, PartialEq, Eq, Structural)]
pub enum PieceKind {
    Text,
    Comment,
    Raw,
    Value,
    Block,
}

/// A piece of a source: where it starts, where the closing of a tag starts, where it
/// ends, and whether it multiplies and has a list, as one that repeats a list does.
#[derive(Debug, Clone, Copy)]
pub struct Piece {
    pub kind: PieceKind,
    pub from: usize,
    pub body: usize,
    pub to: usize,
    pub repeats: bool,
}

/// The mathematical reading of a [`Piece`].
pub struct PieceV {
    pub kind: PieceKind,
    pub from: int,
    pub body: int,
    pub to: int,
    pub repeats: bool,
}

impl View for Piece {
    type V = PieceV;

    open spec fn view(&self) -> PieceV {
        PieceV {
            kind: self.kind,
            from: self.from as int,
            body: self.body as int,
            to: self.to as int,
            repeats: self.repeats,
        }
    }
}

/// Whether a tag or a comment opens at `i`.
pub open spec fn opens_at(s: Seq<char>, i: int) -> bool {
    0 <= i && i + 1 < s.len() && s[i] == '{' && (s[i + 1] == '{' || s[i + 1] == '%' || s[i + 1]
        == '#')
}

fn opening(v: &Vec<char>, i: usize) -> (r: bool)
    ensures
        r == opens_at(v@, i as int),
{
    i < v.len() && v.len() - i > 1 && v[i] == '{' && (v[i + 1] == '{' || v[i + 1] == '%' || v[i
        + 1] == '#')
}

/// Where the text that goes on at `i` ends.
pub open spec fn text_end(s: Seq<char>, i: int) -> int
    decreases s.len() - i,
{
    if i < 0 || i >= s.len() || opens_at(s, i) {
        i
    } else {
        text_end(s, i + 1)
    }
}

/// Where a comment that goes on at `i` ends.
pub open spec fn comment_end(s: Seq<char>, i: int) -> Option<int>
    decreases s.len() - i,
{
    if i < 0 || i >= s.len() {
        None
    } else if closes_at(s, i, '#') {
        Some(i + 2)
    } else {
        comment_end(s, i + 1)
    }
}

fn comment_stop(v: &Vec<char>, from: usize) -> (r: Option<usize>)
    requires
        from <= v@.len(),
    ensures
        match r {
            Some(e) => comment_end(v@, from as int) == Some(e as int) && from < e <= v@.len(),
            None => comment_end(v@, from as int) is None,
        },
{
    let mut i: usize = from;
    while i < v.len()
        invariant
            from <= i <= v@.len(),
            comment_end(v@, from as int) == comment_end(v@, i as int),
        decreases v@.len() - i,
    {
        if closing(v, i, '#') {
            return Some(i + 2);
        }
        i += 1;
    }
    None
}

/// Behind a mark of whitespace control, where one stands.
pub open spec fn past_sign(s: Seq<char>, j: int) -> int {
    if is_sign(s, j) {
        j + 1
    } else {
        j
    }
}

pub fn skip_sign(v: &Vec<char>, j: usize) -> (r: usize)
    requires
        j <= v@.len(),
    ensures
        r == past_sign(v@, j as int),
        j <= r <= v@.len(),
{
    let n: usize = v.len();
    if sign(v, j) {
        j + 1
    } else {
        j
    }
}

/// Where a block of the word `w` alone, read on from `j`, ends.
pub open spec fn bare_end(s: Seq<char>, j: int, w: Seq<char>) -> Option<int> {
    let a = blank_end(s, j);
    if occurs_at(s, w, a) {
        let b = past_sign(s, blank_end(s, a + w.len()));
        if closes_at(s, b, '%') {
            Some(b + 2)
        } else {
            None
        }
    } else {
        None
    }
}

fn bare_stop(v: &Vec<char>, j: usize, w: &str) -> (r: Option<usize>)
    requires
        j <= v@.len(),
    ensures
        match r {
            Some(e) => bare_end(v@, j as int, w@) == Some(e as int) && j < e <= v@.len(),
            None => bare_end(v@, j as int, w@) is None,
        },
{
    let end: usize = v.len();
    let a: usize = blank_stop(v, j);
    if !text_at(v, w, a) {
        return None;
    }
    let n: usize = w.unicode_len();
    let b: usize = skip_sign(v, blank_stop(v, a + n));
    if closing(v, b, '%') {
        Some(b + 2)
    } else {
        None
    }
}

/// Where the raw block that goes on at `i` ends.
pub open spec fn raw_end(s: Seq<char>, i: int) -> Option<int>
    decreases s.len() - i,
{
    if i < 0 || i + 1 >= s.len() {
        None
    } else if s[i] == '{' && s[i + 1] == '%' {
        match bare_end(s, past_sign(s, i + 2), "endraw"@) {
            Some(e) => Some(e),
            None => raw_end(s, i + 2),
        }
    } else {
        raw_end(s, i + 1)
    }
}

fn raw_stop(v: &Vec<char>, from: usize) -> (r: Option<usize>)
    requires
        from <= v@.len(),
    ensures
        match r {
            Some(e) => raw_end(v@, from as int) == Some(e as int) && from < e <= v@.len(),
            None => raw_end(v@, from as int) is None,
        },
{
    let mut i: usize = from;
    while i < v.len() && v.len() - i > 1
        invariant
            from <= i <= v@.len(),
            raw_end(v@, from as int) == raw_end(v@, i as int),
        decreases v@.len() - i,
    {
        if v[i] == '{' && v[i + 1] == '%' {
            if let Some(e) = bare_stop(v, skip_sign(v, i + 2), "endraw") {
                return Some(e);
            }
            i += 2;
        } else {
            i += 1;
        }
    }
    None
}

/// A piece that is no tag.
pub open spec fn plain_piece(kind: PieceKind, from: int, to: int) -> PieceV {
    PieceV { kind, from, body: to, to, repeats: false }
}

/// A tag as a piece; without an end, what is left is text.
pub open spec fn tag_piece(s: Seq<char>, kind: PieceKind, from: int, e: Option<TagEndV>) -> PieceV {
    match e {
        Some(e) => PieceV { kind, from, body: e.body, to: e.to, repeats: e.repeats },
        None => plain_piece(PieceKind::Text, from, s.len() as int),
    }
}

/// The piece that starts at `i`.
#[verifier::opaque]
pub open spec fn piece_at(s: Seq<char>, i: int) -> PieceV {
    if !opens_at(s, i) {
        plain_piece(PieceKind::Text, i, text_end(s, i + 1))
    } else {
        let rest = plain_piece(PieceKind::Text, i, s.len() as int);
        let j = past_sign(s, i + 2);
        if s[i + 1] == '#' {
            match comment_end(s, j) {
                Some(e) => plain_piece(PieceKind::Comment, i, e),
                None => rest,
            }
        } else if s[i + 1] == '{' {
            tag_piece(s, PieceKind::Value, i, tag_end(s, j, '}', tag_start(false)))
        } else {
            match bare_end(s, j, "raw"@) {
                Some(b) => match raw_end(s, b) {
                    Some(e) => plain_piece(PieceKind::Raw, i, e),
                    None => rest,
                },
                None => tag_piece(s, PieceKind::Block, i, tag_end(s, j, '%', tag_start(true))),
            }
        }
    }
}

/// Whether a piece lies in a source, its parts in order.
pub open spec fn piece_ok(p: PieceV, s: Seq<char>, i: int) -> bool {
    &&& p.from == i
    &&& i < p.to <= s.len()
    &&& i <= p.body <= p.to
    &&& (p.kind == PieceKind::Block ==> i + 2 <= p.body && p.body + 2 <= p.to)
}

fn piece_from(v: &Vec<char>, i: usize) -> (r: Piece)
    requires
        i < v@.len(),
    ensures
        r@ == piece_at(v@, i as int),
        piece_ok(r@, v@, i as int),
{
    proof {
        reveal(piece_at);
    }
    let n: usize = v.len();
    if !opening(v, i) {
        let mut j: usize = i + 1;
        while j < n && !opening(v, j)
            invariant
                n == v@.len(),
                i < j <= n,
                text_end(v@, i + 1) == text_end(v@, j as int),
            decreases n - j,
        {
            j += 1;
        }
        return Piece { kind: PieceKind::Text, from: i, body: j, to: j, repeats: false };
    }
    let rest = Piece { kind: PieceKind::Text, from: i, body: n, to: n, repeats: false };
    let j: usize = skip_sign(v, i + 2);
    if v[i + 1] == '#' {
        match comment_stop(v, j) {
            Some(e) => Piece { kind: PieceKind::Comment, from: i, body: e, to: e, repeats: false },
            None => rest,
        }
    } else if v[i + 1] == '{' {
        match tag_stop(v, j, '}', false) {
            Some((body, to, repeats)) => Piece {
                kind: PieceKind::Value,
                from: i,
                body,
                to,
                repeats,
            },
            None => rest,
        }
    } else {
        match bare_stop(v, j, "raw") {
            Some(b) => match raw_stop(v, b) {
                Some(e) => Piece { kind: PieceKind::Raw, from: i, body: e, to: e, repeats: false },
                None => rest,
            },
            None => match tag_stop(v, j, '%', true) {
                Some((body, to, repeats)) => Piece {
                    kind: PieceKind::Block,
                    from: i,
                    body,
                    to,
                    repeats,
                },
                None => rest,
            },
        }
    }
}

/// The pieces of a source from `i` on.
pub open spec fn pieces(s: Seq<char>, i: int) -> Seq<PieceV>
    decreases s.len() - i,
{
    if i < 0 || i >= s.len() {
        Seq::empty()
    } else {
        let p = piece_at(s, i);
        if i < p.to <= s.len() {
            seq![p] + pieces(s, p.to)
        } else {
            seq![p]
        }
    }
}

pub open spec fn pieces_view(v: Seq<Piece>) -> Seq<PieceV> {
    v.map_values(|p: Piece| p@)
}

/// Whether the `k`th piece lies where the one before ends.
pub open spec fn piece_fits(v: Seq<PieceV>, s: Seq<char>, k: int) -> bool {
    piece_ok(
        v[k],
        s,
        if k == 0 {
            0
        } else {
            v[k - 1].to
        },
    )
}

/// Whether pieces follow each other from the start of a source to its end.
pub open spec fn joined(v: Seq<PieceV>, s: Seq<char>) -> bool {
    &&& v.len() == 0 ==> s.len() == 0
    &&& v.len() > 0 ==> v.last().to == s.len()
    &&& forall|k: int| 0 <= k < v.len() ==> #[trigger] piece_fits(v, s, k)
}

/// The pieces of a source, in order: each starts where the one before ends.
pub fn pieces_of(v: &Vec<char>) -> (r: Vec<Piece>)
    ensures
        pieces_view(r@) == pieces(v@, 0),
        joined(pieces_view(r@), v@),
{
    let mut out: Vec<Piece> = Vec::new();
    let mut i: usize = 0;
    let ghost mut pv: Seq<PieceV> = Seq::empty();
    proof {
        assert(pieces_view(out@) =~= pv);
        assert(pv + pieces(v@, 0) =~= pieces(v@, 0));
    }
    while i < v.len()
        invariant
            i <= v@.len(),
            pv == pieces_view(out@),
            pieces(v@, 0) == pv + pieces(v@, i as int),
        decreases v@.len() - i,
    {
        let p = piece_from(v, i);
        proof {
            let next = pv.push(p@);
            assert(pieces_view(out@.push(p)) =~= next);
            assert(pieces(v@, i as int) == seq![p@] + pieces(v@, p.to as int));
            assert(next + pieces(v@, p.to as int) =~= pv + (seq![p@] + pieces(
                v@,
                p.to as int,
            )));
            pv = next;
        }
        out.push(p);
        i = p.to;
    }
    proof {
        assert(pv + Seq::<PieceV>::empty() =~= pv);
        law_pieces_are_joined(v@);
    }
    out
}

pub proof fn lemma_word_end(s: Seq<char>, j: int)
    ensures
        j <= word_end(s, j),
        0 <= j <= s.len() ==> word_end(s, j) <= s.len(),
    decreases s.len() - j,
{
    if 0 <= j < s.len() && is_word_char(s[j]) {
        lemma_word_end(s, j + 1);
    }
}

pub proof fn lemma_blank_end(s: Seq<char>, j: int)
    ensures
        j <= blank_end(s, j),
        0 <= j <= s.len() ==> blank_end(s, j) <= s.len(),
    decreases s.len() - j,
{
    if 0 <= j < s.len() && is_ascii_space(s[j]) {
        lemma_blank_end(s, j + 1);
    }
}

proof fn lemma_tag_end(s: Seq<char>, j: int, c: char, t: TagV)
    ensures
        tag_end(s, j, c, t) matches Some(e) ==> j <= e.body && e.body + 2 <= e.to <= s.len(),
    decreases s.len() - j,
{
    if 0 <= j < s.len() && !(t.open.len() == 0 && closed_from(s, j, c) is Some) {
        if s[j] == '"' || s[j] == '\'' {
            if let Some(e) = string_end(s, j + 1, s[j]) {
                if j < e <= s.len() {
                    lemma_tag_end(s, e, c, TagV { operand: true, first: false, ..t });
                }
            }
        } else if is_word_char(s[j]) {
            let e = word_end(s, j + 1);
            if j < e <= s.len() {
                lemma_tag_end(s, e, c, with_word(t, s.subrange(j, e)));
            }
        } else if s[j] == '*' && j + 1 < s.len() && s[j + 1] == '*' {
            lemma_tag_end(s, j + 2, c, TagV { operand: false, first: false, ..t });
        } else if let Some(u) = with_char(t, s[j]) {
            lemma_tag_end(s, j + 1, c, u);
        }
    }
}

proof fn lemma_text_end(s: Seq<char>, i: int)
    requires
        0 <= i <= s.len(),
    ensures
        i <= text_end(s, i) <= s.len(),
    decreases s.len() - i,
{
    if i < s.len() && !opens_at(s, i) {
        lemma_text_end(s, i + 1);
    }
}

proof fn lemma_comment_end(s: Seq<char>, i: int)
    ensures
        comment_end(s, i) matches Some(e) ==> i < e <= s.len(),
    decreases s.len() - i,
{
    if 0 <= i < s.len() && !closes_at(s, i, '#') {
        lemma_comment_end(s, i + 1);
    }
}

proof fn lemma_bare_end(s: Seq<char>, j: int, w: Seq<char>)
    ensures
        bare_end(s, j, w) matches Some(e) ==> j < e <= s.len(),
{
    let a = blank_end(s, j);
    lemma_blank_end(s, j);
    lemma_blank_end(s, a + w.len());
}

proof fn lemma_raw_end(s: Seq<char>, i: int)
    ensures
        raw_end(s, i) matches Some(e) ==> i < e <= s.len(),
    decreases s.len() - i,
{
    if 0 <= i && i + 1 < s.len() {
        if s[i] == '{' && s[i + 1] == '%' {
            lemma_bare_end(s, past_sign(s, i + 2), "endraw"@);
            lemma_raw_end(s, i + 2);
        } else {
            lemma_raw_end(s, i + 1);
        }
    }
}

pub proof fn lemma_piece_ok(s: Seq<char>, i: int)
    requires
        0 <= i < s.len(),
    ensures
        piece_ok(piece_at(s, i), s, i),
{
    reveal(piece_at);
    lemma_text_end(s, i + 1);
    if opens_at(s, i) {
        let j = past_sign(s, i + 2);
        lemma_comment_end(s, j);
        lemma_tag_end(s, j, '}', tag_start(false));
        lemma_tag_end(s, j, '%', tag_start(true));
        lemma_bare_end(s, j, "raw"@);
        if let Some(b) = bare_end(s, j, "raw"@) {
            lemma_raw_end(s, b);
        }
    }
}

/// Pieces of a source follow each other: nothing between them is lost.
pub proof fn law_pieces_are_joined(s: Seq<char>)
    ensures
        joined(pieces(s, 0), s),
{
    lemma_joined_from(s, 0);
    assert forall|k: int| 0 <= k < pieces(s, 0).len() implies #[trigger] piece_fits(
        pieces(s, 0),
        s,
        k,
    ) by {
        assert(fits_from(pieces(s, 0), s, k, 0));
    }
}

/// Whether the `k`th piece lies where the one before ends, the first at `i`.
spec fn fits_from(v: Seq<PieceV>, s: Seq<char>, k: int, i: int) -> bool {
    piece_ok(
        v[k],
        s,
        if k == 0 {
            i
        } else {
            v[k - 1].to
        },
    )
}

proof fn lemma_joined_from(s: Seq<char>, i: int)
    requires
        0 <= i <= s.len(),
    ensures
        pieces(s, i).len() == 0 ==> i == s.len(),
        pieces(s, i).len() > 0 ==> pieces(s, i).last().to == s.len(),
        forall|k: int| 0 <= k < pieces(s, i).len() ==> #[trigger] fits_from(pieces(s, i), s, k, i),
    decreases s.len() - i,
{
    if i < s.len() {
        lemma_piece_ok(s, i);
        let p = piece_at(s, i);
        let rest = pieces(s, p.to);
        lemma_joined_from(s, p.to);
        let v = pieces(s, i);
        assert(v == seq![p] + rest);
        if rest.len() > 0 {
            assert(v.last() == rest.last());
        }
        assert forall|k: int| 0 <= k < v.len() implies #[trigger] fits_from(v, s, k, i) by {
            if k > 0 {
                assert(fits_from(rest, s, k - 1, p.to));
                assert(v[k] == rest[k - 1]);
                if k > 1 {
                    assert(v[k - 1] == rest[k - 2]);
                }
            }
        }
    }
}

/// Whether no tag of a source multiplies and has a list, as one that repeats a list
/// does. The engine works such a product out when it compiles a template, however
/// long the list comes out.
pub open spec fn tame(s: Seq<char>) -> bool {
    forall|k: int| 0 <= k < pieces(s, 0).len() ==> !(#[trigger] pieces(s, 0)[k]).repeats
}

pub fn is_tame(source: &Vec<char>) -> (r: bool)
    ensures
        r == tame(source@),
{
    let v = pieces_of(source);
    let ghost pv = pieces(source@, 0);
    let mut k: usize = 0;
    while k < v.len()
        invariant
            k <= v@.len(),
            pv == pieces(source@, 0),
            pv == pieces_view(v@),
            forall|j: int| 0 <= j < k ==> !(#[trigger] pv[j]).repeats,
        decreases v@.len() - k,
    {
        proof {
            assert(pv[k as int] == v@[k as int]@);
        }
        if v[k].repeats {
            return false;
        }
        k += 1;
    }
    true
}

} // verus!
