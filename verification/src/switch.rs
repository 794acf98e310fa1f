//! The `switch` statement, written out as branches that the template engine knows.
//!
//! `{% switch subject %}` holds the subject in a variable, each `{% case a, b %}` is a
//! branch on whether it equals one of the values, and `{% default %}` is the branch
//! that is left. The conditions are tried in order before any body is run, so that one
//! variable does for all switches. Every line keeps its number.

use vstd::prelude::*;
use vstd::string::*;
use vstd::utf8::encode_utf8;

use crate::error::{CompileError, ErrorCode, Span};
use crate::scan::{ascii_space, chars_of, is_ascii_space, is_space, space, string_of};
use crate::tags::{
    blank_end, blank_stop, is_word_char, joined, law_pieces_are_joined, lemma_blank_end,
    lemma_word_end, past_sign, piece_fits, piece_ok, pieces, pieces_of, pieces_view, skip_sign,
    string_end, string_stop, word_end, word_is, word_stop, Piece, PieceKind, PieceV,
};

verus! {

/// How a case reads before its first value.
pub const CASE_HEAD: &'static str = "__switch == (";

/// How it reads between two values.
pub const CASE_JOIN: &'static str = ") or __switch == (";

// --------------------------------------------------------------------------
// what a piece is to a switch
// --------------------------------------------------------------------------

/// What a piece is to a switch.
#[derive(Debug, Clone, Copy, PartialEq, Eq, Structural)]
pub enum Role {
    Plain,
    /// It opens a statement that can have branches.
    Opener,
    /// It is a branch of one.
    Branch,
    /// It closes one.
    Closer,
    Switch,
    Case,
    Default,
    EndSwitch,
}

/// Where the word of a block starts.
pub open spec fn word_from(s: Seq<char>, p: PieceV) -> int {
    blank_end(s, past_sign(s, p.from + 2))
}

/// Where the word of a block ends, no later than where the block closes.
pub open spec fn word_to(s: Seq<char>, p: PieceV) -> int {
    word_end(s, word_from(s, p))
}

/// The role of a word.
pub open spec fn role_named(w: Seq<char>) -> Role {
    if w == "if"@ || w == "for"@ {
        Role::Opener
    } else if w == "elif"@ || w == "else"@ {
        Role::Branch
    } else if w == "endif"@ || w == "endfor"@ {
        Role::Closer
    } else if w == "switch"@ {
        Role::Switch
    } else if w == "case"@ {
        Role::Case
    } else if w == "default"@ {
        Role::Default
    } else if w == "endswitch"@ {
        Role::EndSwitch
    } else {
        Role::Plain
    }
}

/// The role of a piece.
pub open spec fn role_of(s: Seq<char>, p: PieceV) -> Role {
    if p.kind == PieceKind::Block && word_to(s, p) <= p.body {
        role_named(s.subrange(word_from(s, p), word_to(s, p)))
    } else {
        Role::Plain
    }
}

/// A piece with its role and, where it has another than [`Role::Plain`], its word.
struct Read {
    role: Role,
    from: usize,
    to: usize,
}

fn role(v: &Vec<char>, p: Piece) -> (r: Read)
    requires
        piece_ok(p@, v@, p.from as int),
    ensures
        r.role == role_of(v@, p@),
        r.role != Role::Plain ==> {
            &&& r.from == word_from(v@, p@)
            &&& r.to == word_to(v@, p@)
            &&& p.from <= r.from <= r.to <= p.body
        },
{
    let plain = Read { role: Role::Plain, from: 0, to: 0 };
    match p.kind {
        PieceKind::Block => {},
        _ => return plain,
    }
    let from: usize = blank_stop(v, skip_sign(v, p.from + 2));
    let to: usize = word_stop(v, from);
    if to > p.body {
        return plain;
    }
    let role = if word_is(v, from, to, "if") || word_is(v, from, to, "for") {
        Role::Opener
    } else if word_is(v, from, to, "elif") || word_is(v, from, to, "else") {
        Role::Branch
    } else if word_is(v, from, to, "endif") || word_is(v, from, to, "endfor") {
        Role::Closer
    } else if word_is(v, from, to, "switch") {
        Role::Switch
    } else if word_is(v, from, to, "case") {
        Role::Case
    } else if word_is(v, from, to, "default") {
        Role::Default
    } else if word_is(v, from, to, "endswitch") {
        Role::EndSwitch
    } else {
        Role::Plain
    };
    Read { role, from, to }
}

// --------------------------------------------------------------------------
// values
// --------------------------------------------------------------------------

/// The condition that the values from `j` to `b` write, after `acc`: `None` where a
/// value is missing.
pub open spec fn condition(
    s: Seq<char>,
    j: int,
    b: int,
    depth: int,
    filled: bool,
    acc: Seq<char>,
) -> Option<Seq<char>>
    decreases b - j,
{
    if j < 0 || j >= b || b > s.len() {
        if filled {
            Some(acc)
        } else {
            None
        }
    } else if s[j] == '"' || s[j] == '\'' {
        match string_end(s, j + 1, s[j]) {
            Some(e) => if j < e <= b {
                condition(s, e, b, depth, true, acc + s.subrange(j, e))
            } else {
                None
            },
            None => None,
        }
    } else if s[j] == ',' && depth == 0 {
        if filled {
            condition(s, j + 1, b, depth, false, acc + CASE_JOIN@)
        } else {
            None
        }
    } else {
        condition(
            s,
            j + 1,
            b,
            if s[j] == '(' || s[j] == '[' || s[j] == '{' {
                depth + 1
            } else if s[j] == ')' || s[j] == ']' || s[j] == '}' {
                depth - 1
            } else {
                depth
            },
            filled || !is_ascii_space(s[j]),
            acc.push(s[j]),
        )
    }
}

/// The condition of a case: whether the subject equals one of the values between `a`
/// and `b`, which commas part.
pub open spec fn case_condition(s: Seq<char>, a: int, b: int) -> Option<Seq<char>> {
    match condition(s, a, b, 0, false, CASE_HEAD@) {
        Some(c) => Some(c.push(')')),
        None => None,
    }
}

fn append(out: &mut Vec<char>, v: &Vec<char>, from: usize, to: usize)
    requires
        from <= to <= v@.len(),
    ensures
        final(out)@ == old(out)@ + v@.subrange(from as int, to as int),
{
    let ghost start = out@;
    let mut i: usize = from;
    proof {
        assert(start + v@.subrange(from as int, from as int) =~= start);
    }
    while i < to
        invariant
            from <= i <= to <= v@.len(),
            out@ == start + v@.subrange(from as int, i as int),
        decreases to - i,
    {
        out.push(v[i]);
        proof {
            assert(out@ =~= start + v@.subrange(from as int, i + 1));
        }
        i += 1;
    }
}

fn append_text(out: &mut Vec<char>, t: &str)
    ensures
        final(out)@ == old(out)@ + t@,
{
    let v = chars_of(t);
    let n: usize = v.len();
    append(out, &v, 0, n);
    proof {
        assert(v@.subrange(0, n as int) =~= t@);
    }
}

fn condition_of(v: &Vec<char>, a: usize, b: usize) -> (r: Option<Vec<char>>)
    requires
        a <= b <= v@.len(),
    ensures
        match r {
            Some(c) => case_condition(v@, a as int, b as int) == Some(c@),
            None => case_condition(v@, a as int, b as int) is None,
        },
{
    let mut out: Vec<char> = chars_of(CASE_HEAD);
    let mut depth: i128 = 0;
    let mut filled: bool = false;
    let mut j: usize = a;
    while j < b
        invariant
            a <= j <= b <= v@.len(),
            -(j as int) <= depth <= j,
            condition(v@, a as int, b as int, 0, false, CASE_HEAD@) == condition(
                v@,
                j as int,
                b as int,
                depth as int,
                filled,
                out@,
            ),
        decreases b - j,
    {
        let c: char = v[j];
        if c == '"' || c == '\'' {
            match string_stop(v, j + 1, c) {
                Some(e) => {
                    if e > b {
                        return None;
                    }
                    append(&mut out, v, j, e);
                    filled = true;
                    j = e;
                },
                None => return None,
            }
        } else if c == ',' && depth == 0 {
            if !filled {
                return None;
            }
            append_text(&mut out, CASE_JOIN);
            filled = false;
            j += 1;
        } else {
            if c == '(' || c == '[' || c == '{' {
                depth += 1;
            } else if c == ')' || c == ']' || c == '}' {
                depth -= 1;
            }
            filled = filled || !ascii_space(c);
            out.push(c);
            j += 1;
        }
    }
    if !filled {
        return None;
    }
    out.push(')');
    Some(out)
}

// --------------------------------------------------------------------------
// writing switches out
// --------------------------------------------------------------------------

/// A statement that is open: one of the engine's own, or a switch before its first
/// case, among its cases, or at its default.
#[derive(Debug, Clone, Copy, PartialEq, Eq, Structural)]
pub enum FrameKind {
    Own,
    Start,
    Cases,
    Last,
}

/// An open statement, and the piece that opened it.
#[derive(Debug, Clone, Copy, PartialEq, Eq, Structural)]
pub struct Frame {
    pub kind: FrameKind,
    pub from: usize,
    pub to: usize,
}

/// What is wrong with a switch.
#[derive(Debug, Clone, Copy, PartialEq, Eq, Structural)]
pub enum Fault {
    /// Something else than a case stands first in a switch.
    Stray,
    /// A part of a switch stands outside of one, or in another statement within it.
    Misplaced,
    /// A branch of another statement stands directly in a switch.
    Branch,
    /// A case or a default follows the default.
    AfterDefault,
    NoSubject,
    NoValue,
    Unclosed,
}

/// What a fault is called.
pub open spec fn fault_text(f: Fault) -> Seq<char> {
    match f {
        Fault::Stray => "only a case or a default may come first in a switch"@,
        Fault::Misplaced => "part of a switch outside of one"@,
        Fault::Branch => "branch of another statement in a switch"@,
        Fault::AfterDefault => "the default has to come last in a switch"@,
        Fault::NoSubject => "switch without a subject"@,
        Fault::NoValue => "case without a value"@,
        Fault::Unclosed => "switch without an end"@,
    }
}

fn fault_message(f: Fault) -> (r: String)
    ensures
        r@ == fault_text(f),
{
    match f {
        Fault::Stray => "only a case or a default may come first in a switch".to_string(),
        Fault::Misplaced => "part of a switch outside of one".to_string(),
        Fault::Branch => "branch of another statement in a switch".to_string(),
        Fault::AfterDefault => "the default has to come last in a switch".to_string(),
        Fault::NoSubject => "switch without a subject".to_string(),
        Fault::NoValue => "case without a value".to_string(),
        Fault::Unclosed => "switch without an end".to_string(),
    }
}

/// A fault, and the piece it lies in.
#[derive(Debug, Clone, Copy, PartialEq, Eq, Structural)]
pub struct FaultAt {
    pub fault: Fault,
    pub from: usize,
    pub to: usize,
}

/// What was written so far, and the statements that are open.
pub struct OutV {
    pub text: Seq<char>,
    pub open: Seq<Frame>,
}

pub open spec fn fault_in(p: PieceV, fault: Fault) -> Result<OutV, FaultAt> {
    Err(FaultAt { fault, from: p.from as usize, to: p.to as usize })
}

pub open spec fn frame_for(p: PieceV, kind: FrameKind) -> Frame {
    Frame { kind, from: p.from as usize, to: p.to as usize }
}

/// The frame that a switch has next.
pub open spec fn with_top(open: Seq<Frame>, kind: FrameKind) -> Seq<Frame> {
    open.drop_last().push(Frame { kind, ..open.last() })
}

/// A block with its word, and what follows up to `b`, replaced.
pub open spec fn reworded(s: Seq<char>, p: PieceV, by: Seq<char>, b: int) -> Seq<char> {
    s.subrange(p.from, word_from(s, p)) + by + s.subrange(b, p.to)
}

/// Whether there are only blanks between `a` and `b`.
pub open spec fn blank_between(s: Seq<char>, a: int, b: int) -> bool {
    forall|i: int| a <= i < b ==> is_space(#[trigger] s[i])
}

/// The state with one more piece. A piece that is no part of a switch stays as it is,
/// but for the blanks before a first case, which become a comment.
pub open spec fn step(s: Seq<char>, p: PieceV, o: OutV) -> Result<OutV, FaultAt> {
    let own = s.subrange(p.from, p.to);
    let kept = OutV { text: o.text + own, ..o };
    let top = if o.open.len() > 0 {
        Some(o.open.last().kind)
    } else {
        None
    };
    let end = word_to(s, p);
    match role_of(s, p) {
        Role::Plain => if top != Some(FrameKind::Start) || p.kind == PieceKind::Comment {
            Ok(kept)
        } else if p.kind == PieceKind::Text && blank_between(s, p.from, p.to) {
            Ok(OutV { text: o.text + ("{#"@ + own + "#}"@), ..o })
        } else {
            fault_in(p, Fault::Stray)
        },
        Role::Opener => if top == Some(FrameKind::Start) {
            fault_in(p, Fault::Stray)
        } else {
            Ok(OutV { open: o.open.push(frame_for(p, FrameKind::Own)), ..kept })
        },
        Role::Branch => match top {
            None | Some(FrameKind::Own) => Ok(kept),
            Some(_) => fault_in(p, Fault::Branch),
        },
        Role::Closer => match top {
            None => Ok(kept),
            Some(FrameKind::Own) => Ok(OutV { open: o.open.drop_last(), ..kept }),
            Some(_) => fault_in(p, Fault::Branch),
        },
        Role::Switch => if top == Some(FrameKind::Start) {
            fault_in(p, Fault::Stray)
        } else if blank_between(s, end, p.body) {
            fault_in(p, Fault::NoSubject)
        } else {
            let held = "set __switch = ("@ + s.subrange(end, p.body) + ")"@;
            Ok(
                OutV {
                    text: o.text + reworded(s, p, held, p.body),
                    open: o.open.push(frame_for(p, FrameKind::Start)),
                },
            )
        },
        Role::Case => match top {
            None | Some(FrameKind::Own) => fault_in(p, Fault::Misplaced),
            Some(FrameKind::Last) => fault_in(p, Fault::AfterDefault),
            Some(k) => match case_condition(s, end, p.body) {
                None => fault_in(p, Fault::NoValue),
                Some(c) => {
                    let word = if k == FrameKind::Start {
                        "if "@
                    } else {
                        "elif "@
                    };
                    Ok(
                        OutV {
                            text: o.text + reworded(s, p, word + c, p.body),
                            open: with_top(o.open, FrameKind::Cases),
                        },
                    )
                },
            },
        },
        Role::Default => match top {
            None | Some(FrameKind::Own) => fault_in(p, Fault::Misplaced),
            Some(FrameKind::Last) => fault_in(p, Fault::AfterDefault),
            Some(k) => {
                let word = if k == FrameKind::Start {
                    "if true"@
                } else {
                    "else"@
                };
                Ok(
                    OutV {
                        text: o.text + reworded(s, p, word, end),
                        open: with_top(o.open, FrameKind::Last),
                    },
                )
            },
        },
        Role::EndSwitch => match top {
            None | Some(FrameKind::Own) => fault_in(p, Fault::Misplaced),
            Some(k) => {
                let word = if k == FrameKind::Start {
                    "set __switch = none"@
                } else {
                    "endif"@
                };
                Ok(
                    OutV {
                        text: o.text + reworded(s, p, word, end),
                        open: o.open.drop_last(),
                    },
                )
            },
        },
    }
}

/// The state after the first `k` pieces.
pub open spec fn steps(s: Seq<char>, v: Seq<PieceV>, k: nat) -> Result<OutV, FaultAt>
    decreases k,
{
    if k == 0 || k > v.len() {
        Ok(OutV { text: Seq::empty(), open: Seq::empty() })
    } else {
        match steps(s, v, (k - 1) as nat) {
            Ok(o) => step(s, v[k - 1], o),
            Err(f) => Err(f),
        }
    }
}

/// The innermost switch that is open.
pub open spec fn open_switch(open: Seq<Frame>) -> Option<Frame>
    decreases open.len(),
{
    if open.len() == 0 {
        None
    } else if open.last().kind != FrameKind::Own {
        Some(open.last())
    } else {
        open_switch(open.drop_last())
    }
}

/// A source with its switches written out.
pub open spec fn desugared(s: Seq<char>) -> Result<Seq<char>, FaultAt> {
    match steps(s, pieces(s, 0), pieces(s, 0).len()) {
        Ok(o) => match open_switch(o.open) {
            Some(f) => Err(FaultAt { fault: Fault::Unclosed, from: f.from, to: f.to }),
            None => Ok(o.text),
        },
        Err(f) => Err(f),
    }
}

struct Out {
    text: Vec<char>,
    open: Vec<Frame>,
}

impl View for Out {
    type V = OutV;

    closed spec fn view(&self) -> OutV {
        OutV { text: self.text@, open: self.open@ }
    }
}

fn only_blanks(v: &Vec<char>, a: usize, b: usize) -> (r: bool)
    requires
        a <= b <= v@.len(),
    ensures
        r == blank_between(v@, a as int, b as int),
{
    let mut i: usize = a;
    while i < b
        invariant
            a <= i <= b <= v@.len(),
            forall|j: int| a <= j < i ==> is_space(#[trigger] v@[j]),
        decreases b - i,
    {
        if !space(v[i]) {
            return false;
        }
        i += 1;
    }
    true
}

fn fault_of(p: Piece, fault: Fault) -> (r: Option<FaultAt>)
    ensures
        r == Some(FaultAt { fault, from: p.from, to: p.to }),
{
    Some(FaultAt { fault, from: p.from, to: p.to })
}

impl Out {
    fn top(&self) -> (r: Option<FrameKind>)
        ensures
            r == (if self@.open.len() > 0 {
                Some(self@.open.last().kind)
            } else {
                None
            }),
    {
        let n: usize = self.open.len();
        if n > 0 {
            Some(self.open[n - 1].kind)
        } else {
            None
        }
    }

    fn keep(&mut self, v: &Vec<char>, p: Piece)
        requires
            p.from <= p.to <= v@.len(),
        ensures
            final(self)@ == (OutV {
                text: old(self)@.text + v@.subrange(p.from as int, p.to as int),
                ..old(self)@
            }),
    {
        append(&mut self.text, v, p.from, p.to);
    }

    fn push(&mut self, p: Piece, kind: FrameKind)
        ensures
            final(self)@ == (OutV {
                open: old(self)@.open.push(frame_for(p@, kind)),
                ..old(self)@
            }),
    {
        self.open.push(Frame { kind, from: p.from, to: p.to });
    }

    fn pop(&mut self)
        requires
            old(self)@.open.len() > 0,
        ensures
            final(self)@ == (OutV { open: old(self)@.open.drop_last(), ..old(self)@ }),
    {
        let _ = self.open.pop();
    }

    fn set_top(&mut self, kind: FrameKind)
        requires
            old(self)@.open.len() > 0,
        ensures
            final(self)@ == (OutV { open: with_top(old(self)@.open, kind), ..old(self)@ }),
    {
        if let Some(f) = self.open.pop() {
            self.open.push(Frame { kind, from: f.from, to: f.to });
        }
    }

    /// Write a block with its word, and what follows up to `b`, replaced.
    fn reword(&mut self, v: &Vec<char>, p: Piece, w: &Read, by: &Vec<char>, b: usize)
        requires
            p.from <= w.from,
            w.from == word_from(v@, p@),
            w.from <= b <= p.to <= v@.len(),
        ensures
            final(self)@ == (OutV {
                text: old(self)@.text + reworded(v@, p@, by@, b as int),
                ..old(self)@
            }),
    {
        let ghost start = self.text@;
        append(&mut self.text, v, p.from, w.from);
        let n: usize = by.len();
        append(&mut self.text, by, 0, n);
        append(&mut self.text, v, b, p.to);
        proof {
            assert(by@.subrange(0, n as int) =~= by@);
            assert(self.text@ =~= start + reworded(v@, p@, by@, b as int));
        }
    }
}

fn plain_step(v: &Vec<char>, p: Piece, o: &mut Out) -> (r: Option<FaultAt>)
    requires
        piece_ok(p@, v@, p.from as int),
        role_of(v@, p@) == Role::Plain,
    ensures
        match step(v@, p@, old(o)@) {
            Ok(n) => r is None && final(o)@ == n,
            Err(f) => r == Some(f),
        },
{
    match o.top() {
        Some(FrameKind::Start) => match p.kind {
            PieceKind::Comment => {
                o.keep(v, p);
                None
            },
            PieceKind::Text => {
                if !only_blanks(v, p.from, p.to) {
                    return fault_of(p, Fault::Stray);
                }
                let ghost start = o.text@;
                append_text(&mut o.text, "{#");
                append(&mut o.text, v, p.from, p.to);
                append_text(&mut o.text, "#}");
                proof {
                    assert(o.text@ =~= start + ("{#"@ + v@.subrange(p.from as int, p.to as int)
                        + "#}"@));
                }
                None
            },
            _ => fault_of(p, Fault::Stray),
        },
        _ => {
            o.keep(v, p);
            None
        },
    }
}

fn own_step(v: &Vec<char>, p: Piece, w: &Read, o: &mut Out) -> (r: Option<FaultAt>)
    requires
        piece_ok(p@, v@, p.from as int),
        w.role == role_of(v@, p@),
        w.role == Role::Opener || w.role == Role::Branch || w.role == Role::Closer,
    ensures
        match step(v@, p@, old(o)@) {
            Ok(n) => r is None && final(o)@ == n,
            Err(f) => r == Some(f),
        },
{
    match w.role {
        Role::Opener => {
            if let Some(FrameKind::Start) = o.top() {
                return fault_of(p, Fault::Stray);
            }
            o.keep(v, p);
            o.push(p, FrameKind::Own);
            None
        },
        Role::Branch => match o.top() {
            None | Some(FrameKind::Own) => {
                o.keep(v, p);
                None
            },
            Some(_) => fault_of(p, Fault::Branch),
        },
        _ => match o.top() {
            None => {
                o.keep(v, p);
                None
            },
            Some(FrameKind::Own) => {
                o.keep(v, p);
                o.pop();
                None
            },
            Some(_) => fault_of(p, Fault::Branch),
        },
    }
}

fn switch_step(v: &Vec<char>, p: Piece, w: &Read, o: &mut Out) -> (r: Option<FaultAt>)
    requires
        piece_ok(p@, v@, p.from as int),
        w.role == role_of(v@, p@),
        w.role == Role::Switch,
        w.from == word_from(v@, p@),
        w.to == word_to(v@, p@),
        p.from <= w.from <= w.to <= p.body,
    ensures
        match step(v@, p@, old(o)@) {
            Ok(n) => r is None && final(o)@ == n,
            Err(f) => r == Some(f),
        },
{
    if let Some(FrameKind::Start) = o.top() {
        return fault_of(p, Fault::Stray);
    }
    if only_blanks(v, w.to, p.body) {
        return fault_of(p, Fault::NoSubject);
    }
    let mut held = chars_of("set __switch = (");
    append(&mut held, v, w.to, p.body);
    append_text(&mut held, ")");
    o.reword(v, p, w, &held, p.body);
    o.push(p, FrameKind::Start);
    None
}

fn case_step(v: &Vec<char>, p: Piece, w: &Read, o: &mut Out) -> (r: Option<FaultAt>)
    requires
        piece_ok(p@, v@, p.from as int),
        w.role == role_of(v@, p@),
        w.role == Role::Case,
        w.from == word_from(v@, p@),
        w.to == word_to(v@, p@),
        p.from <= w.from <= w.to <= p.body,
    ensures
        match step(v@, p@, old(o)@) {
            Ok(n) => r is None && final(o)@ == n,
            Err(f) => r == Some(f),
        },
{
    let first: bool = match o.top() {
        None | Some(FrameKind::Own) => return fault_of(p, Fault::Misplaced),
        Some(FrameKind::Last) => return fault_of(p, Fault::AfterDefault),
        Some(FrameKind::Start) => true,
        Some(FrameKind::Cases) => false,
    };
    let c = match condition_of(v, w.to, p.body) {
        Some(c) => c,
        None => return fault_of(p, Fault::NoValue),
    };
    let mut by = if first {
        chars_of("if ")
    } else {
        chars_of("elif ")
    };
    let n: usize = c.len();
    append(&mut by, &c, 0, n);
    proof {
        assert(c@.subrange(0, n as int) =~= c@);
    }
    o.reword(v, p, w, &by, p.body);
    o.set_top(FrameKind::Cases);
    None
}

fn last_step(v: &Vec<char>, p: Piece, w: &Read, o: &mut Out) -> (r: Option<FaultAt>)
    requires
        piece_ok(p@, v@, p.from as int),
        w.role == role_of(v@, p@),
        w.role == Role::Default || w.role == Role::EndSwitch,
        w.from == word_from(v@, p@),
        w.to == word_to(v@, p@),
        p.from <= w.from <= w.to <= p.body,
    ensures
        match step(v@, p@, old(o)@) {
            Ok(n) => r is None && final(o)@ == n,
            Err(f) => r == Some(f),
        },
{
    let kind = match o.top() {
        None | Some(FrameKind::Own) => return fault_of(p, Fault::Misplaced),
        Some(k) => k,
    };
    match w.role {
        Role::Default => {
            let by = match kind {
                FrameKind::Start => chars_of("if true"),
                FrameKind::Last => return fault_of(p, Fault::AfterDefault),
                _ => chars_of("else"),
            };
            o.reword(v, p, w, &by, w.to);
            o.set_top(FrameKind::Last);
        },
        _ => {
            let by = match kind {
                FrameKind::Start => chars_of("set __switch = none"),
                _ => chars_of("endif"),
            };
            o.reword(v, p, w, &by, w.to);
            o.pop();
        },
    }
    None
}

fn one_step(v: &Vec<char>, p: Piece, o: &mut Out) -> (r: Option<FaultAt>)
    requires
        piece_ok(p@, v@, p.from as int),
    ensures
        match step(v@, p@, old(o)@) {
            Ok(n) => r is None && final(o)@ == n,
            Err(f) => r == Some(f),
        },
{
    let w = role(v, p);
    match w.role {
        Role::Plain => plain_step(v, p, o),
        Role::Opener | Role::Branch | Role::Closer => own_step(v, p, &w, o),
        Role::Switch => switch_step(v, p, &w, o),
        Role::Case => case_step(v, p, &w, o),
        Role::Default | Role::EndSwitch => last_step(v, p, &w, o),
    }
}

fn innermost(open: &Vec<Frame>) -> (r: Option<Frame>)
    ensures
        r == open_switch(open@),
{
    let mut n: usize = open.len();
    proof {
        assert(open@.take(n as int) =~= open@);
    }
    while n > 0
        invariant
            n <= open@.len(),
            open_switch(open@) == open_switch(open@.take(n as int)),
        decreases n,
    {
        proof {
            assert(open@.take(n as int).last() == open@[n - 1]);
            assert(open@.take(n as int).drop_last() =~= open@.take(n - 1));
        }
        match open[n - 1].kind {
            FrameKind::Own => {},
            _ => return Some(open[n - 1]),
        }
        n -= 1;
    }
    None
}

proof fn lemma_stop(s: Seq<char>, v: Seq<PieceV>, k: nat, n: nat)
    requires
        0 < k <= n <= v.len(),
        steps(s, v, k) is Err,
    ensures
        steps(s, v, n) == steps(s, v, k),
    decreases n,
{
    if k < n {
        lemma_stop(s, v, k, (n - 1) as nat);
    }
}

fn write_out(v: &Vec<char>) -> (r: Result<Vec<char>, FaultAt>)
    ensures
        match r {
            Ok(t) => desugared(v@) == Ok::<Seq<char>, FaultAt>(t@),
            Err(f) => desugared(v@) == Err::<Seq<char>, FaultAt>(f),
        },
{
    let parts = pieces_of(v);
    let ghost pv = pieces(v@, 0);
    let mut o = Out { text: Vec::new(), open: Vec::new() };
    let mut k: usize = 0;
    proof {
        assert(o@.text =~= Seq::empty());
        assert(o@.open =~= Seq::empty());
    }
    while k < parts.len()
        invariant
            k <= parts@.len(),
            pv == pieces(v@, 0),
            pv == pieces_view(parts@),
            joined(pv, v@),
            steps(v@, pv, k as nat) == Ok::<OutV, FaultAt>(o@),
        decreases parts@.len() - k,
    {
        proof {
            assert(piece_fits(pv, v@, k as int));
            assert(pv[k as int] == parts@[k as int]@);
        }
        if let Some(f) = one_step(v, parts[k], &mut o) {
            proof {
                lemma_stop(v@, pv, (k + 1) as nat, pv.len());
            }
            return Err(f);
        }
        k += 1;
    }
    match innermost(&o.open) {
        Some(f) => Err(FaultAt { fault: Fault::Unclosed, from: f.from, to: f.to }),
        None => Ok(o.text),
    }
}

// --------------------------------------------------------------------------
// places
// --------------------------------------------------------------------------

/// How many newlines a text has.
pub open spec fn newlines(t: Seq<char>) -> nat
    decreases t.len(),
{
    if t.len() == 0 {
        0
    } else {
        newlines(t.drop_last()) + if t.last() == '\n' {
            1nat
        } else {
            0
        }
    }
}

/// The place of a fault: its line, counted from one, and its bytes.
pub open spec fn fault_span(s: Seq<char>, f: FaultAt) -> Span {
    let lines = newlines(s.take(f.from as int));
    Span {
        line: if lines < u32::MAX {
            (lines + 1) as u32
        } else {
            u32::MAX
        },
        range: Some(
            (
                encode_utf8(s.take(f.from as int)).len() as usize,
                encode_utf8(s.take(f.to as int)).len() as usize,
            ),
        ),
    }
}

/// Whether the pieces that opened statements lie in a source.
spec fn frames_lie(open: Seq<Frame>, n: nat) -> bool {
    forall|i: int| 0 <= i < open.len() ==> (#[trigger] open[i]).from <= open[i].to <= n
}

proof fn lemma_frames_lie(s: Seq<char>, p: PieceV, o: OutV)
    requires
        piece_ok(p, s, p.from),
        0 <= p.from,
        s.len() <= usize::MAX,
        frames_lie(o.open, s.len()),
    ensures
        match step(s, p, o) {
            Ok(n) => frames_lie(n.open, s.len()),
            Err(f) => f.from <= f.to <= s.len(),
        },
{
    if o.open.len() > 0 {
        let top = o.open.last();
        assert(o.open[o.open.len() - 1] == top);
        assert forall|i: int| 0 <= i < o.open.drop_last().len() implies (
        #[trigger] o.open.drop_last()[i]).from <= o.open.drop_last()[i].to <= s.len() by {
            assert(o.open[i].from <= o.open[i].to);
        }
    }
}

proof fn lemma_open_switch_lies(open: Seq<Frame>, n: nat)
    requires
        frames_lie(open, n),
    ensures
        open_switch(open) matches Some(f) ==> f.from <= f.to <= n,
    decreases open.len(),
{
    if open.len() > 0 {
        assert(open[open.len() - 1].from <= open[open.len() - 1].to <= n);
        assert forall|i: int| 0 <= i < open.drop_last().len() implies (
        #[trigger] open.drop_last()[i]).from <= open.drop_last()[i].to <= n by {
            assert(open[i].from <= open[i].to);
        }
        lemma_open_switch_lies(open.drop_last(), n);
    }
}

proof fn lemma_steps_lie(s: Seq<char>, k: nat)
    requires
        s.len() <= usize::MAX,
        k <= pieces(s, 0).len(),
    ensures
        match steps(s, pieces(s, 0), k) {
            Ok(n) => frames_lie(n.open, s.len()),
            Err(f) => f.from <= f.to <= s.len(),
        },
    decreases k,
{
    if k > 0 {
        lemma_steps_lie(s, (k - 1) as nat);
        law_pieces_are_joined(s);
        lemma_start(s, k - 1);
        if let Ok(o) = steps(s, pieces(s, 0), (k - 1) as nat) {
            lemma_frames_lie(s, pieces(s, 0)[k - 1], o);
        }
    }
}

/// Where the `k`th piece lies.
proof fn lemma_start(s: Seq<char>, k: int)
    requires
        0 <= k < pieces(s, 0).len(),
    ensures
        ({
            let v = pieces(s, 0);
            &&& piece_ok(v[k], s, v[k].from)
            &&& 0 <= v[k].from
            &&& v[k].from == if k == 0 {
                0
            } else {
                v[k - 1].to
            }
        }),
    decreases k,
{
    law_pieces_are_joined(s);
    assert(piece_fits(pieces(s, 0), s, k));
    if k > 0 {
        lemma_start(s, k - 1);
    }
}

proof fn lemma_fault_lies(s: Seq<char>)
    requires
        s.len() <= usize::MAX,
    ensures
        desugared(s) matches Err(f) ==> f.from <= f.to <= s.len(),
{
    let n = pieces(s, 0).len();
    lemma_steps_lie(s, n);
    if let Ok(o) = steps(s, pieces(s, 0), n) {
        lemma_open_switch_lies(o.open, s.len());
    }
}

fn head_of(v: &Vec<char>, n: usize) -> (r: String)
    requires
        n <= v@.len(),
    ensures
        r@ == v@.take(n as int),
{
    let r = string_of(vstd::slice::slice_subrange(v.as_slice(), 0, n));
    proof {
        assert(r@ =~= v@.take(n as int));
    }
    r
}

fn lines_before(v: &Vec<char>, n: usize) -> (r: usize)
    requires
        n <= v@.len(),
    ensures
        r == newlines(v@.take(n as int)),
        r <= n,
{
    let mut count: usize = 0;
    let mut i: usize = 0;
    while i < n
        invariant
            i <= n <= v@.len(),
            count <= i,
            count == newlines(v@.take(i as int)),
        decreases n - i,
    {
        proof {
            assert(v@.take(i + 1).drop_last() =~= v@.take(i as int));
        }
        if v[i] == '\n' {
            count += 1;
        }
        i += 1;
    }
    count
}

fn span_of_fault(v: &Vec<char>, f: FaultAt) -> (r: Span)
    requires
        f.from <= f.to <= v@.len(),
    ensures
        r == fault_span(v@, f),
{
    let lines: usize = lines_before(v, f.from);
    let line: u32 = if (lines as u64) < u32::MAX as u64 {
        lines as u32 + 1
    } else {
        u32::MAX
    };
    let a: usize = head_of(v, f.from).as_str().as_bytes().len();
    let b: usize = head_of(v, f.to).as_str().as_bytes().len();
    Span::new(line, Some((a, b)))
}

/// Write the switches of a source out. A source whose switches are not well formed is
/// an error of its syntax, at the tag where that shows.
pub fn desugar(source: &str) -> (r: Result<String, CompileError>)
    ensures
        match desugared(source@) {
            Ok(t) => r matches Ok(x) && x@ == t,
            Err(f) => r matches Err(e) && e.code == ErrorCode::TemplateSyntax && e.message@
                == fault_text(f.fault) && e.span == fault_span(source@, f),
        },
{
    let v = chars_of(source);
    let n: usize = v.len();
    match write_out(&v) {
        Ok(t) => Ok(string_of(t.as_slice())),
        Err(f) => {
            proof {
                lemma_fault_lies(v@);
            }
            Err(
                CompileError {
                    code: ErrorCode::TemplateSyntax,
                    message: fault_message(f.fault),
                    span: span_of_fault(&v, f),
                },
            )
        },
    }
}

// --------------------------------------------------------------------------
// what always holds
// --------------------------------------------------------------------------

proof fn lemma_newlines_join(a: Seq<char>, b: Seq<char>)
    ensures
        newlines(a + b) == newlines(a) + newlines(b),
    decreases b.len(),
{
    if b.len() == 0 {
        assert(a + b =~= a);
    } else {
        lemma_newlines_join(a, b.drop_last());
        assert((a + b).drop_last() =~= a + b.drop_last());
    }
}

proof fn lemma_one_line(t: Seq<char>)
    requires
        forall|i: int| 0 <= i < t.len() ==> #[trigger] t[i] != '\n',
    ensures
        newlines(t) == 0,
    decreases t.len(),
{
    if t.len() > 0 {
        assert(t[t.len() - 1] == t.last());
        assert forall|i: int| 0 <= i < t.drop_last().len() implies #[trigger] t.drop_last()[i]
            != '\n' by {
            assert(t[i] != '\n');
        }
        lemma_one_line(t.drop_last());
    }
}

proof fn lemma_one_newline(c: char)
    ensures
        newlines(seq![c]) == if c == '\n' {
            1nat
        } else {
            0
        },
{
    let t = seq![c];
    assert(t.drop_last() =~= Seq::<char>::empty());
    assert(newlines(Seq::<char>::empty()) == 0);
    assert(t.last() == c);
}

proof fn lemma_words_are_lines()
    ensures
        newlines(CASE_HEAD@) == 0,
        newlines(CASE_JOIN@) == 0,
        newlines("{#"@) == 0,
        newlines("#}"@) == 0,
        newlines("set __switch = ("@) == 0,
        newlines(")"@) == 0,
        newlines("if "@) == 0,
        newlines("elif "@) == 0,
        newlines("if true"@) == 0,
        newlines("else"@) == 0,
        newlines("set __switch = none"@) == 0,
        newlines("endif"@) == 0,
{
    reveal_strlit("__switch == (");
    reveal_strlit(") or __switch == (");
    reveal_strlit("{#");
    reveal_strlit("#}");
    reveal_strlit("set __switch = (");
    reveal_strlit(")");
    reveal_strlit("if ");
    reveal_strlit("elif ");
    reveal_strlit("if true");
    reveal_strlit("else");
    reveal_strlit("set __switch = none");
    reveal_strlit("endif");
    lemma_one_line(CASE_HEAD@);
    lemma_one_line(CASE_JOIN@);
    lemma_one_line("{#"@);
    lemma_one_line("#}"@);
    lemma_one_line("set __switch = ("@);
    lemma_one_line(")"@);
    lemma_one_line("if "@);
    lemma_one_line("elif "@);
    lemma_one_line("if true"@);
    lemma_one_line("else"@);
    lemma_one_line("set __switch = none"@);
    lemma_one_line("endif"@);
}

/// The newlines of a stretch are those of its two parts.
proof fn lemma_newlines_between(s: Seq<char>, a: int, b: int, c: int)
    requires
        0 <= a <= b <= c <= s.len(),
    ensures
        newlines(s.subrange(a, c)) == newlines(s.subrange(a, b)) + newlines(s.subrange(b, c)),
{
    assert(s.subrange(a, c) =~= s.subrange(a, b) + s.subrange(b, c));
    lemma_newlines_join(s.subrange(a, b), s.subrange(b, c));
}

proof fn lemma_condition_lines(
    s: Seq<char>,
    j: int,
    b: int,
    depth: int,
    filled: bool,
    acc: Seq<char>,
)
    requires
        0 <= j <= b <= s.len(),
    ensures
        condition(s, j, b, depth, filled, acc) matches Some(c) ==> newlines(c) == newlines(acc)
            + newlines(s.subrange(j, b)),
    decreases b - j,
{
    lemma_words_are_lines();
    if j >= b {
        assert(s.subrange(j, b) =~= Seq::empty());
    } else if s[j] == '"' || s[j] == '\'' {
        if let Some(e) = string_end(s, j + 1, s[j]) {
            if j < e <= b {
                let next = acc + s.subrange(j, e);
                lemma_condition_lines(s, e, b, depth, true, next);
                lemma_newlines_join(acc, s.subrange(j, e));
                lemma_newlines_between(s, j, e, b);
            }
        }
    } else {
        lemma_newlines_between(s, j, j + 1, b);
        assert(s.subrange(j, j + 1) =~= seq![s[j]]);
        lemma_one_newline(s[j]);
        if s[j] == ',' && depth == 0 {
            if filled {
                lemma_newlines_join(acc, CASE_JOIN@);
                lemma_condition_lines(s, j + 1, b, depth, false, acc + CASE_JOIN@);
            }
        } else {
            assert(acc.push(s[j]).drop_last() =~= acc);
            lemma_condition_lines(
                s,
                j + 1,
                b,
                if s[j] == '(' || s[j] == '[' || s[j] == '{' {
                    depth + 1
                } else if s[j] == ')' || s[j] == ']' || s[j] == '}' {
                    depth - 1
                } else {
                    depth
                },
                filled || !is_ascii_space(s[j]),
                acc.push(s[j]),
            );
        }
    }
}

/// A reworded block has the newlines of what stays of it and of what is put in.
proof fn lemma_reworded_lines(s: Seq<char>, p: PieceV, by: Seq<char>, b: int)
    requires
        0 <= p.from <= word_from(s, p) <= b <= p.to <= s.len(),
        newlines(by) == newlines(s.subrange(word_from(s, p), b)),
    ensures
        newlines(reworded(s, p, by, b)) == newlines(s.subrange(p.from, p.to)),
{
    let k = word_from(s, p);
    lemma_newlines_join(s.subrange(p.from, k), by);
    lemma_newlines_join(s.subrange(p.from, k) + by, s.subrange(b, p.to));
    lemma_newlines_between(s, p.from, k, p.to);
    lemma_newlines_between(s, k, b, p.to);
}

/// A word is written on one line.
proof fn lemma_word_is_line(s: Seq<char>, j: int)
    requires
        0 <= j <= s.len(),
    ensures
        newlines(s.subrange(j, word_end(s, j))) == 0,
    decreases s.len() - j,
{
    lemma_word_end(s, j);
    if j < s.len() && is_word_char(s[j]) {
        lemma_word_is_line(s, j + 1);
        lemma_word_end(s, j + 1);
        lemma_newlines_between(s, j, j + 1, word_end(s, j));
        assert(s.subrange(j, j + 1) =~= seq![s[j]]);
        lemma_one_newline(s[j]);
    } else {
        assert(s.subrange(j, j) =~= Seq::empty());
    }
}

proof fn lemma_step_lines(s: Seq<char>, p: PieceV, o: OutV)
    requires
        piece_ok(p, s, p.from),
        0 <= p.from,
    ensures
        step(s, p, o) matches Ok(n) ==> newlines(n.text) == newlines(o.text) + newlines(
            s.subrange(p.from, p.to),
        ),
{
    let own = s.subrange(p.from, p.to);
    let from = word_from(s, p);
    let end = word_to(s, p);
    lemma_newlines_join(o.text, own);
    lemma_words_are_lines();
    if role_of(s, p) == Role::Plain {
        lemma_newlines_join("{#"@, own);
        lemma_newlines_join("{#"@ + own, "#}"@);
        lemma_newlines_join(o.text, "{#"@ + own + "#}"@);
    } else {
        lemma_blank_end(s, past_sign(s, p.from + 2));
        lemma_word_end(s, from);
        lemma_word_is_line(s, from);
        lemma_newlines_between(s, from, end, p.body);
        let args = s.subrange(end, p.body);
        let held = "set __switch = ("@ + args + ")"@;
        lemma_newlines_join("set __switch = ("@, args);
        lemma_newlines_join("set __switch = ("@ + args, ")"@);
        lemma_reworded_lines(s, p, held, p.body);
        lemma_newlines_join(o.text, reworded(s, p, held, p.body));
        lemma_condition_lines(s, end, p.body, 0, false, CASE_HEAD@);
        if let Some(c) = case_condition(s, end, p.body) {
            assert(c.drop_last() =~= condition(s, end, p.body, 0, false, CASE_HEAD@)->0);
            lemma_newlines_join("if "@, c);
            lemma_newlines_join("elif "@, c);
            lemma_reworded_lines(s, p, "if "@ + c, p.body);
            lemma_reworded_lines(s, p, "elif "@ + c, p.body);
            lemma_newlines_join(o.text, reworded(s, p, "if "@ + c, p.body));
            lemma_newlines_join(o.text, reworded(s, p, "elif "@ + c, p.body));
        }
        lemma_bare_step_lines(s, p, o, "if true"@);
        lemma_bare_step_lines(s, p, o, "else"@);
        lemma_bare_step_lines(s, p, o, "set __switch = none"@);
        lemma_bare_step_lines(s, p, o, "endif"@);
    }
}

proof fn lemma_bare_step_lines(s: Seq<char>, p: PieceV, o: OutV, w: Seq<char>)
    requires
        0 <= p.from <= word_from(s, p) <= word_to(s, p) <= p.to <= s.len(),
        newlines(w) == 0,
    ensures
        newlines(o.text + reworded(s, p, w, word_to(s, p))) == newlines(o.text) + newlines(
            s.subrange(p.from, p.to),
        ),
{
    lemma_word_is_line(s, word_from(s, p));
    lemma_reworded_lines(s, p, w, word_to(s, p));
    lemma_newlines_join(o.text, reworded(s, p, w, word_to(s, p)));
}

proof fn lemma_steps_lines(s: Seq<char>, k: nat)
    requires
        k <= pieces(s, 0).len(),
    ensures
        steps(s, pieces(s, 0), k) matches Ok(o) ==> newlines(o.text) == newlines(
            s.take(
                if k == 0 {
                    0
                } else {
                    pieces(s, 0)[k - 1].to
                },
            ),
        ),
    decreases k,
{
    let v = pieces(s, 0);
    if k == 0 {
        assert(s.take(0) =~= Seq::empty());
    } else {
        lemma_steps_lines(s, (k - 1) as nat);
        lemma_start(s, k - 1);
        if let Ok(o) = steps(s, v, (k - 1) as nat) {
            let p = v[k - 1];
            lemma_step_lines(s, p, o);
            lemma_newlines_between(s, 0, p.from, p.to);
            assert(s.take(p.from) =~= s.subrange(0, p.from));
            assert(s.take(p.to) =~= s.subrange(0, p.to));
        }
    }
}

/// Writing switches out keeps the number of lines, so that places told of the result
/// are those of the source.
pub proof fn law_lines_stay(s: Seq<char>)
    ensures
        desugared(s) matches Ok(t) ==> newlines(t) == newlines(s),
{
    let v = pieces(s, 0);
    lemma_steps_lines(s, v.len());
    law_pieces_are_joined(s);
    if v.len() == 0 {
        assert(s.take(0) =~= s);
    } else {
        assert(v[v.len() - 1] == v.last());
        assert(s.take(s.len() as int) =~= s);
    }
}

/// Whether no piece of a source is part of a switch.
pub open spec fn without_switches(s: Seq<char>) -> bool {
    forall|k: int|
        0 <= k < pieces(s, 0).len() ==> match role_of(s, #[trigger] pieces(s, 0)[k]) {
            Role::Plain | Role::Opener | Role::Branch | Role::Closer => true,
            _ => false,
        }
}

proof fn lemma_steps_stay(s: Seq<char>, k: nat)
    requires
        without_switches(s),
        k <= pieces(s, 0).len(),
    ensures
        steps(s, pieces(s, 0), k) matches Ok(o) && o.text == s.take(
            if k == 0 {
                0
            } else {
                pieces(s, 0)[k - 1].to
            },
        ) && forall|i: int| 0 <= i < o.open.len() ==> (#[trigger] o.open[i]).kind == FrameKind::Own,
    decreases k,
{
    let v = pieces(s, 0);
    if k == 0 {
        assert(s.take(0) =~= Seq::empty());
    } else {
        lemma_steps_stay(s, (k - 1) as nat);
        lemma_start(s, k - 1);
        let p = v[k - 1];
        let o = steps(s, v, (k - 1) as nat)->Ok_0;
        if o.open.len() > 0 {
            assert(o.open[o.open.len() - 1].kind == FrameKind::Own);
        }
        assert(role_of(s, v[k - 1]) == role_of(s, p));
        assert(s.take(p.from) + s.subrange(p.from, p.to) =~= s.take(p.to));
    }
}

proof fn lemma_no_switch_open(open: Seq<Frame>)
    requires
        forall|i: int| 0 <= i < open.len() ==> (#[trigger] open[i]).kind == FrameKind::Own,
    ensures
        open_switch(open) is None,
    decreases open.len(),
{
    if open.len() > 0 {
        assert(open[open.len() - 1].kind == FrameKind::Own);
        assert forall|i: int| 0 <= i < open.drop_last().len() implies (
        #[trigger] open.drop_last()[i]).kind == FrameKind::Own by {
            assert(open[i].kind == FrameKind::Own);
        }
        lemma_no_switch_open(open.drop_last());
    }
}

/// A source without switches stays as it is.
pub proof fn law_other_sources_stay(s: Seq<char>)
    requires
        without_switches(s),
    ensures
        desugared(s) == Ok::<Seq<char>, FaultAt>(s),
{
    let v = pieces(s, 0);
    lemma_steps_stay(s, v.len());
    law_pieces_are_joined(s);
    let o = steps(s, v, v.len())->Ok_0;
    lemma_no_switch_open(o.open);
    if v.len() == 0 {
        assert(s.take(0) =~= s);
    } else {
        assert(v[v.len() - 1] == v.last());
        assert(s.take(s.len() as int) =~= s);
    }
}

} // verus!
