//! Errors with their place, and the lints a render collects.

use vstd::prelude::*;
use vstd::string::*;

verus! {

/// What went wrong.
#[derive(Debug, Clone, Copy, PartialEq, Eq, Structural)]
pub enum ErrorCode {
    TemplateSyntax,
    UndefinedValue,
    UnknownFilter,
    IncludeDepthExceeded,
    UnknownElement,
    Render,
}

/// A place in a template: its line, and the byte range where that is known.
#[derive(Debug, Clone, Copy, PartialEq, Eq)]
pub struct Span {
    pub line: u32,
    pub range: Option<(usize, usize)>,
}

impl Default for Span {
    fn default() -> (r: Span)
        ensures
            r == (Span { line: 0, range: None }),
    {
        Span { line: 0, range: None }
    }
}

impl Span {
    pub fn new(line: u32, range: Option<(usize, usize)>) -> (r: Span)
        ensures
            r == (Span { line, range }),
    {
        Span { line, range }
    }
}

/// A template that does not compile.
#[derive(Debug)]
pub struct CompileError {
    pub code: ErrorCode,
    pub message: String,
    pub span: Span,
}

/// A render that failed.
#[derive(Debug)]
pub struct RenderError {
    pub code: ErrorCode,
    pub message: String,
    pub span: Span,
}

/// A condition worth telling that does not stop a render.
#[derive(Debug, Clone, Copy, PartialEq, Eq, Structural)]
pub enum LintCode {
    RegionOverflow,
    PageOverflow,
    MissingGlyph,
}

/// One collected lint.
#[derive(Debug)]
pub struct Lint {
    pub code: LintCode,
    pub message: String,
    pub span: Span,
}

/// The mathematical reading of a [`Lint`].
pub struct LintV {
    pub code: LintCode,
    pub message: Seq<char>,
    pub span: Span,
}

impl View for Lint {
    type V = LintV;

    open spec fn view(&self) -> LintV {
        LintV { code: self.code, message: self.message@, span: self.span }
    }
}

/// The lints of one render, in order.
#[derive(Debug)]
pub struct Diagnostics {
    pub lints: Vec<Lint>,
}

impl View for Diagnostics {
    type V = Seq<LintV>;

    open spec fn view(&self) -> Seq<LintV> {
        self.lints@.map_values(|l: Lint| l@)
    }
}

impl Default for Diagnostics {
    fn default() -> (r: Diagnostics)
        ensures
            r@ == Seq::<LintV>::empty(),
    {
        let r = Diagnostics { lints: Vec::new() };
        proof {
            assert(r@ =~= Seq::empty());
        }
        r
    }
}

impl Diagnostics {
    /// Add a lint at the end.
    pub fn push(&mut self, code: LintCode, message: &str, span: Span)
        ensures
            final(self)@ == old(self)@.push(LintV { code, message: message@, span }),
    {
        let lint = Lint { code, message: message.to_string(), span };
        proof {
            assert(self.lints@.push(lint).map_values(|l: Lint| l@) =~= self@.push(lint@));
        }
        self.lints.push(lint);
    }
}

} // verus!
