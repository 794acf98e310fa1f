//! The templating layer: a program of parsed templates, and what its errors mean.
//!
//! Templates are parsed when a program is compiled, so that syntax errors come up
//! then. Filters and functions are the caller's, who registers them on the
//! environment beforehand and runs a compiled program on it: what they do, nobody
//! here can tell. What is made of the engine's answer stands here again.

use vstd::prelude::*;
use vstd::string::*;
use vstd::utf8::encode_utf8;

use crate::error::{CompileError, ErrorCode, RenderError, Span};
use crate::markup::{
    body_nodes, can_parse, document_of, forest_known, parsable, parse_html, resolved,
};
use crate::node::{nodes_view, FlowNode};
use crate::scan::{chars_of, contains, occurs, owned_texts};
use crate::switch::{desugar, desugared, fault_span, fault_text};
use crate::tags::{is_tame, tame};

verus! {

/// The name under which a program's own template stands.
pub const MAIN: &'static str = "__main__";

// --------------------------------------------------------------------------
// what failed
// --------------------------------------------------------------------------

/// What the template engine says went wrong, as far as it makes a difference.
#[derive(Debug, Clone, Copy, PartialEq, Eq, Structural)]
pub enum FailureKind {
    Syntax,
    Undefined,
    UnknownFilter,
    UnknownFunction,
    UnknownMethod,
    UnknownTest,
    Other,
}

/// The code of a failure without one of its own: includes nested too deep, or any
/// other render failure.
pub fn recursion_or_render(msg: &str) -> (r: ErrorCode)
    ensures
        r == if occurs(msg@, "recursion"@) {
            ErrorCode::IncludeDepthExceeded
        } else {
            ErrorCode::Render
        },
{
    if contains(msg, "recursion") {
        ErrorCode::IncludeDepthExceeded
    } else {
        ErrorCode::Render
    }
}

/// The code of a failure of that kind with that message.
pub open spec fn code_for(kind: FailureKind, msg: Seq<char>) -> ErrorCode {
    match kind {
        FailureKind::Syntax => ErrorCode::TemplateSyntax,
        FailureKind::Undefined => ErrorCode::UndefinedValue,
        FailureKind::UnknownFilter => ErrorCode::UnknownFilter,
        FailureKind::UnknownFunction => ErrorCode::UnknownFilter,
        FailureKind::UnknownMethod => ErrorCode::UnknownFilter,
        FailureKind::UnknownTest => ErrorCode::UnknownFilter,
        FailureKind::Other => if occurs(msg, "recursion"@) {
            ErrorCode::IncludeDepthExceeded
        } else {
            ErrorCode::Render
        },
    }
}

pub fn code_of(kind: FailureKind, msg: &str) -> (r: ErrorCode)
    ensures
        r == code_for(kind, msg@),
{
    match kind {
        FailureKind::Syntax => ErrorCode::TemplateSyntax,
        FailureKind::Undefined => ErrorCode::UndefinedValue,
        FailureKind::UnknownFilter => ErrorCode::UnknownFilter,
        FailureKind::UnknownFunction => ErrorCode::UnknownFilter,
        FailureKind::UnknownMethod => ErrorCode::UnknownFilter,
        FailureKind::UnknownTest => ErrorCode::UnknownFilter,
        FailureKind::Other => recursion_or_render(msg),
    }
}

/// The place of a failure: line zero where none is known.
pub open spec fn span_for(line: Option<usize>, range: Option<(usize, usize)>) -> Span {
    Span {
        line: match line {
            Some(n) => ((n as int) % 0x1_0000_0000) as u32,
            None => 0,
        },
        range,
    }
}

pub fn span_of(line: Option<usize>, range: Option<(usize, usize)>) -> (r: Span)
    ensures
        r == span_for(line, range),
{
    let n: u32 = match line {
        Some(n) => (n as u64 % 0x1_0000_0000u64) as u32,
        None => 0,
    };
    Span::new(n, range)
}

/// What the template engine says of a failure: its kind, its message, its place
/// where that is known, and the messages of the failures behind it, the nearest
/// first.
#[derive(Debug)]
pub struct Failure {
    pub kind: FailureKind,
    pub message: String,
    pub line: Option<usize>,
    pub range: Option<(usize, usize)>,
    pub causes: Vec<String>,
}

/// The mathematical reading of a [`Failure`].
pub struct FailureV {
    pub kind: FailureKind,
    pub message: Seq<char>,
    pub line: Option<usize>,
    pub range: Option<(usize, usize)>,
    pub causes: Seq<Seq<char>>,
}

impl View for Failure {
    type V = FailureV;

    open spec fn view(&self) -> FailureV {
        FailureV {
            kind: self.kind,
            message: self.message@,
            line: self.line,
            range: self.range,
            causes: owned_texts(self.causes@),
        }
    }
}

/// Whether one of the messages speaks of recursion.
pub open spec fn any_recursion(v: Seq<Seq<char>>) -> bool {
    exists|i: int| 0 <= i < v.len() && #[trigger] occurs(v[i], "recursion"@)
}

/// The code of a failure. An include that fails hides what failed in it, so that
/// includes nested too deep show only in what stands behind the failure.
pub open spec fn failure_code(f: FailureV) -> ErrorCode {
    if f.kind == FailureKind::Other && any_recursion(f.causes) {
        ErrorCode::IncludeDepthExceeded
    } else {
        code_for(f.kind, f.message)
    }
}

fn speaks_of_recursion(v: &Vec<String>) -> (r: bool)
    ensures
        r == any_recursion(owned_texts(v@)),
{
    let ghost t = owned_texts(v@);
    let mut i: usize = 0;
    while i < v.len()
        invariant
            i <= v@.len(),
            t == owned_texts(v@),
            forall|j: int| 0 <= j < i ==> !#[trigger] occurs(t[j], "recursion"@),
        decreases v@.len() - i,
    {
        proof {
            assert(t[i as int] == v@[i as int]@);
        }
        if contains(v[i].as_str(), "recursion") {
            return true;
        }
        i += 1;
    }
    false
}

fn code_of_failure(f: &Failure) -> (r: ErrorCode)
    ensures
        r == failure_code(f@),
{
    match f.kind {
        FailureKind::Other => if speaks_of_recursion(&f.causes) {
            ErrorCode::IncludeDepthExceeded
        } else {
            recursion_or_render(f.message.as_str())
        },
        _ => code_of(f.kind, f.message.as_str()),
    }
}

/// A failure of the template engine as a compile error.
pub fn map_compile_err(f: Failure) -> (r: CompileError)
    ensures
        r.code == failure_code(f@),
        r.message == f.message,
        r.span == span_for(f.line, f.range),
{
    CompileError {
        code: code_of_failure(&f),
        message: f.message,
        span: span_of(f.line, f.range),
    }
}

/// A failure of the template engine as a render error.
pub fn map_render_err(f: Failure) -> (r: RenderError)
    ensures
        r.code == failure_code(f@),
        r.message == f.message,
        r.span == span_for(f.line, f.range),
{
    RenderError {
        code: code_of_failure(&f),
        message: f.message,
        span: span_of(f.line, f.range),
    }
}

// --------------------------------------------------------------------------
// options
// --------------------------------------------------------------------------

/// What becomes of a value that a template names and the data lacks.
#[derive(Debug, Clone, Copy, PartialEq, Eq, Structural)]
pub enum MissingPolicy {
    /// The render fails.
    Strict,
    /// It prints as nothing.
    Empty,
}

/// How a template is compiled.
#[derive(Debug)]
pub struct CompileOptions {
    /// The sources of templates that can be included, by name.
    pub partials: Vec<(String, String)>,
    pub missing_policy: MissingPolicy,
    /// How deep includes and macros may nest.
    pub include_max_depth: u32,
}

impl Default for CompileOptions {
    fn default() -> (r: CompileOptions)
        ensures
            r.partials@ == Seq::<(String, String)>::empty(),
            r.missing_policy == MissingPolicy::Strict,
            r.include_max_depth == 64,
    {
        CompileOptions {
            partials: Vec::new(),
            missing_policy: MissingPolicy::Strict,
            include_max_depth: 64,
        }
    }
}

/// How far the character at `k` stands from the start of its line.
pub open spec fn column(s: Seq<char>, k: int) -> int
    decreases k,
{
    if k <= 0 || k > s.len() || s[k - 1] == '\n' {
        0
    } else {
        column(s, k - 1) + 1
    }
}

/// The first column that the template engine cannot count to.
pub const COLUMN_LIMIT: usize = 65_535;

/// Whether a template's places can be told in the engine's numbers: columns in
/// 16 bits, bytes in 32.
pub open spec fn placeable(source: Seq<char>) -> bool {
    &&& encode_utf8(source).len() < u32::MAX
    &&& forall|k: int| 0 <= k <= source.len() ==> #[trigger] column(source, k) < COLUMN_LIMIT
}

/// Whether a source, its switches written out, is one for the engine: its places can
/// be told, and it repeats no list that the engine would work out at once.
pub open spec fn compilable(source: Seq<char>) -> bool {
    desugared(source) matches Ok(t) ==> placeable(t) && tame(t)
}

/// Whether a template and its partials are.
pub open spec fn all_compilable(template: Seq<char>, partials: Seq<(String, String)>) -> bool {
    &&& compilable(template)
    &&& forall|i: int| 0 <= i < partials.len() ==> compilable(#[trigger] partials[i].1@)
}

pub fn can_place(source: &str) -> (r: bool)
    ensures
        r == placeable(source@),
{
    if source.as_bytes().len() >= u32::MAX as usize {
        return false;
    }
    let v = chars_of(source);
    let mut col: usize = 0;
    let mut i: usize = 0;
    while i < v.len()
        invariant
            v@ == source@,
            i <= v@.len(),
            col < COLUMN_LIMIT,
            col == column(source@, i as int),
            forall|k: int| 0 <= k <= i ==> #[trigger] column(source@, k) < COLUMN_LIMIT,
        decreases v@.len() - i,
    {
        if v[i] == '\n' {
            col = 0;
        } else {
            col += 1;
        }
        i += 1;
        proof {
            assert(col == column(source@, i as int));
        }
        if col >= COLUMN_LIMIT {
            return false;
        }
    }
    true
}

fn can_compile_source(source: &str) -> (r: bool)
    ensures
        r == compilable(source@),
{
    match desugar(source) {
        Ok(t) => can_place(t.as_str()) && is_tame(&chars_of(t.as_str())),
        Err(_) => true,
    }
}

/// Whether a template can be compiled with those options.
pub fn can_compile(template: &str, opts: &CompileOptions) -> (r: bool)
    ensures
        r == all_compilable(template@, opts.partials@),
{
    if !can_compile_source(template) {
        return false;
    }
    let mut i: usize = 0;
    while i < opts.partials.len()
        invariant
            i <= opts.partials@.len(),
            forall|j: int| 0 <= j < i ==> compilable(#[trigger] opts.partials@[j].1@),
        decreases opts.partials@.len() - i,
    {
        if !can_compile_source(opts.partials[i].1.as_str()) {
            return false;
        }
        i += 1;
    }
    true
}

// --------------------------------------------------------------------------
// the template engine
// --------------------------------------------------------------------------

/// An error of the template engine.
#[verifier::external_type_specification]
#[verifier::external_body]
pub struct ExTemplateError(minijinja::Error);

/// An environment: the templates, filters and settings of the engine.
#[verifier::external_type_specification]
#[verifier::external_body]
pub struct ExEnvironment<'source>(minijinja::Environment<'source>);

/// The templates of an environment: their sources by name.
pub uninterp spec fn templates_of(env: minijinja::Environment<'static>) -> Map<Seq<char>, Seq<char>>;

/// The settings of the engine that a program fixes.
pub struct SettingsV {
    /// `None` where missing values are treated in neither of the two ways.
    pub missing: Option<MissingPolicy>,
    pub trim_blocks: bool,
    pub lstrip_blocks: bool,
    pub keep_trailing_newline: bool,
    pub recursion_limit: nat,
    /// Whether every template that is added prints its values escaped as HTML.
    pub html_escape: bool,
}

/// The settings of an environment.
pub uninterp spec fn settings_of(env: minijinja::Environment<'static>) -> SettingsV;

/// What is wrong with a template source under that name; `None` where it parses.
/// Places in a source go by which whitespace is kept.
pub uninterp spec fn syntax_failure(
    name: Seq<char>,
    source: Seq<char>,
    trim_blocks: bool,
    lstrip_blocks: bool,
    keep_trailing_newline: bool,
) -> Option<FailureV>;

/// Copies what a `minijinja::Error` says, by its methods `kind`, `line` and
/// `range`, its `Display`, and the `Display` of the errors behind it, by `source`.
/// An error hides what it holds, so nothing is claimed of the result.
#[verifier::external_body]
fn failure_of(e: minijinja::Error) -> (r: Failure) {
    let kind = match e.kind() {
        minijinja::ErrorKind::SyntaxError => FailureKind::Syntax,
        minijinja::ErrorKind::UndefinedError => FailureKind::Undefined,
        minijinja::ErrorKind::UnknownFilter => FailureKind::UnknownFilter,
        minijinja::ErrorKind::UnknownFunction => FailureKind::UnknownFunction,
        minijinja::ErrorKind::UnknownMethod => FailureKind::UnknownMethod,
        minijinja::ErrorKind::UnknownTest => FailureKind::UnknownTest,
        _ => FailureKind::Other,
    };
    let range = e.range().map(|x| (x.start, x.end));
    let behind = std::iter::successors(std::error::Error::source(&e), |c| c.source());
    let causes = behind.map(|c| c.to_string()).collect();
    Failure { kind, message: e.to_string(), line: e.line(), range, causes }
}

/// `minijinja::Environment::set_undefined_behavior`: `Strict`, or `Lenient` to print
/// a missing value as nothing. The rest of the environment stays as it is.
#[verifier::external_body]
fn set_missing_policy(env: &mut minijinja::Environment<'static>, policy: MissingPolicy)
    ensures
        templates_of(*final(env)) == templates_of(*old(env)),
        settings_of(*final(env)) == (SettingsV {
            missing: Some(policy),
            ..settings_of(*old(env))
        }),
{
    env.set_undefined_behavior(match policy {
        MissingPolicy::Strict => minijinja::UndefinedBehavior::Strict,
        MissingPolicy::Empty => minijinja::UndefinedBehavior::Lenient,
    })
}

/// `minijinja::Environment::set_trim_blocks`: the first newline after a block goes
/// with it. The rest of the environment stays as it is.
#[verifier::external_body]
fn set_trim_blocks(env: &mut minijinja::Environment<'static>, yes: bool)
    ensures
        templates_of(*final(env)) == templates_of(*old(env)),
        settings_of(*final(env)) == (SettingsV { trim_blocks: yes, ..settings_of(*old(env)) }),
{
    env.set_trim_blocks(yes)
}

/// `minijinja::Environment::set_lstrip_blocks`: blanks before a block on its line go
/// with it. The rest of the environment stays as it is.
#[verifier::external_body]
fn set_lstrip_blocks(env: &mut minijinja::Environment<'static>, yes: bool)
    ensures
        templates_of(*final(env)) == templates_of(*old(env)),
        settings_of(*final(env)) == (SettingsV { lstrip_blocks: yes, ..settings_of(*old(env)) }),
{
    env.set_lstrip_blocks(yes)
}

/// `minijinja::Environment::set_keep_trailing_newline`: whether a newline at the end
/// of a template is kept. The rest of the environment stays as it is.
#[verifier::external_body]
fn set_keep_trailing_newline(env: &mut minijinja::Environment<'static>, yes: bool)
    ensures
        templates_of(*final(env)) == templates_of(*old(env)),
        settings_of(*final(env)) == (SettingsV {
            keep_trailing_newline: yes,
            ..settings_of(*old(env))
        }),
{
    env.set_keep_trailing_newline(yes)
}

/// The deepest nesting that the template engine goes along with.
pub const DEEPEST: u32 = 500;

/// The nesting that the engine allows where `level` is asked for.
pub open spec fn capped_depth(level: nat) -> nat {
    if level <= DEEPEST {
        level
    } else {
        DEEPEST as nat
    }
}

/// `minijinja::Environment::set_recursion_limit`: nesting goes as deep as asked, but
/// no deeper than the engine's own cap. The rest of the environment stays as it is.
#[verifier::external_body]
fn set_recursion_limit(env: &mut minijinja::Environment<'static>, level: usize)
    ensures
        templates_of(*final(env)) == templates_of(*old(env)),
        settings_of(*final(env)) == (SettingsV {
            recursion_limit: capped_depth(level as nat),
            ..settings_of(*old(env))
        }),
{
    env.set_recursion_limit(level)
}

/// `minijinja::Environment::set_auto_escape_callback`, to escape as HTML every
/// template that is added from then on. The rest of the environment stays as it is.
#[verifier::external_body]
fn set_html_escape(env: &mut minijinja::Environment<'static>)
    ensures
        templates_of(*final(env)) == templates_of(*old(env)),
        settings_of(*final(env)) == (SettingsV { html_escape: true, ..settings_of(*old(env)) }),
{
    env.set_auto_escape_callback(|_name| minijinja::AutoEscape::Html)
}

/// What is wrong with a source under the whitespace settings of an environment.
pub open spec fn failure_under(s: SettingsV, name: Seq<char>, source: Seq<char>) -> Option<
    FailureV,
> {
    syntax_failure(name, source, s.trim_blocks, s.lstrip_blocks, s.keep_trailing_newline)
}

/// `minijinja::Environment::add_template_owned`: parses the source, and keeps it
/// under its name where it has no syntax error. Whether it parses, and what is
/// said of it if not, goes by the name, the source and which whitespace is kept.
/// The callback that chooses the escape is called, so it has to be the one for HTML.
/// An error past the last column that can be counted overflows, so such lines are
/// left out. Constant expressions are worked out, and a list may be repeated more
/// often than can be counted or waited for, so sources that repeat lists are left
/// out. What is left of the templates after an error is not claimed.
#[verifier::external_body]
fn add_template(env: &mut minijinja::Environment<'static>, name: String, source: String) -> (r: Result<
    (),
    Failure,
>)
    requires
        settings_of(*old(env)).html_escape,
        placeable(source@),
        tame(source@),
    ensures
        settings_of(*final(env)) == settings_of(*old(env)),
        ({
            let s = settings_of(*old(env));
            let failure = syntax_failure(
                name@,
                source@,
                s.trim_blocks,
                s.lstrip_blocks,
                s.keep_trailing_newline,
            );
            match r {
                Ok(_) => failure is None && templates_of(*final(env)) == templates_of(
                    *old(env),
                ).insert(name@, source@),
                Err(f) => failure == Some(f@),
            }
        }),
{
    env.add_template_owned(name, source).map_err(failure_of)
}

// --------------------------------------------------------------------------
// programs
// --------------------------------------------------------------------------

/// A compiled template with its partials.
pub struct Program {
    env: minijinja::Environment<'static>,
}

/// The mathematical reading of a [`Program`]: the sources of its templates by name,
/// and the settings that they are rendered with.
pub struct ProgramV {
    pub templates: Map<Seq<char>, Seq<char>>,
    pub settings: SettingsV,
}

impl View for Program {
    type V = ProgramV;

    closed spec fn view(&self) -> ProgramV {
        ProgramV { templates: templates_of(self.env), settings: settings_of(self.env) }
    }
}

/// The settings of a program with that policy and depth.
pub open spec fn settings_for(policy: MissingPolicy, depth: nat) -> SettingsV {
    SettingsV {
        missing: Some(policy),
        trim_blocks: true,
        lstrip_blocks: true,
        keep_trailing_newline: false,
        recursion_limit: capped_depth(depth),
        html_escape: true,
    }
}

fn configure(env: &mut minijinja::Environment<'static>, opts: &CompileOptions)
    ensures
        templates_of(*final(env)) == templates_of(*old(env)),
        settings_of(*final(env)) == settings_for(
            opts.missing_policy,
            opts.include_max_depth as nat,
        ),
{
    set_missing_policy(env, opts.missing_policy);
    set_trim_blocks(env, true);
    set_lstrip_blocks(env, true);
    set_keep_trailing_newline(env, false);
    set_recursion_limit(env, opts.include_max_depth as usize);
    set_html_escape(env);
}

/// The mathematical reading of a [`CompileError`].
pub struct ErrorV {
    pub code: ErrorCode,
    pub message: Seq<char>,
    pub span: Span,
}

impl View for CompileError {
    type V = ErrorV;

    open spec fn view(&self) -> ErrorV {
        ErrorV { code: self.code, message: self.message@, span: self.span }
    }
}

/// What is wrong with a source: with its switches, or, these written out, with its
/// syntax.
pub open spec fn source_error(s: SettingsV, name: Seq<char>, source: Seq<char>) -> Option<ErrorV> {
    match desugared(source) {
        Err(f) => Some(
            ErrorV {
                code: ErrorCode::TemplateSyntax,
                message: fault_text(f.fault),
                span: fault_span(source, f),
            },
        ),
        Ok(t) => match failure_under(s, name, t) {
            Some(f) => Some(
                ErrorV {
                    code: failure_code(f),
                    message: f.message,
                    span: span_for(f.line, f.range),
                },
            ),
            None => None,
        },
    }
}

/// A source as it is kept, its switches written out.
pub open spec fn kept_source(source: Seq<char>) -> Seq<char> {
    match desugared(source) {
        Ok(t) => t,
        Err(_) => source,
    }
}

/// The templates with the first `k` partials added; a later one of a name wins.
pub open spec fn with_partials(
    m: Map<Seq<char>, Seq<char>>,
    v: Seq<(String, String)>,
    k: nat,
) -> Map<Seq<char>, Seq<char>>
    decreases k,
{
    if k == 0 || k > v.len() {
        m
    } else {
        with_partials(m, v, (k - 1) as nat).insert(v[k - 1].0@, kept_source(v[k - 1].1@))
    }
}

/// What is wrong with the first of the partials that does not parse.
pub open spec fn partials_error(s: SettingsV, v: Seq<(String, String)>) -> Option<ErrorV>
    decreases v.len(),
{
    if v.len() == 0 {
        None
    } else {
        match source_error(s, v[0].0@, v[0].1@) {
            Some(e) => Some(e),
            None => partials_error(s, v.skip(1)),
        }
    }
}

/// What is wrong with a template and its partials: partials come first.
pub open spec fn program_error(
    s: SettingsV,
    template: Seq<char>,
    partials: Seq<(String, String)>,
) -> Option<ErrorV> {
    match partials_error(s, partials) {
        Some(e) => Some(e),
        None => source_error(s, MAIN@, template),
    }
}

/// Write the switches of a source out and add it to the templates.
fn add_source(env: &mut minijinja::Environment<'static>, name: String, source: &str) -> (r: Result<
    (),
    CompileError,
>)
    requires
        settings_of(*old(env)).html_escape,
        compilable(source@),
    ensures
        settings_of(*final(env)) == settings_of(*old(env)),
        match r {
            Ok(_) => source_error(settings_of(*old(env)), name@, source@) is None && templates_of(
                *final(env),
            ) == templates_of(*old(env)).insert(name@, kept_source(source@)),
            Err(e) => source_error(settings_of(*old(env)), name@, source@) == Some(e@),
        },
{
    let text = match desugar(source) {
        Ok(t) => t,
        Err(e) => return Err(e),
    };
    match add_template(env, name, text) {
        Ok(_) => Ok(()),
        Err(f) => Err(map_compile_err(f)),
    }
}

fn add_partials(env: &mut minijinja::Environment<'static>, partials: &Vec<(String, String)>) -> (r: Result<
    (),
    CompileError,
>)
    requires
        settings_of(*old(env)).html_escape,
        forall|i: int| 0 <= i < partials@.len() ==> compilable(#[trigger] partials@[i].1@),
    ensures
        settings_of(*final(env)) == settings_of(*old(env)),
        match r {
            Ok(_) => partials_error(settings_of(*old(env)), partials@) is None && templates_of(
                *final(env),
            ) == with_partials(templates_of(*old(env)), partials@, partials@.len()),
            Err(e) => partials_error(settings_of(*old(env)), partials@) == Some(e@),
        },
{
    let ghost start = templates_of(*env);
    let ghost s = settings_of(*env);
    let mut i: usize = 0;
    proof {
        assert(partials@.skip(0) =~= partials@);
    }
    while i < partials.len()
        invariant
            i <= partials@.len(),
            start == templates_of(*old(env)),
            s == settings_of(*old(env)),
            s == settings_of(*env),
            s.html_escape,
            forall|j: int| 0 <= j < partials@.len() ==> compilable(#[trigger] partials@[j].1@),
            partials_error(s, partials@) == partials_error(s, partials@.skip(i as int)),
            templates_of(*env) == with_partials(start, partials@, i as nat),
        decreases partials@.len() - i,
    {
        proof {
            assert(partials@.skip(i as int)[0] == partials@[i as int]);
            assert(partials@.skip(i as int).skip(1) =~= partials@.skip(i as int + 1));
        }
        let name: String = partials[i].0.clone();
        match add_source(env, name, partials[i].1.as_str()) {
            Ok(_) => {},
            Err(e) => {
                return Err(e);
            },
        }
        i += 1;
    }
    Ok(())
}

/// Compile a template and its partials on an environment that carries the caller's
/// filters. Switches are written out, missing values are treated as the options say,
/// nested includes go at most so deep, blocks take their whitespace with them, and
/// output is escaped as HTML. Fails where a source has a syntax error.
pub fn compile(
    env: minijinja::Environment<'static>,
    template: &str,
    opts: &CompileOptions,
) -> (r: Result<Program, CompileError>)
    requires
        all_compilable(template@, opts.partials@),
    ensures
        ({
            let s = settings_for(opts.missing_policy, opts.include_max_depth as nat);
            match r {
                Ok(p) => {
                    &&& program_error(s, template@, opts.partials@) is None
                    &&& p@.settings == s
                    &&& p@.templates == with_partials(
                        templates_of(env),
                        opts.partials@,
                        opts.partials@.len(),
                    ).insert(MAIN@, kept_source(template@))
                },
                Err(e) => program_error(s, template@, opts.partials@) == Some(e@),
            }
        }),
{
    let mut env = env;
    configure(&mut env, opts);
    match add_partials(&mut env, &opts.partials) {
        Ok(_) => {},
        Err(e) => return Err(e),
    }
    match add_source(&mut env, MAIN.to_string(), template) {
        Ok(_) => Ok(Program { env }),
        Err(e) => Err(e),
    }
}

/// The message on markup that is longer than can be parsed.
pub const TOO_LONG: &'static str = "markup too long";

impl Program {
    /// The main template is there.
    #[verifier::type_invariant]
    spec fn has_main(self) -> bool {
        templates_of(self.env).contains_key(MAIN@)
    }

    /// The environment to run the main template on, which is there under [`MAIN`].
    pub fn engine(&self) -> (r: &minijinja::Environment<'static>)
        ensures
            templates_of(*r) == self@.templates,
            settings_of(*r) == self@.settings,
            self@.templates.contains_key(MAIN@),
    {
        proof {
            use_type_invariant(self);
        }
        &self.env
    }

    /// What a render gives of the engine's answer: its markup, or its failure.
    pub fn render_markup(answer: Result<String, Failure>) -> (r: Result<String, RenderError>)
        ensures
            match answer {
                Ok(s) => r == Ok::<String, RenderError>(s),
                Err(f) => r matches Err(e) && e.code == failure_code(f@) && e.message == f.message
                    && e.span == span_for(f.line, f.range),
            },
    {
        match answer {
            Ok(s) => Ok(s),
            Err(f) => Err(map_render_err(f)),
        }
    }

    /// The nodes of the engine's answer: those that its markup parses to, or its
    /// failure.
    pub fn render_nodes(answer: Result<String, Failure>) -> (r: Result<Vec<FlowNode>, RenderError>)
        ensures
            match answer {
                Ok(s) => {
                    let body = body_nodes(document_of(s@));
                    match r {
                        Ok(nodes) => parsable(s@) && forest_known(body) && nodes_view(nodes@)
                            == resolved(body, body.len()),
                        Err(e) => if parsable(s@) {
                            !forest_known(body) && e.code == ErrorCode::UnknownElement
                        } else {
                            e.code == ErrorCode::Render && e.message@ == TOO_LONG@ && e.span == (
                            Span { line: 0, range: None })
                        },
                    }
                },
                Err(f) => r matches Err(e) && e.code == failure_code(f@) && e.message == f.message
                    && e.span == span_for(f.line, f.range),
            },
    {
        match Program::render_markup(answer) {
            Ok(s) => if can_parse(s.as_str()) {
                parse_html(s.as_str())
            } else {
                Err(
                    RenderError {
                        code: ErrorCode::Render,
                        message: TOO_LONG.to_string(),
                        span: Span { line: 0, range: None },
                    },
                )
            },
            Err(e) => Err(e),
        }
    }
}

} // verus!
