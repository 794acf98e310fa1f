use turbo_html2pdf::error::{ErrorCode, RenderError};
use turbo_html2pdf::node::{FlowNode, Tag};
use turbo_html2pdf::switch::desugar;
use turbo_html2pdf::template::{
    can_compile, can_place, code_of, compile, map_compile_err, map_render_err,
    recursion_or_render, span_of, CompileOptions, Failure, FailureKind, MissingPolicy, Program,
    MAIN,
};

fn env() -> minijinja::Environment<'static> {
    minijinja::Environment::new()
}

fn with_partials(partials: &[(&str, &str)]) -> CompileOptions {
    CompileOptions {
        partials: partials.iter().map(|(k, v)| (k.to_string(), v.to_string())).collect(),
        ..CompileOptions::default()
    }
}

fn program(template: &str, opts: &CompileOptions) -> Program {
    assert!(can_compile(template, opts));
    compile(env(), template, opts).ok().expect("program")
}

fn plain(template: &str) -> Program {
    program(template, &CompileOptions::default())
}

fn data(pairs: &[(&str, &str)]) -> minijinja::Value {
    pairs.iter().map(|(k, v)| (k.to_string(), v.to_string())).collect::<minijinja::Value>()
}

/// What the engine answers to a program run on data.
fn answer(p: &Program, data: minijinja::Value) -> Result<String, Failure> {
    p.engine().get_template(MAIN).and_then(|t| t.render(data)).map_err(|e| {
        let behind = std::iter::successors(std::error::Error::source(&e), |c| c.source());
        Failure {
            kind: match e.kind() {
                minijinja::ErrorKind::UndefinedError => FailureKind::Undefined,
                minijinja::ErrorKind::UnknownFilter => FailureKind::UnknownFilter,
                _ => FailureKind::Other,
            },
            message: e.to_string(),
            line: e.line(),
            range: e.range().map(|r| (r.start, r.end)),
            causes: behind.map(|c| c.to_string()).collect(),
        }
    })
}

fn markup(p: &Program, data: minijinja::Value) -> Result<String, RenderError> {
    Program::render_markup(answer(p, data))
}

fn nodes(p: &Program, data: minijinja::Value) -> Result<Vec<FlowNode>, RenderError> {
    Program::render_nodes(answer(p, data))
}

fn failure(kind: FailureKind, message: &str, causes: &[&str]) -> Failure {
    Failure {
        kind,
        message: message.to_string(),
        line: Some(3),
        range: None,
        causes: causes.iter().map(|c| c.to_string()).collect(),
    }
}

#[test]
fn templates_render_with_their_partials() {
    let opts = with_partials(&[("p.html", "<b>{{ x }}</b>")]);
    let p = program("<p>{% include 'p.html' %}</p>", &opts);
    assert_eq!(markup(&p, data(&[("x", "hi")])).ok().unwrap(), "<p><b>hi</b></p>");
}

#[test]
fn output_is_escaped_as_html() {
    let p = plain("{{ x }}");
    assert_eq!(markup(&p, data(&[("x", "<a>")])).ok().unwrap(), "&lt;a&gt;");
}

#[test]
fn blocks_take_their_line_with_them() {
    let p = plain("  {% if true %}\nx\n  {% endif %}\n");
    assert_eq!(markup(&p, data(&[])).ok().unwrap(), "x\n");
}

#[test]
fn a_newline_at_the_end_goes_whatever_the_environment_says() {
    let mut e = env();
    e.set_keep_trailing_newline(true);
    let p = compile(e, "x\n", &CompileOptions::default()).ok().expect("program");
    assert_eq!(markup(&p, data(&[])).ok().unwrap(), "x");
}

#[test]
fn syntax_errors_come_up_when_compiling() {
    let opts = CompileOptions::default();
    let e = compile(env(), "\n{% if %}", &opts).err().expect("error");
    assert_eq!(e.code, ErrorCode::TemplateSyntax);
    assert_eq!(e.span.line, 2);
    assert!(!e.message.is_empty());
    assert!(compile(env(), "x", &with_partials(&[("p", "{{")])).is_err());
}

#[test]
fn unknown_filters_are_named_so() {
    let p = plain("{{ 1|nope }}");
    assert_eq!(markup(&p, data(&[])).err().unwrap().code, ErrorCode::UnknownFilter);
}

#[test]
fn missing_values_are_errors_unless_they_print_as_nothing() {
    let p = plain("{{ x }}");
    let e = markup(&p, data(&[])).err().unwrap();
    assert_eq!((e.code, e.span.line), (ErrorCode::UndefinedValue, 1));
    let opts = CompileOptions {
        missing_policy: MissingPolicy::Empty,
        ..CompileOptions::default()
    };
    let p = program("<{{ x }}>", &opts);
    assert_eq!(markup(&p, data(&[])).ok().unwrap(), "<>");
}

#[test]
fn templates_are_strict_and_nest_sixty_four_deep_by_default() {
    let opts = CompileOptions::default();
    assert_eq!(opts.missing_policy, MissingPolicy::Strict);
    assert_eq!(opts.include_max_depth, 64);
    assert!(opts.partials.is_empty());
}

#[test]
fn endless_includes_run_into_the_depth() {
    let p = program("{% include 'p' %}", &with_partials(&[("p", "{% include 'p' %}")]));
    let e = markup(&p, data(&[])).err().expect("error");
    assert_eq!(e.code, ErrorCode::IncludeDepthExceeded);
    assert!(!e.message.is_empty());
}

#[test]
fn the_depth_is_the_one_asked_for() {
    let partials = [("a", "{% include 'b' %}"), ("b", "{% include 'c' %}"), ("c", "x")];
    let p = program("{% include 'a' %}", &with_partials(&partials));
    assert_eq!(markup(&p, data(&[])).ok().unwrap(), "x");
    let opts = CompileOptions { include_max_depth: 20, ..with_partials(&partials) };
    let p = program("{% include 'a' %}", &opts);
    let e = markup(&p, data(&[])).err().expect("error");
    assert_eq!(e.code, ErrorCode::IncludeDepthExceeded);
}

#[test]
fn rendered_markup_becomes_nodes() {
    let p = plain("<body><p>{{ x }}</p></body>");
    let found = nodes(&p, data(&[("x", "hi")])).ok().expect("nodes");
    match &found[0] {
        FlowNode::Element(e) => assert!(matches!(&e.tag, Tag::Html(n) if n == "p")),
        FlowNode::Text(_) => panic!("an element"),
    }
    let bad = plain("<body><t:wat></t:wat></body>");
    assert_eq!(nodes(&bad, data(&[])).err().unwrap().code, ErrorCode::UnknownElement);
    let lacking = plain("{{ x }}");
    assert_eq!(nodes(&lacking, data(&[])).err().unwrap().code, ErrorCode::UndefinedValue);
}

#[test]
fn answers_of_the_engine_are_read_as_they_come() {
    assert_eq!(Program::render_markup(Ok("x".to_string())).ok().unwrap(), "x");
    let e = Program::render_markup(Err(failure(FailureKind::Undefined, "m", &[]))).err().unwrap();
    assert_eq!((e.code, e.message.as_str(), e.span.line), (ErrorCode::UndefinedValue, "m", 3));
    let nodes = Program::render_nodes(Ok("<body>a<b>c</b></body>".to_string())).ok().unwrap();
    assert_eq!(nodes.len(), 2);
    assert!(matches!(&nodes[0], FlowNode::Text(t) if t == "a"));
    let e = Program::render_nodes(Err(failure(FailureKind::Other, "m", &[]))).err().unwrap();
    assert_eq!((e.code, e.message.as_str()), (ErrorCode::Render, "m"));
}

#[test]
fn lines_have_to_be_countable() {
    let short = "x".repeat(65_534);
    assert!(can_place(&short));
    assert!(can_place(&format!("{short}\n{short}")));
    assert!(!can_place(&format!("{short}x")));
    let opts = with_partials(&[("p", &format!("{short}x"))]);
    assert!(!can_compile("x", &opts));
    let e = compile(env(), &format!("{}{{#", "x".repeat(65_532)), &CompileOptions::default());
    assert_eq!(e.err().unwrap().code, ErrorCode::TemplateSyntax);
}

#[test]
fn failures_map_to_their_codes() {
    assert_eq!(code_of(FailureKind::Syntax, ""), ErrorCode::TemplateSyntax);
    assert_eq!(code_of(FailureKind::UnknownTest, ""), ErrorCode::UnknownFilter);
    assert_eq!(code_of(FailureKind::Other, "x"), ErrorCode::Render);
    assert_eq!(recursion_or_render("too much recursion"), ErrorCode::IncludeDepthExceeded);
    assert_eq!(span_of(None, None).line, 0);
    assert_eq!(span_of(Some(4), Some((1, 2))).range, Some((1, 2)));
    let e = map_compile_err(failure(FailureKind::Undefined, "m", &["recursion"]));
    assert_eq!((e.code, e.span.line), (ErrorCode::UndefinedValue, 3));
    let e = map_render_err(failure(FailureKind::Undefined, "m", &[]));
    assert_eq!((e.code, e.message.as_str()), (ErrorCode::UndefinedValue, "m"));
    let e = map_render_err(failure(FailureKind::Other, "m", &["x", "recursion limit"]));
    assert_eq!(e.code, ErrorCode::IncludeDepthExceeded);
}

#[test]
fn tags_that_repeat_lists_are_left_out() {
    let opts = CompileOptions::default();
    for bad in [
        "{{ 3 in ([1] * 18446744073709551615) }}",
        "{{ 3 in ([1, 2] * 9223372036854775808) }}",
        "{{ (1, 2) * 3 }}",
        "{{ () * 3 }}",
        "{{ 3 * [1] }}",
        "{% for x in [1] * 9 %}{% endfor %}",
        "{% if [1] * 9 %}{% endif %}",
        "{% if 1 in(1, 2) * 9 %}{% endif %}",
        "{# {{ #}{{ '}}' ~ [1] * 2 }}",
        "{{ 3in[1] * 9 }}",
        "{{ 0xain[1] * 9 }}",
        "{{ x if 1else[1] * 9 }}",
        "{{ {'a': {}} ~ [1] * 2 }}",
    ] {
        assert!(!can_compile(bad, &opts), "{bad}");
        assert!(!can_compile("x", &with_partials(&[("p", bad)])), "{bad}");
    }
    for good in [
        "{{ (a + b) * c }}",
        "{{ rows[0] * 2 }}",
        "{{ rows.0[1] * 2 }}",
        "{{ main[0] * 2 }}",
        "{{ f(a, b) * 2 }}",
        "{{ f(a, b)[0] * (c | g(1, 2)) }}",
        "{{ [1, 2] }} * {{ 2 * 3 }}",
        "{{ [2 ** 3] }}",
        "{{ '[1] * 2' }}",
        "{# [1] * 2 #}",
        "{% raw %}{{ [1] * 2 }}{% endraw %}",
        "{% call(a, b) f(2 * c) %}{% endcall %}",
        "p { width: calc((1px, 2px) * 2) } [x] * {",
    ] {
        assert!(can_compile(good, &opts), "{good}");
    }
}

const TIERS: &str = "{% switch tier %}
  {% case \"enterprise\" %}
    <p>dedicated</p>
  {% case \"pro\", \"plus\" %}
    <p>priority</p>
  {% default %}
    <p>standard</p>
{% endswitch %}
";

#[test]
fn a_switch_renders_as_its_branches_do() {
    let branches = "{% if tier == \"enterprise\" %}
    <p>dedicated</p>
  {% elif tier in [\"pro\", \"plus\"] %}
    <p>priority</p>
  {% else %}
    <p>standard</p>
{% endif %}
";
    let (p, q) = (plain(TIERS), plain(branches));
    for tier in ["enterprise", "pro", "plus", "free"] {
        let a = markup(&p, data(&[("tier", tier)])).ok().unwrap();
        let b = markup(&q, data(&[("tier", tier)])).ok().unwrap();
        assert_eq!(a, b);
    }
    let text = markup(&p, data(&[("tier", "plus")])).ok().unwrap();
    assert_eq!(text.trim(), "<p>priority</p>");
}

#[test]
fn switches_are_written_out_on_their_lines() {
    assert_eq!(
        desugar("a{%- switch x -%}\n {% case f(1, 2), ',' -%}b{% default %}c{% endswitch %}d")
            .ok()
            .unwrap(),
        "a{%- set __switch = ( x )-%}{#\n #}{% if __switch == ( f(1, 2)) or __switch == ( ',' )\
         -%}b{% else %}c{% endif %}d"
    );
    let p = plain("{% switch 1 %}\n{% case\n1 %}\n{{ gone }}{% endswitch %}");
    assert_eq!(markup(&p, data(&[])).err().unwrap().span.line, 4);
    let source = "{# {% switch #}{% raw %}{% case %}{% endraw %}{{ '{% default %}' }}{% if a %}b";
    assert_eq!(desugar(source).ok().unwrap(), source);
}

#[test]
fn switches_nest_and_the_first_match_wins() {
    let p = plain(
        "{% switch a %}{% case 'x', 'y' %}{% switch b %}{% case 'y' %}1{% default %}2\
         {% endswitch %}{% case 'y' %}3{% endswitch %}.",
    );
    let run = |a: &str, b: &str| markup(&p, data(&[("a", a), ("b", b)])).ok().unwrap();
    assert_eq!((run("x", "y"), run("y", "z")), ("1.".to_string(), "2.".to_string()));
    assert_eq!(run("z", "z"), ".");
    let only = plain("{% switch a %}{% default %}1{% endswitch %}{% switch a %} {% endswitch %}");
    assert_eq!(markup(&only, data(&[("a", "x")])).ok().unwrap(), "1");
    let lazy = plain("{% switch 1 %}{% case 1 %}a{% case nope() %}b{% endswitch %}");
    assert_eq!(markup(&lazy, data(&[])).ok().unwrap(), "a");
    let p = program(
        "{% switch x %}{% case '1' %}{% include 'p' %}{% endswitch %}",
        &with_partials(&[("p", "{% switch x %}{% case '1' %}in{% endswitch %}")]),
    );
    assert_eq!(markup(&p, data(&[("x", "1")])).ok().unwrap(), "in");
}

#[test]
fn switches_that_are_not_well_formed_are_errors() {
    for (source, message) in [
        ("{% switch x %}y{% case 1 %}{% endswitch %}", "only a case or a default may come first in a switch"),
        ("{% switch x %}{{ y }}{% case 1 %}{% endswitch %}", "only a case or a default may come first in a switch"),
        ("{% case 1 %}", "part of a switch outside of one"),
        ("{% default %}", "part of a switch outside of one"),
        ("{% endswitch %}", "part of a switch outside of one"),
        (
            "{% switch x %}{% case 1 %}{% if y %}{% case 2 %}{% endif %}{% endswitch %}",
            "part of a switch outside of one",
        ),
        (
            "{% switch x %}{% case 1 %}{% else %}{% endswitch %}",
            "branch of another statement in a switch",
        ),
        (
            "{% switch x %}{% default %}{% case 1 %}{% endswitch %}",
            "the default has to come last in a switch",
        ),
        (
            "{% switch x %}{% default %}{% default %}{% endswitch %}",
            "the default has to come last in a switch",
        ),
        ("{% switch %}{% case 1 %}{% endswitch %}", "switch without a subject"),
        ("{% switch x %}{% case %}{% endswitch %}", "case without a value"),
        ("{% switch x %}{% case 1, %}{% endswitch %}", "case without a value"),
        ("{% switch x %}{% case 1 %}", "switch without an end"),
    ] {
        let e = desugar(source).err().expect("error");
        assert_eq!((e.code, e.message.as_str()), (ErrorCode::TemplateSyntax, message));
    }
    let e = compile(env(), "\u{e9}\n {% case 1 %}", &CompileOptions::default()).err().unwrap();
    assert_eq!((e.span.line, e.span.range), (2, Some((4, 16))));
    let e = compile(env(), "x", &with_partials(&[("p", "{% endswitch %}")])).err().unwrap();
    assert_eq!(e.code, ErrorCode::TemplateSyntax);
}
