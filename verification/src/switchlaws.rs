//! What always holds of the tags of templates and of the switches among them.

use vstd::prelude::*;
use vstd::string::*;

use crate::scan::{is_ascii_space, is_space};
use crate::switch::{
    Fault, FaultAt, Frame, OutV, case_condition, condition, fault_span, fault_text, newlines,
    open_switch, role_named, role_of, step, word_from, word_to,
};
use crate::tags::{
    Bracket, PieceV, TagV, bare_end, blank_end, closed_from, comment_end, ends_in, is_operator,
    is_word_char, opens_at, past_sign, piece_at, raw_end, string_end, tag_end, tag_start, text_end,
    with_char, with_word, word_end,
};

verus! {

// --------------------------------------------------------------------------
// tags
// --------------------------------------------------------------------------

/// A word reaches as far as its characters are letters, digits or underscores.
pub proof fn law_words_end(s: Seq<char>, j: int)
    requires
        0 <= j <= s.len(),
    ensures
        j <= word_end(s, j) <= s.len(),
        forall|i: int| j <= i < word_end(s, j) ==> is_word_char(#[trigger] s[i]),
        word_end(s, j) < s.len() ==> !is_word_char(s[word_end(s, j)]),
    decreases s.len() - j,
{
    if j < s.len() && is_word_char(s[j]) {
        law_words_end(s, j + 1);
    }
}

/// Blanks reach as far as they go.
pub proof fn law_blanks_end(s: Seq<char>, j: int)
    requires
        0 <= j <= s.len(),
    ensures
        j <= blank_end(s, j) <= s.len(),
        forall|i: int| j <= i < blank_end(s, j) ==> is_ascii_space(#[trigger] s[i]),
        blank_end(s, j) < s.len() ==> !is_ascii_space(s[blank_end(s, j)]),
    decreases s.len() - j,
{
    if j < s.len() && is_ascii_space(s[j]) {
        law_blanks_end(s, j + 1);
    }
}

/// A string without escapes ends at the next of its quotes.
pub proof fn law_strings_end(s: Seq<char>, j: int, quote: char, e: int)
    requires
        0 <= j <= e < s.len(),
        s[e] == quote,
        quote != '\\',
        forall|i: int| j <= i < e ==> (#[trigger] s[i]) != quote && s[i] != '\\',
    ensures
        string_end(s, j, quote) == Some(e + 1),
    decreases e - j,
{
    if j < e {
        assert(s[j] != quote);
        law_strings_end(s, j + 1, quote, e);
    }
}

/// An escaped character does not end a string, whatever it is.
pub proof fn law_escapes(s: Seq<char>, j: int, quote: char)
    requires
        0 <= j,
        j + 1 < s.len(),
        s[j] == '\\',
    ensures
        string_end(s, j, quote) == string_end(s, j + 2, quote),
{
}

/// Text goes on up to the next tag or comment, and to the end where there is none.
pub proof fn law_text_ends(s: Seq<char>, i: int)
    requires
        0 <= i <= s.len(),
    ensures
        i <= text_end(s, i) <= s.len(),
        text_end(s, i) < s.len() ==> opens_at(s, text_end(s, i)),
        forall|j: int| i <= j < text_end(s, i) ==> !(#[trigger] opens_at(s, j)),
    decreases s.len() - i,
{
    if i < s.len() && !opens_at(s, i) {
        law_text_ends(s, i + 1);
    }
}

/// Tags and comments open with a brace and another, a percent sign or a hash.
pub proof fn law_openings(s: Seq<char>, i: int)
    requires
        0 <= i,
        i + 1 < s.len(),
    ensures
        opens_at(s, i) <==> s[i] == '{' && (s[i + 1] == '{' || s[i + 1] == '%' || s[i + 1] == '#'),
{
}

/// A comment goes on to the first mark that ends it.
pub proof fn law_comments_end(s: Seq<char>, i: int, e: int)
    requires
        0 <= i <= e,
        e + 1 < s.len(),
        s[e] == '#' && s[e + 1] == '}',
        forall|j: int| i <= j < e ==> !((#[trigger] s[j]) == '#' && s[j + 1] == '}'),
    ensures
        comment_end(s, i) == Some(e + 2),
    decreases e - i,
{
    if i < e {
        assert(!(s[i] == '#' && s[i + 1] == '}'));
        law_comments_end(s, i + 1, e);
    }
}

/// A piece that opens nothing is text up to the next opening; one that opens a comment which
/// is closed is that comment.
pub proof fn law_pieces(s: Seq<char>, i: int, e: int)
    requires
        0 <= i < s.len(),
    ensures
        !opens_at(s, i) ==> piece_at(s, i).kind is Text && piece_at(s, i).to == text_end(s, i + 1),
        opens_at(s, i) && s[i + 1] == '#' && i + 2 <= e && e + 1 < s.len() && s[i + 2] != '-' && s[i
            + 2] != '+' && s[e] == '#' && s[e + 1] == '}' && (forall|j: int|
            i + 2 <= j < e ==> !((#[trigger] s[j]) == '#' && s[j + 1] == '}')) ==> piece_at(s, i).kind
            is Comment && piece_at(s, i).to == e + 2,
        piece_at(s, i).kind is Value ==> opens_at(s, i) && s[i + 1] == '{',
        piece_at(s, i).kind is Block ==> opens_at(s, i) && s[i + 1] == '%',
        piece_at(s, i).from == i,
{
    reveal(piece_at);
    if opens_at(s, i) && s[i + 1] == '#' && i + 2 <= e && e + 1 < s.len() && s[i + 2] != '-' && s[i
        + 2] != '+' && s[e] == '#' && s[e + 1] == '}' && (forall|j: int|
        i + 2 <= j < e ==> !((#[trigger] s[j]) == '#' && s[j + 1] == '}')) {
        law_comments_end(s, i + 2, e);
    }
}

/// What was seen of a tag is never forgotten: that it multiplies and that it has a list.
pub proof fn law_marks_stay(t: TagV, c: char, w: Seq<char>)
    ensures
        with_char(t, c) matches Some(u) ==> (t.star ==> u.star) && (t.list ==> u.list),
        with_word(t, w).star == t.star && with_word(t, w).list == t.list && with_word(t, w).open
            == t.open,
{
}

/// A tag multiplies where a star stands in it; it has a list where a bracket opens in the
/// place of an operand, or a comma stands in such a group or the group is empty.
pub proof fn law_products_and_lists(t: TagV)
    ensures
        with_char(t, '*') matches Some(u) && u.star && !u.operand,
        with_char(t, '[') matches Some(u) && (!t.operand ==> u.list) && (t.operand ==> u.list
            == t.list) && u.open.len() == t.open.len() + 1,
        t.open.len() > 0 && t.open.last() == Bracket::Group ==> (with_char(t, ',') matches Some(u)
            && u.list),
        t.open.len() > 0 && t.open.last() == Bracket::Other ==> (with_char(t, ',') matches Some(u)
            && u.list == t.list),
        t.open.len() > 0 && t.open.last() == Bracket::Group && !t.operand ==> (with_char(
            t,
            ')',
        ) matches Some(u) && u.list),
        t.open.len() > 0 ==> (with_char(t, ')') matches Some(u) && u.open == t.open.drop_last()
            && u.operand),
        t.open.len() == 0 ==> with_char(t, ')') is None,
        with_char(t, '(') matches Some(u) && u.open.len() == t.open.len() + 1 && (u.open.last()
            == Bracket::Group <==> !t.operand),
        with_char(t, ' ') == Some(t),
{
}

/// A tag ends where it is closed, outside all brackets; it repeats a list where it has one
/// and multiplies.
pub proof fn law_tags_end(s: Seq<char>, j: int, c: char, t: TagV)
    requires
        0 <= j,
        j + 1 < s.len(),
        s[j] == c,
        s[j + 1] == '}',
        t.open.len() == 0,
    ensures
        tag_end(s, j, c, t) matches Some(e) && e.body == j && e.to == j + 2 && (e.repeats <==> t.star
            && t.list),
{
}

/// Nothing is known of a tag before it is read.
pub proof fn law_tags_start(block: bool)
    ensures
        ({
            let t = tag_start(block);
            t.open.len() == 0 && !t.star && !t.list && !t.operand && t.first == block
        }),
{
}

// --------------------------------------------------------------------------
// switches
// --------------------------------------------------------------------------

/// The words of statements: what opens one, parts it, closes it, and the parts of a switch.
pub proof fn law_roles()
    ensures
        role_named("if"@) is Opener && role_named("for"@) is Opener,
        role_named("elif"@) is Branch && role_named("else"@) is Branch,
        role_named("endif"@) is Closer && role_named("endfor"@) is Closer,
        role_named("switch"@) is Switch,
        role_named("case"@) is Case,
        role_named("default"@) is Default,
        role_named("endswitch"@) is EndSwitch,
{
    reveal_strlit("if");
    reveal_strlit("for");
    reveal_strlit("elif");
    reveal_strlit("else");
    reveal_strlit("endif");
    reveal_strlit("endfor");
    reveal_strlit("switch");
    reveal_strlit("case");
    reveal_strlit("default");
    reveal_strlit("endswitch");
    assert("if"@.len() == 2);
    assert("for"@.len() == 3);
    assert("elif"@.len() == 4);
    assert("else"@.len() == 4);
    assert("endif"@.len() == 5);
    assert("endfor"@.len() == 6);
    assert("switch"@.len() == 6);
    assert("case"@.len() == 4);
    assert("default"@.len() == 7);
    assert("endswitch"@.len() == 9);
    assert("elif"@[2] == 'i');
    assert("else"@[2] == 's');
    assert("elif"@[0] == 'e');
    assert("case"@[0] == 'c');
    assert("else"@[0] == 'e');
    assert("endfor"@[0] == 'e');
    assert("switch"@[0] == 's');
}

/// Every other word plays none.
pub proof fn law_other_words(w: Seq<char>)
    requires
        w != "if"@ && w != "for"@ && w != "elif"@ && w != "else"@ && w != "endif"@ && w != "endfor"@ && w != "switch"@ && w != "case"@ && w != "default"@ && w != "endswitch"@,
    ensures
        role_named(w) is Plain,
{
}

/// Whether a text is one value of a case: not blank, and without quotes, commas or brackets.
pub open spec fn is_value(s: Seq<char>, a: int, b: int) -> bool {
    &&& 0 <= a <= b <= s.len()
    &&& forall|i: int|
        a <= i < b ==> (#[trigger] s[i]) != '"' && s[i] != '\'' && s[i] != ',' && s[i] != '(' && s[i]
            != ')' && s[i] != '[' && s[i] != ']' && s[i] != '{' && s[i] != '}'
    &&& exists|i: int| a <= i < b && !is_ascii_space(#[trigger] s[i])
}

pub open spec fn filled_upto(s: Seq<char>, a: int, b: int, filled: bool) -> bool {
    filled || exists|i: int| a <= i < b && !is_ascii_space(#[trigger] s[i])
}

proof fn lemma_run(s: Seq<char>, j: int, e: int, b: int, filled: bool, acc: Seq<char>)
    requires
        0 <= j <= e <= b <= s.len(),
        forall|i: int|
            j <= i < e ==> (#[trigger] s[i]) != '"' && s[i] != '\'' && s[i] != ',' && s[i] != '('
                && s[i] != ')' && s[i] != '[' && s[i] != ']' && s[i] != '{' && s[i] != '}',
    ensures
        condition(s, j, b, 0, filled, acc) == condition(
            s,
            e,
            b,
            0,
            filled_upto(s, j, e, filled),
            acc + s.subrange(j, e),
        ),
    decreases e - j,
{
    if j == e {
        assert(acc + s.subrange(j, e) =~= acc);
        assert(filled_upto(s, j, e, filled) == filled);
    } else {
        assert(s[j] != '"' && s[j] != '\'' && s[j] != ',');
        let f = filled || !is_ascii_space(s[j]);
        lemma_run(s, j + 1, e, b, f, acc.push(s[j]));
        assert(acc.push(s[j]) + s.subrange(j + 1, e) =~= acc + s.subrange(j, e));
        assert(filled_upto(s, j + 1, e, f) == filled_upto(s, j, e, filled)) by {
            if filled_upto(s, j, e, filled) && !filled {
                let i = choose|i: int| j <= i < e && !is_ascii_space(#[trigger] s[i]);
                if i > j {
                    assert(j + 1 <= i < e && !is_ascii_space(s[i]));
                }
            }
        }
    }
}

/// A case asks whether the subject equals its value.
pub proof fn law_case_of_one_value(s: Seq<char>, a: int, b: int)
    requires
        is_value(s, a, b),
    ensures
        case_condition(s, a, b) == Some("__switch == ("@ + s.subrange(a, b) + ")"@),
{
    lemma_run(s, a, b, b, false, "__switch == ("@);
    reveal_strlit(")");
    assert(")"@ =~= seq![')']);
    assert(filled_upto(s, a, b, false));
    let c = "__switch == ("@ + s.subrange(a, b);
    assert(c.push(')') =~= c + ")"@);
}

/// A case of two values asks whether the subject equals one of them.
pub proof fn law_case_of_two_values(s: Seq<char>, a: int, m: int, b: int)
    requires
        is_value(s, a, m),
        m < s.len(),
        s[m] == ',',
        is_value(s, m + 1, b),
    ensures
        case_condition(s, a, b) == Some(
            "__switch == ("@ + s.subrange(a, m) + ") or __switch == ("@ + s.subrange(m + 1, b) + ")"@,
        ),
{
    let h = "__switch == ("@;
    lemma_run(s, a, m, b, false, h);
    assert(filled_upto(s, a, m, false));
    let mid = h + s.subrange(a, m) + ") or __switch == ("@;
    assert(condition(s, m, b, 0, true, h + s.subrange(a, m)) == condition(s, m + 1, b, 0, false, mid));
    lemma_run(s, m + 1, b, b, false, mid);
    assert(filled_upto(s, m + 1, b, false));
    reveal_strlit(")");
    assert(")"@ =~= seq![')']);
    let c = mid + s.subrange(m + 1, b);
    assert(c.push(')') =~= c + ")"@);
}

/// A case without a value is none.
pub proof fn law_case_without_a_value(s: Seq<char>, a: int, b: int)
    requires
        0 <= a <= b <= s.len(),
        forall|i: int| a <= i < b ==> is_ascii_space(#[trigger] s[i]),
    ensures
        case_condition(s, a, b) is None,
{
    assert forall|i: int| a <= i < b implies (#[trigger] s[i]) != '"' && s[i] != '\'' && s[i] != ','
        && s[i] != '(' && s[i] != ')' && s[i] != '[' && s[i] != ']' && s[i] != '{' && s[i] != '}' by {
        assert(is_ascii_space(s[i]));
    }
    lemma_run(s, a, b, b, false, "__switch == ("@);
    assert(!filled_upto(s, a, b, false));
}

/// What a piece of a source is written as, by its part in a switch: the switch keeps its
/// subject, the first case asks and each other asks next, the default takes what is left,
/// and the end closes the question.
pub proof fn law_switches_are_written_out(s: Seq<char>, p: PieceV, o: OutV)
    ensures
        ({
            let w = word_from(s, p);
            let e = word_to(s, p);
            let head = o.text + s.subrange(p.from, w);
            let inside = o.open.len() > 0;
            &&& role_of(s, p) is Switch && !(inside && o.open.last().kind is Start) && (exists|i: int|
                e <= i < p.body && !is_space(#[trigger] s[i])) ==> (step(s, p, o) matches Ok(r)
                && r.text == o.text + (s.subrange(p.from, w) + ("set __switch = ("@ + s.subrange(
                e,
                p.body,
            ) + ")"@) + s.subrange(p.body, p.to)) && r.open.len() == o.open.len() + 1
                && r.open.last().kind is Start)
            &&& role_of(s, p) is Case && inside && o.open.last().kind is Start ==> (case_condition(
                s,
                e,
                p.body,
            ) matches Some(c) ==> (step(s, p, o) matches Ok(r) && r.text == o.text + (s.subrange(
                p.from,
                w,
            ) + ("if "@ + c) + s.subrange(p.body, p.to)) && r.open.last().kind is Cases))
            &&& role_of(s, p) is Case && inside && o.open.last().kind is Cases ==> (case_condition(
                s,
                e,
                p.body,
            ) matches Some(c) ==> (step(s, p, o) matches Ok(r) && r.text == o.text + (s.subrange(
                p.from,
                w,
            ) + ("elif "@ + c) + s.subrange(p.body, p.to)) && r.open.last().kind is Cases))
            &&& role_of(s, p) is Default && inside && o.open.last().kind is Cases ==> (step(
                s,
                p,
                o,
            ) matches Ok(r) && r.text == o.text + (s.subrange(p.from, w) + "else"@ + s.subrange(
                e,
                p.to,
            )) && r.open.last().kind is Last)
            &&& role_of(s, p) is Default && inside && o.open.last().kind is Start ==> (step(
                s,
                p,
                o,
            ) matches Ok(r) && r.text == o.text + (s.subrange(p.from, w) + "if true"@ + s.subrange(
                e,
                p.to,
            )) && r.open.last().kind is Last)
            &&& role_of(s, p) is EndSwitch && inside && (o.open.last().kind is Cases || o.open.last().kind
                is Last) ==> (step(s, p, o) matches Ok(r) && r.text == o.text + (s.subrange(p.from, w)
                + "endif"@ + s.subrange(e, p.to)) && r.open == o.open.drop_last())
        }),
{
    if exists|i: int| word_to(s, p) <= i < p.body && !is_space(#[trigger] s[i]) {
        assert(!crate::switch::blank_between(s, word_to(s, p), p.body));
    }
}

/// Parts of a switch stand in one, in their order: no case or default outside of one or
/// behind its default, no branch of another statement in it, and a subject and values where
/// they belong.
pub proof fn law_switch_faults(s: Seq<char>, p: PieceV, o: OutV)
    requires
        0 <= p.from <= p.to <= usize::MAX,
    ensures
        ({
            let outside = o.open.len() == 0 || o.open.last().kind is Own;
            let r = step(s, p, o);
            &&& (role_of(s, p) is Case || role_of(s, p) is Default || role_of(s, p) is EndSwitch)
                && outside ==> (r matches Err(f) && f.fault is Misplaced && f.from == p.from && f.to
                == p.to)
            &&& (role_of(s, p) is Case || role_of(s, p) is Default) && o.open.len() > 0
                && o.open.last().kind is Last ==> (r matches Err(f) && f.fault is AfterDefault)
            &&& (role_of(s, p) is Branch || role_of(s, p) is Closer) && o.open.len() > 0 && !(
            o.open.last().kind is Own) ==> (r matches Err(f) && f.fault is Branch)
            &&& role_of(s, p) is Case && o.open.len() > 0 && (o.open.last().kind is Start
                || o.open.last().kind is Cases) && case_condition(s, word_to(s, p), p.body) is None
                ==> (r matches Err(f) && f.fault is NoValue)
            &&& role_of(s, p) is Switch && outside && (forall|i: int|
                word_to(s, p) <= i < p.body ==> is_space(#[trigger] s[i])) ==> (r matches Err(f)
                && f.fault is NoSubject)
            &&& role_of(s, p) is Opener && o.open.len() > 0 && o.open.last().kind is Start ==> (
            r matches Err(f) && f.fault is Stray)
        }),
{
}

/// Other statements are kept as they are and nest: what opens one is remembered until it is
/// closed.
pub proof fn law_statements_nest(s: Seq<char>, p: PieceV, o: OutV)
    ensures
        ({
            let r = step(s, p, o);
            let own = s.subrange(p.from, p.to);
            &&& role_of(s, p) is Opener && !(o.open.len() > 0 && o.open.last().kind is Start) ==> (
            r matches Ok(n) && n.text == o.text + own && n.open.len() == o.open.len() + 1
                && n.open.last().kind is Own && n.open.drop_last() == o.open)
            &&& role_of(s, p) is Closer && o.open.len() > 0 && o.open.last().kind is Own ==> (
            r matches Ok(n) && n.text == o.text + own && n.open == o.open.drop_last())
            &&& role_of(s, p) is Branch && (o.open.len() == 0 || o.open.last().kind is Own) ==> (
            r matches Ok(n) && n.text == o.text + own && n.open == o.open)
            &&& role_of(s, p) is Plain && !(o.open.len() > 0 && o.open.last().kind is Start) ==> (
            r matches Ok(n) && n.text == o.text + own && n.open == o.open)
        }),
{
    if role_of(s, p) is Opener {
        if let Ok(n) = step(s, p, o) {
            assert(n.open.drop_last() =~= o.open);
        }
    }
}

/// A switch that is left open is told, the innermost of them.
pub proof fn law_open_switches(open: Seq<Frame>, i: int)
    ensures
        (forall|j: int| 0 <= j < open.len() ==> (#[trigger] open[j]).kind is Own) ==> open_switch(
            open,
        ) is None,
        0 <= i < open.len() && !(open[i].kind is Own) && (forall|j: int|
            i < j < open.len() ==> (#[trigger] open[j]).kind is Own) ==> open_switch(open) == Some(
            open[i],
        ),
    decreases open.len(),
{
    if open.len() > 0 && open.last().kind is Own {
        law_open_switches(open.drop_last(), i);
        assert forall|j: int| 0 <= j < open.len() - 1 implies #[trigger] open.drop_last()[j]
            == open[j] by {}
    }
}

/// The line of a fault counts from one, a line for each line break before it.
pub proof fn law_fault_lines(s: Seq<char>, f: FaultAt, t: Seq<char>, c: char)
    requires
        newlines(s.take(f.from as int)) < u32::MAX,
    ensures
        fault_span(s, f).line == newlines(s.take(f.from as int)) + 1,
        newlines(Seq::empty()) == 0,
        c == '\n' ==> newlines(t.push(c)) == newlines(t) + 1,
        c != '\n' ==> newlines(t.push(c)) == newlines(t),
{
    assert(t.push(c).drop_last() =~= t);
}

/// A raw block goes on to its own end, whatever stands in it.
pub proof fn law_raw_blocks(body: Seq<char>, rest: Seq<char>)
    requires
        !body.contains('{'),
    ensures
        ({
            let s = "{% raw %}"@ + body + "{% endraw %}"@ + rest;
            piece_at(s, 0).kind is Raw && piece_at(s, 0).to == body.len() + 21
        }),
{
    let open = "{% raw %}"@;
    let close = "{% endraw %}"@;
    reveal_strlit("{% raw %}");
    reveal_strlit("{% endraw %}");
    reveal_strlit("raw");
    reveal_strlit("endraw");
    let s = open + body + close + rest;
    assert(open.len() == 9 && close.len() == 12 && "raw"@.len() == 3 && "endraw"@.len() == 6);
    assert(s[0] == '{' && s[1] == '%' && s[2] == ' ' && s[3] == 'r' && s[4] == 'a' && s[5] == 'w'
        && s[6] == ' ' && s[7] == '%' && s[8] == '}');
    reveal(piece_at);
    assert(opens_at(s, 0));
    assert(s.subrange(3, 6) =~= "raw"@);
    assert(blank_end(s, 3) == 3);
    assert(blank_end(s, 2) == 3);
    assert(blank_end(s, 7) == 7);
    assert(blank_end(s, 6) == 7);
    assert(bare_end(s, 2, "raw"@) == Some(9int));
    let p = 9 + body.len() as int;
    assert forall|j: int| 0 <= j < 12 implies #[trigger] s[p + j] == close[j] by {}
    assert(s[p] == close[0] && s[p + 0] == '{');
    assert(s[p + 1] == '%' && s[p + 2] == ' ' && s[p + 3] == 'e' && s[p + 9] == ' ' && s[p + 10]
        == '%' && s[p + 11] == '}');
    assert(s.subrange(p + 3, p + 9) =~= "endraw"@);
    assert(blank_end(s, p + 3) == p + 3);
    assert(blank_end(s, p + 2) == p + 3);
    assert(blank_end(s, p + 10) == p + 10);
    assert(blank_end(s, p + 9) == p + 10);
    assert(bare_end(s, p + 2, "endraw"@) == Some(p + 12));
    assert forall|j: int| 9 <= j < p implies #[trigger] s[j] != '{' by {
        assert(s[j] == body[j - 9]);
        assert(body.contains(body[j - 9]));
    }
    lemma_raw_reaches(s, 9, p);
}

proof fn lemma_raw_reaches(s: Seq<char>, i: int, p: int)
    requires
        0 <= i <= p,
        p + 1 < s.len(),
        forall|j: int| i <= j < p ==> #[trigger] s[j] != '{',
        s[p] == '{' && s[p + 1] == '%',
        bare_end(s, past_sign(s, p + 2), "endraw"@) is Some,
    ensures
        raw_end(s, i) == bare_end(s, past_sign(s, p + 2), "endraw"@),
    decreases p - i,
{
    if i < p {
        assert(s[i] != '{');
        lemma_raw_reaches(s, i + 1, p);
    }
}

/// A mark of whitespace control is passed over, and nothing else.
pub proof fn law_whitespace_marks(s: Seq<char>, j: int, c: char)
    requires
        0 <= j < s.len(),
    ensures
        s[j] == '-' || s[j] == '+' ==> past_sign(s, j) == j + 1,
        s[j] != '-' && s[j] != '+' ==> past_sign(s, j) == j,
        (s[j] == '-' || s[j] == '+') && c != '-' && c != '+' && j + 2 < s.len() && s[j + 1] == c && s[j
            + 2] == '}' ==> closed_from(s, j, c) == Some(j + 3),
        j + 1 < s.len() && s[j] == c && s[j + 1] == '}' ==> closed_from(s, j, c) == Some(j + 2),
{
}

/// The words that an operand follows, alone or right behind a number.
pub proof fn law_operators(w: Seq<char>, d: char)
    ensures
        is_operator("in"@),
        '0' <= d <= '9' ==> is_operator(seq![d] + "in"@),
        is_operator("not"@),
        '0' <= d <= '9' ==> is_operator(seq![d] + "not"@),
        is_operator("and"@),
        '0' <= d <= '9' ==> is_operator(seq![d] + "and"@),
        is_operator("or"@),
        '0' <= d <= '9' ==> is_operator(seq![d] + "or"@),
        is_operator("if"@),
        '0' <= d <= '9' ==> is_operator(seq![d] + "if"@),
        is_operator("else"@),
        '0' <= d <= '9' ==> is_operator(seq![d] + "else"@),
        w != "in"@ && w != "not"@ && w != "and"@ && w != "or"@ && w != "if"@ && w != "else"@ && (w.len() > 0 ==> !('0' <= w[0] <= '9')) ==> !is_operator(w),
{
    lemma_behind_a_number(d, "in"@);
    lemma_behind_a_number(d, "not"@);
    lemma_behind_a_number(d, "and"@);
    lemma_behind_a_number(d, "or"@);
    lemma_behind_a_number(d, "if"@);
    lemma_behind_a_number(d, "else"@);
}

proof fn lemma_behind_a_number(d: char, op: Seq<char>)
    ensures
        '0' <= d <= '9' ==> ends_in(seq![d] + op, op),
        ends_in(op, op),
{
    let w = seq![d] + op;
    assert(w.subrange(1, w.len() as int) =~= op);
}

/// A word is an operand unless an operand follows it; the first word of a block is none
/// unless what it stands for is in brackets.
pub proof fn law_words_of_tags(t: TagV, w: Seq<char>)
    ensures
        !t.first ==> (with_word(t, w).operand <==> !is_operator(w)),
        t.first ==> (with_word(t, w).operand <==> w == "for"@ || w == "call"@),
        !with_word(t, w).first,
{
}

/// A tag is read on past strings as a whole, past words as a whole, past powers, which are no
/// products, and past every other character by what it is.
pub proof fn law_tags_are_read_on(s: Seq<char>, j: int, c: char, t: TagV, e: int)
    requires
        0 <= j < s.len(),
        t.open.len() > 0 || closed_from(s, j, c) is None,
    ensures
        (s[j] == '"' || s[j] == '\'') && string_end(s, j + 1, s[j]) == Some(e) && j < e <= s.len()
            ==> tag_end(s, j, c, t) == tag_end(s, e, c, TagV { operand: true, first: false, ..t }),
        (s[j] == '"' || s[j] == '\'') && string_end(s, j + 1, s[j]) is None ==> tag_end(
            s,
            j,
            c,
            t,
        ) is None,
        is_word_char(s[j]) ==> tag_end(s, j, c, t) == tag_end(
            s,
            word_end(s, j + 1),
            c,
            with_word(t, s.subrange(j, word_end(s, j + 1))),
        ),
        s[j] == '*' && j + 1 < s.len() && s[j + 1] == '*' ==> tag_end(s, j, c, t) == tag_end(
            s,
            j + 2,
            c,
            TagV { operand: false, first: false, ..t },
        ),
        !is_word_char(s[j]) && s[j] != '"' && s[j] != '\'' && s[j] != '*' ==> (with_char(
            t,
            s[j],
        ) matches Some(u) ==> tag_end(s, j, c, t) == tag_end(s, j + 1, c, u)),
{
    law_words_end(s, j + 1);
}

/// Commas part the values of a case only outside strings and brackets.
pub proof fn law_commas_inside_values(s: Seq<char>, j: int, b: int, d: int, f: bool, acc: Seq<char>, e: int)
    requires
        0 <= j < b <= s.len(),
    ensures
        (s[j] == '"' || s[j] == '\'') && string_end(s, j + 1, s[j]) == Some(e) && j < e <= b
            ==> condition(s, j, b, d, f, acc) == condition(s, e, b, d, true, acc + s.subrange(j, e)),
        s[j] == ',' && d != 0 ==> condition(s, j, b, d, f, acc) == condition(
            s,
            j + 1,
            b,
            d,
            true,
            acc.push(','),
        ),
        s[j] == '(' || s[j] == '[' || s[j] == '{' ==> condition(s, j, b, d, f, acc) == condition(
            s,
            j + 1,
            b,
            d + 1,
            true,
            acc.push(s[j]),
        ),
        s[j] == ')' || s[j] == ']' || s[j] == '}' ==> condition(s, j, b, d, f, acc) == condition(
            s,
            j + 1,
            b,
            d - 1,
            true,
            acc.push(s[j]),
        ),
{
}

/// What each fault says.
pub proof fn law_fault_texts()
    ensures
        fault_text(Fault::Stray) == "only a case or a default may come first in a switch"@,
        fault_text(Fault::Misplaced) == "part of a switch outside of one"@,
        fault_text(Fault::Branch) == "branch of another statement in a switch"@,
        fault_text(Fault::AfterDefault) == "the default has to come last in a switch"@,
        fault_text(Fault::NoSubject) == "switch without a subject"@,
        fault_text(Fault::NoValue) == "case without a value"@,
        fault_text(Fault::Unclosed) == "switch without an end"@,
{
}

} // verus!
