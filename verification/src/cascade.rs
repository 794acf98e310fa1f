//! The order of the cascade: whose rules come first, and which of them win.
//!
//! The rules themselves are whatever the stylesheet parser makes of them, and the
//! tokens whatever the caller defines: both are carried along.

use vstd::prelude::*;

verus! {

/// The defaults that the cascade starts from.
pub const UA_CSS: &'static str = "
b { font-weight: bold }
strong { font-weight: bold }
i { font-style: italic }
em { font-style: italic }
a { color: #0000ee }
h1 { font-weight: bold; font-size: 2em }
h2 { font-weight: bold; font-size: 1.5em }
small { font-size: 0.8em }
";

/// The level of the defaults.
pub const UA_LEVEL: u8 = 0;

/// The level of the author's stylesheet.
pub const AUTHOR_LEVEL: u8 = 1;

/// The level of styles set on nodes while rendering.
pub const NODE_LEVEL: u8 = 3;

/// A rule with its level and its place in the whole order.
#[derive(Debug)]
pub struct LeveledRule<R> {
    pub level: u8,
    pub order: usize,
    pub rule: R,
}

/// The rules that a document is styled by, and the tokens they may name.
#[derive(Debug)]
pub struct Cascade<R, T> {
    pub rules: Vec<LeveledRule<R>>,
    pub tokens: T,
}

/// Rules at one level, numbered from `start` on.
pub open spec fn leveled<R>(rules: Seq<R>, level: u8, start: int) -> Seq<LeveledRule<R>> {
    Seq::new(
        rules.len(),
        |i: int| LeveledRule { level, order: (start + i) as usize, rule: rules[i] },
    )
}

/// Add the rules of a stylesheet at a level, numbered on from `order`.
fn add_leveled<R>(rules: &mut Vec<LeveledRule<R>>, order: &mut usize, level: u8, sheet: Vec<R>)
    requires
        *old(order) + sheet@.len() <= usize::MAX,
    ensures
        final(rules)@ == old(rules)@ + leveled(sheet@, level, *old(order) as int),
        *final(order) == *old(order) + sheet@.len(),
{
    let ghost all = sheet@;
    let ghost before = rules@;
    let ghost start = *order;
    let ghost want = leveled(all, level, start as int);
    proof {
        assert(before + want.take(0) =~= before);
    }
    for rule in it: sheet
        invariant
            it.seq() == all,
            start + all.len() <= usize::MAX,
            *order == start + it.index(),
            want == leveled(all, level, start as int),
            rules@ == before + want.take(it.index() as int),
    {
        let ghost i = it.index() as int;
        proof {
            assert(want.take(i + 1) =~= want.take(i).push(want[i]));
            assert(before + want.take(i).push(want[i]) =~= (before + want.take(i)).push(want[i]));
        }
        rules.push(LeveledRule { level, order: *order, rule });
        *order += 1;
    }
    proof {
        assert(want.take(all.len() as int) =~= want);
    }
}

/// The cascade of the default, the author's and the render-time rules.
pub open spec fn cascade_of<R>(ua: Seq<R>, author: Seq<R>, node: Seq<R>) -> Seq<LeveledRule<R>> {
    leveled(ua, UA_LEVEL, 0) + leveled(author, AUTHOR_LEVEL, ua.len() as int) + leveled(
        node,
        NODE_LEVEL,
        (ua.len() + author.len()) as int,
    )
}

/// Build a cascade from parsed rules: the defaults, which are those of
/// [`UA_CSS`], then the author's, then those set on nodes while rendering.
pub fn build_cascade<R, T>(ua: Vec<R>, author: Vec<R>, node: Vec<R>, tokens: T) -> (r: Cascade<R, T>)
    requires
        ua@.len() + author@.len() + node@.len() <= usize::MAX,
    ensures
        r.rules@ == cascade_of(ua@, author@, node@),
        r.tokens == tokens,
{
    let mut rules: Vec<LeveledRule<R>> = Vec::new();
    let mut order: usize = 0;
    add_leveled(&mut rules, &mut order, UA_LEVEL, ua);
    add_leveled(&mut rules, &mut order, AUTHOR_LEVEL, author);
    add_leveled(&mut rules, &mut order, NODE_LEVEL, node);
    proof {
        assert(rules@ =~= cascade_of(ua@, author@, node@));
    }
    Cascade { rules, tokens }
}

/// The rules of a cascade are numbered one after another, and the defaults never
/// come after the author's rules, nor those after the rules set while rendering.
pub proof fn law_cascade_is_layered<R>(ua: Seq<R>, author: Seq<R>, node: Seq<R>)
    requires
        ua.len() + author.len() + node.len() <= usize::MAX,
    ensures
        ({
            let c = cascade_of(ua, author, node);
            &&& c.len() == ua.len() + author.len() + node.len()
            &&& forall|i: int| 0 <= i < c.len() ==> (#[trigger] c[i]).order == i
            &&& forall|i: int, j: int|
                0 <= i <= j < c.len() ==> (#[trigger] c[i]).level <= (#[trigger] c[j]).level
        }),
{
}

/// No rule of any stylesheet is lost, and each keeps its place among its own.
pub proof fn law_cascade_keeps_every_rule<R>(ua: Seq<R>, author: Seq<R>, node: Seq<R>)
    requires
        ua.len() + author.len() + node.len() <= usize::MAX,
    ensures
        cascade_of(ua, author, node).map_values(|l: LeveledRule<R>| l.rule) == ua + author + node,
{
    assert(cascade_of(ua, author, node).map_values(|l: LeveledRule<R>| l.rule) =~= ua + author
        + node);
}

/// A rule of the author outranks every default, and one set while rendering every rule of
/// the author, whatever their numbers.
pub proof fn law_levels_rise<R>(ua: Seq<R>, author: Seq<R>, node: Seq<R>, i: int, j: int, k: int)
    requires
        ua.len() + author.len() + node.len() <= usize::MAX,
        0 <= i < ua.len(),
        ua.len() <= j < ua.len() + author.len(),
        ua.len() + author.len() <= k < ua.len() + author.len() + node.len(),
    ensures
        cascade_of(ua, author, node)[i].level < cascade_of(ua, author, node)[j].level,
        cascade_of(ua, author, node)[j].level < cascade_of(ua, author, node)[k].level,
{
}

} // verus!
