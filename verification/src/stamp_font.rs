//! Transplanting a font between documents: everything that it refers to comes
//! along, under fresh numbers.

use vstd::prelude::*;

use crate::number::{clip, plus, scale, scaled};
use crate::pdf::{
    counts, distinct_keys, doc_of, entries_view, entry_view, get_object, keepable,
    lemma_parts, max_id, max_id_of, numbered_upto, obj_view, object_at, object_count, objects_of,
    objs_view, set_max_id, set_object, settled, well_keyed, Entry, EntryV, Obj, ObjV, ObjectId,
};

verus! {

// --------------------------------------------------------------------------
// what an object refers to
// --------------------------------------------------------------------------

/// Whether an object holds a reference to that number, however deep.
pub open spec fn mentions(o: ObjV, id: ObjectId) -> bool
    decreases o,
{
    match o {
        ObjV::Reference(r) => r == id,
        ObjV::Array(v) => exists|i: int| 0 <= i < v.len() && mentions(#[trigger] v[i], id),
        ObjV::Dictionary(v) => exists|i: int|
            0 <= i < v.len() && mentions((#[trigger] v[i]).value, id),
        ObjV::Stream(v, _, _) => exists|i: int|
            0 <= i < v.len() && mentions((#[trigger] v[i]).value, id),
        _ => false,
    }
}

/// The numbers seen once `id` has been visited: itself, then, where it resolves,
/// all that its object refers to, depth first. At most `fuel` visits lie inside
/// one another.
pub open spec fn visited(m: Map<ObjectId, ObjV>, id: ObjectId, seen: Seq<ObjectId>, fuel: nat) -> Seq<
    ObjectId,
>
    decreases fuel, 0int,
{
    if seen.contains(id) {
        seen
    } else {
        let s = seen.push(id);
        match object_at(m, id) {
            Some(o) => if fuel > 0 {
                visited_in(m, o, s, (fuel - 1) as nat)
            } else {
                s
            },
            None => s,
        }
    }
}

/// The numbers seen once everything that an object refers to has been visited.
pub open spec fn visited_in(m: Map<ObjectId, ObjV>, o: ObjV, seen: Seq<ObjectId>, fuel: nat) -> Seq<
    ObjectId,
>
    decreases fuel, 1int, o, 0int,
{
    match o {
        ObjV::Reference(id) => visited(m, id, seen, fuel),
        ObjV::Array(v) => visited_all(m, v, seen, fuel, v.len()),
        ObjV::Dictionary(v) => visited_entries(m, v, seen, fuel, v.len()),
        ObjV::Stream(v, _, _) => visited_entries(m, v, seen, fuel, v.len()),
        _ => seen,
    }
}

pub open spec fn visited_all(m: Map<ObjectId, ObjV>, v: Seq<ObjV>, seen: Seq<ObjectId>, fuel: nat, k: nat) -> Seq<
    ObjectId,
>
    decreases fuel, 1int, v, k,
{
    if k == 0 || k > v.len() {
        seen
    } else {
        visited_in(m, v[k - 1], visited_all(m, v, seen, fuel, (k - 1) as nat), fuel)
    }
}

pub open spec fn visited_entries(
    m: Map<ObjectId, ObjV>,
    v: Seq<EntryV>,
    seen: Seq<ObjectId>,
    fuel: nat,
    k: nat,
) -> Seq<ObjectId>
    decreases fuel, 1int, v, k,
{
    if k == 0 || k > v.len() {
        seen
    } else {
        visited_in(
            m,
            v[k - 1].value,
            visited_entries(m, v, seen, fuel, (k - 1) as nat),
            fuel,
        )
    }
}

fn is_seen(seen: &Vec<ObjectId>, id: ObjectId) -> (r: bool)
    ensures
        r == seen@.contains(id),
{
    let mut i: usize = 0;
    while i < seen.len()
        invariant
            i <= seen@.len(),
            forall|j: int| 0 <= j < i ==> seen@[j] != id,
        decreases seen@.len() - i,
    {
        if seen[i].0 == id.0 && seen[i].1 == id.1 {
            proof {
                assert(seen@[i as int] == id);
            }
            return true;
        }
        i += 1;
    }
    false
}

fn visit(mini: &lopdf::Document, id: ObjectId, seen: &mut Vec<ObjectId>, fuel: usize)
    ensures
        final(seen)@ == visited(objects_of(*mini), id, old(seen)@, fuel as nat),
    decreases fuel, 0int,
{
    if is_seen(seen, id) {
        return;
    }
    seen.push(id);
    if let Some(o) = get_object(mini, id) {
        if fuel > 0 {
            walk_references(mini, &o, seen, fuel - 1);
        }
    }
}

/// Visit everything that an object refers to, however deep it lies in arrays and
/// dictionaries.
fn walk_references(mini: &lopdf::Document, o: &Obj, seen: &mut Vec<ObjectId>, fuel: usize)
    ensures
        final(seen)@ == visited_in(objects_of(*mini), o@, old(seen)@, fuel as nat),
    decreases fuel, 1int, o, 0int,
{
    proof {
        lemma_parts(*o);
    }
    match o {
        Obj::Reference(id) => visit(mini, *id, seen, fuel),
        Obj::Array(v) => walk_all(mini, v, seen, fuel),
        Obj::Dictionary(v) => walk_entries(mini, v, seen, fuel),
        Obj::Stream(v, _, _) => walk_entries(mini, v, seen, fuel),
        _ => {},
    }
}

fn walk_all(mini: &lopdf::Document, v: &Vec<Obj>, seen: &mut Vec<ObjectId>, fuel: usize)
    ensures
        final(seen)@ == visited_all(
            objects_of(*mini),
            objs_view(v@),
            old(seen)@,
            fuel as nat,
            v@.len(),
        ),
    decreases fuel, 1int, v, 0int,
{
    let ghost ov = objs_view(v@);
    let ghost start = seen@;
    let mut k: usize = 0;
    while k < v.len()
        invariant
            k <= v@.len(),
            ov == objs_view(v@),
            start == old(seen)@,
            seen@ == visited_all(objects_of(*mini), ov, start, fuel as nat, k as nat),
        decreases v@.len() - k,
    {
        proof {
            assert(ov[k as int] == obj_view(v@[k as int]));
        }
        walk_references(mini, &v[k], seen, fuel);
        k += 1;
    }
}

fn walk_entries(mini: &lopdf::Document, v: &Vec<Entry>, seen: &mut Vec<ObjectId>, fuel: usize)
    ensures
        final(seen)@ == visited_entries(
            objects_of(*mini),
            entries_view(v@),
            old(seen)@,
            fuel as nat,
            v@.len(),
        ),
    decreases fuel, 1int, v, 0int,
{
    let ghost ev = entries_view(v@);
    let ghost start = seen@;
    let mut k: usize = 0;
    while k < v.len()
        invariant
            k <= v@.len(),
            ev == entries_view(v@),
            start == old(seen)@,
            seen@ == visited_entries(objects_of(*mini), ev, start, fuel as nat, k as nat),
        decreases v@.len() - k,
    {
        proof {
            assert(ev[k as int] == entry_view(v@[k as int]));
        }
        walk_references(mini, &v[k].value, seen, fuel);
        k += 1;
    }
}

/// Visit a number and all that it leads to, past the numbers already seen.
pub fn walk_closure(mini: &lopdf::Document, id: ObjectId, seen: &mut Vec<ObjectId>)
    ensures
        final(seen)@ == visited(
            objects_of(*mini),
            id,
            old(seen)@,
            objects_of(*mini).dom().len(),
        ),
        objects_of(*mini).dom().finite(),
{
    let n: usize = object_count(mini);
    visit(mini, id, seen, n);
}

/// Every number that a root leads to, the root first, each once.
pub open spec fn closure_of(m: Map<ObjectId, ObjV>, root: ObjectId) -> Seq<ObjectId> {
    visited(m, root, Seq::empty(), m.dom().len())
}

/// Every number that a root leads to, the root first, each once.
pub fn font_closure(mini: &lopdf::Document, root: ObjectId) -> (r: Vec<ObjectId>)
    ensures
        r@ == closure_of(objects_of(*mini), root),
        objects_of(*mini).dom().finite(),
{
    let mut ids: Vec<ObjectId> = Vec::new();
    walk_closure(mini, root, &mut ids);
    ids
}

// --------------------------------------------------------------------------
// laws of the closure
// --------------------------------------------------------------------------

/// Whether `r` goes on from `seen` without repeating anything.
pub open spec fn extends(r: Seq<ObjectId>, seen: Seq<ObjectId>) -> bool {
    &&& seen.len() <= r.len()
    &&& r.take(seen.len() as int) == seen
    &&& r.no_duplicates()
}

/// Whether `r` holds all that the objects it holds beyond `seen` refer to.
pub open spec fn closed_beyond(m: Map<ObjectId, ObjV>, r: Seq<ObjectId>, seen: Seq<ObjectId>) -> bool {
    forall|x: ObjectId, id: ObjectId|
        #![trigger r.contains(x), r.contains(id)]
        r.contains(x) && !seen.contains(x) && object_at(m, x) is Some && mentions(
            object_at(m, x)->0,
            id,
        ) ==> r.contains(id)
}

/// The resolvable numbers not yet seen.
pub open spec fn unseen(m: Map<ObjectId, ObjV>, seen: Seq<ObjectId>) -> Set<ObjectId> {
    m.dom().difference(seen.to_set())
}

proof fn lemma_extends_trans(a: Seq<ObjectId>, b: Seq<ObjectId>, c: Seq<ObjectId>)
    requires
        extends(b, a),
        extends(c, b),
    ensures
        extends(c, a),
        forall|x: ObjectId| a.contains(x) ==> c.contains(x),
        forall|x: ObjectId| b.contains(x) ==> c.contains(x),
{
    assert(c.take(a.len() as int) =~= c.take(b.len() as int).take(a.len() as int));
    assert forall|x: ObjectId| b.contains(x) implies c.contains(x) by {
        let i = choose|i: int| 0 <= i < b.len() && b[i] == x;
        assert(c.take(b.len() as int)[i] == x);
        assert(c[i] == x);
    }
    assert forall|x: ObjectId| a.contains(x) implies c.contains(x) by {
        let i = choose|i: int| 0 <= i < a.len() && a[i] == x;
        assert(b.take(a.len() as int)[i] == x);
        assert(b[i] == x);
        assert(b.contains(x));
    }
}

proof fn lemma_closed_trans(m: Map<ObjectId, ObjV>, a: Seq<ObjectId>, b: Seq<ObjectId>, c: Seq<ObjectId>)
    requires
        extends(b, a),
        extends(c, b),
        closed_beyond(m, b, a),
        closed_beyond(m, c, b),
    ensures
        closed_beyond(m, c, a),
{
    lemma_extends_trans(a, b, c);
    assert forall|x: ObjectId, id: ObjectId|
        #![trigger c.contains(x), c.contains(id)]
        c.contains(x) && !a.contains(x) && object_at(m, x) is Some && mentions(
            object_at(m, x)->0,
            id,
        ) implies c.contains(id) by {
        if b.contains(x) {
            assert(b.contains(id));
        }
    }
}

proof fn lemma_unseen_shrinks(m: Map<ObjectId, ObjV>, a: Seq<ObjectId>, b: Seq<ObjectId>)
    requires
        m.dom().finite(),
        extends(b, a),
    ensures
        unseen(m, b).len() <= unseen(m, a).len(),
        unseen(m, a).finite(),
        unseen(m, b).finite(),
{
    lemma_self_extends(b);
    lemma_extends_trans(a, b, b);
    assert(unseen(m, b).subset_of(unseen(m, a))) by {
        assert forall|x: ObjectId| unseen(m, b).contains(x) implies unseen(m, a).contains(x) by {
            if a.contains(x) {
                assert(b.contains(x));
            }
        }
    }
    vstd::set_lib::lemma_len_subset(unseen(m, b), unseen(m, a));
}

proof fn lemma_self_extends(a: Seq<ObjectId>)
    requires
        a.no_duplicates(),
    ensures
        extends(a, a),
{
    assert(a.take(a.len() as int) =~= a);
}

proof fn lemma_visited(m: Map<ObjectId, ObjV>, id: ObjectId, seen: Seq<ObjectId>, fuel: nat)
    requires
        m.dom().finite(),
        seen.no_duplicates(),
        unseen(m, seen).len() <= fuel,
    ensures
        ({
            let r = visited(m, id, seen, fuel);
            extends(r, seen) && closed_beyond(m, r, seen) && r.contains(id)
        }),
    decreases fuel, 0int,
{
    let r = visited(m, id, seen, fuel);
    if seen.contains(id) {
        lemma_self_extends(seen);
    } else {
        let s = seen.push(id);
        assert(s.no_duplicates());
        assert(s.take(seen.len() as int) =~= seen);
        assert(s.last() == id);
        assert(extends(s, seen));
        lemma_unseen_shrinks(m, seen, s);
        match object_at(m, id) {
            Some(o) => {
                assert(m.dom().contains(id));
                assert(unseen(m, seen).contains(id));
                assert(unseen(m, s) =~= unseen(m, seen).remove(id)) by {
                    assert forall|x: ObjectId| unseen(m, s).contains(x) == unseen(
                        m,
                        seen,
                    ).remove(id).contains(x) by {
                        if s.contains(x) && x != id {
                            let i = choose|i: int| 0 <= i < s.len() && s[i] == x;
                            assert(seen[i] == x);
                        }
                        if seen.contains(x) {
                            let i = choose|i: int| 0 <= i < seen.len() && seen[i] == x;
                            assert(s[i] == x);
                        }
                    }
                }
                assert(fuel > 0);
                lemma_visited_in(m, o, s, (fuel - 1) as nat);
                lemma_extends_trans(seen, s, r);
                assert forall|x: ObjectId, y: ObjectId|
                    #![trigger r.contains(x), r.contains(y)]
                    r.contains(x) && !seen.contains(x) && object_at(m, x) is Some && mentions(
                        object_at(m, x)->0,
                        y,
                    ) implies r.contains(y) by {
                    if x != id {
                        if s.contains(x) {
                            let i = choose|i: int| 0 <= i < s.len() && s[i] == x;
                            assert(seen[i] == x);
                        }
                    }
                }
                assert(s.contains(id));
            },
            None => {
                assert forall|x: ObjectId, y: ObjectId|
                    #![trigger r.contains(x), r.contains(y)]
                    r.contains(x) && !seen.contains(x) && object_at(m, x) is Some && mentions(
                        object_at(m, x)->0,
                        y,
                    ) implies r.contains(y) by {
                    let i = choose|i: int| 0 <= i < s.len() && s[i] == x;
                    if i < seen.len() {
                        assert(seen[i] == x);
                    }
                }
            },
        }
    }
}

proof fn lemma_visited_in(m: Map<ObjectId, ObjV>, o: ObjV, seen: Seq<ObjectId>, fuel: nat)
    requires
        m.dom().finite(),
        seen.no_duplicates(),
        unseen(m, seen).len() <= fuel,
    ensures
        ({
            let r = visited_in(m, o, seen, fuel);
            &&& extends(r, seen)
            &&& closed_beyond(m, r, seen)
            &&& forall|id: ObjectId| mentions(o, id) ==> r.contains(id)
        }),
    decreases fuel, 1int, o, 0int,
{
    match o {
        ObjV::Reference(id) => {
            lemma_visited(m, id, seen, fuel);
        },
        ObjV::Array(v) => {
            lemma_visited_all(m, v, seen, fuel, v.len());
        },
        ObjV::Dictionary(v) => {
            lemma_visited_entries(m, v, seen, fuel, v.len());
        },
        ObjV::Stream(v, _, _) => {
            lemma_visited_entries(m, v, seen, fuel, v.len());
        },
        _ => {
            lemma_self_extends(seen);
        },
    }
}

proof fn lemma_visited_all(m: Map<ObjectId, ObjV>, v: Seq<ObjV>, seen: Seq<ObjectId>, fuel: nat, k: nat)
    requires
        m.dom().finite(),
        seen.no_duplicates(),
        unseen(m, seen).len() <= fuel,
        k <= v.len(),
    ensures
        ({
            let r = visited_all(m, v, seen, fuel, k);
            &&& extends(r, seen)
            &&& closed_beyond(m, r, seen)
            &&& forall|i: int, id: ObjectId|
                0 <= i < k && mentions(#[trigger] v[i], id) ==> #[trigger] r.contains(id)
        }),
    decreases fuel, 1int, v, k,
{
    if k == 0 {
        lemma_self_extends(seen);
    } else {
        lemma_visited_all(m, v, seen, fuel, (k - 1) as nat);
        let s = visited_all(m, v, seen, fuel, (k - 1) as nat);
        lemma_unseen_shrinks(m, seen, s);
        lemma_visited_in(m, v[k - 1], s, fuel);
        let r = visited_all(m, v, seen, fuel, k);
        lemma_extends_trans(seen, s, r);
        lemma_closed_trans(m, seen, s, r);
    }
}

proof fn lemma_visited_entries(
    m: Map<ObjectId, ObjV>,
    v: Seq<EntryV>,
    seen: Seq<ObjectId>,
    fuel: nat,
    k: nat,
)
    requires
        m.dom().finite(),
        seen.no_duplicates(),
        unseen(m, seen).len() <= fuel,
        k <= v.len(),
    ensures
        ({
            let r = visited_entries(m, v, seen, fuel, k);
            &&& extends(r, seen)
            &&& closed_beyond(m, r, seen)
            &&& forall|i: int, id: ObjectId|
                0 <= i < k && mentions((#[trigger] v[i]).value, id) ==> #[trigger] r.contains(id)
        }),
    decreases fuel, 1int, v, k,
{
    if k == 0 {
        lemma_self_extends(seen);
    } else {
        lemma_visited_entries(m, v, seen, fuel, (k - 1) as nat);
        let s = visited_entries(m, v, seen, fuel, (k - 1) as nat);
        lemma_unseen_shrinks(m, seen, s);
        lemma_visited_in(m, v[k - 1].value, s, fuel);
        let r = visited_entries(m, v, seen, fuel, k);
        lemma_extends_trans(seen, s, r);
        lemma_closed_trans(m, seen, s, r);
    }
}

/// A closure names nothing twice, starts with its root, and holds everything that
/// the objects it names refer to.
pub proof fn law_closure_is_closed(m: Map<ObjectId, ObjV>, root: ObjectId, fuel: nat)
    requires
        m.dom().finite(),
        m.dom().len() <= fuel,
    ensures
        ({
            let r = visited(m, root, Seq::empty(), fuel);
            &&& r.no_duplicates()
            &&& r.len() > 0 && r[0] == root
            &&& forall|x: ObjectId, id: ObjectId|
                #![trigger r.contains(x), r.contains(id)]
                r.contains(x) && object_at(m, x) is Some && mentions(object_at(m, x)->0, id)
                    ==> r.contains(id)
        }),
{
    let e = Seq::<ObjectId>::empty();
    assert(unseen(m, e) =~= m.dom());
    lemma_visited(m, root, e, fuel);
    let s = e.push(root);
    assert(s =~= seq![root]);
    if let Some(o) = object_at(m, root) {
        if fuel > 0 {
            assert(unseen(m, s).len() <= fuel - 1) by {
                assert(unseen(m, s) =~= m.dom().remove(root)) by {
                    assert(s[0] == root);
                    assert forall|x: ObjectId| s.contains(x) == (x == root) by {}
                }
            }
            lemma_visited_in(m, o, s, (fuel - 1) as nat);
            let r = visited_in(m, o, s, (fuel - 1) as nat);
            assert(r.take(1)[0] == root);
        }
    }
}

/// Whether the object of `a` refers to `b`.
pub open spec fn leads(m: Map<ObjectId, ObjV>, a: ObjectId, b: ObjectId) -> bool {
    object_at(m, a) is Some && mentions(object_at(m, a)->0, b)
}

/// Whether `b` can be reached from `a` over `n` references.
pub open spec fn reaches(m: Map<ObjectId, ObjV>, a: ObjectId, b: ObjectId, n: nat) -> bool
    decreases n,
{
    if n == 0 {
        a == b
    } else {
        exists|c: ObjectId| #[trigger] leads(m, a, c) && reaches(m, c, b, (n - 1) as nat)
    }
}

proof fn lemma_sound(m: Map<ObjectId, ObjV>, id: ObjectId, seen: Seq<ObjectId>, fuel: nat, x: ObjectId)
    requires
        visited(m, id, seen, fuel).contains(x),
        !seen.contains(x),
    ensures
        exists|n: nat| reaches(m, id, x, n),
    decreases fuel, 0int,
{
    let s = seen.push(id);
    if s.contains(x) {
        let i = choose|i: int| 0 <= i < s.len() && s[i] == x;
        if i < seen.len() {
            assert(seen[i] == x);
        }
        assert(reaches(m, id, x, 0));
    } else {
        let o = object_at(m, id)->0;
        let c = lemma_sound_in(m, o, s, (fuel - 1) as nat, x);
        let n = choose|n: nat| reaches(m, c, x, n);
        let k: nat = n + 1;
        assert(leads(m, id, c) && reaches(m, c, x, (k - 1) as nat));
        assert(reaches(m, id, x, k));
    }
}

proof fn lemma_sound_in(m: Map<ObjectId, ObjV>, o: ObjV, seen: Seq<ObjectId>, fuel: nat, x: ObjectId) -> (c:
    ObjectId)
    requires
        visited_in(m, o, seen, fuel).contains(x),
        !seen.contains(x),
    ensures
        mentions(o, c),
        exists|n: nat| reaches(m, c, x, n),
    decreases fuel, 1int, o, 0int,
{
    match o {
        ObjV::Reference(id) => {
            lemma_sound(m, id, seen, fuel, x);
            id
        },
        ObjV::Array(v) => lemma_sound_all(m, v, seen, fuel, v.len(), x).0,
        ObjV::Dictionary(v) => lemma_sound_entries(m, v, seen, fuel, v.len(), x).0,
        ObjV::Stream(v, _, _) => lemma_sound_entries(m, v, seen, fuel, v.len(), x).0,
        _ => x,
    }
}

proof fn lemma_sound_all(
    m: Map<ObjectId, ObjV>,
    v: Seq<ObjV>,
    seen: Seq<ObjectId>,
    fuel: nat,
    k: nat,
    x: ObjectId,
) -> (c: (ObjectId, int))
    requires
        visited_all(m, v, seen, fuel, k).contains(x),
        !seen.contains(x),
    ensures
        0 <= c.1 < v.len(),
        mentions(v[c.1], c.0),
        exists|n: nat| reaches(m, c.0, x, n),
    decreases fuel, 1int, v, k,
{
    let s = visited_all(m, v, seen, fuel, (k - 1) as nat);
    if s.contains(x) {
        lemma_sound_all(m, v, seen, fuel, (k - 1) as nat, x)
    } else {
        (lemma_sound_in(m, v[k - 1], s, fuel, x), k - 1)
    }
}

proof fn lemma_sound_entries(
    m: Map<ObjectId, ObjV>,
    v: Seq<EntryV>,
    seen: Seq<ObjectId>,
    fuel: nat,
    k: nat,
    x: ObjectId,
) -> (c: (ObjectId, int))
    requires
        visited_entries(m, v, seen, fuel, k).contains(x),
        !seen.contains(x),
    ensures
        0 <= c.1 < v.len(),
        mentions(v[c.1].value, c.0),
        exists|n: nat| reaches(m, c.0, x, n),
    decreases fuel, 1int, v, k,
{
    let s = visited_entries(m, v, seen, fuel, (k - 1) as nat);
    if s.contains(x) {
        lemma_sound_entries(m, v, seen, fuel, (k - 1) as nat, x)
    } else {
        (lemma_sound_in(m, v[k - 1].value, s, fuel, x), k - 1)
    }
}

/// A closure names nothing that its root does not lead to.
pub proof fn law_closure_is_reachable(m: Map<ObjectId, ObjV>, root: ObjectId, fuel: nat, x: ObjectId)
    requires
        visited(m, root, Seq::empty(), fuel).contains(x),
    ensures
        exists|n: nat| reaches(m, root, x, n),
{
    lemma_sound(m, root, Seq::empty(), fuel, x);
}

// --------------------------------------------------------------------------
// transplanting
// --------------------------------------------------------------------------

/// The fresh number of the `i`th transplanted object.
pub open spec fn fresh(max_id: u32, i: int) -> ObjectId {
    ((max_id + 1 + i) as u32, 0)
}

/// The number that a reference has after the transplant.
pub open spec fn renumbered(id: ObjectId, ids: Seq<ObjectId>, max_id: u32) -> ObjectId {
    if ids.contains(id) {
        fresh(max_id, ids.index_of(id))
    } else {
        id
    }
}

/// An object with every reference renumbered.
pub open spec fn rewritten(o: ObjV, ids: Seq<ObjectId>, max_id: u32) -> ObjV
    decreases o,
{
    match o {
        ObjV::Reference(id) => ObjV::Reference(renumbered(id, ids, max_id)),
        ObjV::Array(v) => ObjV::Array(
            Seq::new(
                v.len(),
                |i: int|
                    if 0 <= i < v.len() {
                        rewritten(v[i], ids, max_id)
                    } else {
                        arbitrary()
                    },
            ),
        ),
        ObjV::Dictionary(v) => ObjV::Dictionary(
            Seq::new(
                v.len(),
                |i: int|
                    if 0 <= i < v.len() {
                        EntryV { key: v[i].key, value: rewritten(v[i].value, ids, max_id) }
                    } else {
                        arbitrary()
                    },
            ),
        ),
        ObjV::Stream(v, c, z) => ObjV::Stream(
            Seq::new(
                v.len(),
                |i: int|
                    if 0 <= i < v.len() {
                        EntryV { key: v[i].key, value: rewritten(v[i].value, ids, max_id) }
                    } else {
                        arbitrary()
                    },
            ),
            c,
            z,
        ),
        _ => o,
    }
}

fn rewrite_reference(id: ObjectId, ids: &Vec<ObjectId>, max_id: u32) -> (r: ObjectId)
    requires
        ids@.no_duplicates(),
        max_id + ids@.len() <= u32::MAX,
    ensures
        r == renumbered(id, ids@, max_id),
{
    let mut i: usize = 0;
    while i < ids.len()
        invariant
            i <= ids@.len(),
            ids@.no_duplicates(),
            max_id + ids@.len() <= u32::MAX,
            forall|j: int| 0 <= j < i ==> ids@[j] != id,
        decreases ids@.len() - i,
    {
        if ids[i].0 == id.0 && ids[i].1 == id.1 {
            proof {
                assert(ids@[i as int] == id);
                assert(ids@.contains(id));
                let k = ids@.index_of(id);
                assert(ids@[k] == id);
            }
            return (max_id + 1 + i as u32, 0);
        }
        i += 1;
    }
    id
}

fn copy_bytes(v: &Vec<u8>) -> (r: Vec<u8>)
    ensures
        r@ == v@,
{
    let mut out: Vec<u8> = Vec::new();
    let mut i: usize = 0;
    while i < v.len()
        invariant
            i <= v@.len(),
            out@ == v@.take(i as int),
        decreases v@.len() - i,
    {
        out.push(v[i]);
        proof {
            assert(out@ =~= v@.take(i as int + 1));
        }
        i += 1;
    }
    proof {
        assert(v@.take(i as int) =~= v@);
    }
    out
}

/// A copy of an object with every reference renumbered.
pub fn rewrite_references(o: &Obj, ids: &Vec<ObjectId>, max_id: u32) -> (r: Obj)
    requires
        ids@.no_duplicates(),
        max_id + ids@.len() <= u32::MAX,
    ensures
        r@ == rewritten(o@, ids@, max_id),
    decreases o, 1int,
{
    proof {
        lemma_parts(*o);
    }
    let r = match o {
        Obj::Reference(id) => Obj::Reference(rewrite_reference(*id, ids, max_id)),
        Obj::Array(v) => Obj::Array(rewrite_array(v, ids, max_id)),
        Obj::Dictionary(v) => Obj::Dictionary(rewrite_dict(v, ids, max_id)),
        Obj::Stream(v, c, z) => Obj::Stream(rewrite_dict(v, ids, max_id), copy_bytes(c), *z),
        Obj::Null => Obj::Null,
        Obj::Boolean(b) => Obj::Boolean(*b),
        Obj::Integer(i) => Obj::Integer(*i),
        Obj::Real(t) => Obj::Real(t.clone()),
        Obj::Name(n) => Obj::Name(copy_bytes(n)),
        Obj::Text(t, hex) => Obj::Text(copy_bytes(t), *hex),
    };
    proof {
        lemma_parts(r);
        match o@ {
            ObjV::Array(v) => {
                assert(r@->Array_0 =~= rewritten(o@, ids@, max_id)->Array_0);
            },
            ObjV::Dictionary(v) => {
                assert(r@->Dictionary_0 =~= rewritten(o@, ids@, max_id)->Dictionary_0);
            },
            ObjV::Stream(v, c, z) => {
                assert(r@->Stream_0 =~= rewritten(o@, ids@, max_id)->Stream_0);
            },
            _ => {},
        }
    }
    r
}

fn rewrite_array(v: &Vec<Obj>, ids: &Vec<ObjectId>, max_id: u32) -> (r: Vec<Obj>)
    requires
        ids@.no_duplicates(),
        max_id + ids@.len() <= u32::MAX,
    ensures
        r@.len() == v@.len(),
        forall|i: int|
            0 <= i < r@.len() ==> obj_view(#[trigger] r@[i]) == rewritten(
                obj_view(v@[i]),
                ids@,
                max_id,
            ),
    decreases v, 0int,
{
    let mut out: Vec<Obj> = Vec::new();
    let mut k: usize = 0;
    while k < v.len()
        invariant
            k <= v@.len(),
            ids@.no_duplicates(),
            max_id + ids@.len() <= u32::MAX,
            out@.len() == k,
            forall|i: int|
                0 <= i < k ==> obj_view(#[trigger] out@[i]) == rewritten(
                    obj_view(v@[i]),
                    ids@,
                    max_id,
                ),
        decreases v@.len() - k,
    {
        let o = rewrite_references(&v[k], ids, max_id);
        out.push(o);
        k += 1;
    }
    out
}

fn rewrite_dict(v: &Vec<Entry>, ids: &Vec<ObjectId>, max_id: u32) -> (r: Vec<Entry>)
    requires
        ids@.no_duplicates(),
        max_id + ids@.len() <= u32::MAX,
    ensures
        r@.len() == v@.len(),
        forall|i: int|
            0 <= i < r@.len() ==> (#[trigger] r@[i]).key@ == v@[i].key@ && obj_view(r@[i].value)
                == rewritten(obj_view(v@[i].value), ids@, max_id),
    decreases v, 0int,
{
    let mut out: Vec<Entry> = Vec::new();
    let mut k: usize = 0;
    while k < v.len()
        invariant
            k <= v@.len(),
            ids@.no_duplicates(),
            max_id + ids@.len() <= u32::MAX,
            out@.len() == k,
            forall|i: int|
                0 <= i < k ==> (#[trigger] out@[i]).key@ == v@[i].key@ && obj_view(out@[i].value)
                    == rewritten(obj_view(v@[i].value), ids@, max_id),
        decreases v@.len() - k,
    {
        let value = rewrite_references(&v[k].value, ids, max_id);
        out.push(Entry { key: copy_bytes(&v[k].key), value });
        k += 1;
    }
    out
}

/// The objects with the first `k` of `ids` transplanted from `mini`.
pub open spec fn grafted(
    m: Map<ObjectId, ObjV>,
    mini: Map<ObjectId, ObjV>,
    ids: Seq<ObjectId>,
    max_id: u32,
    k: nat,
) -> Map<ObjectId, ObjV>
    decreases k,
{
    if k == 0 || k > ids.len() {
        m
    } else {
        grafted(m, mini, ids, max_id, (k - 1) as nat).insert(
            fresh(max_id, k - 1),
            rewritten(object_at(mini, ids[k - 1])->0, ids, max_id),
        )
    }
}

/// Whether a transplant can be made: everything referred to is there, and there are
/// numbers enough.
pub open spec fn graftable(mini: Map<ObjectId, ObjV>, ids: Seq<ObjectId>, max_id: u32) -> bool {
    &&& max_id + ids.len() <= u32::MAX
    &&& forall|i: int| 0 <= i < ids.len() ==> object_at(mini, #[trigger] ids[i]) is Some
}

/// Renumbering leaves an object as fit to be kept as it was.
proof fn lemma_rewritten_keepable(o: ObjV, ids: Seq<ObjectId>, max_id: u32)
    requires
        keepable(o),
    ensures
        keepable(rewritten(o, ids, max_id)),
    decreases o,
{
    let r = rewritten(o, ids, max_id);
    match o {
        ObjV::Array(v) => {
            let w = r->Array_0;
            assert forall|i: int| 0 <= i < w.len() implies settled(#[trigger] w[i]) && well_keyed(
                w[i],
            ) by {
                assert(settled(v[i]) && well_keyed(v[i]));
                lemma_rewritten_keepable(v[i], ids, max_id);
            }
        },
        ObjV::Dictionary(v) => {
            lemma_rewritten_entries(v, r->Dictionary_0, ids, max_id);
        },
        ObjV::Stream(v, _, _) => {
            lemma_rewritten_entries(v, r->Stream_0, ids, max_id);
        },
        _ => {},
    }
}

proof fn lemma_rewritten_entries(v: Seq<EntryV>, w: Seq<EntryV>, ids: Seq<ObjectId>, max_id: u32)
    requires
        distinct_keys(v),
        forall|i: int| 0 <= i < v.len() ==> settled((#[trigger] v[i]).value) && well_keyed(v[i].value),
        w.len() == v.len(),
        forall|i: int|
            0 <= i < v.len() ==> (#[trigger] w[i]).key == v[i].key && w[i].value == rewritten(
                v[i].value,
                ids,
                max_id,
            ),
    ensures
        distinct_keys(w),
        forall|i: int| 0 <= i < w.len() ==> settled((#[trigger] w[i]).value) && well_keyed(w[i].value),
    decreases v,
{
    assert forall|i: int, j: int| 0 <= i < j < w.len() implies (#[trigger] w[i]).key != (
    #[trigger] w[j]).key by {
        assert(v[i].key != v[j].key);
    }
    assert forall|i: int| 0 <= i < w.len() implies settled((#[trigger] w[i]).value) && well_keyed(
        w[i].value,
    ) by {
        assert(settled(v[i].value));
        lemma_rewritten_keepable(v[i].value, ids, max_id);
    }
}

proof fn lemma_grafted_dom(
    m: Map<ObjectId, ObjV>,
    mini: Map<ObjectId, ObjV>,
    ids: Seq<ObjectId>,
    max_id: u32,
    k: nat,
)
    requires
        k <= ids.len(),
        max_id + ids.len() <= u32::MAX,
        numbered_upto(m, max_id),
    ensures
        forall|id: ObjectId| #[trigger]
            grafted(m, mini, ids, max_id, k).contains_key(id) ==> id.0 <= max_id + k,
        forall|id: ObjectId| #[trigger]
            m.contains_key(id) ==> grafted(m, mini, ids, max_id, k).contains_key(id) && grafted(
                m,
                mini,
                ids,
                max_id,
                k,
            )[id] == m[id],
    decreases k,
{
    if k > 0 {
        lemma_grafted_dom(m, mini, ids, max_id, (k - 1) as nat);
        let before = grafted(m, mini, ids, max_id, (k - 1) as nat);
        assert forall|id: ObjectId| #[trigger]
            grafted(m, mini, ids, max_id, k).contains_key(id) implies id.0 <= max_id + k by {
            if id != fresh(max_id, k - 1) {
                assert(before.contains_key(id));
            }
        }
    }
}

/// Where no object has a number above those given out, a transplant leaves every
/// object of the document as it was, and everything it adds has a number above
/// those.
pub proof fn law_transplant_only_adds(
    m: Map<ObjectId, ObjV>,
    mini: Map<ObjectId, ObjV>,
    ids: Seq<ObjectId>,
    max_id: u32,
)
    requires
        graftable(mini, ids, max_id),
        numbered_upto(m, max_id),
    ensures
        ({
            let r = grafted(m, mini, ids, max_id, ids.len());
            &&& forall|id: ObjectId| #[trigger] m.contains_key(id) ==> r.contains_key(id) && r[id]
                == m[id]
            &&& forall|id: ObjectId| #[trigger]
                r.contains_key(id) && !m.contains_key(id) ==> max_id < id.0 <= max_id + ids.len()
        }),
{
    lemma_grafted_dom(m, mini, ids, max_id, ids.len());
    lemma_grafted_above(m, mini, ids, max_id, ids.len());
}

proof fn lemma_grafted_above(
    m: Map<ObjectId, ObjV>,
    mini: Map<ObjectId, ObjV>,
    ids: Seq<ObjectId>,
    max_id: u32,
    k: nat,
)
    requires
        k <= ids.len(),
        max_id + ids.len() <= u32::MAX,
    ensures
        forall|id: ObjectId| #[trigger]
            grafted(m, mini, ids, max_id, k).contains_key(id) && !m.contains_key(id) ==> max_id
                < id.0 <= max_id + k,
    decreases k,
{
    if k > 0 {
        lemma_grafted_above(m, mini, ids, max_id, (k - 1) as nat);
        let before = grafted(m, mini, ids, max_id, (k - 1) as nat);
        assert forall|id: ObjectId| #[trigger]
            grafted(m, mini, ids, max_id, k).contains_key(id) && !m.contains_key(id) implies max_id
            < id.0 <= max_id + k by {
            if id != fresh(max_id, k - 1) {
                assert(before.contains_key(id));
            }
        }
    }
}

/// Copy all that `root` leads to in `mini` into `doc`, under fresh numbers in the
/// order of the closure, every reference among them renumbered. The new number of
/// `root`; `None`, and nothing copied, where a reference leads nowhere or there are
/// no numbers left.
pub fn transplant_font_closure(doc: &mut lopdf::Document, mini: &lopdf::Document, root: ObjectId) -> (r:
    Option<ObjectId>)
    ensures
        ({
            let ids = closure_of(objects_of(*mini), root);
            let max = max_id_of(*old(doc));
            if graftable(objects_of(*mini), ids, max) {
                &&& r == Some(fresh(max, 0))
                &&& objects_of(*final(doc)) == grafted(
                    objects_of(*old(doc)),
                    objects_of(*mini),
                    ids,
                    max,
                    ids.len(),
                )
                &&& max_id_of(*final(doc)) == max + ids.len()
            } else {
                r is None && doc_of(*final(doc)) == doc_of(*old(doc))
            }
        }),
{
    let ids = font_closure(mini, root);
    let max: u32 = max_id(doc);
    let count: usize = ids.len();
    if count as u64 > (u32::MAX - max) as u64 {
        return None;
    }
    let ghost start = objects_of(*doc);
    let ghost source = objects_of(*mini);
    proof {
        lemma_closure_shape(mini, root);
    }
    let mut i: usize = 0;
    while i < ids.len()
        invariant
            i <= ids@.len(),
            source == objects_of(*mini),
            forall|j: int| 0 <= j < i ==> object_at(source, #[trigger] ids@[j]) is Some,
            ids@ == closure_of(source, root),
            doc_of(*doc) == doc_of(*old(doc)),
            max == max_id_of(*old(doc)),
        decreases ids@.len() - i,
    {
        if get_object(mini, ids[i]).is_none() {
            proof {
                assert(object_at(source, ids@[i as int]) is None);
            }
            return None;
        }
        i += 1;
    }
    let mut k: usize = 0;
    while k < ids.len()
        invariant
            k <= ids@.len(),
            ids@.no_duplicates(),
            source == objects_of(*mini),
            max + ids@.len() <= u32::MAX,
            max_id_of(*doc) == max,
            forall|j: int| 0 <= j < ids@.len() ==> object_at(source, #[trigger] ids@[j]) is Some,
            objects_of(*doc) == grafted(start, source, ids@, max, k as nat),
        decreases ids@.len() - k,
    {
        let id: ObjectId = (max + 1 + k as u32, 0);
        if let Some(o) = get_object(mini, ids[k]) {
            let copy = rewrite_references(&o, &ids, max);
            proof {
                lemma_rewritten_keepable(o@, ids@, max);
            }
            set_object(doc, id, &copy);
        }
        k += 1;
    }
    set_max_id(doc, max + ids.len() as u32);
    Some((max + 1, 0))
}

proof fn lemma_closure_shape(mini: &lopdf::Document, root: ObjectId)
    requires
        counts(objects_of(*mini), objects_of(*mini).dom().len()),
    ensures
        closure_of(objects_of(*mini), root).no_duplicates(),
        closure_of(objects_of(*mini), root).len() > 0,
{
    law_closure_is_closed(objects_of(*mini), root, objects_of(*mini).dom().len());
}

// --------------------------------------------------------------------------
// showing text
// --------------------------------------------------------------------------

/// Glyph ids as two bytes each, high byte first.
pub open spec fn codes_of(ids: Seq<u16>) -> Seq<u8>
    decreases ids.len(),
{
    if ids.len() == 0 {
        Seq::empty()
    } else {
        codes_of(ids.drop_last()).push((ids.last() / 256) as u8).push((ids.last() % 256) as u8)
    }
}

/// The codes that show glyphs of an embedded font, given by their ids in it.
pub fn remapped_codes(ids: &Vec<u16>) -> (r: Vec<u8>)
    ensures
        r@ == codes_of(ids@),
        r@.len() == 2 * ids@.len(),
{
    let mut out: Vec<u8> = Vec::new();
    let mut i: usize = 0;
    proof {
        assert(ids@.take(0) =~= Seq::empty());
    }
    while i < ids.len()
        invariant
            i <= ids@.len(),
            out@ == codes_of(ids@.take(i as int)),
            out@.len() == 2 * i,
        decreases ids@.len() - i,
    {
        let g: u16 = ids[i];
        out.push((g / 256) as u8);
        out.push((g % 256) as u8);
        proof {
            assert(ids@.take(i as int + 1).drop_last() =~= ids@.take(i as int));
        }
        i += 1;
    }
    proof {
        assert(ids@.take(i as int) =~= ids@);
    }
    out
}

/// The sum of advances, in design units.
pub open spec fn total_advance(v: Seq<i64>) -> int
    decreases v.len(),
{
    if v.len() == 0 {
        0
    } else {
        clip(total_advance(v.drop_last()) + v.last())
    }
}

/// The width in points of advances at a size in px.
pub open spec fn shown_span(v: Seq<i64>, units: int, size: int) -> int {
    scaled(total_advance(v), scaled(size, 3, 4), units)
}

/// The width of shown glyphs in points: their advances at a size in px, which is
/// three quarters of a point.
pub fn shown_advance_pt(advances: &Vec<i64>, units_per_em: i64, font_size_px: i64) -> (r: i64)
    requires
        units_per_em > 0,
    ensures
        r == scaled(
            total_advance(advances@),
            scaled(font_size_px as int, 3, 4),
            units_per_em as int,
        ),
        r == shown_span(advances@, units_per_em as int, font_size_px as int),
{
    let mut total: i64 = 0;
    let mut i: usize = 0;
    proof {
        assert(advances@.take(0) =~= Seq::empty());
    }
    while i < advances.len()
        invariant
            i <= advances@.len(),
            total == total_advance(advances@.take(i as int)),
        decreases advances@.len() - i,
    {
        proof {
            assert(advances@.take(i as int + 1).drop_last() =~= advances@.take(i as int));
        }
        total = plus(total, advances[i]);
        i += 1;
    }
    proof {
        assert(advances@.take(i as int) =~= advances@);
    }
    scale(total, scale(font_size_px, 3, 4), units_per_em)
}

} // verus!
