//! A document's objects, as far as overlaying and transplanting them goes.

use lopdf::{Dictionary, Document, Object, Stream, StringFormat};
use vstd::prelude::*;

use crate::scan::chars_of;

verus! {

/// An object's number and generation.
pub type ObjectId = (u32, u16);

/// One entry of a dictionary.
#[derive(Debug)]
pub struct Entry {
    pub key: Vec<u8>,
    pub value: Obj,
}

/// An object.
#[derive(Debug)]
pub enum Obj {
    Null,
    Boolean(bool),
    Integer(i64),
    /// A real number as a decimal numeral.
    Real(String),
    Name(Vec<u8>),
    /// A text string, and whether it is written in hexadecimal digits.
    Text(Vec<u8>, bool),
    Array(Vec<Obj>),
    Dictionary(Vec<Entry>),
    /// A stream's dictionary and content, and whether it may be compressed.
    Stream(Vec<Entry>, Vec<u8>, bool),
    Reference(ObjectId),
}

/// The mathematical reading of an [`Entry`].
pub struct EntryV {
    pub key: Seq<u8>,
    pub value: ObjV,
}

/// The mathematical reading of an [`Obj`].
pub enum ObjV {
    Null,
    Boolean(bool),
    Integer(int),
    Real(Seq<char>),
    Name(Seq<u8>),
    Text(Seq<u8>, bool),
    Array(Seq<ObjV>),
    Dictionary(Seq<EntryV>),
    Stream(Seq<EntryV>, Seq<u8>, bool),
    Reference(ObjectId),
}

pub open spec fn obj_view(o: Obj) -> ObjV
    decreases o,
{
    match o {
        Obj::Null => ObjV::Null,
        Obj::Boolean(b) => ObjV::Boolean(b),
        Obj::Integer(i) => ObjV::Integer(i as int),
        Obj::Real(r) => ObjV::Real(r@),
        Obj::Name(n) => ObjV::Name(n@),
        Obj::Text(t, hex) => ObjV::Text(t@, hex),
        Obj::Array(v) => ObjV::Array(
            Seq::new(
                v@.len(),
                |i: int|
                    if 0 <= i < v@.len() {
                        obj_view(v@[i])
                    } else {
                        arbitrary()
                    },
            ),
        ),
        Obj::Dictionary(v) => ObjV::Dictionary(
            Seq::new(
                v@.len(),
                |i: int|
                    if 0 <= i < v@.len() {
                        EntryV { key: v@[i].key@, value: obj_view(v@[i].value) }
                    } else {
                        arbitrary()
                    },
            ),
        ),
        Obj::Stream(v, c, z) => ObjV::Stream(
            Seq::new(
                v@.len(),
                |i: int|
                    if 0 <= i < v@.len() {
                        EntryV { key: v@[i].key@, value: obj_view(v@[i].value) }
                    } else {
                        arbitrary()
                    },
            ),
            c@,
            z,
        ),
        Obj::Reference(id) => ObjV::Reference(id),
    }
}

impl View for Obj {
    type V = ObjV;

    open spec fn view(&self) -> ObjV {
        obj_view(*self)
    }
}

pub open spec fn entry_view(e: Entry) -> EntryV {
    EntryV { key: e.key@, value: obj_view(e.value) }
}

pub open spec fn objs_view(v: Seq<Obj>) -> Seq<ObjV> {
    v.map_values(|o: Obj| obj_view(o))
}

pub open spec fn entries_view(v: Seq<Entry>) -> Seq<EntryV> {
    v.map_values(|e: Entry| entry_view(e))
}

/// The parts of an object, viewed one by one.
pub proof fn lemma_parts(o: Obj)
    ensures
        match o {
            Obj::Array(v) => obj_view(o) == ObjV::Array(objs_view(v@)),
            Obj::Dictionary(v) => obj_view(o) == ObjV::Dictionary(entries_view(v@)),
            Obj::Stream(v, c, z) => obj_view(o) == ObjV::Stream(entries_view(v@), c@, z),
            _ => true,
        },
{
    match o {
        Obj::Array(v) => {
            assert(obj_view(o)->Array_0 =~= objs_view(v@));
        },
        Obj::Dictionary(v) => {
            assert(obj_view(o)->Dictionary_0 =~= entries_view(v@));
        },
        Obj::Stream(v, c, z) => {
            assert(obj_view(o)->Stream_0 =~= entries_view(v@));
        },
        _ => {},
    }
}

/// Whether two byte strings are equal.
pub fn same_bytes(a: &Vec<u8>, b: &[u8]) -> (r: bool)
    ensures
        r == (a@ == b@),
{
    if a.len() != b.len() {
        return false;
    }
    let mut i: usize = 0;
    while i < a.len()
        invariant
            i <= a@.len(),
            a@.len() == b@.len(),
            forall|j: int| 0 <= j < i ==> a@[j] == b@[j],
        decreases a@.len() - i,
    {
        if a[i] != b[i] {
            return false;
        }
        i += 1;
    }
    proof {
        assert(a@ =~= b@);
    }
    true
}

/// The value under a key, the first where there are several.
pub open spec fn entry_at(v: Seq<EntryV>, key: Seq<u8>) -> Option<ObjV>
    decreases v.len(),
{
    if v.len() == 0 {
        None
    } else if v[0].key == key {
        Some(v[0].value)
    } else {
        entry_at(v.skip(1), key)
    }
}

pub open spec fn obj_ref(o: Option<&Obj>) -> Option<ObjV> {
    match o {
        Some(x) => Some(x@),
        None => None,
    }
}

pub fn get_entry<'a>(v: &'a Vec<Entry>, key: &[u8]) -> (r: Option<&'a Obj>)
    ensures
        obj_ref(r) == entry_at(entries_view(v@), key@),
{
    let ghost ev = entries_view(v@);
    let mut i: usize = 0;
    proof {
        assert(ev.skip(0) =~= ev);
    }
    while i < v.len()
        invariant
            i <= v@.len(),
            ev == entries_view(v@),
            entry_at(ev, key@) == entry_at(ev.skip(i as int), key@),
        decreases v@.len() - i,
    {
        proof {
            assert(ev.skip(i as int)[0] == entry_view(v@[i as int]));
            assert(ev.skip(i as int).skip(1) =~= ev.skip(i as int + 1));
        }
        if same_bytes(&v[i].key, key) {
            return Some(&v[i].value);
        }
        i += 1;
    }
    None
}

/// The entries with a value set under a key: in its place where the key is there,
/// else at the end.
pub open spec fn with_entry(v: Seq<EntryV>, key: Seq<u8>, value: ObjV) -> Seq<EntryV>
    decreases v.len(),
{
    if v.len() == 0 {
        seq![EntryV { key, value }]
    } else if v[0].key == key {
        seq![EntryV { key, value }] + v.skip(1)
    } else {
        seq![v[0]] + with_entry(v.skip(1), key, value)
    }
}

/// Setting a value under a key shows there and nowhere else.
pub proof fn law_entries_are_set(v: Seq<EntryV>, key: Seq<u8>, value: ObjV, other: Seq<u8>)
    ensures
        entry_at(with_entry(v, key, value), key) == Some(value),
        other != key ==> entry_at(with_entry(v, key, value), other) == entry_at(v, other),
    decreases v.len(),
{
    let w = with_entry(v, key, value);
    if v.len() == 0 {
        assert(w.skip(1) =~= v);
        assert(entry_at(v, other) is None);
        if other != key {
            assert(entry_at(w, other) == entry_at(w.skip(1), other));
        }
    } else if v[0].key == key {
        assert(w.skip(1) =~= v.skip(1));
        if other != key {
            assert(entry_at(w, other) == entry_at(w.skip(1), other));
            assert(entry_at(v, other) == entry_at(v.skip(1), other));
        }
    } else {
        law_entries_are_set(v.skip(1), key, value, other);
        assert(w[0] == v[0]);
        assert(w.skip(1) =~= with_entry(v.skip(1), key, value));
    }
}

// --------------------------------------------------------------------------
// numerals
// --------------------------------------------------------------------------

pub open spec fn digit_char(d: int) -> char {
    (48 + d) as u8 as char
}

/// The decimal digits of a number.
pub open spec fn digits(n: nat) -> Seq<char>
    decreases n,
{
    if n < 10 {
        seq![digit_char(n as int)]
    } else {
        digits(n / 10).push(digit_char((n % 10) as int))
    }
}

/// The last `k` decimal digits of a number.
pub open spec fn last_digits(n: nat, k: nat) -> Seq<char>
    decreases k,
{
    if k == 0 {
        Seq::empty()
    } else {
        last_digits(n / 10, (k - 1) as nat).push(digit_char((n % 10) as int))
    }
}

/// A number of millionths as a numeral with six decimals.
pub open spec fn numeral(v: int) -> Seq<char> {
    let n = if v < 0 {
        -v
    } else {
        v
    } as nat;
    let whole = digits(n / 1_000_000) + seq!['.'] + last_digits(n, 6);
    if v < 0 {
        seq!['-'] + whole
    } else {
        whole
    }
}

fn push_digits(s: &mut String, n: u64)
    ensures
        final(s)@ == old(s)@ + digits(n as nat),
    decreases n,
{
    if n >= 10 {
        push_digits(s, n / 10);
    }
    let d: u8 = (n % 10) as u8;
    let ghost before = s@;
    s.push((48 + d) as char);
    proof {
        assert(s@ =~= old(s)@ + digits(n as nat));
    }
}

fn push_last(s: &mut String, n: u64, k: u8)
    ensures
        final(s)@ == old(s)@ + last_digits(n as nat, k as nat),
    decreases k,
{
    if k > 0 {
        push_last(s, n / 10, k - 1);
        let d: u8 = (n % 10) as u8;
        s.push((48 + d) as char);
    }
    proof {
        assert(s@ =~= old(s)@ + last_digits(n as nat, k as nat));
    }
}

/// Write a number of millionths as a numeral.
pub fn numeral_of(v: i64) -> (r: String)
    ensures
        r@ == numeral(v as int),
{
    let mut s = String::new();
    let n: u64 = if v < 0 {
        s.push('-');
        (-(v as i128)) as u64
    } else {
        v as u64
    };
    let ghost sign = s@;
    push_digits(&mut s, n / 1_000_000);
    s.push('.');
    push_last(&mut s, n, 6);
    proof {
        assert(sign =~= if v < 0 {
            seq!['-']
        } else {
            Seq::empty()
        });
        assert(s@ =~= numeral(v as int));
    }
    s
}

// --------------------------------------------------------------------------
// documents
// --------------------------------------------------------------------------

/// A document.
#[verifier::external_type_specification]
#[verifier::external_body]
pub struct ExDocument(lopdf::Document);

/// An object of a document.
#[verifier::external_type_specification]
#[verifier::external_body]
pub struct ExDocumentObject(lopdf::Object);

/// A stream of a document.
#[verifier::external_type_specification]
#[verifier::external_body]
pub struct ExDocumentStream(lopdf::Stream);

/// A dictionary of a document.
#[verifier::external_type_specification]
#[verifier::external_body]
pub struct ExDocumentDictionary(lopdf::Dictionary);

/// The objects of a document by number.
pub uninterp spec fn objects_of(d: lopdf::Document) -> Map<ObjectId, ObjV>;

/// The highest number that a document has given out.
pub uninterp spec fn max_id_of(d: lopdf::Document) -> u32;

/// The pages of a document, in the order of its page tree.
pub uninterp spec fn pages_of(d: lopdf::Document) -> Seq<ObjectId>;

/// The numeral that a single-precision number read from a numeral is written as.
pub uninterp spec fn settled_numeral(s: Seq<char>) -> Seq<char>;

/// The objects after `lopdf` has named an external object in a page's resources.
pub uninterp spec fn xobject_added(
    m: Map<ObjectId, ObjV>,
    page: ObjectId,
    name: Seq<u8>,
    id: ObjectId,
) -> Map<ObjectId, ObjV>;

/// A document as far as stamping goes: its objects, and the highest number given
/// out.
pub struct DocV {
    pub objects: Map<ObjectId, ObjV>,
    pub max_id: u32,
}

pub open spec fn doc_of(d: lopdf::Document) -> DocV {
    DocV { objects: objects_of(d), max_id: max_id_of(d) }
}

/// Whether all numbers are at most the highest one given out.
pub open spec fn numbered_upto(m: Map<ObjectId, ObjV>, max_id: u32) -> bool {
    forall|id: ObjectId| #[trigger] m.contains_key(id) ==> id.0 <= max_id
}

/// Whether every real number in an object is written as single precision writes
/// it.
pub open spec fn settled(o: ObjV) -> bool
    decreases o,
{
    match o {
        ObjV::Real(t) => settled_numeral(t) == t,
        ObjV::Array(v) => forall|i: int| 0 <= i < v.len() ==> settled(#[trigger] v[i]),
        ObjV::Dictionary(v) => forall|i: int|
            0 <= i < v.len() ==> settled((#[trigger] v[i]).value),
        ObjV::Stream(v, _, _) => forall|i: int|
            0 <= i < v.len() ==> settled((#[trigger] v[i]).value),
        _ => true,
    }
}

/// Whether an object can be kept as it is.
pub open spec fn keepable(o: ObjV) -> bool {
    settled(o) && well_keyed(o)
}

/// How many references in a row are followed.
pub const DEREF_LIMIT: usize = 128;

/// The object that a chain of at most `n` references leads to.
pub open spec fn followed(m: Map<ObjectId, ObjV>, o: ObjV, n: nat) -> Option<ObjV>
    decreases n,
{
    match o {
        ObjV::Reference(id) => if n == 0 || !m.contains_key(id) {
            None
        } else {
            followed(m, m[id], (n - 1) as nat)
        },
        _ => Some(o),
    }
}

/// The number of the object that a chain of at most `n` references leads to.
pub open spec fn final_id(m: Map<ObjectId, ObjV>, id: ObjectId, n: nat) -> ObjectId
    decreases n,
{
    match m[id] {
        ObjV::Reference(next) => if n == 0 {
            id
        } else {
            final_id(m, next, (n - 1) as nat)
        },
        _ => id,
    }
}

/// The object of a number, references followed.
pub open spec fn object_at(m: Map<ObjectId, ObjV>, id: ObjectId) -> Option<ObjV> {
    if m.contains_key(id) {
        followed(m, m[id], DEREF_LIMIT as nat)
    } else {
        None
    }
}

/// The dictionary of a number.
pub open spec fn dictionary_at(m: Map<ObjectId, ObjV>, id: ObjectId) -> Option<Seq<EntryV>> {
    match object_at(m, id) {
        Some(ObjV::Dictionary(e)) => Some(e),
        _ => None,
    }
}

pub open spec fn owned_obj(o: Option<Obj>) -> Option<ObjV> {
    match o {
        Some(x) => Some(x@),
        None => None,
    }
}

/// Whether no key stands twice in a list of entries.
pub open spec fn distinct_keys(v: Seq<EntryV>) -> bool {
    forall|i: int, j: int| 0 <= i < j < v.len() ==> (#[trigger] v[i]).key != (#[trigger] v[j]).key
}

/// Whether no dictionary in an object has a key twice.
pub open spec fn well_keyed(o: ObjV) -> bool
    decreases o,
{
    match o {
        ObjV::Array(v) => forall|i: int| 0 <= i < v.len() ==> well_keyed(#[trigger] v[i]),
        ObjV::Dictionary(v) => distinct_keys(v) && forall|i: int|
            0 <= i < v.len() ==> well_keyed((#[trigger] v[i]).value),
        ObjV::Stream(v, _, _) => distinct_keys(v) && forall|i: int|
            0 <= i < v.len() ==> well_keyed((#[trigger] v[i]).value),
        _ => true,
    }
}

/// Copies a `lopdf::Object` without parts, one for one; a real number becomes the
/// numeral that std writes for it. Nothing is claimed of the result.
#[verifier::external_body]
fn leaf_from(o: &Object) -> (r: Obj) {
    match o {
        Object::Boolean(b) => Obj::Boolean(*b),
        Object::Integer(i) => Obj::Integer(*i),
        Object::Real(x) => Obj::Real(x.to_string()),
        Object::Name(n) => Obj::Name(n.clone()),
        Object::String(s, f) => Obj::Text(s.clone(), matches!(f, StringFormat::Hexadecimal)),
        Object::Reference(id) => Obj::Reference(*id),
        _ => Obj::Null,
    }
}

/// Copies a `lopdf::Object` with its parts, one for one. Nothing is claimed of the
/// result.
#[verifier::external_body]
fn obj_from(o: &Object) -> (r: Obj) {
    match o {
        Object::Array(v) => Obj::Array(v.iter().map(obj_from).collect()),
        Object::Dictionary(d) => Obj::Dictionary(entries_from(d)),
        Object::Stream(s) => Obj::Stream(
            entries_from(&s.dict),
            s.content.clone(),
            s.allows_compression,
        ),
        _ => leaf_from(o),
    }
}

/// Copies the entries of a `lopdf::Dictionary` in order. Nothing is claimed of the
/// result.
#[verifier::external_body]
fn entries_from(d: &Dictionary) -> (r: Vec<Entry>) {
    d.iter().map(|(k, v)| Entry { key: k.clone(), value: obj_from(v) }).collect()
}

/// Makes a `lopdf::Object` without parts, one for one; a numeral becomes the number
/// that std reads from it. Nothing is claimed of the result.
#[verifier::external_body]
fn leaf_into(o: &Obj) -> (r: Object) {
    match o {
        Obj::Boolean(b) => Object::Boolean(*b),
        Obj::Integer(i) => Object::Integer(*i),
        Obj::Real(t) => Object::Real(t.parse().unwrap_or_default()),
        Obj::Name(n) => Object::Name(n.clone()),
        Obj::Text(t, true) => Object::String(t.clone(), StringFormat::Hexadecimal),
        Obj::Text(t, false) => Object::String(t.clone(), StringFormat::Literal),
        Obj::Reference(id) => Object::Reference(*id),
        _ => Object::Null,
    }
}

/// Makes a `lopdf::Object` with its parts, one for one. Nothing is claimed of the
/// result.
#[verifier::external_body]
fn obj_into(o: &Obj) -> (r: Object) {
    match o {
        Obj::Array(v) => Object::Array(v.iter().map(obj_into).collect()),
        Obj::Dictionary(v) => Object::Dictionary(entries_into(v)),
        Obj::Stream(v, content, z) => Object::Stream(stream_into(v, content, *z)),
        _ => leaf_into(o),
    }
}

/// Makes a `lopdf::Dictionary` of entries in order. Nothing is claimed of the
/// result.
#[verifier::external_body]
fn entries_into(v: &Vec<Entry>) -> (r: Dictionary) {
    v.iter().map(|e| (e.key.clone(), obj_into(&e.value))).collect()
}

/// Makes a `lopdf::Stream` of a dictionary and content. Nothing is claimed of the
/// result.
#[verifier::external_body]
fn stream_into(v: &Vec<Entry>, content: &Vec<u8>, z: bool) -> (r: Stream) {
    Stream {
        dict: entries_into(v),
        content: content.clone(),
        allows_compression: z,
        start_position: None,
    }
}

/// Makes a real number of a numeral: std reads it in single precision, as the
/// field of `lopdf::Object::Real` holds it, and writes it again. What is written
/// that way is read and written as the same.
#[verifier::external_body]
pub(crate) fn real_obj(t: &String) -> (r: Obj)
    ensures
        r@ == ObjV::Real(settled_numeral(t@)),
        keepable(r@),
{
    obj_from(&Object::Real(t.parse().unwrap_or_default()))
}

/// `lopdf::Document::get_object`: the object of a number, with up to 128
/// references followed. What is read has no key twice, and its numerals are those
/// of single precision.
#[verifier::external_body]
pub(crate) fn get_object(d: &Document, id: ObjectId) -> (r: Option<Obj>)
    ensures
        owned_obj(r) == object_at(objects_of(*d), id),
        r matches Some(o) ==> keepable(o@),
{
    d.get_object(id).ok().map(obj_from)
}

/// `lopdf::Document::get_dictionary`: the dictionary of a number, with up to 128
/// references followed.
#[verifier::external_body]
pub(crate) fn get_dictionary(d: &Document, id: ObjectId) -> (r: Option<Vec<Entry>>)
    ensures
        match r {
            Some(e) => dictionary_at(objects_of(*d), id) == Some(entries_view(e@)),
            None => dictionary_at(objects_of(*d), id) is None,
        },
{
    d.get_dictionary(id).ok().map(entries_from)
}

/// The field `lopdf::Document::max_id`.
#[verifier::external_body]
pub(crate) fn max_id(d: &Document) -> (r: u32)
    ensures
        r == max_id_of(*d),
{
    d.max_id
}

/// Sets the field `lopdf::Document::max_id`; the objects stay as they are.
#[verifier::external_body]
pub(crate) fn set_max_id(d: &mut Document, n: u32)
    ensures
        max_id_of(*final(d)) == n,
        objects_of(*final(d)) == objects_of(*old(d)),
{
    d.max_id = n
}

/// Whether there are `n` objects.
pub open spec fn counts(m: Map<ObjectId, ObjV>, n: nat) -> bool {
    m.dom().finite() && m.dom().len() == n
}

/// The length of the map `lopdf::Document::objects`: how many objects there are.
#[verifier::external_body]
pub(crate) fn object_count(d: &Document) -> (r: usize)
    ensures
        counts(objects_of(*d), r as nat),
{
    d.objects.len()
}

/// The pages of a document as `lopdf::Document::page_iter` walks them, which
/// `get_pages` numbers. Each is a dictionary. The walk is taken page by page: how many
/// pages the tree says it has is not asked for.
#[verifier::external_body]
pub(crate) fn page_list(d: &Document) -> (r: Vec<ObjectId>)
    ensures
        r@ == pages_of(*d),
        forall|i: int|
            0 <= i < r@.len() ==> dictionary_at(objects_of(*d), #[trigger] r@[i]) is Some,
{
    let mut pages = Vec::new();
    for id in d.page_iter() {
        pages.push(id);
    }
    pages
}

/// `lopdf::Document::add_object`: puts an object under the next number. A stream under
/// a number that was free leaves the pages where they are; a walk that went in circles
/// may go on for longer.
#[verifier::external_body]
pub(crate) fn add_object(d: &mut Document, o: &Obj) -> (r: ObjectId)
    requires
        max_id_of(*old(d)) < u32::MAX,
        keepable(o@),
    ensures
        r == ((max_id_of(*old(d)) + 1) as u32, 0u16),
        max_id_of(*final(d)) == max_id_of(*old(d)) + 1,
        objects_of(*final(d)) == objects_of(*old(d)).insert(r, o@),
        o@ is Stream && numbered_upto(objects_of(*old(d)), max_id_of(*old(d))) ==> pages_of(
            *old(d),
        ).is_prefix_of(pages_of(*final(d))),
{
    d.add_object(obj_into(o))
}

/// `lopdf::Document::set_object`: puts an object under a number.
#[verifier::external_body]
pub(crate) fn set_object(d: &mut Document, id: ObjectId, o: &Obj)
    requires
        keepable(o@),
    ensures
        max_id_of(*final(d)) == max_id_of(*old(d)),
        objects_of(*final(d)) == objects_of(*old(d)).insert(id, o@),
{
    d.set_object(id, obj_into(o))
}

/// Whether two lots of objects differ in nothing but what dictionaries say of
/// resources, of external objects, and under `name`.
pub open spec fn resources_only(m: Map<ObjectId, ObjV>, n: Map<ObjectId, ObjV>, name: Seq<u8>) -> bool {
    &&& n.dom() == m.dom()
    &&& forall|id: ObjectId| #[trigger]
        m.contains_key(id) ==> match m[id] {
            ObjV::Dictionary(e) => n[id] is Dictionary && forall|key: Seq<u8>|
                key != ascii("Resources"@) && key != ascii("XObject"@) && key != name ==> #[trigger]
                entry_at(n[id]->Dictionary_0, key) == entry_at(e, key),
            _ => n[id] == m[id],
        }
}

/// The dictionary that an entry holds or refers to.
pub open spec fn held(m: Map<ObjectId, ObjV>, o: Option<ObjV>) -> Option<Seq<EntryV>> {
    match o {
        Some(ObjV::Dictionary(d)) => Some(d),
        Some(ObjV::Reference(id)) => dictionary_at(m, id),
        _ => None,
    }
}

/// The resources of a page that has its own.
pub open spec fn resources_at(m: Map<ObjectId, ObjV>, page: ObjectId) -> Option<Seq<EntryV>> {
    match dictionary_at(m, page) {
        Some(e) => held(m, entry_at(e, ascii("Resources"@))),
        None => None,
    }
}

/// What the resources of a page call `name` among the external objects.
pub open spec fn xobject_named(m: Map<ObjectId, ObjV>, page: ObjectId, name: Seq<u8>) -> Option<
    ObjV,
> {
    match resources_at(m, page) {
        Some(d) => match held(m, entry_at(d, ascii("XObject"@))) {
            Some(x) => entry_at(x, name),
            None => None,
        },
        None => None,
    }
}

/// Whether a page has a place for the name of an external object: it has no
/// resources of its own or a dictionary of them, which has no external objects or a
/// dictionary of them.
pub open spec fn takes_xobject(m: Map<ObjectId, ObjV>, page: ObjectId) -> bool {
    &&& dictionary_at(m, page) is Some
    &&& entry_at(dictionary_at(m, page)->0, ascii("Resources"@)) is None || (resources_at(
        m,
        page,
    ) matches Some(d) && (entry_at(d, ascii("XObject"@)) is None || held(
        m,
        entry_at(d, ascii("XObject"@)),
    ) is Some))
}

/// Whether a key means something where pages are looked up.
pub open spec fn is_tree_key(key: Seq<u8>) -> bool {
    key == ascii("Type"@) || key == ascii("Pages"@) || key == ascii("Kids"@) || key == ascii(
        "Linearized"@,
    )
}

/// `lopdf::Document::add_xobject`: names an external object in a page's resources.
/// What becomes of the objects goes by them and the arguments. A page that has a
/// place for it has it under the name afterwards. Only dictionaries change, and only
/// in what they say of resources, of external objects, and under the name itself; so
/// the pages stay. The result, which tells whether the page had a place for it, is not handed on.
#[verifier::external_body]
pub(crate) fn add_xobject(d: &mut Document, page: ObjectId, name: &Vec<u8>, id: ObjectId)
    requires
        name@ != ascii("Resources"@),
        name@ != ascii("XObject"@),
        !is_tree_key(name@),
    ensures
        pages_of(*final(d)) == pages_of(*old(d)),
        takes_xobject(objects_of(*old(d)), page) ==> xobject_named(
            objects_of(*final(d)),
            page,
            name@,
        ) == Some(ObjV::Reference(id)),
        max_id_of(*final(d)) == max_id_of(*old(d)),
        objects_of(*final(d)) == xobject_added(objects_of(*old(d)), page, name@, id),
        resources_only(objects_of(*old(d)), objects_of(*final(d)), name@),
{
    let _ = d.add_xobject(page, name.clone(), id);
}

/// The content streams of a page, as references.
pub open spec fn contents_list(e: Seq<EntryV>) -> Seq<ObjV> {
    match entry_at(e, ascii("Contents"@)) {
        Some(ObjV::Reference(id)) => seq![ObjV::Reference(id)],
        Some(ObjV::Array(v)) => v,
        _ => Seq::empty(),
    }
}

/// A stream of content alone.
pub open spec fn plain_stream(content: Seq<u8>) -> ObjV {
    ObjV::Stream(
        seq![
            EntryV { key: ascii("Length"@), value: ObjV::Integer(content.len() as int) },
        ],
        content,
        true,
    )
}

/// A document with content added at the end of a page: a stream under the next
/// number, and a reference to it after those that the page has. A page that is no
/// dictionary gets nothing, and neither does one whose number the stream takes.
pub open spec fn with_contents(d: DocV, page: ObjectId, content: Seq<u8>) -> DocV {
    match dictionary_at(d.objects, page) {
        None => d,
        Some(e) => {
            let id = ((d.max_id + 1) as u32, 0u16);
            let list = contents_list(e).push(ObjV::Reference(id));
            let m = d.objects.insert(id, plain_stream(content));
            DocV {
                objects: match dictionary_at(m, page) {
                    Some(g) => m.insert(
                        final_id(m, page, DEREF_LIMIT as nat),
                        ObjV::Dictionary(with_entry(g, ascii("Contents"@), ObjV::Array(list))),
                    ),
                    None => m,
                },
                max_id: (d.max_id + 1) as u32,
            }
        },
    }
}

/// `lopdf::Document::add_page_contents`: adds a content stream at the end of a page.
/// Where its number was free, the pages stay where they are; a walk that went in
/// circles may go on for longer.
#[verifier::external_body]
pub(crate) fn add_page_contents(d: &mut Document, page: ObjectId, content: Vec<u8>)
    requires
        max_id_of(*old(d)) < u32::MAX,
        content@.len() <= i64::MAX,
    ensures
        doc_of(*final(d)) == with_contents(doc_of(*old(d)), page, content@),
        numbered_upto(objects_of(*old(d)), max_id_of(*old(d))) ==> pages_of(
            *old(d),
        ).is_prefix_of(pages_of(*final(d))),
{
    let _ = d.add_page_contents(page, content);
}

/// The bytes of a text whose characters are below 256.
pub open spec fn ascii(s: Seq<char>) -> Seq<u8> {
    s.map_values(|c: char| c as u8)
}

pub fn ascii_bytes(s: &str) -> (r: Vec<u8>)
    ensures
        r@ == ascii(s@),
{
    let v = chars_of(s);
    let mut out: Vec<u8> = Vec::new();
    let mut i: usize = 0;
    while i < v.len()
        invariant
            i <= v@.len(),
            out@.len() == i,
            forall|j: int| 0 <= j < i ==> #[trigger] out@[j] == v@[j] as u8,
        decreases v@.len() - i,
    {
        out.push(v[i] as u8);
        i += 1;
    }
    proof {
        assert(out@ =~= ascii(s@));
    }
    out
}

} // verus!
