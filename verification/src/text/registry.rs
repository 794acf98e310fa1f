//! The font registry: choosing a face for a list of families, and falling back
//! for characters that a face lacks.
//!
//! Bundled faces stand in a list of their own that is looked through after the
//! caller's faces, and the generic families stand for bundled ones.

use vstd::prelude::*;

use crate::scan::{lower, owned_texts, same_ignoring_case, texts, trim, trimmed};
use crate::text::font::{FaceV, FontFace};

verus! {

/// A generic family and the real families it stands for.
#[derive(Debug)]
pub struct Generic {
    pub name: String,
    pub reals: Vec<String>,
}

/// The mathematical reading of a [`Generic`].
pub struct GenericV {
    pub name: Seq<char>,
    pub reals: Seq<Seq<char>>,
}

impl View for Generic {
    type V = GenericV;

    open spec fn view(&self) -> GenericV {
        GenericV { name: self.name@, reals: owned_texts(self.reals@) }
    }
}

/// A set of faces: the caller's, then the bundled ones.
#[derive(Debug)]
pub struct FontRegistry {
    faces: Vec<FontFace>,
    bundled: Vec<FontFace>,
    generics: Vec<Generic>,
}

/// The mathematical reading of a [`FontRegistry`].
pub struct RegistryV {
    pub faces: Seq<FaceV>,
    pub bundled: Seq<FaceV>,
    pub generics: Seq<GenericV>,
}

pub open spec fn faces_view(v: Seq<FontFace>) -> Seq<FaceV> {
    v.map_values(|f: FontFace| f@)
}

pub open spec fn generics_view(v: Seq<Generic>) -> Seq<GenericV> {
    v.map_values(|g: Generic| g@)
}

impl View for FontRegistry {
    type V = RegistryV;

    closed spec fn view(&self) -> RegistryV {
        RegistryV {
            faces: faces_view(self.faces@),
            bundled: faces_view(self.bundled@),
            generics: generics_view(self.generics@),
        }
    }
}

impl RegistryV {
    /// The faces in lookup order.
    pub open spec fn all(self) -> Seq<FaceV> {
        self.faces + self.bundled
    }
}

// --------------------------------------------------------------------------
// matching
// --------------------------------------------------------------------------

/// Whether a face is of the family `name`, whatever the case.
pub open spec fn of_family(f: FaceV, name: Seq<char>) -> bool {
    lower(f.family) == lower(trimmed(name))
}

pub fn family_matches(f: &FontFace, name: &str) -> (r: bool)
    ensures
        r == of_family(f@, name@),
{
    same_ignoring_case(f.family.as_str(), trim(name))
}

/// How far a face is from a weight and a slant.
pub open spec fn distance(f: FaceV, weight: u16, italic: bool) -> int {
    (if f.weight >= weight {
        f.weight - weight
    } else {
        weight - f.weight
    }) + (if f.italic == italic {
        0int
    } else {
        1000
    })
}

pub fn score(f: &FontFace, weight: u16, italic: bool) -> (r: u32)
    ensures
        r == distance(f@, weight, italic),
{
    let d: u32 = if f.weight >= weight {
        (f.weight - weight) as u32
    } else {
        (weight - f.weight) as u32
    };
    if f.italic == italic {
        d
    } else {
        d + 1000
    }
}

/// What is asked of a face: a family, and perhaps a character.
pub open spec fn fits(f: FaceV, name: Seq<char>, c: Option<char>) -> bool {
    of_family(f, name) && (c matches Some(c) ==> f.covers(c))
}

/// The first of the closest fitting faces among the first `k`.
pub open spec fn best_upto(
    v: Seq<FaceV>,
    name: Seq<char>,
    weight: u16,
    italic: bool,
    c: Option<char>,
    k: nat,
) -> Option<int>
    decreases k,
{
    if k == 0 || k > v.len() {
        None
    } else {
        let before = best_upto(v, name, weight, italic, c, (k - 1) as nat);
        let i = k - 1;
        if !fits(v[i], name, c) {
            before
        } else {
            match before {
                Some(b) => if distance(v[i], weight, italic) < distance(v[b], weight, italic) {
                    Some(i)
                } else {
                    Some(b)
                },
                None => Some(i),
            }
        }
    }
}

/// The first of the closest fitting faces.
pub open spec fn best(
    v: Seq<FaceV>,
    name: Seq<char>,
    weight: u16,
    italic: bool,
    c: Option<char>,
) -> Option<int> {
    best_upto(v, name, weight, italic, c, v.len())
}

proof fn lemma_best_upto(
    v: Seq<FaceV>,
    name: Seq<char>,
    weight: u16,
    italic: bool,
    c: Option<char>,
    k: nat,
)
    requires
        k <= v.len(),
    ensures
        match best_upto(v, name, weight, italic, c, k) {
            Some(b) => {
                &&& 0 <= b < k
                &&& fits(v[b], name, c)
                &&& forall|j: int|
                    0 <= j < k && fits(#[trigger] v[j], name, c) ==> distance(v[b], weight, italic)
                        <= distance(v[j], weight, italic) && (j < b ==> distance(
                        v[b],
                        weight,
                        italic,
                    ) < distance(v[j], weight, italic))
            },
            None => forall|j: int| 0 <= j < k ==> !fits(#[trigger] v[j], name, c),
        },
    decreases k,
{
    if k > 0 {
        lemma_best_upto(v, name, weight, italic, c, (k - 1) as nat);
    }
}

/// The chosen face of a family fits, no fitting face is closer, and none before
/// it is as close; where none is chosen, none fits.
pub proof fn law_best_is_closest(
    v: Seq<FaceV>,
    name: Seq<char>,
    weight: u16,
    italic: bool,
    c: Option<char>,
)
    ensures
        match best(v, name, weight, italic, c) {
            Some(b) => {
                &&& 0 <= b < v.len()
                &&& fits(v[b], name, c)
                &&& forall|j: int|
                    0 <= j < v.len() && fits(#[trigger] v[j], name, c) ==> distance(
                        v[b],
                        weight,
                        italic,
                    ) <= distance(v[j], weight, italic) && (j < b ==> distance(
                        v[b],
                        weight,
                        italic,
                    ) < distance(v[j], weight, italic))
            },
            None => forall|j: int| 0 <= j < v.len() ==> !fits(#[trigger] v[j], name, c),
        },
{
    lemma_best_upto(v, name, weight, italic, c, v.len());
}

// --------------------------------------------------------------------------
// families to try
// --------------------------------------------------------------------------

/// The families to try for one name: a generic name, then what it stands for;
/// another name alone.
pub open spec fn expanded(name: Seq<char>, g: Seq<GenericV>) -> Seq<Seq<char>>
    decreases g.len(),
{
    if g.len() == 0 {
        seq![name]
    } else if lower(trimmed(name)) == lower(g[0].name) {
        seq![name] + g[0].reals
    } else {
        expanded(name, g.skip(1))
    }
}

/// The families to try for a list of names, in order.
pub open spec fn expanded_all(names: Seq<Seq<char>>, g: Seq<GenericV>) -> Seq<Seq<char>>
    decreases names.len(),
{
    if names.len() == 0 {
        Seq::empty()
    } else {
        expanded(names[0], g) + expanded_all(names.skip(1), g)
    }
}

/// The face for the first family that has one.
pub open spec fn first_match(
    v: Seq<FaceV>,
    fams: Seq<Seq<char>>,
    weight: u16,
    italic: bool,
    c: Option<char>,
) -> Option<int>
    decreases fams.len(),
{
    if fams.len() == 0 {
        None
    } else {
        match best(v, fams[0], weight, italic, c) {
            Some(b) => Some(b),
            None => first_match(v, fams.skip(1), weight, italic, c),
        }
    }
}

proof fn lemma_first_match_of_both(
    v: Seq<FaceV>,
    a: Seq<Seq<char>>,
    b: Seq<Seq<char>>,
    weight: u16,
    italic: bool,
    c: Option<char>,
)
    ensures
        first_match(v, a + b, weight, italic, c) == match first_match(v, a, weight, italic, c) {
            Some(i) => Some(i),
            None => first_match(v, b, weight, italic, c),
        },
    decreases a.len(),
{
    if a.len() == 0 {
        assert(a + b =~= b);
    } else {
        assert((a + b)[0] == a[0]);
        assert((a + b).skip(1) =~= a.skip(1) + b);
        lemma_first_match_of_both(v, a.skip(1), b, weight, italic, c);
    }
}

/// The face selected for a list of families; the first of all where no family
/// has one.
pub open spec fn selected(r: RegistryV, names: Seq<Seq<char>>, weight: u16, italic: bool) -> Option<int> {
    match first_match(r.all(), expanded_all(names, r.generics), weight, italic, None) {
        Some(b) => Some(b),
        None => if r.all().len() > 0 {
            Some(0)
        } else {
            None
        },
    }
}

/// The first face that covers a character.
pub open spec fn first_covering(v: Seq<FaceV>, c: char) -> Option<int>
    decreases v.len(),
{
    if v.len() == 0 {
        None
    } else {
        match first_covering(v.drop_last(), c) {
            Some(i) => Some(i),
            None => if v.last().covers(c) {
                Some(v.len() - 1)
            } else {
                None
            },
        }
    }
}

/// The face that renders a character: one of the families, else any that covers
/// it.
pub open spec fn resolved_glyph(
    r: RegistryV,
    names: Seq<Seq<char>>,
    weight: u16,
    italic: bool,
    c: char,
) -> Option<int> {
    match first_match(r.all(), expanded_all(names, r.generics), weight, italic, Some(c)) {
        Some(b) => Some(b),
        None => first_covering(r.all(), c),
    }
}

/// The view of the face at an index of the lookup order.
pub open spec fn face_at(r: RegistryV, i: Option<int>) -> Option<FaceV> {
    match i {
        Some(i) => Some(r.all()[i]),
        None => None,
    }
}

pub open spec fn face_view(o: Option<&FontFace>) -> Option<FaceV> {
    match o {
        Some(f) => Some(f@),
        None => None,
    }
}

impl Default for FontRegistry {
    fn default() -> (r: FontRegistry)
        ensures
            r@.faces.len() == 0,
            r@.bundled.len() == 0,
            r@.generics.len() == 0,
    {
        FontRegistry { faces: Vec::new(), bundled: Vec::new(), generics: Vec::new() }
    }
}

impl FontRegistry {
    /// A registry without faces of the caller, that falls back to the bundled faces it
    /// carries; without any it is as [`FontRegistry::default`].
    pub fn new(bundled: Vec<FontFace>, generics: Vec<Generic>) -> (r: FontRegistry)
        ensures
            r@.faces.len() == 0,
            r@.bundled == faces_view(bundled@),
            r@.generics == generics_view(generics@),
    {
        FontRegistry { faces: Vec::new(), bundled, generics }
    }

    /// Register a face of the caller, after the others.
    pub fn add(&mut self, face: FontFace)
        ensures
            final(self)@ == (RegistryV { faces: old(self)@.faces.push(face@), ..old(self)@ }),
    {
        proof {
            assert(faces_view(self.faces@.push(face)) =~= faces_view(self.faces@).push(face@));
        }
        self.faces.push(face);
    }

    /// Whether there is no face at all, of the caller or bundled.
    pub fn is_empty(&self) -> (r: bool)
        ensures
            r == (self@.all().len() == 0),
    {
        self.faces.len() == 0 && self.bundled.len() == 0
    }

    /// The number of the caller's faces; bundled ones do not count.
    pub fn len(&self) -> (r: usize)
        ensures
            r == self@.faces.len(),
    {
        self.faces.len()
    }

    /// The number of all faces.
    fn count(&self) -> (r: u128)
        ensures
            r == self@.all().len(),
    {
        self.faces.len() as u128 + self.bundled.len() as u128
    }

    /// The face at an index of the lookup order.
    fn at(&self, i: u128) -> (r: &FontFace)
        requires
            i < self@.all().len(),
        ensures
            r@ == self@.all()[i as int],
    {
        let n: usize = self.faces.len();
        let m: usize = self.bundled.len();
        if i < n as u128 {
            &self.faces[i as usize]
        } else {
            let j: u128 = i - n as u128;
            proof {
                assert(self@.all()[i as int] == faces_view(self.bundled@)[j as int]);
                assert(j < m);
            }
            &self.bundled[j as usize]
        }
    }

    /// The first of the closest faces of a family, covering `c` where one is
    /// asked for.
    fn best_index(&self, name: &str, weight: u16, italic: bool, c: Option<char>) -> (r: Option<u128>)
        ensures
            match r {
                Some(i) => best(self@.all(), name@, weight, italic, c) == Some(i as int) && i
                    < self@.all().len(),
                None => best(self@.all(), name@, weight, italic, c) is None,
            },
    {
        let n: u128 = self.count();
        let ghost v = self@.all();
        let mut found: Option<u128> = None;
        let mut k: u128 = 0;
        while k < n
            invariant
                n == v.len(),
                v == self@.all(),
                k <= n,
                match found {
                    Some(i) => best_upto(v, name@, weight, italic, c, k as nat) == Some(i as int)
                        && i < k,
                    None => best_upto(v, name@, weight, italic, c, k as nat) is None,
                },
            decreases n - k,
        {
            let f = self.at(k);
            let good: bool = family_matches(f, name) && match c {
                Some(c) => f.has_glyph(c),
                None => true,
            };
            if good {
                let closer: bool = match found {
                    Some(i) => score(f, weight, italic) < score(self.at(i), weight, italic),
                    None => true,
                };
                if closer {
                    found = Some(k);
                }
            }
            k += 1;
        }
        found
    }

    /// The closest face of a family.
    pub fn best_in_family(&self, name: &str, weight: u16, italic: bool) -> (r: Option<&FontFace>)
        ensures
            face_view(r) == face_at(self@, best(self@.all(), name@, weight, italic, None)),
    {
        match self.best_index(name, weight, italic, None) {
            Some(i) => Some(self.at(i)),
            None => None,
        }
    }

    /// The closest face of a family that covers a character.
    pub fn glyph_in_family(&self, name: &str, weight: u16, italic: bool, c: char) -> (r: Option<
        &FontFace,
    >)
        ensures
            face_view(r) == face_at(self@, best(self@.all(), name@, weight, italic, Some(c))),
    {
        match self.best_index(name, weight, italic, Some(c)) {
            Some(i) => Some(self.at(i)),
            None => None,
        }
    }

    /// The families to try for one name.
    fn expand_family<'a>(&'a self, name: &'a str) -> (r: Vec<&'a str>)
        ensures
            texts(r@) == expanded(name@, self@.generics),
    {
        let ghost g = self@.generics;
        let mut out: Vec<&'a str> = Vec::new();
        out.push(name);
        proof {
            assert(texts(out@) =~= seq![name@]);
            assert(g.skip(0) =~= g);
        }
        let mut i: usize = 0;
        while i < self.generics.len()
            invariant
                i <= self.generics@.len(),
                g == generics_view(self.generics@),
                texts(out@) == seq![name@],
                expanded(name@, g) == expanded(name@, g.skip(i as int)),
            decreases self.generics@.len() - i,
        {
            proof {
                assert(g.skip(i as int)[0] == self.generics@[i as int]@);
                assert(g.skip(i as int).skip(1) =~= g.skip(i as int + 1));
            }
            if same_ignoring_case(trim(name), self.generics[i].name.as_str()) {
                let reals = &self.generics[i].reals;
                let ghost rv = owned_texts(reals@);
                let mut j: usize = 0;
                proof {
                    assert(seq![name@] + rv.take(0) =~= seq![name@]);
                }
                while j < reals.len()
                    invariant
                        j <= reals@.len(),
                        rv == owned_texts(reals@),
                        texts(out@) == seq![name@] + rv.take(j as int),
                    decreases reals@.len() - j,
                {
                    let t = reals[j].as_str();
                    proof {
                        assert(rv[j as int] == t@);
                        assert(rv.take(j as int + 1) =~= rv.take(j as int).push(t@));
                        assert(texts(out@.push(t)) =~= texts(out@).push(t@));
                        assert(texts(out@).push(t@) =~= seq![name@] + rv.take(j as int + 1));
                    }
                    out.push(t);
                    j += 1;
                }
                proof {
                    assert(rv.take(j as int) =~= rv);
                }
                return out;
            }
            i += 1;
        }
        out
    }

    /// The face for the first of these families that has one.
    fn first_of(&self, fams: &Vec<&str>, weight: u16, italic: bool, c: Option<char>) -> (r: Option<
        u128,
    >)
        ensures
            match r {
                Some(i) => first_match(self@.all(), texts(fams@), weight, italic, c) == Some(
                    i as int,
                ) && i < self@.all().len(),
                None => first_match(self@.all(), texts(fams@), weight, italic, c) is None,
            },
    {
        let ghost v = self@.all();
        let ghost fs = texts(fams@);
        let mut m: usize = 0;
        proof {
            assert(fs.skip(0) =~= fs);
        }
        while m < fams.len()
            invariant
                m <= fams@.len(),
                fs == texts(fams@),
                v == self@.all(),
                first_match(v, fs, weight, italic, c) == first_match(
                    v,
                    fs.skip(m as int),
                    weight,
                    italic,
                    c,
                ),
            decreases fams@.len() - m,
        {
            proof {
                assert(fs.skip(m as int)[0] == fams@[m as int]@);
                assert(fs.skip(m as int).skip(1) =~= fs.skip(m as int + 1));
            }
            if let Some(i) = self.best_index(fams[m], weight, italic, c) {
                return Some(i);
            }
            m += 1;
        }
        None
    }

    /// The face for the first family that has one, in the order of expansion.
    fn first_index(&self, names: &Vec<&str>, weight: u16, italic: bool, c: Option<char>) -> (r: Option<
        u128,
    >)
        ensures
            match r {
                Some(i) => first_match(
                    self@.all(),
                    expanded_all(texts(names@), self@.generics),
                    weight,
                    italic,
                    c,
                ) == Some(i as int) && i < self@.all().len(),
                None => first_match(
                    self@.all(),
                    expanded_all(texts(names@), self@.generics),
                    weight,
                    italic,
                    c,
                ) is None,
            },
    {
        let ghost ns = texts(names@);
        let ghost g = self@.generics;
        let ghost v = self@.all();
        let ghost whole = expanded_all(ns, g);
        let mut n: usize = 0;
        proof {
            assert(ns.skip(0) =~= ns);
        }
        while n < names.len()
            invariant
                n <= names@.len(),
                ns == texts(names@),
                g == self@.generics,
                v == self@.all(),
                whole == expanded_all(ns, g),
                first_match(v, whole, weight, italic, c) == first_match(
                    v,
                    expanded_all(ns.skip(n as int), g),
                    weight,
                    italic,
                    c,
                ),
            decreases names@.len() - n,
        {
            let fams = self.expand_family(names[n]);
            let ghost fs = texts(fams@);
            let ghost rest = expanded_all(ns.skip(n as int + 1), g);
            proof {
                assert(ns.skip(n as int)[0] == names@[n as int]@);
                assert(ns.skip(n as int).skip(1) =~= ns.skip(n as int + 1));
                lemma_first_match_of_both(v, fs, rest, weight, italic, c);
            }
            if let Some(i) = self.first_of(&fams, weight, italic, c) {
                return Some(i);
            }
            n += 1;
        }
        None
    }

    /// Select the closest face for a list of families, falling back to the first
    /// face of all where no family has one.
    pub fn select(&self, families: &Vec<&str>, weight: u16, italic: bool) -> (r: Option<&FontFace>)
        ensures
            face_view(r) == face_at(self@, selected(self@, texts(families@), weight, italic)),
    {
        match self.first_index(families, weight, italic, None) {
            Some(i) => Some(self.at(i)),
            None => if self.count() > 0 {
                Some(self.at(0))
            } else {
                None
            },
        }
    }

    /// The face that renders `c`: of the families in order, else any face that
    /// covers it.
    pub fn resolve_glyph(&self, families: &Vec<&str>, weight: u16, italic: bool, c: char) -> (r:
        Option<&FontFace>)
        ensures
            face_view(r) == face_at(
                self@,
                resolved_glyph(self@, texts(families@), weight, italic, c),
            ),
    {
        if let Some(i) = self.first_index(families, weight, italic, Some(c)) {
            return Some(self.at(i));
        }
        let n: u128 = self.count();
        let ghost v = self@.all();
        let mut k: u128 = 0;
        proof {
            assert(v.take(0) =~= Seq::empty());
        }
        while k < n
            invariant
                n == v.len(),
                v == self@.all(),
                k <= n,
                first_match(
                    v,
                    expanded_all(texts(families@), self@.generics),
                    weight,
                    italic,
                    Some(c),
                ) is None,
                first_covering(v.take(k as int), c) is None,
            decreases n - k,
        {
            proof {
                assert(v.take(k as int + 1).drop_last() =~= v.take(k as int));
                assert(v.take(k as int + 1).last() == v[k as int]);
            }
            if self.at(k).has_glyph(c) {
                proof {
                    lemma_first_covering(v, c, k as int);
                }
                return Some(self.at(k));
            }
            k += 1;
        }
        proof {
            assert(v.take(n as int) =~= v);
        }
        None
    }
}

/// The first covering face of a prefix is that of the whole.
proof fn lemma_first_covering(v: Seq<FaceV>, c: char, k: int)
    requires
        0 <= k < v.len(),
        first_covering(v.take(k), c) is None,
        v[k].covers(c),
    ensures
        first_covering(v, c) == Some(k),
    decreases v.len(),
{
    if k == v.len() - 1 {
        assert(v.drop_last() =~= v.take(k));
    } else {
        assert(v.drop_last().take(k) =~= v.take(k));
        lemma_first_covering(v.drop_last(), c, k);
    }
}

// --------------------------------------------------------------------------
// generic families of installed fonts
// --------------------------------------------------------------------------

pub open spec fn any_of_family(v: Seq<FaceV>, name: Seq<char>) -> bool {
    exists|i: int| 0 <= i < v.len() && of_family(#[trigger] v[i], name)
}

/// The first candidate family that is installed.
pub open spec fn first_installed(cands: Seq<Seq<char>>, v: Seq<FaceV>) -> Option<Seq<char>>
    decreases cands.len(),
{
    if cands.len() == 0 {
        None
    } else if any_of_family(v, cands[0]) {
        Some(cands[0])
    } else {
        first_installed(cands.skip(1), v)
    }
}

/// Copies of the first `k` faces that are of a family, under another name.
pub open spec fn renamed(v: Seq<FaceV>, family: Seq<char>, name: Seq<char>, k: nat) -> Seq<FaceV>
    decreases k,
{
    if k == 0 || k > v.len() {
        Seq::empty()
    } else {
        let before = renamed(v, family, name, (k - 1) as nat);
        if of_family(v[k - 1], family) {
            before.push(FaceV { family: name, ..v[k - 1] })
        } else {
            before
        }
    }
}

/// The faces with one generic family added: copies of all the faces of its first
/// installed candidate.
pub open spec fn with_alias(v: Seq<FaceV>, generic: Seq<char>, cands: Seq<Seq<char>>) -> Seq<FaceV> {
    match first_installed(cands, v) {
        Some(c) => v + renamed(v, c, generic, v.len()),
        None => v,
    }
}

pub open spec fn sans_candidates() -> Seq<Seq<char>> {
    seq!["Helvetica"@, "Helvetica Neue"@, "Arial"@, "Liberation Sans"@, "DejaVu Sans"@]
}

pub open spec fn serif_candidates() -> Seq<Seq<char>> {
    seq!["Times New Roman"@, "Times"@, "Georgia"@, "Liberation Serif"@, "DejaVu Serif"@]
}

pub open spec fn mono_candidates() -> Seq<Seq<char>> {
    seq!["Menlo"@, "Courier New"@, "Courier"@, "Monaco"@, "DejaVu Sans Mono"@]
}

/// The faces with the three generic families added in turn.
pub open spec fn with_aliases(v: Seq<FaceV>) -> Seq<FaceV> {
    let sans = with_alias(v, "sans-serif"@, sans_candidates());
    let serif = with_alias(sans, "serif"@, serif_candidates());
    with_alias(serif, "monospace"@, mono_candidates())
}

impl FontRegistry {
    fn has_family(&self, name: &str) -> (r: bool)
        ensures
            r == any_of_family(self@.faces, name@),
    {
        let ghost v = self@.faces;
        let mut i: usize = 0;
        while i < self.faces.len()
            invariant
                i <= self.faces@.len(),
                v == faces_view(self.faces@),
                forall|j: int| 0 <= j < i ==> !of_family(#[trigger] v[j], name@),
            decreases self.faces@.len() - i,
        {
            if family_matches(&self.faces[i], name) {
                proof {
                    assert(of_family(v[i as int], name@));
                }
                return true;
            }
            i += 1;
        }
        false
    }

    /// Add copies of the faces of the first installed candidate under a generic
    /// name.
    fn alias_one(&mut self, generic: &str, cands: &Vec<&str>)
        ensures
            final(self)@ == (RegistryV {
                faces: with_alias(old(self)@.faces, generic@, texts(cands@)),
                ..old(self)@
            }),
    {
        let ghost cs = texts(cands@);
        let ghost v = self@.faces;
        let ghost start = self@;
        let mut i: usize = 0;
        proof {
            assert(cs.skip(0) =~= cs);
        }
        while i < cands.len()
            invariant
                i <= cands@.len(),
                cs == texts(cands@),
                v == self@.faces,
                self@ == start,
                start == old(self)@,
                first_installed(cs, v) == first_installed(cs.skip(i as int), v),
            decreases cands@.len() - i,
        {
            proof {
                assert(cs.skip(i as int)[0] == cands@[i as int]@);
                assert(cs.skip(i as int).skip(1) =~= cs.skip(i as int + 1));
            }
            if self.has_family(cands[i]) {
                let cand = cands[i];
                let n: usize = self.faces.len();
                let ghost olds = self.faces@;
                let mut k: usize = 0;
                proof {
                    assert(v + Seq::<FaceV>::empty() =~= v);
                }
                while k < n
                    invariant
                        k <= n,
                        n == olds.len(),
                        v == faces_view(olds),
                        cs == texts(cands@),
                        start.faces == v,
                        start == old(self)@,
                        first_installed(cs, v) == Some(cand@),
                        n <= self.faces@.len(),
                        forall|j: int| 0 <= j < n ==> self.faces@[j] == olds[j],
                        faces_view(self.faces@) == v + renamed(v, cand@, generic@, k as nat),
                        self@.bundled == start.bundled,
                        self@.generics == start.generics,
                    decreases n - k,
                {
                    proof {
                        assert(v[k as int] == self.faces@[k as int]@);
                    }
                    if family_matches(&self.faces[k], cand) {
                        let f = self.faces[k].with_family(generic);
                        proof {
                            let r = renamed(v, cand@, generic@, k as nat);
                            assert(faces_view(self.faces@.push(f)) =~= faces_view(
                                self.faces@,
                            ).push(f@));
                            assert((v + r).push(f@) =~= v + r.push(f@));
                        }
                        self.faces.push(f);
                    }
                    k += 1;
                }
                return;
            }
            i += 1;
        }
    }

    /// Let each CSS generic family stand for the first installed of its usual
    /// families, in all its weights and slants.
    pub fn alias_generics(&mut self)
        ensures
            final(self)@ == (RegistryV {
                faces: with_aliases(old(self)@.faces),
                ..old(self)@
            }),
    {
        let sans: Vec<&str> = vec![
            "Helvetica",
            "Helvetica Neue",
            "Arial",
            "Liberation Sans",
            "DejaVu Sans",
        ];
        let serif: Vec<&str> = vec![
            "Times New Roman",
            "Times",
            "Georgia",
            "Liberation Serif",
            "DejaVu Serif",
        ];
        let mono: Vec<&str> = vec![
            "Menlo",
            "Courier New",
            "Courier",
            "Monaco",
            "DejaVu Sans Mono",
        ];
        proof {
            assert(texts(sans@) =~= sans_candidates());
            assert(texts(serif@) =~= serif_candidates());
            assert(texts(mono@) =~= mono_candidates());
        }
        self.alias_one("sans-serif", &sans);
        self.alias_one("serif", &serif);
        self.alias_one("monospace", &mono);
    }
}

// --------------------------------------------------------------------------
// laws
// --------------------------------------------------------------------------

proof fn lemma_first_match(
    v: Seq<FaceV>,
    fams: Seq<Seq<char>>,
    weight: u16,
    italic: bool,
    c: Option<char>,
)
    ensures
        first_match(v, fams, weight, italic, c) matches Some(b) ==> 0 <= b < v.len() && exists|
            i: int,
        |
            0 <= i < fams.len() && fits(v[b], #[trigger] fams[i], c),
    decreases fams.len(),
{
    if fams.len() > 0 {
        law_best_is_closest(v, fams[0], weight, italic, c);
        if best(v, fams[0], weight, italic, c) is None {
            lemma_first_match(v, fams.skip(1), weight, italic, c);
            if let Some(b) = first_match(v, fams, weight, italic, c) {
                let i = choose|i: int|
                    0 <= i < fams.skip(1).len() && fits(v[b], #[trigger] fams.skip(1)[i], c);
                assert(fits(v[b], fams[i + 1], c));
            }
        }
    }
}

proof fn lemma_first_covering_is(v: Seq<FaceV>, c: char)
    ensures
        match first_covering(v, c) {
            Some(i) => 0 <= i < v.len() && v[i].covers(c),
            None => forall|j: int| 0 <= j < v.len() ==> !(#[trigger] v[j]).covers(c),
        },
    decreases v.len(),
{
    if v.len() > 0 {
        lemma_first_covering_is(v.drop_last(), c);
        if first_covering(v, c) is None {
            assert forall|j: int| 0 <= j < v.len() implies !(#[trigger] v[j]).covers(c) by {
                if j < v.len() - 1 {
                    assert(v.drop_last()[j] == v[j]);
                }
            }
        }
    }
}

/// A face is selected whenever there is any face.
pub proof fn law_selects_unless_empty(
    r: RegistryV,
    names: Seq<Seq<char>>,
    weight: u16,
    italic: bool,
)
    ensures
        match selected(r, names, weight, italic) {
            Some(i) => 0 <= i < r.all().len(),
            None => r.all().len() == 0,
        },
{
    lemma_first_match(r.all(), expanded_all(names, r.generics), weight, italic, None);
}

/// A character resolves to a face that covers it, and does so whenever any face
/// covers it.
pub proof fn law_resolved_glyph_is_covered(
    r: RegistryV,
    names: Seq<Seq<char>>,
    weight: u16,
    italic: bool,
    c: char,
)
    ensures
        match resolved_glyph(r, names, weight, italic, c) {
            Some(i) => 0 <= i < r.all().len() && r.all()[i].covers(c),
            None => forall|j: int| 0 <= j < r.all().len() ==> !(#[trigger] r.all()[j]).covers(c),
        },
{
    lemma_first_match(r.all(), expanded_all(names, r.generics), weight, italic, Some(c));
    lemma_first_covering_is(r.all(), c);
}

/// Adding generic families keeps every face in its place.
pub proof fn law_aliases_only_append(v: Seq<FaceV>)
    ensures
        with_aliases(v).len() >= v.len(),
        with_aliases(v).take(v.len() as int) == v,
{
    let sans = with_alias(v, "sans-serif"@, sans_candidates());
    let serif = with_alias(sans, "serif"@, serif_candidates());
    let mono = with_alias(serif, "monospace"@, mono_candidates());
    assert(sans.take(v.len() as int) =~= v);
    assert(serif.take(v.len() as int) =~= v);
    assert(mono.take(v.len() as int) =~= v);
}

/// Where a candidate of a generic family is installed, the generic name has
/// faces of its own afterwards.
pub proof fn law_installed_candidate_serves_generic(
    v: Seq<FaceV>,
    generic: Seq<char>,
    cands: Seq<Seq<char>>,
)
    requires
        first_installed(cands, v) is Some,
        trimmed(generic) == generic,
    ensures
        any_of_family(with_alias(v, generic, cands), generic),
{
    let c = first_installed(cands, v)->0;
    lemma_installed(cands, v);
    let i = choose|i: int| 0 <= i < v.len() && of_family(#[trigger] v[i], c);
    lemma_renamed_has(v, c, generic, i, v.len());
    let r = renamed(v, c, generic, v.len());
    let w = with_alias(v, generic, cands);
    let j = choose|j: int| 0 <= j < r.len() && (#[trigger] r[j]).family == generic;
    assert(w[v.len() + j] == r[j]);
    assert(of_family(w[v.len() + j], generic));
}

proof fn lemma_installed(cands: Seq<Seq<char>>, v: Seq<FaceV>)
    ensures
        first_installed(cands, v) matches Some(c) ==> any_of_family(v, c),
    decreases cands.len(),
{
    if cands.len() > 0 && !any_of_family(v, cands[0]) {
        lemma_installed(cands.skip(1), v);
    }
}

proof fn lemma_renamed_has(v: Seq<FaceV>, family: Seq<char>, name: Seq<char>, i: int, k: nat)
    requires
        0 <= i < k <= v.len(),
        of_family(v[i], family),
    ensures
        exists|j: int|
            0 <= j < renamed(v, family, name, k).len() && (#[trigger] renamed(
                v,
                family,
                name,
                k,
            )[j]).family == name,
    decreases k,
{
    let r = renamed(v, family, name, k);
    let before = renamed(v, family, name, (k - 1) as nat);
    if of_family(v[k - 1], family) {
        assert(r[before.len() as int].family == name);
    } else {
        lemma_renamed_has(v, family, name, i, (k - 1) as nat);
    }
}

} // verus!
