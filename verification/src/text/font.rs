//! Font faces, as far as choosing one goes.

use vstd::prelude::*;


verus! {

/// A loaded face: its family, weight and slant, the characters it has glyphs for
/// (as ranges of code points, ends included), and the index of its font file
/// among the loaded ones.
#[derive(Debug)]
pub struct FontFace {
    pub family: String,
    pub weight: u16,
    pub italic: bool,
    pub coverage: Vec<(u32, u32)>,
    pub source: usize,
}

/// The mathematical reading of a [`FontFace`].
pub struct FaceV {
    pub family: Seq<char>,
    pub weight: u16,
    pub italic: bool,
    pub coverage: Seq<(u32, u32)>,
    pub source: usize,
}

impl View for FontFace {
    type V = FaceV;

    open spec fn view(&self) -> FaceV {
        FaceV {
            family: self.family@,
            weight: self.weight,
            italic: self.italic,
            coverage: self.coverage@,
            source: self.source,
        }
    }
}

impl FaceV {
    /// Whether the face has a glyph for `c`.
    pub open spec fn covers(self, c: char) -> bool {
        exists|i: int|
            0 <= i < self.coverage.len() && (#[trigger] self.coverage[i]).0 <= c as u32
                <= self.coverage[i].1
    }
}

impl FontFace {
    pub fn new(
        family: String,
        weight: u16,
        italic: bool,
        coverage: Vec<(u32, u32)>,
        source: usize,
    ) -> (r: FontFace)
        ensures
            r@ == (FaceV {
                family: family@,
                weight,
                italic,
                coverage: coverage@,
                source,
            }),
    {
        FontFace { family, weight, italic, coverage, source }
    }

    /// Whether the face has a glyph for `c`.
    pub fn has_glyph(&self, c: char) -> (r: bool)
        ensures
            r == self@.covers(c),
    {
        let n: u32 = c as u32;
        let mut i: usize = 0;
        while i < self.coverage.len()
            invariant
                n == c as u32,
                i <= self.coverage@.len(),
                forall|j: int|
                    0 <= j < i ==> !((#[trigger] self.coverage@[j]).0 <= n <= self.coverage@[j].1),
            decreases self.coverage@.len() - i,
        {
            let (lo, hi): (u32, u32) = self.coverage[i];
            if lo <= n && n <= hi {
                proof {
                    assert(self@.coverage[i as int].0 <= n <= self@.coverage[i as int].1);
                }
                return true;
            }
            i += 1;
        }
        false
    }

    /// The same face under another family name.
    pub fn with_family(&self, family: &str) -> (r: FontFace)
        ensures
            r@ == (FaceV { family: family@, ..self@ }),
    {
        let mut coverage: Vec<(u32, u32)> = Vec::new();
        let mut i: usize = 0;
        while i < self.coverage.len()
            invariant
                i <= self.coverage@.len(),
                coverage@ == self.coverage@.take(i as int),
            decreases self.coverage@.len() - i,
        {
            proof {
                assert(self.coverage@.take(i as int + 1) =~= self.coverage@.take(i as int).push(
                    self.coverage@[i as int],
                ));
            }
            coverage.push(self.coverage[i]);
            i += 1;
        }
        proof {
            assert(self.coverage@.take(i as int) =~= self.coverage@);
        }
        FontFace {
            family: family.to_owned(),
            weight: self.weight,
            italic: self.italic,
            coverage,
            source: self.source,
        }
    }
}

/// Whether a file extension, in lower case, is that of a font file.
pub open spec fn font_extension(lower_ext: Seq<char>) -> bool {
    lower_ext == "ttf"@ || lower_ext == "otf"@ || lower_ext == "ttc"@
}

/// Whether a file extension, in either case, is that of a font file.
pub fn is_font_extension(ext: &str) -> (r: bool)
    ensures
        r == font_extension(crate::scan::lower(ext@)),
{
    let low = crate::scan::to_lower(ext);
    crate::scan::same(low.as_str(), "ttf") || crate::scan::same(low.as_str(), "otf")
        || crate::scan::same(low.as_str(), "ttc")
}

} // verus!
