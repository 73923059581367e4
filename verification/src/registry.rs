use vstd::prelude::*;

use crate::font::FontData;
use crate::font::FontHandle;

verus! {

/// No font in `fonts` has a glyph for the scalar value `u`.
pub open spec fn no_font_supports(fonts: Seq<FontData>, u: u32) -> bool {
    forall|j: int| 0 <= j < fonts.len() ==> !(#[trigger] fonts[j]).supports(u)
}

/// `fonts[i]` has a glyph for `u` and no font before it does: `i` is the index
/// a front-to-back scan stops at.
pub open spec fn is_first_supporting(fonts: Seq<FontData>, u: u32, i: int) -> bool {
    &&& 0 <= i < fonts.len()
    &&& fonts[i].supports(u)
    &&& forall|j: int| 0 <= j < i ==> !(#[trigger] fonts[j]).supports(u)
}

/// An ordered sequence of fonts.  Index 0 is the primary font; every later
/// index is a fallback font in the order it was discovered.  Fonts are only
/// ever appended, never reordered or removed, so an index, once handed out,
/// stays valid and names the same font for the registry's whole life.
#[derive(Debug)]
pub struct FontRegistry {
    fonts: Vec<FontHandle>,
}

impl View for FontRegistry {
    type V = Seq<FontData>;

    closed spec fn view(&self) -> Seq<FontData> {
        self.fonts@.map(|i: int, f: FontHandle| f@)
    }
}

impl FontRegistry {
    /// A registry holding exactly the given fonts; `fonts[0]` becomes the
    /// primary font.
    pub fn from_fonts(fonts: Vec<FontHandle>) -> (r: FontRegistry)
        requires
            fonts@.len() >= 1,
        ensures
            r@.len() == fonts@.len(),
            forall|i: int| 0 <= i < fonts@.len() ==> r@[i] == fonts@[i]@,
    {
        FontRegistry { fonts }
    }

    /// The number of fonts currently registered.
    pub fn len(&self) -> (n: usize)
        ensures
            n == self@.len(),
    {
        self.fonts.len()
    }

    /// The font at index `ix`.  An out-of-range index is a programming error,
    /// not a runtime condition, and is excluded outright.
    pub fn get(&self, ix: usize) -> (f: &FontHandle)
        requires
            ix < self@.len(),
        ensures
            f@ == self@[ix as int],
    {
        &self.fonts[ix]
    }

    /// Appends a fallback font and returns its (stable) index.
    pub fn append(&mut self, f: FontHandle) -> (ix: usize)
        ensures
            ix == old(self)@.len(),
            final(self)@ == old(self)@.push(f@),
    {
        let ix = self.fonts.len();
        self.fonts.push(f);
        proof {
            assert(self@ =~= old(self)@.push(f@));
        }
        ix
    }

    /// Scans the fonts in registry order (primary first, then each fallback in
    /// discovery order) and returns the index of the first font that has a
    /// glyph for `c`, or `None` when no registered font does.
    pub fn first_supporting(&self, c: char) -> (r: Option<usize>)
        ensures
            r matches Some(ix) ==> is_first_supporting(self@, c as u32, ix as int),
            r is None ==> no_font_supports(self@, c as u32),
    {
        let n = self.fonts.len();
        let mut i: usize = 0;
        while i < n
            invariant
                n == self@.len(),
                i <= n,
                forall|j: int| 0 <= j < i ==> !(#[trigger] self@[j]).supports(c as u32),
            decreases n - i,
        {
            if self.fonts[i].supports(c) {
                proof {
                    assert(self@[i as int] == self.fonts@[i as int]@);
                }
                return Some(i);
            }
            proof {
                assert(self@[i as int] == self.fonts@[i as int]@);
            }
            i += 1;
        }
        None
    }
}

} // verus!
