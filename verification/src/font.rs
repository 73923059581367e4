use vstd::prelude::*;

verus! {

/// One contiguous range of Unicode scalar values that a font covers, together
/// with the advance width (in pixels) shared by every character in the range.
#[derive(Debug, Copy, Clone, PartialEq, Eq, Structural)]
pub struct Glyph {
    /// Lowest scalar value of the range.
    pub lo: u32,
    /// Highest scalar value of the range (inclusive).
    pub hi: u32,
    /// Advance width in pixels of each character in the range.
    pub advance: u32,
}

/// Whether `g` covers the Unicode scalar value `u`.
pub open spec fn glyph_covers(g: Glyph, u: u32) -> bool {
    g.lo <= u && u <= g.hi
}

/// The mathematical value of a [`FontHandle`].
pub struct FontData {
    pub ascent: u16,
    pub descent: u16,
    pub glyphs: Seq<Glyph>,
    pub pattern: Option<Seq<char>>,
    pub native: u64,
}

impl FontData {
    /// Whether the font has a glyph for the Unicode scalar value `u`.
    pub open spec fn supports(self, u: u32) -> bool {
        exists|i: int| 0 <= i < self.glyphs.len() && glyph_covers(#[trigger] self.glyphs[i], u)
    }

    /// The advance width of the scalar value `u`: the advance of the first
    /// glyph range that covers `u`, or 0 if the font does not cover `u`.
    pub open spec fn advance(self, u: u32) -> int {
        advance_from(self.glyphs, u, 0)
    }

    /// Total advance width of the first `n` characters of `s` in this font.
    pub open spec fn width_to(self, s: Seq<char>, n: int) -> int
        decreases n,
    {
        if n <= 0 {
            0
        } else {
            self.width_to(s, n - 1) + self.advance(s[n - 1] as u32)
        }
    }

    /// Total advance width of `s` in this font.
    pub open spec fn width(self, s: Seq<char>) -> int {
        self.width_to(s, s.len() as int)
    }

    /// The font's fixed line height: ascent plus descent, independent of any
    /// particular text.
    pub open spec fn height(self) -> int {
        self.ascent + self.descent
    }
}

/// The advance width of `u` in `glyphs[i..]`: the advance of the first range
/// at or after `i` that covers `u`, or 0 if none does.
pub open spec fn advance_from(glyphs: Seq<Glyph>, u: u32, i: int) -> int
    decreases glyphs.len() - i,
{
    if i < 0 || i >= glyphs.len() {
        0
    } else if glyph_covers(glyphs[i], u) {
        glyphs[i].advance as int
    } else {
        advance_from(glyphs, u, i + 1)
    }
}

/// Widths never go negative: every character contributes a non-negative
/// advance.
pub proof fn lemma_width_to_nonneg(f: FontData, s: Seq<char>, n: int)
    ensures
        0 <= f.width_to(s, n),
    decreases n,
{
    if n > 0 {
        lemma_width_to_nonneg(f, s, n - 1);
        lemma_advance_nonneg(f.glyphs, s[n - 1] as u32, 0);
    }
}

/// The advance of any scalar in any glyph table is non-negative.
pub proof fn lemma_advance_nonneg(glyphs: Seq<Glyph>, u: u32, i: int)
    ensures
        0 <= advance_from(glyphs, u, i),
    decreases glyphs.len() - i,
{
    if 0 <= i && i < glyphs.len() && !glyph_covers(glyphs[i], u) {
        lemma_advance_nonneg(glyphs, u, i + 1);
    }
}

/// `x` clamped to the largest value a `u64` can hold.
pub open spec fn saturate64(x: int) -> int {
    if x <= u64::MAX {
        x
    } else {
        u64::MAX as int
    }
}

/// One loaded font: its vertical metrics, the ranges of characters it covers
/// with their advance widths, optionally the style pattern it was opened from
/// (present only for fonts opened by name; fonts discovered as fallbacks need
/// not retain one), and an opaque reference by which the drawing layer finds
/// the native font resource.  Immutable once constructed: a font is never
/// altered in place, only replaced.
#[derive(Debug)]
pub struct FontHandle {
    ascent: u16,
    descent: u16,
    glyphs: Vec<Glyph>,
    pattern: Option<String>,
    native: u64,
}

impl View for FontHandle {
    type V = FontData;

    closed spec fn view(&self) -> FontData {
        FontData {
            ascent: self.ascent,
            descent: self.descent,
            glyphs: self.glyphs@,
            pattern: match self.pattern {
                Some(p) => Some(p@),
                None => None,
            },
            native: self.native,
        }
    }
}

impl FontHandle {
    /// Builds a handle from its parts.
    pub fn new(
        ascent: u16,
        descent: u16,
        glyphs: Vec<Glyph>,
        pattern: Option<String>,
        native: u64,
    ) -> (r: FontHandle)
        ensures
            r@.ascent == ascent,
            r@.descent == descent,
            r@.glyphs == glyphs@,
            r@.native == native,
            pattern matches Some(p) ==> r@.pattern == Some(p@),
            pattern is None ==> r@.pattern is None,
    {
        FontHandle { ascent, descent, glyphs, pattern, native }
    }

    /// Whether this font has a glyph for the character `c`.
    pub fn supports(&self, c: char) -> (r: bool)
        ensures
            r == self@.supports(c as u32),
    {
        let u = c as u32;
        let n = self.glyphs.len();
        let mut i: usize = 0;
        while i < n
            invariant
                u == c as u32,
                n == self.glyphs@.len(),
                i <= n,
                forall|j: int| 0 <= j < i ==> !glyph_covers(#[trigger] self.glyphs@[j], u),
            decreases n - i,
        {
            let g = self.glyphs[i];
            if g.lo <= u && u <= g.hi {
                proof {
                    assert(self@.glyphs == self.glyphs@);
                    assert(glyph_covers(self@.glyphs[i as int], u));
                }
                return true;
            }
            i += 1;
        }
        false
    }

    /// The advance width of `c` in this font; 0 if the font does not cover
    /// `c`.
    pub fn advance_of(&self, c: char) -> (r: u32)
        ensures
            r as int == self@.advance(c as u32),
    {
        let u = c as u32;
        let n = self.glyphs.len();
        let mut i: usize = 0;
        while i < n
            invariant
                u == c as u32,
                n == self.glyphs@.len(),
                i <= n,
                advance_from(self.glyphs@, u, 0) == advance_from(self.glyphs@, u, i as int),
            decreases n - i,
        {
            let g = self.glyphs[i];
            if g.lo <= u && u <= g.hi {
                proof {
                    assert(self@.glyphs == self.glyphs@);
                    assert(glyph_covers(self.glyphs@[i as int], u));
                    assert(advance_from(self.glyphs@, u, i as int) == g.advance);
                }
                return g.advance;
            }
            i += 1;
        }
        0
    }

    /// The pixel extent of `text` rendered in this font: the total advance
    /// width (clamped to `u64::MAX` in the degenerate case that the true sum
    /// exceeds it) and the font's fixed line height.
    pub fn extent(&self, text: &str) -> (r: (u64, u32))
        ensures
            r.0 as int == saturate64(self@.width(text@)),
            r.1 as int == self@.height(),
    {
        let n = text.unicode_len();
        let mut w: u64 = 0;
        let mut i: usize = 0;
        while i < n
            invariant
                n == text@.len(),
                i <= n,
                w as int == saturate64(self@.width_to(text@, i as int)),
            decreases n - i,
        {
            let c = text.get_char(i);
            let a = self.advance_of(c) as u64;
            proof {
                lemma_width_to_nonneg(self@, text@, i as int);
            }
            w = if w > u64::MAX - a {
                u64::MAX
            } else {
                w + a
            };
            i += 1;
        }
        (w, self.height())
    }

    /// Ascent in pixels: the distance from the baseline to the top of the
    /// line box.
    pub fn ascent(&self) -> (r: u16)
        ensures
            r == self@.ascent,
    {
        self.ascent
    }

    /// Descent in pixels: the distance from the baseline to the bottom of the
    /// line box.
    pub fn descent(&self) -> (r: u16)
        ensures
            r == self@.descent,
    {
        self.descent
    }

    /// Line height in pixels: ascent plus descent.
    pub fn height(&self) -> (r: u32)
        ensures
            r as int == self@.height(),
    {
        self.ascent as u32 + self.descent as u32
    }

    /// The style pattern this font was opened from, if it retains one.
    pub fn pattern(&self) -> (r: Option<&String>)
        ensures
            r matches Some(p) ==> self@.pattern == Some(p@),
            r is None ==> self@.pattern is None,
    {
        self.pattern.as_ref()
    }

    /// The opaque reference to the native font resource.
    pub fn native(&self) -> (r: u64)
        ensures
            r == self@.native,
    {
        self.native
    }
}

} // verus!
