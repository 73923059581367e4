use vstd::prelude::*;

use crate::cache::CacheEntry;
use crate::cache::CharFontCache;
use crate::cache::entry_index;
use crate::error::Error;
use crate::font::FontData;
use crate::font::FontHandle;
use crate::registry::FontRegistry;
use crate::registry::is_first_supporting;
use crate::registry::no_font_supports;

verus! {

/// The system font service, seen from the engine: it opens a font by name
/// when the font set is configured, and, given the primary font's style
/// pattern, finds a font able to render one character when no registered font
/// can.  What it returns is entirely its own affair; every contract of the
/// engine holds for any answer.
pub trait FallbackSource {
    /// Opens the named font, or reports why it cannot.
    fn open_by_name(&mut self, name: &str) -> Result<FontHandle, Error>;

    /// Finds a font, stylistically close to `pattern`, that can render `c`;
    /// `None` when the system knows no such font.
    fn match_char(&mut self, pattern: &str, c: char) -> Option<FontHandle>;
}

/// The mathematical value of a [`FontResolver`]: the registered fonts in
/// order, and the memoized per-character decisions keyed by Unicode scalar
/// value.
#[verifier::ext_equal]
pub struct ResolverState {
    pub fonts: Seq<FontData>,
    pub cache: Map<u32, CacheEntry>,
}

impl ResolverState {
    /// What a cache entry for scalar `u` promises: a `Found` index is in
    /// range and no font before it covers `u` (so it is exactly where a scan
    /// would stop, or a fallback appended when no earlier font could help);
    /// `Missing` means in particular that the primary font does not cover
    /// `u`.
    pub open spec fn entry_ok(self, u: u32) -> bool {
        match self.cache[u] {
            CacheEntry::Found(ix) => ix < self.fonts.len() && (forall|j: int|
                0 <= j < ix ==> !(#[trigger] self.fonts[j]).supports(u)),
            CacheEntry::Missing => !self.fonts[0].supports(u),
        }
    }

    /// Well-formedness: the registry is never empty, and every cached entry
    /// keeps its promise.
    pub open spec fn wf(self) -> bool {
        &&& self.fonts.len() >= 1
        &&& forall|u: u32| #[trigger] self.cache.contains_key(u) ==> self.entry_ok(u)
    }

    /// How a state may evolve between font-set resets: fonts are only
    /// appended and cached decisions are never dropped or changed.
    pub open spec fn extends(self, pre: ResolverState) -> bool {
        &&& pre.fonts.is_prefix_of(self.fonts)
        &&& pre.cache.submap_of(self.cache)
    }

    /// The index a resolution of scalar `u` must yield in this state, if the
    /// cache already holds a decision for `u`.
    pub open spec fn cached_index(self, u: u32) -> int {
        entry_index(self.cache[u])
    }
}

/// Evolution is transitive: a state reached by any sequence of resolutions
/// extends every earlier state of the sequence.
pub proof fn lemma_extends_transitive(a: ResolverState, b: ResolverState, c: ResolverState)
    requires
        b.extends(a),
        c.extends(b),
    ensures
        c.extends(a),
{
    assert(a.fonts =~= c.fonts.subrange(0, a.fonts.len() as int)) by {
        assert(forall|i: int| 0 <= i < a.fonts.len() ==> a.fonts[i] == b.fonts[i]);
        assert(forall|i: int| 0 <= i < b.fonts.len() ==> b.fonts[i] == c.fonts[i]);
    }
    assert forall|k: u32| #[trigger] a.cache.dom().contains(k) implies c.cache.dom().contains(k)
        && a.cache[k] == c.cache[k] by {
        assert(b.cache.dom().contains(k));
    }
}

/// Cache monotonicity: once a character has a cached decision, that decision
/// — and with it the index that `resolve` returns for the character — is the
/// same in every later state, until the font set is reset.
pub proof fn lemma_cached_decision_stable(pre: ResolverState, post: ResolverState, u: u32)
    requires
        post.extends(pre),
        pre.cache.contains_key(u),
    ensures
        post.cache.contains_key(u),
        post.cache[u] == pre.cache[u],
        post.cached_index(u) == pre.cached_index(u),
{
}

/// Append-only registry: every font index that was valid stays valid and
/// names the same font in every later state; in particular the font at index
/// 0 remains the originally configured primary font after any sequence of
/// resolutions.
pub proof fn lemma_registry_stable(pre: ResolverState, post: ResolverState, i: int)
    requires
        post.extends(pre),
        0 <= i < pre.fonts.len(),
    ensures
        i < post.fonts.len(),
        post.fonts[i] == pre.fonts[i],
{
    assert(pre.fonts[i] == pre.fonts.subrange(0, pre.fonts.len() as int)[i]);
}

/// Idempotent reset: a reset that succeeds installs exactly the loaded fonts
/// and an empty cache, nothing else, so two resets that install the same font
/// list leave indistinguishable states — and with them identical resolution
/// behavior for every character: the same scan outcome, and the same verdict
/// on whether fallback discovery is needed.
pub proof fn lemma_reset_idempotent(a: ResolverState, b: ResolverState)
    requires
        a.fonts == b.fonts,
        a.cache == Map::<u32, CacheEntry>::empty(),
        b.cache == Map::<u32, CacheEntry>::empty(),
    ensures
        a == b,
        forall|u: u32, i: int|
            #[trigger] is_first_supporting(a.fonts, u, i) <==> #[trigger] is_first_supporting(
                b.fonts,
                u,
                i,
            ),
        forall|u: u32|
            #[trigger] no_font_supports(a.fonts, u) <==> #[trigger] no_font_supports(b.fonts, u),
{
    assert(a =~= b);
}

/// Resolves characters to font indices.  It consults the cache first, then
/// scans the registered fonts in order, and only when both miss asks the
/// fallback source for a new font, which is appended to the registry; a
/// character that even the source cannot place degrades to the primary font.
#[derive(Debug)]
pub struct FontResolver {
    registry: FontRegistry,
    cache: CharFontCache,
}

impl View for FontResolver {
    type V = ResolverState;

    closed spec fn view(&self) -> ResolverState {
        ResolverState { fonts: self.registry@, cache: self.cache@ }
    }
}

impl FontResolver {
    /// A resolver over the given fonts — `fonts[0]` is the primary font —
    /// with an empty cache.
    pub fn new(fonts: Vec<FontHandle>) -> (r: FontResolver)
        requires
            fonts@.len() >= 1,
        ensures
            r@.wf(),
            r@.cache == Map::<u32, CacheEntry>::empty(),
            r@.fonts.len() == fonts@.len(),
            forall|i: int| 0 <= i < fonts@.len() ==> r@.fonts[i] == fonts@[i]@,
    {
        FontResolver { registry: FontRegistry::from_fonts(fonts), cache: CharFontCache::new() }
    }

    /// Opens each name in order through `source` and installs the loaded
    /// fonts, the first name as the primary font.  Fails on the first name
    /// the source cannot open, with that name's error.
    pub fn try_new<S: FallbackSource>(names: &Vec<String>, source: &mut S) -> (r: Result<
        FontResolver,
        Error,
    >)
        requires
            names@.len() >= 1,
        ensures
            r matches Ok(fs) ==> fs@.wf() && fs@.cache == Map::<u32, CacheEntry>::empty()
                && fs@.fonts.len() == names@.len(),
    {
        let mut fonts: Vec<FontHandle> = Vec::new();
        let n = names.len();
        let mut i: usize = 0;
        while i < n
            invariant
                n == names@.len(),
                i <= n,
                fonts@.len() == i,
            decreases n - i,
        {
            match source.open_by_name(names[i].as_str()) {
                Ok(f) => fonts.push(f),
                Err(e) => {
                    return Err(e);
                },
            }
            i += 1;
        }
        Ok(FontResolver::new(fonts))
    }

    /// Replaces the whole font set: opens each name in order through
    /// `source`, installs the loaded fonts (the first as primary), and clears
    /// the cache.  Atomic: if any name fails to open, the previous fonts and
    /// cache are left exactly as they were and the error names the failure.
    pub fn reset<S: FallbackSource>(&mut self, names: &Vec<String>, source: &mut S) -> (r: Result<
        (),
        Error,
    >)
        requires
            old(self)@.wf(),
            names@.len() >= 1,
        ensures
            final(self)@.wf(),
            r is Ok ==> final(self)@.cache == Map::<u32, CacheEntry>::empty()
                && final(self)@.fonts.len() == names@.len(),
            r is Err ==> final(self)@ == old(self)@,
    {
        let mut fonts: Vec<FontHandle> = Vec::new();
        let n = names.len();
        let mut i: usize = 0;
        while i < n
            invariant
                n == names@.len(),
                i <= n,
                fonts@.len() == i,
                self@ == old(self)@,
                old(self)@.wf(),
            decreases n - i,
        {
            match source.open_by_name(names[i].as_str()) {
                Ok(f) => fonts.push(f),
                Err(e) => {
                    return Err(e);
                },
            }
            i += 1;
        }
        self.registry = FontRegistry::from_fonts(fonts);
        self.cache.clear();
        Ok(())
    }

    /// The number of registered fonts (primary plus discovered fallbacks).
    pub fn font_count(&self) -> (n: usize)
        ensures
            n == self@.fonts.len(),
    {
        self.registry.len()
    }

    /// The font at registry index `ix`.
    pub fn font(&self, ix: usize) -> (f: &FontHandle)
        requires
            ix < self@.fonts.len(),
        ensures
            f@ == self@.fonts[ix as int],
    {
        self.registry.get(ix)
    }

    /// The memoized decision for `c`, if the cache holds one: a peek that
    /// never changes any state.
    pub fn cached(&self, c: char) -> (r: Option<CacheEntry>)
        ensures
            r matches Some(e) ==> self@.cache.contains_key(c as u32) && self@.cache[c as u32] == e,
            r is None ==> !self@.cache.contains_key(c as u32),
    {
        self.cache.lookup(c)
    }

    /// The registry index of the font that renders `c`.  Never fails: a
    /// character that no font covers degrades to the primary font's index 0,
    /// and the `NoFallbackFontForChar` diagnostic is returned — exactly once
    /// per character and font set, since the degraded decision is cached too.
    ///
    /// The decision procedure, in order: the cache (the hot path); the
    /// registered fonts, primary first, then fallbacks in discovery order;
    /// fallback discovery through `source`, keyed by the primary font's
    /// style pattern.  A discovered font is appended to the registry.  The
    /// cache is extended with the decision in every path, so a later call
    /// for the same character returns the same index without further work.
    pub fn resolve<S: FallbackSource>(&mut self, c: char, source: &mut S) -> (r: (
        usize,
        Option<Error>,
    ))
        requires
            old(self)@.wf(),
        ensures
            final(self)@.wf(),
            final(self)@.extends(old(self)@),
            final(self)@.cache.contains_key(c as u32),
            r.0 as int == final(self)@.cached_index(c as u32),
            r.0 < final(self)@.fonts.len(),
            old(self)@.cache.contains_key(c as u32) ==> final(self)@ == old(self)@ && r.1 is None,
            !old(self)@.cache.contains_key(c as u32) && !no_font_supports(old(self)@.fonts, c as u32)
                ==> {
                &&& final(self)@.fonts == old(self)@.fonts
                &&& final(self)@.cache == old(self)@.cache.insert(
                    c as u32,
                    CacheEntry::Found(r.0),
                )
                &&& is_first_supporting(old(self)@.fonts, c as u32, r.0 as int)
                &&& r.1 is None
            },
            !old(self)@.cache.contains_key(c as u32) && no_font_supports(old(self)@.fonts, c as u32)
                ==> ({
                ||| {
                    &&& final(self)@.fonts.len() == old(self)@.fonts.len() + 1
                    &&& old(self)@.fonts.is_prefix_of(final(self)@.fonts)
                    &&& r.0 == old(self)@.fonts.len()
                    &&& final(self)@.cache == old(self)@.cache.insert(
                        c as u32,
                        CacheEntry::Found(r.0),
                    )
                    &&& r.1 is None
                }
                ||| {
                    &&& final(self)@.fonts == old(self)@.fonts
                    &&& r.0 == 0
                    &&& final(self)@.cache == old(self)@.cache.insert(
                        c as u32,
                        CacheEntry::Missing,
                    )
                    &&& r.1 == Some(Error::NoFallbackFontForChar(c))
                }
            }),
            !old(self)@.cache.contains_key(c as u32) && no_font_supports(old(self)@.fonts, c as u32)
                && old(self)@.fonts[0].pattern is None ==> final(self)@.fonts == old(self)@.fonts
                && r.0 == 0 && r.1 == Some(Error::NoFallbackFontForChar(c)),
    {
        let u = c as u32;
        // Hot path: the memoized decision.
        if let Some(e) = self.cache.lookup(c) {
            let ix = match e {
                CacheEntry::Found(ix) => ix,
                CacheEntry::Missing => 0,
            };
            proof {
                assert(old(self)@.entry_ok(u));
            }
            return (ix, None);
        }
        // Scan the known fonts, primary first, fallbacks in discovery order.
        if let Some(ix) = self.registry.first_supporting(c) {
            self.cache.insert(c, CacheEntry::Found(ix));
            proof {
                lemma_wf_after_insert(old(self)@, self@, u, CacheEntry::Found(ix));
            }
            return (ix, None);
        }
        // Full miss: ask the fallback source, keyed by the primary font's
        // style pattern.  A font without a pattern cannot anchor discovery.
        let matched = match self.registry.get(0).pattern() {
            Some(p) => source.match_char(p.as_str(), c),
            None => None,
        };
        match matched {
            Some(f) => {
                let ix = self.registry.append(f);
                self.cache.insert(c, CacheEntry::Found(ix));
                proof {
                    assert(old(self)@.fonts.is_prefix_of(self@.fonts)) by {
                        assert(old(self)@.fonts =~= self@.fonts.subrange(
                            0,
                            old(self)@.fonts.len() as int,
                        ));
                    }
                    lemma_wf_after_insert(
                        ResolverState { fonts: self@.fonts, cache: old(self)@.cache },
                        self@,
                        u,
                        CacheEntry::Found(ix),
                    );
                }
                (ix, None)
            },
            None => {
                self.cache.insert(c, CacheEntry::Missing);
                proof {
                    lemma_wf_after_insert(old(self)@, self@, u, CacheEntry::Missing);
                }
                (0, Some(Error::NoFallbackFontForChar(c)))
            },
        }
    }
}

/// Inserting an entry that keeps its promise preserves well-formedness, as
/// long as the fonts do not change and the promises of the old entries are
/// intact.
proof fn lemma_wf_after_insert(pre: ResolverState, post: ResolverState, u: u32, e: CacheEntry)
    requires
        pre.fonts.len() >= 1,
        forall|v: u32| #[trigger] pre.cache.contains_key(v) ==> pre.entry_ok(v),
        !pre.cache.contains_key(u),
        post.fonts == pre.fonts,
        post.cache == pre.cache.insert(u, e),
        post.entry_ok(u),
    ensures
        post.wf(),
        pre.cache.submap_of(post.cache),
{
    assert forall|v: u32| #[trigger] post.cache.contains_key(v) implies post.entry_ok(v) by {
        if v != u {
            assert(pre.cache.contains_key(v));
            assert(post.cache[v] == pre.cache[v]);
        }
    }
    assert forall|v: u32| #[trigger] pre.cache.dom().contains(v) implies post.cache.dom().contains(
        v,
    ) && pre.cache[v] == post.cache[v] by {
        assert(v != u);
    }
}

} // verus!
