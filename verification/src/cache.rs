use vstd::prelude::*;

use std::collections::HashMap;

verus! {

broadcast use vstd::std_specs::hash::group_hash_axioms;

/// The memoized decision for one character.
#[derive(Debug, Copy, Clone, PartialEq, Eq, Structural)]
pub enum CacheEntry {
    /// The font at this registry index renders the character.
    Found(usize),
    /// No font covers the character and fallback discovery failed; the
    /// character degrades to the primary font, which will show a
    /// missing-glyph box.
    Missing,
}

/// The registry index at which a cached character is rendered: the resolved
/// index, or the primary font's index 0 for a character no font covers.
pub open spec fn entry_index(e: CacheEntry) -> int {
    match e {
        CacheEntry::Found(ix) => ix as int,
        CacheEntry::Missing => 0,
    }
}

/// Memoized per-character font decisions, keyed by the character's Unicode
/// scalar value.  Entries are only inserted, never changed, for the life of
/// one font set; the whole cache is cleared when the font set is replaced.
#[derive(Debug)]
pub struct CharFontCache {
    map: HashMap<u32, CacheEntry>,
}

impl View for CharFontCache {
    type V = Map<u32, CacheEntry>;

    closed spec fn view(&self) -> Map<u32, CacheEntry> {
        self.map@
    }
}

impl CharFontCache {
    /// An empty cache.
    pub fn new() -> (r: CharFontCache)
        ensures
            r@ == Map::<u32, CacheEntry>::empty(),
    {
        CharFontCache { map: HashMap::new() }
    }

    /// The cached decision for `c`, if one was made since the last clear.
    pub fn lookup(&self, c: char) -> (r: Option<CacheEntry>)
        ensures
            r matches Some(e) ==> self@.contains_key(c as u32) && self@[c as u32] == e,
            r is None ==> !self@.contains_key(c as u32),
    {
        let key = c as u32;
        match self.map.get(&key) {
            Some(e) => Some(*e),
            None => None,
        }
    }

    /// Records the decision for `c`.
    pub fn insert(&mut self, c: char, e: CacheEntry)
        ensures
            final(self)@ == old(self)@.insert(c as u32, e),
    {
        self.map.insert(c as u32, e);
    }

    /// Forgets every decision; used when the font set is replaced, since the
    /// cached indices refer to the old registry.
    pub fn clear(&mut self)
        ensures
            final(self)@ == Map::<u32, CacheEntry>::empty(),
    {
        self.map.clear();
    }
}

} // verus!
