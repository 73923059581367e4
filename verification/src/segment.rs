use vstd::prelude::*;

use vstd::utf8::char_u32_cast;

use crate::cache::CacheEntry;
use crate::error::Error;
use crate::font::FontData;
use crate::registry::is_first_supporting;
use crate::registry::no_font_supports;
use crate::resolver::FallbackSource;
use crate::resolver::FontResolver;
use crate::resolver::ResolverState;
use crate::resolver::lemma_extends_transitive;

verus! {

/// One maximal group of consecutive characters that share a font: the
/// half-open range `start..end` of character positions in the segmented text,
/// and the registry index of the font that renders every character in it.
/// Runs are produced fresh by every segmentation and never cached; only the
/// per-character decisions behind them are.
#[derive(Debug, Copy, Clone, PartialEq, Eq, Structural)]
pub struct Run {
    /// Position of the first character of the run.
    pub start: usize,
    /// Position one past the last character of the run.
    pub end: usize,
    /// Registry index of the font that renders the run.
    pub font: usize,
}

impl Run {
    /// The run's substring of the text it was produced from.
    pub fn slice<'a>(&self, text: &'a str) -> (r: &'a str)
        requires
            self.start <= self.end <= text@.len(),
        ensures
            r@ == text@.subrange(self.start as int, self.end as int),
    {
        text.substring_char(self.start, self.end)
    }
}

/// `runs` tile the positions `p..upto` exactly: each run is non-empty, begins
/// where its predecessor ended (the first at `p`), and the last ends at
/// `upto`.  No gaps, no overlaps, left to right.
pub open spec fn runs_cover_from(runs: Seq<Run>, upto: int, p: int) -> bool
    decreases runs.len(),
{
    if runs.len() == 0 {
        p == upto
    } else {
        &&& runs[0].start == p
        &&& p < runs[0].end <= upto
        &&& runs_cover_from(runs.drop_first(), upto, runs[0].end as int)
    }
}

/// No two adjacent runs share a font index: had they shared one, they would
/// have been a single run.
pub open spec fn runs_adjacent_distinct(runs: Seq<Run>) -> bool {
    forall|i: int| 0 < i < runs.len() ==> (#[trigger] runs[i]).font != runs[i - 1].font
}

/// `st`'s cache holds a decision for the character `c`, and the decision is
/// the font at registry index `font`.
pub open spec fn decided(st: ResolverState, c: char, font: int) -> bool {
    st.cache.contains_key(c as u32) && st.cached_index(c as u32) == font
}

/// Every character position of `r` carries a cached decision, and that
/// decision is the run's font.
pub open spec fn run_resolved(r: Run, text: Seq<char>, st: ResolverState) -> bool {
    forall|j: int| r.start <= j < r.end ==> #[trigger] decided(st, text[j], r.font as int)
}

/// Every run's characters resolve, in `st`'s cache, to that run's font.
pub open spec fn runs_resolved(runs: Seq<Run>, text: Seq<char>, st: ResolverState) -> bool {
    forall|i: int| 0 <= i < runs.len() ==> run_resolved(#[trigger] runs[i], text, st)
}

/// Every font index named by a run is a valid registry index in `st`.
pub open spec fn runs_fonts_valid(runs: Seq<Run>, st: ResolverState) -> bool {
    forall|i: int| 0 <= i < runs.len() ==> (#[trigger] runs[i]).font < st.fonts.len()
}

/// `e` is a `NoFallbackFontForChar` diagnostic for a character of `text`
/// whose cached decision in `st` is `Missing`.
pub open spec fn reported(e: Error, text: Seq<char>, st: ResolverState) -> bool {
    e matches Error::NoFallbackFontForChar(c) && text.contains(c) && st.cache.contains_key(
        c as u32,
    ) && st.cache[c as u32] == CacheEntry::Missing
}

/// Every diagnostic is a `NoFallbackFontForChar` for a character of `text`
/// whose cached decision in `st` is `Missing`.
pub open spec fn diagnostics_wf(errs: Seq<Error>, text: Seq<char>, st: ResolverState) -> bool {
    forall|k: int| 0 <= k < errs.len() ==> #[trigger] reported(errs[k], text, st)
}

/// No character is reported twice: fallback failure is cached, so discovery —
/// and with it the diagnostic — happens at most once per character.
pub open spec fn diagnostics_distinct(errs: Seq<Error>) -> bool {
    forall|k1: int, k2: int| 0 <= k1 < k2 < errs.len() ==> errs[k1] != errs[k2]
}

/// The first `upto` characters of `text` all carry a cached decision in
/// `st`.
pub open spec fn chars_resolved(text: Seq<char>, st: ResolverState, upto: int) -> bool {
    forall|j: int| 0 <= j < upto ==> st.cache.contains_key((#[trigger] text[j]) as u32)
}

/// Between `pre` and `post`, the character `c` went from undecided to
/// decided with no font at all.
pub open spec fn newly_missing(pre: ResolverState, post: ResolverState, c: char) -> bool {
    &&& !pre.cache.contains_key(c as u32)
    &&& post.cache.contains_key(c as u32)
    &&& post.cache[c as u32] == CacheEntry::Missing
}

/// No failure goes unreported: every one of the first `upto` characters of
/// `text` that went from undecided in `pre` to decided-as-`Missing` in `post`
/// has its `NoFallbackFontForChar` diagnostic in `errs`.
pub open spec fn diagnostics_complete(
    errs: Seq<Error>,
    text: Seq<char>,
    pre: ResolverState,
    post: ResolverState,
    upto: int,
) -> bool {
    forall|j: int|
        0 <= j < upto && newly_missing(pre, post, #[trigger] text[j]) ==> errs.contains(
            Error::NoFallbackFontForChar(text[j]),
        )
}

/// If `c` was undecided in `pre` but decided by `post`, and some font already
/// registered in `pre` covers `c`, then the decision is exactly where a scan
/// of `pre`'s fonts stops: no decision can skip over, or invent, a covering
/// font that was already there.
pub open spec fn scan_consistent(pre: ResolverState, post: ResolverState, c: char) -> bool {
    (!pre.cache.contains_key(c as u32) && post.cache.contains_key(c as u32) && !no_font_supports(
        pre.fonts,
        c as u32,
    )) ==> (post.cache[c as u32] matches CacheEntry::Found(ix) && is_first_supporting(
        pre.fonts,
        c as u32,
        ix as int,
    ))
}

/// [`scan_consistent`] for each of the first `upto` characters of `text`.
pub open spec fn scans_consistent(
    text: Seq<char>,
    pre: ResolverState,
    post: ResolverState,
    upto: int,
) -> bool {
    forall|j: int| 0 <= j < upto ==> scan_consistent(pre, post, #[trigger] text[j])
}

/// The decisions made between `pre` and `post` concern only the first `upto`
/// characters of `text`: no other key appears in the cache.
pub open spec fn cache_keys_from(
    pre: ResolverState,
    post: ResolverState,
    text: Seq<char>,
    upto: int,
) -> bool {
    forall|u: u32|
        #[trigger] post.cache.contains_key(u) ==> pre.cache.contains_key(u) || (exists|j: int|
            0 <= j < upto && (#[trigger] text[j]) as u32 == u)
}

/// A scan of a grown registry stops at the same index as a scan of the
/// original one, for any character that the original fonts already cover.
proof fn lemma_first_supporting_prefix(
    pre_fonts: Seq<FontData>,
    post_fonts: Seq<FontData>,
    u: u32,
    ix: int,
)
    requires
        pre_fonts.is_prefix_of(post_fonts),
        !no_font_supports(pre_fonts, u),
        is_first_supporting(post_fonts, u, ix),
    ensures
        is_first_supporting(pre_fonts, u, ix),
{
    assert(exists|j: int| 0 <= j < pre_fonts.len() && (#[trigger] pre_fonts[j]).supports(u));
    let j0 = choose|j: int| 0 <= j < pre_fonts.len() && (#[trigger] pre_fonts[j]).supports(u);
    assert(pre_fonts[j0] == post_fonts[j0]);
    assert(ix <= j0);
    assert forall|j: int| 0 <= j < ix implies !(#[trigger] pre_fonts[j]).supports(u) by {
        assert(pre_fonts[j] == post_fonts[j]);
    }
    assert(pre_fonts[ix] == post_fonts[ix]);
}

/// What a sequence contains, it still contains after a push.
proof fn lemma_contains_after_push<A>(s: Seq<A>, pushed: A, x: A)
    requires
        s.contains(x),
    ensures
        s.push(pushed).contains(x),
{
    let k = choose|k: int| 0 <= k < s.len() && s[k] == x;
    assert(s.push(pushed)[k] == x);
}

/// The indexed reading of a tiling: every run sits inside `p..upto` and is
/// non-empty, each run begins where its predecessor ended, the first begins
/// at `p` and the last ends at `upto`.
pub proof fn lemma_cover_indexed(runs: Seq<Run>, upto: int, p: int)
    requires
        runs_cover_from(runs, upto, p),
    ensures
        forall|i: int|
            0 <= i < runs.len() ==> p <= (#[trigger] runs[i]).start < runs[i].end <= upto,
        forall|i: int| 0 < i < runs.len() ==> (#[trigger] runs[i]).start == runs[i - 1].end,
        runs.len() == 0 ==> p == upto,
        runs.len() > 0 ==> runs[0].start == p && runs[runs.len() - 1].end == upto,
    decreases runs.len(),
{
    if runs.len() > 0 {
        let rest = runs.drop_first();
        lemma_cover_indexed(rest, upto, runs[0].end as int);
        assert forall|i: int|
            0 <= i < runs.len() implies p <= (#[trigger] runs[i]).start < runs[i].end <= upto by {
            if i > 0 {
                assert(rest[i - 1] == runs[i]);
            }
        }
        assert forall|i: int| 0 < i < runs.len() implies (#[trigger] runs[i]).start == runs[i
            - 1].end by {
            assert(rest[i - 1] == runs[i]);
            if i > 1 {
                assert(rest[i - 2] == runs[i - 1]);
            }
        }
        if runs.len() > 1 {
            assert(rest[runs.len() - 2] == runs[runs.len() - 1]);
        }
    }
}

/// Scenario of a text entirely inside the primary font's coverage: resolved
/// from a fresh cache, it always comes back as one single run, rendered by
/// the primary font.  Follows from what `segment` ensures, for every fallback
/// source.
pub proof fn lemma_primary_single_run(
    runs: Seq<Run>,
    text: Seq<char>,
    pre: ResolverState,
    post: ResolverState,
)
    requires
        text.len() > 0,
        pre.fonts.len() >= 1,
        pre.cache == Map::<u32, CacheEntry>::empty(),
        forall|j: int| 0 <= j < text.len() ==> pre.fonts[0].supports((#[trigger] text[j]) as u32),
        runs_cover_from(runs, text.len() as int, 0),
        runs_resolved(runs, text, post),
        runs_adjacent_distinct(runs),
        scans_consistent(text, pre, post, text.len() as int),
        chars_resolved(text, post, text.len() as int),
    ensures
        runs.len() == 1,
        runs[0].start == 0,
        runs[0].end == text.len(),
        runs[0].font == 0,
{
    lemma_cover_indexed(runs, text.len() as int, 0);
    assert forall|j: int| 0 <= j < text.len() implies #[trigger] decided(post, text[j], 0) by {
        let u = text[j] as u32;
        assert(scan_consistent(pre, post, text[j]));
        assert(!no_font_supports(pre.fonts, u)) by {
            assert(pre.fonts[0].supports(u));
        }
        match post.cache[u] {
            CacheEntry::Found(ix) => {
                assert(is_first_supporting(pre.fonts, u, ix as int));
                if ix > 0 {
                    assert(!pre.fonts[0].supports(u));
                }
                assert(ix == 0);
            },
            CacheEntry::Missing => {
                assert(false);
            },
        }
    }
    assert forall|i: int| 0 <= i < runs.len() implies (#[trigger] runs[i]).font == 0 by {
        assert(run_resolved(runs[i], text, post));
        let j = runs[i].start as int;
        assert(decided(post, text[j], runs[i].font as int));
        assert(decided(post, text[j], 0));
    }
    if runs.len() > 1 {
        assert(runs[1].font != runs[0].font);
        assert(false);
    }
}

/// The concatenation, in order, of the runs' substrings of `text`.
pub open spec fn runs_text(runs: Seq<Run>, text: Seq<char>) -> Seq<char>
    decreases runs.len(),
{
    if runs.len() == 0 {
        Seq::empty()
    } else {
        text.subrange(runs[0].start as int, runs[0].end as int) + runs_text(
            runs.drop_first(),
            text,
        )
    }
}

/// Appending a run that starts where the previous coverage ended extends the
/// coverage to the new run's end.
proof fn lemma_cover_push(runs: Seq<Run>, r: Run, p: int)
    requires
        runs_cover_from(runs, r.start as int, p),
        r.start < r.end,
    ensures
        runs_cover_from(runs.push(r), r.end as int, p),
    decreases runs.len(),
{
    let rr = runs.push(r);
    assert(runs_cover_from(runs, r.start as int, p));
    if runs.len() == 0 {
        assert(p == r.start as int);
        assert(rr[0] == r);
        assert(rr.drop_first() =~= Seq::<Run>::empty());
        assert(runs_cover_from(rr.drop_first(), r.end as int, r.end as int));
        assert(runs_cover_from(rr, r.end as int, p));
    } else {
        assert(rr[0] == runs[0]);
        lemma_cover_push(runs.drop_first(), r, runs[0].end as int);
        assert(rr.drop_first() =~= runs.drop_first().push(r));
        assert(runs_cover_from(rr.drop_first(), r.end as int, runs[0].end as int));
        assert(runs_cover_from(rr, r.end as int, p));
    }
}

/// Runs that tile `p..text.len()` spell out exactly that part of the text.
proof fn lemma_runs_text_cover(runs: Seq<Run>, text: Seq<char>, p: int)
    requires
        0 <= p,
        runs_cover_from(runs, text.len() as int, p),
    ensures
        runs_text(runs, text) == text.subrange(p, text.len() as int),
    decreases runs.len(),
{
    if runs.len() == 0 {
        assert(runs_text(runs, text) =~= text.subrange(p, text.len() as int));
    } else {
        lemma_runs_text_cover(runs.drop_first(), text, runs[0].end as int);
        assert(text.subrange(p, text.len() as int) =~= text.subrange(p, runs[0].end as int)
            + text.subrange(runs[0].end as int, text.len() as int));
        assert(runs_text(runs, text) =~= text.subrange(p, text.len() as int));
    }
}

/// Partition property: concatenating the substrings of every run produced by
/// a segmentation, in order, reproduces the segmented text exactly — no
/// characters dropped, duplicated, or reordered.
pub proof fn lemma_runs_concat(runs: Seq<Run>, text: Seq<char>)
    requires
        runs_cover_from(runs, text.len() as int, 0),
    ensures
        runs_text(runs, text) == text,
{
    lemma_runs_text_cover(runs, text, 0);
    assert(text.subrange(0, text.len() as int) =~= text);
}

/// Cached decisions outlive later resolutions: every run that was resolved
/// against an earlier state is still resolved, to the same fonts, in any
/// state that extends it.
pub proof fn lemma_resolved_stable(
    runs: Seq<Run>,
    text: Seq<char>,
    pre: ResolverState,
    post: ResolverState,
)
    requires
        runs_resolved(runs, text, pre),
        post.extends(pre),
    ensures
        runs_resolved(runs, text, post),
{
    assert forall|i: int| 0 <= i < runs.len() implies run_resolved(
        #[trigger] runs[i],
        text,
        post,
    ) by {
        assert(run_resolved(runs[i], text, pre));
        assert forall|j: int| runs[i].start <= j < runs[i].end implies #[trigger] decided(
            post,
            text[j],
            runs[i].font as int,
        ) by {
            assert(decided(pre, text[j], runs[i].font as int));
            lemma_decided_stable(pre, post, text[j], runs[i].font as int);
        }
    }
}

/// A decision, once cached, is the same in every state that extends the one
/// it was made in.
pub proof fn lemma_decided_stable(pre: ResolverState, post: ResolverState, c: char, font: int)
    requires
        decided(pre, c, font),
        post.extends(pre),
    ensures
        decided(post, c, font),
{
    assert(pre.cache.dom().contains(c as u32));
}

/// Diagnostics remain accurate in any state that extends the one they were
/// produced against.
proof fn lemma_diagnostics_stable(
    errs: Seq<Error>,
    text: Seq<char>,
    pre: ResolverState,
    post: ResolverState,
)
    requires
        diagnostics_wf(errs, text, pre),
        post.extends(pre),
    ensures
        diagnostics_wf(errs, text, post),
{
    assert forall|k: int| 0 <= k < errs.len() implies #[trigger] reported(
        errs[k],
        text,
        post,
    ) by {
        assert(reported(errs[k], text, pre));
        match errs[k] {
            Error::NoFallbackFontForChar(c) => {
                assert(pre.cache.dom().contains(c as u32));
            },
            _ => {},
        }
    }
}

/// Splits `text` into its ordered sequence of runs: a single left-to-right
/// scan resolves each character through `fs` (discovering fallback fonts on
/// demand through `source`), extends the current run while the font index
/// stays the same, and closes it when the index changes.  The empty string
/// yields no runs, not one empty run.  Also returns the diagnostics of the
/// characters first discovered, during this scan, to have no font — each such
/// character is reported at most once per font set, and never aborts the
/// scan.
pub fn segment<S: FallbackSource>(fs: &mut FontResolver, source: &mut S, text: &str) -> (r: (
    Vec<Run>,
    Vec<Error>,
))
    requires
        old(fs)@.wf(),
    ensures
        final(fs)@.wf(),
        final(fs)@.extends(old(fs)@),
        runs_cover_from(r.0@, text@.len() as int, 0),
        runs_adjacent_distinct(r.0@),
        runs_resolved(r.0@, text@, final(fs)@),
        runs_fonts_valid(r.0@, final(fs)@),
        text@.len() == 0 ==> r.0@.len() == 0,
        chars_resolved(text@, final(fs)@, text@.len() as int),
        scans_consistent(text@, old(fs)@, final(fs)@, text@.len() as int),
        cache_keys_from(old(fs)@, final(fs)@, text@, text@.len() as int),
        diagnostics_wf(r.1@, text@, final(fs)@),
        diagnostics_complete(r.1@, text@, old(fs)@, final(fs)@, text@.len() as int),
        diagnostics_distinct(r.1@),
{
    let mut runs: Vec<Run> = Vec::new();
    let mut errs: Vec<Error> = Vec::new();
    let n = text.unicode_len();
    if n == 0 {
        return (runs, errs);
    }
    let c0 = text.get_char(0);
    let (ix0, e0) = fs.resolve(c0, source);
    let ghost e_snap = e0;
    let ghost errs0 = errs@;
    if let Some(er) = e0 {
        proof {
            assert(text@.contains(c0)) by {
                assert(text@[0] == c0);
            }
        }
        errs.push(er);
        proof {
            assert(errs@[0] == e_snap.unwrap());
            assert(errs@.contains(e_snap.unwrap()));
        }
    }
    proof {
        lemma_step_facts(old(fs)@, old(fs)@, fs@, text@, 0, ix0, e_snap);
        assert forall|j: int|
            0 <= j < 1 && newly_missing(old(fs)@, fs@, #[trigger] text@[j]) implies errs@.contains(
            Error::NoFallbackFontForChar(text@[j]),
        ) by {
            lemma_missing_reported(
                old(fs)@,
                old(fs)@,
                fs@,
                text@,
                errs@,
                0,
                j,
                c0,
                e_snap,
            );
        }
    }
    let mut cur_start: usize = 0;
    let mut cur_font: usize = ix0;
    let mut i: usize = 1;
    while i < n
        invariant
            old(fs)@.wf(),
            fs@.wf(),
            fs@.extends(old(fs)@),
            n == text@.len(),
            1 <= i <= n,
            cur_start < i,
            cur_font < fs@.fonts.len(),
            runs_cover_from(runs@, cur_start as int, 0),
            runs_adjacent_distinct(runs@),
            runs_resolved(runs@, text@, fs@),
            runs_fonts_valid(runs@, fs@),
            runs@.len() > 0 ==> runs@[runs@.len() - 1].end == cur_start && runs@[runs@.len()
                - 1].font != cur_font,
            forall|j: int|
                cur_start <= j < i ==> #[trigger] decided(fs@, text@[j], cur_font as int),
            chars_resolved(text@, fs@, i as int),
            scans_consistent(text@, old(fs)@, fs@, i as int),
            cache_keys_from(old(fs)@, fs@, text@, i as int),
            diagnostics_wf(errs@, text@, fs@),
            diagnostics_complete(errs@, text@, old(fs)@, fs@, i as int),
            diagnostics_distinct(errs@),
        decreases n - i,
    {
        let c = text.get_char(i);
        let ghost pre = fs@;
        let (ix, e) = fs.resolve(c, source);
        let ghost e_snap = e;
        let ghost errs0 = errs@;
        proof {
            lemma_extends_transitive(old(fs)@, pre, fs@);
            lemma_resolved_stable(runs@, text@, pre, fs@);
            lemma_diagnostics_stable(errs@, text@, pre, fs@);
            assert forall|j: int| cur_start <= j < i implies #[trigger] decided(
                fs@,
                text@[j],
                cur_font as int,
            ) by {
                assert(decided(pre, text@[j], cur_font as int));
                lemma_decided_stable(pre, fs@, text@[j], cur_font as int);
            }
        }
        if let Some(er) = e {
            proof {
                assert(e_snap == Some(er));
                assert(text@.contains(c)) by {
                    assert(text@[i as int] == c);
                }
                // A diagnostic is only produced for a character that had no
                // cached decision yet, while every already reported character
                // has one: no character is reported twice.
                assert forall|k: int| 0 <= k < errs@.len() implies errs@[k] != er by {
                    assert(reported(errs@[k], text@, pre));
                    assert(!pre.cache.contains_key(c as u32));
                }
            }
            errs.push(er);
            proof {
                assert(errs@ == errs0.push(e_snap.unwrap()));
                assert(errs@[errs0.len() as int] == e_snap.unwrap());
                assert(errs@.contains(e_snap.unwrap()));
                assert(reported(e_snap.unwrap(), text@, fs@));
                assert forall|k: int| 0 <= k < errs@.len() implies reported(
                    #[trigger] errs@[k],
                    text@,
                    fs@,
                ) by {
                    if k < errs0.len() {
                        assert(errs@[k] == errs0[k]);
                        assert(reported(errs0[k], text@, fs@));
                    }
                }
            }
        }
        proof {
            lemma_step_facts(old(fs)@, pre, fs@, text@, i as int, ix, e_snap);
            assert forall|j2: int|
                0 <= j2 < i && newly_missing(old(fs)@, pre, #[trigger] text@[j2]) implies errs@
                .contains(Error::NoFallbackFontForChar(text@[j2])) by {
                assert(errs0.contains(Error::NoFallbackFontForChar(text@[j2])));
                if e_snap is Some {
                    assert(errs@ == errs0.push(e_snap.unwrap()));
                    lemma_contains_after_push(
                        errs0,
                        e_snap.unwrap(),
                        Error::NoFallbackFontForChar(text@[j2]),
                    );
                } else {
                    assert(errs@ == errs0);
                }
            }
            assert forall|j: int|
                0 <= j < i + 1 && newly_missing(old(fs)@, fs@, #[trigger] text@[j]) implies errs@
                .contains(Error::NoFallbackFontForChar(text@[j])) by {
                lemma_missing_reported(
                    old(fs)@,
                    pre,
                    fs@,
                    text@,
                    errs@,
                    i as int,
                    j,
                    c,
                    e_snap,
                );
            }
        }
        if ix != cur_font {
            let run = Run { start: cur_start, end: i, font: cur_font };
            proof {
                lemma_cover_push(runs@, run, 0);
            }
            runs.push(run);
            cur_start = i;
            cur_font = ix;
        }
        i += 1;
    }
    let run = Run { start: cur_start, end: n, font: cur_font };
    proof {
        lemma_cover_push(runs@, run, 0);
    }
    runs.push(run);
    (runs, errs)
}

/// One resolution step, of the character at position `i`, keeps the three
/// per-character invariants of a segmentation scan: every scanned character
/// is decided, decisions respect the fonts that were registered when the scan
/// began, and no key outside the scanned characters enters the cache.
/// `start` is the state the whole scan began in, `pre` the state just before
/// this step, `post` the state just after it; `er` is the step's diagnostic.
proof fn lemma_step_facts(
    start: ResolverState,
    pre: ResolverState,
    post: ResolverState,
    text: Seq<char>,
    i: int,
    ix: usize,
    er: Option<Error>,
)
    requires
        0 <= i < text.len(),
        pre.extends(start),
        chars_resolved(text, pre, i),
        scans_consistent(text, start, pre, i),
        cache_keys_from(start, pre, text, i),
        post.cache.contains_key(text[i] as u32),
        !pre.cache.contains_key(text[i] as u32) ==> {
            let u = text[i] as u32;
            &&& (!no_font_supports(pre.fonts, u) ==> post.cache == pre.cache.insert(
                u,
                CacheEntry::Found(ix),
            ) && is_first_supporting(pre.fonts, u, ix as int))
            &&& (no_font_supports(pre.fonts, u) ==> (post.cache == pre.cache.insert(
                u,
                CacheEntry::Found(ix),
            ) || post.cache == pre.cache.insert(u, CacheEntry::Missing)))
        },
        pre.cache.contains_key(text[i] as u32) ==> post.cache == pre.cache,
        pre.cache.submap_of(post.cache),
    ensures
        chars_resolved(text, post, i + 1),
        scans_consistent(text, start, post, i + 1),
        cache_keys_from(start, post, text, i + 1),
{
    let u = text[i] as u32;
    // Every scanned character is decided, and stays decided.
    assert forall|j: int| 0 <= j < i + 1 implies post.cache.contains_key(
        (#[trigger] text[j]) as u32,
    ) by {
        if j < i {
            assert(pre.cache.contains_key(text[j] as u32));
            assert(pre.cache.dom().contains(text[j] as u32));
        }
    }
    // No key outside the scanned characters enters the cache.
    assert forall|v: u32| #[trigger] post.cache.contains_key(v) implies start.cache.contains_key(v)
        || (exists|j: int| 0 <= j < i + 1 && (#[trigger] text[j]) as u32 == v) by {
        if !pre.cache.contains_key(v) {
            assert(v == u);
            assert((text[i]) as u32 == v);
        } else {
            if !start.cache.contains_key(v) {
                assert(exists|j: int| 0 <= j < i && (#[trigger] text[j]) as u32 == v);
            }
        }
    }
    // Decisions respect the fonts registered when the scan began.
    assert forall|j: int| 0 <= j < i + 1 implies scan_consistent(
        start,
        post,
        #[trigger] text[j],
    ) by {
        let w = text[j] as u32;
        if !start.cache.contains_key(w) && post.cache.contains_key(w) && !no_font_supports(
            start.fonts,
            w,
        ) {
            if pre.cache.contains_key(w) {
                // Decided in an earlier step: the earlier fact carries over,
                // since the entry cannot change.
                if j < i {
                    assert(scan_consistent(start, pre, text[j]));
                } else {
                    // The entry for this very character was made by an
                    // earlier step for an equal character.
                    assert(exists|j2: int| 0 <= j2 < i && (#[trigger] text[j2]) as u32 == w);
                    let j2 = choose|j2: int| 0 <= j2 < i && (#[trigger] text[j2]) as u32 == w;
                    char_u32_cast(text[j2], w);
                    char_u32_cast(text[j], w);
                    assert(text[j2] == text[j]);
                    assert(scan_consistent(start, pre, text[j2]));
                }
                assert(pre.cache.dom().contains(w));
                assert(post.cache[w] == pre.cache[w]);
            } else {
                // Decided by this step: `start`'s fonts are a prefix of
                // `pre`'s and one of them covers the character, so the scan
                // of `pre`'s fonts stopped inside that prefix.
                assert(w == u);
                assert(!no_font_supports(pre.fonts, w)) by {
                    assert(exists|k: int|
                        0 <= k < start.fonts.len() && (#[trigger] start.fonts[k]).supports(w));
                    let k = choose|k: int|
                        0 <= k < start.fonts.len() && (#[trigger] start.fonts[k]).supports(w);
                    assert(start.fonts[k] == pre.fonts[k]);
                }
                assert(post.cache[w] == CacheEntry::Found(ix));
                lemma_first_supporting_prefix(start.fonts, pre.fonts, w, ix as int);
            }
        }
    }
}

/// Why a character that this scan newly found to be without a font is in the
/// diagnostics: either its failure was discovered at this very step — then
/// the step's diagnostic was just appended — or at an earlier step, for an
/// equal character, whose diagnostic is already there.
#[verifier::spinoff_prover]
proof fn lemma_missing_reported(
    start: ResolverState,
    pre: ResolverState,
    post: ResolverState,
    text: Seq<char>,
    errs: Seq<Error>,
    i: int,
    j: int,
    c: char,
    er: Option<Error>,
)
    requires
        0 <= i < text.len(),
        0 <= j < i + 1,
        c == text[i],
        pre.extends(start),
        chars_resolved(text, pre, i),
        cache_keys_from(start, pre, text, i),
        pre.cache.submap_of(post.cache),
        post.cache.contains_key(c as u32),
        !pre.cache.contains_key(c as u32) ==> (match er {
            Some(e) => e == Error::NoFallbackFontForChar(c) && post.cache == pre.cache.insert(
                c as u32,
                CacheEntry::Missing,
            ),
            None => !(post.cache[c as u32] is Missing),
        }),
        pre.cache.contains_key(c as u32) ==> post.cache == pre.cache && er is None,
        forall|v: u32| #[trigger] post.cache.contains_key(v) ==> pre.cache.contains_key(v) || v == c
            as u32,
        forall|j2: int|
            0 <= j2 < i && newly_missing(start, pre, #[trigger] text[j2]) ==> errs.contains(
                Error::NoFallbackFontForChar(text[j2]),
            ),
        er matches Some(e) ==> errs.contains(e),
        newly_missing(start, post, text[j]),
    ensures
        errs.contains(Error::NoFallbackFontForChar(text[j])),
{
    let w = text[j] as u32;
    if pre.cache.contains_key(w) {
        // The failure was recorded at an earlier step, for an equal
        // character; that step's diagnostic is in the list.
        assert(pre.cache.dom().contains(w));
        assert(pre.cache[w] == post.cache[w]);
        if j < i {
            assert(newly_missing(start, pre, text[j]));
        } else {
            assert(!start.cache.contains_key(w));
            assert(exists|j2: int| 0 <= j2 < i && (#[trigger] text[j2]) as u32 == w);
            let j2 = choose|j2: int| 0 <= j2 < i && (#[trigger] text[j2]) as u32 == w;
            char_u32_cast(text[j2], w);
            char_u32_cast(text[j], w);
            assert(text[j2] == text[j]);
            assert(newly_missing(start, pre, text[j2]));
        }
    } else {
        // The failure was discovered at this very step, so the step carried
        // the diagnostic, which was appended.
        assert(w == c as u32);
        char_u32_cast(text[j], w);
        char_u32_cast(c, w);
        assert(text[j] == c);
        assert(post.cache[w] is Missing);
        assert(er == Some(Error::NoFallbackFontForChar(c)));
    }
}

} // verus!
