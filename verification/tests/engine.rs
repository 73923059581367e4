//! Resolution and segmentation behavior, driven by a table-backed fallback
//! source.

use fontrun::CacheEntry;
use fontrun::Error;
use fontrun::FallbackSource;
use fontrun::FontHandle;
use fontrun::FontResolver;
use fontrun::Glyph;
use fontrun::segment;

/// The data of one font the test source can hand out.
struct FontSpec {
    name: String,
    ascent: u16,
    descent: u16,
    glyphs: Vec<Glyph>,
    pattern: Option<String>,
    native: u64,
}

impl FontSpec {
    fn build(&self) -> FontHandle {
        FontHandle::new(
            self.ascent,
            self.descent,
            self.glyphs.clone(),
            self.pattern.clone(),
            self.native,
        )
    }

    fn covers(&self, c: char) -> bool {
        let u = c as u32;
        self.glyphs.iter().any(|g| g.lo <= u && u <= g.hi)
    }
}

/// A deterministic system font service: a list of named fonts for opening by
/// name, and the same list as the pool that `match_char` searches in order.
/// It records every `match_char` call.
struct TestSource {
    fonts: Vec<FontSpec>,
    match_calls: Vec<char>,
}

impl FallbackSource for TestSource {
    fn open_by_name(&mut self, name: &str) -> Result<FontHandle, Error> {
        for s in &self.fonts {
            if s.name == name {
                return Ok(s.build());
            }
        }
        Err(Error::UnableToOpenFont(name.to_string()))
    }

    fn match_char(&mut self, _pattern: &str, c: char) -> Option<FontHandle> {
        self.match_calls.push(c);
        for s in &self.fonts {
            if s.covers(c) {
                return Some(s.build());
            }
        }
        None
    }
}

fn ascii_font(native: u64) -> FontSpec {
    FontSpec {
        name: "ascii".to_string(),
        ascent: 10,
        descent: 3,
        glyphs: vec![Glyph { lo: 0x20, hi: 0x7e, advance: 7 }],
        pattern: Some("ascii:style=mono".to_string()),
        native,
    }
}

fn symbol_font(native: u64) -> FontSpec {
    FontSpec {
        name: "symbols".to_string(),
        ascent: 12,
        descent: 4,
        glyphs: vec![Glyph { lo: 0x2400, hi: 0x27ff, advance: 11 }],
        pattern: None,
        native,
    }
}

fn digit_font(native: u64) -> FontSpec {
    FontSpec {
        name: "digits".to_string(),
        ascent: 8,
        descent: 2,
        glyphs: vec![Glyph { lo: 0x30, hi: 0x39, advance: 5 }],
        pattern: Some("digits:style=mono".to_string()),
        native,
    }
}

fn run_texts(resolver_text: &str, runs: &[fontrun::Run]) -> Vec<(String, usize)> {
    runs.iter().map(|r| (r.slice(resolver_text).to_string(), r.font)).collect()
}

#[test]
fn primary_covers_whole_string() {
    let mut src = TestSource { fonts: vec![ascii_font(1)], match_calls: Vec::new() };
    let mut fs = FontResolver::new(vec![ascii_font(1).build()]);
    let (runs, errs) = segment(&mut fs, &mut src, "hello");
    assert_eq!(run_texts("hello", &runs), vec![("hello".to_string(), 0)]);
    assert!(errs.is_empty());
    assert_eq!(fs.font_count(), 1);
    assert!(src.match_calls.is_empty());
}

#[test]
fn fallback_discovered_mid_string() {
    let mut src =
        TestSource { fonts: vec![ascii_font(1), symbol_font(2)], match_calls: Vec::new() };
    let mut fs = FontResolver::new(vec![ascii_font(1).build()]);
    let (runs, errs) = segment(&mut fs, &mut src, "he\u{25c8}llo");
    assert_eq!(
        run_texts("he\u{25c8}llo", &runs),
        vec![
            ("he".to_string(), 0),
            ("\u{25c8}".to_string(), 1),
            ("llo".to_string(), 0),
        ]
    );
    assert!(errs.is_empty());
    assert_eq!(fs.font_count(), 2);
    // The discovered font is the one the source found, at the appended index.
    assert_eq!(fs.font(1).native(), 2);
    assert_eq!(src.match_calls, vec!['\u{25c8}']);
}

#[test]
fn empty_string_yields_no_runs() {
    let mut src = TestSource { fonts: vec![ascii_font(1)], match_calls: Vec::new() };
    let mut fs = FontResolver::new(vec![ascii_font(1).build()]);
    let (runs, errs) = segment(&mut fs, &mut src, "");
    assert!(runs.is_empty());
    assert!(errs.is_empty());
}

#[test]
fn missing_char_degrades_to_primary_and_reports_once() {
    let mut src = TestSource { fonts: vec![ascii_font(1)], match_calls: Vec::new() };
    let mut fs = FontResolver::new(vec![ascii_font(1).build()]);
    let (ix, err) = fs.resolve('\u{25c8}', &mut src);
    assert_eq!(ix, 0);
    assert_eq!(err, Some(Error::NoFallbackFontForChar('\u{25c8}')));
    // The failure is cached: the second resolution is silent, the expensive
    // lookup is not repeated, and the index is the same.
    let (ix2, err2) = fs.resolve('\u{25c8}', &mut src);
    assert_eq!(ix2, 0);
    assert_eq!(err2, None);
    assert_eq!(src.match_calls, vec!['\u{25c8}']);
    assert_eq!(fs.cached('\u{25c8}'), Some(CacheEntry::Missing));
    assert_eq!(fs.font_count(), 1);
}

#[test]
fn no_pattern_disables_discovery() {
    // A primary font without a style pattern cannot anchor fallback queries:
    // the source is never asked, and the character degrades immediately.
    let mut primary = ascii_font(1);
    primary.pattern = None;
    let mut src =
        TestSource { fonts: vec![ascii_font(1), symbol_font(2)], match_calls: Vec::new() };
    let mut fs = FontResolver::new(vec![primary.build()]);
    let (ix, err) = fs.resolve('\u{25c8}', &mut src);
    assert_eq!(ix, 0);
    assert_eq!(err, Some(Error::NoFallbackFontForChar('\u{25c8}')));
    assert!(src.match_calls.is_empty());
}

#[test]
fn segment_reports_each_missing_char_once() {
    let mut src = TestSource { fonts: vec![ascii_font(1)], match_calls: Vec::new() };
    let mut fs = FontResolver::new(vec![ascii_font(1).build()]);
    let (runs, errs) = segment(&mut fs, &mut src, "a\u{25c8}b\u{25c8}\u{2603}");
    // One diagnostic per distinct missing character, not per occurrence.
    assert_eq!(
        errs,
        vec![
            Error::NoFallbackFontForChar('\u{25c8}'),
            Error::NoFallbackFontForChar('\u{2603}'),
        ]
    );
    // Missing characters degrade to font 0, so they merge with their ASCII
    // neighbors into a single run.
    assert_eq!(run_texts("a\u{25c8}b\u{25c8}\u{2603}", &runs), vec![
        ("a\u{25c8}b\u{25c8}\u{2603}".to_string(), 0),
    ]);
}

#[test]
fn partition_reproduces_input() {
    let mut src =
        TestSource { fonts: vec![ascii_font(1), symbol_font(2), digit_font(3)], match_calls: Vec::new() };
    let mut fs = FontResolver::new(vec![ascii_font(1).build()]);
    let text = "ab\u{25c8}\u{25c9}cd \u{2603}e";
    let (runs, _errs) = segment(&mut fs, &mut src, text);
    let mut joined = String::new();
    for r in &runs {
        joined.push_str(r.slice(text));
    }
    assert_eq!(joined, text);
    // Runs tile the character positions with no gaps or overlaps.
    let mut pos = 0;
    for r in &runs {
        assert_eq!(r.start, pos);
        assert!(r.start < r.end);
        pos = r.end;
    }
    assert_eq!(pos, text.chars().count());
}

#[test]
fn adjacent_runs_never_share_a_font() {
    let mut src =
        TestSource { fonts: vec![ascii_font(1), symbol_font(2)], match_calls: Vec::new() };
    let mut fs = FontResolver::new(vec![ascii_font(1).build()]);
    let (runs, _errs) = segment(&mut fs, &mut src, "a\u{25c8}b\u{25c8}\u{25c9}c");
    for w in runs.windows(2) {
        assert_ne!(w[0].font, w[1].font);
    }
    // And consecutive same-font characters were merged into one run.
    assert_eq!(run_texts("a\u{25c8}b\u{25c8}\u{25c9}c", &runs), vec![
        ("a".to_string(), 0),
        ("\u{25c8}".to_string(), 1),
        ("b".to_string(), 0),
        ("\u{25c8}\u{25c9}".to_string(), 1),
        ("c".to_string(), 0),
    ]);
}

#[test]
fn repeated_resolution_is_stable() {
    let mut src =
        TestSource { fonts: vec![ascii_font(1), symbol_font(2)], match_calls: Vec::new() };
    let mut fs = FontResolver::new(vec![ascii_font(1).build()]);
    let (first, _) = fs.resolve('\u{25c8}', &mut src);
    // Interleave other work with the repeated resolutions.
    let (_, _) = fs.resolve('x', &mut src);
    let (snow, snow_err) = fs.resolve('\u{2603}', &mut src);
    for _ in 0..3 {
        let (again, err) = fs.resolve('\u{25c8}', &mut src);
        assert_eq!(again, first);
        assert_eq!(err, None);
    }
    // The font discovered for the first symbol also covers the second, so the
    // registry scan answers for it and the expensive lookup ran only once.
    assert_eq!(snow, first);
    assert_eq!(snow_err, None);
    assert_eq!(src.match_calls, vec!['\u{25c8}']);
}

fn greek_font(native: u64) -> FontSpec {
    FontSpec {
        name: "greek".to_string(),
        ascent: 9,
        descent: 3,
        glyphs: vec![Glyph { lo: 0x370, hi: 0x3ff, advance: 6 }],
        pattern: None,
        native,
    }
}

#[test]
fn registry_only_appends() {
    let mut src =
        TestSource { fonts: vec![ascii_font(1), symbol_font(2), greek_font(3)], match_calls: Vec::new() };
    let mut fs = FontResolver::new(vec![ascii_font(1).build()]);
    assert_eq!(fs.font(0).native(), 1);
    let (ix_sym, _) = fs.resolve('\u{25c8}', &mut src);
    let (ix_grk, _) = fs.resolve('\u{3bb}', &mut src);
    // Indices were handed out in discovery order and stay valid.
    assert_eq!(ix_sym, 1);
    assert_eq!(ix_grk, 2);
    assert_eq!(fs.font_count(), 3);
    // The primary font is still the originally configured one.
    assert_eq!(fs.font(0).native(), 1);
    assert_eq!(fs.font(1).native(), 2);
    assert_eq!(fs.font(2).native(), 3);
}

#[test]
fn reset_replaces_fonts_and_clears_cache() {
    let mut src =
        TestSource { fonts: vec![ascii_font(1), symbol_font(2), digit_font(3)], match_calls: Vec::new() };
    let mut fs = FontResolver::new(vec![ascii_font(1).build()]);
    let (ix, _) = fs.resolve('\u{25c8}', &mut src);
    assert_eq!(ix, 1);
    assert_eq!(fs.cached('\u{25c8}'), Some(CacheEntry::Found(1)));
    // Reset with two new names: only the new fonts count afterwards.
    let names = vec!["digits".to_string(), "symbols".to_string()];
    assert_eq!(fs.reset(&names, &mut src), Ok(()));
    assert_eq!(fs.font_count(), 2);
    assert_eq!(fs.font(0).native(), 3);
    assert_eq!(fs.font(1).native(), 2);
    // The old decision is gone; re-resolution reflects the new registry.
    assert_eq!(fs.cached('\u{25c8}'), None);
    let (ix2, err2) = fs.resolve('\u{25c8}', &mut src);
    assert_eq!(ix2, 1);
    assert_eq!(err2, None);
    let (ix3, _) = fs.resolve('7', &mut src);
    assert_eq!(ix3, 0);
}

#[test]
fn failed_reset_keeps_previous_state() {
    let mut src =
        TestSource { fonts: vec![ascii_font(1), symbol_font(2)], match_calls: Vec::new() };
    let mut fs = FontResolver::new(vec![ascii_font(1).build()]);
    let (ix, _) = fs.resolve('\u{25c8}', &mut src);
    assert_eq!(ix, 1);
    let names = vec!["digits".to_string(), "symbols".to_string()];
    assert_eq!(
        fs.reset(&names, &mut src),
        Err(Error::UnableToOpenFont("digits".to_string()))
    );
    // Registry and cache are untouched: the cached decision still answers.
    assert_eq!(fs.font_count(), 2);
    assert_eq!(fs.font(0).native(), 1);
    assert_eq!(fs.cached('\u{25c8}'), Some(CacheEntry::Found(1)));
}

#[test]
fn reset_twice_behaves_identically() {
    let mut src =
        TestSource { fonts: vec![ascii_font(1), symbol_font(2), digit_font(3)], match_calls: Vec::new() };
    let mut fs = FontResolver::new(vec![ascii_font(1).build()]);
    let names = vec!["ascii".to_string(), "digits".to_string()];
    let sample = ['a', '7', ' ', '\u{25c8}', 'z'];

    assert_eq!(fs.reset(&names, &mut src), Ok(()));
    let first: Vec<usize> = sample.iter().map(|&c| fs.resolve(c, &mut src).0).collect();

    assert_eq!(fs.reset(&names, &mut src), Ok(()));
    let second: Vec<usize> = sample.iter().map(|&c| fs.resolve(c, &mut src).0).collect();

    assert_eq!(first, second);
}

#[test]
fn try_new_loads_names_in_order() {
    let mut src =
        TestSource { fonts: vec![ascii_font(1), digit_font(3)], match_calls: Vec::new() };
    let names = vec!["digits".to_string(), "ascii".to_string()];
    let fs = FontResolver::try_new(&names, &mut src).unwrap();
    assert_eq!(fs.font_count(), 2);
    assert_eq!(fs.font(0).native(), 3);
    assert_eq!(fs.font(1).native(), 1);
}

/// A source whose named fonts cannot be turned into patterns.
struct UnparsableSource;

impl FallbackSource for UnparsableSource {
    fn open_by_name(&mut self, name: &str) -> Result<FontHandle, Error> {
        Err(Error::UnableToParseFontPattern(name.to_string()))
    }

    fn match_char(&mut self, _pattern: &str, _c: char) -> Option<FontHandle> {
        None
    }
}

#[test]
fn reset_propagates_source_errors_verbatim() {
    let mut good = TestSource { fonts: vec![ascii_font(1)], match_calls: Vec::new() };
    let mut fs = FontResolver::new(vec![ascii_font(1).build()]);
    let names = vec!["ascii".to_string()];
    assert_eq!(fs.reset(&names, &mut good), Ok(()));

    let mut bad = UnparsableSource;
    assert_eq!(
        fs.reset(&names, &mut bad),
        Err(Error::UnableToParseFontPattern("ascii".to_string()))
    );
    // The failed attempt changed nothing.
    assert_eq!(fs.font_count(), 1);
    assert_eq!(fs.font(0).native(), 1);
}

#[test]
fn try_new_propagates_the_failing_name() {
    let mut src = TestSource { fonts: vec![ascii_font(1)], match_calls: Vec::new() };
    let names = vec!["ascii".to_string(), "nosuch".to_string()];
    match FontResolver::try_new(&names, &mut src) {
        Err(Error::UnableToOpenFont(n)) => assert_eq!(n, "nosuch"),
        other => panic!("expected UnableToOpenFont, got {:?}", other.map(|_| ())),
    }
}
