use vstd::prelude::*;

verus! {

/// Errors of the font engine.
///
/// Configuration-time errors (the three `UnableTo...` variants) abort a
/// font-set change and leave the previous font set active.  The resolution-time
/// error `NoFallbackFontForChar` never aborts segmentation: the character is
/// rendered with the primary font instead, and the error is only reported as a
/// diagnostic.
#[derive(Debug, Clone, PartialEq, Eq)]
pub enum Error {
    /// Fallback discovery failed for this character; it degrades to the
    /// primary font.
    NoFallbackFontForChar(char),
    /// No font matching this name could be opened.
    UnableToOpenFont(String),
    /// A font descriptor returned by fallback discovery could not be opened.
    UnableToOpenFontPattern,
    /// This font name could not be turned into a matchable style pattern, so
    /// the font cannot serve as a reference for fallback discovery.
    UnableToParseFontPattern(String),
    /// No color scheme of this name is registered.
    UnknownColorscheme(String),
}

impl Error {
    /// A short human-readable description of the error.
    pub fn message(&self) -> (r: String)
        ensures
            r@.len() > 0,
            self is NoFallbackFontForChar ==> r@ == "unable to find a fallback font for a character"@,
            self is UnableToOpenFont ==> r@ == "unable to open the named font"@,
            self is UnableToOpenFontPattern ==> r@ == "unable to open a font from a fallback descriptor"@,
            self is UnableToParseFontPattern ==> r@ == "unable to parse the font name as a style pattern"@,
            self is UnknownColorscheme ==> r@ == "not a registered colorscheme"@,
    {
        let m = match self {
            Error::NoFallbackFontForChar(_) => "unable to find a fallback font for a character",
            Error::UnableToOpenFont(_) => "unable to open the named font",
            Error::UnableToOpenFontPattern => "unable to open a font from a fallback descriptor",
            Error::UnableToParseFontPattern(_) => "unable to parse the font name as a style pattern",
            Error::UnknownColorscheme(_) => "not a registered colorscheme",
        };
        proof {
            reveal_strlit("unable to find a fallback font for a character");
            reveal_strlit("unable to open the named font");
            reveal_strlit("unable to open a font from a fallback descriptor");
            reveal_strlit("unable to parse the font name as a style pattern");
            reveal_strlit("not a registered colorscheme");
        }
        m.to_owned()
    }
}

} // verus!
