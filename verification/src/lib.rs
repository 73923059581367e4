//! Font-fallback resolution and text segmentation.
//!
//! Given an ordered registry of fonts (index 0 is the primary font), the
//! resolver decides, character by character, which font renders each
//! character, memoizing every decision; the segmenter groups consecutive
//! characters that share a font into maximal runs; the extent helpers give
//! each run its pixel size so a caller can lay runs out on one line.

pub mod cache;
pub mod error;
pub mod extent;
pub mod font;
pub mod rect;
pub mod registry;
pub mod resolver;
pub mod scheme;
pub mod segment;

pub use cache::CacheEntry;
pub use error::Error;
pub use font::FontHandle;
pub use font::Glyph;
pub use rect::Rect;
pub use registry::FontRegistry;
pub use resolver::FallbackSource;
pub use resolver::FontResolver;
pub use scheme::ColorScheme;
pub use scheme::SchemeList;
pub use segment::Run;
pub use segment::segment;
