//! The manifest of a font: its name and the files that hold its glyphs.

use vstd::prelude::*;

verus! {

/// What a font is to be made of.
#[derive(Debug)]
pub struct Manifest {
    /// The font's name.
    pub name: String,
    /// The ranges of characters and the files that draw them.
    pub glyphs: Vec<GlyphRange>,
}

/// A range of characters and the file that draws them.
#[derive(Debug)]
pub struct GlyphRange {
    /// The first character of the range.
    pub start: char,
    /// The last character of the range.
    pub end: char,
    /// The name of the file.
    pub file: String,
}

} // verus!
