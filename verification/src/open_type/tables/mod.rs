//! The tables that a font file is made of.

pub use cmap::{CMap, CharacterRange};
pub use glyf::{Glyf, Glyph};
pub use head::{Flags, Head};
pub use hhea::HHead;
pub use hmtx::{Hmtx, HorizontalMetric};
pub use loca::Loca;
pub use maxp::MaxP;
pub use name::{Name, NameRecord};
pub use os2::{Panose, Script, OS2};
pub use post::Post;
pub use svg::{SVGDocumentRecord, SVG};

pub mod cmap;
pub mod glyf;
pub mod head;
pub mod hhea;
pub mod hmtx;
pub mod loca;
pub mod maxp;
pub mod name;
pub mod os2;
pub mod post;
pub mod svg;
