//! The OpenType container and its tables.

pub use document::{Document, Object, Table, Tag};
pub use error::WriteError;
pub use f2dot14::F2Dot14;
pub use directory::SFNTVersion;
pub use file::{File, LayoutableTable, LayoutedTable};
pub use fixed::Fixed;
pub use search::SearchData;

pub mod content;
pub mod directory;
pub mod document;
pub mod driver;
pub mod error;
pub mod f2dot14;
pub mod file;
pub mod fixed;
pub mod search;
pub mod settle;
pub mod tables;
pub mod true_type;
