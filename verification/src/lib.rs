//! Emits OpenType/TrueType font files: a byte arena of ordered reservations,
//! a two-phase layout protocol, and a bounded fixed-point driver that runs
//! passes until the emitted bytes agree with their own checksums.

pub use layout::{LayoutError, Layoutable, Layouted, Layouter, Reservation};
pub use manifest::Manifest;

pub mod bytes;
pub mod checksum;
pub mod layout;
pub mod manifest;
pub mod open_type;
pub mod order;
pub mod time;
pub mod write_defered;
