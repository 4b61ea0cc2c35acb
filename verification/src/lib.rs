//! Named colormaps: a name is resolved against a catalog of palettes, or read
//! as a color that closes a ramp starting at black, and the resulting palette
//! is handed out as bit patterns, as scaled integers or as CSS hex strings.
//!
//! A channel is kept as the bit pattern of an IEEE 754 double, so that every
//! value of a palette is carried exactly and every conversion is integer
//! arithmetic on that pattern.

pub mod catalog;
pub mod channel;
pub mod colormap;
pub mod error;
pub mod gradient;
pub mod laws;
pub mod name;
pub mod single;

pub use catalog::{Catalog, CatalogError, CatalogView, Sample};
pub use channel::IntKind;
pub use colormap::ColorMap;
pub use error::ColorcetError;
