//! A string container indexed by extended grapheme clusters, with an exact
//! mapping between linear positions and (row, column) coordinates.

mod grapheme;
pub mod model;
mod gstring;
pub mod laws;
mod iter;
pub mod render;
mod range;

pub use grapheme::{graphemes, texts, Grapheme, GraphemeError, IsNewline};
pub use gstring::GString;
pub use iter::{GStringIter, GStringRefIter};
pub use range::GraphemeRange;
