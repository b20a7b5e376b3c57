//! The pattern interchange layer: the sparse/dense cell-set model, the
//! format-neutral `Pattern` with its metadata, and one codec per file
//! format (Life 1.05, Life 1.06, Plaintext, run-length encoded).

pub mod cells;
pub mod life105;
pub mod life106;
pub mod plaintext;
pub mod pattern;
pub mod rle;

pub use cells::{CellList, CellTable, Cells};
pub use life105::Life105;
pub use life106::Life106;
pub use plaintext::Plaintext;
pub use rle::RLE;
pub use pattern::{Metadata, Parse, ParseError, Pattern, Serialise};
