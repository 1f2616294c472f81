//! A SQUOZE-style text codec: printable text is packed three characters to a
//! 16-bit word in base 40, and words are expanded back into text.

pub mod charmap;
pub mod codec;

pub use codec::{desquoze, squoze};
