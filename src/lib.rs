//! Decoder for minifs archives: a header, tables of names, files and chunks,
//! and independently LZMA-compressed chunks shared by the files they hold.
pub mod bytes;
pub mod codec;
pub mod entries;
pub mod error;
pub mod laws;
pub mod minifs;

pub use entries::{ToCEntry, ToFEntry};
pub use error::ParseError;
pub use minifs::MiniFs;
