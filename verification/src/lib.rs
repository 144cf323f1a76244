//! Verified reading and writing of the binary Sudachi dictionary format,
//! together with the word-reference resolution used by the dictionary builder.

pub mod analysis;
pub mod dic;
pub mod error;
mod util;
pub mod testing;
