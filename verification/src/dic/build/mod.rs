//! Building binary dictionaries from lexicon sources.
pub mod error;
pub mod fields;
pub mod lexicon;
pub mod parse;
pub mod pos;
pub mod pos_map;
pub mod resolve;
