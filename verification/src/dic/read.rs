//! Readers of the little-endian binary format of dictionaries.
pub mod primitives;
pub mod utf16_string;
pub mod varint;
pub mod word_id;
pub mod word_info;
