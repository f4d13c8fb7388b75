//! A self-describing container format for named, typed, multi-dimensional
//! numeric arrays: an 8-byte little-endian header length, a JSON header, and
//! the concatenated tensor bytes. Every decoding step is validated before any
//! tensor byte is exposed.
pub mod error;
pub mod dtype;
pub mod bytes;
pub mod name_map;
pub mod view;
pub mod json;
pub mod header;
pub mod writer;
pub mod parse;
pub mod decode;
pub mod validate;
pub mod device;
pub mod reader;
pub mod laws;
pub mod round_trip;
