//! Decoder for Intel-HEX formatted text: parses colon-prefixed records
//! of hex digits, validates each record's checksum, and folds the data
//! records into a flat, fixed-size memory image.

pub mod hex;
pub mod image;
pub mod reader;
pub mod record;
