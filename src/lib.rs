//! Intel HEX codec: parsing, validating and re-emitting HEX records and documents.

pub mod error;
pub mod file;
pub mod hex_text;
pub mod record;
pub mod util;
