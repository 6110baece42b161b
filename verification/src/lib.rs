//! Decoder for the two media-set header formats of an avionics
//! software-loading standard: the list-of-loads header (`LOADS.LUM`) and the
//! list-of-files header (`FILES.LUM`).
//!
//! Both formats are packed, big-endian, self-describing records: pointer
//! fields stored as pairs of 16-bit words, text stored as packed 16-bit
//! words of two characters each, count-driven variable-length fields, and a
//! trailing integrity checksum that is carried but not validated.

pub mod error;
pub mod files;
pub mod file_class;
pub mod loads;
pub mod parse;
pub mod reader;
pub mod render;
pub mod utils;
