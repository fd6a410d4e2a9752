//! Parsing and encoding of ASTERIX surveillance data blocks.
pub mod asterix;
