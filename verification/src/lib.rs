//! Decoder for a single PE/COFF section header table entry.
//!
//! A section header is a fixed 40-byte little-endian record. Its 8-byte name
//! field either holds the name directly or, when it starts with `/`, an index
//! into an auxiliary string table, written in decimal or in a base-64-like
//! positional encoding. This crate decodes the record, resolves such indirect
//! names, and exposes the section characteristics flag values.

pub mod characteristics;
pub mod index_decode;
pub mod section_table;
