//! A codec and in-memory transform engine for uncompressed bitmap image
//! files (8-bit indexed and 24-bit true-colour variants).
//!
//! The library decodes a byte stream into a structured document, mutates the
//! document through geometric and colour transforms, and re-encodes it
//! byte-for-byte into a valid bitmap file. Reading and writing the bytes
//! themselves is left to the caller: the document is built from a byte slice
//! and serialised back into a byte vector.

pub mod bmp;
