//! A small CSV reading and writing library.
//!
//! The library works on in-memory byte buffers: a reader splits a buffer of
//! CSV text into rows, a writer renders rows back into correctly escaped
//! bytes, and a document keeps a whole table of rows in memory for lookups
//! and edits.  Opening files and other I/O is left to the caller, who hands
//! the library plain byte buffers.

pub mod doc;
pub mod errors;
pub mod escape;
pub mod laws;
pub mod parser;
pub mod reader;
pub mod row;
pub mod text;
pub mod writer;
