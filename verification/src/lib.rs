//! Streaming parsers that turn scientific file formats into tabular records.
//!
//! A [`buffer::ReadBuffer`] holds a refillable window over a byte source, the
//! functions in [`parsers`] decode typed values at a cursor, and each module
//! under [`readers`] drives one format and hands out its records. The
//! functions in [`tsv`] write the records of any reader as a table.
pub mod buffer;
pub mod error;
pub mod parsers;
pub mod readers;
pub mod record;
pub mod tsv;
pub mod utils;
