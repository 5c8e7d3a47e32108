//! One module for every format that can be decoded.
pub mod agilent;
pub mod inficon;
pub mod fasta;
