//! Reading back what the writer wrote.
//!
//! Nothing here runs: these modules state, as functions on bytes, how a
//! reader takes a file apart, and prove that it finds in a written file
//! what the document held.

pub mod ascii;
pub mod binary;
pub mod document;
pub mod header;
pub mod header_line;
pub mod header_lines;
pub mod scan;
pub mod shape;
