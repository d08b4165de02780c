//! Line-oriented annotation of IPv4-shaped substrings with provider metadata.
//!
//! The library detects IPv4-shaped substrings in a line of text, classifies
//! each one against a fixed prefix table, and renders the line as a sequence
//! of output segments: verbatim text, plus a colored bracketed annotation
//! after every classified address.

pub mod driver;
pub mod laws;
pub mod render;
pub mod scan;
pub mod table;
