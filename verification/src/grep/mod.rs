//! The library side of `grep`: its command line, the rewriting of basic
//! regular expressions, the splitting of input into lines, the choice of
//! the lines to print with their context, the shape of an output line,
//! file filters and the guess of a legacy Japanese encoding.
pub mod options;
pub mod patterns;
pub mod lines;
pub mod search;
pub mod files;
