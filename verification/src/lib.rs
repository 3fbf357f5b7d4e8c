//! Verified core of a set of POSIX command-line tools.
pub mod text;
pub mod matching;
pub mod find;
pub mod grep;
pub mod ls;
pub mod join;
pub mod patch;
pub mod groff;
pub mod fold;
pub mod head;
pub mod paste;
pub mod kill;
pub mod less;
pub mod mv;
