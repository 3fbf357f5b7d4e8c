//! The library side of `find`: its expression language, the parser of its
//! command line, the evaluation of tests against what is known of a file,
//! the formatting of `-printf` and `-ls`, the batching of `-exec ... +`,
//! and its messages.
pub mod expression;
pub mod messages;
pub mod parser;
pub mod evaluate;
pub mod walk;
pub mod batch;
pub mod printf;
