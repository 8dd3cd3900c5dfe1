//! Language identification, source buffer normalisation and line-of-code
//! metrics driven by a syntax tree.

pub mod bytes;
pub mod directive;
pub mod lang;
pub mod loader;
pub mod paths;
pub mod sloc;
