//! A lossless concrete syntax tree for small arithmetic expressions.
//!
//! The crate parses a textual expression into a tree that keeps every
//! character of the accepted input, then evaluates the tree to a signed
//! integer, failing (with `None`) on unparseable literals, malformed
//! nodes, division by zero and overflow.

pub mod builder;
pub mod eval;
pub mod kinds;
pub mod laws;
pub mod parser;
pub mod render;
pub mod text;
pub mod tree;
