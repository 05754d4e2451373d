//! A small verified expression engine.
//!
//! Expression trees mix integer constants, the four arithmetic operators and
//! ternary conditionals.  A tree can be evaluated to a 64-bit signed integer
//! (`compute`), rendered as fully parenthesized infix text (`pretty_print`),
//! written out as a whitespace-separated prefix token stream (`save`), and
//! read back from such a stream (`load`).  Every operation is specified
//! against a mathematical model of the tree and of the wire text, and the
//! round trip through `save` and `load` is proved to reproduce the tree.

pub mod ast;
pub mod eval;
pub mod numtext;
pub mod encode;
pub mod parse;
pub mod render;
pub mod tokens;
pub mod laws;
