//! A parser for Python docstrings (Google, NumPy and plain styles) with a
//! lossless syntax tree, byte-exact source locations, anchored edits and a
//! style-independent model, verified with Verus.

pub mod cursor;
pub mod edit;
pub mod emit;
pub mod matcher;
pub mod model;
pub mod parse;
pub mod pattern;
pub mod rewrite;
pub mod strs;
pub mod syntax;
pub mod text;

