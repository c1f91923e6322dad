//! Plain docstrings: summary and extended summary only.

pub mod nodes;
pub mod parser;
pub mod to_model;

pub use parser::parse_plain;
