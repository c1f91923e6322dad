//! Google-style section kinds, parser and typed views.

pub mod kind;
pub mod nodes;
pub mod parser;
pub mod to_model;

pub use parser::parse_google;
