//! Reading side of a great-circle distance pipeline: a single-pass parser for
//! the coordinate-pair file format, and the integer arithmetic behind the
//! cycle-counter timing of its phases.

pub mod document;
pub mod fields;
pub mod literal;
pub mod parser;
pub mod split;
pub mod platform_metrics;
pub mod render;
