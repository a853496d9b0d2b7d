//! Dimension-checked arithmetic for an engineering-unit calculator.
//!
//! Physical units are exponent vectors over the seven SI base dimensions.
//! Text such as `10kg * 9.8m/s^2` is scanned into tokens, parsed into an
//! expression tree and folded into a dimensioned value.

pub mod evaluator;
pub mod parser;
pub mod reading;
pub mod registry;
pub mod render;
pub mod scanner;
pub mod si;
pub mod text;
pub mod trees;
