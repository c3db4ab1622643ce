//! A dice-notation expression engine: free-text roll expressions are scanned
//! into terms, rolled, folded into totals and, where a target is named,
//! resolved as skill checks.

pub mod arith;
pub mod dice;
pub mod engine;
pub mod error;
pub mod expression;
pub mod message;
pub mod model;
pub mod notation;
pub mod number;
pub mod parse;
pub mod render;
pub mod roll;
pub mod scan;
pub mod skill;
pub mod source;
pub mod term;
pub mod text;
