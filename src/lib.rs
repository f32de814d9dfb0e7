pub mod bigint;
pub mod parse;
pub mod token;
pub mod expr;
pub mod eval;
pub mod grouping;
