//! Arithmetic expression trees over unsigned 128-bit integers, evaluated by
//! an explicit-stack postfix reduction that is proved to compute the
//! mathematical value of the tree, or to report division by zero.

pub mod ast;
pub mod eval;
