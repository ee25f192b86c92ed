//! A reverse-Polish-notation (RPN) calculator.
//!
//! One line of text is split on whitespace into tokens; tokens are
//! processed left to right over an operand stack of `i32` values, and
//! the result is the single value left on the stack, or a typed error.

pub mod arith;
pub mod calc;
pub mod laws;
pub mod semantics;

pub use arith::add;
pub use calc::RpnCalculator;
pub use semantics::EvalError;
