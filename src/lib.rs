//! Arithmetic-expression evaluation: sanitising, shunting-yard conversion to
//! postfix order, and reduction of postfix sequences to expression trees.
//! Numeric literals are carried as their text; the floating-point arithmetic
//! over the resulting trees is left to the caller.

pub mod ops;
pub mod error;
pub mod sanitize;
pub mod convert;
pub mod reduce;
pub mod laws;

pub use convert::{Token, to_postfix, tokenize};
pub use error::EvaluationError;
pub use ops::{OPSymbol, OpAssocation};
pub use reduce::{Expr, Reduction, reduce_postfix};
pub use sanitize::sanitize;
