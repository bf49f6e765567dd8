//! Formulas over one free variable: a tree of arithmetic, powers,
//! logarithms, sines and cosines that is evaluated over any scalar backend,
//! piecewise functions with a checker for the order of their cases, and a
//! canonical text that every formula is written as and read back from.

pub mod ast;
pub mod eval;
pub mod fixed_point;
pub mod format;
pub mod lexer;
pub mod numeric;
pub mod parse;
pub mod piecewise;
pub mod printable;
pub mod read;
pub mod roundtrip;
pub mod roundtrip_cases;
pub mod roundtrip_piecewise;
pub mod util;

pub use crate::ast::{Equation, Expr};
