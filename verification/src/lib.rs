//! A verified core of a small Scheme-like interpreter: reader, value model,
//! lexically scoped environments, and an evaluator with proper tail calls.
pub mod env;
pub mod eval;
pub mod lex;
pub mod parser;
pub mod value;

pub use value::{BuiltInFunType, Value};
