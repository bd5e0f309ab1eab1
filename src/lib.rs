//! An embeddable expression language for decision rules: a grammar, a typed
//! value model, a flat environment and a tree-walking evaluator.
//!
//! Policies where the language leaves a choice:
//! - fractional numbers are exact decimals with nine fractional digits
//!   (`decimal`); a result out of range, and a division or remainder by zero,
//!   is `NotANumber`;
//! - a time of day compares with the time part of a date-time, and a date
//!   with a date-time as that day's midnight; other pairs of different
//!   calendar kinds are unordered (`val::order`);
//! - `if`, `and`, `or` and `not` receive their arguments unevaluated, so that
//!   a branch or argument that is not needed is never evaluated;
//! - the clock is read once per evaluation (`eval::eval`).
pub mod builtins;
pub mod clock;
pub mod decimal;
pub mod env;
pub mod error;
pub mod eval;
pub mod ezortd;
pub mod laws;
pub mod parse;
pub mod render;
pub mod semantics;
pub mod temporal;
pub mod val;
