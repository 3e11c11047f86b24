//! An interpreter for a small line-oriented scripting language: typed
//! variable declarations, `echo`, single-level `if`/`else` blocks driven by
//! comparisons, and an arithmetic evaluator for integer initialisers.
//!
//! - [`lang_parser`] turns a script into statements; [`variables`],
//!   [`echo`] and [`conditions`] parse one kind each, and [`cmp`] parses and
//!   evaluates comparisons.
//! - [`eval`] evaluates the arithmetic of `int` declarations.
//! - [`executor`] runs the statements against an environment and collects
//!   the printed lines.
//! - [`text`] and [`utils`] hold character-level helpers.
//!
//! Each parser and evaluator states its result exactly, as a spec function
//! over the characters of its input.
use vstd::prelude::*;

pub mod cmp;
pub mod conditions;
pub mod echo;
pub mod eval;
pub mod executor;
pub mod lang_parser;
pub mod text;
pub mod utils;
pub mod variables;

verus! {

} // verus!
