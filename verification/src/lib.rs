//! The decisions behind four procedural macros, on plain values.
//!
//! * `seq!` repeats a body of tokens once per index of a range. An invocation
//!   `N in 0..3 { body }` names a placeholder, the range and the body. In each expansion
//!   a lone placeholder becomes the numeral of the index and `prefix~N` becomes one new
//!   identifier; where the body marks a part with `#( ... )*`, only that part is
//!   repeated. The modules [`token`], [`literal`], [`header`], [`range`], [`marker`],
//!   [`substitute`] and [`expand`] hold the expander, and [`laws`] what holds of every
//!   expansion.
//! * `#[sorted]` wants the variants of an enum and the arms of a `match` in ascending
//!   order: [`sorted`] finds the first name that stands too late.
//! * `#[derive(CustomDebug)]` bounds the type parameters that the fields name:
//!   [`generics`] finds where a parameter is named inside a type.
//! * `#[derive(Builder)]` gives every field a slot and its setters: [`builder`] holds the
//!   rules.
//!
//! Nothing here reads or prints syntax: the macros hand over plain values and print what
//! was decided.
//!
//! Token trees nest as deep as the source text does, and the walks over them recurse once
//! per level: a body with pathologically deep brackets can exhaust the call stack.

pub mod builder;
pub mod decimal;
pub mod diagnostic;
pub mod expand;
pub mod generics;
pub mod header;
pub mod laws;
pub mod literal;
pub mod marker;
pub mod range;
pub mod sorted;
pub mod substitute;
pub mod token;

pub use diagnostic::{Diagnostic, ErrorKind, Place};
pub use header::{Bound, ExpansionSpec};
pub use marker::{detect_mode, ExpansionMode, Frame};
pub use range::{evaluate_range, IndexRange};
pub use substitute::substitute;
pub use token::{Delimiter, Position, Spacing, Token};
