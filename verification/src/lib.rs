//! An interpreter for a small combinator-based functional language: a lazy
//! evaluator over SKI/BCKI combinators with Church-encoded pairs, a bit-level
//! modulation codec for fully reduced data values, a prefix parser for the
//! textual form, and a driver that advances one `interact` round at a time.
//!
//! The host supplies the network transport; the library computes everything
//! that can be computed from the text of a protocol, a state and a click.

pub mod term;
pub mod eval;
pub mod codec;
pub mod laws;
pub mod parser;
pub mod text;
pub mod interact;
