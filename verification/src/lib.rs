//! An arithmetic expression calculator core: a tokenizer, a
//! precedence-climbing parser, and a canonical formatter, with the
//! parts of evaluation that do not touch machine arithmetic.
//!
//! A host shell is expected to read input lines, hand them to
//! [`expression::Expr::parse_stream`], and render results; the numeric
//! reduction of a tree runs in the host, which owns the floating-point
//! variable environment.

pub mod lexicon;
pub mod lexer;
pub mod expression;
pub mod laws;
