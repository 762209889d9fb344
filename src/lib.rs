//! An evaluator for the untyped lambda calculus: terms, canonical tagging of
//! bound variables, capture-avoiding substitution and reduction to normal form.
//!
//! - `term`: the mathematical model of terms and the meaning of each operation.
//! - `ast`: expressions, their printing, canonicalization, substitution and
//!   evaluation, each proved to compute what `term` says.
//! - `laws`: properties of canonicalization and evaluation.
//! - `syntax` and `output`: the `lambda!` front end, which reads a term and its
//!   declared inputs from token trees, and hands a normal form back as nested
//!   pairs of input names.
//!
//! Design choices:
//! - A binder's tag is its depth among enclosing abstractions. Two binders in
//!   different branches of one application can therefore share a tag; no
//!   fresh-name counter is used.
//! - The scope of canonicalization maps names to tags, so a variable takes the
//!   tag of the nearest binder of its name whatever tag it had before.
//! - Reduction is strict: both sides of an application are reduced before the
//!   redex is contracted, and abstraction bodies are reduced too, so a term
//!   evaluates to a full beta-normal form. A term with no normal form under
//!   this order has no result: `Expr::eval` requires that reduction ends.
pub mod term;

pub mod ast;
pub mod laws;
pub mod output;
pub mod syntax;
