//! A layout and splicing engine for reformatting the body of a multi-arm
//! control macro inside a larger source file.
//!
//! The crate is organised around four pieces:
//!
//! * [`algorithm`] — a document model (literal text, groups, breakable
//!   points) and the width-constrained layout engine that renders a
//!   document to concrete text;
//! * [`select`] — the per-arm formatting policy for the targeted macro:
//!   classification of arm bodies, the brace-vs-inline decision, and the
//!   builder that composes the whole macro body as one document;
//! * [`replacement`] — the span-indexed splicer that merges rendered
//!   replacement text back into the original file, byte for byte outside
//!   the rewritten ranges;
//! * [`laws`] — proofs of the properties that tie these together:
//!   splice fidelity and accounting, unwrap normalization, and the
//!   brace/comma duality of arm rendering;
//! * [`comments`], [`model`], [`strategy`] — supporting data types.
//!
//! Parsing source text into a syntax tree is out of scope: callers hand
//! the formatter pre-rendered document tokens for patterns, driver
//! expressions and statements, together with the syntactic facts the
//! policy needs (expression category, block structure).

pub mod algorithm;
pub mod comments;
pub mod laws;
pub mod macro_syntax;
pub mod model;
pub mod replacement;
pub mod select;
pub mod strategy;
