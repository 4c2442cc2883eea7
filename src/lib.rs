//! A step-by-step calculator: a tokenizer, a precedence-climbing parser and a
//! reducer that rewrites the syntax tree one operation at a time, logging the
//! expression before each step.
//!
//! The library is generic over the number type `N`. The structure of the
//! language (tokens, grammar, reduction order, rendering and the step log) is
//! verified here; the numeric work itself (reading literals, arithmetic,
//! writing numbers) is handed in by the caller as functions, and the contracts
//! state the results in terms of what those functions return.
pub mod evaluator;
pub mod laws;
pub mod lexer;
pub mod parser;
