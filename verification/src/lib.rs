//! An IDE-oriented, lossless, error-tolerant parser with incremental
//! reparsing.
//!
//! The library turns source text into a syntax tree that keeps every byte of
//! the input (whitespace and comments included), never fails on malformed
//! input, and can update a tree in response to a localized edit without
//! reparsing the whole document.
//!
//! The pipeline is: tokenizer (`lexer`), tolerant grammar driver (`grammar`
//! as the model, `parser` as the proved executable), tree and facade
//! (`tree`), navigation handles (`cursor`), post-parse validation
//! (`validation`), and the incremental reparse engine (`reparsing` plus the
//! methods on [`File`]).  The crate-wide laws — round-trip, progress,
//! reparse equivalence, diagnostics ordering — live in `laws`.
//!
//! Totality is part of the contracts: [`File::parse`] has no precondition,
//! and the only hard failure any operation admits is an edit whose offsets
//! do not fit the text it claims to edit.

use vstd::prelude::*;

pub mod cursor;
pub mod errors;
pub mod grammar;
pub mod kinds;
pub mod laws;
pub mod lexer;
pub mod parser;
pub mod reparsing;
pub mod tree;
pub mod validation;

verus! {

pub use crate::cursor::Root;
pub use crate::cursor::SyntaxNode;
pub use crate::errors::SyntaxError;
pub use crate::errors::SyntaxErrorKind;
pub use crate::grammar::Event;
pub use crate::kinds::SyntaxKind;
pub use crate::lexer::Token;
pub use crate::lexer::tokenize;
pub use crate::reparsing::AtomEdit;
pub use crate::reparsing::TextRange;
pub use crate::tree::File;

} // verus!
