//! Navigation handles over a parsed file.
//!
//! A [`SyntaxNode`] is an ephemeral view: the node's kind, its span in the
//! event log, the index of its first token and its absolute byte offset.
//! Handles are computed on demand by walking the event log; nothing is
//! stored in the tree itself, so trees stay position-free and shareable.

use vstd::prelude::*;

use crate::kinds::SyntaxKind;

verus! {

/// A view of one node of the tree.
#[derive(Clone, Copy, Debug, PartialEq, Eq, Structural, Hash)]
pub struct SyntaxNode {
    /// The node's kind.
    pub kind: SyntaxKind,
    /// Index of the node's `Open` event.
    pub ev_start: usize,
    /// One past the index of the node's `Close` event.
    pub ev_end: usize,
    /// Index of the first token at or after the node's start.
    pub tok_start: usize,
    /// Absolute byte offset of the node's start.
    pub offset: usize,
}

/// The typed view of a whole file: its root node.
#[derive(Clone, Copy, Debug, PartialEq, Eq, Structural)]
pub struct Root {
    /// The root syntax node, covering the entire text.
    pub syntax: SyntaxNode,
}

} // verus!
