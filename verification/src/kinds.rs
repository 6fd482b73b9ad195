//! The closed enumeration of token and node kinds.
//!
//! Token kinds and node kinds share one enum, as downstream consumers
//! pattern-match on a single kind space.  `Error` doubles as the kind of
//! unrecognized tokens and of error-recovery nodes.

use vstd::prelude::*;

verus! {

/// Every kind a token or a tree node can have.
#[derive(Clone, Copy, Debug, PartialEq, Eq, Structural, Hash)]
pub enum SyntaxKind {
    // Token kinds.
    /// A run of whitespace bytes.
    Whitespace,
    /// A line comment, `//` up to (not including) the newline.
    Comment,
    /// An identifier.
    Ident,
    /// A run of decimal digits.
    IntNumber,
    /// A double-quoted string literal, possibly unterminated.
    Str,
    /// `(`
    LParen,
    /// `)`
    RParen,
    /// `{`
    LCurly,
    /// `}`
    RCurly,
    /// `+`
    Plus,
    /// `-`
    Minus,
    /// `*`
    Star,
    /// `,`
    Comma,
    /// `;`
    Semi,
    /// An unrecognized token, or an error-recovery node.
    Error,

    // Node kinds.
    /// The root node covering the whole text.
    Root,
    /// A function-like item: name, parameter list, body.
    FnDef,
    /// A parenthesized, comma-separated parameter list.
    ParamList,
    /// A curly-braced body.
    Block,
    /// An expression: atoms joined by infix operators.
    Expr,
    /// A parenthesized sub-expression.
    ParenExpr,
}

impl SyntaxKind {
    /// Trivia tokens are kept in the tree but ignored by grammar decisions.
    pub open spec fn spec_is_trivia(self) -> bool {
        self == SyntaxKind::Whitespace || self == SyntaxKind::Comment
    }

    /// Executable counterpart of [`Self::spec_is_trivia`].
    pub fn is_trivia(self) -> (r: bool)
        ensures
            r == self.spec_is_trivia(),
    {
        self == SyntaxKind::Whitespace || self == SyntaxKind::Comment
    }
}

} // verus!
