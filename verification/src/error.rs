//! Why a source text has no tree.
//!
//! A position is the index of a character of the source text, counted from
//! zero: that of the first character of the token, or of the character,
//! that the error is about.
use vstd::prelude::*;
use crate::macros::MacroKind;
use crate::token::TokenKind;

verus! {

/// What the parser would have accepted where it stopped.
#[derive(Clone, Copy, Debug, PartialEq, Eq, Structural)]
pub enum Expected {
    /// The start of an expression.
    Expression,
    /// A token of this kind.
    Token(TokenKind),
    /// A double's bit pattern for the literal: none was handed in for it.
    DoubleBits,
}

/// What is wrong with the characters at a position.
#[derive(Clone, Copy, Debug, PartialEq, Eq, Structural)]
pub enum LexProblem {
    /// A character that starts no token.
    UnexpectedCharacter,
    /// A string or bytes literal without its closing quote.
    UnterminatedString,
    /// An escape sequence that the literal's kind does not have.
    InvalidEscape,
    /// An integer literal outside the range of its type.
    IntegerOutOfRange,
}

/// The first thing that kept a source text from having a tree.
#[allow(inconsistent_fields)]
#[derive(Clone, Copy, Debug, PartialEq, Eq, Structural)]
pub enum ParseError {
    /// The token at `position` is `found`, where `expected` was needed.
    Syntax { position: usize, expected: Expected, found: TokenKind },
    /// The characters at `position` spell no token, or a literal without a
    /// value.
    Lexical { position: usize, problem: LexProblem },
    /// A macro was called with `actual` arguments and takes `expected`.
    MacroArityError { name: MacroKind, expected: usize, actual: usize },
    /// A macro was called with something else than a name where it binds
    /// a variable or, for `has`, with something else than a field selection.
    MacroBindingError { name: MacroKind },
    /// The tree would need more nodes than there are identifiers.
    TooManyNodes,
}

} // verus!
