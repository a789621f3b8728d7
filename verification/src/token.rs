//! The mathematical model of token trees that every contract of this crate speaks of.

use vstd::prelude::*;

verus! {

/// How a group of tokens is delimited.
#[derive(Clone, Copy, Debug, PartialEq, Eq, Structural)]
pub enum Delimiter {
    /// `( ... )`
    Parenthesis,
    /// `{ ... }`
    Brace,
    /// `[ ... ]`
    Bracket,
    /// No visible delimiter.
    Invisible,
}

/// Whether a punctuation mark is glued to the punctuation mark that follows it.
#[derive(Clone, Copy, Debug, PartialEq, Eq, Structural)]
pub enum Spacing {
    /// Followed by something that is not punctuation, or by white space.
    Alone,
    /// Immediately followed by another punctuation mark, as the first `:` of `::`.
    Joint,
}

/// One token tree, without its source location.
///
/// Identifiers and literals are known by their source text: the literal `"ms"` has the
/// four-character text `"ms"`, quotes included.
pub enum Token {
    Ident(Seq<char>),
    Literal(Seq<char>),
    Punct(char, Spacing),
    Group(Delimiter, Seq<Token>),
}

impl Token {
    /// The punctuation mark `ch`, not glued to what follows.
    pub open spec fn punct(ch: char) -> Token {
        Token::Punct(ch, Spacing::Alone)
    }

    /// Is this token a comma, whatever follows it?
    pub open spec fn is_comma(self) -> bool {
        self matches Token::Punct(ch, _) && ch == ','
    }
}

} // verus!
