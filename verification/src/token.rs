//! Tokens and their kinds.

use vstd::prelude::*;

verus! {

/// The closed set of token categories.
#[derive(Debug, PartialEq, Eq, Structural, Clone, Copy)]
pub enum TokenKind {
    // Keywords
    Topping,
    Recipe,
    Slice,
    Extra,
    Oven,
    Serve,
    Cheese,
    // Identifiers and literals
    Identifier,
    StringLiteral,
    NumberLiteral,
    // Operators
    Plus,
    Minus,
    Asterisk,
    Slash,
    Equals,
    DoubleEquals,
    NotEquals,
    GreaterThan,
    LessThan,
    GreaterThanOrEqual,
    LessThanOrEqual,
    // Delimiters
    LeftParen,
    RightParen,
    LeftBrace,
    RightBrace,
    Comma,
    // Other
    /// The end of the input: the last token of every pass.
    Eof,
    /// A character that begins no token, or a `!` that no `=` follows.
    Illegal,
    /// A string literal whose closing quote is missing.
    UnterminatedString,
}

/// One token of the source text.
#[derive(Debug, PartialEq, Eq)]
pub struct Token {
    pub kind: TokenKind,
    /// The source characters the token was built from; for a string, the
    /// characters between the quotes.
    pub lexeme: String,
    /// A decoded value of a literal. The scanner decodes nothing and leaves
    /// it unset.
    pub literal: Option<String>,
    /// The line on which the token begins, counted from 1.
    pub line: usize,
    /// The column at which the token begins: the number of characters
    /// between the start of its line and its first character.
    pub column: usize,
}

/// The mathematical value of a [`Token`].
pub struct TokenView {
    pub kind: TokenKind,
    pub lexeme: Seq<char>,
    pub literal: Option<Seq<char>>,
    pub line: int,
    pub column: int,
}

impl View for Token {
    type V = TokenView;

    open spec fn view(&self) -> TokenView {
        TokenView {
            kind: self.kind,
            lexeme: self.lexeme@,
            literal: match self.literal {
                Some(text) => Some(text@),
                None => None,
            },
            line: self.line as int,
            column: self.column as int,
        }
    }
}

} // verus!
