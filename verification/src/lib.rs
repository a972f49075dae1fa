//! A lexical scanner for the Pizza scripting language.
//!
//! The scanner turns source text into a sequence of classified tokens. What
//! each token is, where it begins and how far it reaches is defined over the
//! text as a sequence of characters in [`grammar`]; [`lexer`] holds the
//! executable scanner, which is proved to produce exactly those tokens.

pub mod token;
pub mod grammar;
pub mod lexer;
