//! The scanner: a cursor over the source text that hands out one token per
//! call.

use vstd::prelude::*;
use vstd::string::*;
use crate::grammar::column_at;
use crate::grammar::compound_kind;
use crate::grammar::is_digit;
use crate::grammar::is_ident_start;
use crate::grammar::keyword_kind;
use crate::grammar::keywords;
use crate::grammar::lemma_line_column_bounds;
use crate::grammar::lemma_next_scan_progress;
use crate::grammar::lemma_run_end;
use crate::grammar::line_at;
use crate::grammar::lookup;
use crate::grammar::next_scan;
use crate::grammar::run_end;
use crate::grammar::scan_at;
use crate::grammar::scans_from;
use crate::grammar::single_kind;
use crate::grammar::starts_identifier;
use crate::grammar::starts_number;
use crate::grammar::takes_equals;
use crate::grammar::tokens_of;
use crate::grammar::CharClass;
pub use crate::token::Token;
pub use crate::token::TokenKind;
pub use crate::token::TokenView;

verus! {

/// The number of reserved words.
pub const KEYWORD_COUNT: usize = 7;

/// Where the scanner stands in the text.
struct Cursor {
    /// The column: characters since the start of the line.
    loc_x: usize,
    /// The line, counted from 1.
    loc_y: usize,
    /// The number of characters consumed so far.
    index: usize,
}

/// A scanner over one source text.
pub struct Lexer {
    source: String,
    /// The number of characters of `source`.
    length: usize,
    cursor: Cursor,
    /// The character at the cursor, `None` at the end of the text.
    current_char: Option<char>,
    /// Whether the end-of-input token has been handed out.
    exhausted: bool,
}

/// The mathematical value of a [`Lexer`].
pub struct LexerView {
    /// The text being scanned.
    pub source: Seq<char>,
    /// The number of characters consumed so far.
    pub position: int,
    /// Whether the end-of-input token has been handed out.
    pub finished: bool,
}

impl View for Lexer {
    type V = LexerView;

    closed spec fn view(&self) -> LexerView {
        LexerView {
            source: self.source@,
            position: self.cursor.index as int,
            finished: self.exhausted,
        }
    }
}

/// The views of the tokens of `tokens`, in order.
pub open spec fn token_views(tokens: Seq<Token>) -> Seq<TokenView> {
    Seq::new(tokens.len(), |k: int| tokens[k]@)
}

/// Decides whether two texts hold the same characters.
pub fn text_equals(a: &str, b: &str) -> (r: bool)
    ensures
        r == (a@ == b@),
{
    let n: usize = a.unicode_len();
    if b.unicode_len() != n {
        return false;
    }
    let mut k: usize = 0;
    while k < n
        invariant
            n == a@.len(),
            n == b@.len(),
            k <= n,
            forall|j: int| 0 <= j < k ==> a@[j] == b@[j],
        decreases n - k,
    {
        if a.get_char(k) != b.get_char(k) {
            return false;
        }
        k += 1;
    }
    assert(a@ =~= b@);
    true
}

/// The reserved words with their kinds.
pub fn keyword_table() -> (table: [(&'static str, TokenKind); KEYWORD_COUNT])
    ensures
        keywords().len() == KEYWORD_COUNT,
        forall|k: int|
            0 <= k < KEYWORD_COUNT ==> (#[trigger] table@[k]).0@ == keywords()[k].0 && table@[k].1
                == keywords()[k].1,
{
    [
        ("topping", TokenKind::Topping),
        ("recipe", TokenKind::Recipe),
        ("slice", TokenKind::Slice),
        ("extra", TokenKind::Extra),
        ("oven", TokenKind::Oven),
        ("serve", TokenKind::Serve),
        ("cheese", TokenKind::Cheese),
    ]
}

/// The kind of the identifier-shaped lexeme `word`: that of the reserved
/// word it spells, else `Identifier`.
pub fn lookup_keyword(word: &str) -> (kind: TokenKind)
    ensures
        kind == keyword_kind(word@),
{
    let table = keyword_table();
    let mut k: usize = 0;
    assert(keywords().skip(0) =~= keywords());
    while k < KEYWORD_COUNT
        invariant
            k <= KEYWORD_COUNT,
            keywords().len() == KEYWORD_COUNT,
            forall|j: int|
                0 <= j < KEYWORD_COUNT ==> (#[trigger] table@[j]).0@ == keywords()[j].0
                    && table@[j].1 == keywords()[j].1,
            keyword_kind(word@) == lookup(keywords().skip(k as int), word@),
        decreases KEYWORD_COUNT - k,
    {
        let entry = table[k];
        assert(keywords().skip(k as int)[0] == keywords()[k as int]);
        if text_equals(word, entry.0) {
            return entry.1;
        }
        assert(keywords().skip(k as int).drop_first() =~= keywords().skip(k as int + 1));
        k += 1;
    }
    TokenKind::Identifier
}

/// The kind of the operator or delimiter that is the one character `c`;
/// `Illegal` where there is none.
pub fn kind_of_single(c: char) -> (kind: TokenKind)
    ensures
        kind == single_kind(c),
{
    match c {
        '+' => TokenKind::Plus,
        '-' => TokenKind::Minus,
        '*' => TokenKind::Asterisk,
        '/' => TokenKind::Slash,
        '=' => TokenKind::Equals,
        '>' => TokenKind::GreaterThan,
        '<' => TokenKind::LessThan,
        '(' => TokenKind::LeftParen,
        ')' => TokenKind::RightParen,
        '{' => TokenKind::LeftBrace,
        '}' => TokenKind::RightBrace,
        ',' => TokenKind::Comma,
        _ => TokenKind::Illegal,
    }
}

/// The kind of the operator made of `c` and a following `=`, where `c`
/// begins one.
pub fn kind_of_compound(c: char) -> (kind: Option<TokenKind>)
    ensures
        kind is Some == takes_equals(c),
        takes_equals(c) ==> kind == Some(compound_kind(c)),
{
    match c {
        '=' => Some(TokenKind::DoubleEquals),
        '!' => Some(TokenKind::NotEquals),
        '>' => Some(TokenKind::GreaterThanOrEqual),
        '<' => Some(TokenKind::LessThanOrEqual),
        _ => None,
    }
}

impl Lexer {
    /// The cursor is within the text, line and column are those of its
    /// position, and the cached character is the one under it.
    pub closed spec fn wf(&self) -> bool {
        &&& self.length == self.source@.len()
        &&& self.length < usize::MAX
        &&& self.cursor.index <= self.length
        &&& self.cursor.loc_y == line_at(self.source@, self.cursor.index as int)
        &&& self.cursor.loc_x == column_at(self.source@, self.cursor.index as int)
        &&& self.current_char == if self.cursor.index < self.length {
            Some(self.source@[self.cursor.index as int])
        } else {
            None
        }
        &&& self.exhausted ==> self.cursor.index == self.length
    }

    /// A well-formed scanner stands within its text, and at its end once it
    /// has finished.
    pub proof fn lemma_position(&self)
        requires
            self.wf(),
        ensures
            0 <= self@.position <= self@.source.len(),
            self@.finished ==> self@.position == self@.source.len(),
    {
    }

    /// A scanner at the start of `source`.
    pub fn new(source: String) -> (lexer: Lexer)
        requires
            source@.len() < usize::MAX,
        ensures
            lexer.wf(),
            lexer@ == (LexerView { source: source@, position: 0, finished: false }),
    {
        let length: usize = source.as_str().unicode_len();
        let current_char = if length > 0 {
            Some(source.as_str().get_char(0))
        } else {
            None
        };
        Lexer {
            source,
            length,
            cursor: Cursor { loc_x: 0, loc_y: 1, index: 0 },
            current_char,
            exhausted: false,
        }
    }

    /// Moves the cursor past the character under it, and keeps line, column
    /// and the cached character in step. At the end of the text nothing
    /// moves.
    fn advance(&mut self)
        requires
            old(self).wf(),
        ensures
            final(self).wf(),
            final(self)@.source == old(self)@.source,
            final(self)@.finished == old(self)@.finished,
            final(self)@.position == if old(self)@.position < old(self)@.source.len() {
                old(self)@.position + 1
            } else {
                old(self)@.position
            },
    {
        if let Some(consumed) = self.current_char {
            proof {
                lemma_line_column_bounds(self.source@, self.cursor.index as int);
            }
            self.cursor.index += 1;
            if consumed == '\n' {
                self.cursor.loc_y += 1;
                self.cursor.loc_x = 0;
            } else {
                self.cursor.loc_x += 1;
            }
            self.current_char = if self.cursor.index < self.length {
                Some(self.source.as_str().get_char(self.cursor.index))
            } else {
                None
            };
        }
    }

    /// The character after the one under the cursor, if there is one.
    fn peek(&self) -> (next: Option<char>)
        requires
            self.wf(),
        ensures
            next == if self@.position + 1 < self@.source.len() {
                Some(self@.source[self@.position + 1])
            } else {
                None
            },
    {
        if self.cursor.index + 1 < self.length {
            Some(self.source.as_str().get_char(self.cursor.index + 1))
        } else {
            None
        }
    }

    /// Consumes the longest run of characters of `class` at the cursor.
    fn read_run(&mut self, class: CharClass)
        requires
            old(self).wf(),
        ensures
            final(self).wf(),
            final(self)@.source == old(self)@.source,
            final(self)@.finished == old(self)@.finished,
            final(self)@.position == run_end(old(self)@.source, class, old(self)@.position),
    {
        loop
            invariant
                self.wf(),
                self@.source == old(self)@.source,
                self@.finished == old(self)@.finished,
                run_end(self@.source, class, self@.position) == run_end(
                    old(self)@.source,
                    class,
                    old(self)@.position,
                ),
            ensures
                self@.position == run_end(old(self)@.source, class, old(self)@.position),
            decreases self@.source.len() - self@.position,
        {
            match self.current_char {
                Some(c) if class.contains(c) => self.advance(),
                _ => break,
            }
        }
    }

    /// Consumes the whitespace at the cursor.
    fn skip_whitespace(&mut self)
        requires
            old(self).wf(),
        ensures
            final(self).wf(),
            final(self)@.source == old(self)@.source,
            final(self)@.finished == old(self)@.finished,
            final(self)@.position == run_end(
                old(self)@.source,
                CharClass::Space,
                old(self)@.position,
            ),
    {
        self.read_run(CharClass::Space);
    }

    /// The characters of the text from position `from` up to `to`.
    fn slice(&self, from: usize, to: usize) -> (text: &str)
        requires
            self.wf(),
            from <= to <= self@.source.len(),
        ensures
            text@ == self@.source.subrange(from as int, to as int),
    {
        self.source.as_str().substring_char(from, to)
    }

    /// A token of `kind` spelled `lexeme` that begins at `line` and `column`.
    fn create_token(kind: TokenKind, lexeme: &str, line: usize, column: usize) -> (token: Token)
        ensures
            token@ == (TokenView {
                kind,
                lexeme: lexeme@,
                literal: None,
                line: line as int,
                column: column as int,
            }),
    {
        Token { kind, lexeme: lexeme.to_owned(), literal: None, line, column }
    }

    /// Scans the identifier or reserved word at the cursor.
    fn read_identifier(&mut self) -> (token: Token)
        requires
            old(self).wf(),
            old(self)@.position < old(self)@.source.len(),
            is_ident_start(old(self)@.source[old(self)@.position]),
        ensures
            final(self).wf(),
            final(self)@.source == old(self)@.source,
            final(self)@.finished == old(self)@.finished,
            final(self)@.position == scan_at(old(self)@.source, old(self)@.position).end,
            token@ == scan_at(old(self)@.source, old(self)@.position).token(old(self)@.source),
    {
        let start: usize = self.cursor.index;
        let line: usize = self.cursor.loc_y;
        let column: usize = self.cursor.loc_x;
        self.read_run(CharClass::IdentPart);
        proof {
            lemma_run_end(self.source@, CharClass::IdentPart, start as int);
        }
        let word = self.slice(start, self.cursor.index);
        Self::create_token(lookup_keyword(word), word, line, column)
    }

    /// Scans the number literal at the cursor.
    fn read_number(&mut self) -> (token: Token)
        requires
            old(self).wf(),
            old(self)@.position < old(self)@.source.len(),
            is_digit(old(self)@.source[old(self)@.position]),
        ensures
            final(self).wf(),
            final(self)@.source == old(self)@.source,
            final(self)@.finished == old(self)@.finished,
            final(self)@.position == scan_at(old(self)@.source, old(self)@.position).end,
            token@ == scan_at(old(self)@.source, old(self)@.position).token(old(self)@.source),
    {
        let start: usize = self.cursor.index;
        let line: usize = self.cursor.loc_y;
        let column: usize = self.cursor.loc_x;
        self.read_run(CharClass::Digit);
        proof {
            lemma_run_end(self.source@, CharClass::Digit, start as int);
        }
        match self.current_char {
            Some('.') => {
                self.advance();
                proof {
                    lemma_run_end(self.source@, CharClass::Digit, self.cursor.index as int);
                }
                self.read_run(CharClass::Digit);
            },
            _ => {},
        }
        Self::create_token(
            TokenKind::NumberLiteral,
            self.slice(start, self.cursor.index),
            line,
            column,
        )
    }

    /// Scans the string literal whose opening quote is at the cursor.
    fn read_string(&mut self) -> (token: Token)
        requires
            old(self).wf(),
            old(self)@.position < old(self)@.source.len(),
            old(self)@.source[old(self)@.position] == '"',
        ensures
            final(self).wf(),
            final(self)@.source == old(self)@.source,
            final(self)@.finished == old(self)@.finished,
            final(self)@.position == scan_at(old(self)@.source, old(self)@.position).end,
            token@ == scan_at(old(self)@.source, old(self)@.position).token(old(self)@.source),
    {
        let line: usize = self.cursor.loc_y;
        let column: usize = self.cursor.loc_x;
        self.advance();
        let from: usize = self.cursor.index;
        self.read_run(CharClass::StringPart);
        proof {
            lemma_run_end(self.source@, CharClass::StringPart, from as int);
        }
        let content = self.slice(from, self.cursor.index);
        match self.current_char {
            Some(_) => {
                let token = Self::create_token(TokenKind::StringLiteral, content, line, column);
                self.advance();
                token
            },
            None => Self::create_token(TokenKind::UnterminatedString, content, line, column),
        }
    }

    /// Scans the operator, delimiter or illegal character `c` at the cursor.
    fn read_symbol(&mut self, c: char) -> (token: Token)
        requires
            old(self).wf(),
            old(self)@.position < old(self)@.source.len(),
            old(self)@.source[old(self)@.position] == c,
            !is_ident_start(c),
            !is_digit(c),
            c != '"',
        ensures
            final(self).wf(),
            final(self)@.source == old(self)@.source,
            final(self)@.finished == old(self)@.finished,
            final(self)@.position == scan_at(old(self)@.source, old(self)@.position).end,
            token@ == scan_at(old(self)@.source, old(self)@.position).token(old(self)@.source),
    {
        let start: usize = self.cursor.index;
        let line: usize = self.cursor.loc_y;
        let column: usize = self.cursor.loc_x;
        let kind = match (kind_of_compound(c), self.peek()) {
            (Some(compound), Some('=')) => {
                self.advance();
                compound
            },
            _ => kind_of_single(c),
        };
        self.advance();
        Self::create_token(kind, self.slice(start, self.cursor.index), line, column)
    }

    /// Hands out the next token of the text, and `None` once the
    /// end-of-input token has been handed out.
    ///
    /// The token is the one that the grammar places after the cursor:
    /// whitespace is skipped, the token's characters are consumed, and its
    /// line and column are those of its first character.
    pub fn next_token(&mut self) -> (token: Option<Token>)
        requires
            old(self).wf(),
        ensures
            final(self).wf(),
            final(self)@.source == old(self)@.source,
            old(self)@.finished ==> token is None && final(self)@ == old(self)@,
            !old(self)@.finished ==> {
                let scan = next_scan(old(self)@.source, old(self)@.position);
                &&& token is Some
                &&& token->0@ == scan.token(old(self)@.source)
                &&& final(self)@.position == scan.end
                &&& final(self)@.finished == (scan.kind == TokenKind::Eof)
            },
    {
        if self.exhausted {
            return None;
        }
        self.skip_whitespace();
        proof {
            lemma_next_scan_progress(old(self)@.source, old(self)@.position);
            reveal_strlit("");
            assert(""@ =~= Seq::<char>::empty());
        }
        let token = match self.current_char {
            None => {
                self.exhausted = true;
                Self::create_token(TokenKind::Eof, "", self.cursor.loc_y, self.cursor.loc_x)
            },
            Some(c) => {
                if starts_identifier(c) {
                    self.read_identifier()
                } else if starts_number(c) {
                    self.read_number()
                } else if c == '"' {
                    self.read_string()
                } else {
                    self.read_symbol(c)
                }
            },
        };
        Some(token)
    }

    /// The tokens that are still to come.
    pub open spec fn remaining(&self) -> Seq<TokenView> {
        if self@.finished {
            Seq::empty()
        } else {
            tokens_of(self@.source, scans_from(self@.source, self@.position))
        }
    }

    /// Scans the rest of the text and returns its tokens in order, the
    /// end-of-input token last. A scanner that had finished returns none.
    pub fn get_all_tokens(&mut self) -> (tokens: Vec<Token>)
        requires
            old(self).wf(),
        ensures
            final(self).wf(),
            final(self)@ == (LexerView {
                source: old(self)@.source,
                position: old(self)@.source.len() as int,
                finished: true,
            }),
            token_views(tokens@) == old(self).remaining(),
    {
        let mut tokens: Vec<Token> = Vec::new();
        loop
            invariant
                self.wf(),
                self@.source == old(self)@.source,
                token_views(tokens@) + self.remaining() == old(self).remaining(),
            ensures
                self.wf(),
                self@.source == old(self)@.source,
                self@.finished,
                token_views(tokens@) == old(self).remaining(),
            decreases self@.source.len() - self@.position + if self@.finished { 0int } else { 1 },
        {
            let ghost before = *self;
            let ghost collected = tokens@;
            proof {
                before.lemma_position();
                lemma_next_scan_progress(before@.source, before@.position);
            }
            match self.next_token() {
                Some(token) => {
                    tokens.push(token);
                    proof {
                        let s = before@.source;
                        let scan = next_scan(s, before@.position);
                        assert(token_views(tokens@) =~= token_views(collected) + seq![
                            scan.token(s),
                        ]);
                        assert(before.remaining() =~= seq![scan.token(s)] + self.remaining());
                    }
                },
                None => {
                    assert(token_views(tokens@) + Seq::<TokenView>::empty() =~= token_views(
                        tokens@,
                    ));
                    break;
                },
            }
        }
        proof {
            self.lemma_position();
        }
        tokens
    }

    /// Scanning is a function of the text and the position: two scanners
    /// that hold the same text at the same position hand out the same
    /// tokens, whatever else differs between them.
    pub proof fn lemma_same_state_same_tokens(
        &self,
        other: &Lexer,
        mine: Seq<Token>,
        theirs: Seq<Token>,
    )
        requires
            self.wf(),
            other.wf(),
            self@ == other@,
            token_views(mine) == self.remaining(),
            token_views(theirs) == other.remaining(),
        ensures
            mine.len() == theirs.len(),
            forall|k: int| 0 <= k < mine.len() ==> mine[k]@ == theirs[k]@,
    {
        assert(token_views(mine).len() == token_views(theirs).len());
        assert forall|k: int| 0 <= k < mine.len() implies mine[k]@ == theirs[k]@ by {
            assert(token_views(mine)[k] == token_views(theirs)[k]);
        }
    }
}

} // verus!
