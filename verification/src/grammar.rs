//! The lexical grammar, stated over the source text as a sequence of
//! characters.
//!
//! [`scan_at`] says which token begins at a position, [`next_scan`] which
//! token follows a position once whitespace is skipped, and [`scans_from`]
//! gives every token from a position to the end of the text.

use vstd::prelude::*;
use crate::token::TokenKind;
use crate::token::TokenView;

verus! {

/// The sets of characters that the scanner consumes in runs.
#[derive(Debug, PartialEq, Eq, Structural, Clone, Copy)]
pub enum CharClass {
    /// Space, tab and newline.
    Space,
    /// ASCII letters, ASCII digits and the underscore.
    IdentPart,
    /// ASCII digits.
    Digit,
    /// Every character but the double quote.
    StringPart,
}

pub open spec fn is_space(c: char) -> bool {
    c == ' ' || c == '\t' || c == '\n'
}

pub open spec fn is_letter(c: char) -> bool {
    ('a' <= c && c <= 'z') || ('A' <= c && c <= 'Z')
}

pub open spec fn is_digit(c: char) -> bool {
    '0' <= c && c <= '9'
}

/// Whether `c` can begin an identifier.
pub open spec fn is_ident_start(c: char) -> bool {
    is_letter(c) || c == '_'
}

/// Whether `c` begins an operator that a following `=` extends.
pub open spec fn takes_equals(c: char) -> bool {
    c == '=' || c == '!' || c == '>' || c == '<'
}

impl CharClass {
    /// Whether `c` belongs to the class.
    pub open spec fn holds(self, c: char) -> bool {
        match self {
            CharClass::Space => is_space(c),
            CharClass::IdentPart => is_letter(c) || is_digit(c) || c == '_',
            CharClass::Digit => is_digit(c),
            CharClass::StringPart => c != '"',
        }
    }
}

impl CharClass {
    /// Decides whether `c` belongs to the class.
    pub fn contains(self, c: char) -> (r: bool)
        ensures
            r == self.holds(c),
    {
        match self {
            CharClass::Space => c == ' ' || c == '\t' || c == '\n',
            CharClass::IdentPart => starts_identifier(c) || (c >= '0' && c <= '9'),
            CharClass::Digit => c >= '0' && c <= '9',
            CharClass::StringPart => c != '"',
        }
    }
}

/// Decides whether `c` can begin an identifier.
pub fn starts_identifier(c: char) -> (r: bool)
    ensures
        r == is_ident_start(c),
{
    (c >= 'a' && c <= 'z') || (c >= 'A' && c <= 'Z') || c == '_'
}

/// Decides whether `c` is an ASCII digit.
pub fn starts_number(c: char) -> (r: bool)
    ensures
        r == is_digit(c),
{
    c >= '0' && c <= '9'
}

/// The end of the longest run of characters of `class` that begins at `i`.
pub open spec fn run_end(s: Seq<char>, class: CharClass, i: int) -> int
    decreases s.len() - i,
{
    if 0 <= i < s.len() && class.holds(s[i]) {
        run_end(s, class, i + 1)
    } else {
        i
    }
}

/// The end of the number literal that begins at `i`: digits, then at most
/// one `.` with the digits that follow it.
pub open spec fn number_end(s: Seq<char>, i: int) -> int {
    let d = run_end(s, CharClass::Digit, i);
    if 0 <= d < s.len() && s[d] == '.' {
        run_end(s, CharClass::Digit, d + 1)
    } else {
        d
    }
}

/// The reserved words, each with its kind.
pub open spec fn keywords() -> Seq<(Seq<char>, TokenKind)> {
    seq![
        ("topping"@, TokenKind::Topping),
        ("recipe"@, TokenKind::Recipe),
        ("slice"@, TokenKind::Slice),
        ("extra"@, TokenKind::Extra),
        ("oven"@, TokenKind::Oven),
        ("serve"@, TokenKind::Serve),
        ("cheese"@, TokenKind::Cheese),
    ]
}

/// The kind that `table` gives to `word`: that of the first entry spelled
/// like it, and `Identifier` where there is none.
pub open spec fn lookup(table: Seq<(Seq<char>, TokenKind)>, word: Seq<char>) -> TokenKind
    decreases table.len(),
{
    if table.len() == 0 {
        TokenKind::Identifier
    } else if table[0].0 == word {
        table[0].1
    } else {
        lookup(table.drop_first(), word)
    }
}

/// The kind of an identifier-shaped lexeme.
pub open spec fn keyword_kind(word: Seq<char>) -> TokenKind {
    lookup(keywords(), word)
}

/// The kind of the operator or delimiter that is the one character `c`.
pub open spec fn single_kind(c: char) -> TokenKind {
    if c == '+' {
        TokenKind::Plus
    } else if c == '-' {
        TokenKind::Minus
    } else if c == '*' {
        TokenKind::Asterisk
    } else if c == '/' {
        TokenKind::Slash
    } else if c == '=' {
        TokenKind::Equals
    } else if c == '>' {
        TokenKind::GreaterThan
    } else if c == '<' {
        TokenKind::LessThan
    } else if c == '(' {
        TokenKind::LeftParen
    } else if c == ')' {
        TokenKind::RightParen
    } else if c == '{' {
        TokenKind::LeftBrace
    } else if c == '}' {
        TokenKind::RightBrace
    } else if c == ',' {
        TokenKind::Comma
    } else {
        TokenKind::Illegal
    }
}

/// The kind of the operator made of `c` and a following `=`.
pub open spec fn compound_kind(c: char) -> TokenKind
    recommends
        takes_equals(c),
{
    if c == '=' {
        TokenKind::DoubleEquals
    } else if c == '!' {
        TokenKind::NotEquals
    } else if c == '>' {
        TokenKind::GreaterThanOrEqual
    } else {
        TokenKind::LessThanOrEqual
    }
}

/// What the scanner makes of the text at one position.
pub struct Scan {
    pub kind: TokenKind,
    /// The position of the token's first character.
    pub start: int,
    /// The position after the token's last character.
    pub end: int,
    pub lexeme: Seq<char>,
}

/// The line of position `i`: one more than the number of newlines before it.
pub open spec fn line_at(s: Seq<char>, i: int) -> int
    decreases i,
{
    if i <= 0 || i > s.len() {
        1
    } else if s[i - 1] == '\n' {
        line_at(s, i - 1) + 1
    } else {
        line_at(s, i - 1)
    }
}

/// The column of position `i`: the number of characters between the last
/// newline before it, or the start of the text, and `i`.
pub open spec fn column_at(s: Seq<char>, i: int) -> int
    decreases i,
{
    if i <= 0 || i > s.len() || s[i - 1] == '\n' {
        0
    } else {
        column_at(s, i - 1) + 1
    }
}

impl Scan {
    /// The number of characters that the token takes from the text.
    pub open spec fn consumed(self) -> int {
        self.end - self.start
    }

    /// The token as the scanner hands it out.
    pub open spec fn token(self, s: Seq<char>) -> TokenView {
        TokenView {
            kind: self.kind,
            lexeme: self.lexeme,
            literal: None,
            line: line_at(s, self.start),
            column: column_at(s, self.start),
        }
    }
}

/// The token that begins at position `i` of `s`, where `i` is the end of the
/// text or the position of a character that is no whitespace.
pub open spec fn scan_at(s: Seq<char>, i: int) -> Scan {
    if !(0 <= i < s.len()) {
        Scan { kind: TokenKind::Eof, start: i, end: i, lexeme: Seq::empty() }
    } else if is_ident_start(s[i]) {
        let e = run_end(s, CharClass::IdentPart, i);
        Scan { kind: keyword_kind(s.subrange(i, e)), start: i, end: e, lexeme: s.subrange(i, e) }
    } else if is_digit(s[i]) {
        let e = number_end(s, i);
        Scan { kind: TokenKind::NumberLiteral, start: i, end: e, lexeme: s.subrange(i, e) }
    } else if s[i] == '"' {
        let q = run_end(s, CharClass::StringPart, i + 1);
        if q < s.len() {
            Scan {
                kind: TokenKind::StringLiteral,
                start: i,
                end: q + 1,
                lexeme: s.subrange(i + 1, q),
            }
        } else {
            Scan {
                kind: TokenKind::UnterminatedString,
                start: i,
                end: q,
                lexeme: s.subrange(i + 1, q),
            }
        }
    } else if takes_equals(s[i]) && i + 1 < s.len() && s[i + 1] == '=' {
        Scan { kind: compound_kind(s[i]), start: i, end: i + 2, lexeme: s.subrange(i, i + 2) }
    } else {
        Scan { kind: single_kind(s[i]), start: i, end: i + 1, lexeme: s.subrange(i, i + 1) }
    }
}

/// The token that follows position `i`, after the whitespace there.
pub open spec fn next_scan(s: Seq<char>, i: int) -> Scan {
    scan_at(s, run_end(s, CharClass::Space, i))
}

/// Every token from position `i` on, the end-of-input token last.
pub open spec fn scans_from(s: Seq<char>, i: int) -> Seq<Scan>
    decreases s.len() - i,
    when 0 <= i <= s.len()
    via scans_from_decreases
{
    let sc = next_scan(s, i);
    if sc.kind == TokenKind::Eof {
        seq![sc]
    } else {
        seq![sc] + scans_from(s, sc.end)
    }
}

#[via_fn]
proof fn scans_from_decreases(s: Seq<char>, i: int) {
    lemma_next_scan_progress(s, i);
}

/// The tokens of the whole text.
pub open spec fn scans(s: Seq<char>) -> Seq<Scan> {
    scans_from(s, 0)
}

/// The number of characters that the tokens of `scs` take from the text, the
/// end-of-input token left out.
pub open spec fn consumed_total(scs: Seq<Scan>) -> int
    decreases scs.len(),
{
    if scs.len() == 0 {
        0
    } else if scs[0].kind == TokenKind::Eof {
        consumed_total(scs.drop_first())
    } else {
        scs[0].consumed() + consumed_total(scs.drop_first())
    }
}

/// The number of characters that lie before and between the tokens of
/// `scs`, where the first is scanned for from position `from` and each
/// other from the end of the one before it.
pub open spec fn skipped_total(scs: Seq<Scan>, from: int) -> int
    decreases scs.len(),
{
    if scs.len() == 0 {
        0
    } else {
        scs[0].start - from + skipped_total(scs.drop_first(), scs[0].end)
    }
}

/// The tokens that the scanner hands out for the scans `scs` of `s`.
pub open spec fn tokens_of(s: Seq<char>, scs: Seq<Scan>) -> Seq<TokenView> {
    Seq::new(scs.len(), |k: int| scs[k].token(s))
}

/// The text begins on line 1 at column 0. Past a newline the line is one
/// more and the column is 0; past any other character the line is the same
/// and the column is one more.
pub proof fn lemma_line_column_step(s: Seq<char>, i: int)
    requires
        0 <= i < s.len(),
    ensures
        line_at(s, 0) == 1,
        column_at(s, 0) == 0,
        s[i] == '\n' ==> line_at(s, i + 1) == line_at(s, i) + 1 && column_at(s, i + 1) == 0,
        s[i] != '\n' ==> line_at(s, i + 1) == line_at(s, i) && column_at(s, i + 1) == column_at(
            s,
            i,
        ) + 1,
{
}

/// Lines are counted from 1 and columns from 0, and neither outruns the
/// position.
pub proof fn lemma_line_column_bounds(s: Seq<char>, i: int)
    requires
        0 <= i <= s.len(),
    ensures
        1 <= line_at(s, i) <= i + 1,
        0 <= column_at(s, i) <= i,
    decreases i,
{
    if i > 0 {
        lemma_line_column_bounds(s, i - 1);
    }
}

/// A run ends within the text, holds only characters of its class, and stops
/// at the end of the text or before a character outside the class.
pub proof fn lemma_run_end(s: Seq<char>, class: CharClass, i: int)
    requires
        0 <= i <= s.len(),
    ensures
        i <= run_end(s, class, i) <= s.len(),
        forall|j: int| i <= j < run_end(s, class, i) ==> class.holds(#[trigger] s[j]),
        run_end(s, class, i) < s.len() ==> !class.holds(s[run_end(s, class, i)]),
    decreases s.len() - i,
{
    if i < s.len() && class.holds(s[i]) {
        lemma_run_end(s, class, i + 1);
    }
}

/// A run is the only stretch from `i` that holds only characters of the
/// class and cannot be extended.
pub proof fn lemma_run_end_unique(s: Seq<char>, class: CharClass, i: int, e: int)
    requires
        0 <= i <= e <= s.len(),
        forall|j: int| i <= j < e ==> class.holds(#[trigger] s[j]),
        e < s.len() ==> !class.holds(s[e]),
    ensures
        run_end(s, class, i) == e,
    decreases e - i,
{
    if i < e {
        lemma_run_end_unique(s, class, i + 1, e);
    }
}

/// Every token but the end-of-input token takes at least one character, and
/// none reaches past the end of the text.
pub proof fn lemma_scan_progress(s: Seq<char>, i: int)
    requires
        0 <= i <= s.len(),
    ensures
        scan_at(s, i).start == i,
        scan_at(s, i).end <= s.len(),
        i < s.len() ==> scan_at(s, i).end > i && scan_at(s, i).kind != TokenKind::Eof,
        i == s.len() ==> scan_at(s, i).end == i && scan_at(s, i).kind == TokenKind::Eof,
{
    if i < s.len() {
        lemma_run_end(s, CharClass::IdentPart, i);
        lemma_run_end(s, CharClass::Digit, i);
        let d = run_end(s, CharClass::Digit, i);
        if d < s.len() {
            lemma_run_end(s, CharClass::Digit, d + 1);
        }
        lemma_run_end(s, CharClass::StringPart, i + 1);
        if is_ident_start(s[i]) {
            lemma_lookup_kind(keywords(), s.subrange(i, run_end(s, CharClass::IdentPart, i)));
        }
    }
}

/// A lookup gives `Identifier` or the kind of an entry of the table.
pub proof fn lemma_lookup_kind(table: Seq<(Seq<char>, TokenKind)>, word: Seq<char>)
    ensures
        lookup(table, word) == TokenKind::Identifier || exists|k: int|
            0 <= k < table.len() && (#[trigger] table[k]).0 == word && table[k].1 == lookup(
                table,
                word,
            ),
    decreases table.len(),
{
    if table.len() > 0 && table[0].0 != word {
        let rest = table.drop_first();
        lemma_lookup_kind(rest, word);
        if lookup(rest, word) != TokenKind::Identifier {
            let k = choose|k: int|
                0 <= k < rest.len() && (#[trigger] rest[k]).0 == word && rest[k].1 == lookup(
                    rest,
                    word,
                );
            assert(table[k + 1] == rest[k]);
        }
    }
}

/// The token after position `i` begins at or after `i`, and ends after `i`
/// unless it is the end-of-input token.
pub proof fn lemma_next_scan_progress(s: Seq<char>, i: int)
    requires
        0 <= i <= s.len(),
    ensures
        i <= next_scan(s, i).start <= next_scan(s, i).end <= s.len(),
        next_scan(s, i).kind != TokenKind::Eof ==> next_scan(s, i).end > i,
        next_scan(s, i).kind == TokenKind::Eof <==> next_scan(s, i).start == s.len(),
{
    lemma_run_end(s, CharClass::Space, i);
    lemma_scan_progress(s, run_end(s, CharClass::Space, i));
}

/// The tokens from a position on begin with the token that follows the
/// position and end with the end-of-input token, which stands at the end of
/// the text.
pub proof fn lemma_scans_ends(s: Seq<char>, i: int)
    requires
        0 <= i <= s.len(),
    ensures
        scans_from(s, i).len() >= 1,
        scans_from(s, i)[0] == next_scan(s, i),
        scans_from(s, i).last().kind == TokenKind::Eof,
        scans_from(s, i).last().start == s.len(),
        scans_from(s, i).last().end == s.len(),
    decreases s.len() - i,
{
    lemma_next_scan_progress(s, i);
    let sc = next_scan(s, i);
    if sc.kind != TokenKind::Eof {
        lemma_scans_ends(s, sc.end);
        let rest = scans_from(s, sc.end);
        let all = seq![sc] + rest;
        assert(scans_from(s, i) == all);
        assert(all.last() == rest.last());
    }
}

/// Each token but the first is the one that follows the end of the token
/// before it, and none but the last is the end-of-input token.
pub proof fn lemma_scans_linked(s: Seq<char>, i: int, k: int)
    requires
        0 <= i <= s.len(),
        0 <= k < scans_from(s, i).len(),
    ensures
        0 <= scans_from(s, i)[k].start <= scans_from(s, i)[k].end <= s.len(),
        scans_from(s, i)[k].kind == TokenKind::Eof <==> k == scans_from(s, i).len() - 1,
        k > 0 ==> scans_from(s, i)[k] == next_scan(s, scans_from(s, i)[k - 1].end),
    decreases k,
{
    lemma_next_scan_progress(s, i);
    let sc = next_scan(s, i);
    if sc.kind != TokenKind::Eof {
        let rest = scans_from(s, sc.end);
        let all = seq![sc] + rest;
        assert(scans_from(s, i) == all);
        lemma_scans_ends(s, sc.end);
        if k > 0 {
            lemma_scans_linked(s, sc.end, k - 1);
            assert(all[k] == rest[k - 1]);
            if k > 1 {
                assert(all[k - 1] == rest[k - 2]);
            }
        }
    }
}

/// Every character from `i` on is taken by exactly one token or skipped
/// before one: the characters that the tokens take and those skipped add up
/// to the rest of the text.
pub proof fn lemma_consumed_and_skipped(s: Seq<char>, i: int)
    requires
        0 <= i <= s.len(),
    ensures
        consumed_total(scans_from(s, i)) + skipped_total(scans_from(s, i), i) == s.len() - i,
    decreases s.len() - i,
{
    lemma_next_scan_progress(s, i);
    let sc = next_scan(s, i);
    let all = scans_from(s, i);
    if sc.kind != TokenKind::Eof {
        lemma_consumed_and_skipped(s, sc.end);
        let rest = scans_from(s, sc.end);
        assert(all == seq![sc] + rest);
        assert(all[0] == sc);
        assert(all.drop_first() =~= rest);
    } else {
        assert(all == seq![sc]);
        assert(all[0] == sc);
        let none = all.drop_first();
        assert(none.len() == 0);
        assert(consumed_total(none) == 0);
        assert(skipped_total(none, sc.end) == 0);
    }
}

/// Over the whole text, the characters that the tokens take and those
/// skipped before them add up to the length of the text.
pub proof fn lemma_text_accounted(s: Seq<char>)
    ensures
        consumed_total(scans(s)) + skipped_total(scans(s), 0) == s.len(),
{
    lemma_consumed_and_skipped(s, 0);
}

/// Only whitespace is skipped: every character between the position that
/// a token is scanned for from and the token's start is a space, a tab or a
/// newline, and the token starts at the first character that is none.
pub proof fn lemma_skipped_is_space(s: Seq<char>, i: int)
    requires
        0 <= i <= s.len(),
    ensures
        forall|j: int| i <= j < next_scan(s, i).start ==> is_space(#[trigger] s[j]),
        next_scan(s, i).start < s.len() ==> !is_space(s[next_scan(s, i).start]),
{
    lemma_run_end(s, CharClass::Space, i);
    lemma_scan_progress(s, run_end(s, CharClass::Space, i));
}

/// The reserved words are spelled differently from one another.
pub proof fn lemma_keywords_distinct()
    ensures
        forall|j: int, k: int|
            0 <= j < k < keywords().len() ==> (#[trigger] keywords()[j]).0 != (
            #[trigger] keywords()[k]).0,
{
    reveal_strlit("topping");
    reveal_strlit("recipe");
    reveal_strlit("slice");
    reveal_strlit("extra");
    reveal_strlit("oven");
    reveal_strlit("serve");
    reveal_strlit("cheese");
    assert("slice"@[1] != "serve"@[1]);
    assert("topping"@[0] == 't');
    assert("recipe"@[0] == 'r');
    assert("slice"@[0] == 's');
    assert("extra"@[0] == 'e');
    assert("oven"@[0] == 'o');
    assert("serve"@[0] == 's');
    assert("cheese"@[0] == 'c');
}

/// A word spelled like a reserved word has that word's kind, and every
/// other word is an identifier.
pub proof fn lemma_keyword_kind(word: Seq<char>)
    ensures
        forall|k: int|
            0 <= k < keywords().len() && (#[trigger] keywords()[k]).0 == word ==> keyword_kind(
                word,
            ) == keywords()[k].1,
        (forall|k: int| 0 <= k < keywords().len() ==> (#[trigger] keywords()[k]).0 != word)
            <==> keyword_kind(word) == TokenKind::Identifier,
{
    lemma_keywords_distinct();
    lemma_lookup_kind(keywords(), word);
    assert forall|k: int| 0 <= k < keywords().len() && (#[trigger] keywords()[k]).0
        == word implies keyword_kind(word) == keywords()[k].1 by {
        let j = choose|j: int|
            0 <= j < keywords().len() && (#[trigger] keywords()[j]).0 == word && keywords()[j].1
                == lookup(keywords(), word);
        lemma_lookup_found(keywords(), word, k);
        assert(j == k);
    }
}

/// Where entry `k` of the table is spelled like `word`, the lookup gives
/// the kind of an entry spelled like `word` that stands at or before `k`.
pub proof fn lemma_lookup_found(table: Seq<(Seq<char>, TokenKind)>, word: Seq<char>, k: int)
    requires
        0 <= k < table.len(),
        table[k].0 == word,
    ensures
        exists|j: int|
            0 <= j <= k && (#[trigger] table[j]).0 == word && table[j].1 == lookup(table, word),
    decreases table.len(),
{
    if table[0].0 != word {
        let rest = table.drop_first();
        lemma_lookup_found(rest, word, k - 1);
        let j = choose|j: int|
            0 <= j <= k - 1 && (#[trigger] rest[j]).0 == word && rest[j].1 == lookup(rest, word);
        assert(table[j + 1] == rest[j]);
    }
}

/// An identifier or reserved word is the longest run of letters, digits
/// and underscores from its first character, and its kind is the one that
/// the table of reserved words gives to its lexeme.
pub proof fn lemma_word_scan(s: Seq<char>, i: int)
    requires
        0 <= i < s.len(),
        is_ident_start(s[i]),
    ensures
        scan_at(s, i).kind == keyword_kind(scan_at(s, i).lexeme),
        scan_at(s, i).lexeme == s.subrange(i, scan_at(s, i).end),
        i < scan_at(s, i).end <= s.len(),
        forall|j: int| i <= j < scan_at(s, i).end ==> CharClass::IdentPart.holds(#[trigger] s[j]),
        scan_at(s, i).end < s.len() ==> !CharClass::IdentPart.holds(s[scan_at(s, i).end]),
{
    lemma_run_end(s, CharClass::IdentPart, i);
}

/// A number literal holds digits and at most one `.`, and is the longest
/// such stretch from its first digit: it ends at the end of the text, before
/// a second `.`, or before a character that is neither a digit nor a `.`.
pub proof fn lemma_number_scan(s: Seq<char>, i: int)
    requires
        0 <= i < s.len(),
        is_digit(s[i]),
    ensures
        scan_at(s, i).kind == TokenKind::NumberLiteral,
        scan_at(s, i).end == number_end(s, i),
        scan_at(s, i).lexeme == s.subrange(i, number_end(s, i)),
        i < number_end(s, i) <= s.len(),
        forall|j: int| i <= j < number_end(s, i) ==> is_digit(#[trigger] s[j]) || s[j] == '.',
        forall|j: int, k: int|
            i <= j < k < number_end(s, i) && #[trigger] s[j] == '.' ==> #[trigger] s[k] != '.',
        number_end(s, i) < s.len() ==> !is_digit(s[number_end(s, i)]),
        number_end(s, i) < s.len() && s[number_end(s, i)] == '.' ==> exists|j: int|
            i <= j < number_end(s, i) && #[trigger] s[j] == '.',
{
    lemma_run_end(s, CharClass::Digit, i);
    let d = run_end(s, CharClass::Digit, i);
    if d < s.len() && s[d] == '.' {
        lemma_run_end(s, CharClass::Digit, d + 1);
    }
}

/// A string's lexeme is what stands between its opening quote and the next
/// quote, which the token takes too; where no quote follows, the token is
/// an unterminated string that reaches to the end of the text.
pub proof fn lemma_string_scan(s: Seq<char>, i: int)
    requires
        0 <= i < s.len(),
        s[i] == '"',
    ensures
        scan_at(s, i).kind == TokenKind::StringLiteral || scan_at(s, i).kind
            == TokenKind::UnterminatedString,
        forall|j: int| 0 <= j < scan_at(s, i).lexeme.len() ==> scan_at(s, i).lexeme[j] != '"',
        scan_at(s, i).kind == TokenKind::StringLiteral ==> {
            &&& i + 1 < scan_at(s, i).end <= s.len()
            &&& s[scan_at(s, i).end - 1] == '"'
            &&& scan_at(s, i).lexeme == s.subrange(i + 1, scan_at(s, i).end - 1)
        },
        scan_at(s, i).kind == TokenKind::UnterminatedString ==> {
            &&& scan_at(s, i).end == s.len()
            &&& scan_at(s, i).lexeme == s.subrange(i + 1, s.len() as int)
        },
        scan_at(s, i).kind == TokenKind::StringLiteral <==> exists|j: int|
            i < j < s.len() && #[trigger] s[j] == '"',
{
    lemma_run_end(s, CharClass::StringPart, i + 1);
    let q = run_end(s, CharClass::StringPart, i + 1);
    if q < s.len() {
        assert(s[q] == '"');
    }
}

} // verus!
