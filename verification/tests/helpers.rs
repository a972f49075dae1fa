use pizza_lang::grammar::starts_identifier;
use pizza_lang::grammar::starts_number;
use pizza_lang::grammar::CharClass;
use pizza_lang::lexer::keyword_table;
use pizza_lang::lexer::kind_of_compound;
use pizza_lang::lexer::kind_of_single;
use pizza_lang::lexer::lookup_keyword;
use pizza_lang::lexer::text_equals;
use pizza_lang::lexer::KEYWORD_COUNT;
use pizza_lang::token::TokenKind;

#[test]
fn space_class_is_space_tab_newline() {
    assert!(CharClass::Space.contains(' '));
    assert!(CharClass::Space.contains('\t'));
    assert!(CharClass::Space.contains('\n'));
    assert!(!CharClass::Space.contains('\r'));
    assert!(!CharClass::Space.contains('\u{a0}'));
    assert!(!CharClass::Space.contains('a'));
}

#[test]
fn ident_part_class() {
    for c in ['a', 'z', 'A', 'Z', '0', '9', '_', 'm'] {
        assert!(CharClass::IdentPart.contains(c));
    }
    for c in ['`', '{', '@', '[', '/', ':', ' ', '-', 'é'] {
        assert!(!CharClass::IdentPart.contains(c));
    }
}

#[test]
fn digit_and_string_part_classes() {
    assert!(CharClass::Digit.contains('0'));
    assert!(CharClass::Digit.contains('9'));
    assert!(!CharClass::Digit.contains('.'));
    assert!(!CharClass::Digit.contains('a'));
    assert!(CharClass::StringPart.contains('\n'));
    assert!(CharClass::StringPart.contains('a'));
    assert!(!CharClass::StringPart.contains('"'));
}

#[test]
fn identifier_and_number_starts() {
    assert!(starts_identifier('a'));
    assert!(starts_identifier('Z'));
    assert!(starts_identifier('_'));
    assert!(!starts_identifier('1'));
    assert!(!starts_identifier('"'));
    assert!(starts_number('0'));
    assert!(starts_number('7'));
    assert!(!starts_number('a'));
    assert!(!starts_number('.'));
}

#[test]
fn text_equality() {
    assert!(text_equals("", ""));
    assert!(text_equals("oven", "oven"));
    assert!(!text_equals("oven", "over"));
    assert!(!text_equals("oven", "ovens"));
    assert!(!text_equals("ovens", "oven"));
    assert!(text_equals("日本", "日本"));
    assert!(!text_equals("日本", "日月"));
}

#[test]
fn keyword_table_entries() {
    let table = keyword_table();
    assert_eq!(KEYWORD_COUNT, 7);
    assert_eq!(
        table,
        [
            ("topping", TokenKind::Topping),
            ("recipe", TokenKind::Recipe),
            ("slice", TokenKind::Slice),
            ("extra", TokenKind::Extra),
            ("oven", TokenKind::Oven),
            ("serve", TokenKind::Serve),
            ("cheese", TokenKind::Cheese),
        ]
    );
}

#[test]
fn keyword_lookup() {
    for (word, kind) in keyword_table() {
        assert_eq!(lookup_keyword(word), kind);
    }
    assert_eq!(lookup_keyword("pizza"), TokenKind::Identifier);
    assert_eq!(lookup_keyword(""), TokenKind::Identifier);
    assert_eq!(lookup_keyword("Oven"), TokenKind::Identifier);
    assert_eq!(lookup_keyword("ove"), TokenKind::Identifier);
}

#[test]
fn single_character_kinds() {
    assert_eq!(kind_of_single('+'), TokenKind::Plus);
    assert_eq!(kind_of_single('-'), TokenKind::Minus);
    assert_eq!(kind_of_single('*'), TokenKind::Asterisk);
    assert_eq!(kind_of_single('/'), TokenKind::Slash);
    assert_eq!(kind_of_single('='), TokenKind::Equals);
    assert_eq!(kind_of_single('>'), TokenKind::GreaterThan);
    assert_eq!(kind_of_single('<'), TokenKind::LessThan);
    assert_eq!(kind_of_single('('), TokenKind::LeftParen);
    assert_eq!(kind_of_single(')'), TokenKind::RightParen);
    assert_eq!(kind_of_single('{'), TokenKind::LeftBrace);
    assert_eq!(kind_of_single('}'), TokenKind::RightBrace);
    assert_eq!(kind_of_single(','), TokenKind::Comma);
    assert_eq!(kind_of_single('!'), TokenKind::Illegal);
    assert_eq!(kind_of_single('@'), TokenKind::Illegal);
    assert_eq!(kind_of_single('.'), TokenKind::Illegal);
}

#[test]
fn compound_kinds() {
    assert_eq!(kind_of_compound('='), Some(TokenKind::DoubleEquals));
    assert_eq!(kind_of_compound('!'), Some(TokenKind::NotEquals));
    assert_eq!(kind_of_compound('>'), Some(TokenKind::GreaterThanOrEqual));
    assert_eq!(kind_of_compound('<'), Some(TokenKind::LessThanOrEqual));
    assert_eq!(kind_of_compound('+'), None);
    assert_eq!(kind_of_compound('a'), None);
}
