use sketchlang::lexer::{lex, LexError, Lexer, Token, TokenContentType, TokenType, KEYWORDS};

fn kinds(tokens: &[Token]) -> Vec<TokenType> {
    tokens.iter().map(|t| t._type).collect()
}

fn lexemes(tokens: &[Token]) -> Vec<String> {
    tokens.iter().map(|t| t.value.clone()).collect()
}

fn text_of(content: &TokenContentType) -> Option<&str> {
    match content {
        TokenContentType::String(s) => Some(s.as_str()),
        _ => None,
    }
}

#[test]
fn binding_with_arithmetic_and_comment() {
    let tokens = lex("prepare x as 2 + 3 * 4~comment").unwrap();
    assert_eq!(
        kinds(&tokens),
        vec![
            TokenType::Keyword,
            TokenType::Identifier,
            TokenType::Keyword,
            TokenType::Number,
            TokenType::Plus,
            TokenType::Number,
            TokenType::Asterisk,
            TokenType::Number,
            TokenType::EOF,
        ]
    );
    assert_eq!(lexemes(&tokens), vec!["prepare", "x", "as", "2", "+", "3", "*", "4", ""]);
}

#[test]
fn stream_ends_with_one_end_token() {
    for source in ["", "   ", "a b c", "\n\n", "~ only a comment", "1 + 2\n"] {
        let tokens = lex(source).unwrap();
        let last = tokens.len() - 1;
        assert_eq!(tokens[last]._type, TokenType::EOF);
        for t in &tokens[..last] {
            assert_ne!(t._type, TokenType::EOF);
            assert!(t.line >= 1);
            assert!(t.column >= 1);
        }
    }
}

#[test]
fn positions_are_taken_behind_the_lexeme() {
    let tokens = lex("(ab\n  cd").unwrap();
    assert_eq!((tokens[0].line, tokens[0].column), (1, 2));
    assert_eq!((tokens[1].line, tokens[1].column), (1, 4));
    assert_eq!((tokens[2].line, tokens[2].column), (2, 4));
    assert_eq!((tokens[3].line, tokens[3].column), (2, 4));
    assert_eq!(tokens[3]._type, TokenType::EOF);
}

#[test]
fn end_token_after_a_final_newline_stands_at_column_zero() {
    let tokens = lex("a\n").unwrap();
    assert_eq!(tokens[1]._type, TokenType::EOF);
    assert_eq!((tokens[1].line, tokens[1].column), (2, 0));
}

#[test]
fn single_character_tokens() {
    let tokens = lex("(){}[].,:+-*/").unwrap();
    assert_eq!(
        kinds(&tokens),
        vec![
            TokenType::LeftParen,
            TokenType::RightParen,
            TokenType::LeftBrace,
            TokenType::RightBrace,
            TokenType::LeftBracket,
            TokenType::RightBracket,
            TokenType::Period,
            TokenType::Comma,
            TokenType::Colon,
            TokenType::Plus,
            TokenType::Minus,
            TokenType::Asterisk,
            TokenType::Slash,
            TokenType::EOF,
        ]
    );
    assert_eq!(text_of(&tokens[0].content), Some("("));
}

#[test]
fn one_and_two_character_operators() {
    let tokens = lex("|| && == != >= <= > < = !").unwrap();
    assert_eq!(
        kinds(&tokens),
        vec![
            TokenType::Or,
            TokenType::And,
            TokenType::Equiv,
            TokenType::NotEquiv,
            TokenType::Gte,
            TokenType::Lte,
            TokenType::Gt,
            TokenType::Lt,
            TokenType::Keyword,
            TokenType::Not,
            TokenType::EOF,
        ]
    );
    assert_eq!(tokens[8].value, "=");
    assert_eq!(tokens[4].value, ">=");
}

#[test]
fn lone_bar_and_ampersand_are_dropped() {
    let tokens = lex("a | b & c").unwrap();
    assert_eq!(lexemes(&tokens), vec!["a", "b", "c", ""]);
}

#[test]
fn strings_take_either_quote_and_no_escapes() {
    let tokens = lex("'a\"b' \"c'd\\\"").unwrap();
    assert_eq!(tokens[0]._type, TokenType::String);
    assert_eq!(tokens[0].value, "a\"b");
    assert_eq!(text_of(&tokens[0].content), Some("a\"b"));
    assert_eq!(tokens[1].value, "c'd\\");
    assert_eq!(tokens.len(), 3);
}

#[test]
fn empty_string_literal() {
    let tokens = lex("''").unwrap();
    assert_eq!(tokens[0]._type, TokenType::String);
    assert_eq!(tokens[0].value, "");
}

#[test]
fn string_may_span_lines_without_counting_them() {
    let tokens = lex("'a\nb' c").unwrap();
    assert_eq!(tokens[0].value, "a\nb");
    assert_eq!(tokens[1].line, 1);
}

#[test]
fn unterminated_string_fails() {
    assert!(matches!(lex("x 'abc"), Err(LexError::UnterminatedString { line: 1, column: 4 })));
    assert!(matches!(lex("\""), Err(LexError::UnterminatedString { .. })));
}

#[test]
fn unexpected_character_fails() {
    assert!(matches!(
        lex("1 % 2"),
        Err(LexError::UnexpectedCharacter { character: '%', line: 1, column: 4 })
    ));
    assert!(matches!(lex("a # b"), Err(LexError::UnexpectedCharacter { character: '#', .. })));
    assert!(matches!(lex("\n\n@"), Err(LexError::UnexpectedCharacter { character: '@', line: 3, column: 1 })));
}

#[test]
fn blanks_and_comments_are_skipped() {
    let tokens = lex(" \t\r a ~ b c d\n e").unwrap();
    assert_eq!(lexemes(&tokens), vec!["a", "e", ""]);
    assert_eq!(tokens[1].line, 2);
}

#[test]
fn numerals_have_at_most_one_point() {
    let tokens = lex("12 1.5 1. 1.2.3").unwrap();
    assert_eq!(lexemes(&tokens), vec!["12", "1.5", "1.", "1.2", ".", "3", ""]);
    assert_eq!(tokens[0]._type, TokenType::Number);
    assert!(matches!(&tokens[1].content, TokenContentType::Number(s) if s == "1.5"));
    assert_eq!(tokens[4]._type, TokenType::Period);
}

#[test]
fn words_are_keywords_booleans_or_identifiers() {
    let tokens = lex("prepare as brush prep has sketch needs finished loop through while if elif else")
        .unwrap();
    for t in &tokens[..14] {
        assert_eq!(t._type, TokenType::Keyword);
    }
    let tokens = lex("true false truth _x x1 let func").unwrap();
    assert_eq!(
        kinds(&tokens),
        vec![
            TokenType::Boolean,
            TokenType::Boolean,
            TokenType::Identifier,
            TokenType::Identifier,
            TokenType::Identifier,
            TokenType::Identifier,
            TokenType::Identifier,
            TokenType::EOF,
        ]
    );
    assert!(matches!(tokens[0].content, TokenContentType::Boolean(true)));
    assert!(matches!(tokens[1].content, TokenContentType::Boolean(false)));
}

#[test]
fn underscore_starts_a_word_but_does_not_continue_one() {
    let tokens = lex("a_b").unwrap();
    assert_eq!(lexemes(&tokens), vec!["a", "_b", ""]);
}

#[test]
fn letters_beyond_ascii_make_words() {
    let tokens = lex("caf\u{e9} \u{3b1}2").unwrap();
    assert_eq!(lexemes(&tokens), vec!["caf\u{e9}", "\u{3b1}2", ""]);
    assert_eq!(tokens[0]._type, TokenType::Identifier);
    assert_eq!((tokens[0].line, tokens[0].column), (1, 5));
    assert!(matches!(lex("\u{2603}"), Err(LexError::UnexpectedCharacter { character: '\u{2603}', .. })));
}

#[test]
fn digits_do_not_start_a_word() {
    let tokens = lex("1a").unwrap();
    assert_eq!(lexemes(&tokens), vec!["1", "a", ""]);
    assert_eq!(tokens[0]._type, TokenType::Number);
}

#[test]
fn keyword_list() {
    let words = KEYWORDS();
    assert_eq!(words.len(), 14);
    assert!(words.contains(&"prepare"));
    assert!(words.contains(&"else"));
    assert!(!words.contains(&"let"));
}

#[test]
fn operators_and_their_precedence() {
    assert!(TokenType::Plus.isOperator());
    assert!(TokenType::Or.isOperator());
    assert!(TokenType::Modulo.isOperator());
    assert!(!TokenType::Not.isOperator());
    assert!(!TokenType::LeftParen.isOperator());
    assert_eq!(TokenType::Lt.precedence(), 0);
    assert_eq!(TokenType::And.precedence(), 0);
    assert_eq!(TokenType::Minus.precedence(), 1);
    assert_eq!(TokenType::Slash.precedence(), 2);
    assert_eq!(TokenType::Identifier.precedence(), -1);
}

#[test]
fn scanner_methods_step_through_the_text() {
    let mut lexer = Lexer::new("ab".to_string());
    assert!(!lexer.isAtEnd());
    assert_eq!(lexer.peek(), 'a');
    assert_eq!(lexer.advance(), 'a');
    assert_eq!(lexer.match_char('x'), None);
    assert_eq!(lexer.match_char('b'), Some('b'));
    assert!(lexer.isAtEnd());
    assert_eq!(lexer.peek(), '\0');
    assert_eq!(lexer.advance(), '\0');
    assert_eq!(lexer.column, 3);
}

#[test]
fn scan_token_reads_one_token_and_fails_at_the_end() {
    let mut lexer = Lexer::new("a b".to_string());
    assert_eq!(lexer.scan_token(), Ok(()));
    assert_eq!(lexer.tokens.len(), 1);
    assert_eq!(lexer.scan_token(), Ok(()));
    assert_eq!(lexer.tokens.len(), 1);
    assert_eq!(lexer.scan_token(), Ok(()));
    assert_eq!(lexer.tokens.len(), 2);
    assert!(matches!(
        lexer.scan_token(),
        Err(LexError::UnexpectedCharacter { character: '\0', .. })
    ));
}

#[test]
fn scan_tokens_keeps_what_it_hands_back() {
    let mut lexer = Lexer::new("x = 1".to_string());
    let tokens = lexer.scan_tokens().unwrap();
    assert_eq!(tokens.len(), 4);
    assert_eq!(lexer.tokens.len(), 4);
    let made = Token::new(TokenType::Comma, ",".to_string(), TokenContentType::String(",".to_string()), 1, 2);
    assert_eq!(made._type, TokenType::Comma);
    assert_eq!(made.column, 2);
}
