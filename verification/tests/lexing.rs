use lib::lexer::Lexer;
use lib::token::{CompileError, Token, TokenType};

fn lex_one(src: &str) -> Token {
    let mut lexer = Lexer::new(String::from(src));
    lexer.get_token().unwrap()
}

fn lex_err(src: &str) -> CompileError {
    let mut lexer = Lexer::new(String::from(src));
    match lexer.get_token() {
        Ok(t) => panic!("expected a lexical error, got {:?}", t),
        Err(e) => e,
    }
}

#[test]
fn integer_numeral_is_one_number_token() {
    let t = lex_one("123");
    assert_eq!(t.token_type, TokenType::NUMBER);
    assert_eq!(t.text, "123");
}

#[test]
fn decimal_numeral_is_one_number_token() {
    let t = lex_one("9.25");
    assert_eq!(t.token_type, TokenType::NUMBER);
    assert_eq!(t.text, "9.25");
}

#[test]
fn long_numeral_spans_all_digits() {
    let t = lex_one("4200137");
    assert_eq!(t.token_type, TokenType::NUMBER);
    assert_eq!(t.text, "4200137");
}

#[test]
fn trailing_dot_numeral_is_rejected() {
    assert!(matches!(lex_err("1."), CompileError::IllegalCharInNumber));
    assert!(matches!(lex_err("123."), CompileError::IllegalCharInNumber));
}

#[test]
fn two_char_operators_lex_as_one_token() {
    for (src, kind) in [
        (">=", TokenType::GTEQ),
        ("<=", TokenType::LTEQ),
        ("==", TokenType::EQEQ),
        ("!=", TokenType::NOTEQ),
    ] {
        let mut lexer = Lexer::new(String::from(src));
        let t = lexer.get_token().unwrap();
        assert_eq!(t.token_type, kind);
        assert_eq!(t.text, src);
        // The next token is already the sentinel newline: nothing of the
        // operator was left behind as a second one-character token.
        let next = lexer.get_token().unwrap();
        assert_eq!(next.token_type, TokenType::NEWLINE);
    }
}

#[test]
fn single_char_operators_lex_alone() {
    for (src, kind) in [
        (">", TokenType::GT),
        ("<", TokenType::LT),
        ("=", TokenType::EQ),
        ("+", TokenType::PLUS),
        ("-", TokenType::MINUS),
        ("*", TokenType::ASTERISK),
        ("/", TokenType::SLASH),
    ] {
        let t = lex_one(src);
        assert_eq!(t.token_type, kind);
        assert_eq!(t.text, src);
    }
}

#[test]
fn bang_alone_is_a_lexical_error() {
    assert!(matches!(lex_err("!"), CompileError::BangWithoutEqual));
    assert!(matches!(lex_err("! "), CompileError::BangWithoutEqual));
}

#[test]
fn every_reserved_word_lexes_to_its_keyword_kind() {
    for (src, kind) in [
        ("LABEL", TokenType::LABEL),
        ("GOTO", TokenType::GOTO),
        ("PRINT", TokenType::PRINT),
        ("INPUT", TokenType::INPUT),
        ("LET", TokenType::LET),
        ("IF", TokenType::IF),
        ("THEN", TokenType::THEN),
        ("ENDIF", TokenType::ENDIF),
        ("WHILE", TokenType::WHILE),
        ("REPEAT", TokenType::REPEAT),
        ("ENDWHILE", TokenType::ENDWHILE),
    ] {
        let t = lex_one(src);
        assert_eq!(t.token_type, kind);
        assert_eq!(t.text, src);
    }
}

#[test]
fn other_letter_starting_words_are_identifiers() {
    for src in ["foo", "print", "PRINTER", "IFX", "x1y2", "a"] {
        let t = lex_one(src);
        assert_eq!(t.token_type, TokenType::IDENT);
        assert_eq!(t.text, src);
    }
}

#[test]
fn letters_beyond_ascii_make_identifiers() {
    let t = lex_one("h\u{e9}llo");
    assert_eq!(t.token_type, TokenType::IDENT);
    assert_eq!(t.text, "h\u{e9}llo");
}

#[test]
fn digit_stops_at_letter_and_letter_run_takes_digits() {
    let mut lexer = Lexer::new(String::from("1a a1"));
    let t1 = lexer.get_token().unwrap();
    assert_eq!(t1.token_type, TokenType::NUMBER);
    assert_eq!(t1.text, "1");
    let t2 = lexer.get_token().unwrap();
    assert_eq!(t2.token_type, TokenType::IDENT);
    assert_eq!(t2.text, "a");
    let t3 = lexer.get_token().unwrap();
    assert_eq!(t3.token_type, TokenType::IDENT);
    assert_eq!(t3.text, "a1");
}

#[test]
fn check_keyword_maps_reserved_words_only() {
    assert!(matches!(
        Lexer::check_keyword(String::from("PRINT")),
        Some(TokenType::PRINT)
    ));
    assert!(matches!(
        Lexer::check_keyword(String::from("ENDWHILE")),
        Some(TokenType::ENDWHILE)
    ));
    assert!(Lexer::check_keyword(String::from("print")).is_none());
    assert!(Lexer::check_keyword(String::from("PRINTS")).is_none());
    assert!(Lexer::check_keyword(String::from("")).is_none());
}

#[test]
fn string_literal_token_holds_the_contents() {
    let t = lex_one("\"hello there\"");
    assert_eq!(t.token_type, TokenType::STRING);
    assert_eq!(t.text, "hello there");
}

#[test]
fn illegal_characters_in_strings_are_rejected() {
    assert!(matches!(lex_err("\"a%b\""), CompileError::IllegalCharInString));
    assert!(matches!(lex_err("\"a\tb\""), CompileError::IllegalCharInString));
    assert!(matches!(lex_err("\"a\\b\""), CompileError::IllegalCharInString));
    assert!(matches!(lex_err("\"ab\n\""), CompileError::IllegalCharInString));
}

#[test]
fn whitespace_and_comments_are_skipped() {
    let mut lexer = Lexer::new(String::from("  \t\r PRINT # trailing words\nx"));
    let t1 = lexer.get_token().unwrap();
    assert_eq!(t1.token_type, TokenType::PRINT);
    // The comment runs to the line feed, which is the next token itself.
    let t2 = lexer.get_token().unwrap();
    assert_eq!(t2.token_type, TokenType::NEWLINE);
    let t3 = lexer.get_token().unwrap();
    assert_eq!(t3.token_type, TokenType::IDENT);
    assert_eq!(t3.text, "x");
}

#[test]
fn end_of_source_yields_the_end_marker() {
    let mut lexer = Lexer::new(String::from(""));
    let t1 = lexer.get_token().unwrap();
    assert_eq!(t1.token_type, TokenType::NEWLINE);
    let t2 = lexer.get_token().unwrap();
    assert_eq!(t2.token_type, TokenType::EOF);
    // Further pulls keep yielding the end marker.
    let t3 = lexer.get_token().unwrap();
    assert_eq!(t3.token_type, TokenType::EOF);
}

#[test]
fn unknown_character_is_a_lexical_error() {
    assert!(matches!(lex_err("?"), CompileError::UnknownCharacter));
    assert!(matches!(lex_err("@"), CompileError::UnknownCharacter));
}

#[test]
fn next_char_moves_the_cursor_and_peek_looks_ahead() {
    let mut lexer = Lexer::new(String::from("xy"));
    assert_eq!(lexer.peek(), 'y');
    lexer.next_char();
    let t = lexer.get_token().unwrap();
    assert_eq!(t.token_type, TokenType::IDENT);
    assert_eq!(t.text, "y");
}

#[test]
fn token_kind_values_sit_in_their_bands() {
    assert_eq!(TokenType::EOF.value(), -1);
    assert_eq!(TokenType::NEWLINE.value(), 0);
    assert_eq!(TokenType::NUMBER.value(), 1);
    assert_eq!(TokenType::IDENT.value(), 2);
    assert_eq!(TokenType::STRING.value(), 3);
    assert_eq!(TokenType::LABEL.value(), 101);
    assert_eq!(TokenType::ENDWHILE.value(), 111);
    assert_eq!(TokenType::EQ.value(), 201);
    assert_eq!(TokenType::GTEQ.value(), 211);
}

#[test]
fn token_new_pairs_text_with_kind() {
    let t = Token::new(String::from("42"), TokenType::NUMBER);
    assert_eq!(t.text, "42");
    assert_eq!(t.token_type, TokenType::NUMBER);
    let d = Token::default();
    assert_eq!(d.text, "");
    assert_eq!(d.token_type, TokenType::EOF);
}
