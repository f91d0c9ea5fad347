use lib::emitter::Emitter;
use lib::lexer::Lexer;
use lib::parser::Parser;
use lib::token::TokenType;

#[test]
fn output_serializes_header_before_body_whatever_the_append_order() {
    let mut emitter = Emitter::new(String::from("out.c"));
    emitter.emit(String::from("body"));
    emitter.header_line(String::from("head"));
    emitter.emit_line(String::from(" text"));
    assert_eq!(emitter.output(), "head\nbody text\n");
}

#[test]
fn emit_appends_without_line_terminator_and_emit_line_with_one() {
    let mut emitter = Emitter::new(String::from("out.c"));
    emitter.emit(String::from("a"));
    emitter.emit(String::from("b"));
    emitter.emit_line(String::from("c"));
    emitter.emit_line(String::from(""));
    assert_eq!(emitter.output(), "abc\n\n");
}

#[test]
fn fresh_emitter_serializes_to_nothing_and_keeps_its_path() {
    let emitter = Emitter::new(String::from("somewhere.c"));
    assert_eq!(emitter.output(), "");
    assert_eq!(emitter.target_path(), "somewhere.c");
}

#[test]
fn parser_drives_lexer_and_emitter_end_to_end() {
    let lexer = Lexer::new(String::from("LET n = 3\nPRINT n\n"));
    let emitter = Emitter::new(String::from("out.c"));
    let mut parser = Parser::new(lexer, emitter).unwrap();
    parser.program().unwrap();
    assert_eq!(
        parser.output(),
        "#include<stdio.h>\nint main(void) {\nfloat n;\nn=3;\nprintf(\"%.2f\\n\", (float)(\nn));\nreturn 0;\n}\n"
    );
}

#[test]
fn parser_lookahead_spans_two_tokens() {
    let lexer = Lexer::new(String::from("LET n = 3\n"));
    let emitter = Emitter::new(String::from("out.c"));
    let mut parser = Parser::new(lexer, emitter).unwrap();
    assert!(parser.check_token(TokenType::LET));
    assert!(parser.check_peek(TokenType::IDENT));
    assert!(!parser.check_token(TokenType::IDENT));
    parser.next_token().unwrap();
    assert!(parser.check_token(TokenType::IDENT));
    assert!(parser.check_peek(TokenType::EQ));
    assert!(!parser.is_comparison_operator());
    parser.next_token().unwrap();
    parser.next_token().unwrap();
    assert!(parser.check_token(TokenType::NUMBER));
    parser.match_token(TokenType::NUMBER).unwrap();
    assert!(parser.check_token(TokenType::NEWLINE));
    assert!(parser.match_token(TokenType::NUMBER).is_err());
}
