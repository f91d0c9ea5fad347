use lib::compile_source;
use lib::token::{CompileError, TokenType};

fn compile_ok(src: &str) -> String {
    compile_source(String::from(src)).unwrap()
}

fn compile_err(src: &str) -> CompileError {
    match compile_source(String::from(src)) {
        Ok(out) => panic!("expected a compilation error, got output {:?}", out),
        Err(e) => e,
    }
}

#[test]
fn empty_source_compiles_to_bare_program() {
    let out = compile_ok("");
    assert_eq!(out, "#include<stdio.h>\nint main(void) {\nreturn 0;\n}\n");
}

#[test]
fn let_then_print_compiles_with_declaration_assignment_and_print() {
    let out = compile_ok("LET x = 1\nPRINT x\n");
    // One float declaration in the header, one assignment, one numeric print.
    assert_eq!(
        out,
        "#include<stdio.h>\nint main(void) {\nfloat x;\nx=1;\nprintf(\"%.2f\\n\", (float)(\nx));\nreturn 0;\n}\n"
    );
    assert_eq!(out.matches("float x;").count(), 1);
}

#[test]
fn second_let_of_same_variable_declares_nothing_new() {
    let out = compile_ok("LET x = 1\nLET x = 2\n");
    assert_eq!(out.matches("float x;").count(), 1);
    assert!(out.contains("x=1;\n"));
    assert!(out.contains("x=2;\n"));
}

#[test]
fn print_string_emits_a_string_output_call() {
    let out = compile_ok("PRINT \"hello\"\n");
    assert_eq!(
        out,
        "#include<stdio.h>\nint main(void) {\nprintf(\"hello\\n\");\nreturn 0;\n}\n"
    );
}

#[test]
fn print_of_undeclared_variable_aborts() {
    let e = compile_err("PRINT y\n");
    match e {
        CompileError::UndeclaredVariable { name } => assert_eq!(name, "y"),
        other => panic!("expected an undeclared-reference error, got {:?}", other),
    }
}

#[test]
fn forward_goto_resolves_after_full_parse() {
    let out = compile_ok("GOTO skip\nPRINT \"no\"\nLABEL skip\n");
    assert!(out.contains("goto skip ;\n"));
    assert!(out.contains("skip:\n"));
}

#[test]
fn goto_without_matching_label_aborts_after_clean_parse() {
    let e = compile_err("GOTO missing\nPRINT \"ok\"\n");
    match e {
        CompileError::UndeclaredLabel { name } => assert_eq!(name, "missing"),
        other => panic!("expected an undeclared-label error, got {:?}", other),
    }
}

#[test]
fn syntax_error_wins_over_missing_goto_target() {
    // The label check runs only after the whole program has parsed cleanly,
    // so a later syntax error is what aborts this one.
    let e = compile_err("GOTO missing\nPRINT\n");
    assert!(matches!(e, CompileError::UnexpectedToken { .. }));
}

#[test]
fn duplicate_label_aborts_at_second_declaration() {
    let e = compile_err("LABEL a\nLABEL a\n");
    match e {
        CompileError::DuplicateLabel { name } => assert_eq!(name, "a"),
        other => panic!("expected a duplicate-label error, got {:?}", other),
    }
}

#[test]
fn bare_expression_is_no_condition() {
    let e = compile_err("IF 1 THEN\nPRINT \"hi\"\nENDIF\n");
    match e {
        CompileError::ExpectedComparisonOperator { text } => assert_eq!(text, "THEN"),
        other => panic!("expected a missing-comparison error, got {:?}", other),
    }
}

#[test]
fn compiling_the_same_source_twice_is_byte_identical() {
    let src = "LET a = 0\nWHILE a < 5 REPEAT\nLET a = a + 1\nPRINT a\nENDWHILE\nPRINT \"done\"\n";
    let first = compile_ok(src);
    let second = compile_ok(src);
    assert_eq!(first.as_bytes(), second.as_bytes());
}

#[test]
fn if_statement_translates_to_a_c_if() {
    let out = compile_ok("LET a = 1\nIF a == 1 THEN\nPRINT \"hi\"\nENDIF\n");
    assert_eq!(
        out,
        "#include<stdio.h>\nint main(void) {\nfloat a;\na=1;\nif(\na==1){\nprintf(\"hi\\n\");\n}\nreturn 0;\n}\n"
    );
}

#[test]
fn while_statement_translates_to_a_c_while() {
    let out = compile_ok("LET a = 0\nWHILE a < 3 REPEAT\nLET a = a + 1\nENDWHILE\n");
    assert_eq!(
        out,
        "#include<stdio.h>\nint main(void) {\nfloat a;\na=0;\nwhile(\na<3){\na=a+1;\n}\nreturn 0;\n}\n"
    );
}

#[test]
fn input_translates_to_a_guarded_read() {
    let out = compile_ok("INPUT z\n");
    assert_eq!(
        out,
        "#include<stdio.h>\nint main(void) {\nfloat z;\nif(0==scanf(\"%f\",&z)) {\nz = 0;\nscanf(\"%*s\");\n}\nreturn 0;\n}\n"
    );
}

#[test]
fn label_and_goto_translate_to_c_label_and_jump() {
    let out = compile_ok("LABEL top\nGOTO top\n");
    assert_eq!(
        out,
        "#include<stdio.h>\nint main(void) {\ntop:\ngoto top ;\nreturn 0;\n}\n"
    );
}

#[test]
fn chained_comparisons_emit_left_to_right() {
    let out = compile_ok("LET a = 1\nIF 1 < 2 > a THEN\nENDIF\n");
    assert!(out.contains("if(\n1<2>a){\n"));
}

#[test]
fn expressions_keep_operator_and_sign_text() {
    let out = compile_ok("LET a = 1\nLET b = -a + 2 * 3 / 4 - +5\n");
    assert!(out.contains("b=-a+2*3/4-+5;\n"));
}

#[test]
fn leading_blank_lines_and_comments_are_skipped() {
    let out = compile_ok("\n\n# a comment\n\nPRINT \"a\"\n");
    assert_eq!(
        out,
        "#include<stdio.h>\nint main(void) {\nprintf(\"a\\n\");\nreturn 0;\n}\n"
    );
}

#[test]
fn statement_needs_its_terminating_newline_but_extra_ones_pass() {
    let out = compile_ok("PRINT \"a\"\n\n\nPRINT \"b\"\n");
    assert!(out.contains("printf(\"a\\n\");\nprintf(\"b\\n\");\n"));
}

#[test]
fn missing_then_is_a_syntax_error() {
    let e = compile_err("IF 1 < 2\nENDIF\n");
    match e {
        CompileError::ExpectedToken { expected, got } => {
            assert_eq!(expected, TokenType::THEN);
            assert_eq!(got, TokenType::NEWLINE);
        },
        other => panic!("expected a missing-THEN error, got {:?}", other),
    }
}

#[test]
fn let_without_identifier_is_a_syntax_error() {
    let e = compile_err("LET 1 = 2\n");
    match e {
        CompileError::ExpectedToken { expected, got } => {
            assert_eq!(expected, TokenType::IDENT);
            assert_eq!(got, TokenType::NUMBER);
        },
        other => panic!("expected a missing-identifier error, got {:?}", other),
    }
}

#[test]
fn stray_block_closer_is_an_invalid_statement() {
    let e = compile_err("ENDIF\n");
    match e {
        CompileError::InvalidStatement { text, kind } => {
            assert_eq!(text, "ENDIF");
            assert_eq!(kind, TokenType::ENDIF);
        },
        other => panic!("expected an invalid-statement error, got {:?}", other),
    }
}

#[test]
fn lexical_error_aborts_the_compilation() {
    assert!(matches!(
        compile_err("PRINT \"a%b\"\n"),
        CompileError::IllegalCharInString
    ));
    assert!(matches!(compile_err("LET x = 1.\n"), CompileError::IllegalCharInNumber));
    assert!(matches!(compile_err("LET x = 1 ! 2\n"), CompileError::BangWithoutEqual));
    assert!(matches!(compile_err("?\n"), CompileError::UnknownCharacter));
}

#[test]
fn nested_blocks_translate_inside_out() {
    let src = "LET a = 0\nWHILE a < 2 REPEAT\nIF a == 1 THEN\nPRINT \"one\"\nENDIF\nLET a = a + 1\nENDWHILE\n";
    let out = compile_ok(src);
    assert_eq!(
        out,
        "#include<stdio.h>\nint main(void) {\nfloat a;\na=0;\nwhile(\na<2){\nif(\na==1){\nprintf(\"one\\n\");\n}\na=a+1;\n}\nreturn 0;\n}\n"
    );
}

#[test]
fn declarations_precede_the_body_whatever_the_discovery_order() {
    let out = compile_ok("PRINT \"go\"\nLET q = 1\nINPUT w\n");
    let header_end = out.find("printf").unwrap();
    let q_decl = out.find("float q;").unwrap();
    let w_decl = out.find("float w;").unwrap();
    assert!(q_decl < header_end && w_decl < header_end);
    assert!(q_decl < w_decl);
}
