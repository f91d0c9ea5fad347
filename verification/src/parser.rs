//! The parser: recognizes the grammar over the lexer's token stream and
//! drives the emitter, one token (plus one of lookahead) at a time.
//!
//! The `sp_` spec functions describe the whole pass mathematically, as a
//! function from source text and parser state to the next state or the error
//! that aborts the compilation. Every executable method is proved to follow
//! its spec function exactly. Termination of the spec recursion rests on
//! `pmeasure`, which shrinks with every token consumed; the progress lemmas
//! show each production consumes at least one token, so the fallback branches
//! guarding the recursion are never taken on a real path.

use vstd::prelude::*;
use vstd::string::*;

use crate::emitter::Emitter;
use crate::lexer::{sp_get_token, lemma_get_token_bounds, Lexer};
use crate::token::{CompileError, SpecError, SpecToken, Token, TokenType};

verus! {

/// The parser's whole state: the lexer cursor, the two-token lookahead, the
/// symbol and label bookkeeping, and the emitter's two buffers.
#[verifier::ext_equal]
pub struct PState {
    /// The lexer cursor position.
    pub pos: int,
    /// The current token.
    pub curr: SpecToken,
    /// The lookahead token.
    pub peek: SpecToken,
    /// Variable names declared so far, in first-seen order.
    pub symbols: Seq<Seq<char>>,
    /// Label names declared so far, in first-seen order.
    pub labels_declared: Seq<Seq<char>>,
    /// Label names referenced by `GOTO` so far, in reference order.
    pub labels_gotoed: Seq<Seq<char>>,
    /// The emitter's header buffer.
    pub header: Seq<char>,
    /// The emitter's body buffer.
    pub code: Seq<char>,
}

/// The cursor sits inside the source (or one past its end).
pub open spec fn st_wf(s: Seq<char>, st: PState) -> bool {
    0 <= st.pos <= s.len()
}

/// How much a token still to be consumed weighs: the end marker nothing,
/// every other token one.
pub open spec fn tok_weight(t: SpecToken) -> int {
    if t.kind == TokenType::EOF {
        0
    } else {
        1
    }
}

/// Characters left before the cursor reaches the end of the source.
pub open spec fn pos_left(s: Seq<char>, st: PState) -> int {
    if st.pos <= s.len() {
        s.len() - st.pos
    } else {
        0
    }
}

/// The termination measure of the parse: an upper bound on the tokens the
/// parser can still consume, counted twice per unread character plus once per
/// buffered non-end token.
pub open spec fn pmeasure(s: Seq<char>, st: PState) -> int {
    2 * pos_left(s, st) + tok_weight(st.curr) + tok_weight(st.peek)
}

// ---------------------------------------------------------------------------
// State transformers shared by the productions.
// ---------------------------------------------------------------------------

/// Appends text to the body buffer.
pub open spec fn st_emit(st: PState, text: Seq<char>) -> PState {
    PState { code: st.code + text, ..st }
}

/// Appends text plus a line terminator to the body buffer.
pub open spec fn st_emit_line(st: PState, text: Seq<char>) -> PState {
    PState { code: st.code + text + "\n"@, ..st }
}

/// Appends text plus a line terminator to the header buffer.
pub open spec fn st_header_line(st: PState, text: Seq<char>) -> PState {
    PState { header: st.header + text + "\n"@, ..st }
}

/// Advances the lookahead window: the peeked token becomes current and one
/// more token is pulled from the lexer.
pub open spec fn sp_adv(s: Seq<char>, st: PState) -> Result<PState, SpecError> {
    match sp_get_token(s, st.pos) {
        Ok(tp) => Ok(PState { curr: st.peek, peek: tp.0, pos: tp.1, ..st }),
        Err(e) => Err(e),
    }
}

/// Demands the current token kind and advances past it, or fails with the
/// expected/got pair.
pub open spec fn sp_match(s: Seq<char>, st: PState, kind: TokenType) -> Result<PState, SpecError> {
    if st.curr.kind == kind {
        sp_adv(s, st)
    } else {
        Err(SpecError::ExpectedToken { expected: kind, got: st.curr.kind })
    }
}

// ---------------------------------------------------------------------------
// The grammar, one spec function per production.
// ---------------------------------------------------------------------------

/// primary ::= number | ident — emits the literal text; an identifier must
/// already be declared.
pub open spec fn sp_primary(s: Seq<char>, st: PState) -> Result<PState, SpecError> {
    if st.curr.kind == TokenType::NUMBER {
        sp_adv(s, st_emit(st, st.curr.text))
    } else if st.curr.kind == TokenType::IDENT {
        if st.symbols.contains(st.curr.text) {
            sp_adv(s, st_emit(st, st.curr.text))
        } else {
            Err(SpecError::UndeclaredVariable { name: st.curr.text })
        }
    } else {
        Err(SpecError::UnexpectedToken { text: st.curr.text })
    }
}

/// unary ::= ["+" | "-"] primary.
pub open spec fn sp_unary(s: Seq<char>, st: PState) -> Result<PState, SpecError> {
    if st.curr.kind == TokenType::PLUS || st.curr.kind == TokenType::MINUS {
        match sp_adv(s, st_emit(st, st.curr.text)) {
            Ok(st1) => sp_primary(s, st1),
            Err(e) => Err(e),
        }
    } else {
        sp_primary(s, st)
    }
}

/// The `{("*" | "/") unary}` tail of a term.
pub open spec fn sp_term_tail(s: Seq<char>, st: PState) -> Result<PState, SpecError>
    decreases pmeasure(s, st),
{
    if st.curr.kind == TokenType::ASTERISK || st.curr.kind == TokenType::SLASH {
        match sp_adv(s, st_emit(st, st.curr.text)) {
            Ok(st1) => match sp_unary(s, st1) {
                Ok(st2) => {
                    if pmeasure(s, st2) < pmeasure(s, st) {
                        sp_term_tail(s, st2)
                    } else {
                        Ok(st2)
                    }
                },
                Err(e) => Err(e),
            },
            Err(e) => Err(e),
        }
    } else {
        Ok(st)
    }
}

/// term ::= unary {("*" | "/") unary}.
pub open spec fn sp_term(s: Seq<char>, st: PState) -> Result<PState, SpecError> {
    match sp_unary(s, st) {
        Ok(st1) => sp_term_tail(s, st1),
        Err(e) => Err(e),
    }
}

/// The `{("+" | "-") term}` tail of an expression.
pub open spec fn sp_expr_tail(s: Seq<char>, st: PState) -> Result<PState, SpecError>
    decreases pmeasure(s, st),
{
    if st.curr.kind == TokenType::PLUS || st.curr.kind == TokenType::MINUS {
        match sp_adv(s, st_emit(st, st.curr.text)) {
            Ok(st1) => match sp_term(s, st1) {
                Ok(st2) => {
                    if pmeasure(s, st2) < pmeasure(s, st) {
                        sp_expr_tail(s, st2)
                    } else {
                        Ok(st2)
                    }
                },
                Err(e) => Err(e),
            },
            Err(e) => Err(e),
        }
    } else {
        Ok(st)
    }
}

/// expression ::= term {("+" | "-") term}.
pub open spec fn sp_expression(s: Seq<char>, st: PState) -> Result<PState, SpecError> {
    match sp_term(s, st) {
        Ok(st1) => sp_expr_tail(s, st1),
        Err(e) => Err(e),
    }
}

/// A comparison operator kind.
pub open spec fn is_comp_kind(k: TokenType) -> bool {
    k == TokenType::GT || k == TokenType::GTEQ || k == TokenType::LT || k == TokenType::LTEQ || k
        == TokenType::EQEQ || k == TokenType::NOTEQ
}

/// The `{comp_op expression}` tail of a comparison.
pub open spec fn sp_comp_tail(s: Seq<char>, st: PState) -> Result<PState, SpecError>
    decreases pmeasure(s, st),
{
    if is_comp_kind(st.curr.kind) {
        match sp_adv(s, st_emit(st, st.curr.text)) {
            Ok(st1) => match sp_expression(s, st1) {
                Ok(st2) => {
                    if pmeasure(s, st2) < pmeasure(s, st) {
                        sp_comp_tail(s, st2)
                    } else {
                        Ok(st2)
                    }
                },
                Err(e) => Err(e),
            },
            Err(e) => Err(e),
        }
    } else {
        Ok(st)
    }
}

/// comparison ::= expression (comp_op expression)+ — at least one comparison
/// operator is demanded; further ones chain left to right.
pub open spec fn sp_comparison(s: Seq<char>, st: PState) -> Result<PState, SpecError> {
    match sp_expression(s, st) {
        Ok(st1) => {
            if is_comp_kind(st1.curr.kind) {
                match sp_adv(s, st_emit(st1, st1.curr.text)) {
                    Ok(st2) => match sp_expression(s, st2) {
                        Ok(st3) => sp_comp_tail(s, st3),
                        Err(e) => Err(e),
                    },
                    Err(e) => Err(e),
                }
            } else {
                Err(SpecError::ExpectedComparisonOperator { text: st1.curr.text })
            }
        },
        Err(e) => Err(e),
    }
}

/// The `{newline}` tail after the first newline of `nl`.
pub open spec fn sp_nl_tail(s: Seq<char>, st: PState) -> Result<PState, SpecError>
    decreases pmeasure(s, st),
{
    if st.curr.kind == TokenType::NEWLINE {
        match sp_adv(s, st) {
            Ok(st1) => {
                if pmeasure(s, st1) < pmeasure(s, st) {
                    sp_nl_tail(s, st1)
                } else {
                    Ok(st1)
                }
            },
            Err(e) => Err(e),
        }
    } else {
        Ok(st)
    }
}

/// nl ::= newline {newline}.
pub open spec fn sp_newline(s: Seq<char>, st: PState) -> Result<PState, SpecError> {
    match sp_match(s, st, TokenType::NEWLINE) {
        Ok(st1) => sp_nl_tail(s, st1),
        Err(e) => Err(e),
    }
}

/// One statement, without its terminating `nl`.
pub open spec fn sp_statement_body(s: Seq<char>, st: PState) -> Result<PState, SpecError>
    decreases pmeasure(s, st), 0int,
{
    if st.curr.kind == TokenType::PRINT {
        match sp_adv(s, st) {
            Ok(st1) => {
                if st1.curr.kind == TokenType::STRING {
                    sp_adv(
                        s,
                        st_emit_line(st1, "printf(\""@ + st1.curr.text + "\\n\");"@),
                    )
                } else {
                    let st1e = st_emit_line(st1, "printf(\"%.2f\\n\", (float)("@);
                    match sp_expression(s, st1e) {
                        Ok(st2) => Ok(st_emit_line(st2, "));"@)),
                        Err(e) => Err(e),
                    }
                }
            },
            Err(e) => Err(e),
        }
    } else if st.curr.kind == TokenType::IF {
        match sp_adv(s, st) {
            Ok(st1) => match sp_comparison(s, st_emit_line(st1, "if("@)) {
                Ok(st2) => match sp_match(s, st2, TokenType::THEN) {
                    Ok(st3) => match sp_newline(s, st3) {
                        Ok(st4) => {
                            let st4e = st_emit_line(st4, "){"@);
                            if pmeasure(s, st4e) < pmeasure(s, st) {
                                match sp_block(s, st4e, TokenType::ENDIF) {
                                    Ok(st5) => match sp_match(s, st5, TokenType::ENDIF) {
                                        Ok(st6) => Ok(st_emit_line(st6, "}"@)),
                                        Err(e) => Err(e),
                                    },
                                    Err(e) => Err(e),
                                }
                            } else {
                                Ok(st4e)
                            }
                        },
                        Err(e) => Err(e),
                    },
                    Err(e) => Err(e),
                },
                Err(e) => Err(e),
            },
            Err(e) => Err(e),
        }
    } else if st.curr.kind == TokenType::WHILE {
        match sp_adv(s, st) {
            Ok(st1) => match sp_comparison(s, st_emit_line(st1, "while("@)) {
                Ok(st2) => match sp_match(s, st2, TokenType::REPEAT) {
                    Ok(st3) => match sp_newline(s, st3) {
                        Ok(st4) => {
                            let st4e = st_emit_line(st4, "){"@);
                            if pmeasure(s, st4e) < pmeasure(s, st) {
                                match sp_block(s, st4e, TokenType::ENDWHILE) {
                                    Ok(st5) => match sp_match(s, st5, TokenType::ENDWHILE) {
                                        Ok(st6) => Ok(st_emit_line(st6, "}"@)),
                                        Err(e) => Err(e),
                                    },
                                    Err(e) => Err(e),
                                }
                            } else {
                                Ok(st4e)
                            }
                        },
                        Err(e) => Err(e),
                    },
                    Err(e) => Err(e),
                },
                Err(e) => Err(e),
            },
            Err(e) => Err(e),
        }
    } else if st.curr.kind == TokenType::LABEL {
        match sp_adv(s, st) {
            Ok(st1) => {
                if st1.labels_declared.contains(st1.curr.text) {
                    Err(SpecError::DuplicateLabel { name: st1.curr.text })
                } else {
                    let st2 = PState {
                        labels_declared: st1.labels_declared.push(st1.curr.text),
                        ..st1
                    };
                    sp_match(s, st_emit_line(st2, st1.curr.text + ":"@), TokenType::IDENT)
                }
            },
            Err(e) => Err(e),
        }
    } else if st.curr.kind == TokenType::GOTO {
        match sp_adv(s, st) {
            Ok(st1) => {
                let st2 = PState { labels_gotoed: st1.labels_gotoed.push(st1.curr.text), ..st1 };
                sp_match(
                    s,
                    st_emit_line(st2, "goto "@ + st1.curr.text + " ;"@),
                    TokenType::IDENT,
                )
            },
            Err(e) => Err(e),
        }
    } else if st.curr.kind == TokenType::LET {
        match sp_adv(s, st) {
            Ok(st1) => {
                let st2 = if st1.symbols.contains(st1.curr.text) {
                    st1
                } else {
                    st_header_line(
                        PState { symbols: st1.symbols.push(st1.curr.text), ..st1 },
                        "float "@ + st1.curr.text + ";"@,
                    )
                };
                match sp_match(s, st_emit(st2, st1.curr.text + "="@), TokenType::IDENT) {
                    Ok(st3) => match sp_match(s, st3, TokenType::EQ) {
                        Ok(st4) => match sp_expression(s, st4) {
                            Ok(st5) => Ok(st_emit_line(st5, ";"@)),
                            Err(e) => Err(e),
                        },
                        Err(e) => Err(e),
                    },
                    Err(e) => Err(e),
                }
            },
            Err(e) => Err(e),
        }
    } else if st.curr.kind == TokenType::INPUT {
        match sp_adv(s, st) {
            Ok(st1) => {
                let st2 = if st1.symbols.contains(st1.curr.text) {
                    st1
                } else {
                    st_header_line(
                        PState { symbols: st1.symbols.push(st1.curr.text), ..st1 },
                        "float "@ + st1.curr.text + ";"@,
                    )
                };
                let st3 = st_emit_line(st2, "if(0==scanf(\"%f\",&"@ + st1.curr.text + ")) {"@);
                let st4 = st_emit_line(st3, st1.curr.text + " = 0;"@);
                let st5 = st_emit(st4, "scanf(\"%"@);
                let st6 = st_emit_line(st5, "*s\");"@);
                let st7 = st_emit_line(st6, "}"@);
                sp_match(s, st7, TokenType::IDENT)
            },
            Err(e) => Err(e),
        }
    } else {
        Err(SpecError::InvalidStatement { text: st.curr.text, kind: st.curr.kind })
    }
}

/// statement ::= one statement followed by its terminating `nl`.
pub open spec fn sp_statement(s: Seq<char>, st: PState) -> Result<PState, SpecError>
    decreases pmeasure(s, st), 1int,
{
    match sp_statement_body(s, st) {
        Ok(st1) => sp_newline(s, st1),
        Err(e) => Err(e),
    }
}

/// Zero or more statements up to (not past) the closing token kind.
pub open spec fn sp_block(s: Seq<char>, st: PState, end_kind: TokenType) -> Result<
    PState,
    SpecError,
>
    decreases pmeasure(s, st), 2int,
{
    if st.curr.kind == end_kind {
        Ok(st)
    } else {
        match sp_statement(s, st) {
            Ok(st1) => {
                if pmeasure(s, st1) < pmeasure(s, st) {
                    sp_block(s, st1, end_kind)
                } else {
                    Ok(st1)
                }
            },
            Err(e) => Err(e),
        }
    }
}

/// The first `GOTO` target, in reference order, that no `LABEL` declared.
pub open spec fn sp_find_missing(gotoed: Seq<Seq<char>>, declared: Seq<Seq<char>>) -> Option<
    Seq<char>,
>
    decreases gotoed.len(),
{
    if gotoed.len() == 0 {
        None
    } else if !declared.contains(gotoed[0]) {
        Some(gotoed[0])
    } else {
        sp_find_missing(gotoed.drop_first(), declared)
    }
}

/// Closes the program text and reconciles the labels: `return 0;` and the
/// closing brace are emitted, then every `GOTO` target must be declared.
pub open spec fn sp_wrap_up(st: PState) -> Result<PState, SpecError> {
    let st1 = st_emit_line(st_emit_line(st, "return 0;"@), "}"@);
    match sp_find_missing(st1.labels_gotoed, st1.labels_declared) {
        Some(name) => Err(SpecError::UndeclaredLabel { name }),
        None => Ok(st1),
    }
}

/// program ::= {statement} — the header prologue is emitted, leading blank
/// lines are skipped, statements run to the end marker, and the labels are
/// reconciled only then.
pub open spec fn sp_program(s: Seq<char>, st: PState) -> Result<PState, SpecError> {
    let st0 = st_header_line(st_header_line(st, "#include<stdio.h>"@), "int main(void) {"@);
    match sp_nl_tail(s, st0) {
        Ok(st1) => match sp_block(s, st1, TokenType::EOF) {
            Ok(st2) => sp_wrap_up(st2),
            Err(e) => Err(e),
        },
        Err(e) => Err(e),
    }
}

/// The lookahead the parser starts from, before the first two pulls.
pub open spec fn blank_token() -> SpecToken {
    SpecToken { kind: TokenType::EOF, text: Seq::<char>::empty() }
}

/// The state a fresh parser starts from: empty bookkeeping, the given lexer
/// cursor and emitter buffers, and a blank lookahead window.
pub open spec fn start_pstate(pos: int, header: Seq<char>, code: Seq<char>) -> PState {
    PState {
        pos,
        curr: blank_token(),
        peek: blank_token(),
        symbols: Seq::<Seq<char>>::empty(),
        labels_declared: Seq::<Seq<char>>::empty(),
        labels_gotoed: Seq::<Seq<char>>::empty(),
        header,
        code,
    }
}

/// Construction fills the lookahead window with the first two pulls.
pub open spec fn sp_init(s: Seq<char>, st: PState) -> Result<PState, SpecError> {
    match sp_adv(s, st) {
        Ok(st1) => sp_adv(s, st1),
        Err(e) => Err(e),
    }
}

// ---------------------------------------------------------------------------
// Progress lemmas: every production keeps the cursor inside the source and
// consumes at least one token (the tails consume none only when they match
// nothing). They discharge the measure guards on the spec recursion.
// ---------------------------------------------------------------------------

/// Advancing is sound: the cursor stays inside the source and the measure
/// drops by at least the weight of the consumed token.
pub proof fn lemma_adv_progress(s: Seq<char>, st: PState)
    requires
        st_wf(s, st),
    ensures
        match sp_adv(s, st) {
            Ok(st1) => st_wf(s, st1) && pmeasure(s, st1) <= pmeasure(s, st) - tok_weight(st.curr)
                && st1.curr == st.peek && st1.symbols == st.symbols && st1.labels_declared
                == st.labels_declared && st1.labels_gotoed == st.labels_gotoed && st1.header
                == st.header && st1.code == st.code,
            Err(_) => true,
        },
{
    lemma_get_token_bounds(s, st.pos);
}

/// Matching a non-end token strictly shrinks the measure.
pub proof fn lemma_match_progress(s: Seq<char>, st: PState, kind: TokenType)
    requires
        st_wf(s, st),
        kind != TokenType::EOF,
    ensures
        match sp_match(s, st, kind) {
            Ok(st1) => st_wf(s, st1) && pmeasure(s, st1) < pmeasure(s, st),
            Err(_) => true,
        },
{
    if st.curr.kind == kind {
        lemma_adv_progress(s, st);
    }
}

pub proof fn lemma_primary_progress(s: Seq<char>, st: PState)
    requires
        st_wf(s, st),
    ensures
        match sp_primary(s, st) {
            Ok(st1) => st_wf(s, st1) && pmeasure(s, st1) < pmeasure(s, st),
            Err(_) => true,
        },
{
    if st.curr.kind == TokenType::NUMBER {
        lemma_adv_progress(s, st_emit(st, st.curr.text));
    } else if st.curr.kind == TokenType::IDENT && st.symbols.contains(st.curr.text) {
        lemma_adv_progress(s, st_emit(st, st.curr.text));
    }
}

pub proof fn lemma_unary_progress(s: Seq<char>, st: PState)
    requires
        st_wf(s, st),
    ensures
        match sp_unary(s, st) {
            Ok(st1) => st_wf(s, st1) && pmeasure(s, st1) < pmeasure(s, st),
            Err(_) => true,
        },
{
    if st.curr.kind == TokenType::PLUS || st.curr.kind == TokenType::MINUS {
        lemma_adv_progress(s, st_emit(st, st.curr.text));
        match sp_adv(s, st_emit(st, st.curr.text)) {
            Ok(st1) => lemma_primary_progress(s, st1),
            Err(_) => {},
        }
    } else {
        lemma_primary_progress(s, st);
    }
}

pub proof fn lemma_term_tail_progress(s: Seq<char>, st: PState)
    requires
        st_wf(s, st),
    ensures
        match sp_term_tail(s, st) {
            Ok(st1) => st_wf(s, st1) && pmeasure(s, st1) <= pmeasure(s, st),
            Err(_) => true,
        },
    decreases pmeasure(s, st),
{
    if st.curr.kind == TokenType::ASTERISK || st.curr.kind == TokenType::SLASH {
        lemma_adv_progress(s, st_emit(st, st.curr.text));
        match sp_adv(s, st_emit(st, st.curr.text)) {
            Ok(st1) => {
                lemma_unary_progress(s, st1);
                match sp_unary(s, st1) {
                    Ok(st2) => {
                        lemma_term_tail_progress(s, st2);
                    },
                    Err(_) => {},
                }
            },
            Err(_) => {},
        }
    }
}

pub proof fn lemma_term_progress(s: Seq<char>, st: PState)
    requires
        st_wf(s, st),
    ensures
        match sp_term(s, st) {
            Ok(st1) => st_wf(s, st1) && pmeasure(s, st1) < pmeasure(s, st),
            Err(_) => true,
        },
{
    lemma_unary_progress(s, st);
    match sp_unary(s, st) {
        Ok(st1) => lemma_term_tail_progress(s, st1),
        Err(_) => {},
    }
}

pub proof fn lemma_expr_tail_progress(s: Seq<char>, st: PState)
    requires
        st_wf(s, st),
    ensures
        match sp_expr_tail(s, st) {
            Ok(st1) => st_wf(s, st1) && pmeasure(s, st1) <= pmeasure(s, st),
            Err(_) => true,
        },
    decreases pmeasure(s, st),
{
    if st.curr.kind == TokenType::PLUS || st.curr.kind == TokenType::MINUS {
        lemma_adv_progress(s, st_emit(st, st.curr.text));
        match sp_adv(s, st_emit(st, st.curr.text)) {
            Ok(st1) => {
                lemma_term_progress(s, st1);
                match sp_term(s, st1) {
                    Ok(st2) => {
                        lemma_expr_tail_progress(s, st2);
                    },
                    Err(_) => {},
                }
            },
            Err(_) => {},
        }
    }
}

pub proof fn lemma_expression_progress(s: Seq<char>, st: PState)
    requires
        st_wf(s, st),
    ensures
        match sp_expression(s, st) {
            Ok(st1) => st_wf(s, st1) && pmeasure(s, st1) < pmeasure(s, st),
            Err(_) => true,
        },
{
    lemma_term_progress(s, st);
    match sp_term(s, st) {
        Ok(st1) => lemma_expr_tail_progress(s, st1),
        Err(_) => {},
    }
}

pub proof fn lemma_comp_tail_progress(s: Seq<char>, st: PState)
    requires
        st_wf(s, st),
    ensures
        match sp_comp_tail(s, st) {
            Ok(st1) => st_wf(s, st1) && pmeasure(s, st1) <= pmeasure(s, st),
            Err(_) => true,
        },
    decreases pmeasure(s, st),
{
    if is_comp_kind(st.curr.kind) {
        lemma_adv_progress(s, st_emit(st, st.curr.text));
        match sp_adv(s, st_emit(st, st.curr.text)) {
            Ok(st1) => {
                lemma_expression_progress(s, st1);
                match sp_expression(s, st1) {
                    Ok(st2) => {
                        lemma_comp_tail_progress(s, st2);
                    },
                    Err(_) => {},
                }
            },
            Err(_) => {},
        }
    }
}

pub proof fn lemma_comparison_progress(s: Seq<char>, st: PState)
    requires
        st_wf(s, st),
    ensures
        match sp_comparison(s, st) {
            Ok(st1) => st_wf(s, st1) && pmeasure(s, st1) < pmeasure(s, st),
            Err(_) => true,
        },
{
    lemma_expression_progress(s, st);
    match sp_expression(s, st) {
        Ok(st1) => {
            if is_comp_kind(st1.curr.kind) {
                lemma_adv_progress(s, st_emit(st1, st1.curr.text));
                match sp_adv(s, st_emit(st1, st1.curr.text)) {
                    Ok(st2) => {
                        lemma_expression_progress(s, st2);
                        match sp_expression(s, st2) {
                            Ok(st3) => lemma_comp_tail_progress(s, st3),
                            Err(_) => {},
                        }
                    },
                    Err(_) => {},
                }
            }
        },
        Err(_) => {},
    }
}

pub proof fn lemma_nl_tail_progress(s: Seq<char>, st: PState)
    requires
        st_wf(s, st),
    ensures
        match sp_nl_tail(s, st) {
            Ok(st1) => st_wf(s, st1) && pmeasure(s, st1) <= pmeasure(s, st),
            Err(_) => true,
        },
    decreases pmeasure(s, st),
{
    if st.curr.kind == TokenType::NEWLINE {
        lemma_adv_progress(s, st);
        match sp_adv(s, st) {
            Ok(st1) => {
                lemma_nl_tail_progress(s, st1);
            },
            Err(_) => {},
        }
    }
}

pub proof fn lemma_newline_progress(s: Seq<char>, st: PState)
    requires
        st_wf(s, st),
    ensures
        match sp_newline(s, st) {
            Ok(st1) => st_wf(s, st1) && pmeasure(s, st1) < pmeasure(s, st),
            Err(_) => true,
        },
{
    lemma_match_progress(s, st, TokenType::NEWLINE);
    match sp_match(s, st, TokenType::NEWLINE) {
        Ok(st1) => lemma_nl_tail_progress(s, st1),
        Err(_) => {},
    }
}

/// Every statement consumes at least one token.
pub proof fn lemma_statement_progress(s: Seq<char>, st: PState)
    requires
        st_wf(s, st),
    ensures
        match sp_statement(s, st) {
            Ok(st1) => st_wf(s, st1) && pmeasure(s, st1) < pmeasure(s, st),
            Err(_) => true,
        },
    decreases pmeasure(s, st), 1int,
{
    lemma_statement_body_progress(s, st);
    match sp_statement_body(s, st) {
        Ok(st1) => lemma_newline_progress(s, st1),
        Err(_) => {},
    }
}

#[verifier::spinoff_prover]
#[verifier::rlimit(60)]
pub proof fn lemma_statement_body_progress(s: Seq<char>, st: PState)
    requires
        st_wf(s, st),
    ensures
        match sp_statement_body(s, st) {
            Ok(st1) => st_wf(s, st1) && pmeasure(s, st1) < pmeasure(s, st),
            Err(_) => true,
        },
    decreases pmeasure(s, st), 0int,
{
    if st.curr.kind == TokenType::PRINT {
        lemma_adv_progress(s, st);
        match sp_adv(s, st) {
            Ok(st1) => {
                if st1.curr.kind == TokenType::STRING {
                    lemma_adv_progress(
                        s,
                        st_emit_line(st1, "printf(\""@ + st1.curr.text + "\\n\");"@),
                    );
                } else {
                    lemma_expression_progress(
                        s,
                        st_emit_line(st1, "printf(\"%.2f\\n\", (float)("@),
                    );
                }
            },
            Err(_) => {},
        }
    } else if st.curr.kind == TokenType::IF {
        lemma_adv_progress(s, st);
        match sp_adv(s, st) {
            Ok(st1) => {
                lemma_comparison_progress(s, st_emit_line(st1, "if("@));
                match sp_comparison(s, st_emit_line(st1, "if("@)) {
                    Ok(st2) => {
                        lemma_match_progress(s, st2, TokenType::THEN);
                        match sp_match(s, st2, TokenType::THEN) {
                            Ok(st3) => {
                                lemma_newline_progress(s, st3);
                                match sp_newline(s, st3) {
                                    Ok(st4) => {
                                        let st4e = st_emit_line(st4, "){"@);
                                        lemma_block_progress(s, st4e, TokenType::ENDIF);
                                        match sp_block(s, st4e, TokenType::ENDIF) {
                                            Ok(st5) => {
                                                lemma_match_progress(s, st5, TokenType::ENDIF);
                                            },
                                            Err(_) => {},
                                        }
                                    },
                                    Err(_) => {},
                                }
                            },
                            Err(_) => {},
                        }
                    },
                    Err(_) => {},
                }
            },
            Err(_) => {},
        }
    } else if st.curr.kind == TokenType::WHILE {
        lemma_adv_progress(s, st);
        match sp_adv(s, st) {
            Ok(st1) => {
                lemma_comparison_progress(s, st_emit_line(st1, "while("@));
                match sp_comparison(s, st_emit_line(st1, "while("@)) {
                    Ok(st2) => {
                        lemma_match_progress(s, st2, TokenType::REPEAT);
                        match sp_match(s, st2, TokenType::REPEAT) {
                            Ok(st3) => {
                                lemma_newline_progress(s, st3);
                                match sp_newline(s, st3) {
                                    Ok(st4) => {
                                        let st4e = st_emit_line(st4, "){"@);
                                        lemma_block_progress(s, st4e, TokenType::ENDWHILE);
                                        match sp_block(s, st4e, TokenType::ENDWHILE) {
                                            Ok(st5) => {
                                                lemma_match_progress(s, st5, TokenType::ENDWHILE);
                                            },
                                            Err(_) => {},
                                        }
                                    },
                                    Err(_) => {},
                                }
                            },
                            Err(_) => {},
                        }
                    },
                    Err(_) => {},
                }
            },
            Err(_) => {},
        }
    } else if st.curr.kind == TokenType::LABEL {
        lemma_adv_progress(s, st);
        match sp_adv(s, st) {
            Ok(st1) => {
                if !st1.labels_declared.contains(st1.curr.text) {
                    let st2 = PState {
                        labels_declared: st1.labels_declared.push(st1.curr.text),
                        ..st1
                    };
                    lemma_match_progress(
                        s,
                        st_emit_line(st2, st1.curr.text + ":"@),
                        TokenType::IDENT,
                    );
                }
            },
            Err(_) => {},
        }
    } else if st.curr.kind == TokenType::GOTO {
        lemma_adv_progress(s, st);
        match sp_adv(s, st) {
            Ok(st1) => {
                let st2 = PState { labels_gotoed: st1.labels_gotoed.push(st1.curr.text), ..st1 };
                lemma_match_progress(
                    s,
                    st_emit_line(st2, "goto "@ + st1.curr.text + " ;"@),
                    TokenType::IDENT,
                );
            },
            Err(_) => {},
        }
    } else if st.curr.kind == TokenType::LET {
        lemma_adv_progress(s, st);
        match sp_adv(s, st) {
            Ok(st1) => {
                let st2 = if st1.symbols.contains(st1.curr.text) {
                    st1
                } else {
                    st_header_line(
                        PState { symbols: st1.symbols.push(st1.curr.text), ..st1 },
                        "float "@ + st1.curr.text + ";"@,
                    )
                };
                lemma_match_progress(s, st_emit(st2, st1.curr.text + "="@), TokenType::IDENT);
                match sp_match(s, st_emit(st2, st1.curr.text + "="@), TokenType::IDENT) {
                    Ok(st3) => {
                        lemma_match_progress(s, st3, TokenType::EQ);
                        match sp_match(s, st3, TokenType::EQ) {
                            Ok(st4) => {
                                lemma_expression_progress(s, st4);
                            },
                            Err(_) => {},
                        }
                    },
                    Err(_) => {},
                }
            },
            Err(_) => {},
        }
    } else if st.curr.kind == TokenType::INPUT {
        lemma_adv_progress(s, st);
        match sp_adv(s, st) {
            Ok(st1) => {
                let st2 = if st1.symbols.contains(st1.curr.text) {
                    st1
                } else {
                    st_header_line(
                        PState { symbols: st1.symbols.push(st1.curr.text), ..st1 },
                        "float "@ + st1.curr.text + ";"@,
                    )
                };
                let st3 = st_emit_line(st2, "if(0==scanf(\"%f\",&"@ + st1.curr.text + ")) {"@);
                let st4 = st_emit_line(st3, st1.curr.text + " = 0;"@);
                let st5 = st_emit(st4, "scanf(\"%"@);
                let st6 = st_emit_line(st5, "*s\");"@);
                let st7 = st_emit_line(st6, "}"@);
                lemma_match_progress(s, st7, TokenType::IDENT);
            },
            Err(_) => {},
        }
    }
}

/// A block never grows the measure.
pub proof fn lemma_block_progress(s: Seq<char>, st: PState, end_kind: TokenType)
    requires
        st_wf(s, st),
    ensures
        match sp_block(s, st, end_kind) {
            Ok(st1) => st_wf(s, st1) && pmeasure(s, st1) <= pmeasure(s, st),
            Err(_) => true,
        },
    decreases pmeasure(s, st), 2int,
{
    if st.curr.kind != end_kind {
        lemma_statement_progress(s, st);
        match sp_statement(s, st) {
            Ok(st1) => {
                lemma_block_progress(s, st1, end_kind);
            },
            Err(_) => {},
        }
    }
}

// ---------------------------------------------------------------------------
// The executable parser.
// ---------------------------------------------------------------------------

/// The views of a vector of names.
pub open spec fn seq_names(v: Seq<String>) -> Seq<Seq<char>> {
    v.map_values(|x: String| x@)
}

proof fn lemma_seq_names_push(v: Seq<String>, x: String)
    ensures
        seq_names(v.push(x)) == seq_names(v).push(x@),
{
    assert(seq_names(v.push(x)) =~= seq_names(v).push(x@));
}

/// Whether one of the names in `v` reads `name`.
fn contains_name(v: &Vec<String>, name: &String) -> (r: bool)
    ensures
        r == seq_names(v@).contains(name@),
{
    let mut i: usize = 0;
    while i < v.len()
        invariant
            i <= v@.len(),
            forall|j: int| 0 <= j < i ==> seq_names(v@)[j] != name@,
        decreases v@.len() - i,
    {
        if v[i] == *name {
            assert(seq_names(v@)[i as int] == name@);
            return true;
        }
        i = i + 1;
    }
    false
}

/// The recursive-descent parser: owns the lexer it pulls from, the emitter it
/// pushes to, a two-token lookahead window, and the symbol and label
/// bookkeeping.
#[derive(Debug)]
pub struct Parser {
    lexer: Lexer,
    emitter: Emitter,
    curr_token: Token,
    peek_token: Token,
    symbols: Vec<String>,
    labels_declared: Vec<String>,
    labels_gotoed: Vec<String>,
}

impl Parser {
    /// The source text being parsed.
    pub closed spec fn src(&self) -> Seq<char> {
        self.lexer.src()
    }

    /// The parser's whole state as mathematics.
    pub closed spec fn st(&self) -> PState {
        PState {
            pos: self.lexer.pos(),
            curr: self.curr_token@,
            peek: self.peek_token@,
            symbols: seq_names(self.symbols@),
            labels_declared: seq_names(self.labels_declared@),
            labels_gotoed: seq_names(self.labels_gotoed@),
            header: self.emitter.header_text(),
            code: self.emitter.code_text(),
        }
    }

    /// The lexer is sound and its cursor sits inside the source.
    pub closed spec fn wf(&self) -> bool {
        self.lexer.wf() && st_wf(self.src(), self.st())
    }

    /// Builds a parser over the given lexer and emitter and fills the
    /// two-token lookahead window with the first two pulls.
    pub fn new(lexer: Lexer, emitter: Emitter) -> (r: Result<Parser, CompileError>)
        requires
            lexer.wf(),
        ensures
            match sp_init(
                lexer.src(),
                start_pstate(lexer.pos(), emitter.header_text(), emitter.code_text()),
            ) {
                Ok(st) => r matches Ok(p) && p.wf() && p.src() == lexer.src() && p.st() == st,
                Err(e) => r matches Err(err) && err@ == e,
            },
    {
        proof {
            lexer.lemma_wf_pos_bounds();
        }
        let mut parser = Parser {
            lexer,
            emitter,
            curr_token: Token::default(),
            peek_token: Token::default(),
            symbols: Vec::new(),
            labels_declared: Vec::new(),
            labels_gotoed: Vec::new(),
        };
        proof {
            assert(parser.st() =~= start_pstate(
                lexer.pos(),
                emitter.header_text(),
                emitter.code_text(),
            ));
        }
        match parser.next_token() {
            Ok(_) => {},
            Err(e) => {
                return Err(e);
            },
        }
        match parser.next_token() {
            Ok(_) => {},
            Err(e) => {
                return Err(e);
            },
        }
        Ok(parser)
    }

    /// Whether the current token has the given kind.
    pub fn check_token(&mut self, token_type: TokenType) -> (r: bool)
        ensures
            *final(self) == *old(self),
            r == (old(self).st().curr.kind == token_type),
    {
        self.curr_token.token_type == token_type
    }

    /// Whether the lookahead token has the given kind.
    pub fn check_peek(&mut self, token_type: TokenType) -> (r: bool)
        ensures
            *final(self) == *old(self),
            r == (old(self).st().peek.kind == token_type),
    {
        self.peek_token.token_type == token_type
    }

    /// Advances the lookahead window by one token.
    pub fn next_token(&mut self) -> (r: Result<(), CompileError>)
        requires
            old(self).wf(),
        ensures
            final(self).wf(),
            final(self).src() == old(self).src(),
            match sp_adv(old(self).src(), old(self).st()) {
                Ok(st1) => r is Ok && final(self).st() == st1,
                Err(e) => r matches Err(err) && err@ == e,
            },
    {
        proof {
            lemma_get_token_bounds(old(self).src(), old(self).st().pos);
        }
        self.curr_token = self.peek_token.clone();
        match self.lexer.get_token() {
            Ok(t) => {
                self.peek_token = t;
                Ok(())
            },
            Err(e) => Err(e),
        }
    }

    /// Demands the current token kind and advances past it.
    pub fn match_token(&mut self, token_type: TokenType) -> (r: Result<(), CompileError>)
        requires
            old(self).wf(),
        ensures
            final(self).wf(),
            final(self).src() == old(self).src(),
            match sp_match(old(self).src(), old(self).st(), token_type) {
                Ok(st1) => r is Ok && final(self).st() == st1,
                Err(e) => r matches Err(err) && err@ == e,
            },
    {
        if !self.check_token(token_type) {
            return Err(
                CompileError::ExpectedToken {
                    expected: token_type,
                    got: self.curr_token.token_type,
                },
            );
        }
        self.next_token()
    }

    /// Whether the current token is a comparison operator.
    pub fn is_comparison_operator(&mut self) -> (r: bool)
        ensures
            *final(self) == *old(self),
            r == is_comp_kind(old(self).st().curr.kind),
    {
        self.check_token(TokenType::GT) || self.check_token(TokenType::GTEQ) || self.check_token(
            TokenType::LT,
        ) || self.check_token(TokenType::LTEQ) || self.check_token(TokenType::EQEQ)
            || self.check_token(TokenType::NOTEQ)
    }

    /// primary ::= number | ident.
    pub fn primary(&mut self) -> (r: Result<(), CompileError>)
        requires
            old(self).wf(),
        ensures
            final(self).wf(),
            final(self).src() == old(self).src(),
            match sp_primary(old(self).src(), old(self).st()) {
                Ok(st1) => r is Ok && final(self).st() == st1,
                Err(e) => r matches Err(err) && err@ == e,
            },
    {
        if self.check_token(TokenType::NUMBER) {
            let text = self.curr_token.text.clone();
            self.emitter.emit(text);
            self.next_token()
        } else if self.check_token(TokenType::IDENT) {
            if !contains_name(&self.symbols, &self.curr_token.text) {
                return Err(
                    CompileError::UndeclaredVariable { name: self.curr_token.text.clone() },
                );
            }
            let text = self.curr_token.text.clone();
            self.emitter.emit(text);
            self.next_token()
        } else {
            Err(CompileError::UnexpectedToken { text: self.curr_token.text.clone() })
        }
    }

    /// unary ::= ["+" | "-"] primary.
    pub fn unary(&mut self) -> (r: Result<(), CompileError>)
        requires
            old(self).wf(),
        ensures
            final(self).wf(),
            final(self).src() == old(self).src(),
            match sp_unary(old(self).src(), old(self).st()) {
                Ok(st1) => r is Ok && final(self).st() == st1,
                Err(e) => r matches Err(err) && err@ == e,
            },
    {
        if self.check_token(TokenType::PLUS) || self.check_token(TokenType::MINUS) {
            let text = self.curr_token.text.clone();
            self.emitter.emit(text);
            match self.next_token() {
                Ok(_) => {},
                Err(e) => {
                    return Err(e);
                },
            }
        }
        self.primary()
    }

    /// term ::= unary {("*" | "/") unary}.
    #[verifier::loop_isolation(false)]
    pub fn term(&mut self) -> (r: Result<(), CompileError>)
        requires
            old(self).wf(),
        ensures
            final(self).wf(),
            final(self).src() == old(self).src(),
            match sp_term(old(self).src(), old(self).st()) {
                Ok(st1) => r is Ok && final(self).st() == st1,
                Err(e) => r matches Err(err) && err@ == e,
            },
    {
        match self.unary() {
            Ok(_) => {},
            Err(e) => {
                return Err(e);
            },
        }
        while self.curr_token.token_type == TokenType::ASTERISK || self.curr_token.token_type
            == TokenType::SLASH
            invariant
                self.wf(),
                self.src() == old(self).src(),
                sp_term(old(self).src(), old(self).st()) == sp_term_tail(self.src(), self.st()),
            decreases pmeasure(self.src(), self.st()),
        {
            let ghost st_iter = self.st();
            let text = self.curr_token.text.clone();
            self.emitter.emit(text);
            match self.next_token() {
                Ok(_) => {},
                Err(e) => {
                    return Err(e);
                },
            }
            proof {
                lemma_adv_progress(self.src(), st_emit(st_iter, st_iter.curr.text));
            }
            match self.unary() {
                Ok(_) => {},
                Err(e) => {
                    return Err(e);
                },
            }
            proof {
                lemma_unary_progress(
                    self.src(),
                    sp_adv(self.src(), st_emit(st_iter, st_iter.curr.text))->Ok_0,
                );
            }
        }
        Ok(())
    }

    /// expression ::= term {("+" | "-") term}.
    #[verifier::loop_isolation(false)]
    pub fn expression(&mut self) -> (r: Result<(), CompileError>)
        requires
            old(self).wf(),
        ensures
            final(self).wf(),
            final(self).src() == old(self).src(),
            match sp_expression(old(self).src(), old(self).st()) {
                Ok(st1) => r is Ok && final(self).st() == st1,
                Err(e) => r matches Err(err) && err@ == e,
            },
    {
        match self.term() {
            Ok(_) => {},
            Err(e) => {
                return Err(e);
            },
        }
        while self.curr_token.token_type == TokenType::PLUS || self.curr_token.token_type
            == TokenType::MINUS
            invariant
                self.wf(),
                self.src() == old(self).src(),
                sp_expression(old(self).src(), old(self).st()) == sp_expr_tail(
                    self.src(),
                    self.st(),
                ),
            decreases pmeasure(self.src(), self.st()),
        {
            let ghost st_iter = self.st();
            let text = self.curr_token.text.clone();
            self.emitter.emit(text);
            match self.next_token() {
                Ok(_) => {},
                Err(e) => {
                    return Err(e);
                },
            }
            proof {
                lemma_adv_progress(self.src(), st_emit(st_iter, st_iter.curr.text));
            }
            match self.term() {
                Ok(_) => {},
                Err(e) => {
                    return Err(e);
                },
            }
            proof {
                lemma_term_progress(
                    self.src(),
                    sp_adv(self.src(), st_emit(st_iter, st_iter.curr.text))->Ok_0,
                );
            }
        }
        Ok(())
    }

    /// comparison ::= expression (comp_op expression)+.
    #[verifier::loop_isolation(false)]
    pub fn comparison(&mut self) -> (r: Result<(), CompileError>)
        requires
            old(self).wf(),
        ensures
            final(self).wf(),
            final(self).src() == old(self).src(),
            match sp_comparison(old(self).src(), old(self).st()) {
                Ok(st1) => r is Ok && final(self).st() == st1,
                Err(e) => r matches Err(err) && err@ == e,
            },
    {
        match self.expression() {
            Ok(_) => {},
            Err(e) => {
                return Err(e);
            },
        }
        if self.is_comparison_operator() {
            let ghost st_first = self.st();
            let text = self.curr_token.text.clone();
            self.emitter.emit(text);
            match self.next_token() {
                Ok(_) => {},
                Err(e) => {
                    return Err(e);
                },
            }
            match self.expression() {
                Ok(_) => {},
                Err(e) => {
                    return Err(e);
                },
            }
        } else {
            return Err(
                CompileError::ExpectedComparisonOperator { text: self.curr_token.text.clone() },
            );
        }
        while self.is_comparison_operator()
            invariant
                self.wf(),
                self.src() == old(self).src(),
                sp_comparison(old(self).src(), old(self).st()) == sp_comp_tail(
                    self.src(),
                    self.st(),
                ),
            decreases pmeasure(self.src(), self.st()),
        {
            let ghost st_iter = self.st();
            let text = self.curr_token.text.clone();
            self.emitter.emit(text);
            match self.next_token() {
                Ok(_) => {},
                Err(e) => {
                    return Err(e);
                },
            }
            proof {
                lemma_adv_progress(self.src(), st_emit(st_iter, st_iter.curr.text));
            }
            match self.expression() {
                Ok(_) => {},
                Err(e) => {
                    return Err(e);
                },
            }
            proof {
                lemma_expression_progress(
                    self.src(),
                    sp_adv(self.src(), st_emit(st_iter, st_iter.curr.text))->Ok_0,
                );
            }
        }
        Ok(())
    }

    /// nl ::= newline {newline}.
    #[verifier::loop_isolation(false)]
    pub fn new_line(&mut self) -> (r: Result<(), CompileError>)
        requires
            old(self).wf(),
        ensures
            final(self).wf(),
            final(self).src() == old(self).src(),
            match sp_newline(old(self).src(), old(self).st()) {
                Ok(st1) => r is Ok && final(self).st() == st1,
                Err(e) => r matches Err(err) && err@ == e,
            },
    {
        match self.match_token(TokenType::NEWLINE) {
            Ok(_) => {},
            Err(e) => {
                return Err(e);
            },
        }
        while self.curr_token.token_type == TokenType::NEWLINE
            invariant
                self.wf(),
                self.src() == old(self).src(),
                sp_newline(old(self).src(), old(self).st()) == sp_nl_tail(self.src(), self.st()),
            decreases pmeasure(self.src(), self.st()),
        {
            let ghost st_iter = self.st();
            match self.next_token() {
                Ok(_) => {},
                Err(e) => {
                    return Err(e);
                },
            }
            proof {
                lemma_adv_progress(self.src(), st_iter);
            }
        }
        Ok(())
    }

    /// One statement, dispatched on the current keyword, with its
    /// terminating `nl`: recognizes the construct, emits its translation, and
    /// keeps the symbol and label bookkeeping, exactly as `sp_statement`
    /// describes.
    #[verifier::loop_isolation(false)]
    #[verifier::spinoff_prover]
    #[verifier::rlimit(100)]
    pub fn statement(&mut self) -> (r: Result<(), CompileError>)
        requires
            old(self).wf(),
        ensures
            final(self).wf(),
            final(self).src() == old(self).src(),
            match sp_statement(old(self).src(), old(self).st()) {
                Ok(st1) => r is Ok && final(self).st() == st1,
                Err(e) => r matches Err(err) && err@ == e,
            },
        decreases pmeasure(self.src(), self.st()),
    {
        let ghost src = old(self).src();
        let ghost st0 = old(self).st();
        if self.check_token(TokenType::PRINT) {
            match self.next_token() {
                Ok(_) => {},
                Err(e) => {
                    return Err(e);
                },
            }
            if self.check_token(TokenType::STRING) {
                let c = String::from_str("printf(\"").concat(self.curr_token.text.as_str()).concat(
                    "\\n\");",
                );
                self.emitter.emit_line(c);
                match self.next_token() {
                    Ok(_) => {},
                    Err(e) => {
                        return Err(e);
                    },
                }
            } else {
                self.emitter.emit_line(String::from_str("printf(\"%.2f\\n\", (float)("));
                match self.expression() {
                    Ok(_) => {},
                    Err(e) => {
                        return Err(e);
                    },
                }
                self.emitter.emit_line(String::from_str("));"));
            }
        } else if self.check_token(TokenType::IF) {
            match self.next_token() {
                Ok(_) => {},
                Err(e) => {
                    return Err(e);
                },
            }
            proof {
                lemma_adv_progress(src, st0);
            }
            self.emitter.emit_line(String::from_str("if("));
            let ghost st1e = self.st();
            match self.comparison() {
                Ok(_) => {},
                Err(e) => {
                    return Err(e);
                },
            }
            proof {
                lemma_comparison_progress(src, st1e);
            }
            let ghost st2 = self.st();
            match self.match_token(TokenType::THEN) {
                Ok(_) => {},
                Err(e) => {
                    return Err(e);
                },
            }
            proof {
                lemma_match_progress(src, st2, TokenType::THEN);
            }
            let ghost st3 = self.st();
            match self.new_line() {
                Ok(_) => {},
                Err(e) => {
                    return Err(e);
                },
            }
            proof {
                lemma_newline_progress(src, st3);
            }
            self.emitter.emit_line(String::from_str("){"));
            let ghost st_blk = self.st();
            while self.curr_token.token_type != TokenType::ENDIF
                invariant
                    self.wf(),
                    self.src() == src,
                    pmeasure(src, self.st()) <= pmeasure(src, st_blk),
                    sp_block(src, st_blk, TokenType::ENDIF) == sp_block(
                        src,
                        self.st(),
                        TokenType::ENDIF,
                    ),
                decreases pmeasure(self.src(), self.st()),
            {
                let ghost st_iter = self.st();
                match self.statement() {
                    Ok(_) => {},
                    Err(e) => {
                        return Err(e);
                    },
                }
                proof {
                    lemma_statement_progress(src, st_iter);
                }
            }
            let ghost st5 = self.st();
            match self.match_token(TokenType::ENDIF) {
                Ok(_) => {},
                Err(e) => {
                    return Err(e);
                },
            }
            proof {
                lemma_match_progress(src, st5, TokenType::ENDIF);
            }
            self.emitter.emit_line(String::from_str("}"));
        } else if self.check_token(TokenType::WHILE) {
            match self.next_token() {
                Ok(_) => {},
                Err(e) => {
                    return Err(e);
                },
            }
            proof {
                lemma_adv_progress(src, st0);
            }
            self.emitter.emit_line(String::from_str("while("));
            let ghost st1e = self.st();
            match self.comparison() {
                Ok(_) => {},
                Err(e) => {
                    return Err(e);
                },
            }
            proof {
                lemma_comparison_progress(src, st1e);
            }
            let ghost st2 = self.st();
            match self.match_token(TokenType::REPEAT) {
                Ok(_) => {},
                Err(e) => {
                    return Err(e);
                },
            }
            proof {
                lemma_match_progress(src, st2, TokenType::REPEAT);
            }
            let ghost st3 = self.st();
            match self.new_line() {
                Ok(_) => {},
                Err(e) => {
                    return Err(e);
                },
            }
            proof {
                lemma_newline_progress(src, st3);
            }
            self.emitter.emit_line(String::from_str("){"));
            let ghost st_blk = self.st();
            while self.curr_token.token_type != TokenType::ENDWHILE
                invariant
                    self.wf(),
                    self.src() == src,
                    pmeasure(src, self.st()) <= pmeasure(src, st_blk),
                    sp_block(src, st_blk, TokenType::ENDWHILE) == sp_block(
                        src,
                        self.st(),
                        TokenType::ENDWHILE,
                    ),
                decreases pmeasure(self.src(), self.st()),
            {
                let ghost st_iter = self.st();
                match self.statement() {
                    Ok(_) => {},
                    Err(e) => {
                        return Err(e);
                    },
                }
                proof {
                    lemma_statement_progress(src, st_iter);
                }
            }
            let ghost st5 = self.st();
            match self.match_token(TokenType::ENDWHILE) {
                Ok(_) => {},
                Err(e) => {
                    return Err(e);
                },
            }
            proof {
                lemma_match_progress(src, st5, TokenType::ENDWHILE);
            }
            self.emitter.emit_line(String::from_str("}"));
        } else if self.check_token(TokenType::LABEL) {
            match self.next_token() {
                Ok(_) => {},
                Err(e) => {
                    return Err(e);
                },
            }
            if contains_name(&self.labels_declared, &self.curr_token.text) {
                return Err(CompileError::DuplicateLabel { name: self.curr_token.text.clone() });
            }
            proof {
                lemma_seq_names_push(self.labels_declared@, self.curr_token.text);
            }
            self.labels_declared.push(self.curr_token.text.clone());
            let c = self.curr_token.text.clone().concat(":");
            self.emitter.emit_line(c);
            match self.match_token(TokenType::IDENT) {
                Ok(_) => {},
                Err(e) => {
                    return Err(e);
                },
            }
        } else if self.check_token(TokenType::GOTO) {
            match self.next_token() {
                Ok(_) => {},
                Err(e) => {
                    return Err(e);
                },
            }
            proof {
                lemma_seq_names_push(self.labels_gotoed@, self.curr_token.text);
            }
            self.labels_gotoed.push(self.curr_token.text.clone());
            let c = String::from_str("goto ").concat(self.curr_token.text.as_str()).concat(" ;");
            self.emitter.emit_line(c);
            match self.match_token(TokenType::IDENT) {
                Ok(_) => {},
                Err(e) => {
                    return Err(e);
                },
            }
        } else if self.check_token(TokenType::LET) {
            match self.next_token() {
                Ok(_) => {},
                Err(e) => {
                    return Err(e);
                },
            }
            if !contains_name(&self.symbols, &self.curr_token.text) {
                proof {
                    lemma_seq_names_push(self.symbols@, self.curr_token.text);
                }
                self.symbols.push(self.curr_token.text.clone());
                let c = String::from_str("float ").concat(self.curr_token.text.as_str()).concat(
                    ";",
                );
                self.emitter.header_line(c);
            }
            let c = self.curr_token.text.clone().concat("=");
            self.emitter.emit(c);
            match self.match_token(TokenType::IDENT) {
                Ok(_) => {},
                Err(e) => {
                    return Err(e);
                },
            }
            match self.match_token(TokenType::EQ) {
                Ok(_) => {},
                Err(e) => {
                    return Err(e);
                },
            }
            match self.expression() {
                Ok(_) => {},
                Err(e) => {
                    return Err(e);
                },
            }
            self.emitter.emit_line(String::from_str(";"));
        } else if self.check_token(TokenType::INPUT) {
            match self.next_token() {
                Ok(_) => {},
                Err(e) => {
                    return Err(e);
                },
            }
            if !contains_name(&self.symbols, &self.curr_token.text) {
                proof {
                    lemma_seq_names_push(self.symbols@, self.curr_token.text);
                }
                self.symbols.push(self.curr_token.text.clone());
                let c = String::from_str("float ").concat(self.curr_token.text.as_str()).concat(
                    ";",
                );
                self.emitter.header_line(c);
            }
            let c = String::from_str("if(0==scanf(\"%f\",&").concat(
                self.curr_token.text.as_str(),
            ).concat(")) {");
            self.emitter.emit_line(c);
            let c2 = self.curr_token.text.clone().concat(" = 0;");
            self.emitter.emit_line(c2);
            self.emitter.emit(String::from_str("scanf(\"%"));
            self.emitter.emit_line(String::from_str("*s\");"));
            self.emitter.emit_line(String::from_str("}"));
            match self.match_token(TokenType::IDENT) {
                Ok(_) => {},
                Err(e) => {
                    return Err(e);
                },
            }
        } else {
            return Err(
                CompileError::InvalidStatement {
                    text: self.curr_token.text.clone(),
                    kind: self.curr_token.token_type,
                },
            );
        }
        self.new_line()
    }

    /// program ::= {statement} — emits the prologue, skips leading blank
    /// lines, parses statements to the end marker, closes the program text,
    /// and only then reconciles every `GOTO` target against the declared
    /// labels, exactly as `sp_program` describes.
    #[verifier::loop_isolation(false)]
    #[verifier::spinoff_prover]
    #[verifier::rlimit(60)]
    pub fn program(&mut self) -> (r: Result<(), CompileError>)
        requires
            old(self).wf(),
        ensures
            final(self).wf(),
            final(self).src() == old(self).src(),
            match sp_program(old(self).src(), old(self).st()) {
                Ok(st1) => r is Ok && final(self).st() == st1,
                Err(e) => r matches Err(err) && err@ == e,
            },
    {
        let ghost src = old(self).src();
        self.emitter.header_line(String::from_str("#include<stdio.h>"));
        self.emitter.header_line(String::from_str("int main(void) {"));
        let ghost st_h = self.st();
        while self.curr_token.token_type == TokenType::NEWLINE
            invariant
                self.wf(),
                self.src() == src,
                sp_nl_tail(src, st_h) == sp_nl_tail(src, self.st()),
            decreases pmeasure(self.src(), self.st()),
        {
            let ghost st_iter = self.st();
            match self.next_token() {
                Ok(_) => {},
                Err(e) => {
                    return Err(e);
                },
            }
            proof {
                lemma_adv_progress(src, st_iter);
            }
        }
        let ghost st1 = self.st();
        while self.curr_token.token_type != TokenType::EOF
            invariant
                self.wf(),
                self.src() == src,
                sp_block(src, st1, TokenType::EOF) == sp_block(src, self.st(), TokenType::EOF),
            decreases pmeasure(self.src(), self.st()),
        {
            let ghost st_iter = self.st();
            match self.statement() {
                Ok(_) => {},
                Err(e) => {
                    return Err(e);
                },
            }
            proof {
                lemma_statement_progress(src, st_iter);
            }
        }
        self.emitter.emit_line(String::from_str("return 0;"));
        self.emitter.emit_line(String::from_str("}"));
        let ghost stw = self.st();
        let ghost gnames = stw.labels_gotoed;
        proof {
            assert(gnames.subrange(0, gnames.len() as int) =~= gnames);
        }
        let mut i: usize = 0;
        while i < self.labels_gotoed.len()
            invariant
                self.wf(),
                self.src() == src,
                self.st() == stw,
                i <= self.labels_gotoed@.len(),
                sp_find_missing(gnames, stw.labels_declared) == sp_find_missing(
                    gnames.subrange(i as int, gnames.len() as int),
                    stw.labels_declared,
                ),
            decreases self.labels_gotoed@.len() - i,
        {
            let ghost tail = gnames.subrange(i as int, gnames.len() as int);
            if !contains_name(&self.labels_declared, &self.labels_gotoed[i]) {
                return Err(
                    CompileError::UndeclaredLabel { name: self.labels_gotoed[i].clone() },
                );
            }
            proof {
                assert(tail.drop_first() =~= gnames.subrange(i + 1, gnames.len() as int));
            }
            i = i + 1;
        }
        Ok(())
    }

    /// The serialized output accumulated so far: header, then body.
    pub fn output(&self) -> (r: String)
        ensures
            r@ == self.st().header + self.st().code,
    {
        self.emitter.output()
    }
}

} // verus!
