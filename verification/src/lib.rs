//! A compiler from a small BASIC-like language to C source text.
//!
//! The pipeline is a character-level lexer, a recursive-descent parser with
//! two tokens of lookahead, and a text emitter with separate header and body
//! buffers. Parsing drives lexing (pull) and emission (push) in a single
//! left-to-right pass; any error aborts the whole compilation.

use vstd::prelude::*;

pub mod emitter;
pub mod lexer;
pub mod parser;
pub mod token;

use crate::emitter::Emitter;
use crate::lexer::Lexer;
use crate::parser::{sp_init, sp_program, start_pstate, Parser};
use crate::token::{CompileError, SpecError};

verus! {

/// What compiling one source text yields: the full C text on success (header
/// buffer then body buffer), or the first error met. The source gets the
/// sentinel line feed appended, the parser starts from a blank lookahead
/// window and empty buffers, and the whole pass runs as `sp_program` says.
pub open spec fn sp_compile(src: Seq<char>) -> Result<Seq<char>, SpecError> {
    let s = src + "\n"@;
    match sp_init(s, start_pstate(0, Seq::<char>::empty(), Seq::<char>::empty())) {
        Ok(st) => match sp_program(s, st) {
            Ok(st1) => Ok(st1.header + st1.code),
            Err(e) => Err(e),
        },
        Err(e) => Err(e),
    }
}

/// Compiles one source text to C text: lexes, parses and emits in one pass,
/// returning the serialized output or the first error, exactly as
/// `sp_compile` describes.
pub fn compile_source(source: String) -> (r: Result<String, CompileError>)
    ensures
        match sp_compile(source@) {
            Ok(text) => r matches Ok(out) && out@ == text,
            Err(e) => r matches Err(err) && err@ == e,
        },
{
    let lexer = Lexer::new(source);
    let emitter = Emitter::new(String::new());
    let mut parser = match Parser::new(lexer, emitter) {
        Ok(p) => p,
        Err(e) => {
            return Err(e);
        },
    };
    match parser.program() {
        Ok(_) => {},
        Err(e) => {
            return Err(e);
        },
    }
    Ok(parser.output())
}

/// Compilation is a function of the source text alone: equal sources compile
/// to equal results, so compiling the same valid source twice yields
/// byte-identical output (and the same error on invalid sources).
pub proof fn lemma_compile_deterministic(a: Seq<char>, b: Seq<char>)
    requires
        a == b,
    ensures
        sp_compile(a) == sp_compile(b),
{
}

} // verus!
