//! Token kinds, tokens, and the compilation error type.

#![allow(non_camel_case_types)]

use vstd::prelude::*;

verus! {

/// The closed set of token kinds: structural kinds, reserved words, operators.
#[derive(Clone, Copy, PartialEq, Eq, Structural, Debug)]
pub enum TokenType {
    EOF,
    NEWLINE,
    NUMBER,
    IDENT,
    STRING,
    // keywords
    LABEL,
    GOTO,
    PRINT,
    INPUT,
    LET,
    IF,
    THEN,
    ENDIF,
    WHILE,
    REPEAT,
    ENDWHILE,
    // operators
    EQ,
    PLUS,
    MINUS,
    ASTERISK,
    SLASH,
    EQEQ,
    NOTEQ,
    LT,
    LTEQ,
    GT,
    GTEQ,
}

/// The numeric code of each token kind. Structural kinds sit below 100,
/// reserved words in the 100 band, operators in the 200 band.
pub open spec fn spec_value(t: TokenType) -> int {
    match t {
        TokenType::EOF => -1,
        TokenType::NEWLINE => 0,
        TokenType::NUMBER => 1,
        TokenType::IDENT => 2,
        TokenType::STRING => 3,
        TokenType::LABEL => 101,
        TokenType::GOTO => 102,
        TokenType::PRINT => 103,
        TokenType::INPUT => 104,
        TokenType::LET => 105,
        TokenType::IF => 106,
        TokenType::THEN => 107,
        TokenType::ENDIF => 108,
        TokenType::WHILE => 109,
        TokenType::REPEAT => 110,
        TokenType::ENDWHILE => 111,
        TokenType::EQ => 201,
        TokenType::PLUS => 202,
        TokenType::MINUS => 203,
        TokenType::ASTERISK => 204,
        TokenType::SLASH => 205,
        TokenType::EQEQ => 206,
        TokenType::NOTEQ => 207,
        TokenType::LT => 208,
        TokenType::LTEQ => 209,
        TokenType::GT => 210,
        TokenType::GTEQ => 211,
    }
}

impl TokenType {
    /// The numeric code of this token kind.
    pub fn value(&self) -> (r: i32)
        ensures
            r as int == spec_value(*self),
    {
        match *self {
            TokenType::EOF => -1,
            TokenType::NEWLINE => 0,
            TokenType::NUMBER => 1,
            TokenType::IDENT => 2,
            TokenType::STRING => 3,
            TokenType::LABEL => 101,
            TokenType::GOTO => 102,
            TokenType::PRINT => 103,
            TokenType::INPUT => 104,
            TokenType::LET => 105,
            TokenType::IF => 106,
            TokenType::THEN => 107,
            TokenType::ENDIF => 108,
            TokenType::WHILE => 109,
            TokenType::REPEAT => 110,
            TokenType::ENDWHILE => 111,
            TokenType::EQ => 201,
            TokenType::PLUS => 202,
            TokenType::MINUS => 203,
            TokenType::ASTERISK => 204,
            TokenType::SLASH => 205,
            TokenType::EQEQ => 206,
            TokenType::NOTEQ => 207,
            TokenType::LT => 208,
            TokenType::LTEQ => 209,
            TokenType::GT => 210,
            TokenType::GTEQ => 211,
        }
    }
}

/// Maps the literal text of a reserved word to its keyword kind.
///
/// This is the single source of truth for what counts as a keyword: an
/// identifier-shaped token whose text appears here lexes to that keyword
/// kind, and any other identifier-shaped token lexes to `IDENT`.
pub open spec fn keyword_of(text: Seq<char>) -> Option<TokenType> {
    if text == "LABEL"@ {
        Some(TokenType::LABEL)
    } else if text == "GOTO"@ {
        Some(TokenType::GOTO)
    } else if text == "PRINT"@ {
        Some(TokenType::PRINT)
    } else if text == "INPUT"@ {
        Some(TokenType::INPUT)
    } else if text == "LET"@ {
        Some(TokenType::LET)
    } else if text == "IF"@ {
        Some(TokenType::IF)
    } else if text == "THEN"@ {
        Some(TokenType::THEN)
    } else if text == "ENDIF"@ {
        Some(TokenType::ENDIF)
    } else if text == "WHILE"@ {
        Some(TokenType::WHILE)
    } else if text == "REPEAT"@ {
        Some(TokenType::REPEAT)
    } else if text == "ENDWHILE"@ {
        Some(TokenType::ENDWHILE)
    } else {
        None
    }
}

/// The mathematical value of a token: its kind and its literal text.
#[verifier::ext_equal]
pub struct SpecToken {
    pub kind: TokenType,
    pub text: Seq<char>,
}

/// A classified lexical unit: literal text paired with a token kind.
#[derive(Debug)]
pub struct Token {
    pub text: String,
    pub token_type: TokenType,
}

impl Clone for Token {
    /// A copy with the same text and kind.
    fn clone(&self) -> (r: Self)
        ensures
            r@ == self@,
    {
        Token { text: self.text.clone(), token_type: self.token_type }
    }
}

impl View for Token {
    type V = SpecToken;

    open spec fn view(&self) -> SpecToken {
        SpecToken { kind: self.token_type, text: self.text@ }
    }
}

impl Token {
    /// Pairs literal text with a token kind.
    pub fn new(token_text: String, token_kind: TokenType) -> (r: Self)
        ensures
            r@.kind == token_kind,
            r@.text == token_text@,
    {
        Token { text: token_text, token_type: token_kind }
    }
}

impl Default for Token {
    /// The token the parser's lookahead starts from: empty text, end marker.
    fn default() -> (r: Self)
        ensures
            r@.kind == TokenType::EOF,
            r@.text == Seq::<char>::empty(),
    {
        Token { text: String::new(), token_type: TokenType::EOF }
    }
}

/// The mathematical value of a compilation error, over character sequences.
pub enum SpecError {
    /// A lone `!` not followed by `=`.
    BangWithoutEqual,
    /// A forbidden character (or the end of input) inside a string literal.
    IllegalCharInString,
    /// A decimal point not followed by a digit.
    IllegalCharInNumber,
    /// A character no token can start with.
    UnknownCharacter,
    /// The grammar required one token kind and found another.
    ExpectedToken { expected: TokenType, got: TokenType },
    /// The token cannot start a statement.
    InvalidStatement { text: Seq<char>, kind: TokenType },
    /// A condition held no comparison operator.
    ExpectedComparisonOperator { text: Seq<char> },
    /// An identifier was read before any `LET` or `INPUT` declared it.
    UndeclaredVariable { name: Seq<char> },
    /// A label was declared a second time.
    DuplicateLabel { name: Seq<char> },
    /// A `GOTO` target that no `LABEL` declares anywhere in the program.
    UndeclaredLabel { name: Seq<char> },
    /// A token where a number or identifier was required.
    UnexpectedToken { text: Seq<char> },
}

/// Why a compilation aborted. Lexical: `BangWithoutEqual`,
/// `IllegalCharInString`, `IllegalCharInNumber`, `UnknownCharacter`.
/// Syntactic: `ExpectedToken`, `InvalidStatement`,
/// `ExpectedComparisonOperator`, `UnexpectedToken`. Semantic:
/// `UndeclaredVariable`, `DuplicateLabel`, `UndeclaredLabel`.
#[derive(Debug)]
pub enum CompileError {
    BangWithoutEqual,
    IllegalCharInString,
    IllegalCharInNumber,
    UnknownCharacter,
    ExpectedToken { expected: TokenType, got: TokenType },
    InvalidStatement { text: String, kind: TokenType },
    ExpectedComparisonOperator { text: String },
    UndeclaredVariable { name: String },
    DuplicateLabel { name: String },
    UndeclaredLabel { name: String },
    UnexpectedToken { text: String },
}

impl View for CompileError {
    type V = SpecError;

    open spec fn view(&self) -> SpecError {
        match self {
            CompileError::BangWithoutEqual => SpecError::BangWithoutEqual,
            CompileError::IllegalCharInString => SpecError::IllegalCharInString,
            CompileError::IllegalCharInNumber => SpecError::IllegalCharInNumber,
            CompileError::UnknownCharacter => SpecError::UnknownCharacter,
            CompileError::ExpectedToken { expected, got } => SpecError::ExpectedToken {
                expected: *expected,
                got: *got,
            },
            CompileError::InvalidStatement { text, kind } => SpecError::InvalidStatement {
                text: text@,
                kind: *kind,
            },
            CompileError::ExpectedComparisonOperator { text } => {
                SpecError::ExpectedComparisonOperator { text: text@ }
            },
            CompileError::UndeclaredVariable { name } => SpecError::UndeclaredVariable {
                name: name@,
            },
            CompileError::DuplicateLabel { name } => SpecError::DuplicateLabel { name: name@ },
            CompileError::UndeclaredLabel { name } => SpecError::UndeclaredLabel { name: name@ },
            CompileError::UnexpectedToken { text } => SpecError::UnexpectedToken { text: text@ },
        }
    }
}

} // verus!
