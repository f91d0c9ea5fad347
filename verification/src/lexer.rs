//! The lexer: scans raw source text and hands out one token per pull.
//!
//! `sp_get_token` is the mathematical description of one pull; the executable
//! `Lexer` is proved to follow it exactly. The cursor keeps one character of
//! lookahead and is capped at the end of the source, where every read yields
//! the `'\0'` sentinel.

use vstd::prelude::*;
use vstd::string::*;

use crate::token::{keyword_of, CompileError, SpecError, SpecToken, Token, TokenType};

verus! {

/// The character at position `p`, with `'\0'` standing for any position
/// outside the source.
pub open spec fn char_at(s: Seq<char>, p: int) -> char {
    if 0 <= p < s.len() {
        s[p]
    } else {
        '\0'
    }
}

/// Caps a cursor position at the end of the source.
pub open spec fn cap_pos(s: Seq<char>, p: int) -> int {
    if p <= s.len() {
        p
    } else {
        s.len() as int
    }
}

/// Whitespace that separates tokens: space, tab, carriage return.
pub open spec fn is_ws_char(c: char) -> bool {
    c == ' ' || c == '\t' || c == '\r'
}

/// A decimal digit.
pub open spec fn is_digit_char(c: char) -> bool {
    ('0' as u32) <= (c as u32) && (c as u32) <= ('9' as u32)
}

/// An ASCII letter.
pub open spec fn is_ascii_letter(c: char) -> bool {
    (('a' as u32) <= (c as u32) && (c as u32) <= ('z' as u32)) || (('A' as u32) <= (c as u32) && (c
        as u32) <= ('Z' as u32))
}

/// Whether `char::is_alphabetic` holds of a character beyond ASCII.
pub uninterp spec fn alphabetic_ext(c: char) -> bool;

/// Whether `char::is_alphanumeric` holds of a character beyond ASCII.
pub uninterp spec fn alphanumeric_ext(c: char) -> bool;

/// A letter, as the identifier rule understands it: in the ASCII range
/// exactly the letters; beyond it, whatever `char::is_alphabetic` accepts.
pub open spec fn is_alpha_char(c: char) -> bool {
    if (c as u32) < 128 {
        is_ascii_letter(c)
    } else {
        alphabetic_ext(c)
    }
}

/// A letter or digit, as the identifier rule understands it.
pub open spec fn is_alnum_char(c: char) -> bool {
    if (c as u32) < 128 {
        is_ascii_letter(c) || is_digit_char(c)
    } else {
        alphanumeric_ext(c)
    }
}

/// Relies on char::is_alphabetic: the result depends on the character alone,
/// and in the ASCII range exactly the letters are alphabetic.
#[verifier::external_body]
fn is_alphabetic_char(c: char) -> (r: bool)
    ensures
        r == is_alpha_char(c),
        (c as u32) >= 128 ==> r == alphabetic_ext(c),
{
    c.is_alphabetic()
}

/// Relies on char::is_alphanumeric: the result depends on the character
/// alone, and in the ASCII range exactly the letters and decimal digits are
/// alphanumeric.
#[verifier::external_body]
fn is_alphanumeric_char(c: char) -> (r: bool)
    ensures
        r == is_alnum_char(c),
        (c as u32) >= 128 ==> r == alphanumeric_ext(c),
{
    c.is_alphanumeric()
}

/// A decimal digit, decided by its code point.
fn is_digit_exec(c: char) -> (r: bool)
    ensures
        r == is_digit_char(c),
{
    let u = c as u32;
    ('0' as u32) <= u && u <= ('9' as u32)
}

/// A character the language forbids inside a string literal.
pub open spec fn is_illegal_string_char(c: char) -> bool {
    c == '\r' || c == '\n' || c == '\t' || c == '\\' || c == '%'
}

fn is_illegal_string_char_exec(c: char) -> (r: bool)
    ensures
        r == is_illegal_string_char(c),
{
    c == '\r' || c == '\n' || c == '\t' || c == '\\' || c == '%'
}

/// The first position at or after `p` that does not hold whitespace.
pub open spec fn skip_ws(s: Seq<char>, p: int) -> int
    decreases s.len() - p,
{
    if is_ws_char(char_at(s, p)) {
        skip_ws(s, p + 1)
    } else {
        p
    }
}

/// The first position at or after `p` that holds a line feed, capped at the
/// end of the source.
pub open spec fn skip_line(s: Seq<char>, p: int) -> int
    decreases s.len() - p,
{
    if 0 <= p < s.len() && s[p] != '\n' {
        skip_line(s, p + 1)
    } else {
        p
    }
}

/// Where the next token starts: whitespace skipped, then a `#` comment
/// skipped up to (not past) the line feed that ends it.
pub open spec fn token_start(s: Seq<char>, p: int) -> int {
    let q = skip_ws(s, p);
    if char_at(s, q) == '#' {
        skip_line(s, q)
    } else {
        q
    }
}

/// The first position at or after `p` that does not hold a digit.
pub open spec fn digits_end(s: Seq<char>, p: int) -> int
    decreases s.len() - p,
{
    if is_digit_char(char_at(s, p)) {
        digits_end(s, p + 1)
    } else {
        p
    }
}

/// The first position at or after `p` that does not hold an identifier
/// character.
pub open spec fn ident_end(s: Seq<char>, p: int) -> int
    decreases s.len() - p,
{
    if is_alnum_char(char_at(s, p)) {
        ident_end(s, p + 1)
    } else {
        p
    }
}

/// The position of the quote that closes a string literal whose contents
/// start at `p`, or `None` if a forbidden character or the end of the source
/// comes first.
pub open spec fn string_close(s: Seq<char>, p: int) -> Option<int>
    decreases s.len() - p,
{
    if !(0 <= p < s.len()) {
        None
    } else if s[p] == '"' {
        Some(p)
    } else if is_illegal_string_char(s[p]) {
        None
    } else {
        string_close(s, p + 1)
    }
}

/// One pull of the lexer on source `s` with the cursor at `p`: the token and
/// the cursor position after it, or the lexical error that aborts the
/// compilation.
pub open spec fn sp_get_token(s: Seq<char>, p: int) -> Result<(SpecToken, int), SpecError> {
    let q = token_start(s, p);
    let c = char_at(s, q);
    if c == '+' {
        Ok((SpecToken { kind: TokenType::PLUS, text: "+"@ }, q + 1))
    } else if c == '-' {
        Ok((SpecToken { kind: TokenType::MINUS, text: "-"@ }, q + 1))
    } else if c == '*' {
        Ok((SpecToken { kind: TokenType::ASTERISK, text: "*"@ }, q + 1))
    } else if c == '/' {
        Ok((SpecToken { kind: TokenType::SLASH, text: "/"@ }, q + 1))
    } else if c == '\n' {
        Ok((SpecToken { kind: TokenType::NEWLINE, text: "\n"@ }, q + 1))
    } else if c == '\0' {
        Ok((SpecToken { kind: TokenType::EOF, text: "\0"@ }, cap_pos(s, q + 1)))
    } else if c == '=' {
        if char_at(s, q + 1) == '=' {
            Ok((SpecToken { kind: TokenType::EQEQ, text: "=="@ }, q + 2))
        } else {
            Ok((SpecToken { kind: TokenType::EQ, text: "="@ }, q + 1))
        }
    } else if c == '>' {
        if char_at(s, q + 1) == '=' {
            Ok((SpecToken { kind: TokenType::GTEQ, text: ">="@ }, q + 2))
        } else {
            Ok((SpecToken { kind: TokenType::GT, text: ">"@ }, q + 1))
        }
    } else if c == '<' {
        if char_at(s, q + 1) == '=' {
            Ok((SpecToken { kind: TokenType::LTEQ, text: "<="@ }, q + 2))
        } else {
            Ok((SpecToken { kind: TokenType::LT, text: "<"@ }, q + 1))
        }
    } else if c == '!' {
        if char_at(s, q + 1) == '=' {
            Ok((SpecToken { kind: TokenType::NOTEQ, text: "!="@ }, q + 2))
        } else {
            Err(SpecError::BangWithoutEqual)
        }
    } else if c == '"' {
        match string_close(s, q + 1) {
            Some(e) => Ok((SpecToken { kind: TokenType::STRING, text: s.subrange(q + 1, e) }, e + 1)),
            None => Err(SpecError::IllegalCharInString),
        }
    } else if is_digit_char(c) {
        let d = digits_end(s, q + 1);
        if char_at(s, d) == '.' {
            if is_digit_char(char_at(s, d + 1)) {
                let e = digits_end(s, d + 1);
                Ok((SpecToken { kind: TokenType::NUMBER, text: s.subrange(q, e) }, e))
            } else {
                Err(SpecError::IllegalCharInNumber)
            }
        } else {
            Ok((SpecToken { kind: TokenType::NUMBER, text: s.subrange(q, d) }, d))
        }
    } else if is_alpha_char(c) {
        let e = ident_end(s, q + 1);
        let text = s.subrange(q, e);
        match keyword_of(text) {
            Some(k) => Ok((SpecToken { kind: k, text }, e)),
            None => Ok((SpecToken { kind: TokenType::IDENT, text }, e)),
        }
    } else {
        Err(SpecError::UnknownCharacter)
    }
}

proof fn lemma_skip_ws_bounds(s: Seq<char>, p: int)
    requires
        0 <= p <= s.len(),
    ensures
        p <= skip_ws(s, p) <= s.len(),
    decreases s.len() - p,
{
    if is_ws_char(char_at(s, p)) {
        lemma_skip_ws_bounds(s, p + 1);
    }
}

proof fn lemma_skip_line_bounds(s: Seq<char>, p: int)
    requires
        0 <= p <= s.len(),
    ensures
        p <= skip_line(s, p) <= s.len(),
    decreases s.len() - p,
{
    if 0 <= p < s.len() && s[p] != '\n' {
        lemma_skip_line_bounds(s, p + 1);
    }
}

proof fn lemma_token_start_bounds(s: Seq<char>, p: int)
    requires
        0 <= p <= s.len(),
    ensures
        p <= token_start(s, p) <= s.len(),
{
    lemma_skip_ws_bounds(s, p);
    lemma_skip_line_bounds(s, skip_ws(s, p));
}

proof fn lemma_digits_end_bounds(s: Seq<char>, p: int)
    requires
        0 <= p <= s.len(),
    ensures
        p <= digits_end(s, p) <= s.len(),
    decreases s.len() - p,
{
    if is_digit_char(char_at(s, p)) {
        lemma_digits_end_bounds(s, p + 1);
    }
}

proof fn lemma_ident_end_bounds(s: Seq<char>, p: int)
    requires
        0 <= p <= s.len(),
    ensures
        p <= ident_end(s, p) <= s.len(),
    decreases s.len() - p,
{
    if is_alnum_char(char_at(s, p)) {
        lemma_ident_end_bounds(s, p + 1);
    }
}

proof fn lemma_string_close_bounds(s: Seq<char>, p: int)
    requires
        0 <= p,
    ensures
        match string_close(s, p) {
            Some(e) => p <= e < s.len() && s[e] == '"',
            None => true,
        },
    decreases s.len() - p,
{
    if 0 <= p < s.len() && s[p] != '"' && !is_illegal_string_char(s[p]) {
        lemma_string_close_bounds(s, p + 1);
    }
}

/// A successful pull leaves the cursor inside the source and never moves it
/// backwards; it stands still only when it hands out the end marker at the
/// very end of the source.
pub proof fn lemma_get_token_bounds(s: Seq<char>, p: int)
    requires
        0 <= p <= s.len(),
    ensures
        match sp_get_token(s, p) {
            Ok(tp) => p <= tp.1 <= s.len() && (tp.0.kind != TokenType::EOF ==> p < tp.1),
            Err(_) => true,
        },
{
    lemma_token_start_bounds(s, p);
    let q = token_start(s, p);
    let c = char_at(s, q);
    if c == '"' {
        lemma_string_close_bounds(s, q + 1);
    } else if is_digit_char(c) {
        lemma_digits_end_bounds(s, q + 1);
        let d = digits_end(s, q + 1);
        if char_at(s, d) == '.' && is_digit_char(char_at(s, d + 1)) {
            lemma_digits_end_bounds(s, d + 1);
        }
    } else if is_alpha_char(c) {
        lemma_ident_end_bounds(s, q + 1);
    }
}

/// Every position in `[p, e)` holds a digit.
pub open spec fn all_digits(t: Seq<char>, p: int, e: int) -> bool {
    forall|i: int| p <= i < e ==> is_digit_char(t[i])
}

/// A valid decimal numeral: a nonempty run of digits, optionally with one
/// embedded decimal point that has digits on both sides.
pub open spec fn is_valid_numeral(t: Seq<char>) -> bool {
    t.len() > 0 && (all_digits(t, 0, t.len() as int) || (exists|k: int|
        1 <= k < t.len() - 1 && t[k] == '.' && all_digits(t, 0, k) && all_digits(
            t,
            k + 1,
            t.len() as int,
        )))
}

proof fn lemma_digits_end_run(s: Seq<char>, p: int, e: int)
    requires
        0 <= p <= e <= s.len(),
        forall|i: int| p <= i < e ==> is_digit_char(s[i]),
        !is_digit_char(char_at(s, e)),
    ensures
        digits_end(s, p) == e,
    decreases e - p,
{
    if p < e {
        lemma_digits_end_run(s, p + 1, e);
    }
}

proof fn lemma_ident_end_run(s: Seq<char>, p: int, e: int)
    requires
        0 <= p <= e <= s.len(),
        forall|i: int| p <= i < e ==> is_alnum_char(s[i]),
        !is_alnum_char(char_at(s, e)),
    ensures
        ident_end(s, p) == e,
    decreases e - p,
{
    if p < e {
        lemma_ident_end_run(s, p + 1, e);
    }
}

/// For every valid decimal numeral, a pull at the front of a source holding
/// the numeral followed by the sentinel line feed yields exactly one NUMBER
/// token spanning the full numeral.
pub proof fn lemma_numeral_lexes_as_one_token(t: Seq<char>)
    requires
        is_valid_numeral(t),
    ensures
        sp_get_token(t + "\n"@, 0) == Ok::<(SpecToken, int), SpecError>(
            (SpecToken { kind: TokenType::NUMBER, text: t }, t.len() as int),
        ),
{
    reveal_strlit("\n");
    let s = t + "\n"@;
    let n = t.len() as int;
    assert(char_at(s, n) == '\n');
    assert(forall|i: int| 0 <= i < n ==> s[i] == t[i]);
    if all_digits(t, 0, n) {
        lemma_digits_end_run(s, 1, n);
        assert(s.subrange(0, n) =~= t);
    } else {
        let k = choose|k: int|
            1 <= k < t.len() - 1 && t[k] == '.' && all_digits(t, 0, k) && all_digits(t, k + 1, n);
        lemma_digits_end_run(s, 1, k);
        lemma_digits_end_run(s, k + 1, n);
        assert(s.subrange(0, n) =~= t);
    }
}

/// A numeral with a trailing decimal point and no digit after it is rejected
/// with the number-literal error.
pub proof fn lemma_trailing_dot_rejected(t: Seq<char>)
    requires
        t.len() >= 2,
        all_digits(t, 0, t.len() - 1),
        t[t.len() - 1] == '.',
    ensures
        sp_get_token(t + "\n"@, 0) == Err::<(SpecToken, int), SpecError>(
            SpecError::IllegalCharInNumber,
        ),
{
    reveal_strlit("\n");
    let s = t + "\n"@;
    let n = t.len() as int;
    assert(char_at(s, n) == '\n');
    assert(forall|i: int| 0 <= i < n ==> s[i] == t[i]);
    lemma_digits_end_run(s, 1, n - 1);
}

/// Every letter-starting run of letters and digits lexes to one token
/// spanning the run, classified by the keyword table alone: a reserved word
/// to its own keyword kind, anything else to a plain identifier.
pub proof fn lemma_word_classification(t: Seq<char>)
    requires
        t.len() > 0,
        is_alpha_char(t[0]),
        forall|i: int| 1 <= i < t.len() ==> is_alnum_char(t[i]),
    ensures
        sp_get_token(t + "\n"@, 0) == Ok::<(SpecToken, int), SpecError>(
            (
                SpecToken {
                    kind: match keyword_of(t) {
                        Some(k) => k,
                        None => TokenType::IDENT,
                    },
                    text: t,
                },
                t.len() as int,
            ),
        ),
{
    reveal_strlit("\n");
    let s = t + "\n"@;
    let n = t.len() as int;
    assert(char_at(s, n) == '\n');
    assert(forall|i: int| 0 <= i < n ==> s[i] == t[i]);
    assert(forall|i: int| 1 <= i < n ==> is_alnum_char(s[i]));
    lemma_ident_end_run(s, 1, n);
    assert(s.subrange(0, n) =~= t);
}

/// The lexer's cursor over one source text. The source always carries a
/// sentinel line feed appended at construction, so every program ends in a
/// newline token before the end marker.
#[derive(Debug)]
pub struct Lexer {
    source: String,
    src_len: usize,
    curr_char: char,
    curr_pos: usize,
}

impl Lexer {
    /// The source text being scanned.
    pub closed spec fn src(&self) -> Seq<char> {
        self.source@
    }

    /// The cursor position: the index of the current character.
    pub closed spec fn pos(&self) -> int {
        self.curr_pos as int
    }

    /// The cursor is inside the source (or one past it) and the current
    /// character is the one the position points at.
    pub closed spec fn wf(&self) -> bool {
        &&& self.curr_pos <= self.src_len
        &&& self.src_len == self.source@.len()
        &&& self.curr_char == char_at(self.source@, self.curr_pos as int)
    }

    /// A well-formed cursor sits between the start and the end of the source.
    pub proof fn lemma_wf_pos_bounds(&self)
        requires
            self.wf(),
        ensures
            0 <= self.pos() <= self.src().len(),
    {
    }

    /// Builds a lexer over `content` with the sentinel line feed appended and
    /// the cursor on the first character.
    pub fn new(content: String) -> (r: Self)
        ensures
            r.wf(),
            r.src() == content@ + "\n"@,
            r.pos() == 0,
    {
        proof {
            reveal_strlit("\n");
        }
        let source = content.concat("\n");
        let src_len = source.as_str().unicode_len();
        let curr_char = source.as_str().get_char(0);
        Lexer { source, src_len, curr_char, curr_pos: 0 }
    }

    /// Moves the cursor one character forward, stopping at the end of the
    /// source, where the current character reads as `'\0'`.
    pub fn next_char(&mut self)
        requires
            old(self).wf(),
        ensures
            final(self).wf(),
            final(self).src() == old(self).src(),
            final(self).pos() == cap_pos(old(self).src(), old(self).pos() + 1),
    {
        if self.curr_pos < self.src_len {
            self.curr_pos = self.curr_pos + 1;
        }
        self.curr_char = if self.curr_pos < self.src_len {
            self.source.as_str().get_char(self.curr_pos)
        } else {
            '\0'
        };
    }

    /// The character one past the cursor, `'\0'` at or beyond the end.
    pub fn peek(&self) -> (r: char)
        requires
            self.wf(),
        ensures
            r == char_at(self.src(), self.pos() + 1),
    {
        if self.curr_pos < self.src_len {
            let np = self.curr_pos + 1;
            if np < self.src_len {
                self.source.as_str().get_char(np)
            } else {
                '\0'
            }
        } else {
            '\0'
        }
    }

    /// Moves the cursor past whitespace.
    fn skip_whitespaces(&mut self)
        requires
            old(self).wf(),
        ensures
            final(self).wf(),
            final(self).src() == old(self).src(),
            final(self).pos() == skip_ws(old(self).src(), old(self).pos()),
    {
        while self.curr_char == ' ' || self.curr_char == '\t' || self.curr_char == '\r'
            invariant
                self.wf(),
                self.src() == old(self).src(),
                skip_ws(self.src(), self.pos()) == skip_ws(old(self).src(), old(self).pos()),
            decreases self.src().len() - self.pos(),
        {
            self.next_char();
        }
    }

    /// Moves the cursor past a `#` comment, up to (not past) the line feed
    /// that ends it.
    fn skip_comments(&mut self)
        requires
            old(self).wf(),
        ensures
            final(self).wf(),
            final(self).src() == old(self).src(),
            final(self).pos() == if char_at(old(self).src(), old(self).pos()) == '#' {
                skip_line(old(self).src(), old(self).pos())
            } else {
                old(self).pos()
            },
    {
        if self.curr_char == '#' {
            while self.curr_char != '\n' && self.curr_pos < self.src_len
                invariant
                    self.wf(),
                    self.src() == old(self).src(),
                    skip_line(self.src(), self.pos()) == skip_line(
                        old(self).src(),
                        old(self).pos(),
                    ),
                decreases self.src().len() - self.pos(),
            {
                self.next_char();
            }
        }
    }

    /// Maps the literal text of an identifier-shaped token to its keyword
    /// kind, or `None` if it is a plain identifier.
    pub fn check_keyword(token_text: String) -> (r: Option<TokenType>)
        ensures
            r == keyword_of(token_text@),
    {
        if token_text == String::from_str("LABEL") {
            Some(TokenType::LABEL)
        } else if token_text == String::from_str("GOTO") {
            Some(TokenType::GOTO)
        } else if token_text == String::from_str("PRINT") {
            Some(TokenType::PRINT)
        } else if token_text == String::from_str("INPUT") {
            Some(TokenType::INPUT)
        } else if token_text == String::from_str("LET") {
            Some(TokenType::LET)
        } else if token_text == String::from_str("IF") {
            Some(TokenType::IF)
        } else if token_text == String::from_str("THEN") {
            Some(TokenType::THEN)
        } else if token_text == String::from_str("ENDIF") {
            Some(TokenType::ENDIF)
        } else if token_text == String::from_str("WHILE") {
            Some(TokenType::WHILE)
        } else if token_text == String::from_str("REPEAT") {
            Some(TokenType::REPEAT)
        } else if token_text == String::from_str("ENDWHILE") {
            Some(TokenType::ENDWHILE)
        } else {
            None
        }
    }

    /// One pull: skips whitespace and a comment, scans one token, and leaves
    /// the cursor one past it, exactly as `sp_get_token` describes.
    #[verifier::loop_isolation(false)]
    pub fn get_token(&mut self) -> (r: Result<Token, CompileError>)
        requires
            old(self).wf(),
        ensures
            final(self).wf(),
            final(self).src() == old(self).src(),
            0 <= final(self).pos() <= final(self).src().len(),
            match sp_get_token(old(self).src(), old(self).pos()) {
                Ok(tp) => r matches Ok(t) && t@ == tp.0 && final(self).pos() == tp.1,
                Err(e) => r matches Err(err) && err@ == e,
            },
    {
        self.skip_whitespaces();
        self.skip_comments();
        if self.curr_char == '+' {
            let t = Token::new(String::from_str("+"), TokenType::PLUS);
            self.next_char();
            Ok(t)
        } else if self.curr_char == '-' {
            let t = Token::new(String::from_str("-"), TokenType::MINUS);
            self.next_char();
            Ok(t)
        } else if self.curr_char == '*' {
            let t = Token::new(String::from_str("*"), TokenType::ASTERISK);
            self.next_char();
            Ok(t)
        } else if self.curr_char == '/' {
            let t = Token::new(String::from_str("/"), TokenType::SLASH);
            self.next_char();
            Ok(t)
        } else if self.curr_char == '\n' {
            let t = Token::new(String::from_str("\n"), TokenType::NEWLINE);
            self.next_char();
            Ok(t)
        } else if self.curr_char == '\0' {
            let t = Token::new(String::from_str("\0"), TokenType::EOF);
            self.next_char();
            Ok(t)
        } else if self.curr_char == '=' {
            if self.peek() == '=' {
                self.next_char();
                let t = Token::new(String::from_str("=="), TokenType::EQEQ);
                self.next_char();
                Ok(t)
            } else {
                let t = Token::new(String::from_str("="), TokenType::EQ);
                self.next_char();
                Ok(t)
            }
        } else if self.curr_char == '>' {
            if self.peek() == '=' {
                self.next_char();
                let t = Token::new(String::from_str(">="), TokenType::GTEQ);
                self.next_char();
                Ok(t)
            } else {
                let t = Token::new(String::from_str(">"), TokenType::GT);
                self.next_char();
                Ok(t)
            }
        } else if self.curr_char == '<' {
            if self.peek() == '=' {
                self.next_char();
                let t = Token::new(String::from_str("<="), TokenType::LTEQ);
                self.next_char();
                Ok(t)
            } else {
                let t = Token::new(String::from_str("<"), TokenType::LT);
                self.next_char();
                Ok(t)
            }
        } else if self.curr_char == '!' {
            if self.peek() == '=' {
                self.next_char();
                let t = Token::new(String::from_str("!="), TokenType::NOTEQ);
                self.next_char();
                Ok(t)
            } else {
                Err(CompileError::BangWithoutEqual)
            }
        } else if self.curr_char == '"' {
            self.next_char();
            let ghost contents_start = self.pos();
            let start_pos = self.curr_pos;
            while self.curr_char != '"'
                invariant
                    self.wf(),
                    self.src() == old(self).src(),
                    start_pos as int == contents_start,
                    contents_start <= self.pos(),
                    string_close(self.src(), contents_start) == string_close(
                        self.src(),
                        self.pos(),
                    ),
                decreases self.src().len() - self.pos(),
            {
                if is_illegal_string_char_exec(self.curr_char) {
                    return Err(CompileError::IllegalCharInString);
                }
                if self.curr_pos >= self.src_len {
                    return Err(CompileError::IllegalCharInString);
                }
                self.next_char();
            }
            let text = self.source.as_str().substring_char(start_pos, self.curr_pos).to_owned();
            let t = Token::new(text, TokenType::STRING);
            self.next_char();
            Ok(t)
        } else if is_digit_exec(self.curr_char) {
            let ghost number_start = self.pos();
            let start_pos = self.curr_pos;
            while is_digit_exec(self.peek())
                invariant
                    self.wf(),
                    self.src() == old(self).src(),
                    start_pos as int == number_start,
                    number_start <= self.pos() < self.src().len(),
                    digits_end(self.src(), number_start + 1) == digits_end(
                        self.src(),
                        self.pos() + 1,
                    ),
                decreases self.src().len() - self.pos(),
            {
                self.next_char();
            }
            if self.peek() == '.' {
                self.next_char();
                let ghost dot_pos = self.pos();
                if !is_digit_exec(self.peek()) {
                    return Err(CompileError::IllegalCharInNumber);
                }
                while is_digit_exec(self.peek())
                    invariant
                        self.wf(),
                        self.src() == old(self).src(),
                        start_pos as int == number_start,
                        number_start <= self.pos() < self.src().len(),
                        dot_pos <= self.pos(),
                        digits_end(self.src(), dot_pos + 1) == digits_end(
                            self.src(),
                            self.pos() + 1,
                        ),
                    decreases self.src().len() - self.pos(),
                {
                    self.next_char();
                }
            }
            let text = self.source.as_str().substring_char(start_pos, self.curr_pos + 1).to_owned();
            let t = Token::new(text, TokenType::NUMBER);
            self.next_char();
            Ok(t)
        } else if is_alphabetic_char(self.curr_char) {
            let ghost word_start = self.pos();
            let start_pos = self.curr_pos;
            while is_alphanumeric_char(self.peek())
                invariant
                    self.wf(),
                    self.src() == old(self).src(),
                    start_pos as int == word_start,
                    word_start <= self.pos() < self.src().len(),
                    ident_end(self.src(), word_start + 1) == ident_end(self.src(), self.pos() + 1),
                decreases self.src().len() - self.pos(),
            {
                self.next_char();
            }
            let text = self.source.as_str().substring_char(start_pos, self.curr_pos + 1).to_owned();
            let t = match Self::check_keyword(text.clone()) {
                None => Token::new(text, TokenType::IDENT),
                Some(k) => Token::new(text, k),
            };
            self.next_char();
            Ok(t)
        } else {
            Err(CompileError::UnknownCharacter)
        }
    }
}

} // verus!
