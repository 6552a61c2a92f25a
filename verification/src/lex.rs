//! The lexer: turns a byte stream into a stream of tokens, with one token of
//! pushback. The mathematical model of tokenization is the spec function
//! `next_token`, which maps a position in the input to the token starting
//! there and the position just past it.

use vstd::prelude::*;

use crate::error::Error;
use crate::error::LexError;
use crate::error::SpecError;

verus! {

/// A token of the source language. Text payloads hold the raw input bytes.
#[derive(Debug, Clone, PartialEq)]
pub enum Token {
    /// keyword `def`
    Def,
    /// keyword `extern`
    Extern,
    /// char `(`
    LeftBracket,
    /// char `)`
    RightBracket,
    /// char `[`
    LeftSquare,
    /// char `]`
    RightSquare,
    /// char `<`
    LeftAngle,
    /// char `>`
    RightAngle,
    /// char `{`
    LeftCurly,
    /// char `}`
    RightCurly,
    /// char `=`
    Assign,
    /// char `+`
    Add,
    /// char `-`
    Minus,
    /// char `*`
    Mul,
    /// char `/`
    Div,
    /// symbol `==`
    Equal,
    /// char `!`
    Exclamation,
    /// symbol `!=`
    NotEq,
    /// symbol `<=`
    LessEq,
    /// symbol `>=`
    GreaEq,
    /// char `,`
    Comma,
    /// function or variable identifier
    Identifier(Vec<u8>),
    /// numeric literal, kept as its source text
    Number(Vec<u8>),
    /// string literal contents
    String(Vec<u8>),
    EOF,
}

/// Mathematical model of a token: the same shape with byte sequences
/// in place of byte vectors.
pub enum SpecToken {
    Def,
    Extern,
    LeftBracket,
    RightBracket,
    LeftSquare,
    RightSquare,
    LeftAngle,
    RightAngle,
    LeftCurly,
    RightCurly,
    Assign,
    Add,
    Minus,
    Mul,
    Div,
    Equal,
    Exclamation,
    NotEq,
    LessEq,
    GreaEq,
    Comma,
    Identifier(Seq<u8>),
    Number(Seq<u8>),
    String(Seq<u8>),
    EOF,
}

impl View for Token {
    type V = SpecToken;

    open spec fn view(&self) -> SpecToken {
        match self {
            Token::Def => SpecToken::Def,
            Token::Extern => SpecToken::Extern,
            Token::LeftBracket => SpecToken::LeftBracket,
            Token::RightBracket => SpecToken::RightBracket,
            Token::LeftSquare => SpecToken::LeftSquare,
            Token::RightSquare => SpecToken::RightSquare,
            Token::LeftAngle => SpecToken::LeftAngle,
            Token::RightAngle => SpecToken::RightAngle,
            Token::LeftCurly => SpecToken::LeftCurly,
            Token::RightCurly => SpecToken::RightCurly,
            Token::Assign => SpecToken::Assign,
            Token::Add => SpecToken::Add,
            Token::Minus => SpecToken::Minus,
            Token::Mul => SpecToken::Mul,
            Token::Div => SpecToken::Div,
            Token::Equal => SpecToken::Equal,
            Token::Exclamation => SpecToken::Exclamation,
            Token::NotEq => SpecToken::NotEq,
            Token::LessEq => SpecToken::LessEq,
            Token::GreaEq => SpecToken::GreaEq,
            Token::Comma => SpecToken::Comma,
            Token::Identifier(s) => SpecToken::Identifier(s@),
            Token::Number(s) => SpecToken::Number(s@),
            Token::String(s) => SpecToken::String(s@),
            Token::EOF => SpecToken::EOF,
        }
    }
}

/// Binding strength of a token when it appears as a binary operator:
/// comparisons bind weakest, then additive, then multiplicative;
/// anything else is not an operator.
pub open spec fn spec_precedence(t: SpecToken) -> int {
    match t {
        SpecToken::LeftAngle | SpecToken::RightAngle => 1,
        SpecToken::Add | SpecToken::Minus => 5,
        SpecToken::Mul | SpecToken::Div => 10,
        _ => -1,
    }
}

impl Token {
    /// Operator precedence of this token; `-1` when it is not an operator.
    pub fn precedence(&self) -> (p: i8)
        ensures
            p as int == spec_precedence(self@),
    {
        Token::get_tok_prec(self)
    }

    /// Operator precedence of a token; `-1` when it is not an operator.
    pub fn get_tok_prec(token: &Self) -> (p: i8)
        ensures
            p as int == spec_precedence(token@),
    {
        match token {
            Token::LeftAngle | Token::RightAngle => 1,
            Token::Add | Token::Minus => 5,
            Token::Mul | Token::Div => 10,
            _ => -1,
        }
    }
}

/// A whitespace byte. Bytes are classified as the Latin-1 characters
/// they decode to, so beside the ASCII blanks this holds the next-line
/// control 0x85 and the no-break space 0xA0.
pub open spec fn is_ws_byte(b: u8) -> bool {
    b == 32 || (9 <= b && b <= 13) || b == 0x85 || b == 0xA0
}

/// An ASCII decimal digit.
pub open spec fn is_digit_byte(b: u8) -> bool {
    '0' as u8 <= b && b <= '9' as u8
}

/// A byte that may continue an identifier: one whose Latin-1 character
/// is alphanumeric, or `_`. Beside the ASCII letters and digits that
/// admits the ordinal signs 0xAA and 0xBA, the micro sign 0xB5, the
/// superscripts 0xB2, 0xB3 and 0xB9, the fractions 0xBC to 0xBE, and the
/// accented letters 0xC0 to 0xFF apart from the multiplication and
/// division signs 0xD7 and 0xF7.
pub open spec fn is_ident_byte(b: u8) -> bool {
    is_digit_byte(b) || ('a' as u8 <= b && b <= 'z' as u8) || ('A' as u8 <= b && b <= 'Z' as u8)
        || b == '_' as u8 || b == 0xAA || b == 0xB5 || b == 0xBA || b == 0xB2 || b == 0xB3
        || b == 0xB9 || (0xBC <= b && b <= 0xBE) || (0xC0 <= b && b != 0xD7 && b != 0xF7)
}

/// A byte that may continue a numeric literal: digits, `.` and `_`.
pub open spec fn is_num_byte(b: u8) -> bool {
    is_digit_byte(b) || b == '.' as u8 || b == '_' as u8
}

/// The index just past the run of whitespace starting at `i`.
pub open spec fn ws_end(s: Seq<u8>, i: int) -> int
    decreases s.len() - i when 0 <= i <= s.len()
{
    if i >= s.len() {
        i
    } else if is_ws_byte(s[i]) {
        ws_end(s, i + 1)
    } else {
        i
    }
}

/// The index just past the first newline at or after `i`, or the end of
/// the input when no newline follows.
pub open spec fn line_end(s: Seq<u8>, i: int) -> int
    decreases s.len() - i when 0 <= i <= s.len()
{
    if i >= s.len() {
        i
    } else if s[i] == '\n' as u8 {
        i + 1
    } else {
        line_end(s, i + 1)
    }
}

/// The first position at or after `i` that holds token content: whitespace
/// runs are skipped, and `#` skips the rest of its line and continues.
pub open spec fn content_start(s: Seq<u8>, i: int) -> int
    decreases s.len() - i when 0 <= i <= s.len()
{
    let j = ws_end(s, i);
    if j < s.len() && s[j] == '#' as u8 {
        let k = line_end(s, j + 1);
        if i < k <= s.len() {
            content_start(s, k)
        } else {
            j
        }
    } else {
        j
    }
}

/// The index just past the run of identifier bytes starting at `i`.
pub open spec fn ident_end(s: Seq<u8>, i: int) -> int
    decreases s.len() - i when 0 <= i <= s.len()
{
    if i >= s.len() {
        i
    } else if is_ident_byte(s[i]) {
        ident_end(s, i + 1)
    } else {
        i
    }
}

/// The index just past the run of numeric-literal bytes starting at `i`.
pub open spec fn num_end(s: Seq<u8>, i: int) -> int
    decreases s.len() - i when 0 <= i <= s.len()
{
    if i >= s.len() {
        i
    } else if is_num_byte(s[i]) {
        num_end(s, i + 1)
    } else {
        i
    }
}

/// The index of the first byte at or after `i` that closes a string opened
/// with quote `q` or interrupts it with a newline; the end of the input
/// when neither occurs.
pub open spec fn string_close(s: Seq<u8>, i: int, q: u8) -> int
    decreases s.len() - i when 0 <= i <= s.len()
{
    if i >= s.len() {
        i
    } else if s[i] == q || s[i] == '\n' as u8 {
        i
    } else {
        string_close(s, i + 1, q)
    }
}

/// How many bytes of `t` are exactly `b`.
pub open spec fn count_byte(t: Seq<u8>, b: u8) -> int
    decreases t.len(),
{
    if t.len() == 0 {
        0
    } else {
        count_byte(t.drop_last(), b) + if t.last() == b {
            1int
        } else {
            0int
        }
    }
}

/// How many bytes of `t` are decimal digits.
pub open spec fn count_digits(t: Seq<u8>) -> int
    decreases t.len(),
{
    if t.len() == 0 {
        0
    } else {
        count_digits(t.drop_last()) + if is_digit_byte(t.last()) {
            1int
        } else {
            0int
        }
    }
}

/// Whether a scanned numeric literal parses as a 64-bit float. The scanner
/// only admits digits, `.` and `_`; over that alphabet the float grammar
/// accepts exactly the texts with no `_`, at most one `.` and at least one
/// digit (a magnitude too large merely rounds to infinity, it does not fail).
pub open spec fn is_valid_number(t: Seq<u8>) -> bool {
    &&& t.len() > 0
    &&& count_byte(t, '_' as u8) == 0
    &&& count_byte(t, '.' as u8) <= 1
    &&& count_digits(t) >= 1
}

/// The spelling of the keyword `def`.
pub open spec fn kw_def() -> Seq<u8> {
    seq!['d' as u8, 'e' as u8, 'f' as u8]
}

/// The spelling of the keyword `extern`.
pub open spec fn kw_extern() -> Seq<u8> {
    seq!['e' as u8, 'x' as u8, 't' as u8, 'e' as u8, 'r' as u8, 'n' as u8]
}

/// The token an identifier spelling stands for: the two keywords map to
/// their own tokens, everything else names an identifier.
pub open spec fn ident_token(t: Seq<u8>) -> SpecToken {
    if t == kw_def() {
        SpecToken::Def
    } else if t == kw_extern() {
        SpecToken::Extern
    } else {
        SpecToken::Identifier(t)
    }
}

/// The mathematical model of the tokenizer: the next token starting at or
/// after position `i` of `s`, and the position just past it; or the failure
/// and the position where scanning stopped. Tokenization is in priority
/// order: whitespace and `#` comments are skipped; quotes open string
/// literals; single-character punctuation; two-character lookahead for
/// `=` `<` `>`; a digit or `.` starts a number; anything else starts an
/// identifier; and the end of the input yields `EOF` forever.
pub open spec fn next_token(s: Seq<u8>, i: int) -> Result<(SpecToken, int), (LexError, int)> {
    let c = content_start(s, i);
    if c >= s.len() {
        Ok((SpecToken::EOF, c))
    } else {
        let b = s[c];
        if b == '\'' as u8 || b == '"' as u8 {
            let e = string_close(s, c + 1, b);
            if e < s.len() && s[e] == '\n' as u8 {
                Err((LexError::UnclosedString, e + 1))
            } else if e < s.len() {
                Ok((SpecToken::String(s.subrange(c + 1, e)), e + 1))
            } else {
                Ok((SpecToken::String(s.subrange(c + 1, e)), e))
            }
        } else if b == '+' as u8 {
            Ok((SpecToken::Add, c + 1))
        } else if b == '-' as u8 {
            Ok((SpecToken::Minus, c + 1))
        } else if b == '*' as u8 {
            Ok((SpecToken::Mul, c + 1))
        } else if b == '/' as u8 {
            Ok((SpecToken::Div, c + 1))
        } else if b == '(' as u8 {
            Ok((SpecToken::LeftBracket, c + 1))
        } else if b == ')' as u8 {
            Ok((SpecToken::RightBracket, c + 1))
        } else if b == '[' as u8 {
            Ok((SpecToken::LeftSquare, c + 1))
        } else if b == ']' as u8 {
            Ok((SpecToken::RightSquare, c + 1))
        } else if b == '{' as u8 {
            Ok((SpecToken::LeftCurly, c + 1))
        } else if b == '}' as u8 {
            Ok((SpecToken::RightCurly, c + 1))
        } else if b == ',' as u8 {
            Ok((SpecToken::Comma, c + 1))
        } else if b == '=' as u8 {
            if c + 1 < s.len() && s[c + 1] == '=' as u8 {
                Ok((SpecToken::Equal, c + 2))
            } else {
                Ok((SpecToken::Assign, c + 1))
            }
        } else if b == '>' as u8 {
            if c + 1 < s.len() && s[c + 1] == '=' as u8 {
                Ok((SpecToken::GreaEq, c + 2))
            } else {
                Ok((SpecToken::RightAngle, c + 1))
            }
        } else if b == '<' as u8 {
            if c + 1 < s.len() && s[c + 1] == '=' as u8 {
                Ok((SpecToken::LessEq, c + 2))
            } else {
                Ok((SpecToken::LeftAngle, c + 1))
            }
        } else if b == '.' as u8 || is_digit_byte(b) {
            let e = num_end(s, c + 1);
            let t = s.subrange(c, e);
            if is_valid_number(t) {
                Ok((SpecToken::Number(t), e))
            } else {
                Err((LexError::ParseFloatError, e))
            }
        } else {
            let e = ident_end(s, c + 1);
            Ok((ident_token(s.subrange(c, e)), e))
        }
    }
}

/// Bounds of the whitespace scan: it never moves backwards and never
/// leaves the input, everything it skipped is whitespace, and it stops at
/// the first byte that is not.
pub proof fn lemma_ws_end(s: Seq<u8>, i: int)
    requires
        0 <= i <= s.len(),
    ensures
        i <= ws_end(s, i) <= s.len(),
        forall|k: int| i <= k < ws_end(s, i) ==> is_ws_byte(s[k]),
        ws_end(s, i) < s.len() ==> !is_ws_byte(s[ws_end(s, i)]),
    decreases s.len() - i,
{
    if i < s.len() && is_ws_byte(s[i]) {
        lemma_ws_end(s, i + 1);
    }
}

/// Bounds of the comment scan: it stays within the input, moves forward,
/// and everything before its stopping point on the line is not a newline.
pub proof fn lemma_line_end(s: Seq<u8>, i: int)
    requires
        0 <= i <= s.len(),
    ensures
        i <= line_end(s, i) <= s.len(),
        forall|k: int| i <= k < line_end(s, i) - 1 ==> s[k] != '\n' as u8,
        line_end(s, i) < s.len() || (line_end(s, i) == s.len() && line_end(s, i) >= i),
    decreases s.len() - i,
{
    if i < s.len() && s[i] != '\n' as u8 {
        lemma_line_end(s, i + 1);
    }
}

/// Bounds of skipping to content: the position moves forward, stays within
/// the input, and stops on a byte that is neither whitespace nor `#`.
pub proof fn lemma_content_start(s: Seq<u8>, i: int)
    requires
        0 <= i <= s.len(),
    ensures
        i <= content_start(s, i) <= s.len(),
        content_start(s, i) < s.len() ==> !is_ws_byte(s[content_start(s, i)]) && s[content_start(
            s,
            i,
        )] != '#' as u8,
    decreases s.len() - i,
{
    lemma_ws_end(s, i);
    let j = ws_end(s, i);
    if j < s.len() && s[j] == '#' as u8 {
        lemma_line_end(s, j + 1);
        let k = line_end(s, j + 1);
        if i < k <= s.len() {
            lemma_content_start(s, k);
        }
    }
}

/// Bounds of the identifier scan.
pub proof fn lemma_ident_end(s: Seq<u8>, i: int)
    requires
        0 <= i <= s.len(),
    ensures
        i <= ident_end(s, i) <= s.len(),
        forall|k: int| i <= k < ident_end(s, i) ==> is_ident_byte(s[k]),
        ident_end(s, i) < s.len() ==> !is_ident_byte(s[ident_end(s, i)]),
    decreases s.len() - i,
{
    if i < s.len() && is_ident_byte(s[i]) {
        lemma_ident_end(s, i + 1);
    }
}

/// Bounds of the number scan.
pub proof fn lemma_num_end(s: Seq<u8>, i: int)
    requires
        0 <= i <= s.len(),
    ensures
        i <= num_end(s, i) <= s.len(),
        forall|k: int| i <= k < num_end(s, i) ==> is_num_byte(s[k]),
        num_end(s, i) < s.len() ==> !is_num_byte(s[num_end(s, i)]),
    decreases s.len() - i,
{
    if i < s.len() && is_num_byte(s[i]) {
        lemma_num_end(s, i + 1);
    }
}

/// Bounds of the string scan: it stops at the first closing quote or
/// newline, or at the end of the input.
pub proof fn lemma_string_close(s: Seq<u8>, i: int, q: u8)
    requires
        0 <= i <= s.len(),
    ensures
        i <= string_close(s, i, q) <= s.len(),
        forall|k: int|
            i <= k < string_close(s, i, q) ==> s[k] != q && s[k] != '\n' as u8,
        string_close(s, i, q) < s.len() ==> (s[string_close(s, i, q)] == q || s[string_close(
            s,
            i,
            q,
        )] == '\n' as u8),
    decreases s.len() - i,
{
    if i < s.len() && s[i] != q && s[i] != '\n' as u8 {
        lemma_string_close(s, i + 1, q);
    }
}

/// The state of a lexer: its input, the position of the next unread byte,
/// and the memoized lookahead token, if any.
pub struct SpecLexer {
    pub input: Seq<u8>,
    pub pos: int,
    pub ahead: Option<SpecToken>,
}

/// What `Lexer::next` does to a lexer state, and what it returns: a
/// memoized token is handed out and cleared; otherwise the next token is
/// read from the input.
pub open spec fn spec_lex_next(l: SpecLexer) -> (SpecLexer, Result<SpecToken, LexError>) {
    match l.ahead {
        Some(t) => (SpecLexer { ahead: None, ..l }, Ok(t)),
        None => match next_token(l.input, l.pos) {
            Ok((t, j)) => (SpecLexer { pos: j, ahead: None, ..l }, Ok(t)),
            Err((e, j)) => (SpecLexer { pos: j, ahead: None, ..l }, Err(e)),
        },
    }
}

/// What `Lexer::peek` does to a lexer state, and what it returns: a
/// memoized token other than `EOF` is handed out unchanged; otherwise the
/// next token is read and memoized.
pub open spec fn spec_lex_peek(l: SpecLexer) -> (SpecLexer, Result<SpecToken, LexError>) {
    if l.ahead matches Some(t) && !(t is EOF) {
        (l, Ok(l.ahead->0))
    } else {
        match next_token(l.input, l.pos) {
            Ok((t, j)) => (SpecLexer { pos: j, ahead: Some(t), ..l }, Ok(t)),
            Err((e, j)) => (SpecLexer { pos: j, ..l }, Err(e)),
        }
    }
}

/// Progress of the tokenizer: a token never starts before `i` and never
/// extends past the input; a token other than `EOF` consumes at least one
/// byte; `EOF` is produced exactly at the end of the input; and a failure
/// position stays within the input.
pub proof fn lemma_next_token(s: Seq<u8>, i: int)
    requires
        0 <= i <= s.len(),
    ensures
        match next_token(s, i) {
            Ok((t, j)) => {
                &&& i <= j <= s.len()
                &&& (!(t is EOF) ==> j > i)
                &&& (t is EOF ==> j == s.len())
            },
            Err((e, j)) => i < j <= s.len(),
        },
{
    lemma_content_start(s, i);
    let c = content_start(s, i);
    if c < s.len() {
        let b = s[c];
        if b == '\'' as u8 || b == '"' as u8 {
            lemma_string_close(s, c + 1, b);
        } else if b == '.' as u8 || is_digit_byte(b) {
            lemma_num_end(s, c + 1);
        } else {
            lemma_ident_end(s, c + 1);
        }
    }
}

/// Whether a byte is whitespace.
fn ws_byte(b: u8) -> (r: bool)
    ensures
        r == is_ws_byte(b),
{
    b == 32 || (9 <= b && b <= 13) || b == 0x85 || b == 0xA0
}

/// Whether a byte may continue an identifier.
fn ident_byte(b: u8) -> (r: bool)
    ensures
        r == is_ident_byte(b),
{
    ('0' as u8 <= b && b <= '9' as u8) || ('a' as u8 <= b && b <= 'z' as u8) || ('A' as u8 <= b
        && b <= 'Z' as u8) || b == '_' as u8 || b == 0xAA || b == 0xB5 || b == 0xBA || b == 0xB2
        || b == 0xB3 || b == 0xB9 || (0xBC <= b && b <= 0xBE) || (0xC0 <= b && b != 0xD7 && b
        != 0xF7)
}

/// The lexer: owns the input bytes, a cursor into them, and at most one
/// token of memoized lookahead.
pub struct Lexer {
    input: Vec<u8>,
    pos: usize,
    ahead: Option<Token>,
}

impl View for Lexer {
    type V = SpecLexer;

    closed spec fn view(&self) -> SpecLexer {
        SpecLexer {
            input: self.input@,
            pos: self.pos as int,
            ahead: match self.ahead {
                Some(t) => Some(t@),
                None => None,
            },
        }
    }
}

impl Lexer {
    /// Well-formedness: the cursor stays within the input, and a memoized
    /// `EOF` is only ever held at the end of the input.
    pub closed spec fn wf(&self) -> bool {
        &&& self.pos <= self.input.len()
        &&& (self@.ahead matches Some(t) && t is EOF ==> self.pos == self.input.len())
    }

    /// Makes a lexer over the given input bytes, positioned at the start.
    pub fn new(input: Vec<u8>) -> (r: Lexer)
        ensures
            r.wf(),
            r@.input == input@,
            r@.pos == 0,
            r@.ahead is None,
    {
        Self { input, pos: 0, ahead: None }
    }

    /// Consumes and returns the next token: the memoized one if present,
    /// else the next token of the input.
    pub fn next(&mut self) -> (r: Result<Token, Error>)
        requires
            old(self).wf(),
        ensures
            final(self).wf(),
            ({
                let (l2, res) = spec_lex_next(old(self)@);
                &&& final(self)@ == l2
                &&& match r {
                    Ok(tok) => res matches Ok(t) && tok@ == t,
                    Err(er) => res matches Err(e) && er@ == SpecError::LexError(e),
                }
            }),
    {
        match self.ahead.take() {
            Some(t) => Ok(t),
            None => self.do_next(),
        }
    }

    /// Returns the next token without consuming it, memoizing it until the
    /// next `next`. A memoized `EOF` is re-read, which yields `EOF` again.
    pub fn peek(&mut self) -> (r: Result<&Token, Error>)
        requires
            old(self).wf(),
        ensures
            final(self).wf(),
            ({
                let (l2, res) = spec_lex_peek(old(self)@);
                &&& final(self)@ == l2
                &&& match r {
                    Ok(tok) => res matches Ok(t) && tok@ == t,
                    Err(er) => res matches Err(e) && er@ == SpecError::LexError(e),
                }
            }),
    {
        let relex = match &self.ahead {
            None => true,
            Some(t) => matches!(t, Token::EOF),
        };
        if relex {
            match self.do_next() {
                Ok(t) => {
                    self.ahead = Some(t);
                },
                Err(e) => {
                    return Err(e);
                },
            }
        }
        match &self.ahead {
            Some(ahead) => Ok(ahead),
            None => {
                proof {
                    assert(false);
                }
                Err(Error::LexError(LexError::IoError))
            },
        }
    }

    /// Reads the next token from the input at the cursor, leaving the
    /// memoized lookahead alone.
    fn do_next(&mut self) -> (r: Result<Token, Error>)
        requires
            old(self).pos <= old(self).input.len(),
        ensures
            final(self).pos <= final(self).input.len(),
            final(self)@.input == old(self)@.input,
            final(self)@.ahead == old(self)@.ahead,
            match next_token(old(self)@.input, old(self)@.pos) {
                Ok((t, j)) => r matches Ok(tok) && tok@ == t && final(self)@.pos == j,
                Err((e, j)) => r matches Err(er) && er@ == SpecError::LexError(e)
                    && final(self)@.pos == j,
            },
        decreases old(self).input.len() - old(self).pos,
    {
        let ghost s = self.input@;
        let ghost i0 = self.pos as int;
        proof {
            lemma_ws_end(s, i0);
        }
        self.skip_whitespace();
        let ghost w = self.pos as int;
        match self.next_char() {
            None => {
                // the whitespace run reached the end of the input
                Ok(Token::EOF)
            },
            Some(ch) => {
                if ch == '\'' as u8 || ch == '"' as u8 {
                    self.read_string(ch)
                } else if ch == '+' as u8 {
                    Ok(Token::Add)
                } else if ch == '-' as u8 {
                    Ok(Token::Minus)
                } else if ch == '*' as u8 {
                    Ok(Token::Mul)
                } else if ch == '/' as u8 {
                    Ok(Token::Div)
                } else if ch == '(' as u8 {
                    Ok(Token::LeftBracket)
                } else if ch == ')' as u8 {
                    Ok(Token::RightBracket)
                } else if ch == '[' as u8 {
                    Ok(Token::LeftSquare)
                } else if ch == ']' as u8 {
                    Ok(Token::RightSquare)
                } else if ch == '{' as u8 {
                    Ok(Token::LeftCurly)
                } else if ch == '}' as u8 {
                    Ok(Token::RightCurly)
                } else if ch == ',' as u8 {
                    Ok(Token::Comma)
                } else if ch == '=' as u8 {
                    Ok(self.read_ahead('=' as u8, Token::Equal, Token::Assign))
                } else if ch == '>' as u8 {
                    Ok(self.read_ahead('=' as u8, Token::GreaEq, Token::RightAngle))
                } else if ch == '<' as u8 {
                    Ok(self.read_ahead('=' as u8, Token::LessEq, Token::LeftAngle))
                } else if ch == '#' as u8 {
                    proof {
                        lemma_line_end(s, w + 1);
                    }
                    self.skip_comment();
                    proof {
                        assert(content_start(s, i0) == content_start(s, self.pos as int));
                        assert(next_token(s, i0) == next_token(s, self.pos as int));
                    }
                    self.do_next()
                } else if ch == '.' as u8 || ('0' as u8 <= ch && ch <= '9' as u8) {
                    let r = self.read_number(ch);
                    proof {
                        lemma_num_end(s, w + 1);
                        assert(seq![ch].add(s.subrange(w + 1, num_end(s, w + 1))) =~= s.subrange(
                            w,
                            num_end(s, w + 1),
                        ));
                    }
                    r
                } else {
                    let r = self.read_identifier(ch);
                    proof {
                        lemma_ident_end(s, w + 1);
                        assert(seq![ch].add(s.subrange(w + 1, ident_end(s, w + 1))) =~= s.subrange(
                            w,
                            ident_end(s, w + 1),
                        ));
                    }
                    Ok(r)
                }
            },
        }
    }

    /// Reads the rest of an identifier whose first byte was `first`, and
    /// maps the spelling to its keyword token or to `Identifier`.
    fn read_identifier(&mut self, first: u8) -> (r: Token)
        requires
            old(self).pos <= old(self).input.len(),
        ensures
            final(self)@.input == old(self)@.input,
            final(self)@.ahead == old(self)@.ahead,
            final(self)@.pos == ident_end(old(self)@.input, old(self)@.pos),
            r@ == ident_token(
                seq![first].add(
                    old(self)@.input.subrange(
                        old(self)@.pos,
                        ident_end(old(self)@.input, old(self)@.pos),
                    ),
                ),
            ),
    {
        let ghost s = self.input@;
        let ghost i0 = self.pos as int;
        proof {
            lemma_ident_end(s, i0);
        }
        let mut identifier: Vec<u8> = Vec::new();
        identifier.push(first);
        loop
            invariant
                s == old(self)@.input,
                i0 == old(self)@.pos,
                0 <= i0 <= s.len(),
                self.pos <= self.input.len(),
                self@.input == s,
                self@.ahead == old(self)@.ahead,
                i0 <= self.pos as int <= s.len(),
                ident_end(s, i0) == ident_end(s, self.pos as int),
                identifier@ =~= seq![first].add(s.subrange(i0, self.pos as int)),
            ensures
                self@.input == s,
                self@.ahead == old(self)@.ahead,
                self.pos as int == ident_end(s, i0),
                identifier@ =~= seq![first].add(s.subrange(i0, ident_end(s, i0))),
            decreases s.len() - self.pos,
        {
            let ghost p = self.pos as int;
            match self.next_char() {
                Some(ch) => {
                    if ident_byte(ch) {
                        identifier.push(ch);
                        proof {
                            assert(s.subrange(i0, p + 1) =~= s.subrange(i0, p).push(s[p]));
                        }
                    } else {
                        self.back_seek();
                        break ;
                    }
                },
                None => {
                    break ;
                },
            }
        }
        if Self::spelled_def(&identifier) {
            Token::Def
        } else if Self::spelled_extern(&identifier) {
            Token::Extern
        } else {
            Token::Identifier(identifier)
        }
    }

    /// Whether a spelling is exactly the keyword `def`.
    fn spelled_def(v: &Vec<u8>) -> (r: bool)
        ensures
            r == (v@ == kw_def()),
    {
        let r = v.len() == 3 && v[0] == 'd' as u8 && v[1] == 'e' as u8 && v[2] == 'f' as u8;
        proof {
            if r {
                assert(v@ =~= kw_def());
            }
        }
        r
    }

    /// Whether a spelling is exactly the keyword `extern`.
    fn spelled_extern(v: &Vec<u8>) -> (r: bool)
        ensures
            r == (v@ == kw_extern()),
    {
        let r = v.len() == 6 && v[0] == 'e' as u8 && v[1] == 'x' as u8 && v[2] == 't' as u8 && v[3]
            == 'e' as u8 && v[4] == 'r' as u8 && v[5] == 'n' as u8;
        proof {
            if r {
                assert(v@ =~= kw_extern());
            }
        }
        r
    }

    /// Reads a string literal opened by `quote`, through its closing quote;
    /// a newline before the close fails with `UnclosedString`, and the end
    /// of the input closes the string silently.
    fn read_string(&mut self, quote: u8) -> (r: Result<Token, Error>)
        requires
            old(self).pos <= old(self).input.len(),
            quote != '\n' as u8,
        ensures
            final(self).pos <= final(self).input.len(),
            final(self)@.input == old(self)@.input,
            final(self)@.ahead == old(self)@.ahead,
            ({
                let s = old(self)@.input;
                let i = old(self)@.pos;
                let e = string_close(s, i, quote);
                if e < s.len() && s[e] == '\n' as u8 {
                    &&& r matches Err(er) && er@ == SpecError::LexError(LexError::UnclosedString)
                    &&& final(self)@.pos == e + 1
                } else if e < s.len() {
                    &&& r matches Ok(t) && t@ == SpecToken::String(s.subrange(i, e))
                    &&& final(self)@.pos == e + 1
                } else {
                    &&& r matches Ok(t) && t@ == SpecToken::String(s.subrange(i, e))
                    &&& final(self)@.pos == e
                }
            }),
    {
        let ghost s = self.input@;
        let ghost i0 = self.pos as int;
        let ghost a0 = self@.ahead;
        proof {
            lemma_string_close(s, i0, quote);
        }
        let mut str: Vec<u8> = Vec::new();
        loop
            invariant_except_break
                s == old(self)@.input,
                i0 == old(self)@.pos,
                0 <= i0 <= s.len(),
                a0 == old(self)@.ahead,
                self.pos <= self.input.len(),
                self@.input == s,
                self@.ahead == a0,
                i0 <= self.pos as int <= s.len(),
                string_close(s, i0, quote) == string_close(s, self.pos as int, quote),
                str@ =~= s.subrange(i0, self.pos as int),
            ensures
                self@.input == s,
                self@.ahead == a0,
                ({
                    let e = string_close(s, i0, quote);
                    (e < s.len() && s[e] == quote && self.pos as int == e + 1 && str@ =~= s.subrange(
                        i0,
                        e,
                    )) || (e == s.len() && self.pos as int == e && str@ =~= s.subrange(i0, e))
                }),
            decreases s.len() - self.pos,
        {
            let ghost p = self.pos as int;
            match self.next_char() {
                Some(ch) => {
                    if ch == quote {
                        break ;
                    } else if ch == '\n' as u8 {
                        return Err(Error::LexError(LexError::UnclosedString));
                    } else {
                        str.push(ch);
                        proof {
                            assert(s.subrange(i0, p + 1) =~= s.subrange(i0, p).push(s[p]));
                        }
                    }
                },
                None => {
                    break ;
                },
            }
        }
        Ok(Token::String(str))
    }

    /// Looks one byte ahead: if it is `ahead`, consumes it and yields
    /// `long`; otherwise the cursor is left in place and `short` is
    /// yielded. At the end of the input there is nothing to push back,
    /// so `short` is yielded with the cursor unmoved.
    fn read_ahead(&mut self, ahead: u8, long: Token, short: Token) -> (r: Token)
        requires
            old(self).pos <= old(self).input.len(),
        ensures
            final(self).pos <= final(self).input.len(),
            final(self)@.input == old(self)@.input,
            final(self)@.ahead == old(self)@.ahead,
            if old(self)@.pos < old(self)@.input.len() && old(self)@.input[old(self)@.pos]
                == ahead {
                final(self)@.pos == old(self)@.pos + 1 && r == long
            } else {
                final(self)@.pos == old(self)@.pos && r == short
            },
    {
        match self.next_char() {
            Some(ch) => {
                if ch == ahead {
                    long
                } else {
                    self.back_seek();
                    short
                }
            },
            None => short,
        }
    }

    /// Reads the rest of a numeric literal whose first byte was `first`:
    /// digits, `.` and `_` are consumed greedily, and the spelling must
    /// parse as a 64-bit float, else the token fails with
    /// `ParseFloatError`.
    fn read_number(&mut self, first: u8) -> (r: Result<Token, Error>)
        requires
            old(self).pos <= old(self).input.len(),
        ensures
            final(self).pos <= final(self).input.len(),
            final(self)@.input == old(self)@.input,
            final(self)@.ahead == old(self)@.ahead,
            final(self)@.pos == num_end(old(self)@.input, old(self)@.pos),
            ({
                let t = seq![first].add(
                    old(self)@.input.subrange(
                        old(self)@.pos,
                        num_end(old(self)@.input, old(self)@.pos),
                    ),
                );
                if is_valid_number(t) {
                    r matches Ok(tok) && tok@ == SpecToken::Number(t)
                } else {
                    r matches Err(er) && er@ == SpecError::LexError(LexError::ParseFloatError)
                }
            }),
    {
        let ghost s = self.input@;
        let ghost i0 = self.pos as int;
        proof {
            lemma_num_end(s, i0);
        }
        let mut num_str: Vec<u8> = Vec::new();
        num_str.push(first);
        loop
            invariant
                s == old(self)@.input,
                i0 == old(self)@.pos,
                0 <= i0 <= s.len(),
                self.pos <= self.input.len(),
                self@.input == s,
                self@.ahead == old(self)@.ahead,
                i0 <= self.pos as int <= s.len(),
                num_end(s, i0) == num_end(s, self.pos as int),
                num_str@ =~= seq![first].add(s.subrange(i0, self.pos as int)),
            ensures
                self@.input == s,
                self@.ahead == old(self)@.ahead,
                self.pos as int == num_end(s, i0),
                num_str@ =~= seq![first].add(s.subrange(i0, num_end(s, i0))),
            decreases s.len() - self.pos,
        {
            let ghost p = self.pos as int;
            match self.next_char() {
                Some(ch) => {
                    if ch == '.' as u8 || ch == '_' as u8 || ('0' as u8 <= ch && ch
                        <= '9' as u8) {
                        num_str.push(ch);
                        proof {
                            assert(s.subrange(i0, p + 1) =~= s.subrange(i0, p).push(s[p]));
                        }
                    } else {
                        self.back_seek();
                        break ;
                    }
                },
                None => {
                    break ;
                },
            }
        }
        if Self::parses_as_float(&num_str) {
            Ok(Token::Number(num_str))
        } else {
            Err(Error::LexError(LexError::ParseFloatError))
        }
    }

    /// Whether a scanned spelling parses as a 64-bit float: over the
    /// scanner's alphabet that means no `_`, at most one `.`, and at
    /// least one digit.
    fn parses_as_float(v: &Vec<u8>) -> (r: bool)
        ensures
            r == is_valid_number(v@),
    {
        let mut dots: usize = 0;
        let mut digits: usize = 0;
        let mut underscores: usize = 0;
        let mut i: usize = 0;
        while i < v.len()
            invariant
                i <= v.len(),
                dots <= i,
                digits <= i,
                underscores <= i,
                dots == count_byte(v@.subrange(0, i as int), '.' as u8),
                digits == count_digits(v@.subrange(0, i as int)),
                underscores == count_byte(v@.subrange(0, i as int), '_' as u8),
            decreases v.len() - i,
        {
            let ghost pre = v@.subrange(0, i as int);
            let b = v[i];
            if b == '.' as u8 {
                dots = dots + 1;
            }
            if b == '_' as u8 {
                underscores = underscores + 1;
            }
            if '0' as u8 <= b && b <= '9' as u8 {
                digits = digits + 1;
            }
            proof {
                assert(v@.subrange(0, i as int + 1).drop_last() =~= pre);
            }
            i = i + 1;
        }
        proof {
            assert(v@.subrange(0, v@.len() as int) =~= v@);
        }
        v.len() > 0 && underscores == 0 && dots <= 1 && digits >= 1
    }

    /// Skips the rest of a comment line, through its newline if one comes.
    fn skip_comment(&mut self)
        requires
            old(self).pos <= old(self).input.len(),
        ensures
            final(self)@.input == old(self)@.input,
            final(self)@.ahead == old(self)@.ahead,
            final(self)@.pos == line_end(old(self)@.input, old(self)@.pos),
    {
        let ghost s = self.input@;
        let ghost i0 = self.pos as int;
        proof {
            lemma_line_end(s, i0);
        }
        loop
            invariant_except_break
                line_end(s, i0) == line_end(s, self.pos as int),
            invariant
                s == old(self)@.input,
                i0 == old(self)@.pos,
                0 <= i0 <= s.len(),
                self.pos <= self.input.len(),
                self@.input == s,
                self@.ahead == old(self)@.ahead,
                i0 <= self.pos as int <= s.len(),
            ensures
                self@.input == s,
                self@.ahead == old(self)@.ahead,
                self.pos as int == line_end(s, i0),
            decreases s.len() - self.pos,
        {
            let ghost p = self.pos as int;
            match self.next_char() {
                Some(ch) => {
                    if ch == '\n' as u8 {
                        break ;
                    }
                },
                None => {
                    break ;
                },
            }
        }
    }

    /// Skips the run of whitespace at the cursor.
    fn skip_whitespace(&mut self)
        requires
            old(self).pos <= old(self).input.len(),
        ensures
            final(self)@.input == old(self)@.input,
            final(self)@.ahead == old(self)@.ahead,
            final(self)@.pos == ws_end(old(self)@.input, old(self)@.pos),
    {
        let ghost s = self.input@;
        let ghost i0 = self.pos as int;
        proof {
            lemma_ws_end(s, i0);
        }
        loop
            invariant
                s == old(self)@.input,
                i0 == old(self)@.pos,
                0 <= i0 <= s.len(),
                self.pos <= self.input.len(),
                self@.input == s,
                self@.ahead == old(self)@.ahead,
                i0 <= self.pos as int <= s.len(),
                ws_end(s, i0) == ws_end(s, self.pos as int),
            ensures
                self@.input == s,
                self@.ahead == old(self)@.ahead,
                self.pos as int == ws_end(s, i0),
            decreases s.len() - self.pos,
        {
            match self.next_char() {
                Some(ch) => {
                    if ws_byte(ch) {
                        // keep skipping
                    } else {
                        self.back_seek();
                        break ;
                    }
                },
                None => {
                    break ;
                },
            }
        }
    }

    /// Reads one byte and advances the cursor; `None` at the end of the
    /// input, with the cursor unmoved.
    fn next_char(&mut self) -> (r: Option<u8>)
        requires
            old(self).pos <= old(self).input.len(),
        ensures
            final(self)@.input == old(self)@.input,
            final(self)@.ahead == old(self)@.ahead,
            if old(self)@.pos < old(self)@.input.len() {
                r == Some(old(self)@.input[old(self)@.pos]) && final(self)@.pos == old(self)@.pos
                    + 1
            } else {
                r is None && final(self)@.pos == old(self)@.pos
            },
    {
        if self.pos < self.input.len() {
            let b = self.input[self.pos];
            self.pos = self.pos + 1;
            Some(b)
        } else {
            None
        }
    }

    /// Moves the cursor back one byte, pushing the byte just read back
    /// onto the stream.
    fn back_seek(&mut self)
        requires
            old(self).pos >= 1,
        ensures
            final(self)@.input == old(self)@.input,
            final(self)@.ahead == old(self)@.ahead,
            final(self)@.pos == old(self)@.pos - 1,
    {
        self.pos = self.pos - 1;
    }
}

/// The stream of tokens from position `i` to the end of the input, each
/// paired with the position just past it: the tokens `next` would hand
/// out one after another. It ends with the `EOF` entry at the end of the
/// input, or at the first position whose token fails to lex.
pub open spec fn token_stream(s: Seq<u8>, i: int) -> Seq<(SpecToken, int)>
    decreases s.len() - i when 0 <= i <= s.len()
{
    match next_token(s, i) {
        Err(_) => Seq::empty(),
        Ok((t, j)) => if t is EOF {
            seq![(t, j)]
        } else if i < j <= s.len() {
            seq![(t, j)] + token_stream(s, j)
        } else {
            // termination guard; a real token always consumes input
            seq![(t, j)]
        },
    }
}

/// What well-formedness gives every caller: the cursor never leaves the
/// input. This lets the laws below be applied to the state of any
/// well-formed lexer, although `wf` itself is closed.
pub proof fn lemma_wf_bounds(l: Lexer)
    requires
        l.wf(),
    ensures
        0 <= l@.pos <= l@.input.len(),
{
}

/// Law: token lookahead is faithful — when `peek` yields a token, the
/// `next` that follows yields the very same token and merely clears the
/// memo, leaving the cursor where the peek put it.
pub proof fn lemma_peek_then_next(l: SpecLexer)
    ensures
        ({
            let (l1, r1) = spec_lex_peek(l);
            r1 matches Ok(t) ==> spec_lex_next(l1) == (
                (SpecLexer { ahead: None, ..l1 }),
                Ok::<SpecToken, LexError>(t),
            )
        }),
{
}

/// Law: `EOF` is stable — once a peek yields `EOF`, every further peek
/// yields `EOF` again and leaves the lexer state unchanged.
pub proof fn lemma_eof_peek_stable(l: SpecLexer)
    requires
        0 <= l.pos <= l.input.len(),
    ensures
        ({
            let (l1, r1) = spec_lex_peek(l);
            r1 == Ok::<SpecToken, LexError>(SpecToken::EOF) ==> spec_lex_peek(l1) == (
                l1,
                Ok::<SpecToken, LexError>(SpecToken::EOF),
            )
        }),
{
    lemma_next_token(l.input, l.pos);
}

/// Law: a consumed token is never returned again — taking a token other
/// than `EOF` from the input moves the cursor strictly forward, and later
/// tokens are read only from beyond it.
pub proof fn lemma_next_consumes(l: SpecLexer)
    requires
        0 <= l.pos <= l.input.len(),
        l.ahead is None,
    ensures
        ({
            let (l2, r2) = spec_lex_next(l);
            &&& (r2 matches Ok(t) && !(t is EOF) ==> l2.pos > l.pos)
            &&& l2.pos >= l.pos
        }),
{
    lemma_next_token(l.input, l.pos);
}

/// Law: the stream is in source order — every entry ends within the
/// input at or after the start, and each entry ends no earlier than the
/// one before it, strictly later up to the final `EOF` entry.
pub proof fn lemma_stream_in_order(s: Seq<u8>, i: int)
    requires
        0 <= i <= s.len(),
    ensures
        ({
            let st = token_stream(s, i);
            &&& forall|k: int| 0 <= k < st.len() ==> i <= (#[trigger] st[k]).1 <= s.len()
            &&& forall|k: int|
                0 <= k < st.len() - 1 ==> (#[trigger] st[k]).1 <= st[k + 1].1 && (!(st[k
                    + 1].0 is EOF) ==> st[k].1 < st[k + 1].1)
        }),
    decreases s.len() - i,
{
    lemma_next_token(s, i);
    match next_token(s, i) {
        Err(_) => {},
        Ok((t, j)) => {
            if !(t is EOF) {
                lemma_stream_in_order(s, j);
                lemma_next_token(s, j);
                let st = token_stream(s, i);
                let rest = token_stream(s, j);
                assert(st == seq![(t, j)] + rest);
                assert forall|k: int| 0 <= k < st.len() implies i <= (#[trigger] st[k]).1 <= s.len() by {
                    if k > 0 {
                        assert(st[k] == rest[k - 1]);
                    }
                }
                assert forall|k: int|
                    0 <= k < st.len() - 1 implies (#[trigger] st[k]).1 <= st[k + 1].1 && (!(st[k
                        + 1].0 is EOF) ==> st[k].1 < st[k + 1].1) by {
                    if k == 0 {
                        assert(st[1] == rest[0]);
                    } else {
                        assert(st[k] == rest[k - 1]);
                        assert(st[k + 1] == rest[k]);
                    }
                }
            }
        },
    }
}

/// Law: the lexer walks its token stream — from a state with no memo, a
/// successful `next` yields the head of the stream at the cursor and
/// leaves the lexer on the rest of it. So successive calls return the
/// input's tokens in source order, each exactly once: a consumed token's
/// entry is gone from the remaining stream, and once `EOF` is reached
/// the stream stays the single `EOF` entry forever.
pub proof fn lemma_next_walks_stream(l: SpecLexer)
    requires
        0 <= l.pos <= l.input.len(),
        l.ahead is None,
    ensures
        ({
            let (l2, r) = spec_lex_next(l);
            let st = token_stream(l.input, l.pos);
            r matches Ok(t) ==> {
                &&& st.len() > 0 && st[0] == (t, l2.pos)
                &&& (t is EOF ==> token_stream(l.input, l2.pos) == st)
                &&& (!(t is EOF) ==> token_stream(l.input, l2.pos) == st.drop_first())
            }
        }),
{
    lemma_next_token(l.input, l.pos);
    let (l2, r) = spec_lex_next(l);
    let st = token_stream(l.input, l.pos);
    match r {
        Ok(t) => {
            if !(t is EOF) {
                assert(token_stream(l.input, l2.pos) =~= st.drop_first());
            }
        },
        Err(_) => {},
    }
}

} // verus!
