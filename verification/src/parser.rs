//! The parser: recursive descent with precedence climbing and one token of
//! lookahead. Its mathematical model is a family of spec functions over a
//! parser state `(src, pos, tok)` — the input bytes, the position just past
//! the lookahead token, and the lookahead token itself. Each executable
//! parse function is proved to return exactly what its spec function says.

use vstd::prelude::*;

use crate::ast::spec_exprs_of;
use crate::ast::spec_op_of;
use crate::ast::BinaryExprAst;
use crate::ast::CallExprAst;
use crate::ast::ExprAst;
use crate::ast::FunctionAst;
use crate::ast::OpSymbol;
use crate::ast::PrototypeAst;
use crate::ast::SpecExpr;
use crate::ast::SpecFunc;
use crate::ast::SpecProto;
use crate::error::Error;
use crate::error::LexError;
use crate::error::ParserError;
use crate::error::SpecError;
use crate::error::SpecParserError;
use crate::lex::lemma_next_token;
use crate::lex::next_token;
use crate::lex::spec_precedence;
use crate::lex::Lexer;
use crate::lex::SpecToken;
use crate::lex::Token;

verus! {

/// Termination measure of a parser state: twice the number of unread
/// bytes, plus one while the lookahead still holds a real token. Popping
/// a token other than `EOF` strictly shrinks it.
pub open spec fn pmeasure(s: Seq<u8>, i: int, t: SpecToken) -> int {
    2 * (s.len() - i) + if t is EOF {
        0int
    } else {
        1int
    }
}

/// The refill `(i2, t2)` strictly shrinks the measure from `(i, t)` and
/// keeps it well founded. Every refill the lexer actually produces after
/// popping a real token does; the spec parser recurses only under this
/// guard so that its own termination is evident.
pub open spec fn stepped_strict(s: Seq<u8>, i: int, t: SpecToken, i2: int, t2: SpecToken) -> bool {
    0 <= pmeasure(s, i2, t2) < pmeasure(s, i, t)
}

/// As `stepped_strict`, but the measure may also stay level.
pub open spec fn stepped(s: Seq<u8>, i: int, t: SpecToken, i2: int, t2: SpecToken) -> bool {
    0 <= pmeasure(s, i2, t2) <= pmeasure(s, i, t)
}

/// What a parse function yields on success: the parsed value and the
/// parser state after it — the new position and lookahead.
pub type Parsed<T> = Result<(T, int, SpecToken), SpecError>;

/// A successful parse of `v`, leaving the parser at `(i, t)`.
pub open spec fn p_ok<T>(v: T, i: int, t: SpecToken) -> Parsed<T> {
    Ok((v, i, t))
}

/// A failed parse.
pub open spec fn p_err<T>(e: SpecError) -> Parsed<T> {
    Err(e)
}

/// An expression: a primary followed by the operator climb at threshold 0.
pub open spec fn sp_parse_expr(s: Seq<u8>, i: int, t: SpecToken) -> Parsed<SpecExpr>
    decreases pmeasure(s, i, t), 3int,
{
    match sp_parse_primary(s, i, t) {
        Err(e) => Err(e),
        Ok((lhs, i2, t2)) => if stepped_strict(s, i, t, i2, t2) {
            sp_parse_binop_rhs(s, i2, t2, 0, lhs)
        } else {
            // termination guard; a successful primary always consumes input
            Err(SpecError::ParserError(SpecParserError::UnexpectedToken(t2)))
        },
    }
}

/// The precedence climb: while the lookahead is an operator binding at
/// least as tightly as `min_prec`, consume it, parse a primary, let any
/// tighter-binding operator take the right side first, and fold the result
/// into the left side. Equal precedence folds left-associatively.
pub open spec fn sp_parse_binop_rhs(
    s: Seq<u8>,
    i: int,
    t: SpecToken,
    min_prec: int,
    lhs: SpecExpr,
) -> Parsed<SpecExpr>
    decreases pmeasure(s, i, t), 4int,
{
    if spec_precedence(t) < min_prec {
        Ok((lhs, i, t))
    } else {
        match next_token(s, i) {
            Err((le, _)) => Err(SpecError::LexError(le)),
            Ok((t2, i2)) => match spec_op_of(t) {
                Err(pe) => Err(SpecError::ParserError(pe)),
                Ok(op) => if stepped_strict(s, i, t, i2, t2) {
                    match sp_parse_primary(s, i2, t2) {
                        Err(e) => Err(e),
                        Ok((rhs0, i3, t3)) => {
                            let climbed = if spec_precedence(t) < spec_precedence(t3) {
                                if stepped_strict(s, i, t, i3, t3) {
                                    sp_parse_binop_rhs(s, i3, t3, spec_precedence(t) + 1, rhs0)
                                } else {
                                    // termination guard; unreachable, see above
                                    Err(SpecError::ParserError(SpecParserError::UnexpectedToken(t3)))
                                }
                            } else {
                                Ok((rhs0, i3, t3))
                            };
                            match climbed {
                                Err(e) => Err(e),
                                Ok((rhs, i4, t4)) => {
                                    let folded = SpecExpr::Binary(
                                        op,
                                        Box::new(lhs),
                                        Box::new(rhs),
                                    );
                                    if stepped_strict(s, i, t, i4, t4) {
                                        sp_parse_binop_rhs(s, i4, t4, min_prec, folded)
                                    } else {
                                        // termination guard; unreachable, see above
                                        Err(SpecError::ParserError(
                                            SpecParserError::UnexpectedToken(t4),
                                        ))
                                    }
                                },
                            }
                        },
                    }
                } else {
                    // termination guard; popping an operator consumes input
                    Err(SpecError::ParserError(SpecParserError::UnexpectedToken(t2)))
                },
            },
        }
    }
}

/// A numeric literal: the lookahead is popped and must be a number; any
/// other token is consumed all the same and fails with a `SyntaxError`
/// naming the expectation.
pub open spec fn sp_parse_number(s: Seq<u8>, i: int, t: SpecToken) -> Parsed<SpecExpr>
    decreases pmeasure(s, i, t), 1int,
{
    match next_token(s, i) {
        Err((le, _)) => Err(SpecError::LexError(le)),
        Ok((t2, i2)) => match t {
            SpecToken::Number(n) => Ok((SpecExpr::Number(n), i2, t2)),
            _ => Err(SpecError::ParserError(SpecParserError::SyntaxError("Expects {Number}"@))),
        },
    }
}

/// A parenthesized expression: `(` expression `)`, yielding the inner
/// expression.
pub open spec fn sp_parse_parent(s: Seq<u8>, i: int, t: SpecToken) -> Parsed<SpecExpr>
    decreases pmeasure(s, i, t), 1int,
{
    match next_token(s, i) {
        Err((le, _)) => Err(SpecError::LexError(le)),
        Ok((t2, i2)) => if stepped_strict(s, i, t, i2, t2) {
            match sp_parse_expr(s, i2, t2) {
                Err(e) => Err(e),
                Ok((e, i3, t3)) => match next_token(s, i3) {
                    Err((le, _)) => Err(SpecError::LexError(le)),
                    Ok((t4, i4)) => if t3 is RightBracket {
                        Ok((e, i4, t4))
                    } else {
                        Err(SpecError::ParserError(SpecParserError::SyntaxError("Expects `)`"@)))
                    },
                },
            }
        } else {
            // termination guard: reached only by popping `EOF` at the end
            // of the input, where an expression parse rejects the lookahead
            Err(SpecError::ParserError(SpecParserError::UnexpectedToken(t2)))
        },
    }
}

/// An identifier expression: a bare identifier names a variable; one
/// followed by `(` starts a call whose arguments run to the closing `)`.
pub open spec fn sp_parse_identifier(s: Seq<u8>, i: int, t: SpecToken) -> Parsed<SpecExpr>
    decreases pmeasure(s, i, t), 1int,
{
    match next_token(s, i) {
        Err((le, _)) => Err(SpecError::LexError(le)),
        Ok((t2, i2)) => match t {
            SpecToken::Identifier(name) => if !(t2 is LeftBracket) {
                Ok((SpecExpr::Variable(name), i2, t2))
            } else {
                match next_token(s, i2) {
                    Err((le, _)) => Err(SpecError::LexError(le)),
                    Ok((t3, i3)) => if t3 is RightBracket {
                        match next_token(s, i3) {
                            Err((le, _)) => Err(SpecError::LexError(le)),
                            Ok((t4, i4)) => Ok((SpecExpr::Call(name, Seq::empty()), i4, t4)),
                        }
                    } else if stepped_strict(s, i, t, i3, t3) {
                        match sp_parse_call_args(s, i3, t3, Seq::empty()) {
                            Err(e) => Err(e),
                            Ok((args, i4, t4)) => Ok((SpecExpr::Call(name, args), i4, t4)),
                        }
                    } else {
                        // termination guard; unreachable: two tokens were popped
                        Err(SpecError::ParserError(SpecParserError::UnexpectedToken(t3)))
                    },
                }
            },
            _ => Err(SpecError::ParserError(SpecParserError::SyntaxError("Expect `identifier`"@))),
        },
    }
}

/// The arguments of a call, after at least one is known to follow: an
/// expression, then `)` ends the list (consuming it) or `,` continues it.
pub open spec fn sp_parse_call_args(s: Seq<u8>, i: int, t: SpecToken, acc: Seq<SpecExpr>) -> Parsed<
    Seq<SpecExpr>,
>
    decreases pmeasure(s, i, t), 5int,
{
    match sp_parse_expr(s, i, t) {
        Err(e) => Err(e),
        Ok((e, i2, t2)) => {
            let acc2 = acc.push(e);
            if t2 is RightBracket {
                match next_token(s, i2) {
                    Err((le, _)) => Err(SpecError::LexError(le)),
                    Ok((t3, i3)) => Ok((acc2, i3, t3)),
                }
            } else if t2 is Comma {
                match next_token(s, i2) {
                    Err((le, _)) => Err(SpecError::LexError(le)),
                    Ok((t3, i3)) => if stepped_strict(s, i, t, i3, t3) {
                        sp_parse_call_args(s, i3, t3, acc2)
                    } else {
                        // termination guard; unreachable: the comma was popped
                        Err(SpecError::ParserError(SpecParserError::UnexpectedToken(t3)))
                    },
                }
            } else {
                Err(SpecError::ParserError(SpecParserError::SyntaxError(
                    "Expected ')' or ',' in argument list"@,
                )))
            }
        },
    }
}

/// A primary expression: a parenthesized expression, a number or an
/// identifier expression; any other lookahead is rejected.
pub open spec fn sp_parse_primary(s: Seq<u8>, i: int, t: SpecToken) -> Parsed<SpecExpr>
    decreases pmeasure(s, i, t), 2int,
{
    match t {
        SpecToken::LeftBracket => sp_parse_parent(s, i, t),
        SpecToken::Number(_) => sp_parse_number(s, i, t),
        SpecToken::Identifier(_) => sp_parse_identifier(s, i, t),
        _ => Err(SpecError::ParserError(SpecParserError::UnexpectedToken(t))),
    }
}

/// The parameter names of a prototype: identifiers taken while they come,
/// with no separators; the first non-identifier stays as lookahead.
pub open spec fn sp_parse_proto_args(
    s: Seq<u8>,
    i: int,
    t: SpecToken,
    acc: Seq<Seq<u8>>,
) -> Parsed<Seq<Seq<u8>>>
    decreases pmeasure(s, i, t), 1int,
{
    match t {
        SpecToken::Identifier(a) => match next_token(s, i) {
            Err((le, _)) => Err(SpecError::LexError(le)),
            Ok((t2, i2)) => if stepped_strict(s, i, t, i2, t2) {
                sp_parse_proto_args(s, i2, t2, acc.push(a))
            } else {
                // termination guard; unreachable: the identifier was popped
                Err(SpecError::ParserError(SpecParserError::UnexpectedToken(t2)))
            },
        },
        _ => Ok((acc, i, t)),
    }
}

/// A prototype: a function name, `(`, parameter names, `)`.
pub open spec fn sp_parse_prototype(s: Seq<u8>, i: int, t: SpecToken) -> Parsed<SpecProto>
    decreases pmeasure(s, i, t), 2int,
{
    match next_token(s, i) {
        Err((le, _)) => Err(SpecError::LexError(le)),
        Ok((t2, i2)) => match t {
            SpecToken::Identifier(name) => if !(t2 is LeftBracket) {
                Err(SpecError::ParserError(SpecParserError::SyntaxError(
                    "Expected '(' in prototype"@,
                )))
            } else {
                match next_token(s, i2) {
                    Err((le, _)) => Err(SpecError::LexError(le)),
                    Ok((t3, i3)) => if stepped_strict(s, i, t, i3, t3) {
                        match sp_parse_proto_args(s, i3, t3, Seq::empty()) {
                            Err(e) => Err(e),
                            Ok((args, i4, t4)) => if t4 is RightBracket {
                                match next_token(s, i4) {
                                    Err((le, _)) => Err(SpecError::LexError(le)),
                                    Ok((t5, i5)) => Ok((SpecProto { name, args }, i5, t5)),
                                }
                            } else {
                                Err(SpecError::ParserError(SpecParserError::SyntaxError(
                                    "Expected ')' in prototype"@,
                                )))
                            },
                        }
                    } else {
                        // termination guard; unreachable: two tokens were popped
                        Err(SpecError::ParserError(SpecParserError::UnexpectedToken(t3)))
                    },
                }
            },
            _ => Err(SpecError::ParserError(SpecParserError::ExpectedFunctionName)),
        },
    }
}

/// A definition: the `def` lookahead is popped, then a prototype and the
/// body expression.
pub open spec fn sp_parse_definition(s: Seq<u8>, i: int, t: SpecToken) -> Parsed<SpecFunc>
    decreases pmeasure(s, i, t), 6int,
{
    match next_token(s, i) {
        Err((le, _)) => Err(SpecError::LexError(le)),
        Ok((t2, i2)) => if stepped(s, i, t, i2, t2) {
            match sp_parse_prototype(s, i2, t2) {
                Err(e) => Err(e),
                Ok((proto, i3, t3)) => if stepped(s, i, t, i3, t3) {
                    match sp_parse_expr(s, i3, t3) {
                        Err(e) => Err(e),
                        Ok((body, i4, t4)) => Ok((SpecFunc { proto, body }, i4, t4)),
                    }
                } else {
                    // termination guard; unreachable: the prototype consumed input
                    Err(SpecError::ParserError(SpecParserError::UnexpectedToken(t3)))
                },
            }
        } else {
            // termination guard; unreachable: the lexer never rewinds
            Err(SpecError::ParserError(SpecParserError::UnexpectedToken(t2)))
        },
    }
}

/// An external declaration: the `extern` lookahead is popped, then a
/// prototype.
pub open spec fn sp_parse_extern(s: Seq<u8>, i: int, t: SpecToken) -> Parsed<SpecProto>
    decreases pmeasure(s, i, t), 6int,
{
    match next_token(s, i) {
        Err((le, _)) => Err(SpecError::LexError(le)),
        Ok((t2, i2)) => if stepped(s, i, t, i2, t2) {
            sp_parse_prototype(s, i2, t2)
        } else {
            // termination guard; unreachable: the lexer never rewinds
            Err(SpecError::ParserError(SpecParserError::UnexpectedToken(t2)))
        },
    }
}

/// A top-level expression, wrapped in an anonymous prototype with an empty
/// name and no parameters.
pub open spec fn sp_parse_toplevel(s: Seq<u8>, i: int, t: SpecToken) -> Parsed<SpecFunc>
    decreases pmeasure(s, i, t), 6int,
{
    match sp_parse_expr(s, i, t) {
        Err(e) => Err(e),
        Ok((body, i2, t2)) => Ok(
            (SpecFunc { proto: SpecProto { name: Seq::empty(), args: Seq::empty() }, body }, i2, t2),
        ),
    }
}

/// Copies a byte vector.
fn clone_bytes(v: &Vec<u8>) -> (r: Vec<u8>)
    ensures
        r@ == v@,
{
    let mut r: Vec<u8> = Vec::new();
    let mut i: usize = 0;
    while i < v.len()
        invariant
            i <= v.len(),
            r@ =~= v@.subrange(0, i as int),
        decreases v.len() - i,
    {
        r.push(v[i]);
        proof {
            assert(v@.subrange(0, i as int + 1) =~= v@.subrange(0, i as int).push(v@[i as int]));
        }
        i = i + 1;
    }
    proof {
        assert(v@.subrange(0, v@.len() as int) =~= v@);
    }
    r
}

/// Copies a token. The derived `Clone` carries no specification, so the
/// copy is spelled out where a contract needs to speak about it.
fn clone_token(t: &Token) -> (r: Token)
    ensures
        r@ == t@,
{
    match t {
        Token::Def => Token::Def,
        Token::Extern => Token::Extern,
        Token::LeftBracket => Token::LeftBracket,
        Token::RightBracket => Token::RightBracket,
        Token::LeftSquare => Token::LeftSquare,
        Token::RightSquare => Token::RightSquare,
        Token::LeftAngle => Token::LeftAngle,
        Token::RightAngle => Token::RightAngle,
        Token::LeftCurly => Token::LeftCurly,
        Token::RightCurly => Token::RightCurly,
        Token::Assign => Token::Assign,
        Token::Add => Token::Add,
        Token::Minus => Token::Minus,
        Token::Mul => Token::Mul,
        Token::Div => Token::Div,
        Token::Equal => Token::Equal,
        Token::Exclamation => Token::Exclamation,
        Token::NotEq => Token::NotEq,
        Token::LessEq => Token::LessEq,
        Token::GreaEq => Token::GreaEq,
        Token::Comma => Token::Comma,
        Token::Identifier(v) => Token::Identifier(clone_bytes(v)),
        Token::Number(v) => Token::Number(clone_bytes(v)),
        Token::String(v) => Token::String(clone_bytes(v)),
        Token::EOF => Token::EOF,
    }
}

/// The state of a parser: the input bytes, the position just past the
/// lookahead token, and the lookahead token itself.
pub struct SpecParser {
    pub src: Seq<u8>,
    pub pos: int,
    pub tok: SpecToken,
}

/// The parser: a lexer and exactly one token of lookahead.
pub struct Parser {
    inner_lex: Lexer,
    peek: Token,
}

impl View for Parser {
    type V = SpecParser;

    closed spec fn view(&self) -> SpecParser {
        SpecParser {
            src: self.inner_lex@.input,
            pos: self.inner_lex@.pos,
            tok: self.peek@,
        }
    }
}

impl Parser {
    /// Well-formedness: the lexer's memo is unused (the parser holds the
    /// lookahead itself), the position stays within the input, and an
    /// `EOF` lookahead only arises at the end of the input.
    pub closed spec fn wf(&self) -> bool {
        &&& self.inner_lex.wf()
        &&& self.inner_lex@.ahead is None
        &&& 0 <= self@.pos <= self@.src.len()
        &&& (self@.tok is EOF ==> self@.pos == self@.src.len())
    }

    /// Makes a parser over the input bytes and pulls the first token of
    /// lookahead, which may already fail.
    pub fn new(input: Vec<u8>) -> (r: Result<Parser, Error>)
        ensures
            match r {
                Ok(p) => {
                    &&& p.wf()
                    &&& p@.src == input@
                    &&& next_token(input@, 0) == Ok::<(SpecToken, int), (LexError, int)>(
                        (p@.tok, p@.pos),
                    )
                },
                Err(e) => next_token(input@, 0) matches Err((le, _)) && e@ == SpecError::LexError(
                    le,
                ),
            },
    {
        let ghost iv = input@;
        let mut lex = Lexer::new(input);
        proof {
            lemma_next_token(iv, 0);
        }
        match lex.next() {
            Err(e) => Err(e),
            Ok(peek) => Ok(Self { inner_lex: lex, peek }),
        }
    }

    /// The current lookahead token, unconsumed.
    pub fn peek(&self) -> (r: &Token)
        ensures
            r@ == self@.tok,
    {
        &self.peek
    }

    /// Returns the current lookahead and refills it from the lexer.
    fn pop(&mut self) -> (r: Result<Token, Error>)
        requires
            old(self).wf(),
        ensures
            final(self).wf(),
            final(self)@.src == old(self)@.src,
            match r {
                Ok(tok) => {
                    &&& tok@ == old(self)@.tok
                    &&& next_token(old(self)@.src, old(self)@.pos) == Ok::<
                        (SpecToken, int),
                        (LexError, int),
                    >((final(self)@.tok, final(self)@.pos))
                    &&& stepped(
                        old(self)@.src,
                        old(self)@.pos,
                        old(self)@.tok,
                        final(self)@.pos,
                        final(self)@.tok,
                    )
                    &&& (!(old(self)@.tok is EOF) ==> stepped_strict(
                        old(self)@.src,
                        old(self)@.pos,
                        old(self)@.tok,
                        final(self)@.pos,
                        final(self)@.tok,
                    ))
                },
                Err(e) => {
                    &&& next_token(old(self)@.src, old(self)@.pos) matches Err((le, _))
                        && e@ == SpecError::LexError(le)
                    &&& final(self)@.tok == old(self)@.tok
                },
            },
    {
        proof {
            lemma_next_token(self@.src, self@.pos);
        }
        match self.inner_lex.next() {
            Err(e) => Err(e),
            Ok(mut t) => {
                core::mem::swap(&mut self.peek, &mut t);
                Ok(t)
            },
        }
    }

    /// Parses a numeric literal: the lookahead is popped and must be a
    /// number; any other token fails with a `SyntaxError` naming the
    /// expectation.
    pub fn parse_number(&mut self) -> (r: Result<ExprAst, Error>)
        requires
            old(self).wf(),
        ensures
            final(self).wf(),
            final(self)@.src == old(self)@.src,
            match r {
                Ok(e) => {
                    &&& sp_parse_number(old(self)@.src, old(self)@.pos, old(self)@.tok)
                        == Ok::<(SpecExpr, int, SpecToken), SpecError>(
                        (e@, final(self)@.pos, final(self)@.tok),
                    )
                    &&& stepped_strict(
                        old(self)@.src,
                        old(self)@.pos,
                        old(self)@.tok,
                        final(self)@.pos,
                        final(self)@.tok,
                    )
                },
                Err(e) => sp_parse_number(old(self)@.src, old(self)@.pos, old(self)@.tok) == Err::<
                    (SpecExpr, int, SpecToken),
                    SpecError,
                >(e@),
            },
    {
        match self.pop() {
            Err(e) => Err(e),
            Ok(token) => match token {
                Token::Number(n) => Ok(ExprAst::Number(n)),
                _ => ParserError::syn_err("Expects {Number}"),
            },
        }
    }

    /// Parses an expression: a primary, then the operator climb starting
    /// at threshold 0.
    pub fn parse_expr(&mut self) -> (r: Result<ExprAst, Error>)
        requires
            old(self).wf(),
        ensures
            final(self).wf(),
            final(self)@.src == old(self)@.src,
            match r {
                Ok(e) => {
                    &&& sp_parse_expr(old(self)@.src, old(self)@.pos, old(self)@.tok) == p_ok(
                        e@,
                        final(self)@.pos,
                        final(self)@.tok,
                    )
                    &&& stepped_strict(
                        old(self)@.src,
                        old(self)@.pos,
                        old(self)@.tok,
                        final(self)@.pos,
                        final(self)@.tok,
                    )
                },
                Err(e) => sp_parse_expr(old(self)@.src, old(self)@.pos, old(self)@.tok)
                    == p_err::<SpecExpr>(e@),
            },
        decreases pmeasure(self@.src, self@.pos, self@.tok), 3int,
    {
        match self.parse_primary() {
            Err(e) => Err(e),
            Ok(lhs) => self.parse_binop_rhs(0, lhs),
        }
    }

    /// The precedence climb: consumes `operator primary` pairs while the
    /// lookahead operator binds at least as tightly as `expr_precedence`,
    /// letting tighter operators take the right side first, and folds
    /// left-associatively.
    pub fn parse_binop_rhs(&mut self, expr_precedence: i8, lhs: ExprAst) -> (r: Result<
        ExprAst,
        Error,
    >)
        requires
            old(self).wf(),
        ensures
            final(self).wf(),
            final(self)@.src == old(self)@.src,
            match r {
                Ok(e) => {
                    &&& sp_parse_binop_rhs(
                        old(self)@.src,
                        old(self)@.pos,
                        old(self)@.tok,
                        expr_precedence as int,
                        lhs@,
                    ) == p_ok(e@, final(self)@.pos, final(self)@.tok)
                    &&& stepped(
                        old(self)@.src,
                        old(self)@.pos,
                        old(self)@.tok,
                        final(self)@.pos,
                        final(self)@.tok,
                    )
                },
                Err(e) => sp_parse_binop_rhs(
                    old(self)@.src,
                    old(self)@.pos,
                    old(self)@.tok,
                    expr_precedence as int,
                    lhs@,
                ) == p_err::<SpecExpr>(e@),
            },
        decreases pmeasure(self@.src, self@.pos, self@.tok), 4int,
    {
        let ghost s = self@.src;
        let ghost ci = self@.pos;
        let ghost ct = self@.tok;
        let tok_prec = self.peek().precedence();
        if tok_prec < expr_precedence {
            return Ok(lhs);
        }
        let op_tok = match self.pop() {
            Err(e) => {
                return Err(e);
            },
            Ok(t) => t,
        };
        let op = match OpSymbol::try_from(op_tok) {
            Err(pe) => {
                return Err(Error::ParserError(pe));
            },
            Ok(op) => op,
        };
        proof {
            // a convertible operator is a real token, so popping it consumed input
            assert(!(ct is EOF));
            assert(spec_precedence(ct) <= 10);
        }
        let rhs0 = match self.parse_primary() {
            Err(e) => {
                return Err(e);
            },
            Ok(r) => r,
        };
        let mut rhs = rhs0;
        let next_prec = self.peek().precedence();
        if tok_prec < next_prec {
            rhs = match self.parse_binop_rhs(tok_prec + 1, rhs) {
                Err(e) => {
                    return Err(e);
                },
                Ok(r) => r,
            };
        }
        let folded = ExprAst::Binary(Box::new(BinaryExprAst::new(op, lhs, rhs)));
        self.parse_binop_rhs(expr_precedence, folded)
    }

    /// Parses a parenthesized expression: pops the opening bracket, parses
    /// the inner expression, and requires the closing bracket.
    pub fn parse_parent(&mut self) -> (r: Result<ExprAst, Error>)
        requires
            old(self).wf(),
        ensures
            final(self).wf(),
            final(self)@.src == old(self)@.src,
            match r {
                Ok(e) => {
                    &&& sp_parse_parent(old(self)@.src, old(self)@.pos, old(self)@.tok) == p_ok(
                        e@,
                        final(self)@.pos,
                        final(self)@.tok,
                    )
                    &&& stepped_strict(
                        old(self)@.src,
                        old(self)@.pos,
                        old(self)@.tok,
                        final(self)@.pos,
                        final(self)@.tok,
                    )
                },
                Err(e) => sp_parse_parent(old(self)@.src, old(self)@.pos, old(self)@.tok)
                    == p_err::<SpecExpr>(e@),
            },
        decreases pmeasure(self@.src, self@.pos, self@.tok), 1int,
    {
        let ghost s = self@.src;
        let ghost i0 = self@.pos;
        let ghost t0 = self@.tok;
        let opened = match self.pop() {
            Err(e) => {
                return Err(e);
            },
            Ok(t) => t,
        };
        if matches!(opened, Token::EOF) {
            // popping `EOF` leaves the stream where it was; the expression
            // that must follow is rejected at once
            proof {
                assert(t0 is EOF);
                assert(next_token(s, s.len() as int) == Ok::<(SpecToken, int), (LexError, int)>(
                    (SpecToken::EOF, s.len() as int),
                ));
            }
            return Err(Error::ParserError(ParserError::UnexpectedToken(clone_token(self.peek()))));
        }
        let expr = match self.parse_expr() {
            Err(e) => {
                return Err(e);
            },
            Ok(e) => e,
        };
        match self.pop() {
            Err(e) => Err(e),
            Ok(t) => match t {
                Token::RightBracket => Ok(expr),
                _ => ParserError::syn_err("Expects `)`"),
            },
        }
    }

    /// Parses an identifier expression: a bare identifier names a
    /// variable; one followed by `(` starts a call whose arguments run to
    /// the closing `)`.
    pub fn parse_identifier(&mut self) -> (r: Result<ExprAst, Error>)
        requires
            old(self).wf(),
        ensures
            final(self).wf(),
            final(self)@.src == old(self)@.src,
            match r {
                Ok(e) => {
                    &&& sp_parse_identifier(old(self)@.src, old(self)@.pos, old(self)@.tok)
                        == p_ok(e@, final(self)@.pos, final(self)@.tok)
                    &&& stepped_strict(
                        old(self)@.src,
                        old(self)@.pos,
                        old(self)@.tok,
                        final(self)@.pos,
                        final(self)@.tok,
                    )
                },
                Err(e) => sp_parse_identifier(old(self)@.src, old(self)@.pos, old(self)@.tok)
                    == p_err::<SpecExpr>(e@),
            },
        decreases pmeasure(self@.src, self@.pos, self@.tok), 1int,
    {
        let ghost s = self@.src;
        let ghost i0 = self@.pos;
        let ghost t0 = self@.tok;
        let token = match self.pop() {
            Err(e) => {
                return Err(e);
            },
            Ok(t) => t,
        };
        match token {
            Token::Identifier(identifier) => {
                if matches!(self.peek(), Token::LeftBracket) {
                    // eat `(`
                    match self.pop() {
                        Err(e) => {
                            return Err(e);
                        },
                        Ok(_) => {},
                    };
                    let mut args: Vec<ExprAst> = Vec::new();
                    if matches!(self.peek(), Token::RightBracket) {
                        // eat `)`
                        match self.pop() {
                            Err(e) => {
                                return Err(e);
                            },
                            Ok(_) => {},
                        };
                        proof {
                            assert(spec_exprs_of(args@) =~= Seq::<SpecExpr>::empty());
                        }
                        Ok(ExprAst::Call(Box::new(CallExprAst::new(identifier, args))))
                    } else {
                        let ghost gi = self@.pos;
                        let ghost gt = self@.tok;
                        proof {
                            assert(spec_exprs_of(args@) =~= Seq::<SpecExpr>::empty());
                        }
                        loop
                            invariant
                                self.wf(),
                                self@.src == s,
                                s == old(self)@.src,
                                i0 == old(self)@.pos,
                                t0 == old(self)@.tok,
                                stepped_strict(s, i0, t0, self@.pos, self@.tok),
                                match sp_parse_call_args(
                                    s,
                                    self@.pos,
                                    self@.tok,
                                    spec_exprs_of(args@),
                                ) {
                                    Ok((a, i9, t9)) => sp_parse_identifier(s, i0, t0) == p_ok(
                                        SpecExpr::Call(identifier@, a),
                                        i9,
                                        t9,
                                    ),
                                    Err(e) => sp_parse_identifier(s, i0, t0) == p_err::<SpecExpr>(
                                        e,
                                    ),
                                },
                            decreases pmeasure(self@.src, self@.pos, self@.tok),
                        {
                            let ghost ai = self@.pos;
                            let ghost at = self@.tok;
                            let ghost pre_args = args@;
                            let e = match self.parse_expr() {
                                Err(er) => {
                                    return Err(er);
                                },
                                Ok(e) => e,
                            };
                            args.push(e);
                            proof {
                                assert(args@.drop_last() =~= pre_args);
                                assert(spec_exprs_of(args@) == spec_exprs_of(pre_args).push(e@));
                            }
                            if matches!(self.peek(), Token::RightBracket) {
                                match self.pop() {
                                    Err(er) => {
                                        return Err(er);
                                    },
                                    Ok(_) => {},
                                };
                                return Ok(ExprAst::Call(Box::new(CallExprAst::new(
                                    identifier,
                                    args,
                                ))));
                            }
                            if !matches!(self.peek(), Token::Comma) {
                                return ParserError::syn_err("Expected ')' or ',' in argument list");
                            }
                            match self.pop() {
                                Err(er) => {
                                    return Err(er);
                                },
                                Ok(_) => {},
                            };
                        }
                    }
                } else {
                    Ok(ExprAst::Variable(identifier))
                }
            },
            _ => ParserError::syn_err("Expect `identifier`"),
        }
    }

    /// Parses a primary expression: a parenthesized expression, a number
    /// or an identifier expression; any other lookahead is rejected.
    pub fn parse_primary(&mut self) -> (r: Result<ExprAst, Error>)
        requires
            old(self).wf(),
        ensures
            final(self).wf(),
            final(self)@.src == old(self)@.src,
            match r {
                Ok(e) => {
                    &&& sp_parse_primary(old(self)@.src, old(self)@.pos, old(self)@.tok) == p_ok(
                        e@,
                        final(self)@.pos,
                        final(self)@.tok,
                    )
                    &&& stepped_strict(
                        old(self)@.src,
                        old(self)@.pos,
                        old(self)@.tok,
                        final(self)@.pos,
                        final(self)@.tok,
                    )
                },
                Err(e) => sp_parse_primary(old(self)@.src, old(self)@.pos, old(self)@.tok)
                    == p_err::<SpecExpr>(e@),
            },
            // a lookahead no primary can start with is rejected without
            // consuming anything
            !(old(self)@.tok is LeftBracket || old(self)@.tok is Number
                || old(self)@.tok is Identifier) ==> final(self)@ == old(self)@,
        decreases pmeasure(self@.src, self@.pos, self@.tok), 2int,
    {
        let kind: u8 = match self.peek() {
            Token::LeftBracket => 0,
            Token::Number(_) => 1,
            Token::Identifier(_) => 2,
            _ => 3,
        };
        if kind == 0 {
            self.parse_parent()
        } else if kind == 1 {
            self.parse_number()
        } else if kind == 2 {
            self.parse_identifier()
        } else {
            Err(Error::ParserError(ParserError::UnexpectedToken(clone_token(self.peek()))))
        }
    }

    /// Parses a prototype: a function name, `(`, parameter names, `)`.
    pub fn parse_prototype(&mut self) -> (r: Result<PrototypeAst, Error>)
        requires
            old(self).wf(),
        ensures
            final(self).wf(),
            final(self)@.src == old(self)@.src,
            match r {
                Ok(p) => {
                    &&& sp_parse_prototype(old(self)@.src, old(self)@.pos, old(self)@.tok)
                        == p_ok(p@, final(self)@.pos, final(self)@.tok)
                    &&& stepped_strict(
                        old(self)@.src,
                        old(self)@.pos,
                        old(self)@.tok,
                        final(self)@.pos,
                        final(self)@.tok,
                    )
                },
                Err(e) => sp_parse_prototype(old(self)@.src, old(self)@.pos, old(self)@.tok)
                    == p_err::<SpecProto>(e@),
            },
    {
        let ghost s = self@.src;
        let ghost i0 = self@.pos;
        let ghost t0 = self@.tok;
        let token = match self.pop() {
            Err(e) => {
                return Err(e);
            },
            Ok(t) => t,
        };
        match token {
            Token::Identifier(fn_name) => {
                if !matches!(self.peek(), Token::LeftBracket) {
                    return ParserError::syn_err("Expected '(' in prototype");
                }
                // eat `(`
                match self.pop() {
                    Err(e) => {
                        return Err(e);
                    },
                    Ok(_) => {},
                };
                let mut args: Vec<Vec<u8>> = Vec::new();
                proof {
                    assert(args@.map_values(|a: Vec<u8>| a@) =~= Seq::<Seq<u8>>::empty());
                }
                loop
                    invariant
                        self.wf(),
                        self@.src == s,
                        s == old(self)@.src,
                        i0 == old(self)@.pos,
                        t0 == old(self)@.tok,
                        stepped_strict(s, i0, t0, self@.pos, self@.tok),
                        sp_parse_prototype(s, i0, t0) == (match sp_parse_proto_args(
                            s,
                            self@.pos,
                            self@.tok,
                            args@.map_values(|a: Vec<u8>| a@),
                        ) {
                            Ok((pargs, i9, t9)) => if t9 is RightBracket {
                                match next_token(s, i9) {
                                    Err((le, _)) => p_err::<SpecProto>(SpecError::LexError(le)),
                                    Ok((ta, ia)) => p_ok(
                                        SpecProto { name: fn_name@, args: pargs },
                                        ia,
                                        ta,
                                    ),
                                }
                            } else {
                                p_err::<SpecProto>(SpecError::ParserError(
                                    SpecParserError::SyntaxError("Expected ')' in prototype"@),
                                ))
                            },
                            Err(e) => p_err::<SpecProto>(e),
                        }),
                    ensures
                        self.wf(),
                        self@.src == s,
                        stepped_strict(s, i0, t0, self@.pos, self@.tok),
                        !(self@.tok is Identifier),
                        sp_parse_prototype(s, i0, t0) == (if self@.tok is RightBracket {
                            match next_token(s, self@.pos) {
                                Err((le, _)) => p_err::<SpecProto>(SpecError::LexError(le)),
                                Ok((ta, ia)) => p_ok(
                                    SpecProto {
                                        name: fn_name@,
                                        args: args@.map_values(|a: Vec<u8>| a@),
                                    },
                                    ia,
                                    ta,
                                ),
                            }
                        } else {
                            p_err::<SpecProto>(SpecError::ParserError(SpecParserError::SyntaxError(
                                "Expected ')' in prototype"@,
                            )))
                        }),
                    decreases pmeasure(self@.src, self@.pos, self@.tok),
                {
                    if !matches!(self.peek(), Token::Identifier(_)) {
                        break ;
                    }
                    let ghost pre_args = args@;
                    let arg_tok = match self.pop() {
                        Err(e) => {
                            return Err(e);
                        },
                        Ok(t) => t,
                    };
                    match arg_tok {
                        Token::Identifier(arg_name) => {
                            args.push(arg_name);
                            proof {
                                assert(args@.map_values(|a: Vec<u8>| a@) =~= pre_args.map_values(
                                    |a: Vec<u8>| a@,
                                ).push(args@.last()@));
                            }
                        },
                        _ => {
                            proof {
                                assert(false);
                            }
                        },
                    }
                }
                if !matches!(self.peek(), Token::RightBracket) {
                    return ParserError::syn_err("Expected ')' in prototype");
                }
                // eat `)`
                match self.pop() {
                    Err(e) => {
                        return Err(e);
                    },
                    Ok(_) => {},
                };
                Ok(PrototypeAst { name: fn_name, args })
            },
            _ => Err(Error::ParserError(ParserError::ExpectedFunctionName)),
        }
    }

    /// Parses a definition: `def`, a prototype, and the body expression.
    pub fn parse_definition(&mut self) -> (r: Result<FunctionAst, Error>)
        requires
            old(self).wf(),
        ensures
            final(self).wf(),
            final(self)@.src == old(self)@.src,
            match r {
                Ok(f) => sp_parse_definition(old(self)@.src, old(self)@.pos, old(self)@.tok)
                    == p_ok(f@, final(self)@.pos, final(self)@.tok),
                Err(e) => sp_parse_definition(old(self)@.src, old(self)@.pos, old(self)@.tok)
                    == p_err::<SpecFunc>(e@),
            },
    {
        // eat `def`
        match self.pop() {
            Err(e) => {
                return Err(e);
            },
            Ok(_) => {},
        };
        let proto = match self.parse_prototype() {
            Err(e) => {
                return Err(e);
            },
            Ok(p) => p,
        };
        match self.parse_expr() {
            Err(e) => Err(e),
            Ok(body) => Ok(FunctionAst { proto, body }),
        }
    }

    /// Parses an external declaration: `extern` and a prototype.
    pub fn parse_extern(&mut self) -> (r: Result<PrototypeAst, Error>)
        requires
            old(self).wf(),
        ensures
            final(self).wf(),
            final(self)@.src == old(self)@.src,
            match r {
                Ok(p) => sp_parse_extern(old(self)@.src, old(self)@.pos, old(self)@.tok) == p_ok(
                    p@,
                    final(self)@.pos,
                    final(self)@.tok,
                ),
                Err(e) => sp_parse_extern(old(self)@.src, old(self)@.pos, old(self)@.tok)
                    == p_err::<SpecProto>(e@),
            },
    {
        // eat `extern`
        match self.pop() {
            Err(e) => {
                return Err(e);
            },
            Ok(_) => {},
        };
        self.parse_prototype()
    }

    /// Parses a top-level expression and wraps it in an anonymous
    /// function: an empty name and no parameters.
    pub fn parse_toplevel(&mut self) -> (r: Result<FunctionAst, Error>)
        requires
            old(self).wf(),
        ensures
            final(self).wf(),
            final(self)@.src == old(self)@.src,
            match r {
                Ok(f) => sp_parse_toplevel(old(self)@.src, old(self)@.pos, old(self)@.tok)
                    == p_ok(f@, final(self)@.pos, final(self)@.tok),
                Err(e) => sp_parse_toplevel(old(self)@.src, old(self)@.pos, old(self)@.tok)
                    == p_err::<SpecFunc>(e@),
            },
    {
        let expr = match self.parse_expr() {
            Err(e) => {
                return Err(e);
            },
            Ok(e) => e,
        };
        let name: Vec<u8> = Vec::new();
        let args: Vec<Vec<u8>> = Vec::new();
        let proto = PrototypeAst { name, args };
        proof {
            assert(proto@.args =~= Seq::<Seq<u8>>::empty());
            assert(proto@.name =~= Seq::<u8>::empty());
        }
        Ok(FunctionAst { proto, body: expr })
    }
}

/// Law: top-level wrapping — whatever expression a top-level parse reads,
/// the function it yields carries an empty name and no parameters.
pub proof fn lemma_toplevel_wraps(s: Seq<u8>, i: int, t: SpecToken)
    ensures
        sp_parse_toplevel(s, i, t) matches Ok((f, _, _)) ==> f.proto.name.len() == 0
            && f.proto.args.len() == 0,
{
}

} // verus!
