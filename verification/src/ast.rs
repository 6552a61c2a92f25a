//! The abstract syntax tree: a plain recursive data model for expressions,
//! prototypes and functions, together with its mathematical view.

use vstd::prelude::*;

use crate::error::ParserError;
use crate::error::SpecParserError;
use crate::lex::SpecToken;
use crate::lex::Token;

verus! {

/// An expression: a strict tree, with no sharing and no cycles.
#[derive(Debug, PartialEq)]
pub enum ExprAst {
    /// A numeric literal, kept as its source text.
    Number(Vec<u8>),
    /// A reference to a named parameter.
    Variable(Vec<u8>),
    /// An application of a binary operator.
    Binary(Box<BinaryExprAst>),
    /// A call of a named function.
    Call(Box<CallExprAst>),
}

/// A binary operator symbol, derived from a token at parse time.
#[derive(Debug, Clone, Copy, PartialEq, Eq, Structural)]
pub enum OpSymbol {
    Add,
    Sub,
    Mul,
    Div,
    Less,
    Greater,
}

/// A binary operator applied to two subexpressions.
#[derive(Debug, PartialEq)]
pub struct BinaryExprAst {
    pub op: OpSymbol,
    pub lhs: ExprAst,
    pub rhs: ExprAst,
}

/// A call of a named function with ordered arguments.
#[derive(Debug, PartialEq)]
pub struct CallExprAst {
    pub call: Vec<u8>,
    pub args: Vec<ExprAst>,
}

/// A function's name and ordered parameter names.
#[derive(Debug, PartialEq)]
pub struct PrototypeAst {
    pub name: Vec<u8>,
    pub args: Vec<Vec<u8>>,
}

/// A function: a prototype and exactly one body expression.
#[derive(Debug, PartialEq)]
pub struct FunctionAst {
    pub proto: PrototypeAst,
    pub body: ExprAst,
}

/// Mathematical model of an expression.
pub enum SpecExpr {
    Number(Seq<u8>),
    Variable(Seq<u8>),
    Binary(OpSymbol, Box<SpecExpr>, Box<SpecExpr>),
    Call(Seq<u8>, Seq<SpecExpr>),
}

/// Mathematical model of a prototype.
pub struct SpecProto {
    pub name: Seq<u8>,
    pub args: Seq<Seq<u8>>,
}

/// Mathematical model of a function.
pub struct SpecFunc {
    pub proto: SpecProto,
    pub body: SpecExpr,
}

/// The view of an expression tree: the same tree over byte sequences.
pub open spec fn spec_expr_of(e: ExprAst) -> SpecExpr
    decreases e,
{
    match e {
        ExprAst::Number(s) => SpecExpr::Number(s@),
        ExprAst::Variable(s) => SpecExpr::Variable(s@),
        ExprAst::Binary(b) => SpecExpr::Binary(
            b.op,
            Box::new(spec_expr_of(b.lhs)),
            Box::new(spec_expr_of(b.rhs)),
        ),
        ExprAst::Call(c) => SpecExpr::Call(c.call@, spec_exprs_of(c.args@)),
    }
}

/// The views of a sequence of expressions, in order.
pub open spec fn spec_exprs_of(s: Seq<ExprAst>) -> Seq<SpecExpr>
    decreases s,
{
    if s.len() == 0 {
        Seq::empty()
    } else {
        spec_exprs_of(s.drop_last()).push(spec_expr_of(s.last()))
    }
}

pub broadcast proof fn lemma_spec_exprs_of_len(s: Seq<ExprAst>)
    ensures
        (#[trigger] spec_exprs_of(s)).len() == s.len(),
        forall|i: int| 0 <= i < s.len() ==> spec_exprs_of(s)[i] == spec_expr_of(s[i]),
    decreases s,
{
    if s.len() > 0 {
        lemma_spec_exprs_of_len(s.drop_last());
    }
}

impl View for ExprAst {
    type V = SpecExpr;

    open spec fn view(&self) -> SpecExpr {
        spec_expr_of(*self)
    }
}

impl View for PrototypeAst {
    type V = SpecProto;

    open spec fn view(&self) -> SpecProto {
        SpecProto { name: self.name@, args: self.args@.map_values(|a: Vec<u8>| a@) }
    }
}

impl View for FunctionAst {
    type V = SpecFunc;

    open spec fn view(&self) -> SpecFunc {
        SpecFunc { proto: self.proto@, body: self.body@ }
    }
}

/// Which operator a token stands for: the arithmetic and comparison
/// tokens convert, everything else fails.
pub open spec fn spec_op_of(t: SpecToken) -> Result<OpSymbol, SpecParserError> {
    match t {
        SpecToken::Add => Ok(OpSymbol::Add),
        SpecToken::Minus => Ok(OpSymbol::Sub),
        SpecToken::Mul => Ok(OpSymbol::Mul),
        SpecToken::Div => Ok(OpSymbol::Div),
        SpecToken::LeftAngle => Ok(OpSymbol::Less),
        SpecToken::RightAngle => Ok(OpSymbol::Greater),
        _ => Err(SpecParserError::ParseOpSymbolError(t)),
    }
}

impl OpSymbol {
    /// Derives the operator named by a token; an unsupported token fails
    /// conversion with `ParseOpSymbolError`.
    pub fn try_from(value: Token) -> (r: Result<OpSymbol, ParserError>)
        ensures
            match r {
                Ok(op) => spec_op_of(value@) == Ok::<OpSymbol, SpecParserError>(op),
                Err(e) => spec_op_of(value@) == Err::<OpSymbol, SpecParserError>(e@),
            },
    {
        match value {
            Token::Add => Ok(OpSymbol::Add),
            Token::Minus => Ok(OpSymbol::Sub),
            Token::Mul => Ok(OpSymbol::Mul),
            Token::Div => Ok(OpSymbol::Div),
            Token::LeftAngle => Ok(OpSymbol::Less),
            Token::RightAngle => Ok(OpSymbol::Greater),
            _ => Err(ParserError::ParseOpSymbolError(value)),
        }
    }
}

impl BinaryExprAst {
    /// Builds a binary node from an operator and its two operands.
    pub fn new(op: OpSymbol, lhs: ExprAst, rhs: ExprAst) -> (r: Self)
        ensures
            r.op == op,
            r.lhs == lhs,
            r.rhs == rhs,
    {
        Self { op, lhs, rhs }
    }
}

impl CallExprAst {
    /// Builds a call node from a callee name and its ordered arguments.
    pub fn new(call: Vec<u8>, args: Vec<ExprAst>) -> (r: Self)
        ensures
            r.call == call,
            r.args == args,
    {
        Self { call, args }
    }
}

} // verus!
