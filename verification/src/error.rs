//! The error taxonomy: lexer, parser and code-generator failures, composed
//! into one top-level `Error` value. Every fallible operation of the library
//! returns one of these; nothing panics and nothing is silently discarded.

use vstd::prelude::*;

use crate::lex::SpecToken;
use crate::lex::Token;

verus! {

/// A failure while tokenizing the input.
#[derive(Debug, Clone, PartialEq, Eq, Structural)]
pub enum LexError {
    /// Reserved for stricter lexing; not produced by the current
    /// tokenization order, where any unclaimed byte starts an identifier.
    UnsupportedSymbol(u8),
    /// A string literal was interrupted by a newline before its closing quote.
    UnclosedString,
    /// A numeric literal does not form a valid 64-bit float.
    ParseFloatError,
    /// Reserved for an underlying read failure; a byte-vector input
    /// cannot fail to read.
    IoError,
}

/// A failure while parsing the token stream.
#[derive(Debug, Clone, PartialEq)]
pub enum ParserError {
    /// A prototype did not start with an identifier.
    ExpectedFunctionName,
    /// The token cannot be converted to a binary operator.
    ParseOpSymbolError(Token),
    /// No primary expression can start with this token.
    UnexpectedToken(Token),
    /// A list or bracket was not shaped as required; the text names the
    /// expectation.
    SyntaxError(String),
}

/// Mathematical model of a `ParserError`.
pub enum SpecParserError {
    ExpectedFunctionName,
    ParseOpSymbolError(SpecToken),
    UnexpectedToken(SpecToken),
    SyntaxError(Seq<char>),
}

impl View for ParserError {
    type V = SpecParserError;

    open spec fn view(&self) -> SpecParserError {
        match self {
            ParserError::ExpectedFunctionName => SpecParserError::ExpectedFunctionName,
            ParserError::ParseOpSymbolError(t) => SpecParserError::ParseOpSymbolError(t@),
            ParserError::UnexpectedToken(t) => SpecParserError::UnexpectedToken(t@),
            ParserError::SyntaxError(s) => SpecParserError::SyntaxError(s@),
        }
    }
}

impl ParserError {
    /// Wraps a message into a `SyntaxError` inside the top-level error type.
    pub fn syn_err<T>(err: &str) -> (r: Result<T, Error>)
        ensures
            r matches Err(e) && e@ == SpecError::ParserError(
                SpecParserError::SyntaxError(err@),
            ),
    {
        Err(Error::ParserError(ParserError::SyntaxError(err.to_owned())))
    }
}

/// A failure while lowering an abstract syntax tree to the intermediate
/// representation.
#[derive(Debug, Clone, PartialEq)]
pub enum CompileError {
    /// A defensive error for a handle that does not refer to anything,
    /// such as emitting outside an open function body.
    InvalidHandle,
    /// A variable reference that the symbol table does not know.
    UnknownVariableName(Vec<u8>),
    /// A call to a function the module does not declare or define.
    UnknownFunction(Vec<u8>),
    /// A call whose argument count differs from the callee's arity.
    IncorrectArguments { expected: usize, got: usize },
    /// A defensive error for a call argument that lowered to an invalid
    /// value handle.
    FunctionArgumentIsNull,
    /// A function name that already has a body received a second one.
    FunctionRedefined,
}

/// Mathematical model of a `CompileError`.
pub enum SpecCompileError {
    InvalidHandle,
    UnknownVariableName(Seq<u8>),
    UnknownFunction(Seq<u8>),
    IncorrectArguments { expected: int, got: int },
    FunctionArgumentIsNull,
    FunctionRedefined,
}

impl View for CompileError {
    type V = SpecCompileError;

    open spec fn view(&self) -> SpecCompileError {
        match self {
            CompileError::InvalidHandle => SpecCompileError::InvalidHandle,
            CompileError::UnknownVariableName(s) => SpecCompileError::UnknownVariableName(s@),
            CompileError::UnknownFunction(s) => SpecCompileError::UnknownFunction(s@),
            CompileError::IncorrectArguments { expected, got } => {
                SpecCompileError::IncorrectArguments {
                    expected: *expected as int,
                    got: *got as int,
                }
            },
            CompileError::FunctionArgumentIsNull => SpecCompileError::FunctionArgumentIsNull,
            CompileError::FunctionRedefined => SpecCompileError::FunctionRedefined,
        }
    }
}

/// The top-level error value: each stage's failures, kept apart.
#[derive(Debug, Clone, PartialEq)]
pub enum Error {
    LexError(LexError),
    ParserError(ParserError),
    CompileError(CompileError),
}

/// Mathematical model of an `Error`.
pub enum SpecError {
    LexError(LexError),
    ParserError(SpecParserError),
    CompileError(SpecCompileError),
}

impl View for Error {
    type V = SpecError;

    open spec fn view(&self) -> SpecError {
        match self {
            Error::LexError(e) => SpecError::LexError(*e),
            Error::ParserError(e) => SpecError::ParserError(e@),
            Error::CompileError(e) => SpecError::CompileError(e@),
        }
    }
}

} // verus!
