use crate::reader::{token_shape, Tok, Token};
use crate::value::{value_view, Val, Value};
use vstd::prelude::*;

verus! {

/// Failures of the character-level reader.
#[derive(Debug, Clone, PartialEq)]
pub enum TokenizeError {
    UnexpectedChar(char),
    UnclosedString,
}

/// The model of a `TokenizeError`.
pub enum LexFault {
    UnexpectedChar(char),
    UnclosedString,
}

pub open spec fn lex_error_view(e: TokenizeError) -> LexFault {
    match e {
        TokenizeError::UnexpectedChar(c) => LexFault::UnexpectedChar(c),
        TokenizeError::UnclosedString => LexFault::UnclosedString,
    }
}

/// Failures of the reader that turns text into expression trees.
#[derive(Debug, Clone, PartialEq)]
pub enum ParseError {
    UnexpectedToken { expected: Token, found: Token },
    MissingToken(Token),
    InvalidSyntax(Token),
    InvalidDigit(String),
    LexicalError(TokenizeError),
    NonConvertibleToken(Token),
    UnexpectedEOF,
}

/// The model of a `ParseError`.
pub enum ParseFault {
    UnexpectedToken(Tok, Tok),
    MissingToken(Tok),
    InvalidSyntax(Tok),
    InvalidDigit(Seq<char>),
    LexicalError(LexFault),
    NonConvertibleToken(Tok),
    UnexpectedEOF,
}

pub open spec fn parse_error_view(e: ParseError) -> ParseFault {
    match e {
        ParseError::UnexpectedToken { expected, found } => ParseFault::UnexpectedToken(token_shape(expected), token_shape(found)),
        ParseError::MissingToken(t) => ParseFault::MissingToken(token_shape(t)),
        ParseError::InvalidSyntax(t) => ParseFault::InvalidSyntax(token_shape(t)),
        ParseError::InvalidDigit(d) => ParseFault::InvalidDigit(d@),
        ParseError::LexicalError(l) => ParseFault::LexicalError(lex_error_view(l)),
        ParseError::NonConvertibleToken(t) => ParseFault::NonConvertibleToken(token_shape(t)),
        ParseError::UnexpectedEOF => ParseFault::UnexpectedEOF,
    }
}

/// Failures of evaluation.
#[allow(inconsistent_fields)]
#[derive(Debug, Clone, PartialEq)]
pub enum RuntimeError {
    UndefinedVariable(String),
    UndefinedFunction(String),
    TypeError { expected: String, founded: Value },
    OperationError { operation: String, lhs_type: String, rhs_type: String },
    InvalidListLength { expected: usize, founded: usize },
    InvalidArity { expected: usize, founded: usize },
    DivideByZero,
    NonCallableValue(Value),
    EmptyList,
    SyntaxError(ParseError),
    InvalidClosure,
    StepLimitExceeded,
}

/// The model of a `RuntimeError`.
pub enum Fault {
    UndefinedVariable(Seq<char>),
    UndefinedFunction(Seq<char>),
    TypeError(Seq<char>, Val),
    OperationError(Seq<char>, Seq<char>, Seq<char>),
    InvalidListLength(usize, usize),
    InvalidArity(usize, usize),
    DivideByZero,
    NonCallableValue(Val),
    EmptyList,
    SyntaxError,
    InvalidClosure,
    StepLimitExceeded,
}

pub open spec fn error_view(e: RuntimeError) -> Fault {
    match e {
        RuntimeError::UndefinedVariable(n) => Fault::UndefinedVariable(n@),
        RuntimeError::UndefinedFunction(n) => Fault::UndefinedFunction(n@),
        RuntimeError::TypeError { expected, founded } => Fault::TypeError(expected@, value_view(founded)),
        RuntimeError::OperationError { operation, lhs_type, rhs_type } =>
            Fault::OperationError(operation@, lhs_type@, rhs_type@),
        RuntimeError::InvalidListLength { expected, founded } => Fault::InvalidListLength(expected, founded),
        RuntimeError::InvalidArity { expected, founded } => Fault::InvalidArity(expected, founded),
        RuntimeError::DivideByZero => Fault::DivideByZero,
        RuntimeError::NonCallableValue(v) => Fault::NonCallableValue(value_view(v)),
        RuntimeError::EmptyList => Fault::EmptyList,
        RuntimeError::SyntaxError(_) => Fault::SyntaxError,
        RuntimeError::InvalidClosure => Fault::InvalidClosure,
        RuntimeError::StepLimitExceeded => Fault::StepLimitExceeded,
    }
}

/// The model of an evaluation outcome.
pub open spec fn result_view(r: Result<Value, RuntimeError>) -> Result<Val, Fault> {
    match r {
        Ok(v) => Ok(value_view(v)),
        Err(e) => Err(error_view(e)),
    }
}

} // verus!
