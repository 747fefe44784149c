//! The lexical units of the language.
//!
//! Tokens are produced by an external scanner and handed to the engine as a
//! flat, fully materialized sequence; the engine refers to them by integer
//! position only.

use vstd::prelude::*;

verus! {

/// One lexical unit: a keyword, literal, identifier, operator or bracket.
///
/// The `Error` variant is the scanner's catch-all for input that matches no
/// token rule; the engine never receives it, since a lexical error aborts the
/// run before execution starts.
#[derive(Debug, Clone)]
pub enum Token {
    Function,
    Value,
    Variable,
    Mold,
    New,
    Print,
    Input,
    If,
    Else,
    While,
    Match,
    Use,
    For,
    In,
    LBracket,
    RBracket,
    LitOff,
    LitOn,
    LitLoading,
    LitError,
    LitUnknown,
    TypeVBit,
    TypeInt,
    NumberLiteral(i32),
    AssignPascal,
    AssignC,
    Arrow,
    Colon,
    Semicolon,
    Dot,
    Comma,
    LBrace,
    RBrace,
    LParen,
    RParen,
    Equals,
    NotEquals,
    LessThan,
    GreaterThan,
    PlusAssign,
    MinusAssign,
    MulAssign,
    DivAssign,
    Plus,
    Minus,
    Identifier(String),
    StringLiteral(String),
    Error,
}

} // verus!
