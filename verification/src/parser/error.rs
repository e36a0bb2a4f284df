use vstd::prelude::*;

use crate::text::{decimal, decimal_string};
use crate::token::{Token, TokenView};

verus! {

/// What the parser expected and did not find.
#[derive(Debug, Clone, Copy, PartialEq, Eq)]
pub enum ParserErrorType {
    ExpectedId,
    ExpectedColon,
    ExpectedSemicolon,
    NotADictionary,
    ExpectedNumber,
    UnexpectedEof,
    InvalidStatement,
    NonTerminatedDictionary,
    InvalidSelect,
    NoStringAfterFrom,
}

/// A parse error, with the token at which it was found.
#[derive(Debug)]
pub struct ParserError {
    pub token: Token,
    pub error_type: ParserErrorType,
}

/// Mathematical model of [`ParserError`].
pub struct ParserErrorView {
    pub token: TokenView,
    pub error_type: ParserErrorType,
}

impl View for ParserError {
    type V = ParserErrorView;

    open spec fn view(&self) -> ParserErrorView {
        ParserErrorView { token: self.token@, error_type: self.error_type }
    }
}

pub type ParserResult<T> = Result<T, ParserError>;

/// What an error says, given the way the offending token's type is written
/// (`found`).
pub open spec fn parser_error_message(error_type: ParserErrorType, found: Seq<char>) -> Seq<char> {
    match error_type {
        ParserErrorType::ExpectedId => "Expected ID, but found "@ + found + " instead"@,
        ParserErrorType::NotADictionary => "Expected dictionary, but found "@ + found + " intead"@,
        ParserErrorType::ExpectedNumber => "Expected number, but found "@ + found + " instead"@,
        ParserErrorType::UnexpectedEof => "Unexpected End Of File"@,
        ParserErrorType::InvalidStatement => "A statement cannot begin with the token "@ + found,
        ParserErrorType::ExpectedColon => "Expected colon, found "@ + found,
        ParserErrorType::ExpectedSemicolon => "Expected semicolon to terminate statement, found "@
            + found,
        ParserErrorType::NonTerminatedDictionary => "Dictionary has to be terminated by '}', but found "@
            + found,
        ParserErrorType::InvalidSelect => "SELECT can only be followed by FROM or an string, but found "@
            + found,
        ParserErrorType::NoStringAfterFrom => "Expected string after FROM, but found "@ + found,
    }
}

/// The message, preceded by the position of the offending token:
/// `[line L:C] message`.
pub open spec fn parser_error_text(e: ParserErrorView, found: Seq<char>) -> Seq<char> {
    "[line "@ + decimal(e.token.line) + ":"@ + decimal(e.token.column) + "] "@
        + parser_error_message(e.error_type, found)
}

impl ParserError {
    pub fn new(token: Token, error_type: ParserErrorType) -> (res: Self)
        ensures
            res@ == (ParserErrorView { token: token@, error_type }),
    {
        Self { token, error_type }
    }

    /// The text of the error, where `found` is the way the type of the
    /// offending token is written.
    pub fn message(&self, found: &str) -> (res: String)
        ensures
            res@ == parser_error_text(self@, found@),
    {
        let text = match self.error_type {
            ParserErrorType::ExpectedId => {
                let mut m = String::from_str("Expected ID, but found ");
                m.append(found);
                m.append(" instead");
                m
            },
            ParserErrorType::NotADictionary => {
                let mut m = String::from_str("Expected dictionary, but found ");
                m.append(found);
                m.append(" intead");
                m
            },
            ParserErrorType::ExpectedNumber => {
                let mut m = String::from_str("Expected number, but found ");
                m.append(found);
                m.append(" instead");
                m
            },
            ParserErrorType::UnexpectedEof => String::from_str("Unexpected End Of File"),
            ParserErrorType::InvalidStatement => {
                let mut m = String::from_str("A statement cannot begin with the token ");
                m.append(found);
                m
            },
            ParserErrorType::ExpectedColon => {
                let mut m = String::from_str("Expected colon, found ");
                m.append(found);
                m
            },
            ParserErrorType::ExpectedSemicolon => {
                let mut m = String::from_str("Expected semicolon to terminate statement, found ");
                m.append(found);
                m
            },
            ParserErrorType::NonTerminatedDictionary => {
                let mut m = String::from_str("Dictionary has to be terminated by '}', but found ");
                m.append(found);
                m
            },
            ParserErrorType::InvalidSelect => {
                let mut m = String::from_str(
                    "SELECT can only be followed by FROM or an string, but found ",
                );
                m.append(found);
                m
            },
            ParserErrorType::NoStringAfterFrom => {
                let mut m = String::from_str("Expected string after FROM, but found ");
                m.append(found);
                m
            },
        };
        let mut res = String::from_str("[line ");
        res.append(decimal_string(self.token.get_line()).as_str());
        res.append(":");
        res.append(decimal_string(self.token.get_column()).as_str());
        res.append("] ");
        res.append(text.as_str());
        res
    }
}

} // verus!
