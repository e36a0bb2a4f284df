//! Tokens: what the tokenizer yields and the parser reads.
use vstd::prelude::*;

verus! {

/// The kind of a token, with the text that an identifier, a number or a
/// string literal carries.
///
/// A number keeps the numeral as it was written (`80`, `10.5`): its value is
/// the decimal number that the numeral denotes.
#[derive(Debug)]
pub enum TokenType {
    Semicolon,
    Comma,
    Colon,
    Load,
    Predict,
    Train,
    Init,
    Split,
    Analyze,
    Evaluate,
    Select,
    Id(String),
    Number(String),
    RightBrace,
    LeftBrace,
    Eof,
    From,
    String(String),
}

/// Mathematical model of [`TokenType`]: texts become character sequences.
pub enum TokenKind {
    Semicolon,
    Comma,
    Colon,
    Load,
    Predict,
    Train,
    Init,
    Split,
    Analyze,
    Evaluate,
    Select,
    Id(Seq<char>),
    Number(Seq<char>),
    RightBrace,
    LeftBrace,
    Eof,
    From,
    Str(Seq<char>),
}

impl View for TokenType {
    type V = TokenKind;

    open spec fn view(&self) -> TokenKind {
        match self {
            TokenType::Semicolon => TokenKind::Semicolon,
            TokenType::Comma => TokenKind::Comma,
            TokenType::Colon => TokenKind::Colon,
            TokenType::Load => TokenKind::Load,
            TokenType::Predict => TokenKind::Predict,
            TokenType::Train => TokenKind::Train,
            TokenType::Init => TokenKind::Init,
            TokenType::Split => TokenKind::Split,
            TokenType::Analyze => TokenKind::Analyze,
            TokenType::Evaluate => TokenKind::Evaluate,
            TokenType::Select => TokenKind::Select,
            TokenType::Id(s) => TokenKind::Id(s@),
            TokenType::Number(s) => TokenKind::Number(s@),
            TokenType::RightBrace => TokenKind::RightBrace,
            TokenType::LeftBrace => TokenKind::LeftBrace,
            TokenType::Eof => TokenKind::Eof,
            TokenType::From => TokenKind::From,
            TokenType::String(s) => TokenKind::Str(s@),
        }
    }
}

impl Clone for TokenType {
    fn clone(&self) -> (res: Self)
        ensures
            res@ == self@,
    {
        match self {
            TokenType::Semicolon => TokenType::Semicolon,
            TokenType::Comma => TokenType::Comma,
            TokenType::Colon => TokenType::Colon,
            TokenType::Load => TokenType::Load,
            TokenType::Predict => TokenType::Predict,
            TokenType::Train => TokenType::Train,
            TokenType::Init => TokenType::Init,
            TokenType::Split => TokenType::Split,
            TokenType::Analyze => TokenType::Analyze,
            TokenType::Evaluate => TokenType::Evaluate,
            TokenType::Select => TokenType::Select,
            TokenType::Id(s) => TokenType::Id(s.clone()),
            TokenType::Number(s) => TokenType::Number(s.clone()),
            TokenType::RightBrace => TokenType::RightBrace,
            TokenType::LeftBrace => TokenType::LeftBrace,
            TokenType::Eof => TokenType::Eof,
            TokenType::From => TokenType::From,
            TokenType::String(s) => TokenType::String(s.clone()),
        }
    }
}

/// A token with the position of its first character: `line` counts from 1,
/// `column` as described for the tokenizer.
#[derive(Debug)]
pub struct Token {
    token_type: TokenType,
    column: usize,
    line: usize,
}

/// Mathematical model of [`Token`].
pub struct TokenView {
    pub kind: TokenKind,
    pub column: nat,
    pub line: nat,
}

impl View for Token {
    type V = TokenView;

    closed spec fn view(&self) -> TokenView {
        TokenView { kind: self.token_type@, column: self.column as nat, line: self.line as nat }
    }
}

impl Clone for Token {
    fn clone(&self) -> (res: Self)
        ensures
            res@ == self@,
    {
        Token { token_type: self.token_type.clone(), column: self.column, line: self.line }
    }
}

impl Token {
    pub fn new(token_type: TokenType, column: usize, line: usize) -> (res: Token)
        ensures
            res@ == (TokenView { kind: token_type@, column: column as nat, line: line as nat }),
    {
        Self { token_type, column, line }
    }

    pub fn get_type(&self) -> (res: &TokenType)
        ensures
            res@ == self@.kind,
    {
        &self.token_type
    }

    pub fn get_line(&self) -> (res: usize)
        ensures
            res == self@.line,
    {
        self.line
    }

    pub fn get_column(&self) -> (res: usize)
        ensures
            res == self@.column,
    {
        self.column
    }
}

} // verus!
