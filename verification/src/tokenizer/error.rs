use vstd::prelude::*;

use crate::text::{char_string, decimal, decimal_string};

verus! {

#[verifier::external_type_specification]
#[verifier::external_body]
pub struct ExIoError(std::io::Error);

/// What can go wrong while tokenizing; each error but the I/O error carries
/// the position of the offending text.
#[derive(Debug)]
pub enum TokenizerError {
    UnknownCharacter { character: char, byte: u8, line: usize, column: usize },
    UnterminatedString { line: usize, column: usize },
    InvalidNumber { value: String, line: usize, column: usize, reason: String },
    IoError(std::io::Error),
}

/// Mathematical model of [`TokenizerError`]; of an I/O error only that it
/// is one.
pub enum TokenizerErrorView {
    UnknownCharacter { character: char, byte: u8, line: nat, column: nat },
    UnterminatedString { line: nat, column: nat },
    InvalidNumber { value: Seq<char>, line: nat, column: nat, reason: Seq<char> },
    IoError,
}

impl View for TokenizerError {
    type V = TokenizerErrorView;

    open spec fn view(&self) -> TokenizerErrorView {
        match self {
            TokenizerError::UnknownCharacter { character, byte, line, column } =>
                TokenizerErrorView::UnknownCharacter {
                    character: *character,
                    byte: *byte,
                    line: *line as nat,
                    column: *column as nat,
                },
            TokenizerError::UnterminatedString { line, column } =>
                TokenizerErrorView::UnterminatedString { line: *line as nat, column: *column as nat },
            TokenizerError::InvalidNumber { value, line, column, reason } =>
                TokenizerErrorView::InvalidNumber {
                    value: value@,
                    line: *line as nat,
                    column: *column as nat,
                    reason: reason@,
                },
            TokenizerError::IoError(_) => TokenizerErrorView::IoError,
        }
    }
}

pub type TokenizerResult<T> = Result<T, TokenizerError>;

/// A printable ASCII character other than space: `'!'` to `'~'`.
pub open spec fn is_ascii_graphic(c: char) -> bool {
    '!' <= c && c <= '~'
}

/// The text of an error that is not an I/O error.
pub open spec fn tokenizer_error_text(e: TokenizerErrorView) -> Seq<char> {
    match e {
        TokenizerErrorView::UnknownCharacter { character, byte, line, column } => if is_ascii_graphic(
            character,
        ) {
            "Unknown character '"@ + seq![character] + "' (byte "@ + decimal(byte as nat)
                + ") at line "@ + decimal(line) + ", column "@ + decimal(column)
        } else {
            "Unknown character (byte "@ + decimal(byte as nat) + ") at line "@ + decimal(line)
                + ", column "@ + decimal(column)
        },
        TokenizerErrorView::UnterminatedString { line, column } =>
            "Unterminated string starting at line "@ + decimal(line) + ", column "@ + decimal(column),
        TokenizerErrorView::InvalidNumber { value, line, column, reason } => "Invalid number '"@
            + value + "' at line "@ + decimal(line) + ", column "@ + decimal(column) + ": "@ + reason,
        TokenizerErrorView::IoError => "I/O error"@,
    }
}

impl TokenizerError {
    /// The text of the error. That of an I/O error is `I/O error: ` and the
    /// system's description of it.
    pub fn message(&self) -> (res: String)
        ensures
            !(self@ is IoError) ==> res@ == tokenizer_error_text(self@),
            self@ is IoError ==> res@.len() >= 11 && res@.subrange(0, 11) == "I/O error: "@,
    {
        match self {
            TokenizerError::UnknownCharacter { character, byte, line, column } => {
                let mut res;
                if '!' <= *character && *character <= '~' {
                    res = String::from_str("Unknown character '");
                    res.append(char_string(*character).as_str());
                    res.append("' (byte ");
                } else {
                    res = String::from_str("Unknown character (byte ");
                }
                res.append(decimal_string(*byte as usize).as_str());
                res.append(") at line ");
                res.append(decimal_string(*line).as_str());
                res.append(", column ");
                res.append(decimal_string(*column).as_str());
                res
            },
            TokenizerError::UnterminatedString { line, column } => {
                let mut res = String::from_str("Unterminated string starting at line ");
                res.append(decimal_string(*line).as_str());
                res.append(", column ");
                res.append(decimal_string(*column).as_str());
                res
            },
            TokenizerError::InvalidNumber { value, line, column, reason } => {
                let mut res = String::from_str("Invalid number '");
                res.append(value.as_str());
                res.append("' at line ");
                res.append(decimal_string(*line).as_str());
                res.append(", column ");
                res.append(decimal_string(*column).as_str());
                res.append(": ");
                res.append(reason.as_str());
                res
            },
            TokenizerError::IoError(e) => {
                let mut res = String::from_str("I/O error: ");
                let ghost prefix = res@;
                res.append(e.to_string().as_str());
                proof {
                    reveal_strlit("I/O error: ");
                    assert(res@.subrange(0, 11) =~= prefix);
                }
                res
            },
        }
    }
}

impl From<std::io::Error> for TokenizerError {
    fn from(error: std::io::Error) -> (res: Self) {
        Self::IoError(error)
    }
}

impl vstd::std_specs::convert::FromSpecImpl<std::io::Error> for TokenizerError {
    open spec fn obeys_from_spec() -> bool {
        true
    }

    open spec fn from_spec(v: std::io::Error) -> Self {
        TokenizerError::IoError(v)
    }
}

} // verus!
