//! Character classification and conversions between text and characters.
use vstd::prelude::*;

verus! {

/// Whether `char::is_alphanumeric` holds of a character (Unicode's
/// Alphabetic property or a numeric general category).
pub uninterp spec fn alphanumeric(c: char) -> bool;

/// Whether `char::is_numeric` holds of a character (Unicode general
/// categories Nd, Nl and No).
pub uninterp spec fn numeric(c: char) -> bool;

pub open spec fn is_ascii_letter(c: char) -> bool {
    ('a' <= c && c <= 'z') || ('A' <= c && c <= 'Z')
}

pub open spec fn is_ascii_digit(c: char) -> bool {
    '0' <= c && c <= '9'
}

/// A character of an identifier or keyword: in the ASCII range the letters
/// and digits, elsewhere what `char::is_alphanumeric` accepts.
pub open spec fn is_word_char(c: char) -> bool {
    if (c as u32) < 128 {
        is_ascii_letter(c) || is_ascii_digit(c)
    } else {
        alphanumeric(c)
    }
}

/// A character of a numeral: in the ASCII range the digits, elsewhere what
/// `char::is_numeric` accepts.
pub open spec fn is_digit_char(c: char) -> bool {
    if (c as u32) < 128 {
        is_ascii_digit(c)
    } else {
        numeric(c)
    }
}

/// Calls `char::is_alphanumeric`. Its result is named `alphanumeric(c)`; of
/// the ASCII range the contract states the whole answer: the letters and the
/// decimal digits, and nothing else there.
#[verifier::external_body]
pub(crate) fn is_alphanumeric(c: char) -> (res: bool)
    ensures
        res == alphanumeric(c),
        (c as u32) < 128 ==> (res <==> (is_ascii_letter(c) || is_ascii_digit(c))),
{
    c.is_alphanumeric()
}

/// Calls `char::is_numeric`. Its result is named `numeric(c)`; of the ASCII
/// range the contract states the whole answer: the decimal digits.
#[verifier::external_body]
pub(crate) fn is_numeric(c: char) -> (res: bool)
    ensures
        res == numeric(c),
        (c as u32) < 128 ==> (res <==> is_ascii_digit(c)),
{
    c.is_numeric()
}

/// Calls `String::from_iter` on a vector of characters: the string holds
/// exactly those characters, in order.
#[verifier::external_body]
pub(crate) fn string_from_chars(chars: Vec<char>) -> (res: String)
    ensures
        res@ == chars@,
{
    String::from_iter(chars)
}

/// The characters of a text, in order.
pub fn chars_of(text: &str) -> (res: Vec<char>)
    ensures
        res@ == text@,
{
    let mut res: Vec<char> = Vec::new();
    for c in it: text.chars()
        invariant
            res@ == it.seq().take(it.index() as int),
    {
        res.push(c);
    }
    res
}

} // verus!
