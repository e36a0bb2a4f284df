//! Decimal numerals and the other pieces of text that messages are made of.
use vstd::prelude::*;

use crate::chars::string_from_chars;

verus! {

/// The character of a decimal digit.
pub open spec fn digit_char(d: nat) -> char
    recommends
        d < 10,
{
    (48 + d) as char
}

/// The decimal numeral of `n`, without leading zeros, as `Display` prints an
/// unsigned integer.
pub open spec fn decimal(n: nat) -> Seq<char>
    decreases n,
{
    if n < 10 {
        seq![digit_char(n)]
    } else {
        decimal(n / 10).push(digit_char(n % 10))
    }
}

/// The decimal numeral of `n`.
pub fn decimal_string(n: usize) -> (res: String)
    ensures
        res@ == decimal(n as nat),
{
    // Digits from the least significant on.
    let mut reversed: Vec<char> = Vec::new();
    let mut m = n;
    loop
        invariant_except_break
            decimal(n as nat) == decimal(m as nat) + reversed@.reverse(),
        ensures
            decimal(n as nat) == reversed@.reverse(),
        decreases m,
    {
        let d = (m % 10) as u8;
        let c = (48u8 + d) as char;
        assert(c == digit_char((m % 10) as nat));
        let ghost before = reversed@;
        reversed.push(c);
        if m < 10 {
            assert(reversed@.reverse() =~= seq![c] + before.reverse());
            assert(decimal(m as nat) =~= seq![c]);
            break;
        }
        assert(reversed@.reverse() =~= seq![c] + before.reverse());
        assert(decimal(m as nat) =~= decimal((m / 10) as nat) + seq![c]);
        m = m / 10;
    }
    let mut digits: Vec<char> = Vec::new();
    let mut i = reversed.len();
    while i > 0
        invariant
            i <= reversed.len(),
            digits@ == reversed@.subrange(i as int, reversed@.len() as int).reverse(),
        decreases i,
    {
        i -= 1;
        let ghost before = digits@;
        digits.push(reversed[i]);
        assert(reversed@.subrange(i as int, reversed@.len() as int) =~= seq![reversed@[i as int]] + reversed@.subrange(i + 1, reversed@.len() as int));
        assert(digits@ =~= reversed@.subrange(i as int, reversed@.len() as int).reverse());
    }
    assert(reversed@.subrange(0, reversed@.len() as int) =~= reversed@);
    string_from_chars(digits)
}

/// A text of one character.
pub fn char_string(c: char) -> (res: String)
    ensures
        res@ == seq![c],
{
    let mut v: Vec<char> = Vec::new();
    v.push(c);
    assert(v@ =~= seq![c]);
    string_from_chars(v)
}

} // verus!
