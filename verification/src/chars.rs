//! Character classes used by the expression grammar.

use vstd::prelude::*;

verus! {

/// A decimal digit `'0'..='9'`.
pub open spec fn is_digit(c: char) -> bool {
    '0' <= c && c <= '9'
}

/// A binary operator of the calculator grammar.
pub open spec fn is_op(c: char) -> bool {
    c == '+' || c == '-' || c == '*' || c == '/' || c == '%'
}

/// A character that may stand inside a numeric token.
pub open spec fn is_token_char(c: char) -> bool {
    is_digit(c) || c == '.'
}

/// The numeric value of a digit character.
pub open spec fn digit_val(c: char) -> int {
    c as int - '0' as int
}

/// The digit character for a value below ten.
pub open spec fn digit_char(d: int) -> char {
    if d == 0 { '0' }
    else if d == 1 { '1' }
    else if d == 2 { '2' }
    else if d == 3 { '3' }
    else if d == 4 { '4' }
    else if d == 5 { '5' }
    else if d == 6 { '6' }
    else if d == 7 { '7' }
    else if d == 8 { '8' }
    else { '9' }
}

/// Executable digit test, equal to `is_digit`.
pub fn digit(c: char) -> (r: bool)
    ensures
        r == is_digit(c),
{
    '0' <= c && c <= '9'
}

/// Executable operator test, equal to `is_op`.
pub fn op(c: char) -> (r: bool)
    ensures
        r == is_op(c),
{
    c == '+' || c == '-' || c == '*' || c == '/' || c == '%'
}

/// Executable token-character test, equal to `is_token_char`.
pub fn token_char(c: char) -> (r: bool)
    ensures
        r == is_token_char(c),
{
    digit(c) || c == '.'
}

/// The numeric value of a digit character, as a machine integer.
pub fn digit_value(c: char) -> (d: u32)
    requires
        is_digit(c),
    ensures
        d == digit_val(c),
        d < 10,
{
    c as u32 - '0' as u32
}

/// The digit character for a value below ten, as executable code.
pub fn value_digit(d: u64) -> (c: char)
    requires
        d < 10,
    ensures
        c == digit_char(d as int),
{
    if d == 0 { '0' }
    else if d == 1 { '1' }
    else if d == 2 { '2' }
    else if d == 3 { '3' }
    else if d == 4 { '4' }
    else if d == 5 { '5' }
    else if d == 6 { '6' }
    else if d == 7 { '7' }
    else if d == 8 { '8' }
    else { '9' }
}

} // verus!
