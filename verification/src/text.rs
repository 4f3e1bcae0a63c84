//! Building texts: a text or a number in decimal put at the end of a
//! text.

use vstd::prelude::*;

verus! {

/// Appending a character to a text.
///
/// Trusted: `String::push` of the standard library, which puts the
/// character at the end of the text and leaves what stood there as it
/// was.
pub assume_specification[ String::push ](text: &mut String, ch: char)
    ensures
        final(text)@ == old(text)@.push(ch),
;

/// Appending a text to a text.
///
/// Trusted: `String::push_str` of the standard library, which puts the
/// slice at the end of the text and leaves what stood there as it was.
pub assume_specification[ String::push_str ](text: &mut String, string: &str)
    ensures
        final(text)@ == old(text)@ + string@,
;

/// The character of a decimal digit.
pub open spec fn digit_char(d: nat) -> char {
    (48 + d) as u8 as char
}

/// The decimal digits of a number as characters, the leading one first.
pub open spec fn digit_chars(n: nat) -> Seq<char>
    decreases n,
{
    if n < 10 {
        seq![digit_char(n)]
    } else {
        digit_chars(n / 10).push(digit_char(n % 10))
    }
}

/// A whole number in decimal: a minus sign before the digits of a
/// negative one.
pub open spec fn number_text(n: int) -> Seq<char> {
    if n < 0 {
        seq!['-'] + digit_chars((-n) as nat)
    } else {
        digit_chars(n as nat)
    }
}

/// Appends the decimal digits of a number to a text.
pub fn push_digits(text: &mut String, n: u64)
    ensures
        final(text)@ == old(text)@ + digit_chars(n as nat),
    decreases n,
{
    let ghost start = text@;
    if n >= 10 {
        push_digits(text, n / 10);
    }
    text.push((48 + (n % 10) as u8) as char);
    proof {
        if n >= 10 {
            assert(text@ =~= start + digit_chars(n as nat));
        } else {
            assert(text@ =~= start + digit_chars(n as nat));
        }
    }
}

/// Appends a whole number in decimal to a text.
pub fn push_number(text: &mut String, n: i64)
    ensures
        final(text)@ == old(text)@ + number_text(n as int),
{
    let ghost start = text@;
    if n < 0 {
        text.push('-');
        push_digits(text, (-(n as i128)) as u64);
        proof {
            assert(text@ =~= start + number_text(n as int));
        }
    } else {
        push_digits(text, n as u64);
    }
}

} // verus!
