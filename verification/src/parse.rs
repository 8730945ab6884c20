//! Reading the head of a notation: `Q` or `UQ`, then the integer bits.

use vstd::prelude::*;
use vstd::string::{StrSliceExecFns, StringExecFns};
use crate::layout::Layout;
use crate::text::decimal_text;

verus! {

/// Why a notation cannot be read.
#[derive(Clone, Copy, Debug, PartialEq, Eq)]
pub enum ParseError {
    /// The notation starts with neither `UQ` nor `Q`.
    ExpectedNotation,
    /// What follows `UQ` or `Q` is no integer that fits in eight bits.
    ExpectedInteger,
}

impl ParseError {
    /// The text of the diagnostic.
    pub open spec fn message_text(self) -> Seq<char> {
        match self {
            ParseError::ExpectedNotation => "Expected UQ or Q"@,
            ParseError::ExpectedInteger => "Expected integer"@,
        }
    }

    /// Writes the diagnostic.
    pub fn message(&self) -> (text: String)
        ensures
            text@ == self.message_text(),
    {
        match self {
            ParseError::ExpectedNotation => String::from_str("Expected UQ or Q"),
            ParseError::ExpectedInteger => String::from_str("Expected integer"),
        }
    }
}

/// Whether `ch` is a decimal digit.
pub open spec fn is_digit(ch: char) -> bool {
    '0' <= ch && ch <= '9'
}

/// The value of a decimal digit; zero for any other character.
pub open spec fn digit_value(ch: char) -> nat {
    if is_digit(ch) {
        (ch as int - '0' as int) as nat
    } else {
        0
    }
}

/// The number that a sequence of decimal digits writes; zero when empty.
pub open spec fn digits_value(digits: Seq<char>) -> nat
    decreases digits.len(),
{
    if digits.len() == 0 {
        0
    } else {
        10 * digits_value(digits.drop_last()) + digit_value(digits.last())
    }
}

/// The text without a leading `+`, if it has one.
pub open spec fn without_plus(text: Seq<char>) -> Seq<char> {
    if text.len() > 0 && text[0] == '+' {
        text.subrange(1, text.len() as int)
    } else {
        text
    }
}

/// The eight-bit number that `text` writes: an optional `+`, then one or more
/// decimal digits and nothing else, with a value of at most 255.
pub open spec fn parsed_u8(text: Seq<char>) -> Option<u8> {
    let digits = without_plus(text);
    if digits.len() > 0 && (forall|i: int| 0 <= i < digits.len() ==> is_digit(#[trigger] digits[i]))
        && digits_value(digits) <= 255 {
        Some(digits_value(digits) as u8)
    } else {
        None
    }
}

/// What the head of a notation says: `UQ` announces an unsigned number, `Q`
/// alone a signed one, and the rest is the number of integer bits. The pair
/// holds whether the number is signed, and the integer bits.
pub open spec fn parsed_notation(token: Seq<char>) -> Result<(bool, u8), ParseError> {
    if token.len() >= 2 && token[0] == 'U' && token[1] == 'Q' {
        match parsed_u8(token.subrange(2, token.len() as int)) {
            Some(int_bits) => Ok((false, int_bits)),
            None => Err(ParseError::ExpectedInteger),
        }
    } else if token.len() >= 1 && token[0] == 'Q' {
        match parsed_u8(token.subrange(1, token.len() as int)) {
            Some(int_bits) => Ok((true, int_bits)),
            None => Err(ParseError::ExpectedInteger),
        }
    } else {
        Err(ParseError::ExpectedNotation)
    }
}

/// Appending digits never lowers the value written so far.
pub proof fn lemma_digits_value_grows(digits: Seq<char>, shorter: int)
    requires
        0 <= shorter <= digits.len(),
    ensures
        digits_value(digits.subrange(0, shorter)) <= digits_value(digits),
    decreases digits.len(),
{
    if shorter < digits.len() {
        lemma_digits_value_grows(digits.drop_last(), shorter);
        assert(digits.drop_last().subrange(0, shorter) =~= digits.subrange(0, shorter));
    } else {
        assert(digits.subrange(0, shorter) =~= digits);
    }
}

/// Reads the number of integer bits: an optional `+` and decimal digits that
/// write a number of at most 255.
pub fn parse_int_bits(input: &str) -> (int_bits: Result<u8, ParseError>)
    ensures
        int_bits == match parsed_u8(input@) {
            Some(value) => Ok::<u8, ParseError>(value),
            None => Err::<u8, ParseError>(ParseError::ExpectedInteger),
        },
{
    let len: usize = input.unicode_len();
    let start: usize = if len > 0 && input.get_char(0) == '+' {
        1
    } else {
        0
    };
    if start == len {
        return Err(ParseError::ExpectedInteger);
    }
    let ghost digits: Seq<char> = without_plus(input@);
    let mut value: u16 = 0;
    let mut i: usize = start;
    while i < len
        invariant
            start <= i <= len,
            len == input@.len(),
            start <= 1,
            digits == without_plus(input@),
            digits == input@.subrange(start as int, len as int),
            value == digits_value(digits.subrange(0, i - start)),
            value <= 255,
            forall|j: int| 0 <= j < i - start ==> is_digit(#[trigger] digits[j]),
        decreases len - i,
    {
        let ch: char = input.get_char(i);
        assert(ch == digits[i - start]);
        if !(ch >= '0' && ch <= '9') {
            return Err(ParseError::ExpectedInteger);
        }
        let digit: u16 = (ch as u32 - '0' as u32) as u16;
        proof {
            assert(digits.subrange(0, i - start + 1).drop_last() =~= digits.subrange(
                0,
                i - start,
            ));
        }
        value = value * 10 + digit;
        if value > 255 {
            proof {
                lemma_digits_value_grows(digits, i - start + 1);
            }
            return Err(ParseError::ExpectedInteger);
        }
        i = i + 1;
    }
    proof {
        assert(digits.subrange(0, len - start) =~= digits);
    }
    Ok(value as u8)
}

/// Reads the head of a notation, such as `Q12` or `UQ5`, into whether the
/// number is signed and how many integer bits it has.
pub fn parse_notation(token: &str) -> (head: Result<(bool, u8), ParseError>)
    ensures
        head == parsed_notation(token@),
{
    let len: usize = token.unicode_len();
    if len >= 2 && token.get_char(0) == 'U' && token.get_char(1) == 'Q' {
        match parse_int_bits(token.substring_char(2, len)) {
            Ok(int_bits) => Ok((false, int_bits)),
            Err(error) => Err(error),
        }
    } else if len >= 1 && token.get_char(0) == 'Q' {
        match parse_int_bits(token.substring_char(1, len)) {
            Ok(int_bits) => Ok((true, int_bits)),
            Err(error) => Err(error),
        }
    } else {
        Err(ParseError::ExpectedNotation)
    }
}

/// A number written in decimal reads back as itself: its text is one or more
/// digits whose value is the number.
pub proof fn lemma_decimal_text_value(n: nat)
    ensures
        decimal_text(n).len() >= 1,
        forall|i: int| 0 <= i < decimal_text(n).len() ==> is_digit(#[trigger] decimal_text(n)[i]),
        digits_value(decimal_text(n)) == n,
    decreases n,
{
    if n < 10 {
        let text = decimal_text(n);
        assert(text.drop_last() =~= Seq::<char>::empty());
        assert(digits_value(text.drop_last()) == 0);
    } else {
        lemma_decimal_text_value(n / 10);
        let text = decimal_text(n);
        assert(text.drop_last() =~= decimal_text(n / 10));
    }
}

/// What [`parse_int_bits`] accepts includes every eight-bit number written
/// in decimal, and it reads the number that was written.
pub proof fn lemma_parse_decimal_round_trip(n: u8)
    ensures
        parsed_u8(decimal_text(n as nat)) == Some(n),
{
    lemma_decimal_text_value(n as nat);
}

/// The head of the notation of a layout reads back as the layout's
/// signedness and integer bits.
pub proof fn lemma_parse_notation_round_trip(layout: Layout)
    requires
        layout.int_bits <= 255,
    ensures
        parsed_notation(layout.notation_head()) == Ok::<(bool, u8), ParseError>(
            (layout.signed, layout.int_bits as u8),
        ),
{
    let digits = decimal_text(layout.int_bits);
    let head = layout.notation_head();
    lemma_decimal_text_value(layout.int_bits);
    if layout.signed {
        assert(head.subrange(1, head.len() as int) =~= digits);
    } else {
        assert(head.subrange(2, head.len() as int) =~= digits);
    }
}

} // verus!
