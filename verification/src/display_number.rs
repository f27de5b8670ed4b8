//! Single-character base-62 digits, used to address an entry by its index.
//!
//! The digits are `0`-`9` for 0 to 9, `a`-`z` for 10 to 35 and `A`-`Z` for
//! 36 to 61.

use vstd::prelude::*;

verus! {

/// The marker that stands for a number with no base-62 digit.
pub const INVALID_DIGIT: char = '\u{FFFD}';

/// The digit that stands for `n`, or [`INVALID_DIGIT`] when `n` is above 61.
pub open spec fn digit_of(n: nat) -> char {
    if n <= 9 {
        ('0' as u32 + n) as char
    } else if n <= 35 {
        ('a' as u32 + n - 10) as char
    } else if n <= 61 {
        ('A' as u32 + n - 36) as char
    } else {
        INVALID_DIGIT
    }
}

/// Whether `c` is one of the 62 digits.
pub open spec fn is_digit(c: char) -> bool {
    ||| '0' as u32 <= c as u32 <= '9' as u32
    ||| 'a' as u32 <= c as u32 <= 'z' as u32
    ||| 'A' as u32 <= c as u32 <= 'Z' as u32
}

/// The number that the digit `c` stands for, if `c` is a digit.
pub open spec fn value_of(c: char) -> Option<nat> {
    if '0' as u32 <= c as u32 <= '9' as u32 {
        Some((c as u32 - '0' as u32) as nat)
    } else if 'a' as u32 <= c as u32 <= 'z' as u32 {
        Some((c as u32 - 'a' as u32 + 10) as nat)
    } else if 'A' as u32 <= c as u32 <= 'Z' as u32 {
        Some((c as u32 - 'A' as u32 + 36) as nat)
    } else {
        None
    }
}

/// Encodes `num` as one base-62 digit. Numbers above 61 have no digit and
/// give [`INVALID_DIGIT`].
pub fn num_to_char(num: usize) -> (c: char)
    ensures
        c == digit_of(num as nat),
        num <= 61 ==> is_digit(c),
        num > 61 ==> c == INVALID_DIGIT,
{
    if num <= 9 {
        ('0' as u8 + num as u8) as char
    } else if num <= 35 {
        ('a' as u8 + (num - 10) as u8) as char
    } else if num <= 61 {
        ('A' as u8 + (num - 36) as u8) as char
    } else {
        INVALID_DIGIT
    }
}

/// Decodes one base-62 digit. Upper and lower case differ; any character
/// that is not a digit gives `None`.
pub fn char_to_num(c: char) -> (n: Option<usize>)
    ensures
        n.is_some() <==> is_digit(c),
        match n {
            Some(v) => value_of(c) == Some(v as nat) && v <= 61,
            None => value_of(c).is_none(),
        },
{
    let code: u32 = c as u32;
    if '0' as u32 <= code && code <= '9' as u32 {
        Some((code - '0' as u32) as usize)
    } else if 'a' as u32 <= code && code <= 'z' as u32 {
        Some((code - 'a' as u32 + 10) as usize)
    } else if 'A' as u32 <= code && code <= 'Z' as u32 {
        Some((code - 'A' as u32 + 36) as usize)
    } else {
        None
    }
}

/// Decoding undoes encoding: every number from 0 to 61 is the value of its
/// own digit.
pub proof fn lemma_decode_encode(n: nat)
    requires
        n <= 61,
    ensures
        is_digit(digit_of(n)),
        value_of(digit_of(n)) == Some(n),
{
}

/// Encoding undoes decoding: every digit is the digit of its own value.
pub proof fn lemma_encode_decode(c: char)
    requires
        is_digit(c),
    ensures
        value_of(c).is_some(),
        value_of(c).unwrap() <= 61,
        digit_of(value_of(c).unwrap()) == c,
{
}

/// The marker for an invalid number is itself no digit, so it decodes to
/// nothing.
pub proof fn lemma_invalid_digit_has_no_value()
    ensures
        !is_digit(INVALID_DIGIT),
        value_of(INVALID_DIGIT).is_none(),
        forall|n: nat| n > 61 ==> value_of(#[trigger] digit_of(n)).is_none(),
{
}

} // verus!
