//! Decimal numbers as text.
use vstd::prelude::*;
use vstd::utf8::decode_utf8;
use vstd::utf8::encode_utf8;
use vstd::utf8::encode_utf8_decode_utf8;
use vstd::utf8::encode_utf8_valid_utf8;
use vstd::utf8::valid_utf8;

use crate::text::chars_of;
use crate::text::utf8_text;

verus! {

/// The character of a digit.
pub open spec fn digit_char(digit: nat) -> char {
    ((48 + digit) as u8) as char
}

/// The decimal digits of a number.
pub open spec fn decimal(value: nat) -> Seq<char>
    decreases value,
{
    if value < 10 {
        seq![digit_char(value)]
    } else {
        decimal(value / 10).push(digit_char(value % 10))
    }
}

/// Why a text is no number of a width.
#[derive(Clone, Copy, Debug, PartialEq, Eq, Structural)]
pub enum NumberFault {
    Empty,
    InvalidDigit,
    TooLarge,
}

/// A character is a digit.
pub open spec fn is_digit(c: char) -> bool {
    '0' <= c && c <= '9'
}

/// The value of a digit.
pub open spec fn digit_value(c: char) -> nat {
    (c as u32 - 48) as nat
}

/// The number that digits stand for, read from the left on top of a number; digits after a fault
/// do not matter.
pub open spec fn digits_on(value: nat, digits: Seq<char>, max: nat) -> Result<nat, NumberFault>
    decreases digits.len(),
{
    if digits.len() == 0 {
        Ok(value)
    } else if !is_digit(digits[0]) {
        Err(NumberFault::InvalidDigit)
    } else if value * 10 + digit_value(digits[0]) > max {
        Err(NumberFault::TooLarge)
    } else {
        digits_on(value * 10 + digit_value(digits[0]), digits.drop_first(), max)
    }
}

/// The number up to a maximum that a text stands for: digits, with a plus sign before them or not.
pub open spec fn number_of(text: Seq<char>, max: nat) -> Result<nat, NumberFault> {
    if text.len() == 0 {
        Err(NumberFault::Empty)
    } else if text[0] == '+' {
        if text.len() == 1 {
            Err(NumberFault::InvalidDigit)
        } else {
            digits_on(0, text.drop_first(), max)
        }
    } else {
        digits_on(0, text, max)
    }
}

/// What a fault is called.
pub open spec fn fault_text(fault: NumberFault) -> Seq<char> {
    match fault {
        NumberFault::Empty => "cannot parse integer from empty string"@,
        NumberFault::InvalidDigit => "invalid digit found in string"@,
        NumberFault::TooLarge => "number too large to fit in target type"@,
    }
}

impl NumberFault {
    /// What a fault is called.
    pub fn message(self) -> (result: &'static str)
        ensures
            result@ == fault_text(self),
    {
        match self {
            NumberFault::Empty => "cannot parse integer from empty string",
            NumberFault::InvalidDigit => "invalid digit found in string",
            NumberFault::TooLarge => "number too large to fit in target type",
        }
    }
}

/// The number up to a maximum that a text stands for.
pub fn parse_number(text: &str, max: u64) -> (result: Result<u64, NumberFault>)
    ensures
        match result {
            Ok(value) => number_of(text@, max as nat) == Ok::<nat, NumberFault>(value as nat)
                && value <= max,
            Err(fault) => number_of(text@, max as nat) == Err::<nat, NumberFault>(fault),
        },
{
    let chars: Vec<char> = chars_of(text);
    if chars.len() == 0 {
        return Err(NumberFault::Empty);
    }
    let mut index: usize = 0;
    if chars[0] == '+' {
        if chars.len() == 1 {
            return Err(NumberFault::InvalidDigit);
        }
        index = 1;
    }
    let mut value: u64 = 0;
    proof {
        assert(text@.skip(0) =~= text@);
        assert(text@.skip(1) =~= text@.drop_first());
    }
    while index < chars.len()
        invariant
            index <= chars@.len(),
            chars@ == text@,
            value <= max,
            number_of(text@, max as nat) == digits_on(
                value as nat,
                text@.skip(index as int),
                max as nat,
            ),
        decreases chars@.len() - index,
    {
        let c: char = chars[index];
        assert(text@.skip(index as int)[0] == c);
        assert(text@.skip(index as int).drop_first() =~= text@.skip(index + 1));
        if c < '0' || c > '9' {
            return Err(NumberFault::InvalidDigit);
        }
        let digit: u64 = (c as u32 - 48) as u64;
        let next: u128 = value as u128 * 10 + digit as u128;
        if next > max as u128 {
            return Err(NumberFault::TooLarge);
        }
        value = next as u64;
        index += 1;
    }
    Ok(value)
}

/// Decimal digits are ASCII.
pub proof fn decimal_is_ascii(value: nat)
    ensures
        decimal(value).len() > 0,
        forall|i: int| 0 <= i < decimal(value).len() ==> is_digit(#[trigger] decimal(value)[i]),
    decreases value,
{
    if value >= 10 {
        decimal_is_ascii(value / 10);
    }
}

/// The bytes of ASCII characters decode to the characters.
proof fn ascii_text(chars: Seq<char>, bytes: Seq<u8>)
    requires
        chars.len() == bytes.len(),
        forall|i: int|
            0 <= i < chars.len() ==> is_digit(#[trigger] chars[i]) && bytes[i] == chars[i] as u8,
    ensures
        valid_utf8(bytes),
        decode_utf8(bytes) == chars,
{
    assert(vstd::utf8::is_ascii_chars(chars));
    vstd::utf8::is_ascii_chars_encode_utf8(chars);
    assert(encode_utf8(chars) =~= bytes);
    encode_utf8_valid_utf8(chars);
    encode_utf8_decode_utf8(chars);
}

/// The decimal digits of a number.
pub fn decimal_text(value: u64) -> (result: String)
    ensures
        result@ == decimal(value as nat),
{
    let mut reversed: Vec<u8> = Vec::new();
    let mut rest: u64 = value;
    let ghost goal = decimal(value as nat);
    assert(goal =~= decimal(rest as nat) + Seq::<char>::empty());
    let ghost mut tail = Seq::<char>::empty();
    while rest >= 10
        invariant
            goal == decimal(rest as nat) + tail,
            tail.len() == reversed@.len(),
            forall|i: int|
                #![trigger reversed@[i]]
                0 <= i < reversed@.len() ==> reversed@[i] == tail[tail.len() - 1 - i] as u8
                    && is_digit(tail[tail.len() - 1 - i]),
        decreases rest,
    {
        let digit: u8 = 48 + (rest % 10) as u8;
        let ghost before = tail;
        let ghost bytes = reversed@;
        proof {
            tail = seq![digit_char((rest % 10) as nat)] + tail;
            assert(decimal(rest as nat) + before =~= decimal((rest / 10) as nat) + tail);
        }
        reversed.push(digit);
        proof {
            assert forall|i: int|
                #![trigger reversed@[i]]
                0 <= i < reversed@.len() implies reversed@[i] == tail[tail.len() - 1 - i] as u8
                && is_digit(tail[tail.len() - 1 - i]) by {
                if i < bytes.len() {
                    assert(reversed@[i] == bytes[i]);
                    assert(tail[tail.len() - 1 - i] == before[before.len() - 1 - i]);
                }
            }
        }
        rest = rest / 10;
    }
    let ghost before = tail;
    let ghost bytes = reversed@;
    reversed.push(48 + rest as u8);
    proof {
        tail = seq![digit_char(rest as nat)] + tail;
        assert(goal =~= tail);
        assert forall|i: int|
            #![trigger reversed@[i]]
            0 <= i < reversed@.len() implies reversed@[i] == tail[tail.len() - 1 - i] as u8
            && is_digit(tail[tail.len() - 1 - i]) by {
            if i < bytes.len() {
                assert(reversed@[i] == bytes[i]);
                assert(tail[tail.len() - 1 - i] == before[before.len() - 1 - i]);
            }
        }
    }
    let mut digits: Vec<u8> = Vec::new();
    let mut left: usize = reversed.len();
    while left > 0
        invariant
            left <= reversed@.len(),
            goal.len() == reversed@.len(),
            digits@.len() == reversed@.len() - left,
            forall|i: int|
                #![trigger reversed@[i]]
                0 <= i < reversed@.len() ==> reversed@[i] == goal[goal.len() - 1 - i] as u8
                    && is_digit(goal[goal.len() - 1 - i]),
            forall|i: int|
                0 <= i < digits@.len() ==> (#[trigger] digits@[i]) == goal[i] as u8 && is_digit(
                    goal[i],
                ),
        decreases left,
    {
        left = left - 1;
        digits.push(reversed[left]);
    }
    proof {
        decimal_is_ascii(value as nat);
        ascii_text(goal, digits@);
    }
    match utf8_text(digits.as_slice()) {
        Some(text) => text,
        None => String::new(),
    }
}

/// Reading the digits of a number, on top of nothing, gives the number.
proof fn digits_back(value: nat, max: nat, tail: Seq<char>)
    requires
        value <= max,
    ensures
        digits_on(0, decimal(value) + tail, max) == digits_on(value, tail, max),
    decreases value,
{
    if value < 10 {
        let text = decimal(value) + tail;
        assert(text[0] == digit_char(value));
        assert(text.drop_first() =~= tail);
    } else {
        let last = digit_char(value % 10);
        let rest = seq![last] + tail;
        assert(decimal(value) + tail =~= decimal(value / 10) + rest);
        digits_back(value / 10, max, rest);
        assert(rest.drop_first() =~= tail);
        assert((value / 10) * 10 + value % 10 == value);
    }
}

/// A number that was written as text is read back.
pub proof fn written_number_reads_back(value: nat, max: nat)
    requires
        value <= max,
    ensures
        number_of(decimal(value), max) == Ok::<nat, NumberFault>(value),
{
    decimal_is_ascii(value);
    digits_back(value, max, Seq::empty());
    assert(decimal(value) + Seq::<char>::empty() =~= decimal(value));
    assert(is_digit(decimal(value)[0]));
}

} // verus!
