//! Numbers that are read from text.

use crate::text::{decimal_digits, digit};
use vstd::prelude::*;

verus! {

/// Whether a character is a decimal digit.
pub open spec fn is_digit(c: char) -> bool {
    '0' <= c <= '9'
}

/// Whether every character of a text is a decimal digit.
pub open spec fn all_digits(text: Seq<char>) -> bool {
    forall|i: int| 0 <= i < text.len() ==> is_digit(#[trigger] text[i])
}

/// The number that a text of digits stands for.
pub open spec fn digits_value(text: Seq<char>) -> nat
    decreases text.len(),
{
    if text.len() == 0 {
        0
    } else {
        digits_value(text.drop_last()) * 10 + (text.last() as nat - '0' as nat) as nat
    }
}

/// A text without the plus sign that it may start with.
pub open spec fn unsigned(text: Seq<char>) -> Seq<char> {
    if text.len() > 0 && text[0] == '+' {
        text.skip(1)
    } else {
        text
    }
}

/// The number that a text stands for: digits, at least one of them, with a plus sign in front
/// or without, for a number that fits 32 bits.
pub open spec fn number_in(text: Seq<char>) -> Option<u32> {
    let digits = unsigned(text);
    if digits.len() == 0 || !all_digits(digits) || digits_value(digits) > u32::MAX {
        None
    } else {
        Some(digits_value(digits) as u32)
    }
}

/// The value of a text of digits is at least that of what it starts with.
proof fn lemma_value_grows(text: Seq<char>, n: int)
    requires
        0 <= n <= text.len(),
    ensures
        digits_value(text.take(n)) <= digits_value(text),
    decreases text.len() - n,
{
    if n < text.len() {
        lemma_value_grows(text, n + 1);
        assert(text.take(n + 1).drop_last() =~= text.take(n));
    } else {
        assert(text.take(n) =~= text);
    }
}

/// The number that a text stands for, if it stands for one.
pub fn parse_u32(text: &str) -> (number: Option<u32>)
    ensures
        number == number_in(text@),
{
    let len: usize = text.unicode_len();
    let mut start: usize = 0;
    if len > 0 && text.get_char(0) == '+' {
        start = 1;
    }
    let ghost digits = unsigned(text@);
    assert(digits =~= text@.skip(start as int));
    if start == len {
        return None;
    }
    let mut value: u64 = 0;
    let mut i: usize = start;
    assert(digits.take(0) =~= Seq::<char>::empty());
    while i < len
        invariant
            start <= i <= len,
            start <= 1,
            len == text@.len(),
            digits == unsigned(text@),
            digits == text@.skip(start as int),
            value <= u32::MAX,
            value == digits_value(digits.take(i - start)),
            forall|k: int| 0 <= k < i - start ==> is_digit(#[trigger] digits[k]),
        decreases len - i,
    {
        let c = text.get_char(i);
        assert(digits[i - start] == c);
        if c < '0' || '9' < c {
            assert(!is_digit(digits[i - start]));
            return None;
        }
        assert(digits.take(i - start + 1).drop_last() =~= digits.take(i - start));
        value = value * 10 + (c as u32 - '0' as u32) as u64;
        if value > u32::MAX as u64 {
            proof {
                lemma_value_grows(digits, i - start + 1);
            }
            return None;
        }
        i += 1;
    }
    assert(digits.take(len - start) =~= digits);
    Some(value as u32)
}

/// What is written in decimal reads back as the same number.
pub proof fn law_decimal_reads_back(n: u32)
    ensures
        number_in(decimal_digits(n as nat)) == Some(n),
{
    lemma_decimal_value(n as nat);
    let text = decimal_digits(n as nat);
    assert(is_digit(text[0]));
    assert(unsigned(text) == text);
}

/// The digits of a number stand for it.
proof fn lemma_decimal_value(n: nat)
    ensures
        all_digits(decimal_digits(n)),
        decimal_digits(n).len() > 0,
        digits_value(decimal_digits(n)) == n,
    decreases n,
{
    let text = decimal_digits(n);
    if n < 10 {
        assert(text.drop_last() =~= Seq::<char>::empty());
        assert(digits_value(Seq::<char>::empty()) == 0);
        assert(text.last() == digit(n as int));
    } else {
        lemma_decimal_value(n / 10);
        let head = decimal_digits(n / 10);
        assert(text.drop_last() =~= head);
        assert forall|i: int| 0 <= i < text.len() implies is_digit(#[trigger] text[i]) by {
            if i < head.len() {
                assert(text[i] == head[i]);
            }
        }
    }
}

/// What is written in decimal holds digits only, and no zero leads it but that of zero itself.
pub proof fn law_decimal_is_plain(n: nat)
    ensures
        decimal_digits(n).len() > 0,
        forall|i: int| 0 <= i < decimal_digits(n).len() ==> '0' <= #[trigger] decimal_digits(n)[i] <= '9',
        n > 0 ==> decimal_digits(n)[0] != '0',
        n == 0 ==> decimal_digits(n) == seq!['0'],
    decreases n,
{
    lemma_decimal_value(n);
    assert forall|i: int| 0 <= i < decimal_digits(n).len() implies '0' <= #[trigger] decimal_digits(
        n,
    )[i] <= '9' by {
        assert(is_digit(decimal_digits(n)[i]));
    }
    if n >= 10 {
        law_decimal_is_plain(n / 10);
    }
}

/// A number is read digit by digit: one digit stands for its own value, and a digit behind a
/// number adds its value to ten times that number, where the result still fits.
pub proof fn law_digits_are_read_in_turn(text: Seq<char>, c: char)
    requires
        '0' <= c <= '9',
    ensures
        number_in(seq![c]) == Some((c as u32 - '0' as u32) as u32),
        number_in(text) is Some ==> number_in(text.push(c)) == (if number_in(text)->0 * 10 + (c as u32
            - '0' as u32) <= u32::MAX {
            Some((number_in(text)->0 * 10 + (c as u32 - '0' as u32)) as u32)
        } else {
            None
        }),
{
    let one = seq![c];
    assert(one.drop_last() =~= Seq::<char>::empty());
    assert(digits_value(Seq::<char>::empty()) == 0);
    assert(digits_value(one) == c as nat - '0' as nat);
    assert(unsigned(one) == one);
    if number_in(text) is Some {
        let digits = unsigned(text);
        let more = unsigned(text.push(c));
        assert(more =~= digits.push(c));
        assert(more.drop_last() =~= digits);
        assert(all_digits(more)) by {
            assert forall|i: int| 0 <= i < more.len() implies is_digit(#[trigger] more[i]) by {
                if i < digits.len() {
                    assert(is_digit(digits[i]));
                }
            }
        }
    }
}

/// A plus sign in front of a number is passed over, once. Text without a digit, and text with
/// anything else in it, stands for no number.
pub proof fn law_only_numbers_are_read(text: Seq<char>)
    ensures
        text.len() > 0 && text[0] != '+' ==> number_in(seq!['+'] + text) == number_in(text),
        text.len() == 0 ==> number_in(text) is None && number_in(seq!['+'] + text) is None,
        (exists|i: int|
            0 <= i < text.len() && !('0' <= #[trigger] text[i] <= '9') && !(i == 0 && text[i]
                == '+')) ==> number_in(text) is None,
{
    assert((seq!['+'] + text).skip(1) =~= text);
    if exists|i: int|
        0 <= i < text.len() && !('0' <= #[trigger] text[i] <= '9') && !(i == 0 && text[i] == '+') {
        let i = choose|i: int|
            0 <= i < text.len() && !('0' <= #[trigger] text[i] <= '9') && !(i == 0 && text[i]
                == '+');
        let digits = unsigned(text);
        let at = if text[0] == '+' {
            i - 1
        } else {
            i
        };
        assert(!is_digit(digits[at]));
    }
}

} // verus!
