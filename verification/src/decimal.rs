//! Counts as text: what the two number fields of the form hold while the
//! user edits them.

use crate::text::chars_of;
use vstd::prelude::*;

verus! {

/// One of the ten digits.
pub open spec fn is_digit(c: char) -> bool {
    '0' <= c <= '9'
}

/// What a digit counts.
pub open spec fn digit_value(c: char) -> nat {
    (c as nat - '0' as nat) as nat
}

/// Whether a text is made of digits alone.
pub open spec fn all_digits(text: Seq<char>) -> bool {
    forall|i: int| 0 <= i < text.len() ==> is_digit(#[trigger] text[i])
}

/// The number that a run of digits writes, in base ten.
pub open spec fn digits_value(digits: Seq<char>) -> nat
    decreases digits.len(),
{
    if digits.len() == 0 {
        0
    } else {
        digits_value(digits.drop_last()) * 10 + digit_value(digits.last())
    }
}

/// The digits of a text that may open with a plus sign.
pub open spec fn unsigned_part(text: Seq<char>) -> Seq<char> {
    if text.len() > 0 && text[0] == '+' {
        text.drop_first()
    } else {
        text
    }
}

/// The count that a text stands for: an optional plus sign, then one digit or
/// more, writing a number that fits. Any other text stands for none.
pub open spec fn parsed(text: Seq<char>) -> Option<usize> {
    let digits = unsigned_part(text);
    if digits.len() > 0 && all_digits(digits) && digits_value(digits) <= usize::MAX {
        Some(digits_value(digits) as usize)
    } else {
        None
    }
}

/// The text of a number: its digits in base ten, without leading zeros.
pub open spec fn decimal_digits(n: nat) -> Seq<char>
    decreases n,
{
    if n < 10 {
        seq![digit_char(n)]
    } else {
        decimal_digits(n / 10).push(digit_char(n % 10))
    }
}

/// The digit that counts `d`.
pub open spec fn digit_char(d: nat) -> char {
    (d + '0' as nat) as char
}

/// Appending digits never makes the number smaller.
proof fn lemma_value_grows(digits: Seq<char>, k: int)
    requires
        0 <= k <= digits.len(),
    ensures
        digits_value(digits.take(k)) <= digits_value(digits),
    decreases digits.len() - k,
{
    if k < digits.len() {
        lemma_value_grows(digits, k + 1);
        assert(digits.take(k + 1).drop_last() =~= digits.take(k));
    } else {
        assert(digits.take(k) =~= digits);
    }
}

/// Reads a count from `text`.
pub fn parse_usize(text: &str) -> (count: Option<usize>)
    ensures
        count == parsed(text@),
{
    let chars = chars_of(text);
    let start: usize = if chars.len() > 0 && chars[0] == '+' {
        1
    } else {
        0
    };
    let ghost digits = unsigned_part(text@);
    assert(digits =~= chars@.subrange(start as int, chars@.len() as int));
    if start == chars.len() {
        return None;
    }
    let mut value: usize = 0;
    let mut i: usize = start;
    assert(digits.take(0) =~= Seq::<char>::empty());
    while i < chars.len()
        invariant
            start <= i <= chars@.len(),
            digits == unsigned_part(text@),
            digits == chars@.subrange(start as int, chars@.len() as int),
            all_digits(digits.take(i - start)),
            value == digits_value(digits.take(i - start)),
        decreases chars@.len() - i,
    {
        let c = chars[i];
        let ghost done = digits.take(i - start);
        let ghost next = digits.take(i - start + 1);
        proof {
            assert(next.drop_last() =~= done);
            assert(next.last() == c);
            lemma_value_grows(digits, i - start + 1);
        }
        if !(c >= '0' && c <= '9') {
            assert(!is_digit(digits[i - start]));
            return None;
        }
        let digit: usize = (c as u32 - '0' as u32) as usize;
        assert(digit == digit_value(c));
        assert(all_digits(next)) by {
            assert forall|j: int| 0 <= j < next.len() implies is_digit(#[trigger] next[j]) by {
                if j < done.len() {
                    assert(next[j] == done[j]);
                }
            }
        }
        let grown = match value.checked_mul(10) {
            Some(tens) => tens.checked_add(digit),
            None => None,
        };
        match grown {
            Some(v) => {
                value = v;
            },
            None => {
                assert(digits_value(next) > usize::MAX);
                return None;
            },
        }
        i += 1;
    }
    assert(digits.take(digits.len() as int) =~= digits);
    Some(value)
}

/// Writes a count as text.
pub fn decimal_string(n: usize) -> (text: String)
    ensures
        text@ == decimal_digits(n as nat),
{
    let mut reversed: Vec<char> = Vec::new();
    let mut rest: usize = n;
    while rest >= 10
        invariant
            forall|head: Seq<char>|
                #![trigger head + reversed@.reverse()]
                decimal_digits(rest as nat) == head ==> decimal_digits(n as nat) == head
                    + reversed@.reverse(),
        decreases rest,
    {
        let digit = digit_of(rest % 10);
        proof {
            let before = reversed@;
            let after = before.push(digit);
            assert forall|head: Seq<char>|
                #![trigger head + after.reverse()]
                decimal_digits((rest / 10) as nat) == head implies decimal_digits(n as nat) == head
                + after.reverse() by {
                let longer = head.push(digit);
                assert(decimal_digits(rest as nat) == longer);
                assert(longer + before.reverse() =~= head + after.reverse());
            }
        }
        reversed.push(digit);
        rest = rest / 10;
    }
    let mut text = String::new();
    text.push(digit_of(rest));
    let ghost head = decimal_digits(rest as nat);
    assert(text@ =~= head);
    assert(decimal_digits(n as nat) == head + reversed@.reverse());
    let mut k: usize = reversed.len();
    while k > 0
        invariant
            k <= reversed@.len(),
            text@ == head + reversed@.reverse().take(reversed@.len() - k),
        decreases k,
    {
        k -= 1;
        text.push(reversed[k]);
        proof {
            let r = reversed@.reverse();
            let len = reversed@.len() as int;
            assert(r.take(len - k) =~= r.take(len - k - 1).push(reversed@[k as int]));
            assert(text@ =~= head + r.take(len - k));
        }
    }
    assert(reversed@.reverse().take(reversed@.len() as int) =~= reversed@.reverse());
    text
}

/// The digit that counts `d`.
fn digit_of(d: usize) -> (c: char)
    requires
        d < 10,
    ensures
        c == digit_char(d as nat),
        is_digit(c),
        digit_value(c) == d,
{
    let code: u8 = 48 + d as u8;
    code as char
}

/// The text of a count stands for that count.
pub proof fn lemma_decimal_round_trip(n: usize)
    ensures
        parsed(decimal_digits(n as nat)) == Some(n),
{
    lemma_decimal_value(n as nat);
    let text = decimal_digits(n as nat);
    assert(text[0] != '+');
}

/// The text of a number is one digit or more, digits alone, and writes the
/// number.
proof fn lemma_decimal_value(n: nat)
    ensures
        decimal_digits(n).len() > 0,
        all_digits(decimal_digits(n)),
        digits_value(decimal_digits(n)) == n,
    decreases n,
{
    let text = decimal_digits(n);
    if n < 10 {
        assert(text.drop_last() =~= Seq::<char>::empty());
        assert(digits_value(text.drop_last()) == 0);
    } else {
        lemma_decimal_value(n / 10);
        let front = decimal_digits(n / 10);
        assert(text.drop_last() =~= front);
        assert forall|i: int| 0 <= i < text.len() implies is_digit(#[trigger] text[i]) by {
            if i < front.len() {
                assert(text[i] == front[i]);
            }
        }
    }
}

} // verus!
