//! Whole numbers as decimal text.

use vstd::prelude::*;

verus! {

/// Whether `c` is one of the digits `0` to `9`.
pub open spec fn is_digit(c: char) -> bool {
    '0' <= c <= '9'
}

/// The number that the digit `c` stands for.
pub open spec fn digit_value(c: char) -> int {
    c as int - '0' as int
}

/// The digit that stands for `d`, a number from 0 to 9.
pub open spec fn digit_char(d: int) -> char {
    (d + '0' as int) as char
}

/// Whether `text` holds digits only.
pub open spec fn all_digits(text: Seq<char>) -> bool {
    forall|i: int| 0 <= i < text.len() ==> is_digit(#[trigger] text[i])
}

/// The number that a text of digits stands for; leading zeros do not count.
pub open spec fn digits_value(text: Seq<char>) -> int
    decreases text.len(),
{
    if text.len() == 0 {
        0
    } else {
        digits_value(text.drop_last()) * 10 + digit_value(text.last())
    }
}

/// The number that `text` stands for if it is one or more digits and the
/// number is not above `max`.
pub open spec fn parsed_unsigned(text: Seq<char>, max: int) -> Option<int> {
    if text.len() > 0 && all_digits(text) && digits_value(text) <= max {
        Some(digits_value(text))
    } else {
        None
    }
}

/// The number that `text` stands for if it is one or more digits behind an
/// optional `+` or `-` and the number lies between `min` and `max`.
pub open spec fn parsed_signed(text: Seq<char>, min: int, max: int) -> Option<int> {
    if text.len() > 0 && text[0] == '-' {
        match parsed_unsigned(text.skip(1), -min) {
            Some(magnitude) => Some(-magnitude),
            None => None,
        }
    } else if text.len() > 0 && text[0] == '+' {
        parsed_unsigned(text.skip(1), max)
    } else {
        parsed_unsigned(text, max)
    }
}

/// The 32-bit number that `text` stands for.
pub open spec fn parsed_i32(text: Seq<char>) -> Option<i32> {
    match parsed_signed(text, i32::MIN as int, i32::MAX as int) {
        Some(value) => Some(value as i32),
        None => None,
    }
}

/// The digits of `n`, without leading zeros.
pub open spec fn digits_of(n: nat) -> Seq<char>
    decreases n,
{
    if n < 10 {
        seq![digit_char(n as int)]
    } else {
        digits_of(n / 10).push(digit_char((n % 10) as int))
    }
}

/// The decimal text of `n`: its digits, behind a `-` if it is negative.
pub open spec fn decimal_of(n: int) -> Seq<char> {
    if n < 0 {
        seq!['-'] + digits_of((-n) as nat)
    } else {
        digits_of(n as nat)
    }
}

/// A text of digits stands for no less than any of its beginnings.
pub proof fn lemma_digits_value_grows(text: Seq<char>, len: int)
    requires
        all_digits(text),
        0 <= len <= text.len(),
    ensures
        0 <= digits_value(text.take(len)) <= digits_value(text),
    decreases text.len() - len,
{
    if len == text.len() {
        assert(text.take(len) =~= text);
        lemma_digits_value_is_natural(text);
    } else {
        lemma_digits_value_grows(text, len + 1);
        let longer = text.take(len + 1);
        assert(longer.drop_last() =~= text.take(len));
        assert(is_digit(text[len]));
        assert(longer.last() == text[len]);
        assert(all_digits(text.take(len))) by {
            assert forall|i: int| 0 <= i < len implies is_digit(#[trigger] text.take(len)[i]) by {
                assert(text.take(len)[i] == text[i]);
            }
        }
        lemma_digits_value_is_natural(text.take(len));
    }
}

/// A text of digits stands for a natural number.
pub proof fn lemma_digits_value_is_natural(text: Seq<char>)
    requires
        all_digits(text),
    ensures
        digits_value(text) >= 0,
    decreases text.len(),
{
    if text.len() > 0 {
        let shorter = text.drop_last();
        assert forall|i: int| 0 <= i < shorter.len() implies is_digit(#[trigger] shorter[i]) by {
            assert(shorter[i] == text[i]);
        }
        lemma_digits_value_is_natural(shorter);
        assert(is_digit(text[text.len() - 1]));
    }
}

/// The digits of a number are digits, at least one, and stand for the
/// number.
pub proof fn lemma_digits_round_trip(n: nat)
    ensures
        digits_of(n).len() > 0,
        all_digits(digits_of(n)),
        digits_value(digits_of(n)) == n,
    decreases n,
{
    if n < 10 {
        let text = digits_of(n);
        assert(text.drop_last() =~= Seq::<char>::empty());
        assert(digits_value(text.drop_last()) == 0);
    } else {
        lemma_digits_round_trip(n / 10);
        let text = digits_of(n);
        let shorter = digits_of(n / 10);
        assert(text.drop_last() =~= shorter);
        assert(text.last() == digit_char((n % 10) as int));
        assert forall|i: int| 0 <= i < text.len() implies is_digit(#[trigger] text[i]) by {
            if i < shorter.len() {
                assert(text[i] == shorter[i]);
            }
        }
    }
}

/// Reading the decimal text of a number gives the number back.
pub proof fn lemma_decimal_round_trip(n: int, min: int, max: int)
    requires
        min <= n <= max,
    ensures
        parsed_signed(decimal_of(n), min, max) == Some(n),
{
    let text = decimal_of(n);
    if n < 0 {
        lemma_digits_round_trip((-n) as nat);
        assert(text.skip(1) =~= digits_of((-n) as nat));
        assert(text[0] == '-');
    } else {
        lemma_digits_round_trip(n as nat);
        assert(is_digit(text[0]));
    }
}

/// Two numbers with the same decimal text are the same number.
pub proof fn lemma_decimal_is_injective(a: int, b: int)
    requires
        decimal_of(a) == decimal_of(b),
    ensures
        a == b,
{
    let min = if a < b { a } else { b };
    let max = if a < b { b } else { a };
    lemma_decimal_round_trip(a, min, max);
    lemma_decimal_round_trip(b, min, max);
}

/// The characters of `text`.
pub fn chars_of(text: &str) -> (chars: Vec<char>)
    ensures
        chars@ == text@,
{
    let mut chars: Vec<char> = Vec::new();
    for c in it: text.chars()
        invariant
            it.seq() == text@,
            chars@ == text@.take(it.index()),
    {
        assert(text@.take(it.index() + 1) =~= text@.take(it.index()).push(c));
        chars.push(c);
    }
    assert(chars@ =~= text@);
    chars
}

/// Reads the characters of `chars` from position `from` up to `to` as a
/// number of at most `max`, written in digits only.
pub fn parse_unsigned(chars: &Vec<char>, from: usize, to: usize, max: u64) -> (value: Option<u64>)
    requires
        from <= to <= chars.len(),
    ensures
        match value {
            Some(value) => parsed_unsigned(chars@.subrange(from as int, to as int), max as int)
                == Some(value as int),
            None => parsed_unsigned(chars@.subrange(from as int, to as int), max as int) is None,
        },
{
    let ghost text = chars@.subrange(from as int, to as int);
    if from == to {
        return None;
    }
    let mut value: u64 = 0;
    let mut i: usize = from;
    proof {
        assert(text.take(0) =~= Seq::<char>::empty());
    }
    while i < to
        invariant
            from <= i <= to <= chars.len(),
            text == chars@.subrange(from as int, to as int),
            all_digits(text.take(i - from)),
            value == digits_value(text.take(i - from)),
            value <= max,
        decreases to - i,
    {
        let c = chars[i];
        assert(text[i - from] == c);
        if c < '0' || c > '9' {
            return None;
        }
        let digit: u64 = (c as u32 - '0' as u32) as u64;
        proof {
            let longer = text.take(i - from + 1);
            assert(longer.drop_last() =~= text.take(i - from));
            assert(longer.last() == c);
            assert forall|j: int| 0 <= j < longer.len() implies is_digit(#[trigger] longer[j]) by {
                if j < i - from {
                    assert(text.take(i - from)[j] == longer[j]);
                }
            }
            if all_digits(text) {
                lemma_digits_value_grows(text, i - from + 1);
            }
        }
        if max < digit || value > (max - digit) / 10 {
            return None;
        }
        value = value * 10 + digit;
        i = i + 1;
    }
    assert(text.take(i - from) =~= text);
    Some(value)
}

/// Reads the characters of `chars` from position `from` up to `to` as a
/// 32-bit number: one or more digits behind an optional `+` or `-`.
pub fn parse_i32_between(chars: &Vec<char>, from: usize, to: usize) -> (value: Option<i32>)
    requires
        from <= to <= chars.len(),
    ensures
        value == parsed_i32(chars@.subrange(from as int, to as int)),
{
    let ghost text = chars@.subrange(from as int, to as int);
    if from < to && chars[from] == '-' {
        assert(text[0] == '-');
        assert(text.skip(1) =~= chars@.subrange(from as int + 1, to as int));
        match parse_unsigned(chars, from + 1, to, 2147483648) {
            Some(magnitude) => Some((-(magnitude as i64)) as i32),
            None => None,
        }
    } else if from < to && chars[from] == '+' {
        assert(text[0] == '+');
        assert(text.skip(1) =~= chars@.subrange(from as int + 1, to as int));
        match parse_unsigned(chars, from + 1, to, 2147483647) {
            Some(value) => Some(value as i32),
            None => None,
        }
    } else {
        assert(from < to ==> text[0] == chars[from as int]);
        match parse_unsigned(chars, from, to, 2147483647) {
            Some(value) => Some(value as i32),
            None => None,
        }
    }
}

/// Reads `text` as a 32-bit number: one or more digits behind an optional
/// `+` or `-`.
pub fn parse_i32(text: &str) -> (value: Option<i32>)
    ensures
        value == parsed_i32(text@),
{
    let chars = chars_of(text);
    assert(chars@.subrange(0, chars.len() as int) =~= chars@);
    parse_i32_between(&chars, 0, chars.len())
}

/// The text that stands in `chars` from position `from` up to `to`.
pub fn text_between(chars: &Vec<char>, from: usize, to: usize) -> (text: String)
    requires
        from <= to <= chars.len(),
    ensures
        text@ == chars@.subrange(from as int, to as int),
{
    let mut text = String::new();
    let mut i: usize = from;
    while i < to
        invariant
            from <= i <= to <= chars.len(),
            text@ == chars@.subrange(from as int, i as int),
        decreases to - i,
    {
        push_char(&mut text, chars[i]);
        assert(text@ =~= chars@.subrange(from as int, i as int + 1));
        i = i + 1;
    }
    text
}

/// `String::push`: the text grows by the character at its end.
#[verifier::external_body]
fn push_char(text: &mut String, c: char)
    ensures
        final(text)@ == old(text)@.push(c),
{
    text.push(c);
}

/// Appends the digits of `n` to `text`.
pub fn append_unsigned(text: &mut String, n: u64)
    ensures
        final(text)@ == old(text)@ + digits_of(n as nat),
    decreases n,
{
    if n >= 10 {
        append_unsigned(text, n / 10);
    }
    let digit = (n % 10) as u8;
    push_char(text, (digit + 48) as char);
    assert(text@ =~= old(text)@ + digits_of(n as nat));
}

/// Appends the decimal text of `n` to `text`.
pub fn append_signed(text: &mut String, n: i32)
    ensures
        final(text)@ == old(text)@ + decimal_of(n as int),
{
    if n < 0 {
        push_char(text, '-');
        append_unsigned(text, (-(n as i64)) as u64);
        assert(text@ =~= old(text)@ + decimal_of(n as int));
    } else {
        append_unsigned(text, n as u64);
    }
}

} // verus!
