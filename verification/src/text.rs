//! Reading text: whitespace, decimal numbers, and the characters of a line.

use vstd::prelude::*;

verus! {

/// Why a piece of text is not an unsigned decimal number within bounds.
#[derive(Clone, Copy, Debug, PartialEq, Eq)]
pub enum NumberError {
    /// The text is empty.
    Empty,
    /// The text has no digits, or a character that is not a digit.
    InvalidDigit,
    /// The digits read so far already exceed the bound.
    Overflow,
}

/// Whether `c` is white space, as Unicode defines the property.
pub open spec fn is_whitespace(c: char) -> bool {
    let code = c as u32;
    ||| 0x09 <= code <= 0x0d
    ||| code == 0x20
    ||| code == 0x85
    ||| code == 0xa0
    ||| code == 0x1680
    ||| 0x2000 <= code <= 0x200a
    ||| code == 0x2028
    ||| code == 0x2029
    ||| code == 0x202f
    ||| code == 0x205f
    ||| code == 0x3000
}

/// Whether `c` is one of the ten decimal digits.
pub open spec fn is_digit(c: char) -> bool {
    0x30 <= c as u32 <= 0x39
}

/// The value of the digit `c`.
pub open spec fn digit_value(c: char) -> int {
    c as u32 - 0x30
}

/// Whether `s` consists of decimal digits only.
pub open spec fn all_digits(s: Seq<char>) -> bool {
    forall|i: int| 0 <= i < s.len() ==> is_digit(#[trigger] s[i])
}

/// The number that the digits `s` spell in base ten; zero for no digits.
pub open spec fn decimal_value(s: Seq<char>) -> int
    decreases s.len(),
{
    if s.len() == 0 {
        0
    } else {
        10 * decimal_value(s.drop_last()) + digit_value(s.last())
    }
}

/// `s` without a plus sign in front.
pub open spec fn unsigned_digits(s: Seq<char>) -> Seq<char> {
    if s.len() > 0 && s[0] == '+' {
        s.drop_first()
    } else {
        s
    }
}

/// Whether `s` is an unsigned decimal number of whatever size: a run of at
/// least one digit, which a plus sign may precede.
pub open spec fn is_number(s: Seq<char>) -> bool {
    unsigned_digits(s).len() > 0 && all_digits(unsigned_digits(s))
}

/// The number that `s` spells, where it is one.
pub open spec fn number_value(s: Seq<char>) -> int {
    decimal_value(unsigned_digits(s))
}

/// What `s` comes to when read as an unsigned decimal number of at most
/// `max`.
///
/// The number is a run of digits, which a plus sign may precede. Reading goes
/// from left to right and stops at the first fault: digits that already spell
/// more than `max` are an overflow, whatever follows them.
pub open spec fn unsigned_of(s: Seq<char>, max: int) -> Result<int, NumberError> {
    let digits = unsigned_digits(s);
    if s.len() == 0 {
        Err(NumberError::Empty)
    } else if digits.len() == 0 {
        Err(NumberError::InvalidDigit)
    } else if exists|k: int|
        0 <= k <= digits.len() && all_digits(#[trigger] digits.take(k)) && decimal_value(
            digits.take(k),
        ) > max {
        Err(NumberError::Overflow)
    } else if !all_digits(digits) {
        Err(NumberError::InvalidDigit)
    } else {
        Ok(decimal_value(digits))
    }
}

/// `s` without the white space at its end.
pub open spec fn trim_end(s: Seq<char>) -> Seq<char>
    decreases s.len(),
{
    if s.len() > 0 && is_whitespace(s.last()) {
        trim_end(s.drop_last())
    } else {
        s
    }
}

/// `s` without the white space at its start.
pub open spec fn trim_start(s: Seq<char>) -> Seq<char>
    decreases s.len(),
{
    if s.len() > 0 && is_whitespace(s[0]) {
        trim_start(s.drop_first())
    } else {
        s
    }
}

/// `s` without the white space at either end.
pub open spec fn trim(s: Seq<char>) -> Seq<char> {
    trim_end(trim_start(s))
}

/// The place of the first `c` in `s`, or the length of `s` if there is none.
pub open spec fn index_of(s: Seq<char>, c: char) -> int
    decreases s.len(),
{
    if s.len() == 0 || s[0] == c {
        0
    } else {
        1 + index_of(s.drop_first(), c)
    }
}

/// The characters of `s`, in order.
pub fn chars_of(s: &str) -> (chars: Vec<char>)
    ensures
        chars@ == s@,
{
    let n = s.unicode_len();
    let mut chars: Vec<char> = Vec::new();
    let mut i: usize = 0;
    while i < n
        invariant
            n == s@.len(),
            i <= n,
            chars@ == s@.take(i as int),
        decreases n - i,
    {
        chars.push(s.get_char(i));
        i += 1;
        assert(chars@ =~= s@.take(i as int));
    }
    assert(s@.take(n as int) =~= s@);
    chars
}

/// Whether `c` is white space.
pub fn char_is_whitespace(c: char) -> (r: bool)
    ensures
        r == is_whitespace(c),
{
    let code: u32 = c as u32;
    (0x09 <= code && code <= 0x0d) || code == 0x20 || code == 0x85 || code == 0xa0 || code
        == 0x1680 || (0x2000 <= code && code <= 0x200a) || code == 0x2028 || code == 0x2029
        || code == 0x202f || code == 0x205f || code == 0x3000
}

/// The bounds of `chars` without the white space at either end: where the
/// white space at the start ends, and where what is left without the white
/// space at its end ends.
pub fn trim_bounds(chars: &Vec<char>) -> (r: (usize, usize))
    ensures
        r.0 <= r.1 <= chars@.len(),
        r.0 == chars@.len() - trim_start(chars@).len(),
        r.1 == r.0 + trim(chars@).len(),
        chars@.subrange(r.0 as int, r.1 as int) == trim(chars@),
{
    let n = chars.len();
    let mut start: usize = 0;
    assert(chars@.skip(0) =~= chars@);
    while start < n && char_is_whitespace(chars[start])
        invariant
            n == chars@.len(),
            start <= n,
            trim_start(chars@) == trim_start(chars@.skip(start as int)),
        decreases n - start,
    {
        assert(chars@.skip(start as int).drop_first() =~= chars@.skip(start + 1));
        start += 1;
    }
    assert(trim_start(chars@) == chars@.skip(start as int));
    let mut end: usize = n;
    assert(chars@.subrange(start as int, n as int) =~= chars@.skip(start as int));
    while end > start && char_is_whitespace(chars[end - 1])
        invariant
            start <= end <= n,
            n == chars@.len(),
            trim(chars@) == trim_end(chars@.subrange(start as int, end as int)),
        decreases end - start,
    {
        assert(chars@.subrange(start as int, end as int).drop_last() =~= chars@.subrange(
            start as int,
            end - 1,
        ));
        end -= 1;
    }
    (start, end)
}

/// The place at or after `start` and before `end` of the first `c`, or
/// `end` if there is none.
pub fn find_char(chars: &Vec<char>, start: usize, end: usize, c: char) -> (at: usize)
    requires
        start <= end <= chars@.len(),
    ensures
        at == start + index_of(chars@.subrange(start as int, end as int), c),
        start <= at <= end,
{
    let mut at: usize = start;
    assert(chars@.subrange(start as int, end as int) =~= chars@.subrange(at as int, end as int));
    while at < end && chars[at] != c
        invariant
            start <= at <= end <= chars@.len(),
            start + index_of(chars@.subrange(start as int, end as int), c) == at + index_of(
                chars@.subrange(at as int, end as int),
                c,
            ),
        decreases end - at,
    {
        assert(chars@.subrange(at as int, end as int).drop_first() =~= chars@.subrange(
            at + 1,
            end as int,
        ));
        at += 1;
    }
    at
}

/// Whether the characters of `chars` from `start` to `end` are those of
/// `word`.
pub fn range_is(chars: &Vec<char>, start: usize, end: usize, word: &Vec<char>) -> (r: bool)
    requires
        start <= end <= chars@.len(),
    ensures
        r == (chars@.subrange(start as int, end as int) == word@),
{
    if end - start != word.len() {
        return false;
    }
    let ghost range = chars@.subrange(start as int, end as int);
    let mut i: usize = 0;
    while i < word.len()
        invariant
            i <= word.len(),
            start <= end <= chars@.len(),
            end - start == word.len(),
            range == chars@.subrange(start as int, end as int),
            forall|k: int| 0 <= k < i ==> range[k] == word@[k],
        decreases word.len() - i,
    {
        if chars[start + i] != word[i] {
            assert(range[i as int] != word@[i as int]);
            return false;
        }
        i += 1;
    }
    assert(range =~= word@);
    true
}

/// Whether the characters of `chars` from `start` to `end` are an unsigned
/// decimal number, of whatever size.
pub fn range_is_number(chars: &Vec<char>, start: usize, end: usize) -> (r: bool)
    requires
        start <= end <= chars@.len(),
    ensures
        r == is_number(chars@.subrange(start as int, end as int)),
{
    let ghost text = chars@.subrange(start as int, end as int);
    if start == end {
        return false;
    }
    assert(text[0] == chars@[start as int]);
    let first: usize = if chars[start] == '+' {
        start + 1
    } else {
        start
    };
    let ghost digits = unsigned_digits(text);
    assert(digits =~= chars@.subrange(first as int, end as int));
    if first == end {
        return false;
    }
    let mut i: usize = first;
    while i < end
        invariant
            first <= i <= end <= chars@.len(),
            start <= first < end,
            digits == chars@.subrange(first as int, end as int),
            digits == unsigned_digits(chars@.subrange(start as int, end as int)),
            forall|k: int| 0 <= k < i - first ==> is_digit(#[trigger] digits[k]),
        decreases end - i,
    {
        let code: u32 = chars[i] as u32;
        assert(digits[i - first] == chars@[i as int]);
        if code < 0x30 || code > 0x39 {
            assert(!is_digit(digits[i - first]));
            return false;
        }
        i += 1;
    }
    true
}

/// Reads the characters of `chars` from `start` to `end` as an unsigned
/// decimal number of at most `max`.
pub fn parse_unsigned(chars: &Vec<char>, start: usize, end: usize, max: u64) -> (r: Result<
    u64,
    NumberError,
>)
    requires
        start <= end <= chars@.len(),
    ensures
        match unsigned_of(chars@.subrange(start as int, end as int), max as int) {
            Ok(value) => r == Ok::<u64, NumberError>(value as u64) && 0 <= value <= max,
            Err(e) => r == Err::<u64, NumberError>(e),
        },
{
    let ghost text = chars@.subrange(start as int, end as int);
    if start == end {
        return Err(NumberError::Empty);
    }
    assert(text[0] == chars@[start as int]);
    let first: usize = if chars[start] == '+' {
        start + 1
    } else {
        start
    };
    let ghost digits = unsigned_digits(text);
    assert(digits =~= chars@.subrange(first as int, end as int));
    if first == end {
        return Err(NumberError::InvalidDigit);
    }
    let mut value: u64 = 0;
    let mut i: usize = first;
    assert(digits.take(0) =~= Seq::empty());
    while i < end
        invariant
            start < end,
            first < end,
            first <= i <= end <= chars@.len(),
            digits == chars@.subrange(first as int, end as int),
            digits == unsigned_digits(chars@.subrange(start as int, end as int)),
            all_digits(digits.take(i - first)),
            value == decimal_value(digits.take(i - first)),
            forall|k: int| 0 <= k <= i - first ==> decimal_value(#[trigger] digits.take(k)) <= max,
        decreases end - i,
    {
        let c = chars[i];
        let code: u32 = c as u32;
        let ghost here = i - first;
        let ghost longer = digits.take(here + 1);
        assert(digits[here] == c);
        assert(longer.drop_last() =~= digits.take(here));
        assert(longer.last() == c);
        if code < 0x30 || code > 0x39 {
            assert(!is_digit(c));
            assert forall|k: int| 0 <= k <= digits.len() && all_digits(
                #[trigger] digits.take(k),
            ) implies decimal_value(digits.take(k)) <= max by {
                if k > here {
                    assert(digits.take(k)[here] == c);
                    assert(false);
                }
            }
            assert(!all_digits(digits));
            return Err(NumberError::InvalidDigit);
        }
        assert(is_digit(c));
        assert(all_digits(longer)) by {
            assert forall|j: int| 0 <= j < longer.len() implies is_digit(#[trigger] longer[j]) by {
                if j < here {
                    assert(digits.take(here)[j] == longer[j]);
                }
            }
        }
        let digit: u64 = (code - 0x30) as u64;
        assert(digit == digit_value(c));
        assert(decimal_value(longer) == 10 * value + digit);
        if digit > max || value > (max - digit) / 10 {
            assert(decimal_value(longer) > max);
            return Err(NumberError::Overflow);
        }
        value = value * 10 + digit;
        i += 1;
        assert forall|k: int| 0 <= k <= i - first implies decimal_value(
            #[trigger] digits.take(k),
        ) <= max by {
            if k == here + 1 {
                assert(digits.take(k) == longer);
            }
        }
    }
    assert(digits.take(end - first) =~= digits);
    Ok(value)
}

/// A text that reads as a number is not empty and consists of digits, which
/// a plus sign may precede; its last character is a digit.
pub proof fn lemma_number_chars(s: Seq<char>, max: int)
    requires
        unsigned_of(s, max) is Ok,
    ensures
        s.len() > 0,
        is_digit(s.last()),
        forall|i: int| 0 <= i < s.len() ==> is_digit(#[trigger] s[i]) || (i == 0 && s[i] == '+'),
{
    let digits = unsigned_digits(s);
    assert(all_digits(digits));
    assert(is_digit(digits[digits.len() - 1]));
    assert forall|i: int| 0 <= i < s.len() implies is_digit(#[trigger] s[i]) || (i == 0 && s[i]
        == '+') by {
        if s[0] == '+' {
            if i > 0 {
                assert(digits[i - 1] == s[i]);
            }
        } else {
            assert(digits[i] == s[i]);
        }
    }
}

/// The first `c` in a text is where the text has it after a part without
/// one.
pub proof fn lemma_index_of_split(before: Seq<char>, c: char, after: Seq<char>)
    requires
        forall|i: int| 0 <= i < before.len() ==> before[i] != c,
    ensures
        index_of(before + seq![c] + after, c) == before.len(),
    decreases before.len(),
{
    let whole = before + seq![c] + after;
    if before.len() == 0 {
        assert(whole[0] == c);
    } else {
        assert(whole[0] == before[0]);
        assert(whole.drop_first() =~= before.drop_first() + seq![c] + after);
        assert forall|i: int| 0 <= i < before.drop_first().len() implies before.drop_first()[i]
            != c by {
            assert(before.drop_first()[i] == before[i + 1]);
        }
        lemma_index_of_split(before.drop_first(), c, after);
    }
}

/// The digits at the start of a number spell no more than the whole number,
/// and no number is negative.
pub proof fn lemma_decimal_value_grows(s: Seq<char>, k: int)
    requires
        all_digits(s),
        0 <= k <= s.len(),
    ensures
        0 <= decimal_value(s.take(k)) <= decimal_value(s),
    decreases s.len(),
{
    if k == s.len() {
        assert(s.take(k) =~= s);
        if s.len() > 0 {
            assert(is_digit(s[s.len() - 1]));
            assert forall|i: int| 0 <= i < s.drop_last().len() implies is_digit(
                #[trigger] s.drop_last()[i],
            ) by {
                assert(s.drop_last()[i] == s[i]);
            }
            lemma_decimal_value_grows(s.drop_last(), k - 1);
            assert(s.drop_last().take(k - 1) =~= s.drop_last());
        }
    } else {
        assert(is_digit(s[s.len() - 1]));
        assert forall|i: int| 0 <= i < s.drop_last().len() implies is_digit(
            #[trigger] s.drop_last()[i],
        ) by {
            assert(s.drop_last()[i] == s[i]);
        }
        lemma_decimal_value_grows(s.drop_last(), k);
        assert(s.drop_last().take(k) =~= s.take(k));
    }
}

/// A number reads as its value where the value is within the bound and as an
/// overflow where it is not; and only a number reads as a value.
pub proof fn lemma_unsigned_of_number(s: Seq<char>, max: int)
    ensures
        is_number(s) ==> unsigned_of(s, max) == if number_value(s) <= max {
            Ok::<int, NumberError>(number_value(s))
        } else {
            Err::<int, NumberError>(NumberError::Overflow)
        },
        unsigned_of(s, max) is Ok ==> is_number(s),
        is_number(s) ==> number_value(s) >= 0,
{
    let digits = unsigned_digits(s);
    if is_number(s) {
        lemma_decimal_value_grows(digits, digits.len() as int);
        assert(digits.take(digits.len() as int) =~= digits);
        if number_value(s) <= max {
            assert forall|k: int|
                0 <= k <= digits.len() && all_digits(
                    #[trigger] digits.take(k),
                ) implies decimal_value(digits.take(k)) <= max by {
                lemma_decimal_value_grows(digits, k);
            }
        }
    }
}

} // verus!
