//! Reading a line of text as a guess.
//!
//! A line is a guess when, with the white space around it removed, it is an
//! optional `+` followed by one or more ASCII digits whose decimal value fits
//! in a `u32`. Everything here is stated over the line's characters.

use vstd::prelude::*;

verus! {

/// Whether `c` is white space as Unicode defines it (`White_Space`).
pub open spec fn is_whitespace(c: char) -> bool {
    let n = c as u32;
    ||| 0x09 <= n <= 0x0D
    ||| n == 0x20
    ||| n == 0x85
    ||| n == 0xA0
    ||| n == 0x1680
    ||| 0x2000 <= n <= 0x200A
    ||| n == 0x2028
    ||| n == 0x2029
    ||| n == 0x202F
    ||| n == 0x205F
    ||| n == 0x3000
}

/// `s` without its leading white space.
pub open spec fn trim_start(s: Seq<char>) -> Seq<char>
    decreases s.len(),
{
    if s.len() > 0 && is_whitespace(s.first()) {
        trim_start(s.drop_first())
    } else {
        s
    }
}

/// `s` without its trailing white space.
pub open spec fn trim_end(s: Seq<char>) -> Seq<char>
    decreases s.len(),
{
    if s.len() > 0 && is_whitespace(s.last()) {
        trim_end(s.drop_last())
    } else {
        s
    }
}

/// `s` without the white space at either end.
pub open spec fn trim(s: Seq<char>) -> Seq<char> {
    trim_end(trim_start(s))
}

/// Whether `c` is one of the ASCII digits `0` to `9`.
pub open spec fn is_digit(c: char) -> bool {
    '0' <= c <= '9'
}

/// The value of the digit `c`; zero for any other character.
pub open spec fn digit_value(c: char) -> nat {
    if is_digit(c) {
        (c as u32 - '0' as u32) as nat
    } else {
        0
    }
}

/// Whether `s` holds ASCII digits only.
pub open spec fn all_digits(s: Seq<char>) -> bool {
    forall|i: int| 0 <= i < s.len() ==> is_digit(#[trigger] s[i])
}

/// The number that the digits of `s` write in base ten, the last digit
/// counting least.
pub open spec fn decimal_value(s: Seq<char>) -> nat
    decreases s.len(),
{
    if s.len() == 0 {
        0
    } else {
        10 * decimal_value(s.drop_last()) + digit_value(s.last())
    }
}

/// `s` without the one `+` that may stand in front of the digits.
pub open spec fn without_sign(s: Seq<char>) -> Seq<char> {
    if s.len() > 0 && s.first() == '+' {
        s.drop_first()
    } else {
        s
    }
}

/// The `u32` that `s` writes: an optional `+`, then at least one digit and
/// nothing else, with a value of at most `u32::MAX`. No other text is a
/// number.
pub open spec fn parse_u32(s: Seq<char>) -> Option<u32> {
    let digits = without_sign(s);
    if digits.len() > 0 && all_digits(digits) && decimal_value(digits) <= u32::MAX {
        Some(decimal_value(digits) as u32)
    } else {
        None
    }
}

/// The guess that a line of input holds, if it holds one.
pub open spec fn guess_of(line: Seq<char>) -> Option<u32> {
    parse_u32(trim(line))
}

/// Whether `s` holds white space only.
pub open spec fn all_whitespace(s: Seq<char>) -> bool {
    forall|i: int| 0 <= i < s.len() ==> is_whitespace(#[trigger] s[i])
}

/// The sign in front of a number, written out: a `+` or nothing.
pub open spec fn sign_text(plus: bool) -> Seq<char> {
    if plus {
        seq!['+']
    } else {
        Seq::empty()
    }
}

/// Whether `line` is written as white space, a sign, at least one digit and
/// white space again, with these four parts.
pub open spec fn is_written_as(
    line: Seq<char>,
    lead: Seq<char>,
    plus: bool,
    digits: Seq<char>,
    trail: Seq<char>,
) -> bool {
    &&& line == lead + sign_text(plus) + digits + trail
    &&& all_whitespace(lead)
    &&& all_whitespace(trail)
    &&& digits.len() > 0
    &&& all_digits(digits)
}

/// White space in front of a text does not change what `trim_start` leaves.
proof fn lemma_trim_start_skips(lead: Seq<char>, rest: Seq<char>)
    requires
        all_whitespace(lead),
    ensures
        trim_start(lead + rest) == trim_start(rest),
    decreases lead.len(),
{
    if lead.len() == 0 {
        assert(lead + rest == rest);
    } else {
        assert((lead + rest).first() == lead[0]);
        assert((lead + rest).drop_first() == lead.drop_first() + rest);
        lemma_trim_start_skips(lead.drop_first(), rest);
    }
}

/// White space behind a text does not change what `trim_end` leaves.
proof fn lemma_trim_end_skips(rest: Seq<char>, trail: Seq<char>)
    requires
        all_whitespace(trail),
    ensures
        trim_end(rest + trail) == trim_end(rest),
    decreases trail.len(),
{
    if trail.len() == 0 {
        assert(rest + trail == rest);
    } else {
        assert((rest + trail).last() == trail[trail.len() - 1]);
        assert((rest + trail).drop_last() == rest + trail.drop_last());
        lemma_trim_end_skips(rest, trail.drop_last());
    }
}

/// `trim_start` takes a run of white space off the front: returns its length.
proof fn lemma_trim_start_splits(s: Seq<char>) -> (k: int)
    ensures
        0 <= k <= s.len(),
        all_whitespace(s.take(k)),
        trim_start(s) == s.skip(k),
    decreases s.len(),
{
    if s.len() > 0 && is_whitespace(s.first()) {
        let rest = s.drop_first();
        let k = lemma_trim_start_splits(rest);
        assert(rest.skip(k) == s.skip(k + 1));
        assert forall|i: int| 0 <= i < k + 1 implies is_whitespace(#[trigger] s.take(k + 1)[i]) by {
            if i > 0 {
                assert(s.take(k + 1)[i] == rest.take(k)[i - 1]);
            }
        }
        k + 1
    } else {
        assert(s.skip(0) == s);
        0
    }
}

/// `trim_end` takes a run of white space off the back: returns where it
/// begins.
proof fn lemma_trim_end_splits(s: Seq<char>) -> (k: int)
    ensures
        0 <= k <= s.len(),
        all_whitespace(s.skip(k)),
        trim_end(s) == s.take(k),
    decreases s.len(),
{
    if s.len() > 0 && is_whitespace(s.last()) {
        let rest = s.drop_last();
        let k = lemma_trim_end_splits(rest);
        assert(rest.take(k) == s.take(k));
        assert forall|i: int| 0 <= i < s.len() - k implies is_whitespace(#[trigger] s.skip(k)[i]) by {
            if i < rest.len() - k {
                assert(s.skip(k)[i] == rest.skip(k)[i]);
            }
        }
        k
    } else {
        assert(s.take(s.len() as int) == s);
        s.len() as int
    }
}

/// A line written as white space, an optional `+`, digits and white space
/// holds the number that the digits write, if that is at most `u32::MAX`,
/// and no guess if it is more.
pub proof fn lemma_written_number_is_guess(
    line: Seq<char>,
    lead: Seq<char>,
    plus: bool,
    digits: Seq<char>,
    trail: Seq<char>,
)
    requires
        is_written_as(line, lead, plus, digits, trail),
    ensures
        decimal_value(digits) <= u32::MAX ==> guess_of(line) == Some(decimal_value(digits) as u32),
        decimal_value(digits) > u32::MAX ==> guess_of(line) is None,
{
    let number = sign_text(plus) + digits;
    assert(is_digit(digits[0]) && is_digit(digits[digits.len() - 1]));
    assert(!is_whitespace(number.first()));
    assert(!is_whitespace(number.last()));
    assert(line == lead + (number + trail));
    lemma_trim_start_skips(lead, number + trail);
    assert((number + trail).first() == number.first());
    assert(trim_start(line) == number + trail);
    lemma_trim_end_skips(number, trail);
    assert(trim(line) == number);
    if plus {
        assert(number.drop_first() == digits);
    } else {
        assert(number == digits);
    }
    assert(without_sign(number) == digits);
}

/// A line that holds a guess is written as white space, an optional `+`,
/// digits and white space, and the digits write the guess. Any other line
/// holds none.
pub proof fn lemma_guess_is_written_number(line: Seq<char>)
    requires
        guess_of(line) is Some,
    ensures
        exists|lead: Seq<char>, plus: bool, digits: Seq<char>, trail: Seq<char>|
            #[trigger] is_written_as(line, lead, plus, digits, trail) && decimal_value(digits)
                == guess_of(line).unwrap(),
{
    let from = lemma_trim_start_splits(line);
    let rest = line.skip(from);
    let upto = lemma_trim_end_splits(rest);
    let number = rest.take(upto);
    assert(number == trim(line));
    let lead = line.take(from);
    let trail = rest.skip(upto);
    let plus = number.first() == '+';
    let digits = without_sign(number);
    assert(number == sign_text(plus) + digits);
    assert(line == lead + sign_text(plus) + digits + trail);
    assert(is_written_as(line, lead, plus, digits, trail));
}

/// Computes [`is_whitespace`].
pub fn char_is_whitespace(c: char) -> (b: bool)
    ensures
        b == is_whitespace(c),
{
    let n: u32 = c as u32;
    (0x09 <= n && n <= 0x0D) || n == 0x20 || n == 0x85 || n == 0xA0 || n == 0x1680 || (0x2000 <= n
        && n <= 0x200A) || n == 0x2028 || n == 0x2029 || n == 0x202F || n == 0x205F || n == 0x3000
}

/// The characters of `text`, in order.
fn chars_of(text: &str) -> (chars: Vec<char>)
    ensures
        chars@ == text@,
{
    let mut chars: Vec<char> = Vec::new();
    for c in it: text.chars()
        invariant
            chars@ == it.seq().take(it.index() as int),
            it.seq() == text@,
    {
        chars.push(c);
    }
    chars
}

/// Finds where `trim(chars@)` lies in `chars`.
fn trim_bounds(chars: &Vec<char>) -> (bounds: (usize, usize))
    ensures
        bounds.0 <= bounds.1 <= chars.len(),
        chars@.subrange(bounds.0 as int, bounds.1 as int) == trim(chars@),
{
    let len = chars.len();
    let mut start: usize = 0;
    assert(chars@.skip(0) == chars@);
    while start < len && char_is_whitespace(chars[start])
        invariant
            start <= len == chars.len(),
            trim_start(chars@) == trim_start(chars@.skip(start as int)),
        decreases len - start,
    {
        assert(chars@.skip(start as int).drop_first() == chars@.skip(start + 1));
        start += 1;
    }
    assert(trim_start(chars@) == chars@.subrange(start as int, len as int));
    let mut end: usize = len;
    while end > start && char_is_whitespace(chars[end - 1])
        invariant
            start <= end <= len == chars.len(),
            trim(chars@) == trim_end(chars@.subrange(start as int, end as int)),
        decreases end,
    {
        assert(chars@.subrange(start as int, end as int).drop_last() == chars@.subrange(
            start as int,
            end - 1,
        ));
        end -= 1;
    }
    (start, end)
}

/// A prefix of a digit string writes no larger a number than the whole.
proof fn lemma_decimal_value_prefix(s: Seq<char>, k: int)
    requires
        0 <= k <= s.len(),
    ensures
        decimal_value(s.take(k)) <= decimal_value(s),
    decreases s.len(),
{
    if k == s.len() {
        assert(s.take(k) == s);
    } else {
        lemma_decimal_value_prefix(s.drop_last(), k);
        assert(s.drop_last().take(k) == s.take(k));
    }
}

/// Reads `chars[start..end]` as a number.
fn parse_u32_between(chars: &Vec<char>, start: usize, end: usize) -> (number: Option<u32>)
    requires
        start <= end <= chars.len(),
    ensures
        number == parse_u32(chars@.subrange(start as int, end as int)),
{
    let ghost text = chars@.subrange(start as int, end as int);
    let first: usize = if start < end && chars[start] == '+' {
        start + 1
    } else {
        start
    };
    let ghost digits = chars@.subrange(first as int, end as int);
    assert(digits == without_sign(text));
    if first == end {
        return None;
    }
    let mut value: u64 = 0;
    let mut i: usize = first;
    while i < end
        invariant
            start <= first <= i <= end <= chars.len(),
            text == chars@.subrange(start as int, end as int),
            digits == chars@.subrange(first as int, end as int),
            digits == without_sign(text),
            all_digits(digits.take(i - first)),
            value == decimal_value(digits.take(i - first)),
            value <= u32::MAX,
        decreases end - i,
    {
        let c = chars[i];
        assert(c == digits[i - first]);
        if !(c >= '0' && c <= '9') {
            assert(!is_digit(digits[i - first]));
            return None;
        }
        let digit: u64 = (c as u32 - '0' as u32) as u64;
        assert(digits.take(i - first + 1).drop_last() == digits.take(i - first));
        value = 10 * value + digit;
        i += 1;
        if value > u32::MAX as u64 {
            proof {
                lemma_decimal_value_prefix(digits, i - first);
            }
            return None;
        }
    }
    assert(digits.take(i - first) == digits);
    Some(value as u32)
}

/// Reads a line of input as a guess: the white space around it is dropped,
/// and what is left must write a `u32`.
pub fn parse_guess(line: &str) -> (guess: Option<u32>)
    ensures
        guess == guess_of(line@),
{
    let chars = chars_of(line);
    let (start, end) = trim_bounds(&chars);
    parse_u32_between(&chars, start, end)
}

} // verus!
