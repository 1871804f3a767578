//! Text as it travels in headers and options: UTF-8, decimal numbers, case.

use vstd::prelude::*;
use vstd::string::*;
use vstd::utf8::*;

verus! {

/// The characters that `bytes` encode, where they are UTF-8.
pub open spec fn utf8_text(bytes: Seq<u8>) -> Option<Seq<char>> {
    if valid_utf8(bytes) {
        Some(decode_utf8(bytes))
    } else {
        None
    }
}

/// Calls `std::str::from_utf8`. Claimed of it: it succeeds on well-formed UTF-8 and on
/// nothing else, and the text that it hands out is the one those bytes encode.
#[verifier::external_body]
pub(crate) fn utf8_str(bytes: &[u8]) -> (text: Option<&str>)
    ensures
        match text {
            Some(s) => utf8_text(bytes@) == Some(s@),
            None => utf8_text(bytes@) is None,
        },
{
    std::str::from_utf8(bytes).ok()
}

/// The text that `String::from_utf8_lossy` makes of some bytes.
pub uninterp spec fn utf8_lossy(bytes: Seq<u8>) -> Seq<char>;

/// Calls `String::from_utf8_lossy`. Claimed of it: the text depends on the bytes alone, and
/// well-formed UTF-8 is read as what it encodes. What replaces ill-formed bytes is left unsaid.
#[verifier::external_body]
pub(crate) fn utf8_lossy_string(bytes: &[u8]) -> (text: String)
    ensures
        text@ == utf8_lossy(bytes@),
        valid_utf8(bytes@) ==> text@ == decode_utf8(bytes@),
{
    String::from_utf8_lossy(bytes).into_owned()
}

/// The lower-case form of an ASCII letter; any other character as it is.
pub open spec fn ascii_lower(c: char) -> char {
    if 'A' <= c && c <= 'Z' {
        (c as u32 + 32) as char
    } else {
        c
    }
}

/// The text that `str::to_lowercase` makes of some text.
pub uninterp spec fn lowercase_text(text: Seq<char>) -> Seq<char>;

/// Calls `str::to_lowercase`. Claimed of it: the result depends on the text alone, and in ASCII
/// text the letters `A` to `Z` become `a` to `z` and nothing else changes.
#[verifier::external_body]
pub(crate) fn lowercase(text: &str) -> (lower: String)
    ensures
        lower@ == lowercase_text(text@),
        is_ascii_chars(text@) ==> lower@ == text@.map_values(|c: char| ascii_lower(c)),
{
    text.to_lowercase()
}

/// Two texts with the same UTF-8 bytes are the same text.
pub proof fn utf8_bytes_determine_text(a: Seq<char>, b: Seq<char>)
    requires
        encode_utf8(a) == encode_utf8(b),
    ensures
        a == b,
{
    encode_utf8_decode_utf8(a);
    encode_utf8_decode_utf8(b);
}

/// Whether two byte strings are equal.
pub fn bytes_eq(a: &[u8], b: &[u8]) -> (equal: bool)
    ensures
        equal == (a@ == b@),
{
    if a.len() != b.len() {
        return false;
    }
    let mut i: usize = 0;
    while i < a.len()
        invariant
            a@.len() == b@.len(),
            i <= a@.len(),
            forall|j: int| 0 <= j < i ==> a@[j] == b@[j],
        decreases a@.len() - i,
    {
        if a[i] != b[i] {
            return false;
        }
        i = i + 1;
    }
    assert(a@ =~= b@);
    true
}

/// Whether two texts are equal.
pub fn str_eq(a: &str, b: &str) -> (equal: bool)
    ensures
        equal == (a@ == b@),
{
    let equal = bytes_eq(a.as_bytes(), b.as_bytes());
    proof {
        if equal {
            utf8_bytes_determine_text(a@, b@);
        }
    }
    equal
}

/// Whether `c` is one of the characters `0` to `9`.
pub open spec fn is_digit(c: char) -> bool {
    '0' <= c && c <= '9'
}

/// What the character `c` counts for as a digit.
pub open spec fn digit_value(c: char) -> nat {
    (c as u32 - '0' as u32) as nat
}

/// The character that stands for the digit `d`.
pub open spec fn digit_char(d: nat) -> char {
    (d + '0' as u32) as char
}

/// The number that a string of digits writes, most significant digit first.
pub open spec fn digits_value(digits: Seq<char>) -> nat
    decreases digits.len(),
{
    if digits.len() == 0 {
        0
    } else {
        10 * digits_value(digits.drop_last()) + digit_value(digits.last())
    }
}

/// The decimal digits of `n`, without leading zeros.
pub open spec fn decimal_digits(n: nat) -> Seq<char>
    decreases n,
{
    if n < 10 {
        seq![digit_char(n)]
    } else {
        decimal_digits(n / 10).push(digit_char(n % 10))
    }
}

/// The text behind an optional leading `+`.
pub open spec fn unsigned_part(text: Seq<char>) -> Seq<char> {
    if text.len() > 0 && text[0] == '+' {
        text.subrange(1, text.len() as int)
    } else {
        text
    }
}

/// The unsigned number that `text` writes: an optional `+`, then one or more digits and
/// nothing else.
pub open spec fn decimal_number(text: Seq<char>) -> Option<nat> {
    let digits = unsigned_part(text);
    if digits.len() > 0 && forall|i: int| 0 <= i < digits.len() ==> is_digit(#[trigger] digits[i]) {
        Some(digits_value(digits))
    } else {
        None
    }
}

/// The number that `text` writes, if it is at most `max`.
pub open spec fn decimal_up_to(text: Seq<char>, max: nat) -> Option<nat> {
    match decimal_number(text) {
        Some(n) if n <= max => Some(n),
        _ => None,
    }
}

/// A longer string of digits does not write a smaller number.
proof fn lemma_digits_value_grows(digits: Seq<char>, i: int)
    requires
        0 <= i <= digits.len(),
    ensures
        digits_value(digits.subrange(0, i)) <= digits_value(digits),
    decreases digits.len() - i,
{
    if i < digits.len() {
        lemma_digits_value_grows(digits, i + 1);
        assert(digits.subrange(0, i + 1).drop_last() =~= digits.subrange(0, i));
    } else {
        assert(digits.subrange(0, i) =~= digits);
    }
}

/// Reads an unsigned number of at most `max`.
pub fn parse_unsigned(text: &str, max: u64) -> (number: Option<u64>)
    ensures
        match number {
            Some(n) => decimal_up_to(text@, max as nat) == Some(n as nat),
            None => decimal_up_to(text@, max as nat) is None,
        },
{
    let ghost digits = unsigned_part(text@);
    if !text.is_ascii() {
        proof {
            assert(!is_ascii_chars(text@));
            let k = choose|k: int|
                0 <= k < text@.len() && !('\0' <= #[trigger] text@[k] <= '\u{7f}');
            assert(0 <= k < text@.len() && !('\0' <= text@[k] <= '\u{7f}'));
            if text@[0] == '+' {
                assert(digits[k - 1] == text@[k]);
                assert(!is_digit(digits[k - 1]));
            } else {
                assert(!is_digit(digits[k]));
            }
        }
        return None;
    }
    let bytes = text.as_bytes();
    assert(bytes@ == text.spec_bytes());
    assert(bytes@ =~= Seq::new(text@.len(), |i: int| text@[i] as u8));
    let mut i: usize = 0;
    if bytes.len() > 0 && bytes[0] == '+' as u8 {
        assert(text@[0] as u8 == '+' as u8);
        i = 1;
    }
    let ghost start: int = i as int;
    if i == bytes.len() {
        assert(digits.len() == 0);
        return None;
    }
    let mut value: u64 = 0;
    assert(digits.subrange(0, 0) =~= Seq::<char>::empty());
    while i < bytes.len()
        invariant
            bytes@ == Seq::new(text@.len(), |k: int| text@[k] as u8),
            is_ascii_chars(text@),
            digits == unsigned_part(text@),
            start <= i <= bytes@.len(),
            0 <= start <= 1,
            digits.len() + start == text@.len(),
            forall|k: int| 0 <= k < digits.len() ==> #[trigger] digits[k] == text@[k + start],
            forall|k: int| 0 <= k < i - start ==> is_digit(#[trigger] digits[k]),
            value == digits_value(digits.subrange(0, i - start)),
            value <= max,
        decreases bytes@.len() - i,
    {
        let byte = bytes[i];
        assert(digits[i - start] == text@[i as int]);
        if byte < '0' as u8 || byte > '9' as u8 {
            assert(!is_digit(digits[i - start]));
            return None;
        }
        let digit: u64 = (byte - '0' as u8) as u64;
        proof {
            assert(digits.subrange(0, i + 1 - start).drop_last() =~= digits.subrange(
                0,
                i - start,
            ));
            lemma_digits_value_grows(digits, i + 1 - start);
        }
        if value > max / 10 || digit > max - value * 10 {
            return None;
        }
        value = value * 10 + digit;
        i = i + 1;
    }
    assert(digits.subrange(0, digits.len() as int) =~= digits);
    Some(value)
}

/// The text of one decimal digit.
fn digit_str(d: u64) -> (digit: &'static str)
    requires
        d < 10,
    ensures
        digit@ == seq![digit_char(d as nat)],
{
    proof {
        reveal_strlit("0");
        reveal_strlit("1");
        reveal_strlit("2");
        reveal_strlit("3");
        reveal_strlit("4");
        reveal_strlit("5");
        reveal_strlit("6");
        reveal_strlit("7");
        reveal_strlit("8");
        reveal_strlit("9");
    }
    match d {
        0 => "0",
        1 => "1",
        2 => "2",
        3 => "3",
        4 => "4",
        5 => "5",
        6 => "6",
        7 => "7",
        8 => "8",
        _ => "9",
    }
}

/// Writes `n` in decimal.
pub fn decimal_string(n: u64) -> (text: String)
    ensures
        text@ == decimal_digits(n as nat),
    decreases n,
{
    let mut text = if n < 10 {
        String::new()
    } else {
        decimal_string(n / 10)
    };
    text.append(digit_str(n % 10));
    text
}

/// The digits of `n` are digits, and there is at least one.
proof fn lemma_decimal_digits_are_digits(n: nat)
    ensures
        decimal_digits(n).len() > 0,
        forall|i: int|
            0 <= i < decimal_digits(n).len() ==> is_digit(#[trigger] decimal_digits(n)[i]),
    decreases n,
{
    if n >= 10 {
        lemma_decimal_digits_are_digits(n / 10);
    }
}

/// The digits of `n` write `n`.
proof fn lemma_decimal_digits_value(n: nat)
    ensures
        digits_value(decimal_digits(n)) == n,
    decreases n,
{
    reveal_with_fuel(digits_value, 2);
    if n >= 10 {
        lemma_decimal_digits_value(n / 10);
        assert(decimal_digits(n).drop_last() =~= decimal_digits(n / 10));
    } else {
        assert(decimal_digits(n).drop_last() =~= Seq::<char>::empty());
    }
}

/// Reading a number that was written in decimal gives the number back.
pub proof fn decimal_round_trip(n: nat)
    ensures
        decimal_number(decimal_digits(n)) == Some(n),
{
    lemma_decimal_digits_are_digits(n);
    lemma_decimal_digits_value(n);
    assert(is_digit(decimal_digits(n)[0]));
    assert(unsigned_part(decimal_digits(n)) == decimal_digits(n));
}

/// The text that bytes encode is the one whose encoding they are, and every encoding is read.
pub proof fn utf8_text_inverts_encoding(text: Seq<char>, bytes: Seq<u8>)
    ensures
        utf8_text(encode_utf8(text)) == Some(text),
        utf8_text(bytes) == Some(text) <==> bytes == encode_utf8(text),
{
    encode_utf8_valid_utf8(text);
    encode_utf8_decode_utf8(text);
    if valid_utf8(bytes) {
        decode_utf8_encode_utf8(bytes);
    }
}

/// A number is written without leading zeros.
pub proof fn decimal_digits_have_no_leading_zero(n: nat)
    ensures
        decimal_digits(n).len() > 0,
        decimal_digits(n)[0] == '0' ==> n == 0,
    decreases n,
{
    if n >= 10 {
        decimal_digits_have_no_leading_zero(n / 10);
    }
}

/// One digit writes what it counts for.
pub proof fn one_digit_is_a_number(c: char)
    requires
        '0' <= c && c <= '9',
    ensures
        decimal_number(seq![c]) == Some((c as u32 - '0' as u32) as nat),
{
    reveal_with_fuel(digits_value, 2);
    assert(seq![c].drop_last() =~= Seq::<char>::empty());
    assert(unsigned_part(seq![c]) == seq![c]);
}

/// Another digit behind a number makes ten times the number and that digit.
pub proof fn one_more_digit(text: Seq<char>, c: char)
    requires
        decimal_number(text) is Some,
        '0' <= c && c <= '9',
    ensures
        decimal_number(text.push(c)) == Some(
            10 * decimal_number(text)->0 + (c as u32 - '0' as u32) as nat,
        ),
{
    let digits = unsigned_part(text);
    let longer = unsigned_part(text.push(c));
    if text[0] == '+' {
        assert(longer =~= digits.push(c));
    } else {
        assert(longer == text.push(c));
    }
    assert(longer.drop_last() =~= digits);
    assert forall|i: int| 0 <= i < longer.len() implies is_digit(#[trigger] longer[i]) by {
        if i < digits.len() {
            assert(is_digit(digits[i]));
        }
    }
}

/// A plus sign before a number that has none changes nothing, and a zero before it neither.
pub proof fn sign_and_zeros_change_nothing(text: Seq<char>)
    requires
        decimal_number(text) is Some,
        text[0] != '+',
    ensures
        decimal_number(seq!['+'] + text) == decimal_number(text),
        decimal_number(seq!['0'] + text) == decimal_number(text),
{
    let signed = seq!['+'] + text;
    assert(signed[0] == '+');
    assert(unsigned_part(signed) =~= text);
    let zero = seq!['0'] + text;
    assert(zero[0] == '0');
    assert(unsigned_part(zero) == zero);
    assert forall|i: int| 0 <= i < zero.len() implies is_digit(#[trigger] zero[i]) by {
        if i > 0 {
            assert(zero[i] == text[i - 1]);
            assert(is_digit(unsigned_part(text)[i - 1]));
        }
    }
    lemma_zero_before(text);
}

proof fn lemma_zero_before(digits: Seq<char>)
    ensures
        digits_value(seq!['0'] + digits) == digits_value(digits),
    decreases digits.len(),
{
    let zero = seq!['0'] + digits;
    if digits.len() == 0 {
        reveal_with_fuel(digits_value, 2);
        assert(zero.drop_last() =~= Seq::<char>::empty());
    } else {
        lemma_zero_before(digits.drop_last());
        assert(zero.drop_last() =~= seq!['0'] + digits.drop_last());
        assert(zero.last() == digits.last());
    }
}

/// Text that holds anything but digits, except for a plus sign before them, writes no number;
/// neither does text without a digit.
pub proof fn other_text_is_no_number(text: Seq<char>, i: int)
    requires
        text.len() == 0 || text == seq!['+'] || (0 <= i < text.len() && !('0' <= text[i]
            && text[i] <= '9') && (i > 0 || text[0] != '+')),
    ensures
        decimal_number(text) is None,
{
    let digits = unsigned_part(text);
    if text.len() > 0 && text != seq!['+'] {
        if text[0] == '+' {
            assert(digits[i - 1] == text[i]);
            assert(!is_digit(digits[i - 1]));
        } else {
            assert(!is_digit(digits[i]));
        }
    }
}

/// A number counts exactly where it is not above the limit.
pub proof fn numbers_count_up_to_the_limit(text: Seq<char>, max: nat, n: nat)
    ensures
        decimal_up_to(text, max) == Some(n) <==> decimal_number(text) == Some(n) && n <= max,
        decimal_up_to(decimal_digits(n), max) == if n <= max {
            Some(n)
        } else {
            None
        },
{
    decimal_round_trip(n);
}

} // verus!
