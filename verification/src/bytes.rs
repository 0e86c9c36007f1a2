//! Runs of bytes in a source text.
use vstd::prelude::*;

use crate::error::Error;
use crate::text::{decimal, decimal_text};

verus! {

pub open spec fn is_digit(b: u8) -> bool {
    '0' as u8 <= b <= '9' as u8
}

pub open spec fn is_letter(b: u8) -> bool {
    'a' as u8 <= b <= 'z' as u8 || 'A' as u8 <= b <= 'Z' as u8
}

/// The bytes that may start a word: letters and the underscore.
pub open spec fn starts_word(b: u8) -> bool {
    is_letter(b) || b == '_' as u8
}

/// The bytes that may continue a word.
pub open spec fn continues_word(b: u8) -> bool {
    starts_word(b) || is_digit(b)
}

/// The first position from `i` on whose byte is no digit.
pub open spec fn digits_end(bytes: Seq<u8>, i: int) -> int
    decreases bytes.len() - i,
{
    if 0 <= i < bytes.len() && is_digit(bytes[i]) {
        digits_end(bytes, i + 1)
    } else {
        i
    }
}

/// The first position from `i` on whose byte cannot continue a word.
pub open spec fn word_end(bytes: Seq<u8>, i: int) -> int
    decreases bytes.len() - i,
{
    if 0 <= i < bytes.len() && continues_word(bytes[i]) {
        word_end(bytes, i + 1)
    } else {
        i
    }
}

/// The first position from `i` on that holds a line feed, or the end of the text.
pub open spec fn line_end(bytes: Seq<u8>, i: int) -> int
    decreases bytes.len() - i,
{
    if 0 <= i < bytes.len() && bytes[i] != '\n' as u8 {
        line_end(bytes, i + 1)
    } else {
        i
    }
}

/// The number that a run of digits denotes.
pub open spec fn digits_value(digits: Seq<u8>) -> nat
    decreases digits.len(),
{
    if digits.len() == 0 {
        0
    } else {
        digits_value(digits.drop_last()) * 10 + (digits.last() - '0' as u8) as nat
    }
}

/// Each byte as the character with that code.
pub open spec fn latin(bytes: Seq<u8>) -> Seq<char> {
    bytes.map_values(|b: u8| b as char)
}

/// The byte after position `i` is `b`.
pub open spec fn followed_by(bytes: Seq<u8>, i: int, b: u8) -> bool {
    i + 1 < bytes.len() && bytes[i + 1] == b
}

/// The diagnostic for a byte that starts no token.
pub open spec fn unexpected_byte_text(shown: Seq<char>, at: int) -> Seq<char> {
    "unexpected byte "@ + shown + " at byte "@ + decimal(at as nat)
}

/// The diagnostic for an integer literal that is too large.
pub open spec fn out_of_range_text(at: int) -> Seq<char> {
    "integer literal out of I32 range at byte "@ + decimal(at as nat)
}

pub proof fn lemma_digits_end(bytes: Seq<u8>, i: int)
    requires
        0 <= i <= bytes.len(),
    ensures
        i <= digits_end(bytes, i) <= bytes.len(),
        forall|k: int| i <= k < digits_end(bytes, i) ==> is_digit(#[trigger] bytes[k]),
    decreases bytes.len() - i,
{
    if i < bytes.len() && is_digit(bytes[i]) {
        lemma_digits_end(bytes, i + 1);
    }
}

pub proof fn lemma_word_end(bytes: Seq<u8>, i: int)
    requires
        0 <= i <= bytes.len(),
    ensures
        i <= word_end(bytes, i) <= bytes.len(),
        forall|k: int| i <= k < word_end(bytes, i) ==> continues_word(#[trigger] bytes[k]),
    decreases bytes.len() - i,
{
    if i < bytes.len() && continues_word(bytes[i]) {
        lemma_word_end(bytes, i + 1);
    }
}

pub proof fn lemma_line_end(bytes: Seq<u8>, i: int)
    requires
        0 <= i <= bytes.len(),
    ensures
        i <= line_end(bytes, i) <= bytes.len(),
    decreases bytes.len() - i,
{
    if i < bytes.len() && bytes[i] != '\n' as u8 {
        lemma_line_end(bytes, i + 1);
    }
}

/// A longer run of digits denotes no smaller number.
proof fn lemma_digits_value_grows(digits: Seq<u8>, n: int)
    requires
        0 <= n <= digits.len(),
    ensures
        digits_value(digits.take(n)) <= digits_value(digits),
    decreases digits.len() - n,
{
    if n < digits.len() {
        lemma_digits_value_grows(digits, n + 1);
        assert(digits.take(n + 1).drop_last() =~= digits.take(n));
    } else {
        assert(digits.take(n) =~= digits);
    }
}

pub fn is_digit_byte(b: u8) -> (yes: bool)
    ensures
        yes == is_digit(b),
{
    '0' as u8 <= b && b <= '9' as u8
}

pub fn starts_word_byte(b: u8) -> (yes: bool)
    ensures
        yes == starts_word(b),
{
    ('a' as u8 <= b && b <= 'z' as u8) || ('A' as u8 <= b && b <= 'Z' as u8) || b == '_' as u8
}

pub fn continues_word_byte(b: u8) -> (yes: bool)
    ensures
        yes == continues_word(b),
{
    starts_word_byte(b) || is_digit_byte(b)
}

pub fn find_digits_end(bytes: &[u8], start: usize) -> (end: usize)
    requires
        start <= bytes@.len(),
    ensures
        end == digits_end(bytes@, start as int),
        start <= end <= bytes@.len(),
{
    let mut i: usize = start;
    while i < bytes.len() && is_digit_byte(bytes[i])
        invariant
            start <= i <= bytes@.len(),
            digits_end(bytes@, i as int) == digits_end(bytes@, start as int),
        decreases bytes@.len() - i,
    {
        i += 1;
    }
    i
}

pub fn find_word_end(bytes: &[u8], start: usize) -> (end: usize)
    requires
        start <= bytes@.len(),
    ensures
        end == word_end(bytes@, start as int),
        start <= end <= bytes@.len(),
{
    let mut i: usize = start;
    while i < bytes.len() && continues_word_byte(bytes[i])
        invariant
            start <= i <= bytes@.len(),
            word_end(bytes@, i as int) == word_end(bytes@, start as int),
        decreases bytes@.len() - i,
    {
        i += 1;
    }
    i
}

pub fn find_line_end(bytes: &[u8], start: usize) -> (end: usize)
    requires
        start <= bytes@.len(),
    ensures
        end == line_end(bytes@, start as int),
        start <= end <= bytes@.len(),
{
    let mut i: usize = start;
    while i < bytes.len() && bytes[i] != '\n' as u8
        invariant
            start <= i <= bytes@.len(),
            line_end(bytes@, i as int) == line_end(bytes@, start as int),
        decreases bytes@.len() - i,
    {
        i += 1;
    }
    i
}

/// The characters of a slice of bytes, one for each.
pub fn latin_text(bytes: &[u8], start: usize, end: usize) -> (text: String)
    requires
        start <= end <= bytes@.len(),
    ensures
        text@ == latin(bytes@.subrange(start as int, end as int)),
{
    let mut text = String::new();
    let mut i: usize = start;
    while i < end
        invariant
            start <= i <= end <= bytes@.len(),
            text@ =~= latin(bytes@.subrange(start as int, i as int)),
        decreases end - i,
    {
        text.push(bytes[i] as char);
        i += 1;
    }
    text
}

/// The number that the digits from `start` to `end` denote, where it is in the range of `i32`.
pub fn read_i32(bytes: &[u8], start: usize, end: usize) -> (value: Option<i32>)
    requires
        start <= end <= bytes@.len(),
        forall|k: int| start <= k < end ==> is_digit(#[trigger] bytes@[k]),
    ensures
        match value {
            Some(n) => n == digits_value(bytes@.subrange(start as int, end as int)),
            None => digits_value(bytes@.subrange(start as int, end as int)) > i32::MAX,
        },
{
    let ghost digits = bytes@.subrange(start as int, end as int);
    let mut value: i64 = 0;
    let mut i: usize = start;
    assert(digits.take(0) =~= Seq::<u8>::empty());
    while i < end
        invariant
            start <= i <= end <= bytes@.len(),
            digits == bytes@.subrange(start as int, end as int),
            forall|k: int| start <= k < end ==> is_digit(#[trigger] bytes@[k]),
            0 <= value <= i32::MAX,
            value == digits_value(digits.take(i - start)),
        decreases end - i,
    {
        let digit: u8 = bytes[i] - '0' as u8;
        assert(digits.take(i + 1 - start).drop_last() =~= digits.take(i - start));
        value = value * 10 + digit as i64;
        i += 1;
        if value > i32::MAX as i64 {
            proof {
                lemma_digits_value_grows(digits, i - start);
            }
            return None;
        }
    }
    assert(digits.take(i - start) =~= digits);
    Some(value as i32)
}

/// Whether the byte after a position is `b`.
pub fn next_is(bytes: &[u8], i: usize, b: u8) -> (yes: bool)
    requires
        i < bytes@.len(),
    ensures
        yes == followed_by(bytes@, i as int, b),
{
    let len: usize = bytes.len();
    i + 1 < len && bytes[i + 1] == b
}

/// The diagnostic for a byte that starts no token, given how that byte is shown.
pub fn unexpected_byte(shown: &str, at: usize) -> (error: Error)
    ensures
        error@ == unexpected_byte_text(shown@, at as int),
{
    let mut message = "unexpected byte ".to_owned();
    message.append(shown);
    message.append(" at byte ");
    message.append(decimal_text(at as u64).as_str());
    Error::new(message)
}

pub fn out_of_range(at: usize) -> (error: Error)
    ensures
        error@ == out_of_range_text(at as int),
{
    let mut message = "integer literal out of I32 range at byte ".to_owned();
    message.append(decimal_text(at as u64).as_str());
    Error::new(message)
}

} // verus!
