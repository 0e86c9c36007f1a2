//! Words and numbers of ASCII characters among the bytes of a text.
use vstd::prelude::*;

use vstd::utf8::{
    encode_scalar, encode_utf8, encode_utf8_first_scalar, is_ascii_chars,
    is_ascii_chars_encode_utf8,
};

use crate::bytes::{
    continues_word, digits_end, digits_value, is_digit, latin, starts_word, word_end,
};
use crate::text::{decimal, digit_char};

verus! {

/// A text of letters, digits and underscores that no digit starts.
pub open spec fn is_word(text: Seq<char>) -> bool {
    &&& text.len() > 0
    &&& starts_word(text[0] as u8)
    &&& forall|i: int| 0 <= i < text.len() ==> continues_word((#[trigger] text[i]) as u8)
    &&& is_ascii_chars(text)
}

/// The bytes from `at` on are those of an ASCII text.
pub open spec fn holds(bytes: Seq<u8>, at: int, text: Seq<char>) -> bool {
    &&& 0 <= at
    &&& at + text.len() <= bytes.len()
    &&& is_ascii_chars(text)
    &&& forall|i: int|
        at <= i < at + text.len() ==> (#[trigger] bytes[i]) == text[i - at] as u8
}

pub proof fn lemma_holds_split(bytes: Seq<u8>, at: int, a: Seq<char>, b: Seq<char>)
    requires
        holds(bytes, at, a + b),
    ensures
        holds(bytes, at, a),
        holds(bytes, at + a.len(), b),
{
    let both = a + b;
    assert forall|i: int| 0 <= i < a.len() implies '\0' <= #[trigger] a[i] <= '\u{7f}' by {
        assert(both[i] == a[i]);
    }
    assert forall|i: int| 0 <= i < b.len() implies '\0' <= #[trigger] b[i] <= '\u{7f}' by {
        assert(both[i + a.len()] == b[i]);
    }
    assert forall|i: int| at <= i < at + a.len() implies (#[trigger] bytes[i]) == a[i
        - at] as u8 by {
        assert(both[i - at] == a[i - at]);
    }
    let middle = at + a.len();
    assert forall|i: int| middle <= i < middle + b.len() implies (#[trigger] bytes[i]) == b[i
        - middle] as u8 by {
        assert(both[i - at] == b[i - middle]);
    }
}

pub proof fn lemma_word_run(bytes: Seq<u8>, i: int, end: int)
    requires
        0 <= i <= end < bytes.len(),
        forall|k: int| i <= k < end ==> continues_word(#[trigger] bytes[k]),
        !continues_word(bytes[end]),
    ensures
        word_end(bytes, i) == end,
    decreases end - i,
{
    if i < end {
        lemma_word_run(bytes, i + 1, end);
    }
}

pub proof fn lemma_digit_run(bytes: Seq<u8>, i: int, end: int)
    requires
        0 <= i <= end < bytes.len(),
        forall|k: int| i <= k < end ==> is_digit(#[trigger] bytes[k]),
        !is_digit(bytes[end]),
    ensures
        digits_end(bytes, i) == end,
    decreases end - i,
{
    if i < end {
        lemma_digit_run(bytes, i + 1, end);
    }
}

/// A word that a space follows ends there.
pub proof fn lemma_word_read(bytes: Seq<u8>, at: int, word: Seq<char>)
    requires
        is_word(word),
        holds(bytes, at, word),
        at + word.len() < bytes.len(),
        bytes[at + word.len()] == ' ' as u8,
    ensures
        starts_word(bytes[at]),
        word_end(bytes, at + 1) == at + word.len(),
        latin(bytes.subrange(at, at + word.len())) == word,
{
    let end = at + word.len();
    assert forall|k: int| at <= k < end implies continues_word(#[trigger] bytes[k]) by {
        assert(continues_word(word[k - at] as u8));
    }
    lemma_word_run(bytes, at + 1, end);
    assert(latin(bytes.subrange(at, end)) =~= word);
    assert(bytes[at] == word[0] as u8);
}

/// The bytes of an ASCII text.
pub open spec fn ascii(text: Seq<char>) -> Seq<u8> {
    text.map_values(|c: char| c as u8)
}

/// The decimal notation of a number is a run of digits that denote it.
pub proof fn lemma_decimal(n: nat)
    ensures
        decimal(n).len() > 0,
        is_ascii_chars(decimal(n)),
        forall|i: int| 0 <= i < decimal(n).len() ==> is_digit((#[trigger] decimal(n)[i]) as u8),
        digits_value(ascii(decimal(n))) == n,
    decreases n,
{
    let text = decimal(n);
    assert(ascii(text).last() == digit_char(n % 10) as u8);
    if n < 10 {
        assert(ascii(text).drop_last() =~= Seq::empty());
        assert(digits_value(ascii(text).drop_last()) == 0);
    } else {
        lemma_decimal(n / 10);
        assert(text.drop_last() =~= decimal(n / 10));
        assert(ascii(text).drop_last() =~= ascii(decimal(n / 10)));
        assert forall|i: int| 0 <= i < text.len() implies is_digit((#[trigger] text[i]) as u8)
            && '\0' <= text[i] <= '\u{7f}' by {
            if i < text.len() - 1 {
                assert(text[i] == decimal(n / 10)[i]);
            } else {
                assert(text[i] == digit_char(n % 10));
            }
        }
    }
}

/// A number that a space follows ends there.
pub proof fn lemma_number_read(bytes: Seq<u8>, at: int, n: nat)
    requires
        holds(bytes, at, decimal(n)),
        at + decimal(n).len() < bytes.len(),
        bytes[at + decimal(n).len()] == ' ' as u8,
    ensures
        is_digit(bytes[at]),
        digits_end(bytes, at) == at + decimal(n).len(),
        digits_value(bytes.subrange(at, at + decimal(n).len())) == n,
{
    let text = decimal(n);
    let end = at + text.len();
    lemma_decimal(n);
    assert forall|k: int| at <= k < end implies is_digit(#[trigger] bytes[k]) by {
        assert(is_digit(text[k - at] as u8));
    }
    lemma_digit_run(bytes, at, end);
    assert(bytes.subrange(at, end) =~= ascii(text));
}

/// The bytes of two texts, one after the other.
pub proof fn lemma_encoded(a: Seq<char>, b: Seq<char>)
    ensures
        encode_utf8(a + b) == encode_utf8(a) + encode_utf8(b),
    decreases a.len(),
{
    if a.len() == 0 {
        assert(a + b =~= b);
        assert(encode_utf8(a) + encode_utf8(b) =~= encode_utf8(b));
    } else {
        let rest = a.drop_first();
        lemma_encoded(rest, b);
        assert((a + b).drop_first() =~= rest + b);
        assert((a + b)[0] == a[0]);
        assert(encode_utf8(a + b) =~= encode_utf8(a) + encode_utf8(b));
    }
}

/// No other character has the byte of a quote.
pub proof fn lemma_no_quote(c: char)
    requires
        c != '"',
    ensures
        encode_utf8(seq![c]).len() > 0,
        encode_utf8(seq![c]).last() != '"' as u8,
{
    let one = seq![c];
    let bytes = encode_scalar(c as u32);
    assert(one.drop_first() =~= Seq::empty());
    assert(encode_utf8(one.drop_first()) =~= Seq::empty());
    assert(encode_utf8(one) =~= bytes);
    encode_utf8_first_scalar(one);
    if c <= '\u{7f}' {
        assert(is_ascii_chars(one));
        is_ascii_chars_encode_utf8(one);
        assert(bytes[0] == one[0] as u8);
    } else {
        assert(bytes.len() > 1);
    }
}

/// No other character has the byte of a newline.
proof fn lemma_char(c: char)
    requires
        c != '\n',
    ensures
        forall|i: int|
            0 <= i < encode_scalar(c as u32).len() ==> #[trigger] encode_scalar(c as u32)[i]
                != '\n' as u8,
{
    let one = seq![c];
    let bytes = encode_scalar(c as u32);
    assert(one.drop_first() =~= Seq::empty());
    assert(encode_utf8(one.drop_first()) =~= Seq::empty());
    assert(encode_utf8(one) =~= bytes);
    encode_utf8_first_scalar(one);
    if c <= '\u{7f}' {
        assert(is_ascii_chars(one));
        is_ascii_chars_encode_utf8(one);
        assert(bytes[0] == one[0] as u8);
    } else {
        assert(bytes.len() > 1);
    }
}

/// A text without a newline has no byte of one.
pub proof fn lemma_no_newline(text: Seq<char>)
    requires
        !text.contains('\n'),
    ensures
        forall|i: int|
            0 <= i < encode_utf8(text).len() ==> #[trigger] encode_utf8(text)[i] != '\n' as u8,
    decreases text.len(),
{
    if text.len() > 0 {
        let rest = text.drop_first();
        let bytes = encode_utf8(text);
        let first = encode_scalar(text[0] as u32);
        assert(!rest.contains('\n')) by {
            assert forall|i: int| 0 <= i < rest.len() implies rest[i] != '\n' by {
                assert(text[i + 1] == rest[i]);
                assert(text.contains(text[i + 1]));
            }
        }
        lemma_no_newline(rest);
        assert(text.contains(text[0]));
        lemma_char(text[0]);
        assert forall|i: int| 0 <= i < bytes.len() implies #[trigger] bytes[i] != '\n' as u8 by {
            if i >= first.len() {
                assert(bytes[i] == encode_utf8(rest)[i - first.len()]);
            } else {
                assert(bytes[i] == first[i]);
            }
        }
    }
}

} // verus!
