//! Text as the diagnostics and the generated programs need it.
use vstd::prelude::*;

verus! {

/// `String::push` appends one character.
pub assume_specification[ std::string::String::push ](text: &mut std::string::String, c: char)
    ensures
        final(text)@ == old(text)@.push(c),
;

/// What `{:?}` prints for a character, quotes and escapes included.
pub uninterp spec fn shown_char(c: char) -> Seq<char>;

/// What `{:?}` prints for a string, quotes and escapes included.
pub uninterp spec fn shown_str(s: Seq<char>) -> Seq<char>;

/// `format!` with `{:?}` on a `char`. The contract only gives the printed text a name; the escapes
/// themselves are those of the standard library.
#[verifier::external_body]
pub(crate) fn show_char(c: char) -> (shown: String)
    ensures
        shown@ == shown_char(c),
{
    format!("{c:?}")
}

/// `format!` with `{:?}` on a `str`. The contract only gives the printed text a name; the escapes
/// themselves are those of the standard library.
#[verifier::external_body]
pub(crate) fn show_str(s: &str) -> (shown: String)
    ensures
        shown@ == shown_str(s@),
{
    format!("{s:?}")
}

/// The character of the decimal digit `d`.
pub open spec fn digit_char(d: nat) -> char {
    ('0' as nat + d) as char
}

/// The decimal notation of `n`, without leading zeros.
pub open spec fn decimal(n: nat) -> Seq<char>
    decreases n,
{
    if n < 10 {
        seq![digit_char(n)]
    } else {
        decimal(n / 10).push(digit_char(n % 10))
    }
}

/// The decimal notation of `n`, with a minus sign where it is negative.
pub open spec fn signed_decimal(n: int) -> Seq<char> {
    if n < 0 {
        seq!['-'] + decimal((-n) as nat)
    } else {
        decimal(n as nat)
    }
}

pub fn decimal_text(n: u64) -> (text: String)
    ensures
        text@ == decimal(n as nat),
    decreases n,
{
    let mut text = if n < 10 {
        String::new()
    } else {
        decimal_text(n / 10)
    };
    let digit: u8 = (n % 10) as u8;
    text.push(('0' as u8 + digit) as char);
    assert(n < 10 ==> text@ =~= decimal(n as nat));
    text
}

pub fn signed_decimal_text(n: i32) -> (text: String)
    ensures
        text@ == signed_decimal(n as int),
{
    if n < 0 {
        let mut text = String::new();
        text.push('-');
        assert(text@ =~= seq!['-']);
        let size: i64 = -(n as i64);
        text.append(decimal_text(size as u64).as_str());
        text
    } else {
        decimal_text(n as u64)
    }
}

/// Whether two texts are the same.
pub fn same_text(a: &str, b: &str) -> (same: bool)
    ensures
        same == (a@ == b@),
{
    a.to_owned() == b.to_owned()
}

/// The name is marked as that of a function with effects.
pub open spec fn ends_with_bang(name: Seq<char>) -> bool {
    name.len() > 0 && name.last() == '!'
}

/// Whether a name is marked as effectful.
pub fn is_marked(name: &str) -> (yes: bool)
    ensures
        yes == ends_with_bang(name@),
{
    let len: usize = name.unicode_len();
    len > 0 && name.get_char(len - 1) == '!'
}

/// A text with a name in it.
pub open spec fn quoted(before: Seq<char>, name: Seq<char>, after: Seq<char>) -> Seq<char> {
    before + name + after
}

/// A text with two names in it.
pub open spec fn quoted_twice(
    before: Seq<char>,
    name: Seq<char>,
    between: Seq<char>,
    other: Seq<char>,
    after: Seq<char>,
) -> Seq<char> {
    before + name + between + other + after
}

/// A text with a name in it.
pub fn quote(before: &str, name: &str, after: &str) -> (text: String)
    ensures
        text@ == quoted(before@, name@, after@),
{
    let mut text = before.to_owned();
    text.append(name);
    text.append(after);
    text
}

/// A text with two names in it.
pub fn quote_twice(before: &str, name: &str, between: &str, other: &str, after: &str) -> (text:
    String)
    ensures
        text@ == quoted_twice(before@, name@, between@, other@, after@),
{
    let mut text = quote(before, name, between);
    text.append(other);
    text.append(after);
    text
}

/// `parts` one after the other, with `separator` between neighbours.
pub open spec fn joined(parts: Seq<Seq<char>>, separator: Seq<char>) -> Seq<char>
    decreases parts.len(),
{
    if parts.len() == 0 {
        Seq::empty()
    } else if parts.len() == 1 {
        parts[0]
    } else {
        joined(parts.drop_last(), separator) + separator + parts.last()
    }
}

/// The parts stand in their order, with the separator between each two.
pub proof fn law_joined(parts: Seq<Seq<char>>, separator: Seq<char>)
    requires
        parts.len() >= 2,
    ensures
        joined(parts, separator) == parts[0] + separator + joined(parts.drop_first(), separator),
    decreases parts.len(),
{
    let less = parts.drop_last();
    let rest = parts.drop_first();
    assert(rest.last() == parts.last());
    if parts.len() == 2 {
        assert(less.len() == 1 && less[0] == parts[0]);
        assert(rest.len() == 1 && rest[0] == parts[1]);
        assert(joined(less, separator) == parts[0]);
        assert(joined(rest, separator) == parts[1]);
    } else {
        law_joined(less, separator);
        assert(less[0] == parts[0]);
        assert(less.drop_first() =~= rest.drop_last());
        let middle = joined(rest.drop_last(), separator);
        assert(joined(less, separator) == parts[0] + separator + middle);
        assert(joined(rest, separator) == middle + separator + parts.last());
        assert(parts[0] + separator + middle + separator + parts.last() =~= parts[0] + separator + (
        middle + separator + parts.last()));
    }
}

/// The views of a list of strings.
pub open spec fn texts(list: Seq<String>) -> Seq<Seq<char>> {
    list.map_values(|s: String| s@)
}

pub fn join(parts: &Vec<String>, separator: &str) -> (text: String)
    ensures
        text@ == joined(texts(parts@), separator@),
{
    let mut text = String::new();
    let ghost all = texts(parts@);
    let mut i: usize = 0;
    assert(text@ =~= joined(all.take(0), separator@));
    while i < parts.len()
        invariant
            i <= parts.len(),
            all == texts(parts@),
            text@ == joined(all.take(i as int), separator@),
        decreases parts.len() - i,
    {
        assert(all.take(i + 1).drop_last() =~= all.take(i as int));
        if i > 0 {
            text.append(separator);
        }
        text.append(parts[i].as_str());
        assert(i == 0 ==> text@ =~= all[0]);
        i += 1;
    }
    assert(all.take(i as int) =~= all);
    text
}

} // verus!
