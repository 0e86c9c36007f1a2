//! Texts made of words, numbers, signs, string literals, white space and comments, and the tokens
//! that they are split into.
use vstd::prelude::*;

use vstd::utf8::{encode_utf8, is_ascii_chars, is_ascii_chars_encode_utf8};

use crate::ascii::{ascii, lemma_encoded, lemma_no_newline, lemma_no_quote};
use crate::bytes::{
    continues_word, digits_end, digits_value, is_digit, latin, line_end, starts_word, word_end,
};
use crate::lexer::{
    escaped, in_front, step, next_char, string_from, tokens_from, tokens_of, word_kind, Step,
    TokenKindView, TokenView,
};
use crate::spelling::{ends_with, lemma_char, lemma_front};
use crate::text::{decimal, shown_char};

verus! {

pub open spec fn is_letter(c: char) -> bool {
    'a' <= c <= 'z' || 'A' <= c <= 'Z' || c == '_'
}

pub open spec fn is_numeral(c: char) -> bool {
    '0' <= c <= '9'
}

pub open spec fn is_keyword(name: Seq<char>) -> bool {
    ||| name == "fn"@
    ||| name == "import"@
    ||| name == "struct"@
    ||| name == "enum"@
    ||| name == "match"@
    ||| name == "true"@
    ||| name == "false"@
}

/// Letters, digits and underscores, and no digit first.
pub open spec fn is_name(name: Seq<char>) -> bool {
    &&& name.len() > 0
    &&& is_letter(name[0])
    &&& forall|i: int|
        0 <= i < name.len() ==> is_letter(#[trigger] name[i]) || is_numeral(name[i])
}

pub open spec fn is_number(digits: Seq<char>) -> bool {
    &&& digits.len() > 0
    &&& forall|i: int| 0 <= i < digits.len() ==> is_numeral(#[trigger] digits[i])
}

/// The number that a run of digits denotes.
pub open spec fn number(digits: Seq<char>) -> nat
    decreases digits.len(),
{
    if digits.len() == 0 {
        0
    } else {
        number(digits.drop_last()) * 10 + (digits.last() as nat - '0' as nat) as nat
    }
}

/// A character of a string literal.
pub enum Glyph {
    /// It stands for itself.
    Plain(char),
    /// It stands behind a backslash.
    Escaped(char),
}

pub open spec fn glyph_text(glyph: Glyph) -> Seq<char> {
    match glyph {
        Glyph::Plain(c) => seq![c],
        Glyph::Escaped(c) => seq!['\\', c],
    }
}

/// The character that a glyph stands for.
pub open spec fn meant(glyph: Glyph) -> char {
    match glyph {
        Glyph::Plain(c) => c,
        Glyph::Escaped(c) => if c == 'n' {
            '\n'
        } else if c == 't' {
            '\t'
        } else {
            c
        },
    }
}

pub open spec fn proper_glyph(glyph: Glyph) -> bool {
    match glyph {
        Glyph::Plain(c) => c != '"' && c != '\\' && c != '\n',
        Glyph::Escaped(c) => c == '"' || c == '\\' || c == 'n' || c == 't',
    }
}

/// The glyphs from `i` on.
pub open spec fn glyphs_text(glyphs: Seq<Glyph>, i: int) -> Seq<char>
    decreases glyphs.len() - i,
{
    if 0 <= i < glyphs.len() {
        glyph_text(glyphs[i]) + glyphs_text(glyphs, i + 1)
    } else {
        Seq::empty()
    }
}

pub open spec fn proper_glyphs(glyphs: Seq<Glyph>) -> bool {
    forall|i: int| 0 <= i < glyphs.len() ==> proper_glyph(#[trigger] glyphs[i])
}

pub open spec fn meant_text(glyphs: Seq<Glyph>) -> Seq<char> {
    glyphs.map_values(|glyph: Glyph| meant(glyph))
}

/// A piece of a text.
pub enum Lexeme {
    Blank(char),
    Comment(Seq<char>),
    Name(Seq<char>),
    Keyword(TokenKindView),
    Number(Seq<char>),
    Sign(TokenKindView),
    Quoted(Seq<Glyph>),
}

pub open spec fn keyword_text(kind: TokenKindView) -> Option<Seq<char>> {
    match kind {
        TokenKindView::Fn => Some("fn"@),
        TokenKindView::Import => Some("import"@),
        TokenKindView::Struct => Some("struct"@),
        TokenKindView::Enum => Some("enum"@),
        TokenKindView::Match => Some("match"@),
        TokenKindView::True => Some("true"@),
        TokenKindView::False => Some("false"@),
        _ => None,
    }
}

pub open spec fn sign_text(kind: TokenKindView) -> Option<Seq<char>> {
    match kind {
        TokenKindView::LParen => Some(seq!['(']),
        TokenKindView::RParen => Some(seq![')']),
        TokenKindView::LBrace => Some(seq!['{']),
        TokenKindView::RBrace => Some(seq!['}']),
        TokenKindView::LBracket => Some(seq!['[']),
        TokenKindView::RBracket => Some(seq![']']),
        TokenKindView::Comma => Some(seq![',']),
        TokenKindView::Dot => Some(seq!['.']),
        TokenKindView::Colon => Some(seq![':']),
        TokenKindView::Hash => Some(seq!['#']),
        TokenKindView::Bang => Some(seq!['!']),
        TokenKindView::Eq => Some(seq!['=']),
        TokenKindView::EqEq => Some(seq!['=', '=']),
        TokenKindView::Arrow => Some(seq!['-', '>']),
        TokenKindView::Pipe => Some(seq!['|', '>']),
        TokenKindView::Lt => Some(seq!['<']),
        TokenKindView::Gt => Some(seq!['>']),
        TokenKindView::Plus => Some(seq!['+']),
        TokenKindView::Minus => Some(seq!['-']),
        TokenKindView::Star => Some(seq!['*']),
        TokenKindView::Newline => Some(seq!['\n']),
        _ => None,
    }
}

pub open spec fn lexeme_text(lexeme: Lexeme) -> Seq<char> {
    match lexeme {
        Lexeme::Blank(c) => seq![c],
        Lexeme::Comment(text) => seq!['-', '-'] + text,
        Lexeme::Name(name) => name,
        Lexeme::Keyword(kind) => keyword_text(kind)->Some_0,
        Lexeme::Number(digits) => digits,
        Lexeme::Sign(kind) => sign_text(kind)->Some_0,
        Lexeme::Quoted(glyphs) => seq!['"'] + (glyphs_text(glyphs, 0) + seq!['"']),
    }
}

/// The token that a piece becomes, if it becomes one.
pub open spec fn lexeme_kind(lexeme: Lexeme) -> Option<TokenKindView> {
    match lexeme {
        Lexeme::Blank(_) | Lexeme::Comment(_) => None,
        Lexeme::Name(name) => Some(TokenKindView::Ident(name)),
        Lexeme::Keyword(kind) => Some(kind),
        Lexeme::Number(digits) => Some(TokenKindView::Int(number(digits) as i32)),
        Lexeme::Sign(kind) => Some(kind),
        Lexeme::Quoted(glyphs) => Some(TokenKindView::String(meant_text(glyphs))),
    }
}

pub open spec fn proper(lexeme: Lexeme) -> bool {
    match lexeme {
        Lexeme::Blank(c) => c == ' ' || c == '\t' || c == '\r',
        Lexeme::Comment(text) => !text.contains('\n'),
        Lexeme::Name(name) => is_name(name) && !is_keyword(name),
        Lexeme::Keyword(kind) => keyword_text(kind) is Some,
        Lexeme::Number(digits) => is_number(digits) && number(digits) <= i32::MAX,
        Lexeme::Sign(kind) => sign_text(kind) is Some,
        Lexeme::Quoted(glyphs) => proper_glyphs(glyphs),
    }
}

/// The piece ends before the text that follows it: a comment with its line, a name before what
/// cannot go on a name, a number before what is no digit, and a sign where it is no part of a
/// longer one.
pub open spec fn parted(lexeme: Lexeme, rest: Seq<char>) -> bool {
    rest.len() > 0 ==> match lexeme {
        Lexeme::Comment(_) => rest[0] == '\n',
        Lexeme::Name(_) | Lexeme::Keyword(_) => !is_letter(rest[0]) && !is_numeral(rest[0]),
        Lexeme::Number(_) => !is_numeral(rest[0]),
        Lexeme::Sign(TokenKindView::Eq) => rest[0] != '=',
        Lexeme::Sign(TokenKindView::Minus) => rest[0] != '-' && rest[0] != '>',
        _ => true,
    }
}

/// The pieces from `i` on, and the text that follows them.
pub open spec fn text_from(list: Seq<Lexeme>, i: int, tail: Seq<char>) -> Seq<char>
    decreases list.len() - i,
{
    if 0 <= i < list.len() {
        lexeme_text(list[i]) + text_from(list, i + 1, tail)
    } else {
        tail
    }
}

/// Each piece is proper, and ends before the next.
pub open spec fn well_cut(list: Seq<Lexeme>, tail: Seq<char>) -> bool {
    forall|i: int|
        0 <= i < list.len() ==> proper(#[trigger] list[i]) && parted(
            list[i],
            text_from(list, i + 1, tail),
        )
}

/// The number of bytes of a piece.
pub open spec fn width(lexeme: Lexeme) -> int {
    encode_utf8(lexeme_text(lexeme)).len() as int
}

/// The number of bytes of the first `n` pieces.
pub open spec fn widths(list: Seq<Lexeme>, n: int) -> int
    decreases n,
{
    if n <= 0 {
        0
    } else {
        widths(list, n - 1) + width(list[n - 1])
    }
}

/// The tokens of the first `n` pieces, each at the position of its first byte.
pub open spec fn tokens_before(list: Seq<Lexeme>, n: int) -> Seq<TokenView>
    decreases n,
{
    if n <= 0 {
        Seq::empty()
    } else {
        match lexeme_kind(list[n - 1]) {
            None => tokens_before(list, n - 1),
            Some(kind) => tokens_before(list, n - 1).push(
                TokenView { kind, pos: widths(list, n - 1) },
            ),
        }
    }
}

proof fn lemma_letters(c: char)
    ensures
        is_letter(c) <==> c <= '\u{7f}' && starts_word(c as u8),
        is_numeral(c) <==> c <= '\u{7f}' && is_digit(c as u8),
{
}

/// The byte at the start of a text that goes on no name is none that goes on a word.
proof fn lemma_behind(bytes: Seq<u8>, at: int, rest: Seq<char>)
    requires
        ends_with(bytes, at, rest),
    ensures
        rest.len() == 0 <==> at == bytes.len(),
        rest.len() > 0 ==> {
            &&& starts_word(bytes[at]) <==> is_letter(rest[0])
            &&& is_digit(bytes[at]) <==> is_numeral(rest[0])
            &&& bytes[at] == ' ' as u8 <==> rest[0] == ' '
            &&& bytes[at] == '\t' as u8 <==> rest[0] == '\t'
            &&& bytes[at] == '\r' as u8 <==> rest[0] == '\r'
            &&& bytes[at] == '\n' as u8 <==> rest[0] == '\n'
            &&& bytes[at] == '(' as u8 <==> rest[0] == '('
            &&& bytes[at] == ')' as u8 <==> rest[0] == ')'
            &&& bytes[at] == '{' as u8 <==> rest[0] == '{'
            &&& bytes[at] == '}' as u8 <==> rest[0] == '}'
            &&& bytes[at] == '[' as u8 <==> rest[0] == '['
            &&& bytes[at] == ']' as u8 <==> rest[0] == ']'
            &&& bytes[at] == ',' as u8 <==> rest[0] == ','
            &&& bytes[at] == '.' as u8 <==> rest[0] == '.'
            &&& bytes[at] == '#' as u8 <==> rest[0] == '#'
            &&& bytes[at] == '!' as u8 <==> rest[0] == '!'
            &&& bytes[at] == '=' as u8 <==> rest[0] == '='
            &&& bytes[at] == '-' as u8 <==> rest[0] == '-'
            &&& bytes[at] == '<' as u8 <==> rest[0] == '<'
            &&& bytes[at] == '+' as u8 <==> rest[0] == '+'
            &&& bytes[at] == '*' as u8 <==> rest[0] == '*'
            &&& bytes[at] == ':' as u8 <==> rest[0] == ':'
            &&& bytes[at] == '>' as u8 <==> rest[0] == '>'
            &&& bytes[at] == '|' as u8 <==> rest[0] == '|'
            &&& bytes[at] == '"' as u8 <==> rest[0] == '"'
            &&& bytes[at] == '\\' as u8 <==> rest[0] == '\\'
            &&& bytes[at] == 'n' as u8 <==> rest[0] == 'n'
            &&& bytes[at] == 't' as u8 <==> rest[0] == 't'
        },
{
    if rest.len() > 0 {
        assert(rest =~= seq![rest[0]] + rest.drop_first());
        lemma_char(bytes, at, rest[0], rest.drop_first());
        lemma_letters(rest[0]);
        lemma_first_byte(bytes[at], rest[0]);
    } else {
        assert(encode_utf8(rest) =~= Seq::empty());
        assert(bytes.skip(at).len() == 0);
    }
}

proof fn lemma_first_byte(b: u8, c: char)
    requires
        c <= '\u{7f}' ==> b == c as u8,
        c > '\u{7f}' ==> b >= 0x80,
    ensures
        b == ' ' as u8 <==> c == ' ',
        b == '\t' as u8 <==> c == '\t',
        b == '\r' as u8 <==> c == '\r',
        b == '\n' as u8 <==> c == '\n',
        b == '(' as u8 <==> c == '(',
        b == ')' as u8 <==> c == ')',
        b == '{' as u8 <==> c == '{',
        b == '}' as u8 <==> c == '}',
        b == '[' as u8 <==> c == '[',
        b == ']' as u8 <==> c == ']',
        b == ',' as u8 <==> c == ',',
        b == '.' as u8 <==> c == '.',
        b == '#' as u8 <==> c == '#',
        b == '!' as u8 <==> c == '!',
        b == '=' as u8 <==> c == '=',
        b == '-' as u8 <==> c == '-',
        b == '<' as u8 <==> c == '<',
        b == '+' as u8 <==> c == '+',
        b == '*' as u8 <==> c == '*',
        b == ':' as u8 <==> c == ':',
        b == '>' as u8 <==> c == '>',
        b == '|' as u8 <==> c == '|',
        b == '"' as u8 <==> c == '"',
        b == '\\' as u8 <==> c == '\\',
        b == 'n' as u8 <==> c == 'n',
        b == 't' as u8 <==> c == 't',
{
}

proof fn lemma_word_end(bytes: Seq<u8>, i: int, end: int)
    requires
        0 <= i <= end <= bytes.len(),
        forall|k: int| i <= k < end ==> continues_word(#[trigger] bytes[k]),
        end < bytes.len() ==> !continues_word(bytes[end]),
    ensures
        word_end(bytes, i) == end,
    decreases end - i,
{
    if i < end {
        lemma_word_end(bytes, i + 1, end);
    }
}

proof fn lemma_digits_end(bytes: Seq<u8>, i: int, end: int)
    requires
        0 <= i <= end <= bytes.len(),
        forall|k: int| i <= k < end ==> is_digit(#[trigger] bytes[k]),
        end < bytes.len() ==> !is_digit(bytes[end]),
    ensures
        digits_end(bytes, i) == end,
    decreases end - i,
{
    if i < end {
        lemma_digits_end(bytes, i + 1, end);
    }
}

proof fn lemma_line_end(bytes: Seq<u8>, i: int, end: int)
    requires
        0 <= i <= end <= bytes.len(),
        forall|k: int| i <= k < end ==> #[trigger] bytes[k] != '\n' as u8,
        end < bytes.len() ==> bytes[end] == '\n' as u8,
    ensures
        line_end(bytes, i) == end,
    decreases end - i,
{
    if i < end {
        lemma_line_end(bytes, i + 1, end);
    }
}

proof fn lemma_number_value(digits: Seq<char>)
    requires
        forall|i: int| 0 <= i < digits.len() ==> is_numeral(#[trigger] digits[i]),
    ensures
        digits_value(ascii(digits)) == number(digits),
    decreases digits.len(),
{
    if digits.len() > 0 {
        let less = digits.drop_last();
        assert forall|i: int| 0 <= i < less.len() implies is_numeral(#[trigger] less[i]) by {
            assert(less[i] == digits[i]);
        }
        lemma_number_value(less);
        assert(ascii(digits).drop_last() =~= ascii(less));
        assert(is_numeral(digits[digits.len() - 1]));
        assert(ascii(digits).last() == digits.last() as u8);
    }
}

/// The bytes behind a piece are those of the text behind it.
proof fn lemma_behind_lexeme(bytes: Seq<u8>, at: int, text: Seq<char>, rest: Seq<char>)
    requires
        ends_with(bytes, at, text + rest),
    ensures
        ends_with(bytes, at + encode_utf8(text).len(), rest),
        forall|k: int|
            0 <= k < encode_utf8(text).len() ==> #[trigger] encode_utf8(text)[k] == bytes[at + k],
{
    lemma_encoded(text, rest);
    let width = encode_utf8(text).len() as int;
    let tail = bytes.skip(at);
    assert(tail == encode_utf8(text) + encode_utf8(rest));
    assert(bytes.skip(at + width) =~= encode_utf8(rest)) by {
        assert(bytes.skip(at + width) =~= tail.skip(width));
        assert(tail.skip(width) =~= encode_utf8(rest));
    }
    assert forall|k: int| 0 <= k < width implies #[trigger] encode_utf8(text)[k] == bytes[at
        + k] by {
        assert(tail[k] == bytes[at + k]);
    }
}

proof fn lemma_name_ascii(name: Seq<char>)
    requires
        forall|i: int|
            0 <= i < name.len() ==> is_letter(#[trigger] name[i]) || is_numeral(name[i]),
    ensures
        is_ascii_chars(name),
        forall|i: int| 0 <= i < name.len() ==> continues_word((#[trigger] name[i]) as u8),
{
    assert forall|i: int| 0 <= i < name.len() implies '\0' <= #[trigger] name[i] <= '\u{7f}'
        && continues_word(name[i] as u8) by {
        lemma_letters(name[i]);
    }
}

/// A word is read to its end.
proof fn lemma_word(bytes: Seq<u8>, at: int, word: Seq<char>, rest: Seq<char>)
    requires
        is_name(word),
        ends_with(bytes, at, word + rest),
        rest.len() > 0 ==> !is_letter(rest[0]) && !is_numeral(rest[0]),
    ensures
        at < bytes.len(),
        step(bytes, at) == Step::Emit(word_kind(word), at + encode_utf8(word).len()),
        ends_with(bytes, at + encode_utf8(word).len(), rest),
{
    lemma_name_ascii(word);
    lemma_front(bytes, at, word, rest);
    is_ascii_chars_encode_utf8(word);
    let end = at + word.len();
    lemma_behind(bytes, end, rest);
    assert forall|k: int| at <= k < end implies continues_word(#[trigger] bytes[k]) by {
        assert(bytes[k] == word[k - at] as u8);
    }
    lemma_word_end(bytes, at + 1, end);
    assert(latin(bytes.subrange(at, end)) =~= word) by {
        assert forall|k: int| 0 <= k < word.len() implies #[trigger] latin(
            bytes.subrange(at, end),
        )[k] == word[k] by {
            assert(bytes[at + k] == word[k] as u8);
            lemma_letters(word[k]);
        }
    }
    assert(bytes[at] == word[0] as u8);
    lemma_letters(word[0]);
}

proof fn lemma_keywords(kind: TokenKindView)
    requires
        keyword_text(kind) is Some,
    ensures
        is_name(keyword_text(kind)->Some_0),
        word_kind(keyword_text(kind)->Some_0) == kind,
{
    reveal_strlit("fn");
    reveal_strlit("import");
    reveal_strlit("struct");
    reveal_strlit("enum");
    reveal_strlit("match");
    reveal_strlit("true");
    reveal_strlit("false");
    assert("fn"@.len() == 2 && "fn"@[0] == 'f');
    assert("import"@.len() == 6 && "import"@[0] == 'i');
    assert("struct"@.len() == 6 && "struct"@[0] == 's');
    assert("enum"@.len() == 4 && "enum"@[0] == 'e');
    assert("match"@.len() == 5 && "match"@[0] == 'm');
    assert("true"@.len() == 4 && "true"@[0] == 't');
    assert("false"@.len() == 5 && "false"@[0] == 'f');
    let text = keyword_text(kind)->Some_0;
    assert forall|i: int| 0 <= i < text.len() implies is_letter(#[trigger] text[i]) by {
        assert(i == 0 || i == 1 || i == 2 || i == 3 || i == 4 || i == 5);
    }
}

/// The glyphs of a literal are read to the text behind them.
proof fn lemma_glyphs(
    bytes: Seq<u8>,
    open: int,
    at: int,
    glyphs: Seq<Glyph>,
    i: int,
    rest: Seq<char>,
)
    requires
        0 <= i <= glyphs.len(),
        proper_glyphs(glyphs),
        ends_with(bytes, at, glyphs_text(glyphs, i) + rest),
    ensures
        ({
            let end = at + encode_utf8(glyphs_text(glyphs, i)).len();
            &&& ends_with(bytes, end, rest)
            &&& string_from(bytes, open, at, meant_text(glyphs).take(i)) == string_from(
                bytes,
                open,
                end,
                meant_text(glyphs),
            )
        }),
    decreases glyphs.len() - i,
{
    let value = meant_text(glyphs);
    lemma_behind_lexeme(bytes, at, glyphs_text(glyphs, i), rest);
    if i < glyphs.len() {
        let glyph = glyphs[i];
        let more = glyphs_text(glyphs, i + 1) + rest;
        assert(proper_glyph(glyphs[i]));
        assert(glyphs_text(glyphs, i) + rest =~= glyph_text(glyph) + more);
        lemma_encoded(glyph_text(glyph), glyphs_text(glyphs, i + 1));
        lemma_behind_lexeme(bytes, at, glyph_text(glyph), more);
        assert(value.take(i).push(meant(glyph)) =~= value.take(i + 1));
        match glyph {
            Glyph::Escaped(c) => {
                assert(is_ascii_chars(glyph_text(glyph)));
                is_ascii_chars_encode_utf8(glyph_text(glyph));
                lemma_front(bytes, at, glyph_text(glyph), more);
                assert(bytes[at] == '\\' as u8);
                assert(bytes[at + 1] == c as u8);
                assert(escaped(bytes[at + 1]) == Some(meant(glyph)));
                lemma_glyphs(bytes, open, at + 2, glyphs, i + 1, rest);
            },
            Glyph::Plain(c) => {
                lemma_char(bytes, at, c, more);
                let next = at + encode_utf8(glyph_text(glyph)).len();
                lemma_first_byte(bytes[at], c);
                assert(next_char(bytes, at) == next) by {
                    assert(bytes.skip(next_char(bytes, at)).len() == bytes.skip(next).len());
                }
                lemma_glyphs(bytes, open, next, glyphs, i + 1, rest);
            },
        }
    } else {
        assert(glyphs_text(glyphs, i) + rest =~= rest);
        assert(encode_utf8(glyphs_text(glyphs, i)) =~= Seq::empty());
        assert(value.take(i) =~= value);
    }
}

/// A piece is read to its end.
#[verifier::rlimit(30)]
proof fn lemma_lexeme(bytes: Seq<u8>, at: int, lexeme: Lexeme, rest: Seq<char>)
    requires
        proper(lexeme),
        parted(lexeme, rest),
        ends_with(bytes, at, lexeme_text(lexeme) + rest),
    ensures
        0 <= at < bytes.len(),
        width(lexeme) > 0,
        ends_with(bytes, at + width(lexeme), rest),
        match lexeme_kind(lexeme) {
            None => step(bytes, at) == Step::Skip(at + width(lexeme)),
            Some(kind) => step(bytes, at) == Step::Emit(kind, at + width(lexeme)),
        },
{
    let text = lexeme_text(lexeme);
    let end = at + width(lexeme);
    lemma_behind_lexeme(bytes, at, text, rest);
    lemma_behind(bytes, end, rest);
    match lexeme {
        Lexeme::Blank(c) => {
            assert(is_ascii_chars(text));
            is_ascii_chars_encode_utf8(text);
            lemma_front(bytes, at, text, rest);
            assert(bytes[at] == c as u8);
        },
        Lexeme::Comment(comment) => {
            let dashes = seq!['-', '-'];
            assert(is_ascii_chars(dashes));
            is_ascii_chars_encode_utf8(dashes);
            lemma_encoded(dashes, comment);
            assert(text + rest =~= dashes + (comment + rest));
            lemma_front(bytes, at, dashes, comment + rest);
            assert(bytes[at] == '-' as u8 && bytes[at + 1] == '-' as u8);
            lemma_behind_lexeme(bytes, at + 2, comment, rest);
            lemma_no_newline(comment);
            assert forall|k: int| at + 2 <= k < end implies #[trigger] bytes[k] != '\n' as u8 by {
                assert(bytes[at + 2 + (k - at - 2)] == encode_utf8(comment)[k - at - 2]);
            }
            lemma_line_end(bytes, at + 2, end);
        },
        Lexeme::Name(name) => lemma_word(bytes, at, name, rest),
        Lexeme::Keyword(kind) => {
            lemma_keywords(kind);
            lemma_word(bytes, at, text, rest);
        },
        Lexeme::Number(digits) => {
            lemma_name_ascii(digits);
            lemma_front(bytes, at, digits, rest);
            is_ascii_chars_encode_utf8(digits);
            assert forall|k: int| at <= k < end implies is_digit(#[trigger] bytes[k]) by {
                assert(bytes[k] == digits[k - at] as u8);
                lemma_letters(digits[k - at]);
            }
            lemma_digits_end(bytes, at, end);
            assert(bytes.subrange(at, end) =~= ascii(digits));
            lemma_number_value(digits);
            assert(is_digit(bytes[at]));
        },
        Lexeme::Sign(kind) => {
            assert(is_ascii_chars(text));
            is_ascii_chars_encode_utf8(text);
            lemma_front(bytes, at, text, rest);
            assert(bytes[at] == text[0] as u8);
            if text.len() > 1 {
                assert(bytes[at + 1] == text[1] as u8);
            }
        },
        Lexeme::Quoted(glyphs) => {
            let quote = seq!['"'];
            let inner = glyphs_text(glyphs, 0);
            assert(is_ascii_chars(quote));
            is_ascii_chars_encode_utf8(quote);
            assert(text + rest =~= quote + (inner + (quote + rest)));
            lemma_encoded(quote, inner + quote);
            lemma_encoded(inner, quote);
            lemma_front(bytes, at, quote, inner + (quote + rest));
            assert(bytes[at] == '"' as u8);
            lemma_glyphs(bytes, at, at + 1, glyphs, 0, quote + rest);
            let close = at + 1 + encode_utf8(inner).len();
            lemma_front(bytes, close, quote, rest);
            assert(bytes[close] == '"' as u8);
            assert(meant_text(glyphs).take(0) =~= Seq::empty());
        },
    }
}

/// The pieces from `i` on are read, and then the text that follows.
proof fn lemma_lexemes(bytes: Seq<u8>, list: Seq<Lexeme>, i: int, tail: Seq<char>)
    requires
        well_cut(list, tail),
        0 <= i <= list.len(),
        bytes == encode_utf8(text_from(list, 0, tail)),
    ensures
        ends_with(bytes, widths(list, i), text_from(list, i, tail)),
        tokens_from(bytes, 0) == in_front(
            tokens_before(list, i),
            tokens_from(bytes, widths(list, i)),
        ),
    decreases i,
{
    if i > 0 {
        lemma_lexemes(bytes, list, i - 1, tail);
        let at = widths(list, i - 1);
        let lexeme = list[i - 1];
        assert(proper(list[i - 1]));
        lemma_lexeme(bytes, at, lexeme, text_from(list, i, tail));
        let before = tokens_before(list, i - 1);
        if let Some(kind) = lexeme_kind(lexeme) {
            let token = TokenView { kind, pos: at };
            if let Ok(more) = tokens_from(bytes, widths(list, i)) {
                assert(before + (seq![token] + more) =~= before.push(token) + more);
            }
        }
    } else {
        assert(bytes.skip(0) =~= bytes);
        if let Ok(more) = tokens_from(bytes, 0) {
            assert(Seq::<TokenView>::empty() + more =~= more);
        }
    }
}

/// A text of proper pieces is split into their tokens, each at the position of its first byte, and
/// the mark of the end.
pub proof fn law_lexemes(list: Seq<Lexeme>)
    requires
        well_cut(list, Seq::empty()),
    ensures
        tokens_of(text_from(list, 0, Seq::empty())) == Ok::<Seq<TokenView>, Seq<char>>(
            tokens_before(list, list.len() as int).push(
                TokenView { kind: TokenKindView::Eof, pos: widths(list, list.len() as int) },
            ),
        ),
{
    let n = list.len() as int;
    let bytes = encode_utf8(text_from(list, 0, Seq::empty()));
    lemma_lexemes(bytes, list, n, Seq::empty());
    lemma_behind(bytes, widths(list, n), Seq::empty());
    let end = TokenView { kind: TokenKindView::Eof, pos: widths(list, n) };
    assert(tokens_before(list, n) + seq![end] =~= tokens_before(list, n).push(end));
}

/// The character starts no piece.
pub open spec fn starts_nothing(c: char) -> bool {
    &&& !is_letter(c) && !is_numeral(c)
    &&& c != ' ' && c != '\t' && c != '\r' && c != '\n'
    &&& c != '(' && c != ')' && c != '{' && c != '}' && c != '[' && c != ']'
    &&& c != ',' && c != '.' && c != '#' && c != '!'
    &&& c != '=' && c != '-' && c != '<' && c != '+' && c != '*'
    &&& c != ':' && c != '>' && c != '|' && c != '"'
}

/// A text is refused where a character that starts no piece follows the pieces, also a
/// bar that no angle bracket follows. The diagnostic
/// shows the first byte of the character, and tells its position.
pub proof fn law_unexpected(list: Seq<Lexeme>, tail: Seq<char>)
    requires
        well_cut(list, tail),
        tail.len() > 0,
        starts_nothing(tail[0]) || tail[0] == '|' && (tail.len() == 1 || tail[1] != '>'),
    ensures
        tokens_of(text_from(list, 0, tail)) == Err::<Seq<TokenView>, Seq<char>>(
            "unexpected byte "@ + shown_char(encode_utf8(tail)[0] as char) + " at byte "@ + decimal(
                widths(list, list.len() as int) as nat,
            ),
        ),
{
    let n = list.len() as int;
    let at = widths(list, n);
    let bytes = encode_utf8(text_from(list, 0, tail));
    lemma_lexemes(bytes, list, n, tail);
    lemma_behind(bytes, at, tail);
    assert(bytes.skip(at)[0] == bytes[at]);
    if tail[0] == '|' {
        let rest = tail.drop_first();
        assert(tail =~= seq!['|'] + rest);
        lemma_front(bytes, at, seq!['|'], rest);
        lemma_behind(bytes, at + 1, rest);
    }
}

/// A number that is too large is refused.
pub proof fn law_too_large(list: Seq<Lexeme>, digits: Seq<char>, rest: Seq<char>)
    requires
        well_cut(list, digits + rest),
        is_number(digits),
        number(digits) > i32::MAX,
        rest.len() > 0 ==> !is_numeral(rest[0]),
    ensures
        tokens_of(text_from(list, 0, digits + rest)) == Err::<Seq<TokenView>, Seq<char>>(
            "integer literal out of I32 range at byte "@ + decimal(
                widths(list, list.len() as int) as nat,
            ),
        ),
{
    let n = list.len() as int;
    let at = widths(list, n);
    let bytes = encode_utf8(text_from(list, 0, digits + rest));
    lemma_lexemes(bytes, list, n, digits + rest);
    lemma_name_ascii(digits);
    lemma_front(bytes, at, digits, rest);
    let end = at + digits.len();
    lemma_behind(bytes, end, rest);
    assert forall|k: int| at <= k < end implies is_digit(#[trigger] bytes[k]) by {
        assert(bytes[k] == digits[k - at] as u8);
        lemma_letters(digits[k - at]);
    }
    lemma_digits_end(bytes, at, end);
    assert(bytes.subrange(at, end) =~= ascii(digits));
    lemma_number_value(digits);
    assert(is_digit(bytes[at]));
}

/// A string literal is refused where its line ends before it is closed.
pub proof fn law_unterminated(list: Seq<Lexeme>, glyphs: Seq<Glyph>, rest: Seq<char>)
    requires
        well_cut(list, seq!['"'] + (glyphs_text(glyphs, 0) + (seq!['\n'] + rest))),
        proper_glyphs(glyphs),
    ensures
        tokens_of(
            text_from(list, 0, seq!['"'] + (glyphs_text(glyphs, 0) + (seq!['\n'] + rest))),
        ) == Err::<Seq<TokenView>, Seq<char>>(
            "unterminated string literal at byte "@ + decimal(
                widths(list, list.len() as int) as nat,
            ),
        ),
{
    let n = list.len() as int;
    let at = widths(list, n);
    let inner = glyphs_text(glyphs, 0);
    let feed = seq!['\n'];
    let tail = seq!['"'] + (inner + (feed + rest));
    let bytes = encode_utf8(text_from(list, 0, tail));
    lemma_lexemes(bytes, list, n, tail);
    lemma_front(bytes, at, seq!['"'], inner + (feed + rest));
    assert(bytes[at] == '"' as u8);
    lemma_glyphs(bytes, at, at + 1, glyphs, 0, feed + rest);
    assert(meant_text(glyphs).take(0) =~= Seq::empty());
    let end = at + 1 + encode_utf8(inner).len();
    lemma_front(bytes, end, feed, rest);
    assert(bytes[end] == '\n' as u8);
}

/// The last character of a literal that is not closed.
proof fn lemma_last_glyph(glyphs: Seq<Glyph>, i: int)
    requires
        0 <= i < glyphs.len(),
    ensures
        glyphs_text(glyphs, i).len() > 0,
        glyphs_text(glyphs, i).last() == match glyphs.last() {
            Glyph::Plain(c) => c,
            Glyph::Escaped(c) => c,
        },
    decreases glyphs.len() - i,
{
    let first = glyph_text(glyphs[i]);
    let rest = glyphs_text(glyphs, i + 1);
    if i + 1 < glyphs.len() {
        lemma_last_glyph(glyphs, i + 1);
        assert((first + rest).last() == rest.last());
    } else {
        assert(first + rest =~= first);
    }
}

/// A string literal is refused where the text ends before it is closed. Left out are a lone quote
/// and a quote behind a backslash at the very end, which close a literal there.
pub proof fn law_unclosed(list: Seq<Lexeme>, glyphs: Seq<Glyph>)
    requires
        well_cut(list, seq!['"'] + glyphs_text(glyphs, 0)),
        proper_glyphs(glyphs),
        glyphs.len() > 0,
        glyphs.last() != Glyph::Escaped('"'),
    ensures
        tokens_of(text_from(list, 0, seq!['"'] + glyphs_text(glyphs, 0))) == Err::<
            Seq<TokenView>,
            Seq<char>,
        >(
            "unterminated string literal at byte "@ + decimal(
                widths(list, list.len() as int) as nat,
            ),
        ),
{
    let n = list.len() as int;
    let at = widths(list, n);
    let inner = glyphs_text(glyphs, 0);
    let tail = seq!['"'] + inner;
    let none = Seq::<char>::empty();
    let bytes = encode_utf8(text_from(list, 0, tail));
    lemma_lexemes(bytes, list, n, tail);
    lemma_front(bytes, at, seq!['"'], inner);
    assert(bytes[at] == '"' as u8);
    assert(inner + none =~= inner);
    lemma_glyphs(bytes, at, at + 1, glyphs, 0, none);
    assert(meant_text(glyphs).take(0) =~= Seq::empty());
    let end = at + 1 + encode_utf8(inner).len();
    lemma_behind(bytes, end, none);
    lemma_last_glyph(glyphs, 0);
    assert(proper_glyph(glyphs[glyphs.len() - 1]));
    let c = inner.last();
    assert(inner =~= inner.drop_last() + seq![c]);
    lemma_encoded(inner.drop_last(), seq![c]);
    lemma_no_quote(c);
    lemma_behind_lexeme(bytes, at + 1, inner, none);
    assert(encode_utf8(inner).last() == encode_utf8(seq![c]).last());
    assert(encode_utf8(inner)[encode_utf8(inner).len() - 1] == bytes[end - 1]);
}

/// A backslash in a string literal is refused where no character follows that it gives a meaning.
pub proof fn law_escape(list: Seq<Lexeme>, glyphs: Seq<Glyph>, c: char, rest: Seq<char>)
    requires
        well_cut(list, seq!['"'] + (glyphs_text(glyphs, 0) + (seq!['\\'] + (seq![c] + rest)))),
        proper_glyphs(glyphs),
        c != '"' && c != '\\' && c != 'n' && c != 't',
    ensures
        tokens_of(
            text_from(
                list,
                0,
                seq!['"'] + (glyphs_text(glyphs, 0) + (seq!['\\'] + (seq![c] + rest))),
            ),
        ) == Err::<Seq<TokenView>, Seq<char>>(
            "unsupported string escape "@ + shown_char(encode_utf8(seq![c] + rest)[0] as char)
                + " at byte "@ + decimal(
                (widths(list, list.len() as int) + 2 + encode_utf8(glyphs_text(glyphs, 0)).len()) as nat,
            ),
        ),
{
    let n = list.len() as int;
    let at = widths(list, n);
    let inner = glyphs_text(glyphs, 0);
    let slash = seq!['\\'];
    let behind = seq![c] + rest;
    let tail = seq!['"'] + (inner + (slash + behind));
    let bytes = encode_utf8(text_from(list, 0, tail));
    lemma_lexemes(bytes, list, n, tail);
    lemma_front(bytes, at, seq!['"'], inner + (slash + behind));
    assert(bytes[at] == '"' as u8);
    lemma_glyphs(bytes, at, at + 1, glyphs, 0, slash + behind);
    assert(meant_text(glyphs).take(0) =~= Seq::empty());
    let end = at + 1 + encode_utf8(inner).len();
    lemma_front(bytes, end, slash, behind);
    assert(bytes[end] == '\\' as u8);
    lemma_char(bytes, end + 1, c, rest);
    lemma_first_byte(bytes[end + 1], c);
    assert(bytes.skip(end + 1)[0] == bytes[end + 1]);
    assert(escaped(bytes[end + 1]) is None);
}

} // verus!
