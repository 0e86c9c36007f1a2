//! Tokens of the full language spelled out as text, and what their text is split into again.
use vstd::prelude::*;

use vstd::utf8::{
    char_u32_cast, decode_first_scalar, encode_scalar, encode_utf8, encode_utf8_first_scalar,
    is_ascii_chars, is_ascii_chars_encode_utf8,
};

use crate::ascii::{holds, is_word, lemma_decimal, lemma_number_read, lemma_word_read};
use crate::lexer::{
    next_char, step, string_from, tokens_from, tokens_of, word_kind, Step, TokenKindView, TokenView,
};
use crate::text::decimal;

verus! {

/// The kinds of a list of tokens.
pub open spec fn kinds(t: Seq<TokenView>) -> Seq<TokenKindView> {
    t.map_values(|token: TokenView| token.kind)
}

/// A character as it stands in a string literal.
pub open spec fn escape(c: char) -> Seq<char> {
    if c == '"' {
        seq!['\\', '"']
    } else if c == '\\' {
        seq!['\\', '\\']
    } else if c == '\n' {
        seq!['\\', 'n']
    } else if c == '\t' {
        seq!['\\', 't']
    } else {
        seq![c]
    }
}

/// The characters from `i` on as they stand in a string literal, and the quote that closes it.
pub open spec fn literal_from(value: Seq<char>, i: int) -> Seq<char>
    decreases value.len() - i,
{
    if 0 <= i < value.len() {
        escape(value[i]) + literal_from(value, i + 1)
    } else {
        seq!['"']
    }
}

/// A string literal.
pub open spec fn literal(value: Seq<char>) -> Seq<char> {
    seq!['"'] + literal_from(value, 0)
}

/// The text of a token; the mark of the end has none.
pub open spec fn spelling(kind: TokenKindView) -> Seq<char> {
    match kind {
        TokenKindView::Fn => "fn"@,
        TokenKindView::Import => "import"@,
        TokenKindView::Struct => "struct"@,
        TokenKindView::Enum => "enum"@,
        TokenKindView::Match => "match"@,
        TokenKindView::True => "true"@,
        TokenKindView::False => "false"@,
        TokenKindView::Ident(name) => name,
        TokenKindView::Int(value) => decimal(value as nat),
        TokenKindView::String(value) => literal(value),
        TokenKindView::LParen => seq!['('],
        TokenKindView::RParen => seq![')'],
        TokenKindView::LBrace => seq!['{'],
        TokenKindView::RBrace => seq!['}'],
        TokenKindView::LBracket => seq!['['],
        TokenKindView::RBracket => seq![']'],
        TokenKindView::Comma => seq![','],
        TokenKindView::Dot => seq!['.'],
        TokenKindView::Colon => seq![':'],
        TokenKindView::Hash => seq!['#'],
        TokenKindView::Bang => seq!['!'],
        TokenKindView::Eq => seq!['='],
        TokenKindView::EqEq => seq!['=', '='],
        TokenKindView::Arrow => seq!['-', '>'],
        TokenKindView::Pipe => seq!['|', '>'],
        TokenKindView::Lt => seq!['<'],
        TokenKindView::Gt => seq!['>'],
        TokenKindView::Plus => seq!['+'],
        TokenKindView::Minus => seq!['-'],
        TokenKindView::Star => seq!['*'],
        TokenKindView::Newline => seq!['\n'],
        TokenKindView::Eof => Seq::empty(),
    }
}

/// The token has a text: its number is not negative, and its name is a word that is no keyword.
pub open spec fn spellable(kind: TokenKindView) -> bool {
    match kind {
        TokenKindView::Ident(name) => is_word(name) && word_kind(name) == kind,
        TokenKindView::Int(value) => value >= 0,
        TokenKindView::Eof => false,
        _ => true,
    }
}

pub open spec fn all_spellable(k: Seq<TokenKindView>) -> bool {
    forall|i: int| 0 <= i < k.len() ==> spellable(#[trigger] k[i])
}

/// The tokens from `i` on as a text, each with a space behind it.
pub open spec fn spelled(k: Seq<TokenKindView>, i: int) -> Seq<char>
    decreases k.len() - i,
{
    if 0 <= i < k.len() {
        spelling(k[i]) + (seq![' '] + spelled(k, i + 1))
    } else {
        Seq::empty()
    }
}

/// The bytes from `at` on are those of the text, to the end.
pub open spec fn ends_with(bytes: Seq<u8>, at: int, text: Seq<char>) -> bool {
    &&& 0 <= at <= bytes.len()
    &&& bytes.skip(at) == encode_utf8(text)
}

/// The first character of the text is read, and the rest stands behind it.
pub proof fn lemma_char(bytes: Seq<u8>, at: int, c: char, rest: Seq<char>)
    requires
        ends_with(bytes, at, seq![c] + rest),
    ensures
        at < bytes.len(),
        at < next_char(bytes, at),
        ends_with(bytes, next_char(bytes, at), rest),
        decode_first_scalar(bytes.skip(at)) as char == c,
        c <= '\u{7f}' ==> next_char(bytes, at) == at + 1 && bytes[at] == c as u8,
        c > '\u{7f}' ==> bytes[at] >= 0x80,
{
    let text = seq![c] + rest;
    let first = encode_scalar(c as u32);
    assert(text[0] == c);
    assert(text.drop_first() =~= rest);
    encode_utf8_first_scalar(text);
    char_u32_cast(c, c as u32);
    let tail = bytes.skip(at);
    assert(tail == first + encode_utf8(rest));
    assert(tail.len() >= first.len() && first.len() > 0);
    assert(tail[0] == bytes[at]);
    assert(bytes.skip(at + first.len()) =~= encode_utf8(rest)) by {
        assert(tail.skip(first.len() as int) =~= encode_utf8(rest));
        assert(bytes.skip(at + first.len()) =~= tail.skip(first.len() as int));
    }
    if c <= '\u{7f}' {
        assert(is_ascii_chars(seq![c]));
        is_ascii_chars_encode_utf8(seq![c]);
        assert(encode_utf8(seq![c]) =~= first) by {
            assert(seq![c].drop_first() =~= Seq::empty());
            assert(encode_utf8(Seq::empty()) =~= Seq::empty());
        }
        assert(tail[0] == first[0]);
    }
}

/// The ASCII text in front is read byte by byte, and the rest stands behind it.
pub proof fn lemma_front(bytes: Seq<u8>, at: int, text: Seq<char>, rest: Seq<char>)
    requires
        is_ascii_chars(text),
        ends_with(bytes, at, text + rest),
    ensures
        holds(bytes, at, text),
        ends_with(bytes, at + text.len(), rest),
    decreases text.len(),
{
    if text.len() == 0 {
        assert(text + rest =~= rest);
    } else {
        let more = text.drop_first();
        assert(text + rest =~= seq![text[0]] + (more + rest));
        lemma_char(bytes, at, text[0], more + rest);
        assert forall|i: int| 0 <= i < more.len() implies '\0' <= #[trigger] more[i]
            <= '\u{7f}' by {
            assert(text[i + 1] == more[i]);
        }
        lemma_front(bytes, at + 1, more, rest);
        assert forall|i: int| at <= i < at + text.len() implies (#[trigger] bytes[i]) == text[i
            - at] as u8 by {
            if i > at {
                assert(bytes[i] == more[i - at - 1] as u8);
            }
        }
    }
}

/// What is left of a string literal is read to its closing quote.
proof fn lemma_literal(
    bytes: Seq<u8>,
    open: int,
    at: int,
    value: Seq<char>,
    i: int,
    rest: Seq<char>,
)
    requires
        0 <= i <= value.len(),
        ends_with(bytes, at, literal_from(value, i) + rest),
    ensures
        string_from(bytes, open, at, value.take(i)) matches Ok((text, end)) && text == value && at
            < end && ends_with(bytes, end, rest),
    decreases value.len() - i,
{
    if i < value.len() {
        let c = value[i];
        let more = literal_from(value, i + 1) + rest;
        assert(literal_from(value, i) + rest =~= escape(c) + more);
        assert(value.take(i).push(c) =~= value.take(i + 1));
        if escape(c).len() == 2 {
            lemma_front(bytes, at, escape(c), more);
            assert(bytes[at] == '\\' as u8);
            assert(bytes[at + 1] == escape(c)[1] as u8);
            lemma_literal(bytes, open, at + 2, value, i + 1, rest);
        } else {
            lemma_char(bytes, at, c, more);
            lemma_literal(bytes, open, next_char(bytes, at), value, i + 1, rest);
        }
    } else {
        lemma_front(bytes, at, seq!['"'], rest);
        assert(bytes[at] == '"' as u8);
        assert(value.take(i) =~= value);
    }
}

/// The text of a token that a space follows is read as that token, and the space stands behind it.
proof fn lemma_spelling(bytes: Seq<u8>, at: int, kind: TokenKindView, rest: Seq<char>)
    requires
        spellable(kind),
        ends_with(bytes, at, spelling(kind) + (seq![' '] + rest)),
    ensures
        at < bytes.len(),
        step(bytes, at) matches Step::Emit(read, end) && read == kind && at < end && ends_with(
            bytes,
            end,
            seq![' '] + rest,
        ),
{
    let text = spelling(kind);
    let behind = seq![' '] + rest;
    if let TokenKindView::String(value) = kind {
        assert(text + behind =~= seq!['"'] + (literal_from(value, 0) + behind));
        lemma_front(bytes, at, seq!['"'], literal_from(value, 0) + behind);
        assert(bytes[at] == '"' as u8);
        assert(value.take(0) =~= Seq::empty());
        lemma_literal(bytes, at, at + 1, value, 0, behind);
    } else {
        lemma_ascii(kind);
        lemma_front(bytes, at, text, behind);
        lemma_front(bytes, at + text.len(), seq![' '], rest);
        assert(bytes[at + text.len()] == ' ' as u8);
        match kind {
            TokenKindView::Ident(name) => lemma_word_read(bytes, at, name),
            TokenKindView::Int(value) => {
                lemma_decimal(value as nat);
                lemma_number_read(bytes, at, value as nat);
            },
            TokenKindView::Fn
            | TokenKindView::Import
            | TokenKindView::Struct
            | TokenKindView::Enum
            | TokenKindView::Match
            | TokenKindView::True
            | TokenKindView::False => {
                lemma_keywords();
                lemma_word_read(bytes, at, text);
            },
            _ => {
                assert(bytes[at] == text[0] as u8);
                if text.len() > 1 {
                    assert(bytes[at + 1] == text[1] as u8);
                }
            },
        }
    }
}

/// The keywords are words, each with a token of its own.
proof fn lemma_keywords()
    ensures
        is_word("fn"@),
        is_word("import"@),
        is_word("struct"@),
        is_word("enum"@),
        is_word("match"@),
        is_word("true"@),
        is_word("false"@),
        word_kind("fn"@) == TokenKindView::Fn,
        word_kind("import"@) == TokenKindView::Import,
        word_kind("struct"@) == TokenKindView::Struct,
        word_kind("enum"@) == TokenKindView::Enum,
        word_kind("match"@) == TokenKindView::Match,
        word_kind("true"@) == TokenKindView::True,
        word_kind("false"@) == TokenKindView::False,
{
    reveal_strlit("fn");
    reveal_strlit("import");
    reveal_strlit("struct");
    reveal_strlit("enum");
    reveal_strlit("match");
    reveal_strlit("true");
    reveal_strlit("false");
}

/// The text of a token is ASCII, unless it is a string literal.
proof fn lemma_ascii(kind: TokenKindView)
    requires
        spellable(kind),
        !(kind is String),
    ensures
        is_ascii_chars(spelling(kind)),
        spelling(kind).len() > 0,
{
    lemma_keywords();
    if let TokenKindView::Int(value) = kind {
        lemma_decimal(value as nat);
    }
}

/// Tokens that are spelled out are read again.
proof fn lemma_spelled(bytes: Seq<u8>, at: int, k: Seq<TokenKindView>, i: int)
    requires
        all_spellable(k),
        0 <= i <= k.len(),
        ends_with(bytes, at, spelled(k, i)),
    ensures
        tokens_from(bytes, at) matches Ok(t) && kinds(t) == k.skip(i).push(TokenKindView::Eof),
    decreases k.len() - i,
{
    if i < k.len() {
        let rest = spelled(k, i + 1);
        lemma_spelling(bytes, at, k[i], rest);
        let end = step(bytes, at)->Emit_1;
        lemma_front(bytes, end, seq![' '], rest);
        assert(bytes[end] == ' ' as u8);
        lemma_spelled(bytes, end + 1, k, i + 1);
        assert(tokens_from(bytes, end) == tokens_from(bytes, end + 1));
        let more = tokens_from(bytes, end + 1)->Ok_0;
        let first = TokenView { kind: k[i], pos: at };
        assert(kinds(seq![first] + more) =~= seq![k[i]] + kinds(more));
        assert(k.skip(i).push(TokenKindView::Eof) =~= seq![k[i]] + k.skip(i + 1).push(
            TokenKindView::Eof,
        ));
    } else {
        assert(bytes.skip(at).len() == 0);
        let end = TokenView { kind: TokenKindView::Eof, pos: bytes.len() as int };
        assert(kinds(seq![end]) =~= k.skip(i).push(TokenKindView::Eof));
    }
}

/// Tokens that are spelled out with spaces between them are what their text is split into. In
/// particular a string literal stands for the text that it was made of, whatever its characters.
pub proof fn law_spelled(k: Seq<TokenKindView>)
    requires
        all_spellable(k),
    ensures
        tokens_of(spelled(k, 0)) matches Ok(t) && kinds(t) == k.push(TokenKindView::Eof),
{
    let bytes = encode_utf8(spelled(k, 0));
    assert(bytes.skip(0) =~= bytes);
    lemma_spelled(bytes, 0, k, 0);
    assert(k.skip(0) =~= k);
}

} // verus!
