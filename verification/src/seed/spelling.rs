//! Tokens spelled out as text, and what their text is split into again.
use vstd::prelude::*;

use vstd::utf8::{encode_utf8, is_ascii_chars, is_ascii_chars_encode_utf8};

use crate::ascii::{
    holds, is_word, lemma_decimal, lemma_holds_split, lemma_number_read, lemma_word_read,
};
use crate::seed::lexer::{step, tokens_from, tokens_of, word_kind, Step, TokenKindView, TokenView};
use crate::seed::writing::kinds;
use crate::text::decimal;

verus! {

/// The text of a token; the mark of the end has none.
pub open spec fn spelling(kind: TokenKindView) -> Seq<char> {
    match kind {
        TokenKindView::Fn => "fn"@,
        TokenKindView::Match => "match"@,
        TokenKindView::True => "true"@,
        TokenKindView::False => "false"@,
        TokenKindView::Ident(name) => name,
        TokenKindView::Int(value) => decimal(value as nat),
        TokenKindView::LParen => seq!['('],
        TokenKindView::RParen => seq![')'],
        TokenKindView::LBrace => seq!['{'],
        TokenKindView::RBrace => seq!['}'],
        TokenKindView::LBracket => seq!['['],
        TokenKindView::RBracket => seq![']'],
        TokenKindView::Comma => seq![','],
        TokenKindView::Dot => seq!['.'],
        TokenKindView::Hash => seq!['#'],
        TokenKindView::Bang => seq!['!'],
        TokenKindView::Eq => seq!['='],
        TokenKindView::EqEq => seq!['=', '='],
        TokenKindView::Arrow => seq!['-', '>'],
        TokenKindView::Lt => seq!['<'],
        TokenKindView::Plus => seq!['+'],
        TokenKindView::Minus => seq!['-'],
        TokenKindView::Star => seq!['*'],
        TokenKindView::Newline => seq!['\n'],
        TokenKindView::Eof => Seq::empty(),
    }
}

/// The token has a text: its number is not negative, and its name is a word that is no keyword.
pub open spec fn spellable(kind: TokenKindView) -> bool {
    match kind {
        TokenKindView::Ident(name) => is_word(name) && word_kind(name) == kind,
        TokenKindView::Int(value) => value >= 0,
        TokenKindView::Eof => false,
        _ => true,
    }
}

pub open spec fn all_spellable(k: Seq<TokenKindView>) -> bool {
    forall|i: int| 0 <= i < k.len() ==> spellable(#[trigger] k[i])
}

/// The tokens from `i` on as a text, each with a space behind it.
pub open spec fn spelled(k: Seq<TokenKindView>, i: int) -> Seq<char>
    decreases k.len() - i,
{
    if 0 <= i < k.len() {
        spelling(k[i]) + (seq![' '] + spelled(k, i + 1))
    } else {
        Seq::empty()
    }
}

/// The text of a token that a space follows is read as that token.
proof fn lemma_spelling(bytes: Seq<u8>, at: int, kind: TokenKindView)
    requires
        spellable(kind),
        holds(bytes, at, spelling(kind)),
        at + spelling(kind).len() < bytes.len(),
        bytes[at + spelling(kind).len()] == ' ' as u8,
    ensures
        spelling(kind).len() > 0,
        step(bytes, at) == Step::Emit(kind, at + spelling(kind).len()),
{
    let text = spelling(kind);
    match kind {
        TokenKindView::Ident(name) => lemma_word_read(bytes, at, name),
        TokenKindView::Int(value) => {
            lemma_decimal(value as nat);
            lemma_number_read(bytes, at, value as nat);
        },
        TokenKindView::Fn | TokenKindView::Match | TokenKindView::True | TokenKindView::False => {
            reveal_strlit("fn");
            reveal_strlit("match");
            reveal_strlit("true");
            reveal_strlit("false");
            lemma_word_read(bytes, at, text);
        },
        _ => {
            assert(bytes[at] == text[0] as u8);
            if text.len() > 1 {
                assert(bytes[at + 1] == text[1] as u8);
            }
        },
    }
}

/// Tokens that are spelled out are read again.
proof fn lemma_spelled(bytes: Seq<u8>, at: int, k: Seq<TokenKindView>, i: int)
    requires
        all_spellable(k),
        0 <= i <= k.len(),
        holds(bytes, at, spelled(k, i)),
        at + spelled(k, i).len() == bytes.len(),
    ensures
        tokens_from(bytes, at) matches Ok(t) && kinds(t) == k.skip(i).push(TokenKindView::Eof),
    decreases k.len() - i,
{
    if i < k.len() {
        let text = spelling(k[i]);
        let rest = spelled(k, i + 1);
        let end = at + text.len();
        lemma_holds_split(bytes, at, text, seq![' '] + rest);
        lemma_holds_split(bytes, end, seq![' '], rest);
        assert(bytes[end] == seq![' '][0] as u8);
        lemma_spelling(bytes, at, k[i]);
        lemma_spelled(bytes, end + 1, k, i + 1);
        assert(tokens_from(bytes, end) == tokens_from(bytes, end + 1));
        let more = tokens_from(bytes, end + 1)->Ok_0;
        let first = TokenView { kind: k[i], pos: at };
        assert(kinds(seq![first] + more) =~= seq![k[i]] + kinds(more));
        assert(k.skip(i).push(TokenKindView::Eof) =~= seq![k[i]] + k.skip(i + 1).push(
            TokenKindView::Eof,
        ));
    } else {
        let end = TokenView { kind: TokenKindView::Eof, pos: bytes.len() as int };
        assert(kinds(seq![end]) =~= k.skip(i).push(TokenKindView::Eof));
    }
}

proof fn lemma_ascii(k: Seq<TokenKindView>, i: int)
    requires
        all_spellable(k),
        0 <= i <= k.len(),
    ensures
        is_ascii_chars(spelled(k, i)),
    decreases k.len() - i,
{
    if i < k.len() {
        lemma_ascii(k, i + 1);
        let text = spelling(k[i]);
        assert(is_ascii_chars(text)) by {
            assert(spellable(k[i]));
            reveal_strlit("fn");
            reveal_strlit("match");
            reveal_strlit("true");
            reveal_strlit("false");
            if let TokenKindView::Int(value) = k[i] {
                lemma_decimal(value as nat);
            }
        }
    }
}

/// Tokens that are spelled out with spaces between them are what their text is split into.
pub proof fn law_spelled(k: Seq<TokenKindView>)
    requires
        all_spellable(k),
    ensures
        tokens_of(spelled(k, 0)) matches Ok(t) && kinds(t) == k.push(TokenKindView::Eof),
{
    let text = spelled(k, 0);
    lemma_ascii(k, 0);
    is_ascii_chars_encode_utf8(text);
    lemma_spelled(encode_utf8(text), 0, k, 0);
    assert(k.skip(0) =~= k);
}

} // verus!
