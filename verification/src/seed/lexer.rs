//! Tokens of the seed language.
use vstd::prelude::*;

use vstd::utf8::encode_utf8;

use crate::bytes::{
    digits_end, digits_value, find_digits_end, find_line_end, find_word_end, followed_by, is_digit,
    is_digit_byte, latin, latin_text, lemma_digits_end, lemma_line_end, lemma_word_end, line_end,
    next_is, out_of_range, out_of_range_text, read_i32, starts_word, starts_word_byte,
    unexpected_byte, unexpected_byte_text, word_end,
};
use crate::error::{Error, Outcome};
use crate::text::{same_text, show_char, shown_char};

verus! {

#[derive(Debug, Clone)]
pub enum TokenKind {
    Fn,
    Match,
    True,
    False,
    Ident(String),
    Int(i32),
    LParen,
    RParen,
    LBrace,
    RBrace,
    LBracket,
    RBracket,
    Comma,
    Dot,
    Hash,
    Bang,
    Eq,
    EqEq,
    Arrow,
    Lt,
    Plus,
    Minus,
    Star,
    Newline,
    Eof,
}

/// A token and the byte at which it starts.
#[derive(Debug, Clone)]
pub struct Token {
    pub kind: TokenKind,
    pub pos: usize,
}

pub enum TokenKindView {
    Fn,
    Match,
    True,
    False,
    Ident(Seq<char>),
    Int(i32),
    LParen,
    RParen,
    LBrace,
    RBrace,
    LBracket,
    RBracket,
    Comma,
    Dot,
    Hash,
    Bang,
    Eq,
    EqEq,
    Arrow,
    Lt,
    Plus,
    Minus,
    Star,
    Newline,
    Eof,
}

pub struct TokenView {
    pub kind: TokenKindView,
    pub pos: int,
}

impl View for TokenKind {
    type V = TokenKindView;

    open spec fn view(&self) -> TokenKindView {
        match self {
            TokenKind::Fn => TokenKindView::Fn,
            TokenKind::Match => TokenKindView::Match,
            TokenKind::True => TokenKindView::True,
            TokenKind::False => TokenKindView::False,
            TokenKind::Ident(name) => TokenKindView::Ident(name@),
            TokenKind::Int(value) => TokenKindView::Int(*value),
            TokenKind::LParen => TokenKindView::LParen,
            TokenKind::RParen => TokenKindView::RParen,
            TokenKind::LBrace => TokenKindView::LBrace,
            TokenKind::RBrace => TokenKindView::RBrace,
            TokenKind::LBracket => TokenKindView::LBracket,
            TokenKind::RBracket => TokenKindView::RBracket,
            TokenKind::Comma => TokenKindView::Comma,
            TokenKind::Dot => TokenKindView::Dot,
            TokenKind::Hash => TokenKindView::Hash,
            TokenKind::Bang => TokenKindView::Bang,
            TokenKind::Eq => TokenKindView::Eq,
            TokenKind::EqEq => TokenKindView::EqEq,
            TokenKind::Arrow => TokenKindView::Arrow,
            TokenKind::Lt => TokenKindView::Lt,
            TokenKind::Plus => TokenKindView::Plus,
            TokenKind::Minus => TokenKindView::Minus,
            TokenKind::Star => TokenKindView::Star,
            TokenKind::Newline => TokenKindView::Newline,
            TokenKind::Eof => TokenKindView::Eof,
        }
    }
}

impl View for Token {
    type V = TokenView;

    open spec fn view(&self) -> TokenView {
        TokenView { kind: self.kind@, pos: self.pos as int }
    }
}

impl PartialEq for TokenKind {
    fn eq(&self, other: &Self) -> (same: bool) {
        match (self, other) {
            (TokenKind::Fn, TokenKind::Fn) => true,
            (TokenKind::Match, TokenKind::Match) => true,
            (TokenKind::True, TokenKind::True) => true,
            (TokenKind::False, TokenKind::False) => true,
            (TokenKind::Ident(a), TokenKind::Ident(b)) => *a == *b,
            (TokenKind::Int(a), TokenKind::Int(b)) => *a == *b,
            (TokenKind::LParen, TokenKind::LParen) => true,
            (TokenKind::RParen, TokenKind::RParen) => true,
            (TokenKind::LBrace, TokenKind::LBrace) => true,
            (TokenKind::RBrace, TokenKind::RBrace) => true,
            (TokenKind::LBracket, TokenKind::LBracket) => true,
            (TokenKind::RBracket, TokenKind::RBracket) => true,
            (TokenKind::Comma, TokenKind::Comma) => true,
            (TokenKind::Dot, TokenKind::Dot) => true,
            (TokenKind::Hash, TokenKind::Hash) => true,
            (TokenKind::Bang, TokenKind::Bang) => true,
            (TokenKind::Eq, TokenKind::Eq) => true,
            (TokenKind::EqEq, TokenKind::EqEq) => true,
            (TokenKind::Arrow, TokenKind::Arrow) => true,
            (TokenKind::Lt, TokenKind::Lt) => true,
            (TokenKind::Plus, TokenKind::Plus) => true,
            (TokenKind::Minus, TokenKind::Minus) => true,
            (TokenKind::Star, TokenKind::Star) => true,
            (TokenKind::Newline, TokenKind::Newline) => true,
            (TokenKind::Eof, TokenKind::Eof) => true,
            _ => false,
        }
    }
}

impl vstd::std_specs::cmp::PartialEqSpecImpl for TokenKind {
    open spec fn obeys_eq_spec() -> bool {
        true
    }

    open spec fn eq_spec(&self, other: &Self) -> bool {
        self@ == other@
    }
}

/// What the text at one position holds.
pub enum Step {
    /// Nothing that becomes a token; go on at the position.
    Skip(int),
    /// A token that ends before the position.
    Emit(TokenKindView, int),
    /// No token at all.
    Fail(Seq<char>),
}

/// The token kind of a word: a keyword or an identifier.
pub open spec fn word_kind(word: Seq<char>) -> TokenKindView {
    if word == "fn"@ {
        TokenKindView::Fn
    } else if word == "match"@ {
        TokenKindView::Match
    } else if word == "true"@ {
        TokenKindView::True
    } else if word == "false"@ {
        TokenKindView::False
    } else {
        TokenKindView::Ident(word)
    }
}

/// The tokens that are one byte long, whatever follows.
pub open spec fn single_kind(b: u8) -> Option<TokenKindView> {
    if b == '(' as u8 {
        Some(TokenKindView::LParen)
    } else if b == ')' as u8 {
        Some(TokenKindView::RParen)
    } else if b == '{' as u8 {
        Some(TokenKindView::LBrace)
    } else if b == '}' as u8 {
        Some(TokenKindView::RBrace)
    } else if b == '[' as u8 {
        Some(TokenKindView::LBracket)
    } else if b == ']' as u8 {
        Some(TokenKindView::RBracket)
    } else if b == ',' as u8 {
        Some(TokenKindView::Comma)
    } else if b == '.' as u8 {
        Some(TokenKindView::Dot)
    } else if b == '#' as u8 {
        Some(TokenKindView::Hash)
    } else if b == '!' as u8 {
        Some(TokenKindView::Bang)
    } else if b == '<' as u8 {
        Some(TokenKindView::Lt)
    } else if b == '+' as u8 {
        Some(TokenKindView::Plus)
    } else if b == '*' as u8 {
        Some(TokenKindView::Star)
    } else if b == '\n' as u8 {
        Some(TokenKindView::Newline)
    } else {
        None
    }
}

/// What stands at position `i` of the text.
pub open spec fn step(bytes: Seq<u8>, i: int) -> Step {
    let b = bytes[i];
    if b == ' ' as u8 || b == '\t' as u8 || b == '\r' as u8 {
        Step::Skip(i + 1)
    } else if let Some(kind) = single_kind(b) {
        Step::Emit(kind, i + 1)
    } else if b == '-' as u8 {
        if followed_by(bytes, i, '-' as u8) {
            Step::Skip(line_end(bytes, i + 2))
        } else if followed_by(bytes, i, '>' as u8) {
            Step::Emit(TokenKindView::Arrow, i + 2)
        } else {
            Step::Emit(TokenKindView::Minus, i + 1)
        }
    } else if b == '=' as u8 {
        if followed_by(bytes, i, '=' as u8) {
            Step::Emit(TokenKindView::EqEq, i + 2)
        } else {
            Step::Emit(TokenKindView::Eq, i + 1)
        }
    } else if is_digit(b) {
        let end = digits_end(bytes, i);
        let value = digits_value(bytes.subrange(i, end));
        if value <= i32::MAX {
            Step::Emit(TokenKindView::Int(value as i32), end)
        } else {
            Step::Fail(out_of_range_text(i))
        }
    } else if starts_word(b) {
        let end = word_end(bytes, i + 1);
        Step::Emit(word_kind(latin(bytes.subrange(i, end))), end)
    } else {
        Step::Fail(unexpected_byte_text(shown_char(b as char), i))
    }
}

pub proof fn lemma_step_advances(bytes: Seq<u8>, i: int)
    requires
        0 <= i < bytes.len(),
    ensures
        step(bytes, i) matches Step::Skip(next) ==> i < next <= bytes.len(),
        step(bytes, i) matches Step::Emit(_, next) ==> i < next <= bytes.len(),
{
    lemma_word_end(bytes, i + 1);
    lemma_digits_end(bytes, i);
    if is_digit(bytes[i]) {
        lemma_digits_end(bytes, i + 1);
    }
    if followed_by(bytes, i, '-' as u8) {
        lemma_line_end(bytes, i + 2);
    }
}

/// `tokens` in front of those of `rest`, unless `rest` is a diagnostic.
pub open spec fn in_front(tokens: Seq<TokenView>, rest: Outcome<Seq<TokenView>>) -> Outcome<
    Seq<TokenView>,
> {
    match rest {
        Ok(more) => Ok(tokens + more),
        Err(message) => Err(message),
    }
}

/// The tokens of the text from position `i` on; the last one marks the end of the text.
pub open spec fn tokens_from(bytes: Seq<u8>, i: int) -> Outcome<Seq<TokenView>>
    decreases bytes.len() - i,
{
    if 0 <= i < bytes.len() {
        proof {
            lemma_step_advances(bytes, i);
        }
        match step(bytes, i) {
            Step::Skip(next) => tokens_from(bytes, next),
            Step::Emit(kind, next) => in_front(
                seq![TokenView { kind, pos: i }],
                tokens_from(bytes, next),
            ),
            Step::Fail(message) => Err(message),
        }
    } else {
        Ok(seq![TokenView { kind: TokenKindView::Eof, pos: bytes.len() as int }])
    }
}

/// The tokens of a source text.
pub open spec fn tokens_of(source: Seq<char>) -> Outcome<Seq<TokenView>> {
    tokens_from(encode_utf8(source), 0)
}

/// The tokens of a text from `start` on stand in the order of the text, each at a position of its
/// own, and the last one, and only that, marks the end of the text.
pub open spec fn in_order(tokens: Seq<TokenView>, start: int, end: int) -> bool {
    &&& tokens.len() > 0
    &&& tokens.last() == (TokenView { kind: TokenKindView::Eof, pos: end })
    &&& forall|i: int|
        0 <= i < tokens.len() - 1 ==> start <= (#[trigger] tokens[i]).pos < end && !(
        tokens[i].kind is Eof)
    &&& forall|i: int, j: int|
        0 <= i < j < tokens.len() ==> (#[trigger] tokens[i]).pos < (#[trigger] tokens[j]).pos
}

pub proof fn lemma_tokens_in_order(bytes: Seq<u8>, i: int)
    requires
        0 <= i <= bytes.len(),
    ensures
        tokens_from(bytes, i) matches Ok(tokens) ==> in_order(tokens, i, bytes.len() as int),
    decreases bytes.len() - i,
{
    if i < bytes.len() {
        lemma_step_advances(bytes, i);
        match step(bytes, i) {
            Step::Skip(next) => lemma_tokens_in_order(bytes, next),
            Step::Emit(kind, next) => {
                lemma_tokens_in_order(bytes, next);
                if let Ok(rest) = tokens_from(bytes, next) {
                    let tokens = seq![TokenView { kind, pos: i }] + rest;
                    assert forall|k: int| 0 <= k < tokens.len() - 1 implies i
                        <= (#[trigger] tokens[k]).pos < bytes.len() && !(tokens[k].kind is Eof) by {
                        if k > 0 {
                            assert(tokens[k] == rest[k - 1]);
                        }
                    }
                    assert forall|j: int, k: int|
                        0 <= j < k < tokens.len() implies (#[trigger] tokens[j]).pos < (
                    #[trigger] tokens[k]).pos by {
                        assert(tokens[k] == rest[k - 1]);
                        if j > 0 {
                            assert(tokens[j] == rest[j - 1]);
                        }
                    }
                }
            },
            Step::Fail(_) => {},
        }
    }
}

/// The tokens of a source text stand in its order, and end with the mark of its end.
pub proof fn law_tokens(source: Seq<char>)
    ensures
        tokens_of(source) matches Ok(tokens) ==> in_order(
            tokens,
            0,
            encode_utf8(source).len() as int,
        ),
{
    lemma_tokens_in_order(encode_utf8(source), 0);
}

/// The views of a list of tokens.
pub open spec fn token_views(tokens: Seq<Token>) -> Seq<TokenView> {
    tokens.map_values(|token: Token| token@)
}

/// Adds a token that is one byte long and steps over it.
pub fn push_one(tokens: &mut Vec<Token>, kind: TokenKind, pos: usize, i: &mut usize)
    requires
        *old(i) < usize::MAX,
    ensures
        final(tokens)@ == old(tokens)@.push(Token { kind, pos }),
        *final(i) == *old(i) + 1,
{
    tokens.push(Token { kind, pos });
    *i += 1;
}

fn single(b: u8) -> (kind: Option<TokenKind>)
    ensures
        match kind {
            Some(kind) => single_kind(b) == Some(kind@),
            None => single_kind(b) is None,
        },
{
    if b == '(' as u8 {
        Some(TokenKind::LParen)
    } else if b == ')' as u8 {
        Some(TokenKind::RParen)
    } else if b == '{' as u8 {
        Some(TokenKind::LBrace)
    } else if b == '}' as u8 {
        Some(TokenKind::RBrace)
    } else if b == '[' as u8 {
        Some(TokenKind::LBracket)
    } else if b == ']' as u8 {
        Some(TokenKind::RBracket)
    } else if b == ',' as u8 {
        Some(TokenKind::Comma)
    } else if b == '.' as u8 {
        Some(TokenKind::Dot)
    } else if b == '#' as u8 {
        Some(TokenKind::Hash)
    } else if b == '!' as u8 {
        Some(TokenKind::Bang)
    } else if b == '<' as u8 {
        Some(TokenKind::Lt)
    } else if b == '+' as u8 {
        Some(TokenKind::Plus)
    } else if b == '*' as u8 {
        Some(TokenKind::Star)
    } else if b == '\n' as u8 {
        Some(TokenKind::Newline)
    } else {
        None
    }
}

fn word(text: String) -> (kind: TokenKind)
    ensures
        kind@ == word_kind(text@),
{
    if same_text(text.as_str(), "fn") {
        TokenKind::Fn
    } else if same_text(text.as_str(), "match") {
        TokenKind::Match
    } else if same_text(text.as_str(), "true") {
        TokenKind::True
    } else if same_text(text.as_str(), "false") {
        TokenKind::False
    } else {
        TokenKind::Ident(text)
    }
}

/// Splits a source text into tokens.
pub fn lex(source: &str) -> (result: Result<Vec<Token>, Error>)
    ensures
        match (result, tokens_of(source@)) {
            (Ok(tokens), Ok(views)) => token_views(tokens@) == views,
            (Err(error), Err(message)) => error@ == message,
            _ => false,
        },
{
    let bytes = source.as_bytes();
    let mut tokens: Vec<Token> = Vec::new();
    let mut i: usize = 0;
    assert(tokens_of(source@) == in_front(token_views(tokens@), tokens_from(bytes@, 0))) by {
        if let Ok(all) = tokens_from(bytes@, 0) {
            assert(token_views(tokens@) + all =~= all);
        }
    }
    while i < bytes.len()
        invariant
            i <= bytes@.len(),
            bytes@ == encode_utf8(source@),
            tokens_of(source@) == in_front(token_views(tokens@), tokens_from(bytes@, i as int)),
        decreases bytes@.len() - i,
    {
        let pos: usize = i;
        let b: u8 = bytes[i];
        let ghost before = tokens@;
        proof {
            lemma_step_advances(bytes@, i as int);
        }
        if b == ' ' as u8 || b == '\t' as u8 || b == '\r' as u8 {
            i += 1;
        } else if let Some(kind) = single(b) {
            push_one(&mut tokens, kind, pos, &mut i);
        } else if b == '-' as u8 {
            if next_is(bytes, i, '-' as u8) {
                i = find_line_end(bytes, i + 2);
            } else if next_is(bytes, i, '>' as u8) {
                tokens.push(Token { kind: TokenKind::Arrow, pos });
                i += 2;
            } else {
                push_one(&mut tokens, TokenKind::Minus, pos, &mut i);
            }
        } else if b == '=' as u8 {
            if next_is(bytes, i, '=' as u8) {
                tokens.push(Token { kind: TokenKind::EqEq, pos });
                i += 2;
            } else {
                push_one(&mut tokens, TokenKind::Eq, pos, &mut i);
            }
        } else if is_digit_byte(b) {
            let end: usize = find_digits_end(bytes, i);
            proof {
                lemma_digits_end(bytes@, i as int);
            }
            match read_i32(bytes, i, end) {
                Some(value) => tokens.push(Token { kind: TokenKind::Int(value), pos }),
                None => return Err(out_of_range(pos)),
            }
            i = end;
        } else if starts_word_byte(b) {
            let end: usize = find_word_end(bytes, i + 1);
            tokens.push(Token { kind: word(latin_text(bytes, i, end)), pos });
            i = end;
        } else {
            let shown = show_char(b as char);
            return Err(unexpected_byte(shown.as_str(), pos));
        }
        proof {
            if tokens@.len() > before.len() {
                let token = tokens@.last();
                assert(token_views(tokens@) =~= token_views(before).push(token@));
                if let Ok(rest) = tokens_from(bytes@, i as int) {
                    assert(token_views(before) + (seq![token@] + rest) =~= token_views(tokens@)
                        + rest);
                }
            }
        }
    }
    let ghost before = tokens@;
    tokens.push(Token { kind: TokenKind::Eof, pos: source.len() });
    proof {
        let token = tokens@.last();
        assert(token_views(tokens@) =~= token_views(before) + seq![token@]);
    }
    Ok(tokens)
}

} // verus!
