//! A comment at the end of a text changes nothing but where the text ends.
use vstd::prelude::*;

use vstd::utf8::{encode_utf8, is_ascii_chars, is_ascii_chars_encode_utf8};

use crate::ascii::{lemma_encoded, lemma_no_newline};
use crate::bytes::{digits_end, followed_by, lemma_digits_end, lemma_word_end, line_end, word_end};
use crate::seed::lexer::{
    lemma_step_advances, step, tokens_from, tokens_of, Step, TokenKindView, TokenView,
};

verus! {

/// The text with a comment on its last line.
pub open spec fn commented(source: Seq<char>, comment: Seq<char>) -> Seq<char> {
    source + (seq![' ', '-', '-'] + comment)
}

/// The tokens with the end of the text at another position.
pub open spec fn ending_at(tokens: Seq<TokenView>, end: int) -> Seq<TokenView> {
    tokens.drop_last().push(TokenView { kind: TokenKindView::Eof, pos: end })
}

/// The one list of bytes is the other with a comment on its last line.
spec fn extends(longer: Seq<u8>, bytes: Seq<u8>) -> bool {
    let end = bytes.len() as int;
    &&& longer.len() >= end + 3
    &&& forall|i: int| 0 <= i < end ==> #[trigger] longer[i] == bytes[i]
    &&& longer[end] == ' ' as u8
    &&& longer[end + 1] == '-' as u8
    &&& longer[end + 2] == '-' as u8
    &&& forall|i: int| end <= i < longer.len() ==> #[trigger] longer[i] != '\n' as u8
}

proof fn lemma_digits(longer: Seq<u8>, bytes: Seq<u8>, i: int)
    requires
        extends(longer, bytes),
        0 <= i <= bytes.len(),
    ensures
        digits_end(longer, i) == digits_end(bytes, i),
    decreases bytes.len() - i,
{
    if i < bytes.len() {
        lemma_digits(longer, bytes, i + 1);
    }
}

proof fn lemma_word(longer: Seq<u8>, bytes: Seq<u8>, i: int)
    requires
        extends(longer, bytes),
        0 <= i <= bytes.len(),
    ensures
        word_end(longer, i) == word_end(bytes, i),
    decreases bytes.len() - i,
{
    if i < bytes.len() {
        lemma_word(longer, bytes, i + 1);
    }
}

/// A line that ends with the text takes the comment in.
proof fn lemma_line(longer: Seq<u8>, bytes: Seq<u8>, i: int)
    requires
        extends(longer, bytes),
        0 <= i <= longer.len(),
    ensures
        line_end(longer, i) == if i <= bytes.len() && line_end(bytes, i) < bytes.len() {
            line_end(bytes, i)
        } else {
            longer.len() as int
        },
    decreases longer.len() - i,
{
    if i < longer.len() {
        lemma_line(longer, bytes, i + 1);
    }
}

/// What stands at a position is the same with the comment, unless it is a comment that runs to the
/// end of the text.
proof fn lemma_step(longer: Seq<u8>, bytes: Seq<u8>, i: int)
    requires
        extends(longer, bytes),
        0 <= i < bytes.len(),
    ensures
        step(longer, i) == step(bytes, i) || (step(bytes, i) == Step::Skip(bytes.len() as int)
            && step(longer, i) == Step::Skip(longer.len() as int)),
{
    lemma_step_advances(bytes, i);
    lemma_digits(longer, bytes, i);
    lemma_digits_end(bytes, i);
    lemma_word(longer, bytes, i + 1);
    lemma_word_end(bytes, i + 1);
    assert(longer.subrange(i, digits_end(bytes, i)) =~= bytes.subrange(i, digits_end(bytes, i)));
    assert(longer.subrange(i, word_end(bytes, i + 1)) =~= bytes.subrange(
        i,
        word_end(bytes, i + 1),
    ));
    assert(longer[i] == bytes[i]);
    if i + 1 < bytes.len() {
        assert(longer[i + 1] == bytes[i + 1]);
    }
    if followed_by(bytes, i, '-' as u8) {
        lemma_line(longer, bytes, i + 2);
    }
}

proof fn lemma_tokens(longer: Seq<u8>, bytes: Seq<u8>, i: int)
    requires
        extends(longer, bytes),
        0 <= i <= bytes.len(),
        tokens_from(bytes, i) is Ok,
    ensures
        tokens_from(bytes, i)->Ok_0.len() > 0,
        tokens_from(longer, i) matches Ok(tokens) && tokens == ending_at(
            tokens_from(bytes, i)->Ok_0,
            longer.len() as int,
        ),
    decreases bytes.len() - i,
{
    let end = bytes.len() as int;
    let last = TokenView { kind: TokenKindView::Eof, pos: longer.len() as int };
    if i < end {
        lemma_step(longer, bytes, i);
        lemma_step_advances(bytes, i);
        match step(bytes, i) {
            Step::Skip(next) => {
                lemma_tokens(longer, bytes, next);
                if step(longer, i) != step(bytes, i) {
                    assert(ending_at(tokens_from(bytes, end)->Ok_0, longer.len() as int) =~= seq![
                        last,
                    ]);
                }
            },
            Step::Emit(kind, next) => {
                lemma_tokens(longer, bytes, next);
                let first = seq![TokenView { kind, pos: i }];
                let rest = tokens_from(bytes, next)->Ok_0;
                assert(first + ending_at(rest, longer.len() as int) =~= ending_at(
                    first + rest,
                    longer.len() as int,
                ));
            },
            Step::Fail(_) => {},
        }
    } else {
        lemma_line(longer, bytes, end + 3);
        assert(step(longer, end) == Step::Skip(end + 1));
        assert(step(longer, end + 1) == Step::Skip(longer.len() as int));
        assert(tokens_from(longer, end) == tokens_from(longer, end + 1));
        assert(tokens_from(longer, end + 1) == tokens_from(longer, longer.len() as int));
        assert(ending_at(tokens_from(bytes, end)->Ok_0, longer.len() as int) =~= seq![last]);
    }
}

/// A comment at the end of a text that is split into tokens changes nothing but the position of
/// the end of the text.
pub proof fn law_comment(source: Seq<char>, comment: Seq<char>)
    requires
        tokens_of(source) is Ok,
        !comment.contains('\n'),
    ensures
        tokens_of(commented(source, comment)) matches Ok(tokens) && {
            let before = tokens_of(source)->Ok_0;
            let end = encode_utf8(commented(source, comment)).len() as int;
            &&& tokens.len() == before.len()
            &&& forall|i: int| 0 <= i < before.len() - 1 ==> #[trigger] tokens[i] == before[i]
            &&& tokens.last() == (TokenView { kind: TokenKindView::Eof, pos: end })
        },
{
    let dashes = seq![' ', '-', '-'];
    let bytes = encode_utf8(source);
    let longer = encode_utf8(commented(source, comment));
    lemma_encoded(source, dashes + comment);
    lemma_encoded(dashes, comment);
    assert(is_ascii_chars(dashes));
    is_ascii_chars_encode_utf8(dashes);
    lemma_no_newline(comment);
    let tail = encode_utf8(dashes) + encode_utf8(comment);
    assert(longer == bytes + tail);
    assert forall|i: int| 0 <= i < tail.len() implies #[trigger] tail[i] != '\n' as u8 by {
        if i < 3 {
            assert(encode_utf8(dashes)[i] == dashes[i] as u8);
        } else {
            assert(tail[i] == encode_utf8(comment)[i - 3]);
        }
    }
    assert(extends(longer, bytes)) by {
        assert(dashes[0] as u8 == encode_utf8(dashes)[0]);
        assert(dashes[1] as u8 == encode_utf8(dashes)[1]);
        assert(dashes[2] as u8 == encode_utf8(dashes)[2]);
        assert forall|i: int| bytes.len() <= i < longer.len() implies #[trigger] longer[i]
            != '\n' as u8 by {
            assert(longer[i] == tail[i - bytes.len()]);
        }
    }
    lemma_tokens(longer, bytes, 0);
}

} // verus!
