//! Lines of a text, and comments at their ends.
use vstd::prelude::*;

use vstd::utf8::{decode_first_scalar, encode_utf8, is_ascii_chars, is_ascii_chars_encode_utf8};

use crate::ascii::{lemma_encoded, lemma_no_newline};
use crate::bytes::{
    digits_end, followed_by, lemma_digits_end, lemma_line_end, lemma_word_end, line_end, word_end,
};
use crate::lexer::{
    escaped, lemma_step_advances, lemma_tokens_in_order, next_char, step, string_from, tokens_from,
    tokens_of, Step, TokenKindView, TokenView,
};

verus! {

/// The tokens with each position moved by the same distance.
pub open spec fn shifted(tokens: Seq<TokenView>, by: int) -> Seq<TokenView> {
    tokens.map_values(|token: TokenView| TokenView { kind: token.kind, pos: token.pos + by })
}

/// The tokens with each position from `at` on moved by the same distance.
pub open spec fn moved(tokens: Seq<TokenView>, at: int, by: int) -> Seq<TokenView> {
    tokens.map_values(
        |token: TokenView|
            TokenView {
                kind: token.kind,
                pos: if token.pos >= at {
                    token.pos + by
                } else {
                    token.pos
                },
            },
    )
}

/// The bytes end with those of `part`, which `m` bytes stand before.
spec fn ends_with(whole: Seq<u8>, m: int, part: Seq<u8>) -> bool {
    &&& m >= 0
    &&& whole.len() == m + part.len()
    &&& forall|i: int| m <= i < whole.len() ==> #[trigger] whole[i] == part[i - m]
}

proof fn lemma_runs_shift(whole: Seq<u8>, m: int, part: Seq<u8>, i: int)
    requires
        ends_with(whole, m, part),
        0 <= i <= part.len(),
    ensures
        digits_end(whole, i + m) == digits_end(part, i) + m,
        word_end(whole, i + m) == word_end(part, i) + m,
        line_end(whole, i + m) == line_end(part, i) + m,
    decreases part.len() - i,
{
    if i < part.len() {
        assert(whole[i + m] == part[i]);
        lemma_runs_shift(whole, m, part, i + 1);
    }
}

proof fn lemma_string_shift(
    whole: Seq<u8>,
    m: int,
    part: Seq<u8>,
    open: int,
    i: int,
    value: Seq<char>,
)
    requires
        ends_with(whole, m, part),
        part.len() > 0,
        0 <= i <= part.len(),
    ensures
        match string_from(part, open, i, value) {
            Ok((text, end)) => string_from(whole, open + m, i + m, value) == Ok::<
                (Seq<char>, int),
                Seq<char>,
            >((text, end + m)),
            Err(_) => string_from(whole, open + m, i + m, value) is Err,
        },
    decreases part.len() - i,
{
    assert(whole[whole.len() - 1] == part[part.len() - 1]);
    if i < part.len() {
        assert(whole[i + m] == part[i]);
        if part[i] == '\\' as u8 {
            if i + 1 < part.len() {
                assert(whole[i + m + 1] == part[i + 1]);
                if let Some(c) = escaped(part[i + 1]) {
                    lemma_string_shift(whole, m, part, open, i + 2, value.push(c));
                }
            }
        } else if part[i] != '"' as u8 && part[i] != '\n' as u8 {
            assert(whole.skip(i + m) =~= part.skip(i));
            lemma_string_shift(
                whole,
                m,
                part,
                open,
                next_char(part, i),
                value.push(decode_first_scalar(part.skip(i)) as char),
            );
        }
    }
}

/// What stands at a position does not depend on what stands before it.
proof fn lemma_step_shift(whole: Seq<u8>, m: int, part: Seq<u8>, i: int)
    requires
        ends_with(whole, m, part),
        0 <= i < part.len(),
    ensures
        match step(part, i) {
            Step::Skip(next) => step(whole, i + m) == Step::Skip(next + m),
            Step::Emit(kind, next) => step(whole, i + m) == Step::Emit(kind, next + m),
            Step::Fail(_) => step(whole, i + m) is Fail,
        },
{
    assert(whole[i + m] == part[i]);
    if i + 1 < part.len() {
        assert(whole[i + m + 1] == part[i + 1]);
    }
    lemma_runs_shift(whole, m, part, i);
    lemma_runs_shift(whole, m, part, i + 1);
    lemma_digits_end(part, i);
    lemma_word_end(part, i + 1);
    if followed_by(part, i, '-' as u8) {
        lemma_runs_shift(whole, m, part, i + 2);
    }
    if part[i] == '"' as u8 {
        lemma_string_shift(whole, m, part, i, i + 1, Seq::empty());
    }
    assert(whole.subrange(i + m, digits_end(part, i) + m) =~= part.subrange(i, digits_end(part, i)));
    assert(whole.subrange(i + m, word_end(part, i + 1) + m) =~= part.subrange(
        i,
        word_end(part, i + 1),
    ));
}

proof fn lemma_tokens_shift(whole: Seq<u8>, m: int, part: Seq<u8>, i: int)
    requires
        ends_with(whole, m, part),
        0 <= i <= part.len(),
    ensures
        match tokens_from(part, i) {
            Ok(tokens) => tokens_from(whole, i + m) == Ok::<Seq<TokenView>, Seq<char>>(
                shifted(tokens, m),
            ),
            Err(_) => tokens_from(whole, i + m) is Err,
        },
    decreases part.len() - i,
{
    if i < part.len() {
        lemma_step_shift(whole, m, part, i);
        lemma_step_advances(part, i);
        match step(part, i) {
            Step::Skip(next) => lemma_tokens_shift(whole, m, part, next),
            Step::Emit(kind, next) => {
                lemma_tokens_shift(whole, m, part, next);
                if let Ok(rest) = tokens_from(part, next) {
                    let first = seq![TokenView { kind, pos: i }];
                    assert(shifted(first + rest, m) =~= seq![TokenView { kind, pos: i + m }]
                        + shifted(rest, m));
                }
            },
            Step::Fail(_) => {},
        }
    } else {
        let end = TokenView { kind: TokenKindView::Eof, pos: part.len() as int };
        assert(shifted(seq![end], m) =~= seq![
            TokenView { kind: TokenKindView::Eof, pos: whole.len() as int },
        ]);
    }
}

/// The bytes start with those of `head`, which ends a line.
spec fn starts_with(whole: Seq<u8>, head: Seq<u8>) -> bool {
    &&& 0 < head.len() <= whole.len()
    &&& head.last() == '\n' as u8
    &&& forall|i: int| 0 <= i < head.len() ==> #[trigger] whole[i] == head[i]
}

proof fn lemma_runs_kept(whole: Seq<u8>, head: Seq<u8>, i: int)
    requires
        starts_with(whole, head),
        0 <= i < head.len(),
    ensures
        digits_end(whole, i) == digits_end(head, i),
        word_end(whole, i) == word_end(head, i),
        line_end(whole, i) == line_end(head, i),
    decreases head.len() - i,
{
    assert(whole[i] == head[i]);
    if i + 1 < head.len() {
        lemma_runs_kept(whole, head, i + 1);
    }
}

/// A literal that is closed before two texts differ has the same value in both.
proof fn lemma_string_kept(
    whole: Seq<u8>,
    head: Seq<u8>,
    n: int,
    open: int,
    i: int,
    value: Seq<char>,
)
    requires
        0 <= i,
        0 <= n < head.len() && n < whole.len(),
        head.len() == n + 1,
        head[n] == '\n' as u8,
        forall|k: int| 0 <= k < n ==> #[trigger] whole[k] == head[k],
        string_from(head, open, i, value) is Ok,
    ensures
        string_from(whole, open, i, value) == string_from(head, open, i, value),
        string_from(head, open, i, value)->Ok_0.1 <= n,
    decreases head.len() - i,
{
    assert(i < n);
    assert(whole[i] == head[i]);
    if head[i] == '\\' as u8 {
        if i + 1 < n {
            assert(whole[i + 1] == head[i + 1]);
        }
        let c = escaped(head[i + 1])->Some_0;
        lemma_string_kept(whole, head, n, open, i + 2, value.push(c));
    } else if head[i] != '"' as u8 {
        let a = head.skip(i);
        let b = whole.skip(i);
        let next = next_char(head, i);
        lemma_string_kept(
            whole,
            head,
            n,
            open,
            next,
            value.push(decode_first_scalar(a) as char),
        );
        assert(next <= n);
        assert forall|k: int| 0 <= k < next - i implies #[trigger] b[k] == a[k] by {
            assert(whole[i + k] == head[i + k]);
        }
        assert(decode_first_scalar(b) == decode_first_scalar(a));
    }
}

/// What stands on a line does not depend on the lines after it.
proof fn lemma_step_kept(whole: Seq<u8>, head: Seq<u8>, i: int)
    requires
        starts_with(whole, head),
        0 <= i < head.len(),
        !(step(head, i) is Fail),
    ensures
        step(whole, i) == step(head, i),
{
    assert(whole[i] == head[i]);
    lemma_runs_kept(whole, head, i);
    lemma_digits_end(head, i);
    lemma_word_end(head, i);
    if i + 1 < head.len() {
        assert(whole[i + 1] == head[i + 1]);
        lemma_runs_kept(whole, head, i + 1);
        lemma_word_end(head, i + 1);
        assert(whole.subrange(i, word_end(head, i + 1)) =~= head.subrange(i, word_end(head, i + 1)));
        if i + 2 < head.len() {
            lemma_runs_kept(whole, head, i + 2);
        }
    }
    assert(whole.subrange(i, digits_end(head, i)) =~= head.subrange(i, digits_end(head, i)));
    if head[i] == '"' as u8 {
        lemma_string_kept(whole, head, head.len() - 1, i, i + 1, Seq::empty());
    }
}

proof fn lemma_tokens_kept(whole: Seq<u8>, head: Seq<u8>, i: int)
    requires
        starts_with(whole, head),
        0 <= i <= head.len(),
        tokens_from(head, i) is Ok,
    ensures
        tokens_from(head, i)->Ok_0.len() > 0,
        match tokens_from(whole, head.len() as int) {
            Ok(rest) => tokens_from(whole, i) == Ok::<Seq<TokenView>, Seq<char>>(
                tokens_from(head, i)->Ok_0.drop_last() + rest,
            ),
            Err(_) => tokens_from(whole, i) is Err,
        },
    decreases head.len() - i,
{
    let after = tokens_from(whole, head.len() as int);
    if i < head.len() {
        lemma_step_kept(whole, head, i);
        lemma_step_advances(head, i);
        match step(head, i) {
            Step::Skip(next) => lemma_tokens_kept(whole, head, next),
            Step::Emit(kind, next) => {
                lemma_tokens_kept(whole, head, next);
                let first = seq![TokenView { kind, pos: i }];
                let rest = tokens_from(head, next)->Ok_0;
                assert((first + rest).drop_last() =~= first + rest.drop_last());
                if let Ok(more) = after {
                    assert(first + (rest.drop_last() + more) =~= (first + rest).drop_last() + more);
                }
            },
            Step::Fail(_) => {},
        }
    } else {
        if let Ok(more) = after {
            assert(tokens_from(head, i)->Ok_0.drop_last() + more =~= more);
        }
    }
}

/// A line that is split into tokens keeps them whatever lines follow, and these are split as if
/// they stood alone, only further on.
pub proof fn law_lines(line: Seq<char>, rest: Seq<char>)
    requires
        tokens_of(line.push('\n')) is Ok,
    ensures
        match tokens_of(rest) {
            Ok(tokens) => tokens_of(line.push('\n') + rest) == Ok::<Seq<TokenView>, Seq<char>>(
                tokens_of(line.push('\n'))->Ok_0.drop_last() + shifted(
                    tokens,
                    encode_utf8(line).len() as int + 1,
                ),
            ),
            Err(_) => tokens_of(line.push('\n') + rest) is Err,
        },
{
    let head = encode_utf8(line.push('\n'));
    let part = encode_utf8(rest);
    let whole = encode_utf8(line.push('\n') + rest);
    lemma_encoded(line.push('\n'), rest);
    lemma_line(line);
    assert(head.last() == '\n' as u8);
    lemma_tokens_kept(whole, head, 0);
    lemma_tokens_shift(whole, head.len() as int, part, 0);
}

/// The bytes of a line with the line feed that ends it.
proof fn lemma_line(line: Seq<char>)
    ensures
        encode_utf8(line.push('\n')) == encode_utf8(line).push('\n' as u8),
{
    let feed = seq!['\n'];
    assert(line.push('\n') =~= line + feed);
    lemma_encoded(line, feed);
    assert(is_ascii_chars(feed));
    is_ascii_chars_encode_utf8(feed);
    assert(encode_utf8(feed) =~= seq![feed[0] as u8]);
    assert(encode_utf8(line) + encode_utf8(feed) =~= encode_utf8(line).push('\n' as u8));
}

/// The one line is the other, which is `n` bytes long, with a comment of `d` bytes at its end.
spec fn has_comment(longer: Seq<u8>, head: Seq<u8>, n: int, d: int) -> bool {
    &&& n >= 0
    &&& d >= 3
    &&& head.len() == n + 1
    &&& head[n] == '\n' as u8
    &&& longer.len() == n + d + 1
    &&& longer[n] == ' ' as u8
    &&& longer[n + 1] == '-' as u8
    &&& longer[n + 2] == '-' as u8
    &&& longer[n + d] == '\n' as u8
    &&& forall|i: int| n <= i < n + d ==> #[trigger] longer[i] != '\n' as u8
    &&& forall|i: int| 0 <= i < n ==> #[trigger] longer[i] == head[i]
}

proof fn lemma_runs_before(longer: Seq<u8>, head: Seq<u8>, n: int, d: int, i: int)
    requires
        has_comment(longer, head, n, d),
        0 <= i <= n,
    ensures
        digits_end(longer, i) == digits_end(head, i),
        digits_end(head, i) <= n,
        word_end(longer, i) == word_end(head, i),
        word_end(head, i) <= n,
    decreases n - i,
{
    if i < n {
        assert(longer[i] == head[i]);
        lemma_runs_before(longer, head, n, d, i + 1);
    }
}

/// A comment that runs to the end of the line takes the other one in.
proof fn lemma_comment_end(longer: Seq<u8>, head: Seq<u8>, n: int, d: int, i: int)
    requires
        has_comment(longer, head, n, d),
        0 <= i <= n + d,
    ensures
        i > n ==> line_end(longer, i) == n + d,
        i <= n ==> line_end(head, i) <= n,
        i <= n && line_end(head, i) == n ==> line_end(longer, i) == n + d,
        i <= n && line_end(head, i) != n ==> line_end(longer, i) == line_end(head, i),
    decreases n + d - i,
{
    if i < n + d {
        lemma_comment_end(longer, head, n, d, i + 1);
        if i < n {
            assert(longer[i] == head[i]);
        }
    }
}

proof fn lemma_step_before(longer: Seq<u8>, head: Seq<u8>, n: int, d: int, i: int)
    requires
        has_comment(longer, head, n, d),
        0 <= i < n,
        !(step(head, i) is Fail),
    ensures
        step(longer, i) == step(head, i) || (step(head, i) == Step::Skip(n) && step(longer, i)
            == Step::Skip(n + d)),
        step(head, i) matches Step::Skip(next) ==> next <= n,
        step(head, i) matches Step::Emit(_, next) ==> next <= n,
{
    assert(longer[i] == head[i]);
    lemma_runs_before(longer, head, n, d, i);
    lemma_runs_before(longer, head, n, d, i + 1);
    lemma_digits_end(head, i);
    lemma_word_end(head, i + 1);
    if i + 1 < n {
        assert(longer[i + 1] == head[i + 1]);
    }
    if followed_by(head, i, '-' as u8) {
        lemma_comment_end(longer, head, n, d, i + 2);
        lemma_line_end(head, i + 2);
    }
    if head[i] == '"' as u8 {
        lemma_string_kept(longer, head, n, i, i + 1, Seq::empty());
    }
    assert(longer.subrange(i, digits_end(head, i)) =~= head.subrange(i, digits_end(head, i)));
    assert(longer.subrange(i, word_end(head, i + 1)) =~= head.subrange(i, word_end(head, i + 1)));
}

proof fn lemma_tokens_before(longer: Seq<u8>, head: Seq<u8>, n: int, d: int, i: int)
    requires
        has_comment(longer, head, n, d),
        0 <= i <= n,
        tokens_from(head, i) is Ok,
    ensures
        tokens_from(longer, i) == Ok::<Seq<TokenView>, Seq<char>>(
            moved(tokens_from(head, i)->Ok_0, n, d),
        ),
    decreases n - i,
{
    if i < n {
        lemma_step_before(longer, head, n, d, i);
        lemma_step_advances(head, i);
        match step(head, i) {
            Step::Skip(next) => {
                if step(longer, i) == step(head, i) {
                    lemma_tokens_before(longer, head, n, d, next);
                } else {
                    lemma_tokens_end(longer, head, n, d);
                }
            },
            Step::Emit(kind, next) => {
                lemma_tokens_before(longer, head, n, d, next);
                let first = seq![TokenView { kind, pos: i }];
                let rest = tokens_from(head, next)->Ok_0;
                assert(moved(first + rest, n, d) =~= first + moved(rest, n, d));
            },
            Step::Fail(_) => {},
        }
    } else {
        lemma_tokens_end(longer, head, n, d);
    }
}

proof fn lemma_tokens_end(longer: Seq<u8>, head: Seq<u8>, n: int, d: int)
    requires
        has_comment(longer, head, n, d),
    ensures
        tokens_from(head, n) is Ok,
        tokens_from(longer, n + d) == Ok::<Seq<TokenView>, Seq<char>>(
            moved(tokens_from(head, n)->Ok_0, n, d),
        ),
        tokens_from(longer, n) == tokens_from(longer, n + d),
{
    let feed = TokenKindView::Newline;
    let end = TokenKindView::Eof;
    assert(step(head, n) == Step::Emit(feed, n + 1));
    assert(step(longer, n + d) == Step::Emit(feed, n + d + 1));
    let short = seq![TokenView { kind: end, pos: n + 1 }];
    let long = seq![TokenView { kind: end, pos: n + d + 1 }];
    assert(tokens_from(head, n + 1) == Ok::<Seq<TokenView>, Seq<char>>(short));
    assert(tokens_from(longer, n + d + 1) == Ok::<Seq<TokenView>, Seq<char>>(long));
    assert(moved(seq![TokenView { kind: feed, pos: n }] + short, n, d) =~= seq![
        TokenView { kind: feed, pos: n + d },
    ] + long);
    assert(step(longer, n) == Step::Skip(n + 1));
    lemma_comment_end(longer, head, n, d, n + 3);
    assert(step(longer, n + 1) == Step::Skip(n + d));
    assert(tokens_from(longer, n) == tokens_from(longer, n + 1));
    assert(tokens_from(longer, n + 1) == tokens_from(longer, n + d));
}

/// The line with a comment at its end.
pub open spec fn with_comment(line: Seq<char>, comment: Seq<char>) -> Seq<char> {
    line + seq![' ', '-', '-'] + comment
}

proof fn lemma_with_comment(line: Seq<char>, comment: Seq<char>)
    requires
        !comment.contains('\n'),
    ensures
        encode_utf8(with_comment(line, comment)).len() == encode_utf8(line).len() + 3 + encode_utf8(
            comment,
        ).len(),
        has_comment(
            encode_utf8(with_comment(line, comment).push('\n')),
            encode_utf8(line.push('\n')),
            encode_utf8(line).len() as int,
            3 + encode_utf8(comment).len() as int,
        ),
{
    let dashes = seq![' ', '-', '-'];
    let n = encode_utf8(line).len() as int;
    let d = 3 + encode_utf8(comment).len() as int;
    lemma_line(line);
    lemma_line(with_comment(line, comment));
    lemma_encoded(line + dashes, comment);
    lemma_encoded(line, dashes);
    assert(is_ascii_chars(dashes));
    is_ascii_chars_encode_utf8(dashes);
    lemma_no_newline(comment);
    let longer = encode_utf8(with_comment(line, comment).push('\n'));
    assert(encode_utf8(dashes)[0] == dashes[0] as u8);
    assert(encode_utf8(dashes)[1] == dashes[1] as u8);
    assert(encode_utf8(dashes)[2] == dashes[2] as u8);
    assert(longer[n] == ' ' as u8 && longer[n + 1] == '-' as u8 && longer[n + 2] == '-' as u8);
    assert forall|i: int| n <= i < n + d implies #[trigger] longer[i] != '\n' as u8 by {
        if i >= n + 3 {
            assert(longer[i] == encode_utf8(comment)[i - n - 3]);
        }
    }
}

/// A comment ends with its line: where the text up to it is split into tokens, it changes neither
/// the tokens before it nor those of the lines that follow, whatever these are, but moves the
/// latter by its length.
pub proof fn law_comment_ends(before: Seq<char>, comment: Seq<char>, after: Seq<char>)
    requires
        tokens_of(before.push('\n')) is Ok,
        !comment.contains('\n'),
    ensures
        match tokens_of(before.push('\n') + after) {
            Ok(tokens) => tokens_of(with_comment(before, comment).push('\n') + after) == Ok::<
                Seq<TokenView>,
                Seq<char>,
            >(
                moved(
                    tokens,
                    encode_utf8(before).len() as int,
                    3 + encode_utf8(comment).len() as int,
                ),
            ),
            Err(_) => tokens_of(with_comment(before, comment).push('\n') + after) is Err,
        },
{
    let n = encode_utf8(before).len() as int;
    let d = 3 + encode_utf8(comment).len() as int;
    let head = encode_utf8(before.push('\n'));
    let longer = encode_utf8(with_comment(before, comment).push('\n'));
    lemma_with_comment(before, comment);
    lemma_tokens_before(longer, head, n, d, 0);
    lemma_tokens_in_order(head, 0);
    law_lines(before, after);
    law_lines(with_comment(before, comment), after);
    if let Ok(rest) = tokens_of(after) {
        lemma_tokens_in_order(encode_utf8(after), 0);
        let first = tokens_of(before.push('\n'))->Ok_0;
        assert(moved(first, n, d).drop_last() =~= moved(first.drop_last(), n, d));
        assert(moved(shifted(rest, n + 1), n, d) =~= shifted(rest, n + d + 1));
        assert(moved(first.drop_last() + shifted(rest, n + 1), n, d) =~= moved(
            first.drop_last(),
            n,
            d,
        ) + moved(shifted(rest, n + 1), n, d));
    }
}

} // verus!
