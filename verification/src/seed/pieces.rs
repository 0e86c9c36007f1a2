//! The pieces of emitted texts.
use vstd::prelude::*;

use crate::seed::ast::{
    BinaryOp, BlockItemView, BlockView, ExprView, MatchArmView, Pattern, ProgramView,
};
use crate::seed::emit::name_text;
use crate::seed::rust::{in_word, is_pair, pieces, starts_number, Piece};
use crate::text::decimal;

verus! {

/// A word that is no word of Rust itself.
pub open spec fn plain_name(name: Seq<char>) -> bool {
    &&& name.len() > 0
    &&& forall|i: int| 0 <= i < name.len() ==> in_word(#[trigger] name[i])
    &&& !starts_number(name)
    &&& name != "match"@
    &&& name != "true"@
    &&& name != "false"@
    &&& name != "let"@
    &&& name != "fn"@
    &&& name != "if"@
    &&& name != "else"@
    &&& name != "_"@
}

/// The name is that of a function of the program that can be called: any but `main`.
pub open spec fn callable(p: ProgramView, name: Seq<char>) -> bool {
    &&& name != "main"@
    &&& exists|k: int| 0 <= k < p.functions.len() && (#[trigger] p.functions[k]).name == name
    &&& plain_name(name_text(name))
}

/// The number of a pattern is one that the language has a literal for.
pub open spec fn pattern_emittable(pattern: Pattern) -> bool {
    pattern matches Pattern::Int(value) ==> value >= 0
}

/// The expression has plain names and numbers that are not negative, and calls functions of the
/// program only.
pub open spec fn emittable(p: ProgramView, e: ExprView) -> bool
    decreases e, 0int,
{
    match e {
        ExprView::Int(value) => value >= 0,
        ExprView::Bool(_) | ExprView::Unit => true,
        ExprView::Var(name) => plain_name(name),
        ExprView::Call { name, args } => callable(p, name) && all_emittable(p, args, 0),
        ExprView::MethodCall { .. } => false,
        ExprView::Binary { op: _, left, right } => emittable(p, *left) && emittable(p, *right),
        ExprView::Match { scrutinee, arms } => emittable(p, *scrutinee) && arms_emittable(
            p,
            arms,
            0,
        ),
        ExprView::Block(block) => block_emittable(p, block),
    }
}

pub open spec fn all_emittable(p: ProgramView, list: Seq<ExprView>, i: int) -> bool
    decreases list, list.len() - i,
{
    0 <= i < list.len() ==> emittable(p, list[i]) && all_emittable(p, list, i + 1)
}

pub open spec fn arms_emittable(p: ProgramView, arms: Seq<MatchArmView>, i: int) -> bool
    decreases arms, arms.len() - i,
{
    0 <= i < arms.len() ==> arm_emittable(p, arms[i]) && arms_emittable(p, arms, i + 1)
}

pub open spec fn arm_emittable(p: ProgramView, arm: MatchArmView) -> bool
    decreases arm, 0int,
{
    pattern_emittable(arm.pattern) && emittable(p, arm.expr)
}

pub open spec fn block_emittable(p: ProgramView, block: BlockView) -> bool
    decreases block, 0int,
{
    items_emittable(p, block.items, 0)
}

pub open spec fn items_emittable(p: ProgramView, items: Seq<BlockItemView>, i: int) -> bool
    decreases items, items.len() - i,
{
    0 <= i < items.len() ==> item_emittable(p, items[i]) && items_emittable(p, items, i + 1)
}

pub open spec fn item_emittable(p: ProgramView, item: BlockItemView) -> bool
    decreases item, 0int,
{
    match item {
        BlockItemView::Binding { name, expr } => plain_name(name) && emittable(p, expr),
        BlockItemView::Expr(expr) => emittable(p, expr),
    }
}

/// The word of a number.
pub open spec fn number_word(value: i32) -> Seq<char> {
    decimal(value as nat) + "i32"@
}

pub open spec fn bool_word(value: bool) -> Seq<char> {
    if value {
        "true"@
    } else {
        "false"@
    }
}

pub open spec fn pattern_pieces(pattern: Pattern) -> Seq<Piece> {
    match pattern {
        Pattern::Int(value) => seq![Piece::Word(number_word(value))],
        Pattern::Bool(value) => seq![Piece::Word(bool_word(value))],
        Pattern::Unit => seq![Piece::Sign('('), Piece::Sign(')')],
        Pattern::Wildcard => seq![Piece::Word("_"@)],
    }
}

/// The method that does arithmetic.
pub open spec fn method_word(op: BinaryOp) -> Seq<char> {
    match op {
        BinaryOp::Add => "wrapping_add"@,
        BinaryOp::Sub => "wrapping_sub"@,
        _ => "wrapping_mul"@,
    }
}

pub open spec fn expr_pieces(e: ExprView) -> Seq<Piece>
    decreases e, 0int,
{
    match e {
        ExprView::Int(value) => seq![Piece::Word(number_word(value))],
        ExprView::Bool(value) => seq![Piece::Word(bool_word(value))],
        ExprView::Unit => seq![Piece::Sign('('), Piece::Sign(')')],
        ExprView::Var(name) => seq![Piece::Word(name)],
        ExprView::Call { name, args } => seq![Piece::Word(name_text(name)), Piece::Sign('(')] + (
        args_pieces(args, 0) + seq![Piece::Sign(')')]),
        ExprView::MethodCall { .. } => Seq::empty(),
        ExprView::Binary { op, left, right } => match op {
            BinaryOp::Eq => seq![Piece::Sign('(')] + (expr_pieces(*left) + (seq![
                Piece::Pair('=', '='),
            ] + (expr_pieces(*right) + seq![Piece::Sign(')')]))),
            BinaryOp::Lt => seq![Piece::Sign('(')] + (expr_pieces(*left) + (seq![Piece::Sign('<')]
                + (expr_pieces(*right) + seq![Piece::Sign(')')]))),
            _ => expr_pieces(*left) + (seq![
                Piece::Sign('.'),
                Piece::Word(method_word(op)),
                Piece::Sign('('),
            ] + (expr_pieces(*right) + seq![Piece::Sign(')')])),
        },
        ExprView::Match { scrutinee, arms } => seq![Piece::Word("match"@)] + (expr_pieces(
            *scrutinee,
        ) + (seq![Piece::Sign('{')] + (arms_pieces(arms, 0) + seq![Piece::Sign('}')]))),
        ExprView::Block(block) => block_pieces(block),
    }
}

/// The arguments from `i` on.
pub open spec fn args_pieces(args: Seq<ExprView>, i: int) -> Seq<Piece>
    decreases args, args.len() - i,
{
    if 0 <= i < args.len() {
        expr_pieces(args[i]) + if i + 1 < args.len() {
            seq![Piece::Sign(',')] + args_pieces(args, i + 1)
        } else {
            Seq::empty()
        }
    } else {
        Seq::empty()
    }
}

pub open spec fn arm_pieces(arm: MatchArmView) -> Seq<Piece>
    decreases arm, 0int,
{
    pattern_pieces(arm.pattern) + (seq![Piece::Pair('=', '>')] + (expr_pieces(arm.expr) + seq![
        Piece::Sign(','),
    ]))
}

/// The arms from `i` on.
pub open spec fn arms_pieces(arms: Seq<MatchArmView>, i: int) -> Seq<Piece>
    decreases arms, arms.len() - i,
{
    if 0 <= i < arms.len() {
        arm_pieces(arms[i]) + arms_pieces(arms, i + 1)
    } else {
        Seq::empty()
    }
}

/// A binding of a value to a name.
pub open spec fn let_pieces(name: Seq<char>, value: Seq<Piece>) -> Seq<Piece> {
    seq![Piece::Word("let"@), Piece::Word(name), Piece::Sign('=')] + (value + seq![
        Piece::Sign(';'),
    ])
}

pub open spec fn item_pieces(item: BlockItemView, is_last: bool) -> Seq<Piece>
    decreases item, 0int,
{
    match item {
        BlockItemView::Binding { name, expr } => let_pieces(name, expr_pieces(expr)) + if is_last {
            seq![Piece::Sign('('), Piece::Sign(')')]
        } else {
            Seq::empty()
        },
        BlockItemView::Expr(expr) => if is_last {
            expr_pieces(expr)
        } else {
            let_pieces("_"@, expr_pieces(expr))
        },
    }
}

/// The items from `i` on.
pub open spec fn items_pieces(items: Seq<BlockItemView>, i: int) -> Seq<Piece>
    decreases items, items.len() - i,
{
    if 0 <= i < items.len() {
        item_pieces(items[i], i + 1 == items.len()) + items_pieces(items, i + 1)
    } else {
        Seq::empty()
    }
}

pub open spec fn block_pieces(block: BlockView) -> Seq<Piece>
    decreases block, 0int,
{
    seq![Piece::Sign('{')] + (items_pieces(block.items, 0) + seq![Piece::Sign('}')])
}

/// The character parts pieces on both of its sides.
pub open spec fn parts(c: char) -> bool {
    !in_word(c) && c != '=' && c != '-' && c != ':' && c != '>'
}

/// No piece reaches from the one text into the other.
pub open spec fn parted(a: Seq<char>, b: Seq<char>) -> bool {
    ||| a.len() == 0
    ||| b.len() == 0
    ||| !(in_word(a.last()) && in_word(b[0])) && !is_pair(a.last(), b[0])
}

proof fn lemma_first_word(text: Seq<char>)
    requires
        text.len() > 0,
        in_word(text[0]),
    ensures
        pieces(text).len() > 0,
        pieces(text)[0] is Word,
{
}

proof fn lemma_first_sign(text: Seq<char>, c: char)
    requires
        text.len() > 0,
        text[0] == c,
        text[0] != ' ' && text[0] != '\n',
        !in_word(text[0]),
        text.len() == 1 || !is_pair(text[0], text[1]),
    ensures
        pieces(text) == seq![Piece::Sign(c)] + pieces(text.drop_first()),
        seq![Piece::Sign(c)].len() == 1,
        seq![Piece::Sign(c)][0] == Piece::Sign(c),
{
}

pub proof fn lemma_regrouped(a: Seq<Piece>, b: Seq<Piece>, c: Seq<Piece>)
    ensures
        (a + b) + c == a + (b + c),
{
    assert((a + b) + c =~= a + (b + c));
}

proof fn lemma_signed(a: Seq<char>, b: Seq<char>, c: char)
    requires
        a.len() > 0,
        b.len() > 0,
        a[0] == c,
        c != ' ' && c != '\n',
        !in_word(c),
        !is_pair((a + b)[0], (a + b)[1]),
        pieces(a.drop_first() + b) == pieces(a.drop_first()) + pieces(b),
    ensures
        pieces(a + b) == pieces(a) + pieces(b),
{
    assert((a + b)[0] == c);
    assert((a + b).drop_first() =~= a.drop_first() + b);
    if a.len() > 1 {
        assert((a + b)[1] == a[1]);
    }
    lemma_first_sign(a + b, c);
    lemma_first_sign(a, c);
    lemma_regrouped(seq![Piece::Sign(c)], pieces(a.drop_first()), pieces(b));
}

/// The pieces of two texts that are parted.
pub proof fn lemma_pieces(a: Seq<char>, b: Seq<char>)
    requires
        parted(a, b),
    ensures
        pieces(a + b) == pieces(a) + pieces(b),
    decreases a.len(),
{
    let both = a + b;
    if a.len() == 0 {
        assert(both =~= b);
        assert(pieces(a) + pieces(b) =~= pieces(b));
    } else if b.len() == 0 {
        assert(both =~= a);
        assert(pieces(a) + pieces(b) =~= pieces(a));
    } else {
        let rest = a.drop_first();
        assert(both.drop_first() =~= rest + b);
        assert(both[0] == a[0]);
        if a.len() > 1 {
            assert(rest.last() == a.last());
            assert(both[1] == a[1]);
        } else {
            assert(both[1] == b[0]);
            assert(rest =~= Seq::empty());
        }
        lemma_pieces(rest, b);
        if a[0] == ' ' || a[0] == '\n' {
            assert(pieces(both) == pieces(both.drop_first()));
            assert(pieces(a) == pieces(rest));
        } else if in_word(a[0]) {
            if a.len() > 1 && in_word(a[1]) {
                lemma_first_word(rest);
                let first = seq![Piece::Word(seq![a[0]] + pieces(rest)[0]->Word_0)];
                assert((pieces(rest) + pieces(b)).drop_first() =~= pieces(rest).drop_first()
                    + pieces(b));
                assert(both.len() > 1 && in_word(both[1]));
                assert(pieces(both.drop_first())[0] == pieces(rest)[0]);
                lemma_regrouped(first, pieces(rest).drop_first(), pieces(b));
            } else {
                let first = seq![Piece::Word(seq![a[0]])];
                assert(pieces(both) == first + pieces(both.drop_first()));
                lemma_regrouped(first, pieces(rest), pieces(b));
            }
        } else if a.len() > 1 && is_pair(a[0], a[1]) {
            let after = a.skip(2);
            assert(both.skip(2) =~= after + b);
            if a.len() > 2 {
                assert(after.last() == a.last());
            }
            lemma_pieces(after, b);
            let first = seq![Piece::Pair(a[0], a[1])];
            assert(pieces(both) == first + pieces(both.skip(2)));
            assert(pieces(a) == first + pieces(after));
            lemma_regrouped(first, pieces(after), pieces(b));
            assert(pieces(both) == pieces(a) + pieces(b));
        } else {
            assert(!is_pair(both[0], both[1]));
            lemma_signed(a, b, a[0]);
        }
    }
}

/// A word is one piece.
pub proof fn lemma_word(word: Seq<char>)
    requires
        word.len() > 0,
        forall|i: int| 0 <= i < word.len() ==> in_word(#[trigger] word[i]),
    ensures
        pieces(word) == seq![Piece::Word(word)],
    decreases word.len(),
{
    let rest = word.drop_first();
    assert(in_word(word[0]));
    if word.len() > 1 {
        assert(in_word(word[1]));
        assert forall|i: int| 0 <= i < rest.len() implies in_word(#[trigger] rest[i]) by {
            assert(rest[i] == word[i + 1]);
        }
        lemma_word(rest);
        assert(seq![word[0]] + rest =~= word);
        assert(pieces(word) =~= seq![Piece::Word(word)]);
    } else {
        assert(rest =~= Seq::empty());
        assert(pieces(rest) =~= Seq::empty());
        assert(seq![word[0]] =~= word);
        assert(pieces(word) =~= seq![Piece::Word(word)]);
    }
}

/// A character that parts pieces is one itself, unless it is white space.
pub proof fn lemma_sign(c: char)
    requires
        parts(c),
    ensures
        pieces(seq![c]) == if c == ' ' || c == '\n' {
            Seq::<Piece>::empty()
        } else {
            seq![Piece::Sign(c)]
        },
{
    let rest = seq![c].drop_first();
    assert(rest =~= Seq::empty());
    assert(pieces(rest) =~= Seq::empty());
    assert(pieces(seq![c]) =~= if c == ' ' || c == '\n' {
        Seq::<Piece>::empty()
    } else {
        seq![Piece::Sign(c)]
    });
}

/// Texts around one that starts and ends with characters that part pieces.
pub proof fn lemma_around(a: Seq<char>, between: Seq<char>, b: Seq<char>)
    requires
        between.len() > 0,
        parts(between[0]),
        parts(between.last()),
    ensures
        pieces(a + between + b) == pieces(a) + pieces(between) + pieces(b),
{
    lemma_pieces(a, between);
    assert((a + between).last() == between.last());
    lemma_pieces(a + between, b);
}

/// White space.
pub open spec fn blank(pad: Seq<char>) -> bool {
    forall|i: int| 0 <= i < pad.len() ==> #[trigger] pad[i] == ' '
}

pub proof fn lemma_blank(pad: Seq<char>)
    requires
        blank(pad),
    ensures
        pieces(pad) == Seq::<Piece>::empty(),
    decreases pad.len(),
{
    if pad.len() > 0 {
        let rest = pad.drop_first();
        assert(pad[0] == ' ');
        assert forall|i: int| 0 <= i < rest.len() implies #[trigger] rest[i] == ' ' by {
            assert(rest[i] == pad[i + 1]);
        }
        lemma_blank(rest);
    }
    assert(pieces(pad) =~= Seq::<Piece>::empty());
}

pub proof fn lemma_word_match()
    ensures
        pieces("match"@) == seq![Piece::Word("match"@)],
        "match"@.len() == 5,
        in_word("match"@[0]),
        in_word("match"@[4]),
{
    reveal_strlit("match");
    let word = "match"@;
    assert forall|i: int| 0 <= i < word.len() implies in_word(#[trigger] word[i]) by {
        assert(i == 0 || i == 1 || i == 2 || i == 3 || i == 4);
    }
    lemma_word(word);
}

pub proof fn lemma_word_true()
    ensures
        pieces("true"@) == seq![Piece::Word("true"@)],
        "true"@.len() == 4,
        in_word("true"@[0]),
        in_word("true"@[3]),
{
    reveal_strlit("true");
    let word = "true"@;
    assert forall|i: int| 0 <= i < word.len() implies in_word(#[trigger] word[i]) by {
        assert(i == 0 || i == 1 || i == 2 || i == 3);
    }
    lemma_word(word);
}

pub proof fn lemma_word_false()
    ensures
        pieces("false"@) == seq![Piece::Word("false"@)],
        "false"@.len() == 5,
        in_word("false"@[0]),
        in_word("false"@[4]),
{
    reveal_strlit("false");
    let word = "false"@;
    assert forall|i: int| 0 <= i < word.len() implies in_word(#[trigger] word[i]) by {
        assert(i == 0 || i == 1 || i == 2 || i == 3 || i == 4);
    }
    lemma_word(word);
}

pub proof fn lemma_word_let()
    ensures
        pieces("let"@) == seq![Piece::Word("let"@)],
        "let"@.len() == 3,
        in_word("let"@[0]),
        in_word("let"@[2]),
{
    reveal_strlit("let");
    let word = "let"@;
    assert forall|i: int| 0 <= i < word.len() implies in_word(#[trigger] word[i]) by {
        assert(i == 0 || i == 1 || i == 2);
    }
    lemma_word(word);
}

pub proof fn lemma_word_fn()
    ensures
        pieces("fn"@) == seq![Piece::Word("fn"@)],
        "fn"@.len() == 2,
        in_word("fn"@[0]),
        in_word("fn"@[1]),
{
    reveal_strlit("fn");
    let word = "fn"@;
    assert forall|i: int| 0 <= i < word.len() implies in_word(#[trigger] word[i]) by {
        assert(i == 0 || i == 1);
    }
    lemma_word(word);
}

pub proof fn lemma_word_main()
    ensures
        pieces("main"@) == seq![Piece::Word("main"@)],
        "main"@.len() == 4,
        in_word("main"@[0]),
        in_word("main"@[3]),
{
    reveal_strlit("main");
    let word = "main"@;
    assert forall|i: int| 0 <= i < word.len() implies in_word(#[trigger] word[i]) by {
        assert(i == 0 || i == 1 || i == 2 || i == 3);
    }
    lemma_word(word);
}

pub proof fn lemma_word_i32()
    ensures
        pieces("i32"@) == seq![Piece::Word("i32"@)],
        "i32"@.len() == 3,
        in_word("i32"@[0]),
        in_word("i32"@[2]),
{
    reveal_strlit("i32");
    let word = "i32"@;
    assert forall|i: int| 0 <= i < word.len() implies in_word(#[trigger] word[i]) by {
        assert(i == 0 || i == 1 || i == 2);
    }
    lemma_word(word);
}

pub proof fn lemma_word_bool()
    ensures
        pieces("bool"@) == seq![Piece::Word("bool"@)],
        "bool"@.len() == 4,
        in_word("bool"@[0]),
        in_word("bool"@[3]),
{
    reveal_strlit("bool");
    let word = "bool"@;
    assert forall|i: int| 0 <= i < word.len() implies in_word(#[trigger] word[i]) by {
        assert(i == 0 || i == 1 || i == 2 || i == 3);
    }
    lemma_word(word);
}

pub proof fn lemma_word_adding()
    ensures
        pieces("wrapping_add"@) == seq![Piece::Word("wrapping_add"@)],
        "wrapping_add"@.len() == 12,
        in_word("wrapping_add"@[0]),
        in_word("wrapping_add"@[11]),
{
    reveal_strlit("wrapping_add");
    let word = "wrapping_add"@;
    assert forall|i: int| 0 <= i < word.len() implies in_word(#[trigger] word[i]) by {
        assert(i == 0 || i == 1 || i == 2 || i == 3 || i == 4 || i == 5 || i == 6 || i == 7
            || i == 8 || i == 9 || i == 10 || i == 11);
    }
    lemma_word(word);
}

pub proof fn lemma_word_subtracting()
    ensures
        pieces("wrapping_sub"@) == seq![Piece::Word("wrapping_sub"@)],
        "wrapping_sub"@.len() == 12,
        in_word("wrapping_sub"@[0]),
        in_word("wrapping_sub"@[11]),
{
    reveal_strlit("wrapping_sub");
    let word = "wrapping_sub"@;
    assert forall|i: int| 0 <= i < word.len() implies in_word(#[trigger] word[i]) by {
        assert(i == 0 || i == 1 || i == 2 || i == 3 || i == 4 || i == 5 || i == 6 || i == 7
            || i == 8 || i == 9 || i == 10 || i == 11);
    }
    lemma_word(word);
}

pub proof fn lemma_word_multiplying()
    ensures
        pieces("wrapping_mul"@) == seq![Piece::Word("wrapping_mul"@)],
        "wrapping_mul"@.len() == 12,
        in_word("wrapping_mul"@[0]),
        in_word("wrapping_mul"@[11]),
{
    reveal_strlit("wrapping_mul");
    let word = "wrapping_mul"@;
    assert forall|i: int| 0 <= i < word.len() implies in_word(#[trigger] word[i]) by {
        assert(i == 0 || i == 1 || i == 2 || i == 3 || i == 4 || i == 5 || i == 6 || i == 7
            || i == 8 || i == 9 || i == 10 || i == 11);
    }
    lemma_word(word);
}

pub proof fn lemma_word_result()
    ensures
        pieces("_emela_result"@) == seq![Piece::Word("_emela_result"@)],
        "_emela_result"@.len() == 13,
        in_word("_emela_result"@[0]),
        in_word("_emela_result"@[12]),
{
    reveal_strlit("_emela_result");
    let word = "_emela_result"@;
    assert forall|i: int| 0 <= i < word.len() implies in_word(#[trigger] word[i]) by {
        assert(i == 0 || i == 1 || i == 2 || i == 3 || i == 4 || i == 5 || i == 6 || i == 7
            || i == 8 || i == 9 || i == 10 || i == 11 || i == 12);
    }
    lemma_word(word);
}

pub proof fn lemma_word_std()
    ensures
        pieces("std"@) == seq![Piece::Word("std"@)],
        "std"@.len() == 3,
        in_word("std"@[0]),
        in_word("std"@[2]),
{
    reveal_strlit("std");
    let word = "std"@;
    assert forall|i: int| 0 <= i < word.len() implies in_word(#[trigger] word[i]) by {
        assert(i == 0 || i == 1 || i == 2);
    }
    lemma_word(word);
}

pub proof fn lemma_word_process()
    ensures
        pieces("process"@) == seq![Piece::Word("process"@)],
        "process"@.len() == 7,
        in_word("process"@[0]),
        in_word("process"@[6]),
{
    reveal_strlit("process");
    let word = "process"@;
    assert forall|i: int| 0 <= i < word.len() implies in_word(#[trigger] word[i]) by {
        assert(i == 0 || i == 1 || i == 2 || i == 3 || i == 4 || i == 5 || i == 6);
    }
    lemma_word(word);
}

pub proof fn lemma_word_exit()
    ensures
        pieces("exit"@) == seq![Piece::Word("exit"@)],
        "exit"@.len() == 4,
        in_word("exit"@[0]),
        in_word("exit"@[3]),
{
    reveal_strlit("exit");
    let word = "exit"@;
    assert forall|i: int| 0 <= i < word.len() implies in_word(#[trigger] word[i]) by {
        assert(i == 0 || i == 1 || i == 2 || i == 3);
    }
    lemma_word(word);
}

pub proof fn lemma_word_if()
    ensures
        pieces("if"@) == seq![Piece::Word("if"@)],
        "if"@.len() == 2,
        in_word("if"@[0]),
        in_word("if"@[1]),
{
    reveal_strlit("if");
    let word = "if"@;
    assert forall|i: int| 0 <= i < word.len() implies in_word(#[trigger] word[i]) by {
        assert(i == 0 || i == 1);
    }
    lemma_word(word);
}

pub proof fn lemma_word_else()
    ensures
        pieces("else"@) == seq![Piece::Word("else"@)],
        "else"@.len() == 4,
        in_word("else"@[0]),
        in_word("else"@[3]),
{
    reveal_strlit("else");
    let word = "else"@;
    assert forall|i: int| 0 <= i < word.len() implies in_word(#[trigger] word[i]) by {
        assert(i == 0 || i == 1 || i == 2 || i == 3);
    }
    lemma_word(word);
}

pub proof fn lemma_word_zero()
    ensures
        pieces("0"@) == seq![Piece::Word("0"@)],
        "0"@.len() == 1,
        in_word("0"@[0]),
        in_word("0"@[0]),
{
    reveal_strlit("0");
    let word = "0"@;
    assert forall|i: int| 0 <= i < word.len() implies in_word(#[trigger] word[i]) by {
        assert(i == 0);
    }
    lemma_word(word);
}

pub proof fn lemma_word_one()
    ensures
        pieces("1"@) == seq![Piece::Word("1"@)],
        "1"@.len() == 1,
        in_word("1"@[0]),
        in_word("1"@[0]),
{
    reveal_strlit("1");
    let word = "1"@;
    assert forall|i: int| 0 <= i < word.len() implies in_word(#[trigger] word[i]) by {
        assert(i == 0);
    }
    lemma_word(word);
}

pub proof fn lemma_word_any()
    ensures
        pieces("_"@) == seq![Piece::Word("_"@)],
        "_"@.len() == 1,
        in_word("_"@[0]),
        in_word("_"@[0]),
{
    reveal_strlit("_");
    let word = "_"@;
    assert forall|i: int| 0 <= i < word.len() implies in_word(#[trigger] word[i]) by {
        assert(i == 0);
    }
    lemma_word(word);
}

/// Two characters that belong together are one piece.
pub proof fn lemma_pair(c: char, d: char)
    requires
        is_pair(c, d),
    ensures
        pieces(seq![c, d]) == seq![Piece::Pair(c, d)],
{
    let rest = seq![c, d].skip(2);
    assert(rest =~= Seq::empty());
    assert(pieces(rest) =~= Seq::empty());
    assert(pieces(seq![c, d]) =~= seq![Piece::Pair(c, d)]);
}

pub proof fn lemma_colon()
    ensures
        pieces(seq![':']) == seq![Piece::Sign(':')],
{
    let rest = seq![':'].drop_first();
    assert(rest =~= Seq::empty());
    assert(pieces(rest) =~= Seq::empty());
    assert(pieces(seq![':']) =~= seq![Piece::Sign(':')]);
}

pub proof fn lemma_equals()
    ensures
        pieces(seq!['=']) == seq![Piece::Sign('=')],
{
    let rest = seq!['='].drop_first();
    assert(rest =~= Seq::empty());
    assert(pieces(rest) =~= Seq::empty());
    assert(pieces(seq!['=']) =~= seq![Piece::Sign('=')]);
}

pub proof fn lemma_text_open()
    ensures
        pieces("("@) == seq![Piece::Sign('(')],
        "("@.len() == 1,
        "("@[0] == '(',
        "("@[0] == '(',
{
    reveal_strlit("(");
    lemma_sign('(');
    let a0 = seq!['('];
    assert("("@ =~= a0);
    assert(pieces("("@) =~= seq![Piece::Sign('(')]);
}

pub proof fn lemma_text_close()
    ensures
        pieces(")"@) == seq![Piece::Sign(')')],
        ")"@.len() == 1,
        ")"@[0] == ')',
        ")"@[0] == ')',
{
    reveal_strlit(")");
    lemma_sign(')');
    let a0 = seq![')'];
    assert(")"@ =~= a0);
    assert(pieces(")"@) =~= seq![Piece::Sign(')')]);
}

pub proof fn lemma_text_unit()
    ensures
        pieces("()"@) == seq![Piece::Sign('('), Piece::Sign(')')],
        "()"@.len() == 2,
        "()"@[0] == '(',
        "()"@[1] == ')',
{
    reveal_strlit("()");
    lemma_sign('(');
    lemma_sign(')');
    let a0 = seq!['('];
    let a1 = a0 + seq![')'];
    lemma_pieces(a0, seq![')']);
    assert("()"@ =~= a1);
    assert(pieces("()"@) =~= seq![Piece::Sign('('), Piece::Sign(')')]);
}

pub proof fn lemma_text_adds()
    ensures
        pieces(".wrapping_add("@) == seq![Piece::Sign('.'), Piece::Word("wrapping_add"@), Piece::Sign('(')],
        ".wrapping_add("@.len() == 14,
        ".wrapping_add("@[0] == '.',
        ".wrapping_add("@[13] == '(',
{
    reveal_strlit(".wrapping_add(");
    lemma_sign('.');
    reveal_strlit("wrapping_add");
    lemma_word_adding();
    lemma_sign('(');
    let a0 = seq!['.'];
    let a1 = a0 + "wrapping_add"@;
    lemma_pieces(a0, "wrapping_add"@);
    let a2 = a1 + seq!['('];
    lemma_pieces(a1, seq!['(']);
    assert(".wrapping_add("@ =~= a2);
    assert(pieces(".wrapping_add("@) =~= seq![Piece::Sign('.'), Piece::Word("wrapping_add"@), Piece::Sign('(')]);
}

pub proof fn lemma_text_subtracts()
    ensures
        pieces(".wrapping_sub("@) == seq![Piece::Sign('.'), Piece::Word("wrapping_sub"@), Piece::Sign('(')],
        ".wrapping_sub("@.len() == 14,
        ".wrapping_sub("@[0] == '.',
        ".wrapping_sub("@[13] == '(',
{
    reveal_strlit(".wrapping_sub(");
    lemma_sign('.');
    reveal_strlit("wrapping_sub");
    lemma_word_subtracting();
    lemma_sign('(');
    let a0 = seq!['.'];
    let a1 = a0 + "wrapping_sub"@;
    lemma_pieces(a0, "wrapping_sub"@);
    let a2 = a1 + seq!['('];
    lemma_pieces(a1, seq!['(']);
    assert(".wrapping_sub("@ =~= a2);
    assert(pieces(".wrapping_sub("@) =~= seq![Piece::Sign('.'), Piece::Word("wrapping_sub"@), Piece::Sign('(')]);
}

pub proof fn lemma_text_multiplies()
    ensures
        pieces(".wrapping_mul("@) == seq![Piece::Sign('.'), Piece::Word("wrapping_mul"@), Piece::Sign('(')],
        ".wrapping_mul("@.len() == 14,
        ".wrapping_mul("@[0] == '.',
        ".wrapping_mul("@[13] == '(',
{
    reveal_strlit(".wrapping_mul(");
    lemma_sign('.');
    reveal_strlit("wrapping_mul");
    lemma_word_multiplying();
    lemma_sign('(');
    let a0 = seq!['.'];
    let a1 = a0 + "wrapping_mul"@;
    lemma_pieces(a0, "wrapping_mul"@);
    let a2 = a1 + seq!['('];
    lemma_pieces(a1, seq!['(']);
    assert(".wrapping_mul("@ =~= a2);
    assert(pieces(".wrapping_mul("@) =~= seq![Piece::Sign('.'), Piece::Word("wrapping_mul"@), Piece::Sign('(')]);
}

pub proof fn lemma_text_equal()
    ensures
        pieces(" == "@) == seq![Piece::Pair('=', '=')],
        " == "@.len() == 4,
        " == "@[0] == ' ',
        " == "@[3] == ' ',
{
    reveal_strlit(" == ");
    lemma_sign(' ');
    lemma_pair('=', '=');
    let a0 = seq![' '];
    let a1 = a0 + seq!['=', '='];
    lemma_pieces(a0, seq!['=', '=']);
    let a2 = a1 + seq![' '];
    lemma_pieces(a1, seq![' ']);
    assert(" == "@ =~= a2);
    assert(pieces(" == "@) =~= seq![Piece::Pair('=', '=')]);
}

pub proof fn lemma_text_less()
    ensures
        pieces(" < "@) == seq![Piece::Sign('<')],
        " < "@.len() == 3,
        " < "@[0] == ' ',
        " < "@[2] == ' ',
{
    reveal_strlit(" < ");
    lemma_sign(' ');
    lemma_sign('<');
    let a0 = seq![' '];
    let a1 = a0 + seq!['<'];
    lemma_pieces(a0, seq!['<']);
    let a2 = a1 + seq![' '];
    lemma_pieces(a1, seq![' ']);
    assert(" < "@ =~= a2);
    assert(pieces(" < "@) =~= seq![Piece::Sign('<')]);
}

pub proof fn lemma_text_matching()
    ensures
        pieces("match "@) == seq![Piece::Word("match"@)],
        "match "@.len() == 6,
        "match "@[0] == 'm',
        "match "@[5] == ' ',
{
    reveal_strlit("match ");
    reveal_strlit("match");
    lemma_word_match();
    lemma_sign(' ');
    let a0 = "match"@;
    let a1 = a0 + seq![' '];
    lemma_pieces(a0, seq![' ']);
    assert("match "@ =~= a1);
    assert(pieces("match "@) =~= seq![Piece::Word("match"@)]);
}

pub proof fn lemma_text_arms()
    ensures
        pieces(" { "@) == seq![Piece::Sign('{')],
        " { "@.len() == 3,
        " { "@[0] == ' ',
        " { "@[2] == ' ',
{
    reveal_strlit(" { ");
    lemma_sign(' ');
    lemma_sign('{');
    let a0 = seq![' '];
    let a1 = a0 + seq!['{'];
    lemma_pieces(a0, seq!['{']);
    let a2 = a1 + seq![' '];
    lemma_pieces(a1, seq![' ']);
    assert(" { "@ =~= a2);
    assert(pieces(" { "@) =~= seq![Piece::Sign('{')]);
}

pub proof fn lemma_text_arms_end()
    ensures
        pieces(" }"@) == seq![Piece::Sign('}')],
        " }"@.len() == 2,
        " }"@[0] == ' ',
        " }"@[1] == '}',
{
    reveal_strlit(" }");
    lemma_sign(' ');
    lemma_sign('}');
    let a0 = seq![' '];
    let a1 = a0 + seq!['}'];
    lemma_pieces(a0, seq!['}']);
    assert(" }"@ =~= a1);
    assert(pieces(" }"@) =~= seq![Piece::Sign('}')]);
}

pub proof fn lemma_text_arrow()
    ensures
        pieces(" => "@) == seq![Piece::Pair('=', '>')],
        " => "@.len() == 4,
        " => "@[0] == ' ',
        " => "@[3] == ' ',
{
    reveal_strlit(" => ");
    lemma_sign(' ');
    lemma_pair('=', '>');
    let a0 = seq![' '];
    let a1 = a0 + seq!['=', '>'];
    lemma_pieces(a0, seq!['=', '>']);
    let a2 = a1 + seq![' '];
    lemma_pieces(a1, seq![' ']);
    assert(" => "@ =~= a2);
    assert(pieces(" => "@) =~= seq![Piece::Pair('=', '>')]);
}

pub proof fn lemma_text_comma()
    ensures
        pieces(","@) == seq![Piece::Sign(',')],
        ","@.len() == 1,
        ","@[0] == ',',
        ","@[0] == ',',
{
    reveal_strlit(",");
    lemma_sign(',');
    let a0 = seq![','];
    assert(","@ =~= a0);
    assert(pieces(","@) =~= seq![Piece::Sign(',')]);
}

pub proof fn lemma_text_separator()
    ensures
        pieces(", "@) == seq![Piece::Sign(',')],
        ", "@.len() == 2,
        ", "@[0] == ',',
        ", "@[1] == ' ',
{
    reveal_strlit(", ");
    lemma_sign(',');
    lemma_sign(' ');
    let a0 = seq![','];
    let a1 = a0 + seq![' '];
    lemma_pieces(a0, seq![' ']);
    assert(", "@ =~= a1);
    assert(pieces(", "@) =~= seq![Piece::Sign(',')]);
}

pub proof fn lemma_text_space()
    ensures
        pieces(" "@) == Seq::<Piece>::empty(),
        " "@.len() == 1,
        " "@[0] == ' ',
        " "@[0] == ' ',
{
    reveal_strlit(" ");
    lemma_sign(' ');
    let a0 = seq![' '];
    assert(" "@ =~= a0);
    assert(pieces(" "@) =~= Seq::<Piece>::empty());
}

pub proof fn lemma_text_binding()
    ensures
        pieces("let "@) == seq![Piece::Word("let"@)],
        "let "@.len() == 4,
        "let "@[0] == 'l',
        "let "@[3] == ' ',
{
    reveal_strlit("let ");
    reveal_strlit("let");
    lemma_word_let();
    lemma_sign(' ');
    let a0 = "let"@;
    let a1 = a0 + seq![' '];
    lemma_pieces(a0, seq![' ']);
    assert("let "@ =~= a1);
    assert(pieces("let "@) =~= seq![Piece::Word("let"@)]);
}

pub proof fn lemma_text_bound()
    ensures
        pieces(" = "@) == seq![Piece::Sign('=')],
        " = "@.len() == 3,
        " = "@[0] == ' ',
        " = "@[2] == ' ',
{
    reveal_strlit(" = ");
    lemma_sign(' ');
    lemma_equals();
    let a0 = seq![' '];
    let a1 = a0 + seq!['='];
    lemma_pieces(a0, seq!['=']);
    let a2 = a1 + seq![' '];
    lemma_pieces(a1, seq![' ']);
    assert(" = "@ =~= a2);
    assert(pieces(" = "@) =~= seq![Piece::Sign('=')]);
}

pub proof fn lemma_text_line()
    ensures
        pieces(";\n"@) == seq![Piece::Sign(';')],
        ";\n"@.len() == 2,
        ";\n"@[0] == ';',
        ";\n"@[1] == '\n',
{
    reveal_strlit(";\n");
    lemma_sign(';');
    lemma_sign('\n');
    let a0 = seq![';'];
    let a1 = a0 + seq!['\n'];
    lemma_pieces(a0, seq!['\n']);
    assert(";\n"@ =~= a1);
    assert(pieces(";\n"@) =~= seq![Piece::Sign(';')]);
}

pub proof fn lemma_text_unit_line()
    ensures
        pieces("()\n"@) == seq![Piece::Sign('('), Piece::Sign(')')],
        "()\n"@.len() == 3,
        "()\n"@[0] == '(',
        "()\n"@[2] == '\n',
{
    reveal_strlit("()\n");
    lemma_sign('(');
    lemma_sign(')');
    lemma_sign('\n');
    let a0 = seq!['('];
    let a1 = a0 + seq![')'];
    lemma_pieces(a0, seq![')']);
    let a2 = a1 + seq!['\n'];
    lemma_pieces(a1, seq!['\n']);
    assert("()\n"@ =~= a2);
    assert(pieces("()\n"@) =~= seq![Piece::Sign('('), Piece::Sign(')')]);
}

pub proof fn lemma_text_feed()
    ensures
        pieces("\n"@) == Seq::<Piece>::empty(),
        "\n"@.len() == 1,
        "\n"@[0] == '\n',
        "\n"@[0] == '\n',
{
    reveal_strlit("\n");
    lemma_sign('\n');
    let a0 = seq!['\n'];
    assert("\n"@ =~= a0);
    assert(pieces("\n"@) =~= Seq::<Piece>::empty());
}

pub proof fn lemma_text_dropping()
    ensures
        pieces("let _ = "@) == seq![Piece::Word("let"@), Piece::Word("_"@), Piece::Sign('=')],
        "let _ = "@.len() == 8,
        "let _ = "@[0] == 'l',
        "let _ = "@[7] == ' ',
{
    reveal_strlit("let _ = ");
    reveal_strlit("let");
    lemma_word_let();
    lemma_sign(' ');
    reveal_strlit("_");
    lemma_word_any();
    lemma_equals();
    let a0 = "let"@;
    let a1 = a0 + seq![' '];
    lemma_pieces(a0, seq![' ']);
    let a2 = a1 + "_"@;
    lemma_pieces(a1, "_"@);
    let a3 = a2 + seq![' '];
    lemma_pieces(a2, seq![' ']);
    let a4 = a3 + seq!['='];
    lemma_pieces(a3, seq!['=']);
    let a5 = a4 + seq![' '];
    lemma_pieces(a4, seq![' ']);
    assert("let _ = "@ =~= a5);
    assert(pieces("let _ = "@) =~= seq![Piece::Word("let"@), Piece::Word("_"@), Piece::Sign('=')]);
}

pub proof fn lemma_text_empty()
    ensures
        pieces("{}"@) == seq![Piece::Sign('{'), Piece::Sign('}')],
        "{}"@.len() == 2,
        "{}"@[0] == '{',
        "{}"@[1] == '}',
{
    reveal_strlit("{}");
    lemma_sign('{');
    lemma_sign('}');
    let a0 = seq!['{'];
    let a1 = a0 + seq!['}'];
    lemma_pieces(a0, seq!['}']);
    assert("{}"@ =~= a1);
    assert(pieces("{}"@) =~= seq![Piece::Sign('{'), Piece::Sign('}')]);
}

pub proof fn lemma_text_block()
    ensures
        pieces("{\n"@) == seq![Piece::Sign('{')],
        "{\n"@.len() == 2,
        "{\n"@[0] == '{',
        "{\n"@[1] == '\n',
{
    reveal_strlit("{\n");
    lemma_sign('{');
    lemma_sign('\n');
    let a0 = seq!['{'];
    let a1 = a0 + seq!['\n'];
    lemma_pieces(a0, seq!['\n']);
    assert("{\n"@ =~= a1);
    assert(pieces("{\n"@) =~= seq![Piece::Sign('{')]);
}

pub proof fn lemma_text_brace()
    ensures
        pieces("}"@) == seq![Piece::Sign('}')],
        "}"@.len() == 1,
        "}"@[0] == '}',
        "}"@[0] == '}',
{
    reveal_strlit("}");
    lemma_sign('}');
    let a0 = seq!['}'];
    assert("}"@ =~= a0);
    assert(pieces("}"@) =~= seq![Piece::Sign('}')]);
}

pub proof fn lemma_text_typed()
    ensures
        pieces(": "@) == seq![Piece::Sign(':')],
        ": "@.len() == 2,
        ": "@[0] == ':',
        ": "@[1] == ' ',
{
    reveal_strlit(": ");
    lemma_colon();
    lemma_sign(' ');
    let a0 = seq![':'];
    let a1 = a0 + seq![' '];
    lemma_pieces(a0, seq![' ']);
    assert(": "@ =~= a1);
    assert(pieces(": "@) =~= seq![Piece::Sign(':')]);
}

pub proof fn lemma_text_returns()
    ensures
        pieces(") -> "@) == seq![Piece::Sign(')'), Piece::Pair('-', '>')],
        ") -> "@.len() == 5,
        ") -> "@[0] == ')',
        ") -> "@[4] == ' ',
{
    reveal_strlit(") -> ");
    lemma_sign(')');
    lemma_sign(' ');
    lemma_pair('-', '>');
    let a0 = seq![')'];
    let a1 = a0 + seq![' '];
    lemma_pieces(a0, seq![' ']);
    let a2 = a1 + seq!['-', '>'];
    lemma_pieces(a1, seq!['-', '>']);
    let a3 = a2 + seq![' '];
    lemma_pieces(a2, seq![' ']);
    assert(") -> "@ =~= a3);
    assert(pieces(") -> "@) =~= seq![Piece::Sign(')'), Piece::Pair('-', '>')]);
}

pub proof fn lemma_text_body()
    ensures
        pieces(" {\n    "@) == seq![Piece::Sign('{')],
        " {\n    "@.len() == 7,
        " {\n    "@[0] == ' ',
        " {\n    "@[6] == ' ',
{
    reveal_strlit(" {\n    ");
    lemma_sign(' ');
    lemma_sign('{');
    lemma_sign('\n');
    let a0 = seq![' '];
    let a1 = a0 + seq!['{'];
    lemma_pieces(a0, seq!['{']);
    let a2 = a1 + seq!['\n'];
    lemma_pieces(a1, seq!['\n']);
    let a3 = a2 + seq![' '];
    lemma_pieces(a2, seq![' ']);
    let a4 = a3 + seq![' '];
    lemma_pieces(a3, seq![' ']);
    let a5 = a4 + seq![' '];
    lemma_pieces(a4, seq![' ']);
    let a6 = a5 + seq![' '];
    lemma_pieces(a5, seq![' ']);
    assert(" {\n    "@ =~= a6);
    assert(pieces(" {\n    "@) =~= seq![Piece::Sign('{')]);
}

pub proof fn lemma_text_body_end()
    ensures
        pieces("\n}\n\n"@) == seq![Piece::Sign('}')],
        "\n}\n\n"@.len() == 4,
        "\n}\n\n"@[0] == '\n',
        "\n}\n\n"@[3] == '\n',
{
    reveal_strlit("\n}\n\n");
    lemma_sign('\n');
    lemma_sign('}');
    let a0 = seq!['\n'];
    let a1 = a0 + seq!['}'];
    lemma_pieces(a0, seq!['}']);
    let a2 = a1 + seq!['\n'];
    lemma_pieces(a1, seq!['\n']);
    let a3 = a2 + seq!['\n'];
    lemma_pieces(a2, seq!['\n']);
    assert("\n}\n\n"@ =~= a3);
    assert(pieces("\n}\n\n"@) =~= seq![Piece::Sign('}')]);
}

pub proof fn lemma_text_function()
    ensures
        pieces("fn "@) == seq![Piece::Word("fn"@)],
        "fn "@.len() == 3,
        "fn "@[0] == 'f',
        "fn "@[2] == ' ',
{
    reveal_strlit("fn ");
    reveal_strlit("fn");
    lemma_word_fn();
    lemma_sign(' ');
    let a0 = "fn"@;
    let a1 = a0 + seq![' '];
    lemma_pieces(a0, seq![' ']);
    assert("fn "@ =~= a1);
    assert(pieces("fn "@) =~= seq![Piece::Word("fn"@)]);
}

pub proof fn lemma_text_main()
    ensures
        pieces("fn main() {\n    let _emela_result: "@) == seq![Piece::Word("fn"@), Piece::Word("main"@), Piece::Sign('('), Piece::Sign(')'), Piece::Sign('{'), Piece::Word("let"@), Piece::Word("_emela_result"@), Piece::Sign(':')],
        "fn main() {\n    let _emela_result: "@.len() == 35,
        "fn main() {\n    let _emela_result: "@[0] == 'f',
        "fn main() {\n    let _emela_result: "@[34] == ' ',
{
    reveal_strlit("fn main() {\n    let _emela_result: ");
    reveal_strlit("fn");
    lemma_word_fn();
    lemma_sign(' ');
    reveal_strlit("main");
    lemma_word_main();
    lemma_sign('(');
    lemma_sign(')');
    lemma_sign('{');
    lemma_sign('\n');
    reveal_strlit("let");
    lemma_word_let();
    reveal_strlit("_emela_result");
    lemma_word_result();
    lemma_colon();
    let a0 = "fn"@;
    let a1 = a0 + seq![' '];
    lemma_pieces(a0, seq![' ']);
    let a2 = a1 + "main"@;
    lemma_pieces(a1, "main"@);
    let a3 = a2 + seq!['('];
    lemma_pieces(a2, seq!['(']);
    let a4 = a3 + seq![')'];
    lemma_pieces(a3, seq![')']);
    let a5 = a4 + seq![' '];
    lemma_pieces(a4, seq![' ']);
    let a6 = a5 + seq!['{'];
    lemma_pieces(a5, seq!['{']);
    let a7 = a6 + seq!['\n'];
    lemma_pieces(a6, seq!['\n']);
    let a8 = a7 + seq![' '];
    lemma_pieces(a7, seq![' ']);
    let a9 = a8 + seq![' '];
    lemma_pieces(a8, seq![' ']);
    let a10 = a9 + seq![' '];
    lemma_pieces(a9, seq![' ']);
    let a11 = a10 + seq![' '];
    lemma_pieces(a10, seq![' ']);
    let a12 = a11 + "let"@;
    lemma_pieces(a11, "let"@);
    let a13 = a12 + seq![' '];
    lemma_pieces(a12, seq![' ']);
    let a14 = a13 + "_emela_result"@;
    lemma_pieces(a13, "_emela_result"@);
    let a15 = a14 + seq![':'];
    lemma_pieces(a14, seq![':']);
    let a16 = a15 + seq![' '];
    lemma_pieces(a15, seq![' ']);
    assert("fn main() {\n    let _emela_result: "@ =~= a16);
    assert(pieces("fn main() {\n    let _emela_result: "@) =~= seq![Piece::Word("fn"@), Piece::Word("main"@), Piece::Sign('('), Piece::Sign(')'), Piece::Sign('{'), Piece::Word("let"@), Piece::Word("_emela_result"@), Piece::Sign(':')]);
}

pub proof fn lemma_text_end()
    ensures
        pieces("}\n\n"@) == seq![Piece::Sign('}')],
        "}\n\n"@.len() == 3,
        "}\n\n"@[0] == '}',
        "}\n\n"@[2] == '\n',
{
    reveal_strlit("}\n\n");
    lemma_sign('}');
    lemma_sign('\n');
    let a0 = seq!['}'];
    let a1 = a0 + seq!['\n'];
    lemma_pieces(a0, seq!['\n']);
    let a2 = a1 + seq!['\n'];
    lemma_pieces(a1, seq!['\n']);
    assert("}\n\n"@ =~= a2);
    assert(pieces("}\n\n"@) =~= seq![Piece::Sign('}')]);
}

pub proof fn lemma_text_exit()
    ensures
        pieces("    std::process::exit(_emela_result);\n"@) == seq![Piece::Word("std"@), Piece::Pair(':', ':'), Piece::Word("process"@), Piece::Pair(':', ':'), Piece::Word("exit"@), Piece::Sign('('), Piece::Word("_emela_result"@), Piece::Sign(')'), Piece::Sign(';')],
        "    std::process::exit(_emela_result);\n"@.len() == 39,
        "    std::process::exit(_emela_result);\n"@[0] == ' ',
        "    std::process::exit(_emela_result);\n"@[38] == '\n',
{
    reveal_strlit("    std::process::exit(_emela_result);\n");
    lemma_sign(' ');
    reveal_strlit("std");
    lemma_word_std();
    lemma_pair(':', ':');
    reveal_strlit("process");
    lemma_word_process();
    reveal_strlit("exit");
    lemma_word_exit();
    lemma_sign('(');
    reveal_strlit("_emela_result");
    lemma_word_result();
    lemma_sign(')');
    lemma_sign(';');
    lemma_sign('\n');
    let a0 = seq![' '];
    let a1 = a0 + seq![' '];
    lemma_pieces(a0, seq![' ']);
    let a2 = a1 + seq![' '];
    lemma_pieces(a1, seq![' ']);
    let a3 = a2 + seq![' '];
    lemma_pieces(a2, seq![' ']);
    let a4 = a3 + "std"@;
    lemma_pieces(a3, "std"@);
    let a5 = a4 + seq![':', ':'];
    lemma_pieces(a4, seq![':', ':']);
    let a6 = a5 + "process"@;
    lemma_pieces(a5, "process"@);
    let a7 = a6 + seq![':', ':'];
    lemma_pieces(a6, seq![':', ':']);
    let a8 = a7 + "exit"@;
    lemma_pieces(a7, "exit"@);
    let a9 = a8 + seq!['('];
    lemma_pieces(a8, seq!['(']);
    let a10 = a9 + "_emela_result"@;
    lemma_pieces(a9, "_emela_result"@);
    let a11 = a10 + seq![')'];
    lemma_pieces(a10, seq![')']);
    let a12 = a11 + seq![';'];
    lemma_pieces(a11, seq![';']);
    let a13 = a12 + seq!['\n'];
    lemma_pieces(a12, seq!['\n']);
    assert("    std::process::exit(_emela_result);\n"@ =~= a13);
    assert(pieces("    std::process::exit(_emela_result);\n"@) =~= seq![Piece::Word("std"@), Piece::Pair(':', ':'), Piece::Word("process"@), Piece::Pair(':', ':'), Piece::Word("exit"@), Piece::Sign('('), Piece::Word("_emela_result"@), Piece::Sign(')'), Piece::Sign(';')]);
}

pub proof fn lemma_text_exit_truth()
    ensures
        pieces("    std::process::exit(if _emela_result { 0 } else { 1 });\n"@) == seq![Piece::Word("std"@), Piece::Pair(':', ':'), Piece::Word("process"@), Piece::Pair(':', ':'), Piece::Word("exit"@), Piece::Sign('('), Piece::Word("if"@), Piece::Word("_emela_result"@), Piece::Sign('{'), Piece::Word("0"@), Piece::Sign('}'), Piece::Word("else"@), Piece::Sign('{'), Piece::Word("1"@), Piece::Sign('}'), Piece::Sign(')'), Piece::Sign(';')],
        "    std::process::exit(if _emela_result { 0 } else { 1 });\n"@.len() == 59,
        "    std::process::exit(if _emela_result { 0 } else { 1 });\n"@[0] == ' ',
        "    std::process::exit(if _emela_result { 0 } else { 1 });\n"@[58] == '\n',
{
    reveal_strlit("    std::process::exit(if _emela_result { 0 } else { 1 });\n");
    lemma_sign(' ');
    reveal_strlit("std");
    lemma_word_std();
    lemma_pair(':', ':');
    reveal_strlit("process");
    lemma_word_process();
    reveal_strlit("exit");
    lemma_word_exit();
    lemma_sign('(');
    reveal_strlit("if");
    lemma_word_if();
    reveal_strlit("_emela_result");
    lemma_word_result();
    lemma_sign('{');
    reveal_strlit("0");
    lemma_word_zero();
    lemma_sign('}');
    reveal_strlit("else");
    lemma_word_else();
    reveal_strlit("1");
    lemma_word_one();
    lemma_sign(')');
    lemma_sign(';');
    lemma_sign('\n');
    let a0 = seq![' '];
    let a1 = a0 + seq![' '];
    lemma_pieces(a0, seq![' ']);
    let a2 = a1 + seq![' '];
    lemma_pieces(a1, seq![' ']);
    let a3 = a2 + seq![' '];
    lemma_pieces(a2, seq![' ']);
    let a4 = a3 + "std"@;
    lemma_pieces(a3, "std"@);
    let a5 = a4 + seq![':', ':'];
    lemma_pieces(a4, seq![':', ':']);
    let a6 = a5 + "process"@;
    lemma_pieces(a5, "process"@);
    let a7 = a6 + seq![':', ':'];
    lemma_pieces(a6, seq![':', ':']);
    let a8 = a7 + "exit"@;
    lemma_pieces(a7, "exit"@);
    let a9 = a8 + seq!['('];
    lemma_pieces(a8, seq!['(']);
    let a10 = a9 + "if"@;
    lemma_pieces(a9, "if"@);
    let a11 = a10 + seq![' '];
    lemma_pieces(a10, seq![' ']);
    let a12 = a11 + "_emela_result"@;
    lemma_pieces(a11, "_emela_result"@);
    let a13 = a12 + seq![' '];
    lemma_pieces(a12, seq![' ']);
    let a14 = a13 + seq!['{'];
    lemma_pieces(a13, seq!['{']);
    let a15 = a14 + seq![' '];
    lemma_pieces(a14, seq![' ']);
    let a16 = a15 + "0"@;
    lemma_pieces(a15, "0"@);
    let a17 = a16 + seq![' '];
    lemma_pieces(a16, seq![' ']);
    let a18 = a17 + seq!['}'];
    lemma_pieces(a17, seq!['}']);
    let a19 = a18 + seq![' '];
    lemma_pieces(a18, seq![' ']);
    let a20 = a19 + "else"@;
    lemma_pieces(a19, "else"@);
    let a21 = a20 + seq![' '];
    lemma_pieces(a20, seq![' ']);
    let a22 = a21 + seq!['{'];
    lemma_pieces(a21, seq!['{']);
    let a23 = a22 + seq![' '];
    lemma_pieces(a22, seq![' ']);
    let a24 = a23 + "1"@;
    lemma_pieces(a23, "1"@);
    let a25 = a24 + seq![' '];
    lemma_pieces(a24, seq![' ']);
    let a26 = a25 + seq!['}'];
    lemma_pieces(a25, seq!['}']);
    let a27 = a26 + seq![')'];
    lemma_pieces(a26, seq![')']);
    let a28 = a27 + seq![';'];
    lemma_pieces(a27, seq![';']);
    let a29 = a28 + seq!['\n'];
    lemma_pieces(a28, seq!['\n']);
    assert("    std::process::exit(if _emela_result { 0 } else { 1 });\n"@ =~= a29);
    assert(pieces("    std::process::exit(if _emela_result { 0 } else { 1 });\n"@) =~= seq![Piece::Word("std"@), Piece::Pair(':', ':'), Piece::Word("process"@), Piece::Pair(':', ':'), Piece::Word("exit"@), Piece::Sign('('), Piece::Word("if"@), Piece::Word("_emela_result"@), Piece::Sign('{'), Piece::Word("0"@), Piece::Sign('}'), Piece::Word("else"@), Piece::Sign('{'), Piece::Word("1"@), Piece::Sign('}'), Piece::Sign(')'), Piece::Sign(';')]);
}

} // verus!
