//! The texts of expressions, piece by piece.
use vstd::prelude::*;

use crate::seed::ast::{
    BinaryOp, BlockItemView, BlockView, ExprView, MatchArmView, Pattern, ProgramView,
};
use crate::seed::emit::{
    arm_text, arm_texts, binary_text, block_text, expr_text, expr_texts, item_text, items_text,
    name_text, pattern_text,
};
use crate::seed::pieces::{
    all_emittable, arm_emittable, arm_pieces, arms_emittable, arms_pieces, args_pieces, blank,
    block_emittable, block_pieces, emittable, expr_pieces, item_emittable, item_pieces,
    items_emittable, items_pieces, lemma_around, lemma_blank, lemma_pieces, lemma_regrouped,
    lemma_text_adds, lemma_text_arms, lemma_text_arms_end, lemma_text_arrow, lemma_text_binding,
    lemma_text_block, lemma_text_bound, lemma_text_brace, lemma_text_close, lemma_text_comma,
    lemma_text_dropping, lemma_text_empty, lemma_text_equal, lemma_text_feed, lemma_text_less,
    lemma_text_line, lemma_text_matching, lemma_text_multiplies, lemma_text_open,
    lemma_text_separator, lemma_text_space, lemma_text_subtracts, lemma_text_unit,
    lemma_text_unit_line, lemma_word, lemma_word_any, lemma_word_false, lemma_word_true, let_pieces,
    method_word, number_word, pattern_emittable, pattern_pieces,
};
use crate::seed::rust::{in_word, literal, number, pieces, starts_number, Piece};
use crate::text::{decimal, digit_char, joined, law_joined, signed_decimal};

verus! {

proof fn lemma_digit(d: nat)
    requires
        d < 10,
    ensures
        '0' <= digit_char(d) <= '9',
        digit_char(d) as nat - '0' as nat == d,
{
}

/// The digits of a number denote it.
pub proof fn lemma_number(n: nat)
    ensures
        decimal(n).len() > 0,
        forall|i: int| 0 <= i < decimal(n).len() ==> '0' <= #[trigger] decimal(n)[i] <= '9',
        number(decimal(n)) == n,
    decreases n,
{
    let text = decimal(n);
    lemma_digit(n % 10);
    if n < 10 {
        assert(text.drop_last() =~= Seq::empty());
        assert(number(text.drop_last()) == 0);
        assert(text.last() == digit_char(n));
        assert(number(text) == n);
    } else {
        lemma_number(n / 10);
        assert(text.drop_last() =~= decimal(n / 10));
        assert(text.last() == digit_char(n % 10));
        assert forall|i: int| 0 <= i < text.len() implies '0' <= #[trigger] text[i] <= '9' by {
            if i < text.len() - 1 {
                assert(text[i] == decimal(n / 10)[i]);
            }
        }
    }
}

/// The word of a number is read as that number.
pub proof fn lemma_number_word(value: i32)
    requires
        value >= 0,
    ensures
        pieces(number_word(value)) == seq![Piece::Word(number_word(value))],
        literal(number_word(value)) == Some(value),
        starts_number(number_word(value)),
        number_word(value) == signed_decimal(value as int) + "i32"@,
{
    let digits = decimal(value as nat);
    let word = number_word(value);
    lemma_number(value as nat);
    reveal_strlit("i32");
    assert("i32"@.len() == 3);
    let n = word.len() - 3;
    assert(word.take(n) =~= digits);
    assert(word.skip(n) =~= "i32"@);
    assert forall|i: int| 0 <= i < n implies '0' <= #[trigger] word[i] <= '9' by {
        assert(word[i] == digits[i]);
    }
    assert forall|i: int| 0 <= i < word.len() implies in_word(#[trigger] word[i]) by {
        if i >= n {
            assert(word[i] == "i32"@[i - n]);
            assert(i == n || i == n + 1 || i == n + 2);
        }
    }
    lemma_word(word);
    assert(word[0] == digits[0]);
}

pub proof fn lemma_pattern_text(pattern: Pattern)
    requires
        pattern_emittable(pattern),
    ensures
        pieces(pattern_text(pattern)) == pattern_pieces(pattern),
{
    match pattern {
        Pattern::Int(value) => lemma_number_word(value),
        Pattern::Bool(value) => {
            lemma_word_true();
            lemma_word_false();
        },
        Pattern::Unit => lemma_text_unit(),
        Pattern::Wildcard => lemma_word_any(),
    }
}

pub proof fn lemma_binary_text(op: BinaryOp, left: Seq<char>, right: Seq<char>)
    ensures
        pieces(binary_text(op, left, right)) == match op {
            BinaryOp::Eq => seq![Piece::Sign('(')] + (pieces(left) + (seq![Piece::Pair('=', '=')]
                + (pieces(right) + seq![Piece::Sign(')')]))),
            BinaryOp::Lt => seq![Piece::Sign('(')] + (pieces(left) + (seq![Piece::Sign('<')] + (
            pieces(right) + seq![Piece::Sign(')')]))),
            _ => pieces(left) + (seq![
                Piece::Sign('.'),
                Piece::Word(method_word(op)),
                Piece::Sign('('),
            ] + (pieces(right) + seq![Piece::Sign(')')])),
        },
{
    let l = pieces(left);
    let r = pieces(right);
    let close = seq![Piece::Sign(')')];
    lemma_text_open();
    lemma_text_close();
    match op {
        BinaryOp::Eq => {
            lemma_text_equal();
            lemma_pieces("("@, left);
            lemma_around("("@ + left, " == "@, right);
            lemma_pieces("("@ + left + " == "@ + right, ")"@);
            let open = seq![Piece::Sign('(')];
            let mid = seq![Piece::Pair('=', '=')];
            assert(open + l + mid + r + close =~= open + (l + (mid + (r + close))));
        },
        BinaryOp::Lt => {
            lemma_text_less();
            lemma_pieces("("@, left);
            lemma_around("("@ + left, " < "@, right);
            lemma_pieces("("@ + left + " < "@ + right, ")"@);
            let open = seq![Piece::Sign('(')];
            let mid = seq![Piece::Sign('<')];
            assert(open + l + mid + r + close =~= open + (l + (mid + (r + close))));
        },
        BinaryOp::Add => {
            lemma_text_adds();
            lemma_around(left, ".wrapping_add("@, right);
            lemma_pieces(left + ".wrapping_add("@ + right, ")"@);
            let mid = pieces(".wrapping_add("@);
            assert(l + mid + r + close =~= l + (mid + (r + close)));
        },
        BinaryOp::Sub => {
            lemma_text_subtracts();
            lemma_around(left, ".wrapping_sub("@, right);
            lemma_pieces(left + ".wrapping_sub("@ + right, ")"@);
            let mid = pieces(".wrapping_sub("@);
            assert(l + mid + r + close =~= l + (mid + (r + close)));
        },
        BinaryOp::Mul => {
            lemma_text_multiplies();
            lemma_around(left, ".wrapping_mul("@, right);
            lemma_pieces(left + ".wrapping_mul("@ + right, ")"@);
            let mid = pieces(".wrapping_mul("@);
            assert(l + mid + r + close =~= l + (mid + (r + close)));
        },
    }
}

pub proof fn lemma_expr_text(p: ProgramView, e: ExprView, pad: Seq<char>)
    requires
        emittable(p, e),
        blank(pad),
    ensures
        pieces(expr_text(e, pad)) == expr_pieces(e),
    decreases e, 0int,
{
    match e {
        ExprView::Int(value) => lemma_number_word(value),
        ExprView::Bool(value) => {
            lemma_word_true();
            lemma_word_false();
        },
        ExprView::Unit => lemma_text_unit(),
        ExprView::Var(name) => lemma_word(name),
        ExprView::Call { name, args } => {
            let list = joined(expr_texts(args, pad), ", "@);
            lemma_args_text(p, args, 0, pad);
            assert(expr_texts(args, pad).skip(0) =~= expr_texts(args, pad));
            lemma_word(name_text(name));
            lemma_text_open();
            lemma_text_close();
            lemma_around(name_text(name), "("@, list);
            lemma_pieces(name_text(name) + "("@ + list, ")"@);
            let a = seq![Piece::Word(name_text(name))];
            let b = seq![Piece::Sign('(')];
            let c = args_pieces(args, 0);
            let d = seq![Piece::Sign(')')];
            assert(a + b + c + d =~= seq![Piece::Word(name_text(name)), Piece::Sign('(')] + (c + d));
        },
        ExprView::MethodCall { .. } => {},
        ExprView::Binary { op, left, right } => {
            lemma_expr_text(p, *left, pad);
            lemma_expr_text(p, *right, pad);
            lemma_binary_text(op, expr_text(*left, pad), expr_text(*right, pad));
        },
        ExprView::Match { scrutinee, arms } => {
            let list = joined(arm_texts(arms, pad), " "@);
            let text = expr_text(*scrutinee, pad);
            lemma_expr_text(p, *scrutinee, pad);
            lemma_arms_text(p, arms, 0, pad);
            assert(arm_texts(arms, pad).skip(0) =~= arm_texts(arms, pad));
            lemma_text_matching();
            lemma_text_arms();
            lemma_text_arms_end();
            lemma_pieces("match "@, text);
            lemma_around("match "@ + text, " { "@, list);
            lemma_pieces("match "@ + text + " { "@ + list, " }"@);
            let a = seq![Piece::Word("match"@)];
            let b = expr_pieces(*scrutinee);
            let c = seq![Piece::Sign('{')];
            let d = arms_pieces(arms, 0);
            let z = seq![Piece::Sign('}')];
            assert(a + b + c + d + z =~= a + (b + (c + (d + z))));
        },
        ExprView::Block(block) => lemma_block_text(p, block, pad),
    }
}

/// The arguments are emitted in their order.
pub proof fn lemma_args_text(p: ProgramView, args: Seq<ExprView>, i: int, pad: Seq<char>)
    requires
        0 <= i <= args.len(),
        all_emittable(p, args, i),
        blank(pad),
    ensures
        pieces(joined(expr_texts(args, pad).skip(i), ", "@)) == args_pieces(args, i),
    decreases args, args.len() - i,
{
    let list = expr_texts(args, pad).skip(i);
    if i < args.len() {
        lemma_expr_text(p, args[i], pad);
        assert(list[0] == expr_text(args[i], pad));
        if i + 1 < args.len() {
            let rest = expr_texts(args, pad).skip(i + 1);
            lemma_args_text(p, args, i + 1, pad);
            law_joined(list, ", "@);
            assert(list.drop_first() =~= rest);
            lemma_text_separator();
            lemma_around(list[0], ", "@, joined(rest, ", "@));
            lemma_regrouped(
                expr_pieces(args[i]),
                seq![Piece::Sign(',')],
                args_pieces(args, i + 1),
            );
        } else {
            assert(list.len() == 1);
            assert(args_pieces(args, i) =~= expr_pieces(args[i]));
        }
    } else {
        assert(list.len() == 0);
        assert(pieces(Seq::empty()) =~= Seq::empty());
    }
}

pub proof fn lemma_arm_text(p: ProgramView, arm: MatchArmView, pad: Seq<char>)
    requires
        arm_emittable(p, arm),
        blank(pad),
    ensures
        pieces(arm_text(arm, pad)) == arm_pieces(arm),
    decreases arm, 0int,
{
    let pattern = pattern_text(arm.pattern);
    let text = expr_text(arm.expr, pad);
    lemma_pattern_text(arm.pattern);
    lemma_expr_text(p, arm.expr, pad);
    lemma_text_arrow();
    lemma_text_comma();
    lemma_around(pattern, " => "@, text);
    lemma_pieces(pattern + " => "@ + text, ","@);
    let a = pattern_pieces(arm.pattern);
    let b = seq![Piece::Pair('=', '>')];
    let c = expr_pieces(arm.expr);
    let d = seq![Piece::Sign(',')];
    assert(a + b + c + d =~= a + (b + (c + d)));
}

pub proof fn lemma_arms_text(p: ProgramView, arms: Seq<MatchArmView>, i: int, pad: Seq<char>)
    requires
        0 <= i <= arms.len(),
        arms_emittable(p, arms, i),
        blank(pad),
    ensures
        pieces(joined(arm_texts(arms, pad).skip(i), " "@)) == arms_pieces(arms, i),
    decreases arms, arms.len() - i,
{
    let list = arm_texts(arms, pad).skip(i);
    if i < arms.len() {
        lemma_arm_text(p, arms[i], pad);
        assert(list[0] == arm_text(arms[i], pad));
        lemma_arms_text(p, arms, i + 1, pad);
        if i + 1 < arms.len() {
            let rest = arm_texts(arms, pad).skip(i + 1);
            law_joined(list, " "@);
            assert(list.drop_first() =~= rest);
            lemma_text_space();
            lemma_around(list[0], " "@, joined(rest, " "@));
            assert(arm_pieces(arms[i]) + Seq::<Piece>::empty() =~= arm_pieces(arms[i]));
        } else {
            assert(list.len() == 1);
            assert(arms_pieces(arms, i) =~= arm_pieces(arms[i]));
        }
    } else {
        assert(list.len() == 0);
        assert(pieces(Seq::empty()) =~= Seq::empty());
    }
}

/// A line that binds the value of an expression to a name.
pub proof fn lemma_let_text(pad: Seq<char>, name: Seq<char>, text: Seq<char>)
    requires
        blank(pad),
        pieces(name) == seq![Piece::Word(name)],
    ensures
        ({
            let line = pad + "let "@ + name + " = "@ + text + ";\n"@;
            &&& pieces(line) == let_pieces(name, pieces(text))
            &&& line.len() > 0
            &&& line.last() == '\n'
        }),
{
    let line = pad + "let "@ + name + " = "@ + text + ";\n"@;
    lemma_blank(pad);
    lemma_text_binding();
    lemma_text_bound();
    lemma_text_line();
    if pad.len() > 0 {
        assert(pad[pad.len() - 1] == ' ');
    }
    lemma_pieces(pad, "let "@);
    assert((pad + "let "@).last() == ' ');
    lemma_pieces(pad + "let "@, name);
    lemma_around(pad + "let "@ + name, " = "@, text);
    lemma_pieces(pad + "let "@ + name + " = "@ + text, ";\n"@);
    let a = seq![Piece::Word("let"@)];
    let b = seq![Piece::Word(name)];
    let c = seq![Piece::Sign('=')];
    let d = pieces(text);
    let z = seq![Piece::Sign(';')];
    assert(Seq::<Piece>::empty() + a + b + c + d + z =~= let_pieces(name, d));
}

pub proof fn lemma_item_text(p: ProgramView, item: BlockItemView, is_last: bool, pad: Seq<char>)
    requires
        item_emittable(p, item),
        blank(pad),
    ensures
        pieces(item_text(item, is_last, pad)) == item_pieces(item, is_last),
        item_text(item, is_last, pad).len() > 0,
        item_text(item, is_last, pad).last() == '\n',
    decreases item, 0int,
{
    lemma_blank(pad);
    if pad.len() > 0 {
        assert(pad[pad.len() - 1] == ' ');
        assert(pad[0] == ' ');
    }
    match item {
        BlockItemView::Binding { name, expr } => {
            let line = pad + "let "@ + name + " = "@ + expr_text(expr, pad) + ";\n"@;
            lemma_expr_text(p, expr, pad);
            lemma_word(name);
            lemma_let_text(pad, name, expr_text(expr, pad));
            if is_last {
                lemma_text_unit_line();
                lemma_pieces(line, pad);
                assert((line + pad).len() > 0 && (line + pad).last() == if pad.len() > 0 {
                    pad.last()
                } else {
                    line.last()
                });
                lemma_pieces(line + pad, "()\n"@);
                assert((line + pad + "()\n"@).last() == "()\n"@.last());
                assert(pieces(line) + Seq::<Piece>::empty() =~= pieces(line));
            } else {
                assert(item_pieces(item, is_last) =~= let_pieces(name, expr_pieces(expr)));
            }
        },
        BlockItemView::Expr(expr) => {
            let text = expr_text(expr, pad);
            lemma_expr_text(p, expr, pad);
            if is_last {
                lemma_text_feed();
                lemma_pieces(pad, text);
                lemma_pieces(pad + text, "\n"@);
                assert((pad + text + "\n"@).last() == "\n"@.last());
                assert(Seq::<Piece>::empty() + expr_pieces(expr) + Seq::<Piece>::empty()
                    =~= expr_pieces(expr));
            } else {
                lemma_text_dropping();
                lemma_text_line();
                lemma_pieces(pad, "let _ = "@);
                assert((pad + "let _ = "@).last() == ' ');
                lemma_pieces(pad + "let _ = "@, text);
                lemma_pieces(pad + "let _ = "@ + text, ";\n"@);
                assert((pad + "let _ = "@ + text + ";\n"@).last() == ";\n"@.last());
                let a = seq![Piece::Word("let"@), Piece::Word("_"@), Piece::Sign('=')];
                let z = seq![Piece::Sign(';')];
                assert(Seq::<Piece>::empty() + a + expr_pieces(expr) + z =~= let_pieces(
                    "_"@,
                    expr_pieces(expr),
                ));
            }
        },
    }
}

pub proof fn lemma_items_text(p: ProgramView, items: Seq<BlockItemView>, n: int, pad: Seq<char>)
    requires
        0 <= n <= items.len(),
        items_emittable(p, items, 0),
        blank(pad),
    ensures
        pieces(items_text(items, n, pad)) + items_pieces(items, n) == items_pieces(items, 0),
        n > 0 ==> items_text(items, n, pad).len() > 0 && items_text(items, n, pad).last() == '\n',
        n == 0 ==> items_text(items, n, pad).len() == 0,
    decreases items, n,
{
    if n > 0 {
        let before = items_text(items, n - 1, pad);
        let line = item_text(items[n - 1], n == items.len(), pad);
        lemma_items_text(p, items, n - 1, pad);
        lemma_each_item(p, items, 0, n - 1);
        lemma_item_text(p, items[n - 1], n == items.len(), pad);
        lemma_pieces(before, line);
        assert((before + line).last() == line.last());
        lemma_regrouped(
            pieces(before),
            item_pieces(items[n - 1], n == items.len()),
            items_pieces(items, n),
        );
    } else {
        assert(pieces(Seq::empty()) =~= Seq::empty());
        assert(Seq::<Piece>::empty() + items_pieces(items, 0) =~= items_pieces(items, 0));
    }
}

/// Each item of a list is one that can be emitted.
pub proof fn lemma_each_item(p: ProgramView, items: Seq<BlockItemView>, i: int, k: int)
    requires
        0 <= i <= k < items.len(),
        items_emittable(p, items, i),
    ensures
        item_emittable(p, items[k]),
    decreases k - i,
{
    if i < k {
        lemma_each_item(p, items, i + 1, k);
    }
}

pub proof fn lemma_block_text(p: ProgramView, block: BlockView, pad: Seq<char>)
    requires
        block_emittable(p, block),
        blank(pad),
    ensures
        pieces(block_text(block, pad)) == block_pieces(block),
    decreases block, 0int,
{
    let items = block.items;
    if items.len() == 0 {
        lemma_text_empty();
        assert(items_pieces(items, 0) =~= Seq::empty());
        assert(block_pieces(block) =~= seq![Piece::Sign('{'), Piece::Sign('}')]);
    } else {
        let inner = pad + "    "@;
        reveal_strlit("    ");
        assert forall|i: int| 0 <= i < inner.len() implies #[trigger] inner[i] == ' ' by {
            if i >= pad.len() {
                let k = i - pad.len();
                assert(k == 0 || k == 1 || k == 2 || k == 3);
                assert(inner[i] == "    "@[k]);
            } else {
                assert(inner[i] == pad[i]);
            }
        }
        let n = items.len() as int;
        let text = items_text(items, n, inner);
        lemma_items_text(p, items, n, inner);
        assert(items_pieces(items, n) =~= Seq::empty());
        assert(pieces(text) + Seq::<Piece>::empty() =~= pieces(text));
        lemma_text_block();
        lemma_text_brace();
        lemma_blank(pad);
        lemma_pieces("{\n"@, text);
        assert(("{\n"@ + text).last() == '\n');
        lemma_pieces("{\n"@ + text, pad);
        lemma_pieces("{\n"@ + text + pad, "}"@);
        let a = seq![Piece::Sign('{')];
        let z = seq![Piece::Sign('}')];
        assert(a + items_pieces(items, 0) + Seq::<Piece>::empty() + z =~= a + (items_pieces(
            items,
            0,
        ) + z));
    }
}

} // verus!
